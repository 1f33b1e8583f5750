//! The persisted display configuration and the decisions drawn from it:
//! whether the stored monitor list is out of step with the connected one,
//! and which monitors a run targets under the configured mode.

use vstd::prelude::*;
use vstd::string::StrSliceExecFns;
use vstd::string::StringExecFns;
use crate::monitor::lists_match;
use crate::monitor::vec_contains_string;
use crate::text::find_char;
use crate::text::find_char_from;
use crate::text::lemma_find_char_from;
use crate::text::numeric_value;
use crate::text::parse_decimal_range;
use crate::text::str_eq;
use crate::text::trim_range;
use crate::text::trim_seq;

verus! {

/// The display section of the persisted configuration: the preferred
/// monitor, the monitors the user configured, and the operating mode,
/// `"single"` or `"multiple"` (the default).
#[derive(Debug, Clone)]
pub struct Display {
    pub preferred_monitor: String,
    pub available_monitors: Vec<String>,
    pub mode: String,
}

/// The persisted configuration document.
#[derive(Debug, Clone)]
pub struct Config {
    pub display: Display,
}

/// The operating mode a configuration takes when none is stored.
pub fn default_mode() -> (r: String)
    ensures
        r@ == "multiple"@,
{
    "multiple".to_owned()
}

impl Default for Config {
    /// The configuration a first run starts from: no preferred monitor,
    /// no configured monitors, the default mode.
    fn default() -> (r: Config)
        ensures
            r.display.preferred_monitor@ == Seq::<char>::empty(),
            r.display.available_monitors.deep_view() == Seq::<Seq<char>>::empty(),
            r.display.mode@ == "multiple"@,
    {
        let r = Config {
            display: Display {
                preferred_monitor: String::new(),
                available_monitors: Vec::new(),
                mode: default_mode(),
            },
        };
        proof {
            assert(r.display.available_monitors.deep_view() =~= Seq::<Seq<char>>::empty());
        }
        r
    }
}

/// Whether the stored configuration is out of step with the connected
/// monitors: in single mode, exactly when the preferred monitor is not
/// connected; otherwise, exactly when the configured list and the
/// connected list do not name the same monitors.
pub open spec fn spec_needs_update(cfg: Config, connected: Seq<Seq<char>>) -> bool {
    if cfg.display.mode@ == "single"@ {
        !connected.contains(cfg.display.preferred_monitor@)
    } else {
        !(cfg.display.available_monitors.deep_view().len() == connected.len()
            && cfg.display.available_monitors.deep_view().to_set() == connected.to_set())
    }
}

/// Executable form of [`spec_needs_update`].
pub fn config_needs_update(cfg: &Config, connected: &Vec<String>) -> (r: bool)
    ensures
        r == spec_needs_update(*cfg, connected.deep_view()),
{
    if str_eq(cfg.display.mode.as_str(), "single") {
        !vec_contains_string(connected, &cfg.display.preferred_monitor)
    } else {
        !lists_match(&cfg.display.available_monitors, connected)
    }
}

/// An element-wise copy of a string vector.
pub fn clone_string_vec(v: &Vec<String>) -> (r: Vec<String>)
    ensures
        r.deep_view() == v.deep_view(),
{
    let n = v.len();
    let mut r: Vec<String> = Vec::new();
    let mut i: usize = 0;
    while i < n
        invariant
            n == v.len(),
            i <= n,
            r.deep_view() == v.deep_view().take(i as int),
        decreases n - i,
    {
        let ghost old_dv = r.deep_view();
        let c = v[i].clone();
        proof {
            assert(c@ == v@[i as int]@);
        }
        r.push(c);
        proof {
            assert forall|k: int| 0 <= k < old_dv.len() + 1 implies r.deep_view()[k]
                == v.deep_view().take(i + 1)[k] by {
                if k < old_dv.len() {
                    assert(r.deep_view()[k] == old_dv[k]);
                }
            }
            assert(r.deep_view() =~= v.deep_view().take(i + 1));
        }
        i = i + 1;
    }
    proof {
        assert(v.deep_view().take(n as int) =~= v.deep_view());
    }
    r
}

/// The monitors a run targets: in single mode, the preferred monitor
/// alone when it is connected, the first detected monitor as the fallback
/// otherwise; in multiple mode, every connected monitor.
pub open spec fn spec_target_monitors(cfg: Config, connected: Seq<Seq<char>>) -> Seq<
    Seq<char>,
> {
    if cfg.display.mode@ == "single"@ {
        if connected.contains(cfg.display.preferred_monitor@) {
            seq![cfg.display.preferred_monitor@]
        } else {
            seq![connected[0]]
        }
    } else {
        connected
    }
}

/// Executable form of [`spec_target_monitors`].
pub fn select_target_monitors(cfg: &Config, connected: &Vec<String>) -> (r: Vec<String>)
    requires
        connected@.len() > 0,
    ensures
        r.deep_view() == spec_target_monitors(*cfg, connected.deep_view()),
{
    if str_eq(cfg.display.mode.as_str(), "single") {
        let mut r: Vec<String> = Vec::new();
        if vec_contains_string(connected, &cfg.display.preferred_monitor) {
            r.push(cfg.display.preferred_monitor.clone());
        } else {
            r.push(connected[0].clone());
        }
        proof {
            assert(r.deep_view() =~= spec_target_monitors(*cfg, connected.deep_view()));
        }
        r
    } else {
        clone_string_vec(connected)
    }
}

/// The per-user path of the persisted configuration document under the
/// given home directory.
pub fn get_config_path(home: &str) -> (r: String)
    ensures
        r@ == home@ + "/.local/share/omynix/waybar-manager/config.toml"@,
{
    let mut p = home.to_owned();
    p.append("/.local/share/omynix/waybar-manager/config.toml");
    p
}

/// One step of reading the interactive monitor selection: the trimmed
/// field `t`, read as a 1-based monitor number, adds its monitor to the
/// selection unless the number is out of range, the field is no number,
/// or the monitor is already selected.
pub open spec fn selection_step(
    t: Seq<char>,
    connected: Seq<Seq<char>>,
    acc: Seq<Seq<char>>,
) -> Seq<Seq<char>> {
    match numeric_value(t) {
        Some(v) => if 1 <= v <= connected.len() {
            if acc.contains(connected[v - 1]) {
                acc
            } else {
                acc.push(connected[v - 1])
            }
        } else {
            acc
        },
        None => acc,
    }
}

/// The selection after reading every comma-separated field of `s[i..]`,
/// starting from the monitors already in `acc`.
pub open spec fn apply_selection_from(
    s: Seq<char>,
    i: int,
    connected: Seq<Seq<char>>,
    acc: Seq<Seq<char>>,
) -> Seq<Seq<char>>
    decreases s.len() - i when 0 <= i <= s.len() via apply_selection_from_decreases
{
    let j = find_char_from(s, ',', i);
    let acc2 = selection_step(trim_seq(s.subrange(i, j)), connected, acc);
    if j >= s.len() {
        acc2
    } else {
        apply_selection_from(s, j + 1, connected, acc2)
    }
}

#[via_fn]
proof fn apply_selection_from_decreases(
    s: Seq<char>,
    i: int,
    connected: Seq<Seq<char>>,
    acc: Seq<Seq<char>>,
) {
    lemma_find_char_from(s, ',', i);
}

/// The monitors an interactive selection answer picks: an empty answer
/// picks every connected monitor; otherwise the preferred monitor opens
/// the selection and each comma-separated field adds the monitor it
/// numbers, invalid fields skipped and duplicates kept out.
pub open spec fn spec_selection(
    selection: Seq<char>,
    connected: Seq<Seq<char>>,
    preferred_idx: int,
) -> Seq<Seq<char>> {
    let t = trim_seq(selection);
    if t.len() == 0 {
        connected
    } else {
        apply_selection_from(t, 0, connected, seq![connected[preferred_idx]])
    }
}

/// Reads the interactive monitor-selection answer against the connected
/// monitors, the preferred monitor standing at `preferred_idx`.
#[verifier::rlimit(50)]
pub fn parse_monitor_selection(
    selection: &str,
    connected: &Vec<String>,
    preferred_idx: usize,
) -> (r: Vec<String>)
    requires
        preferred_idx < connected@.len(),
    ensures
        r.deep_view() == spec_selection(
            selection@,
            connected.deep_view(),
            preferred_idx as int,
        ),
{
    let ghost cdv = connected.deep_view();
    let v = crate::text::chars_of(selection);
    let n = v.len();
    let (ta, tb) = trim_range(&v, 0, n);
    proof {
        assert(selection@.subrange(0, n as int) =~= selection@);
    }
    if ta == tb {
        proof {
            assert(trim_seq(selection@).len() == 0);
        }
        return clone_string_vec(connected);
    }
    let trimmed = selection.substring_char(ta, tb);
    let tv = crate::text::chars_of(trimmed);
    let m = tv.len();
    proof {
        assert(tv@ == trim_seq(selection@));
        assert(tv@.len() > 0);
    }
    let cl = connected.len();
    proof {
        assert(cdv.len() == cl as int);
    }
    let mut acc: Vec<String> = Vec::new();
    acc.push(connected[preferred_idx].clone());
    proof {
        assert(acc.deep_view() =~= seq![cdv[preferred_idx as int]]);
    }
    let ghost target = apply_selection_from(tv@, 0, cdv, acc.deep_view());
    let mut pos: usize = 0;
    loop
        invariant_except_break
            pos <= m,
            m == tv@.len(),
            tv@ == trim_seq(selection@),
            cdv == connected.deep_view(),
            apply_selection_from(tv@, pos as int, cdv, acc.deep_view()) == target,
        invariant
            m == tv@.len(),
            cl == connected.len(),
            cdv == connected.deep_view(),
            cdv.len() == cl as int,
        ensures
            acc.deep_view() == target,
        decreases m - pos,
    {
        let j = find_char(&tv, ',', pos, m);
        proof {
            assert(tv@.subrange(0, m as int) =~= tv@);
        }
        let (fa, fb) = trim_range(&tv, pos, j);
        let ghost t = trim_seq(tv@.subrange(pos as int, j as int));
        proof {
            assert(tv@.subrange(fa as int, fb as int) == t);
        }
        let candidate = parse_decimal_range(&tv, fa, fb, usize::MAX as u64);
        proof {
            if numeric_value(t) is Some {
                crate::text::lemma_digits_value_lower_bound(
                    crate::text::numeric_body(t),
                    0,
                    0,
                );
            }
        }
        let ghost acc_before = acc.deep_view();
        match candidate {
            Some(val) => {
                proof {
                    assert(numeric_value(t) == Some(val as int));
                }
                if val >= 1 && val <= cl as u64 {
                    let idx = (val as usize) - 1;
                    let monitor = &connected[idx];
                    proof {
                        assert(idx as int == val as int - 1);
                        assert(monitor@ == cdv[val as int - 1]);
                    }
                    if !vec_contains_string(&acc, monitor) {
                        acc.push(monitor.clone());
                        proof {
                            assert(acc.deep_view() =~= acc_before.push(cdv[val as int - 1]));
                            assert(selection_step(t, cdv, acc_before) == acc_before.push(
                                cdv[val as int - 1],
                            ));
                        }
                    } else {
                        proof {
                            assert(selection_step(t, cdv, acc_before) == acc_before);
                        }
                    }
                } else {
                    proof {
                        assert(selection_step(t, cdv, acc_before) == acc_before);
                    }
                }
            },
            None => {
                proof {
                    assert(selection_step(t, cdv, acc_before) == acc_before);
                }
            },
        }
        proof {
            assert(acc.deep_view() == selection_step(t, cdv, acc_before));
        }
        if j == m {
            break;
        }
        pos = j + 1;
    }
    acc
}

} // verus!
