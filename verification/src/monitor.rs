//! Monitor-list logic: parsing window-manager query output into an ordered
//! monitor list, and the set comparisons between configured and connected
//! monitors.

use vstd::prelude::*;
use vstd::string::StrSliceExecFns;
use vstd::string::StringExecFns;
use crate::errors::ManagerError;
use crate::text::chars_of;
use crate::text::contains_range;
use crate::text::find_char;
use crate::text::find_char_from;
use crate::text::is_ws_char;
use crate::text::lemma_digits_value_lower_bound;
use crate::text::lemma_skip_non_ws_from;
use crate::text::lemma_skip_ws_from;
use crate::text::lines_of;
use crate::text::numeric_body;
use crate::text::numeric_value;
use crate::text::parse_decimal_range;
use crate::text::trim_range;
use crate::text::trim_seq;
use crate::text::skip_non_ws;
use crate::text::skip_non_ws_from;
use crate::text::skip_ws;
use crate::text::skip_ws_from;
use crate::text::split_lines;
use crate::text::starts_with_range;
use crate::text::starts_with_seq;
use crate::text::contains_seq;
use crate::window_manager::WindowManager;

verus! {

/// Whether `v` holds a string spelling `x`.
pub fn vec_contains_string(v: &Vec<String>, x: &String) -> (r: bool)
    ensures
        r == v.deep_view().contains(x@),
{
    let n = v.len();
    let mut i: usize = 0;
    while i < n
        invariant
            n == v.len(),
            i <= n,
            forall|j: int| 0 <= j < i ==> v.deep_view()[j] != x@,
        decreases n - i,
    {
        if v[i].eq(x) {
            proof {
                assert(v.deep_view()[i as int] == x@);
            }
            return true;
        }
        i = i + 1;
    }
    proof {
        assert forall|j: int| 0 <= j < v.deep_view().len() implies v.deep_view()[j] != x@ by {}
    }
    false
}

/// Whether the two vectors spell the same set of strings, multiplicity and
/// order set aside.
pub fn string_set_eq(a: &Vec<String>, b: &Vec<String>) -> (r: bool)
    ensures
        r == (a.deep_view().to_set() == b.deep_view().to_set()),
{
    let ghost sa = a.deep_view().to_set();
    let ghost sb = b.deep_view().to_set();
    let na = a.len();
    let mut i: usize = 0;
    while i < na
        invariant
            na == a.len(),
            i <= na,
            sa == a.deep_view().to_set(),
            sb == b.deep_view().to_set(),
            forall|j: int| 0 <= j < i ==> sb.contains(a.deep_view()[j]),
        decreases na - i,
    {
        if !vec_contains_string(b, &a[i]) {
            proof {
                assert(sa.contains(a.deep_view()[i as int]));
                assert(!sb.contains(a.deep_view()[i as int]));
            }
            return false;
        }
        i = i + 1;
    }
    let nb = b.len();
    let mut k: usize = 0;
    while k < nb
        invariant
            nb == b.len(),
            k <= nb,
            sa == a.deep_view().to_set(),
            sb == b.deep_view().to_set(),
            forall|j: int| 0 <= j < a.deep_view().len() ==> sb.contains(a.deep_view()[j]),
            forall|j: int| 0 <= j < k ==> sa.contains(b.deep_view()[j]),
        decreases nb - k,
    {
        if !vec_contains_string(a, &b[k]) {
            proof {
                assert(sb.contains(b.deep_view()[k as int]));
                assert(!sa.contains(b.deep_view()[k as int]));
            }
            return false;
        }
        k = k + 1;
    }
    proof {
        assert forall|x: Seq<char>| sa.contains(x) implies sb.contains(x) by {
            let j = choose|j: int| 0 <= j < a.deep_view().len() && a.deep_view()[j] == x;
            assert(sb.contains(a.deep_view()[j]));
        }
        assert forall|x: Seq<char>| sb.contains(x) implies sa.contains(x) by {
            let j = choose|j: int| 0 <= j < b.deep_view().len() && b.deep_view()[j] == x;
            assert(sa.contains(b.deep_view()[j]));
        }
        assert(sa =~= sb);
    }
    true
}

/// The monitors on both lists: the set intersection of `configured` and
/// `connected`, one entry for each common name, in the order `configured`
/// first names them. Whatever the order of the two inputs, the result holds
/// the same names.
pub fn find_matches(configured: &Vec<String>, connected: &Vec<String>) -> (r: Vec<String>)
    ensures
        r.deep_view().to_set() == configured.deep_view().to_set().intersect(
            connected.deep_view().to_set(),
        ),
        forall|i: int, j: int|
            0 <= i < j < r.deep_view().len() ==> r.deep_view()[i] != r.deep_view()[j],
{
    let n = configured.len();
    let mut r: Vec<String> = Vec::new();
    let mut i: usize = 0;
    while i < n
        invariant
            n == configured.len(),
            i <= n,
            forall|x: Seq<char>|
                r.deep_view().contains(x) <==> (configured.deep_view().take(i as int).contains(x)
                    && connected.deep_view().contains(x)),
            forall|p: int, q: int|
                0 <= p < q < r.deep_view().len() ==> r.deep_view()[p] != r.deep_view()[q],
        decreases n - i,
    {
        let m = &configured[i];
        if vec_contains_string(connected, m) && !vec_contains_string(&r, m) {
            let ghost old_r = r.deep_view();
            r.push(m.clone());
            proof {
                assert(r.deep_view() =~= old_r.push(m@));
                assert forall|x: Seq<char>|
                    r.deep_view().contains(x) <==> (configured.deep_view().take(
                        i + 1,
                    ).contains(x) && connected.deep_view().contains(x)) by {
                    if r.deep_view().contains(x) {
                        let j = choose|j: int|
                            0 <= j < r.deep_view().len() && r.deep_view()[j] == x;
                        if j < old_r.len() {
                            assert(old_r.contains(x));
                            let t = choose|t: int|
                                0 <= t < i && configured.deep_view().take(i as int)[t] == x;
                            assert(configured.deep_view().take(i + 1)[t] == x);
                        } else {
                            assert(x == m@);
                            assert(configured.deep_view().take(i + 1)[i as int] == x);
                        }
                    }
                    if configured.deep_view().take(i + 1).contains(x)
                        && connected.deep_view().contains(x) {
                        let t = choose|t: int|
                            0 <= t < i + 1 && #[trigger] configured.deep_view().take(i + 1)[t]
                                == x;
                        if t < i {
                            assert(configured.deep_view().take(i as int)[t] == x);
                            assert(old_r.contains(x));
                            let j = choose|j: int| 0 <= j < old_r.len() && old_r[j] == x;
                            assert(r.deep_view()[j] == x);
                        } else {
                            assert(x == m@);
                            assert(r.deep_view()[old_r.len() as int] == x);
                        }
                    }
                }
            }
        } else {
            proof {
                assert forall|x: Seq<char>|
                    r.deep_view().contains(x) <==> (configured.deep_view().take(
                        i + 1,
                    ).contains(x) && connected.deep_view().contains(x)) by {
                    if r.deep_view().contains(x) {
                        assert(configured.deep_view().take(i as int).contains(x));
                        let t = choose|t: int|
                            0 <= t < i && #[trigger] configured.deep_view().take(i as int)[t]
                                == x;
                        assert(configured.deep_view().take(i + 1)[t] == x);
                    }
                    if configured.deep_view().take(i + 1).contains(x)
                        && connected.deep_view().contains(x) {
                        let t = choose|t: int|
                            0 <= t < i + 1 && #[trigger] configured.deep_view().take(i + 1)[t]
                                == x;
                        if t < i {
                            assert(configured.deep_view().take(i as int)[t] == x);
                        } else {
                            assert(x == m@);
                        }
                    }
                }
            }
        }
        i = i + 1;
    }
    proof {
        assert(configured.deep_view().take(n as int) =~= configured.deep_view());
        assert forall|x: Seq<char>|
            r.deep_view().to_set().contains(x) <==> configured.deep_view().to_set().intersect(
                connected.deep_view().to_set(),
            ).contains(x) by {}
        assert(r.deep_view().to_set() =~= configured.deep_view().to_set().intersect(
            connected.deep_view().to_set(),
        ));
    }
    r
}

/// Whether two monitor lists name the same monitors: equal length and equal
/// set of names, the physical order set aside.
pub fn lists_match(list1: &Vec<String>, list2: &Vec<String>) -> (r: bool)
    ensures
        r == (list1.deep_view().len() == list2.deep_view().len()
            && list1.deep_view().to_set() == list2.deep_view().to_set()),
{
    if list1.len() != list2.len() {
        return false;
    }
    string_set_eq(list1, list2)
}

/// The monitor a Hyprland listing line names: the line must open with
/// `Monitor`, then at least one white-space character, then the name, the
/// longest non-white-space run that follows.
pub open spec fn hypr_line_monitor(l: Seq<char>) -> Option<Seq<char>> {
    let pl = "Monitor"@.len() as int;
    if starts_with_seq(l, "Monitor"@) && pl < l.len() && is_ws_char(l[pl]) {
        let j = skip_ws_from(l, pl);
        if j < l.len() {
            Some(l.subrange(j, skip_non_ws_from(l, j)))
        } else {
            None
        }
    } else {
        None
    }
}

/// The monitor a Mango listing line names: any line holding `selmon`
/// names its first white-space-delimited token.
pub open spec fn mango_line_monitor(l: Seq<char>) -> Option<Seq<char>> {
    if contains_seq(l, "selmon"@) {
        let a = skip_ws_from(l, 0);
        if a < l.len() {
            Some(l.subrange(a, skip_non_ws_from(l, a)))
        } else {
            None
        }
    } else {
        None
    }
}

/// The monitor a Niri listing line names: the line must open with
/// `Output`, then white space, a double-quoted span, white space again,
/// and a non-empty parenthesized name, which is the monitor.
pub open spec fn niri_line_monitor(l: Seq<char>) -> Option<Seq<char>> {
    let pl = "Output"@.len() as int;
    if starts_with_seq(l, "Output"@) && pl < l.len() && is_ws_char(l[pl]) {
        let q0 = skip_ws_from(l, pl);
        if q0 < l.len() && l[q0] == '"' {
            let q1 = find_char_from(l, '"', q0 + 1);
            if q1 + 1 < l.len() && is_ws_char(l[q1 + 1]) {
                let k = skip_ws_from(l, q1 + 1);
                if k < l.len() && l[k] == '(' {
                    let p1 = find_char_from(l, ')', k + 1);
                    if p1 < l.len() && p1 > k + 1 {
                        Some(l.subrange(k + 1, p1))
                    } else {
                        None
                    }
                } else {
                    None
                }
            } else {
                None
            }
        } else {
            None
        }
    } else {
        None
    }
}

/// The monitor named by one line of the given window manager's listing,
/// if the line matches that manager's line format.
pub open spec fn line_monitor(wm: WindowManager, l: Seq<char>) -> Option<Seq<char>> {
    match wm {
        WindowManager::Hyprland => hypr_line_monitor(l),
        WindowManager::Mango => mango_line_monitor(l),
        WindowManager::Niri => niri_line_monitor(l),
    }
}

/// The monitors named by the lines `ls[i..]`, in line order.
pub open spec fn monitors_in_lines_from(
    wm: WindowManager,
    ls: Seq<Seq<char>>,
    i: int,
) -> Seq<Seq<char>>
    decreases ls.len() - i when 0 <= i <= ls.len()
{
    if i >= ls.len() {
        Seq::empty()
    } else {
        (match line_monitor(wm, ls[i]) {
            Some(m) => seq![m],
            None => Seq::empty(),
        }) + monitors_in_lines_from(wm, ls, i + 1)
    }
}

/// The ordered monitor list that the given window manager's raw listing
/// text describes: one entry per matching line, in line order, duplicates
/// kept.
pub open spec fn monitors_of(wm: WindowManager, s: Seq<char>) -> Seq<Seq<char>> {
    monitors_in_lines_from(wm, lines_of(s), 0)
}

/// Tries one listing line against the given window manager's line format,
/// returning the monitor it names. The line is `v[lo..hi]`; `v` spells
/// `output`, from which the name is cut.
fn match_line(
    wm: &WindowManager,
    output: &str,
    v: &Vec<char>,
    lo: usize,
    hi: usize,
    kw_monitor: &Vec<char>,
    kw_selmon: &Vec<char>,
    kw_output: &Vec<char>,
) -> (r: Option<String>)
    requires
        v@ == output@,
        lo <= hi <= v@.len(),
        kw_monitor@ == "Monitor"@,
        kw_selmon@ == "selmon"@,
        kw_output@ == "Output"@,
    ensures
        match r {
            Some(m) => line_monitor(*wm, v@.subrange(lo as int, hi as int)) == Some(m@),
            None => line_monitor(*wm, v@.subrange(lo as int, hi as int)) is None,
        },
{
    let ghost l = v@.subrange(lo as int, hi as int);
    match wm {
        WindowManager::Hyprland => {
            if !starts_with_range(v, lo, hi, kw_monitor) {
                return None;
            }
            let pl = kw_monitor.len();
            if !(lo + pl < hi && ws_char_at(v, lo + pl)) {
                return None;
            }
            let j = skip_ws(v, lo + pl, hi);
            proof {
                assert forall|t: int| pl <= t < j - lo implies is_ws_char(l[t]) by {
                    assert(l[t] == v@[lo + t]);
                }
                assert(j - lo < l.len() ==> !is_ws_char(l[j - lo]));
                crate::text::lemma_skip_ws_from_value(l, pl as int, j - lo);
            }
            if j == hi {
                return None;
            }
            let e = skip_non_ws(v, j, hi);
            proof {
                assert forall|t: int| j - lo <= t < e - lo implies !is_ws_char(l[t]) by {
                    assert(l[t] == v@[lo + t]);
                }
                assert(e - lo < l.len() ==> is_ws_char(l[e - lo]));
                crate::text::lemma_skip_non_ws_from_value(l, j - lo, e - lo);
                assert(output@.subrange(j as int, e as int) =~= l.subrange(j - lo, e - lo));
            }
            Some(output.substring_char(j, e).to_owned())
        },
        WindowManager::Mango => {
            if !contains_range(v, lo, hi, kw_selmon) {
                return None;
            }
            let a = skip_ws(v, lo, hi);
            proof {
                assert forall|t: int| 0 <= t < a - lo implies is_ws_char(l[t]) by {
                    assert(l[t] == v@[lo + t]);
                }
                assert(a - lo < l.len() ==> !is_ws_char(l[a - lo]));
                crate::text::lemma_skip_ws_from_value(l, 0, a - lo);
            }
            if a == hi {
                return None;
            }
            let e = skip_non_ws(v, a, hi);
            proof {
                assert forall|t: int| a - lo <= t < e - lo implies !is_ws_char(l[t]) by {
                    assert(l[t] == v@[lo + t]);
                }
                assert(e - lo < l.len() ==> is_ws_char(l[e - lo]));
                crate::text::lemma_skip_non_ws_from_value(l, a - lo, e - lo);
                assert(output@.subrange(a as int, e as int) =~= l.subrange(a - lo, e - lo));
            }
            Some(output.substring_char(a, e).to_owned())
        },
        WindowManager::Niri => {
            if !starts_with_range(v, lo, hi, kw_output) {
                return None;
            }
            let pl = kw_output.len();
            if !(lo + pl < hi && ws_char_at(v, lo + pl)) {
                return None;
            }
            let q0 = skip_ws(v, lo + pl, hi);
            proof {
                assert forall|t: int| pl <= t < q0 - lo implies is_ws_char(l[t]) by {
                    assert(l[t] == v@[lo + t]);
                }
                assert(q0 - lo < l.len() ==> !is_ws_char(l[q0 - lo]));
                crate::text::lemma_skip_ws_from_value(l, pl as int, q0 - lo);
            }
            if !(q0 < hi && v[q0] == '"') {
                return None;
            }
            let q1 = find_char(v, '"', q0 + 1, hi);
            proof {
                assert forall|t: int| q0 + 1 - lo <= t < q1 - lo implies l[t] != '"' by {
                    assert(l[t] == v@[lo + t]);
                }
                assert(q1 - lo < l.len() ==> l[q1 - lo] == '"');
                crate::text::lemma_find_char_from_value(l, '"', q0 + 1 - lo, q1 - lo);
            }
            if !(q1 < hi && hi - q1 > 1 && ws_char_at(v, q1 + 1)) {
                return None;
            }
            let k = skip_ws(v, q1 + 1, hi);
            proof {
                assert forall|t: int| q1 + 1 - lo <= t < k - lo implies is_ws_char(l[t]) by {
                    assert(l[t] == v@[lo + t]);
                }
                assert(k - lo < l.len() ==> !is_ws_char(l[k - lo]));
                crate::text::lemma_skip_ws_from_value(l, q1 + 1 - lo, k - lo);
            }
            if !(k < hi && v[k] == '(') {
                return None;
            }
            let p1 = find_char(v, ')', k + 1, hi);
            proof {
                assert forall|t: int| k + 1 - lo <= t < p1 - lo implies l[t] != ')' by {
                    assert(l[t] == v@[lo + t]);
                }
                assert(p1 - lo < l.len() ==> l[p1 - lo] == ')');
                crate::text::lemma_find_char_from_value(l, ')', k + 1 - lo, p1 - lo);
            }
            if !(p1 < hi && p1 > k + 1) {
                return None;
            }
            proof {
                assert(output@.subrange(k + 1 as int, p1 as int) =~= l.subrange(
                    k + 1 - lo,
                    p1 - lo,
                ));
            }
            Some(output.substring_char(k + 1, p1).to_owned())
        },
    }
}

/// [`crate::text::ws_char`] on one position of `v`.
fn ws_char_at(v: &Vec<char>, i: usize) -> (r: bool)
    requires
        i < v@.len(),
    ensures
        r == is_ws_char(v@[i as int]),
{
    crate::text::ws_char(v[i])
}

/// Parses the raw monitor listing of the given window manager into the
/// ordered monitor list it describes; a listing in which no line matches
/// the manager's line format is rejected.
pub fn parse_monitors(wm: &WindowManager, output: &str) -> (r: Result<
    Vec<String>,
    ManagerError,
>)
    ensures
        match r {
            Ok(monitors) => monitors.deep_view() == monitors_of(*wm, output@)
                && monitors.deep_view().len() > 0,
            Err(e) => e == ManagerError::NoMonitorsDetected && monitors_of(*wm, output@).len()
                == 0,
        },
{
    let v = chars_of(output);
    let kw_monitor = chars_of("Monitor");
    let kw_selmon = chars_of("selmon");
    let kw_output = chars_of("Output");
    let lines = split_lines(&v);
    let ghost ls = lines_of(v@);
    let nl = lines.len();
    let mut monitors: Vec<String> = Vec::new();
    let mut k: usize = 0;
    while k < nl
        invariant
            nl == lines.len(),
            k <= nl,
            v@ == output@,
            kw_monitor@ == "Monitor"@,
            kw_selmon@ == "selmon"@,
            kw_output@ == "Output"@,
            ls == lines_of(v@),
            lines@.len() == ls.len(),
            forall|t: int|
                0 <= t < lines@.len() ==> (#[trigger] lines@[t]).0 <= lines@[t].1 <= v@.len()
                    && v@.subrange(lines@[t].0 as int, lines@[t].1 as int) == ls[t],
            monitors.deep_view() + monitors_in_lines_from(*wm, ls, k as int)
                == monitors_in_lines_from(*wm, ls, 0),
        decreases nl - k,
    {
        let (lo, hi) = lines[k];
        let ghost before = monitors.deep_view();
        match match_line(wm, output, &v, lo, hi, &kw_monitor, &kw_selmon, &kw_output) {
            Some(m) => {
                monitors.push(m);
            },
            None => {},
        }
        proof {
            assert(monitors.deep_view() + monitors_in_lines_from(*wm, ls, k + 1)
                =~= monitors_in_lines_from(*wm, ls, 0));
        }
        k = k + 1;
    }
    proof {
        assert(monitors_in_lines_from(*wm, ls, nl as int) =~= Seq::<Seq<char>>::empty());
        assert(monitors.deep_view() =~= monitors_in_lines_from(*wm, ls, 0));
    }
    if monitors.is_empty() {
        Err(ManagerError::NoMonitorsDetected)
    } else {
        Ok(monitors)
    }
}

/// Membership in a set intersection does not depend on the order the two
/// sides are given in: the monitors common to two lists are the same
/// whichever list is called configured and whichever connected.
pub proof fn lemma_find_matches_symmetric(a: Seq<Seq<char>>, b: Seq<Seq<char>>)
    ensures
        a.to_set().intersect(b.to_set()) == b.to_set().intersect(a.to_set()),
{
    assert(a.to_set().intersect(b.to_set()) =~= b.to_set().intersect(a.to_set()));
}

/// Whether one `pgrep` output line names a process other than this one:
/// any line not spelling exactly the current process id (an id of another
/// process, or text that is no id at all).
pub open spec fn foreign_pid_line(l: Seq<char>, current: u32) -> bool {
    numeric_value(l) != Some(current as int)
}

/// Whether the `pgrep` listing shows a bar process beside this one: its
/// trimmed output has a line that names another process.
pub open spec fn spec_other_waybar_running(stdout: Seq<char>, current: u32) -> bool {
    exists|k: int|
        0 <= k < lines_of(trim_seq(stdout)).len() && foreign_pid_line(
            #[trigger] lines_of(trim_seq(stdout))[k],
            current,
        )
}

/// Whether a process id value `val` read from a line makes it foreign.
fn line_is_foreign(candidate: Option<u64>, current_pid: u32, Ghost(l): Ghost<Seq<char>>) -> (r:
    bool)
    requires
        candidate == match numeric_value(l) {
            Some(val) => if val <= u32::MAX as u64 {
                Some(val as u64)
            } else {
                None::<u64>
            },
            None => None::<u64>,
        },
    ensures
        r == foreign_pid_line(l, current_pid),
{
    proof {
        if numeric_value(l) is Some {
            lemma_digits_value_lower_bound(numeric_body(l), 0, 0);
        }
    }
    match candidate {
        Some(val) => val != current_pid as u64,
        None => true,
    }
}

/// Reads the `pgrep` listing and decides whether a bar process other than
/// this one is running.
pub fn other_waybar_running(pgrep_stdout: &str, current_pid: u32) -> (r: bool)
    ensures
        r == spec_other_waybar_running(pgrep_stdout@, current_pid),
{
    let v = chars_of(pgrep_stdout);
    let n = v.len();
    let (ta, tb) = trim_range(&v, 0, n);
    let trimmed = pgrep_stdout.substring_char(ta, tb);
    let tv = chars_of(trimmed);
    let ghost ls = lines_of(trim_seq(pgrep_stdout@));
    proof {
        assert(pgrep_stdout@.subrange(0, n as int) =~= pgrep_stdout@);
        assert(tv@ == trim_seq(pgrep_stdout@));
    }
    let lines = split_lines(&tv);
    let nl = lines.len();
    let mut k: usize = 0;
    while k < nl
        invariant
            nl == lines.len(),
            k <= nl,
            tv@ == trim_seq(pgrep_stdout@),
            ls == lines_of(tv@),
            lines@.len() == ls.len(),
            forall|t: int|
                0 <= t < lines@.len() ==> (#[trigger] lines@[t]).0 <= lines@[t].1 <= tv@.len()
                    && tv@.subrange(lines@[t].0 as int, lines@[t].1 as int) == ls[t],
            forall|t: int| 0 <= t < k ==> !foreign_pid_line(#[trigger] ls[t], current_pid),
        decreases nl - k,
    {
        let (lo, hi) = lines[k];
        let candidate = parse_decimal_range(&tv, lo, hi, u32::MAX as u64);
        if line_is_foreign(candidate, current_pid, Ghost(ls[k as int])) {
            proof {
                assert(foreign_pid_line(ls[k as int], current_pid));
            }
            return true;
        }
        k = k + 1;
    }
    false
}

/// Whether one white-space-delimited token of the `pidof` listing names a
/// process this run should stop: a well-formed id of a process other than
/// this one.
pub open spec fn kill_candidate(t: Seq<char>, current: u32) -> bool {
    match numeric_value(t) {
        Some(v) => v <= u32::MAX && v != current,
        None => false,
    }
}

/// The tokens of `s[i..]` naming processes to stop, in listing order.
pub open spec fn kill_pids_from(s: Seq<char>, i: int, current: u32) -> Seq<Seq<char>>
    decreases s.len() - i when 0 <= i <= s.len() via kill_pids_from_decreases
{
    if i >= s.len() {
        Seq::empty()
    } else {
        let a = skip_ws_from(s, i);
        if a >= s.len() {
            Seq::empty()
        } else {
            let b = skip_non_ws_from(s, a);
            (if kill_candidate(s.subrange(a, b), current) {
                seq![s.subrange(a, b)]
            } else {
                Seq::empty()
            }) + kill_pids_from(s, b, current)
        }
    }
}

#[via_fn]
proof fn kill_pids_from_decreases(s: Seq<char>, i: int, current: u32) {
    if 0 <= i < s.len() {
        lemma_skip_ws_from(s, i);
        let a = skip_ws_from(s, i);
        if a < s.len() {
            lemma_skip_non_ws_from(s, a);
            assert(skip_non_ws_from(s, a) >= a + 1);
        }
    }
}

/// Reads the `pidof` listing and collects the ids of the bar processes
/// this run should stop: every well-formed id besides the current
/// process's own.
pub fn waybar_pids_to_kill(pidof_stdout: &str, current_pid: u32) -> (r: Vec<String>)
    ensures
        r.deep_view() == kill_pids_from(pidof_stdout@, 0, current_pid),
{
    let v = chars_of(pidof_stdout);
    let n = v.len();
    let mut r: Vec<String> = Vec::new();
    let mut i: usize = 0;
    while i < n
        invariant
            i <= n,
            n == v@.len(),
            v@ == pidof_stdout@,
            r.deep_view() + kill_pids_from(v@, i as int, current_pid) == kill_pids_from(
                v@,
                0,
                current_pid,
            ),
        decreases n - i,
    {
        let ghost i0 = i as int;
        let a = skip_ws(&v, i, n);
        proof {
            assert(v@.subrange(0, n as int) =~= v@);
        }
        if a == n {
            i = n;
        } else {
            let b = skip_non_ws(&v, a, n);
            let ghost t = v@.subrange(a as int, b as int);
            let candidate = parse_decimal_range(&v, a, b, u32::MAX as u64);
            proof {
                if numeric_value(t) is Some {
                    lemma_digits_value_lower_bound(numeric_body(t), 0, 0);
                }
            }
            let keep = match candidate {
                Some(val) => val != current_pid as u64,
                None => false,
            };
            proof {
                assert(keep == kill_candidate(t, current_pid));
            }
            if keep {
                r.push(pidof_stdout.substring_char(a, b).to_owned());
            }
            i = b;
        }
        proof {
            assert(r.deep_view() + kill_pids_from(v@, i as int, current_pid)
                =~= kill_pids_from(v@, 0, current_pid));
        }
    }
    proof {
        assert(kill_pids_from(v@, n as int, current_pid) =~= Seq::<Seq<char>>::empty());
        assert(r.deep_view() =~= kill_pids_from(v@, 0, current_pid));
    }
    r
}

} // verus!
