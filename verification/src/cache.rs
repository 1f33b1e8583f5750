//! The cache record of the last generation run and the staleness decision:
//! whether the generated per-monitor configuration files still reflect the
//! current template content, monitor set and preferred monitor.

use vstd::prelude::*;
use vstd::string::StrSliceExecFns;
use vstd::string::StringSliceAdditionalSpecFns;
use vstd::string::StringExecFns;
use crate::monitor::string_set_eq;
use crate::templates::get_generated_config_path;
use crate::templates::TemplateType;
use crate::text::str_eq;
use crate::window_manager::WindowManager;

verus! {

/// What the last generation run recorded: the template fingerprint it saw,
/// the monitors it generated for, the preferred monitor it honoured, and
/// when it ran (seconds since the Unix epoch).
#[derive(Debug, Clone)]
pub struct CacheEntry {
    pub template_hash: String,
    pub monitors: Vec<String>,
    pub preferred_monitor: String,
    pub timestamp: i64,
}

/// The FNV-1a offset basis for 64-bit hashes.
pub const FNV_OFFSET_BASIS: u64 = 0xcbf29ce484222325;

/// The FNV-1a prime for 64-bit hashes.
pub const FNV_PRIME: u64 = 0x100000001b3;

/// One FNV-1a round: fold one byte into the accumulator.
pub open spec fn fnv1a_step(acc: u64, b: u8) -> u64 {
    vstd::wrapping::u64_specs::wrapping_mul(acc ^ (b as u64), FNV_PRIME)
}

/// The FNV-1a accumulator after folding in `bytes[i..]`, starting from
/// `acc`.
pub open spec fn fnv1a_from(bytes: Seq<u8>, i: int, acc: u64) -> u64
    decreases bytes.len() - i when 0 <= i <= bytes.len()
{
    if i >= bytes.len() {
        acc
    } else {
        fnv1a_from(bytes, i + 1, fnv1a_step(acc, bytes[i]))
    }
}

/// The 64-bit FNV-1a hash of a byte sequence.
pub open spec fn fnv1a(bytes: Seq<u8>) -> u64 {
    fnv1a_from(bytes, 0, FNV_OFFSET_BASIS)
}

/// The digit character for one decimal digit value.
pub open spec fn decimal_digit(d: int) -> char {
    if d == 0 {
        '0'
    } else if d == 1 {
        '1'
    } else if d == 2 {
        '2'
    } else if d == 3 {
        '3'
    } else if d == 4 {
        '4'
    } else if d == 5 {
        '5'
    } else if d == 6 {
        '6'
    } else if d == 7 {
        '7'
    } else if d == 8 {
        '8'
    } else {
        '9'
    }
}

/// The decimal spelling of a natural number, most significant digit first,
/// without leading zeroes (a lone zero for 0).
pub open spec fn decimal_of(n: nat) -> Seq<char>
    decreases n,
{
    if n < 10 {
        seq![decimal_digit(n as int)]
    } else {
        decimal_of(n / 10) + seq![decimal_digit((n % 10) as int)]
    }
}

/// One decimal digit as a string slice.
fn digit_str(d: u64) -> (r: &'static str)
    requires
        d < 10,
    ensures
        r@ == seq![decimal_digit(d as int)],
{
    proof {
        reveal_strlit("0");
        reveal_strlit("1");
        reveal_strlit("2");
        reveal_strlit("3");
        reveal_strlit("4");
        reveal_strlit("5");
        reveal_strlit("6");
        reveal_strlit("7");
        reveal_strlit("8");
        reveal_strlit("9");
    }
    let r: &'static str = if d == 0 {
        "0"
    } else if d == 1 {
        "1"
    } else if d == 2 {
        "2"
    } else if d == 3 {
        "3"
    } else if d == 4 {
        "4"
    } else if d == 5 {
        "5"
    } else if d == 6 {
        "6"
    } else if d == 7 {
        "7"
    } else if d == 8 {
        "8"
    } else {
        "9"
    };
    proof {
        assert(r@ =~= seq![decimal_digit(d as int)]);
    }
    r
}

/// Spells a 64-bit number in decimal.
pub fn u64_to_string(n: u64) -> (r: String)
    ensures
        r@ == decimal_of(n as nat),
    decreases n,
{
    if n < 10 {
        digit_str(n).to_owned()
    } else {
        proof {
            assert(n / 10 < n) by (nonlinear_arith)
                requires n >= 10,
            ;
        }
        let mut s = u64_to_string(n / 10);
        s.append(digit_str(n % 10));
        s
    }
}

/// The content fingerprint of a template: the decimal spelling of the
/// 64-bit FNV-1a hash of its raw bytes. A fast, non-cryptographic
/// fingerprint: this is a local staleness check, not a security boundary.
pub open spec fn template_fingerprint(bytes: Seq<u8>) -> Seq<char> {
    decimal_of(fnv1a(bytes) as nat)
}

/// Computes the content fingerprint of the raw template text.
pub fn calculate_template_hash(template_content: &str) -> (r: String)
    ensures
        r@ == template_fingerprint(template_content.spec_bytes()),
{
    let bytes = template_content.as_bytes_vec();
    let n = bytes.len();
    let mut acc: u64 = FNV_OFFSET_BASIS;
    let mut i: usize = 0;
    while i < n
        invariant
            n == bytes@.len(),
            i <= n,
            fnv1a(bytes@) == fnv1a_from(bytes@, i as int, acc),
        decreases n - i,
    {
        acc = (acc ^ (bytes[i] as u64)).wrapping_mul(FNV_PRIME);
        i = i + 1;
    }
    u64_to_string(acc)
}

/// Relies on `std::time::SystemTime::now`: the current time, read as whole
/// seconds since the Unix epoch (0 if the clock stands before the epoch,
/// `i64::MAX` if it stands past what an `i64` holds). Beyond being
/// non-negative, nothing is assumed of the clock's value.
#[verifier::external_body]
pub fn get_current_timestamp() -> (r: i64)
    ensures
        r >= 0,
{
    match std::time::SystemTime::now().duration_since(std::time::UNIX_EPOCH) {
        Ok(d) => i64::try_from(d.as_secs()).unwrap_or(i64::MAX),
        Err(_) => 0,
    }
}

impl CacheEntry {
    /// The record of a generation run that has just completed for the given
    /// fingerprint, monitors and preferred monitor, stamped with the
    /// current time.
    pub fn fresh(template_hash: String, monitors: Vec<String>, preferred_monitor: String) -> (r:
        CacheEntry)
        ensures
            r.template_hash == template_hash,
            r.monitors == monitors,
            r.preferred_monitor == preferred_monitor,
            r.timestamp >= 0,
    {
        CacheEntry { template_hash, monitors, preferred_monitor, timestamp: get_current_timestamp() }
    }
}

/// An `Option<&CacheEntry>` as the cache record it refers to.
pub open spec fn deref_cache(cache: Option<&CacheEntry>) -> Option<CacheEntry> {
    match cache {
        Some(c) => Some(*c),
        None => None,
    }
}

/// When generation must be re-run: with no cache record, with a generated
/// file missing, or with the recorded fingerprint, preferred monitor or
/// monitor set (order-insensitive) differing from the current one.
pub open spec fn spec_should_regenerate(
    cache: Option<CacheEntry>,
    template_hash: Seq<char>,
    monitors: Seq<Seq<char>>,
    preferred_monitor: Seq<char>,
    generated_files_exist: bool,
) -> bool {
    match cache {
        None => true,
        Some(c) => {
            ||| !generated_files_exist
            ||| c.template_hash@ != template_hash
            ||| c.preferred_monitor@ != preferred_monitor
            ||| c.monitors.deep_view().to_set() != monitors.to_set()
        },
    }
}

/// Decides whether the generated configuration files are stale. A pure
/// decision: no side effects, no failure mode.
pub fn should_regenerate(
    cache: Option<&CacheEntry>,
    template_hash: &str,
    monitors: &Vec<String>,
    preferred_monitor: &str,
    generated_files_exist: bool,
) -> (r: bool)
    ensures
        r == spec_should_regenerate(
            deref_cache(cache),
            template_hash@,
            monitors.deep_view(),
            preferred_monitor@,
            generated_files_exist,
        ),
{
    match cache {
        None => true,
        Some(c) => {
            if !generated_files_exist {
                true
            } else if !str_eq(c.template_hash.as_str(), template_hash) {
                true
            } else if !str_eq(c.preferred_monitor.as_str(), preferred_monitor) {
                true
            } else if !string_set_eq(&c.monitors, monitors) {
                true
            } else {
                false
            }
        },
    }
}

/// With no cache record, regeneration is due whatever the other inputs.
pub proof fn lemma_regenerate_without_cache(
    template_hash: Seq<char>,
    monitors: Seq<Seq<char>>,
    preferred_monitor: Seq<char>,
    generated_files_exist: bool,
)
    ensures
        spec_should_regenerate(
            None,
            template_hash,
            monitors,
            preferred_monitor,
            generated_files_exist,
        ),
{
}

/// With a generated file missing, regeneration is due even if every
/// recorded field matches the current inputs exactly.
pub proof fn lemma_regenerate_missing_files(
    cache: Option<CacheEntry>,
    template_hash: Seq<char>,
    monitors: Seq<Seq<char>>,
    preferred_monitor: Seq<char>,
)
    ensures
        spec_should_regenerate(cache, template_hash, monitors, preferred_monitor, false),
{
}

/// A cache record whose fingerprint and preferred monitor match the current
/// ones, and whose monitors spell the same set as the current ones in
/// whatever physical order, skips regeneration when the generated files
/// exist.
pub proof fn lemma_matching_cache_skips(
    c: CacheEntry,
    template_hash: Seq<char>,
    monitors: Seq<Seq<char>>,
    preferred_monitor: Seq<char>,
)
    requires
        c.template_hash@ == template_hash,
        c.preferred_monitor@ == preferred_monitor,
        c.monitors.deep_view().to_set() == monitors.to_set(),
    ensures
        !spec_should_regenerate(Some(c), template_hash, monitors, preferred_monitor, true),
{
}

/// Running generation twice with nothing changed leaves the second run on
/// the cache: the record written right after a generation run decides
/// against regenerating while template, monitors and preferred monitor
/// stay what the run saw and the generated files stand.
pub proof fn lemma_second_run_uses_cache(entry: CacheEntry)
    ensures
        !spec_should_regenerate(
            Some(entry),
            entry.template_hash@,
            entry.monitors.deep_view(),
            entry.preferred_monitor@,
            true,
        ),
{
}

/// Relies on `std::path::Path::exists`: whether the path names anything
/// on disk right now. Of the file system nothing further is assumed.
#[verifier::external_body]
fn path_exists(path: &str) -> bool {
    std::path::Path::new(path).exists()
}

/// The covering decision over the per-monitor probe answers: every
/// monitor must have its full or its simple output file present.
pub fn all_monitors_covered(answers: &Vec<(bool, bool)>) -> (r: bool)
    ensures
        r == forall|k: int|
            0 <= k < answers@.len() ==> ((#[trigger] answers@[k]).0 || answers@[k].1),
{
    let n = answers.len();
    let mut i: usize = 0;
    while i < n
        invariant
            n == answers@.len(),
            i <= n,
            forall|k: int| 0 <= k < i ==> ((#[trigger] answers@[k]).0 || answers@[k].1),
        decreases n - i,
    {
        let (full, simple) = answers[i];
        if !full && !simple {
            return false;
        }
        i = i + 1;
    }
    true
}

/// Checks that every monitor's generated configuration is present on
/// disk: for each monitor, at least one of its full or simple output
/// files exists under the given home directory. What the file system
/// answers is the file system's to say: the probing loop only collects
/// one pair of answers per monitor at the exactly-specified paths, and
/// the decision over those answers is [`all_monitors_covered`].
pub fn check_generated_files_exist(
    monitors: &Vec<String>,
    wm: &WindowManager,
    home: &str,
) -> (r: bool)
    ensures
        monitors@.len() == 0 ==> r,
{
    let n = monitors.len();
    let mut answers: Vec<(bool, bool)> = Vec::new();
    let mut i: usize = 0;
    while i < n
        invariant
            n == monitors.len(),
            i <= n,
            answers@.len() == i as int,
        decreases n - i,
    {
        let full_path = get_generated_config_path(
            home,
            wm,
            monitors[i].as_str(),
            &TemplateType::Full,
        );
        let simple_path = get_generated_config_path(
            home,
            wm,
            monitors[i].as_str(),
            &TemplateType::Simple,
        );
        answers.push((path_exists(full_path.as_str()), path_exists(simple_path.as_str())));
        i = i + 1;
    }
    all_monitors_covered(&answers)
}

/// The per-user path of the persisted cache record under the given home
/// directory.
pub fn get_cache_path(home: &str) -> (r: String)
    ensures
        r@ == home@ + "/.local/share/omynix/waybar-manager/waybar_cache.toml"@,
{
    let mut p = home.to_owned();
    p.append("/.local/share/omynix/waybar-manager/waybar_cache.toml");
    p
}

} // verus!
