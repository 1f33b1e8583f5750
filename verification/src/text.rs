//! Character-sequence utilities shared by the parsers: the Unicode
//! white-space predicate, conversion between `&str` and `Vec<char>`,
//! scanning for characters and character classes, substring containment,
//! trimming, and splitting text into lines.

use vstd::prelude::*;
use vstd::string::StrSliceExecFns;

verus! {

/// The Unicode `White_Space` code points, the set that `char::is_whitespace`,
/// `str::trim` and `str::split_whitespace` go by.
pub open spec fn is_ws_char(c: char) -> bool {
    ||| c == ' '
    ||| c == '\t'
    ||| c == '\n'
    ||| c == '\u{B}'
    ||| c == '\u{C}'
    ||| c == '\r'
    ||| c == '\u{85}'
    ||| c == '\u{A0}'
    ||| c == '\u{1680}'
    ||| c == '\u{2000}'
    ||| c == '\u{2001}'
    ||| c == '\u{2002}'
    ||| c == '\u{2003}'
    ||| c == '\u{2004}'
    ||| c == '\u{2005}'
    ||| c == '\u{2006}'
    ||| c == '\u{2007}'
    ||| c == '\u{2008}'
    ||| c == '\u{2009}'
    ||| c == '\u{200A}'
    ||| c == '\u{2028}'
    ||| c == '\u{2029}'
    ||| c == '\u{202F}'
    ||| c == '\u{205F}'
    ||| c == '\u{3000}'
}

/// Executable form of [`is_ws_char`].
pub fn ws_char(c: char) -> (r: bool)
    ensures
        r == is_ws_char(c),
{
    c == ' ' || c == '\t' || c == '\n' || c == '\u{B}' || c == '\u{C}' || c == '\r'
        || c == '\u{85}' || c == '\u{A0}' || c == '\u{1680}' || c == '\u{2000}'
        || c == '\u{2001}' || c == '\u{2002}' || c == '\u{2003}' || c == '\u{2004}'
        || c == '\u{2005}' || c == '\u{2006}' || c == '\u{2007}' || c == '\u{2008}'
        || c == '\u{2009}' || c == '\u{200A}' || c == '\u{2028}' || c == '\u{2029}'
        || c == '\u{202F}' || c == '\u{205F}' || c == '\u{3000}'
}

/// Copies the characters of a string slice into a vector, so that the
/// scanners below can index them in constant time.
pub fn chars_of(s: &str) -> (r: Vec<char>)
    ensures
        r@ == s@,
{
    let n = s.unicode_len();
    let mut v: Vec<char> = Vec::new();
    let mut i: usize = 0;
    while i < n
        invariant
            n == s@.len(),
            i <= n,
            v@ == s@.subrange(0, i as int),
        decreases n - i,
    {
        v.push(s.get_char(i));
        proof {
            assert(s@.subrange(0, i + 1 as int) =~= s@.subrange(0, i as int).push(
                s@[i as int],
            ));
        }
        i = i + 1;
    }
    proof {
        assert(v@ =~= s@);
    }
    v
}

/// Character-wise equality of two string slices.
pub fn str_eq(a: &str, b: &str) -> (r: bool)
    ensures
        r == (a@ == b@),
{
    let na = a.unicode_len();
    let nb = b.unicode_len();
    if na != nb {
        return false;
    }
    let mut i: usize = 0;
    while i < na
        invariant
            na == a@.len(),
            nb == b@.len(),
            na == nb,
            i <= na,
            forall|j: int| 0 <= j < i ==> a@[j] == b@[j],
        decreases na - i,
    {
        if a.get_char(i) != b.get_char(i) {
            return false;
        }
        i = i + 1;
    }
    proof {
        assert(a@ =~= b@);
    }
    true
}

/// The first position at or after `i` where `c` occurs in `s`, or `s.len()`
/// if there is none.
pub open spec fn find_char_from(s: Seq<char>, c: char, i: int) -> int
    decreases s.len() - i when 0 <= i <= s.len()
{
    if i >= s.len() {
        s.len() as int
    } else if s[i] == c {
        i
    } else {
        find_char_from(s, c, i + 1)
    }
}

/// A position `k` that leaves no earlier occurrence of `c` and either holds
/// one or is the end is exactly [`find_char_from`].
pub proof fn lemma_find_char_from_value(s: Seq<char>, c: char, i: int, k: int)
    requires
        0 <= i <= k <= s.len(),
        forall|j: int| i <= j < k ==> s[j] != c,
        k < s.len() ==> s[k] == c,
    ensures
        find_char_from(s, c, i) == k,
    decreases k - i,
{
    if i < k {
        lemma_find_char_from_value(s, c, i + 1, k);
    }
}

/// What [`find_char_from`] returns: a position in range, holding `c` unless
/// it is the end, with no occurrence of `c` before it.
pub proof fn lemma_find_char_from(s: Seq<char>, c: char, i: int)
    requires
        0 <= i <= s.len(),
    ensures
        i <= find_char_from(s, c, i) <= s.len(),
        find_char_from(s, c, i) < s.len() ==> s[find_char_from(s, c, i)] == c,
        forall|j: int| i <= j < find_char_from(s, c, i) ==> s[j] != c,
    decreases s.len() - i,
{
    if i < s.len() && s[i] != c {
        lemma_find_char_from(s, c, i + 1);
    }
}

/// Executable scan for the first occurrence of `c` in `v` at or after
/// `from`, bounded by `hi`; reported against the prefix `v[..hi]`.
pub fn find_char(v: &Vec<char>, c: char, from: usize, hi: usize) -> (r: usize)
    requires
        from <= hi <= v@.len(),
    ensures
        r == find_char_from(v@.subrange(0, hi as int), c, from as int),
        from <= r <= hi,
        r < hi ==> v@[r as int] == c,
        forall|j: int| from <= j < r ==> v@[j] != c,
{
    let ghost s = v@.subrange(0, hi as int);
    let mut i: usize = from;
    while i < hi
        invariant
            from <= i <= hi <= v@.len(),
            s == v@.subrange(0, hi as int),
            forall|j: int| from <= j < i ==> v@[j] != c,
        decreases hi - i,
    {
        if v[i] == c {
            proof {
                assert(forall|j: int| from <= j < i ==> s[j] != c);
                lemma_find_char_from_value(s, c, from as int, i as int);
            }
            return i;
        }
        i = i + 1;
    }
    proof {
        assert(forall|j: int| from <= j < hi ==> s[j] != c);
        lemma_find_char_from_value(s, c, from as int, hi as int);
    }
    hi
}

/// The first position at or after `i` in `s` holding a non-white-space
/// character, or `s.len()` if the rest is all white space.
pub open spec fn skip_ws_from(s: Seq<char>, i: int) -> int
    decreases s.len() - i when 0 <= i <= s.len()
{
    if i >= s.len() {
        s.len() as int
    } else if is_ws_char(s[i]) {
        skip_ws_from(s, i + 1)
    } else {
        i
    }
}

/// The first position at or after `i` in `s` holding a white-space
/// character, or `s.len()` if there is none.
pub open spec fn skip_non_ws_from(s: Seq<char>, i: int) -> int
    decreases s.len() - i when 0 <= i <= s.len()
{
    if i >= s.len() {
        s.len() as int
    } else if !is_ws_char(s[i]) {
        skip_non_ws_from(s, i + 1)
    } else {
        i
    }
}

/// A position `k` preceded only by white space from `i` on, and not itself
/// white space unless it is the end, is exactly [`skip_ws_from`].
pub proof fn lemma_skip_ws_from_value(s: Seq<char>, i: int, k: int)
    requires
        0 <= i <= k <= s.len(),
        forall|j: int| i <= j < k ==> is_ws_char(s[j]),
        k < s.len() ==> !is_ws_char(s[k]),
    ensures
        skip_ws_from(s, i) == k,
    decreases k - i,
{
    if i < k {
        lemma_skip_ws_from_value(s, i + 1, k);
    }
}

/// The counterpart of [`lemma_skip_ws_from_value`] for [`skip_non_ws_from`].
pub proof fn lemma_skip_non_ws_from_value(s: Seq<char>, i: int, k: int)
    requires
        0 <= i <= k <= s.len(),
        forall|j: int| i <= j < k ==> !is_ws_char(s[j]),
        k < s.len() ==> is_ws_char(s[k]),
    ensures
        skip_non_ws_from(s, i) == k,
    decreases k - i,
{
    if i < k {
        lemma_skip_non_ws_from_value(s, i + 1, k);
    }
}

/// What [`skip_ws_from`] returns, without naming the position.
pub proof fn lemma_skip_ws_from(s: Seq<char>, i: int)
    requires
        0 <= i <= s.len(),
    ensures
        i <= skip_ws_from(s, i) <= s.len(),
        skip_ws_from(s, i) < s.len() ==> !is_ws_char(s[skip_ws_from(s, i)]),
        forall|j: int| i <= j < skip_ws_from(s, i) ==> is_ws_char(s[j]),
    decreases s.len() - i,
{
    if i < s.len() && is_ws_char(s[i]) {
        lemma_skip_ws_from(s, i + 1);
    }
}

/// What [`skip_non_ws_from`] returns, without naming the position.
pub proof fn lemma_skip_non_ws_from(s: Seq<char>, i: int)
    requires
        0 <= i <= s.len(),
    ensures
        i <= skip_non_ws_from(s, i) <= s.len(),
        skip_non_ws_from(s, i) < s.len() ==> is_ws_char(s[skip_non_ws_from(s, i)]),
        forall|j: int| i <= j < skip_non_ws_from(s, i) ==> !is_ws_char(s[j]),
    decreases s.len() - i,
{
    if i < s.len() && !is_ws_char(s[i]) {
        lemma_skip_non_ws_from(s, i + 1);
    }
}

/// Executable scan past white space within `v[..hi]`, starting at `from`;
/// the result is [`skip_ws_from`] on the prefix `v[..hi]`.
pub fn skip_ws(v: &Vec<char>, from: usize, hi: usize) -> (r: usize)
    requires
        from <= hi <= v@.len(),
    ensures
        r == skip_ws_from(v@.subrange(0, hi as int), from as int),
        from <= r <= hi,
        r < hi ==> !is_ws_char(v@[r as int]),
        forall|j: int| from <= j < r ==> is_ws_char(v@[j]),
{
    let ghost s = v@.subrange(0, hi as int);
    let mut i: usize = from;
    while i < hi
        invariant
            from <= i <= hi <= v@.len(),
            s == v@.subrange(0, hi as int),
            forall|j: int| from <= j < i ==> is_ws_char(v@[j]),
        decreases hi - i,
    {
        if !ws_char(v[i]) {
            proof {
                lemma_skip_ws_from_value(s, from as int, i as int);
            }
            return i;
        }
        i = i + 1;
    }
    proof {
        lemma_skip_ws_from_value(s, from as int, hi as int);
    }
    hi
}

/// Executable scan past non-white-space within `v[..hi]`, starting at
/// `from`; the result is [`skip_non_ws_from`] on the prefix `v[..hi]`.
pub fn skip_non_ws(v: &Vec<char>, from: usize, hi: usize) -> (r: usize)
    requires
        from <= hi <= v@.len(),
    ensures
        r == skip_non_ws_from(v@.subrange(0, hi as int), from as int),
        from <= r <= hi,
        r < hi ==> is_ws_char(v@[r as int]),
        forall|j: int| from <= j < r ==> !is_ws_char(v@[j]),
{
    let ghost s = v@.subrange(0, hi as int);
    let mut i: usize = from;
    while i < hi
        invariant
            from <= i <= hi <= v@.len(),
            s == v@.subrange(0, hi as int),
            forall|j: int| from <= j < i ==> !is_ws_char(v@[j]),
        decreases hi - i,
    {
        if ws_char(v[i]) {
            proof {
                lemma_skip_non_ws_from_value(s, from as int, i as int);
            }
            return i;
        }
        i = i + 1;
    }
    proof {
        lemma_skip_non_ws_from_value(s, from as int, hi as int);
    }
    hi
}

/// `p` stands at the start of `s`.
pub open spec fn starts_with_seq(s: Seq<char>, p: Seq<char>) -> bool {
    p.len() <= s.len() && s.subrange(0, p.len() as int) == p
}

/// `p` occurs somewhere in `s`.
pub open spec fn contains_seq(s: Seq<char>, p: Seq<char>) -> bool {
    exists|i: int|
        0 <= i && i + p.len() <= s.len() && #[trigger] s.subrange(i, i + p.len() as int) == p
}

/// Whether `needle` stands in `v` exactly at position `at`, `v[lo..hi]`
/// taken as the haystack.
fn matches_at(v: &Vec<char>, lo: usize, hi: usize, at: usize, needle: &Vec<char>) -> (r: bool)
    requires
        lo <= at,
        at + needle@.len() <= hi,
        hi <= v@.len(),
    ensures
        r == (v@.subrange(at as int, at + needle@.len()) == needle@),
{
    let n = needle.len();
    let mut i: usize = 0;
    while i < n
        invariant
            n == needle@.len(),
            i <= n,
            lo <= at,
            at + n <= hi <= v@.len(),
            forall|j: int| 0 <= j < i ==> v@[at + j] == needle@[j],
        decreases n - i,
    {
        if v[at + i] != needle[i] {
            proof {
                assert(v@.subrange(at as int, at + needle@.len())[i as int] == v@[at + i]);
            }
            return false;
        }
        i = i + 1;
    }
    proof {
        assert(v@.subrange(at as int, at + needle@.len()) =~= needle@);
    }
    true
}

/// Whether `needle` occurs anywhere in `v[lo..hi]`.
pub fn contains_range(v: &Vec<char>, lo: usize, hi: usize, needle: &Vec<char>) -> (r: bool)
    requires
        lo <= hi <= v@.len(),
    ensures
        r == contains_seq(v@.subrange(lo as int, hi as int), needle@),
{
    let ghost s = v@.subrange(lo as int, hi as int);
    let n = needle.len();
    if n > hi - lo {
        proof {
            assert(!contains_seq(s, needle@));
        }
        return false;
    }
    if n == 0 {
        proof {
            assert(s.subrange(0, 0 + needle@.len() as int) =~= needle@);
        }
        return true;
    }
    let last = hi - n;
    let mut i: usize = lo;
    while i <= last
        invariant
            lo <= i,
            i <= last + 1,
            last == hi - n,
            1 <= n,
            n == needle@.len(),
            n <= hi - lo,
            hi <= v@.len(),
            s == v@.subrange(lo as int, hi as int),
            forall|k: int|
                0 <= k < i - lo ==> #[trigger] s.subrange(k, k + needle@.len()) != needle@,
        decreases last + 1 - i,
    {
        if matches_at(v, lo, hi, i, needle) {
            proof {
                assert(s.subrange(i - lo, i - lo + needle@.len()) =~= v@.subrange(
                    i as int,
                    i + needle@.len(),
                ));
                assert(contains_seq(s, needle@));
            }
            return true;
        }
        proof {
            assert(s.subrange(i - lo, i - lo + needle@.len()) =~= v@.subrange(
                i as int,
                i + needle@.len(),
            ));
        }
        i = i + 1;
    }
    proof {
        assert forall|k: int| 0 <= k && k + needle@.len() <= s.len() implies #[trigger] s.subrange(
            k,
            k + needle@.len(),
        ) != needle@ by {
            assert(k < i - lo);
        }
        assert(!contains_seq(s, needle@));
    }
    false
}

/// The first position at or after `i` where `p` stands in `s`, or
/// `s.len()` if it stands nowhere from `i` on.
pub open spec fn find_seq_from(s: Seq<char>, p: Seq<char>, i: int) -> int
    decreases s.len() - i when 0 <= i <= s.len() via find_seq_from_decreases
{
    if i + p.len() > s.len() {
        s.len() as int
    } else if s.subrange(i, i + p.len() as int) == p {
        i
    } else {
        find_seq_from(s, p, i + 1)
    }
}

#[via_fn]
proof fn find_seq_from_decreases(s: Seq<char>, p: Seq<char>, i: int) {
    if p.len() == 0 && 0 <= i <= s.len() {
        assert(s.subrange(i, i + p.len() as int) =~= p);
    }
}

/// A position `k` that leaves no earlier stand of `p` and either holds one
/// or is the end is exactly [`find_seq_from`].
pub proof fn lemma_find_seq_from_value(s: Seq<char>, p: Seq<char>, i: int, k: int)
    requires
        0 <= i <= k <= s.len(),
        forall|j: int|
            i <= j < k && j + p.len() <= s.len() ==> #[trigger] s.subrange(j, j + p.len() as int)
                != p,
        k < s.len() ==> k + p.len() <= s.len() && s.subrange(k, k + p.len() as int) == p,
        k == s.len() ==> k + p.len() > s.len() || s.subrange(k, k + p.len() as int) == p,
    ensures
        find_seq_from(s, p, i) == k,
    decreases k - i,
{
    if i < k {
        lemma_find_seq_from_value(s, p, i + 1, k);
    }
}

/// What [`find_seq_from`] returns: where it is not the end, `p` stands
/// there and nowhere earlier.
pub proof fn lemma_find_seq_from(s: Seq<char>, p: Seq<char>, i: int)
    requires
        0 <= i <= s.len(),
    ensures
        i <= find_seq_from(s, p, i) <= s.len(),
        find_seq_from(s, p, i) + p.len() <= s.len() ==> (find_seq_from(s, p, i) < s.len()
            || p.len() == 0) ==> s.subrange(
            find_seq_from(s, p, i),
            find_seq_from(s, p, i) + p.len() as int,
        ) == p,
        forall|j: int|
            i <= j < find_seq_from(s, p, i) && j + p.len() <= s.len()
                ==> #[trigger] s.subrange(j, j + p.len() as int) != p,
    decreases s.len() - i,
{
    if p.len() == 0 {
        assert(s.subrange(i, i + p.len() as int) =~= p);
    }
    if i + p.len() <= s.len() && s.subrange(i, i + p.len() as int) != p {
        lemma_find_seq_from(s, p, i + 1);
    }
}

/// Executable scan for the first stand of `needle` in `v[lo..hi]`; the
/// position is reported against the sub-sequence `v[lo..hi]` itself.
pub fn find_seq(v: &Vec<char>, lo: usize, hi: usize, needle: &Vec<char>) -> (r: usize)
    requires
        lo <= hi <= v@.len(),
    ensures
        r == find_seq_from(v@.subrange(lo as int, hi as int), needle@, 0),
        r <= hi - lo,
        r < hi - lo ==> lo + r + needle@.len() <= hi && v@.subrange(
            lo + r,
            lo + r + needle@.len(),
        ) == needle@,
{
    let ghost l = v@.subrange(lo as int, hi as int);
    let n = needle.len();
    if n > hi - lo {
        proof {
            lemma_find_seq_from_value(l, needle@, 0, l.len() as int);
        }
        return hi - lo;
    }
    if n == 0 {
        proof {
            assert(l.subrange(0, 0 + needle@.len() as int) =~= needle@);
            lemma_find_seq_from_value(l, needle@, 0, 0);
        }
        return 0;
    }
    let last = hi - n;
    let mut i: usize = lo;
    while i <= last
        invariant
            lo <= i,
            i <= last + 1,
            last == hi - n,
            1 <= n,
            n == needle@.len(),
            n <= hi - lo,
            hi <= v@.len(),
            l == v@.subrange(lo as int, hi as int),
            forall|k: int|
                0 <= k < i - lo ==> #[trigger] l.subrange(k, k + needle@.len() as int)
                    != needle@,
        decreases last + 1 - i,
    {
        if matches_at(v, lo, hi, i, needle) {
            proof {
                assert(l.subrange(i - lo, i - lo + needle@.len() as int) =~= v@.subrange(
                    i as int,
                    i + needle@.len(),
                ));
                if i - lo < l.len() || needle@.len() == 0 {
                    lemma_find_seq_from_value(l, needle@, 0, i - lo);
                } else {
                    lemma_find_seq_from_value(l, needle@, 0, l.len() as int);
                }
            }
            return i - lo;
        }
        proof {
            assert(l.subrange(i - lo, i - lo + needle@.len() as int) =~= v@.subrange(
                i as int,
                i + needle@.len(),
            ));
        }
        i = i + 1;
    }
    proof {
        assert forall|k: int|
            0 <= k < l.len() && k + needle@.len() <= l.len() implies #[trigger] l.subrange(
            k,
            k + needle@.len() as int,
        ) != needle@ by {
            assert(k < i - lo);
        }
        lemma_find_seq_from_value(l, needle@, 0, l.len() as int);
    }
    hi - lo
}

/// The position just past the last non-white-space character strictly
/// before `i`, scanning left; 0 if there is none.
pub open spec fn rskip_ws(s: Seq<char>, i: int) -> int
    decreases i when 0 <= i <= s.len()
{
    if i <= 0 {
        0
    } else if is_ws_char(s[i - 1]) {
        rskip_ws(s, i - 1)
    } else {
        i
    }
}

/// A position `k` followed only by white space up to `i`, whose own left
/// neighbour is not white space unless `k` is 0, is exactly [`rskip_ws`].
pub proof fn lemma_rskip_ws_value(s: Seq<char>, k: int, i: int)
    requires
        0 <= k <= i <= s.len(),
        forall|j: int| k <= j < i ==> is_ws_char(s[j]),
        k > 0 ==> !is_ws_char(s[k - 1]),
    ensures
        rskip_ws(s, i) == k,
    decreases i - k,
{
    if k < i {
        lemma_rskip_ws_value(s, k, i - 1);
    }
}

/// `s` with leading and trailing white space removed, as `str::trim`
/// leaves it.
pub open spec fn trim_seq(s: Seq<char>) -> Seq<char> {
    if skip_ws_from(s, 0) == s.len() {
        Seq::empty()
    } else {
        s.subrange(skip_ws_from(s, 0), rskip_ws(s, s.len() as int))
    }
}

/// Trims `v[lo..hi]` in place, returning the sub-range that holds its
/// trimmed form.
pub fn trim_range(v: &Vec<char>, lo: usize, hi: usize) -> (r: (usize, usize))
    requires
        lo <= hi <= v@.len(),
    ensures
        lo <= r.0 <= r.1 <= hi,
        v@.subrange(r.0 as int, r.1 as int) == trim_seq(v@.subrange(lo as int, hi as int)),
{
    let ghost l = v@.subrange(lo as int, hi as int);
    let a = skip_ws(v, lo, hi);
    if a == hi {
        proof {
            lemma_skip_ws_from_value(l, 0, l.len() as int);
            assert(v@.subrange(hi as int, hi as int) =~= Seq::<char>::empty());
        }
        return (hi, hi);
    }
    proof {
        lemma_skip_ws_from_value(l, 0, a - lo);
    }
    let mut b: usize = hi;
    while b > a + 1 && ws_char(v[b - 1])
        invariant
            lo <= a < b <= hi <= v@.len(),
            !is_ws_char(v@[a as int]),
            forall|j: int| b <= j < hi ==> is_ws_char(v@[j]),
        decreases b,
    {
        b = b - 1;
    }
    proof {
        assert(forall|j: int| b - lo <= j < l.len() ==> is_ws_char(l[j]));
        lemma_rskip_ws_value(l, b - lo, l.len() as int);
        assert(v@.subrange(a as int, b as int) =~= l.subrange(a - lo, b - lo));
    }
    (a, b)
}

/// The content of the line spanning `[i, j)` of `s`, where `j` is the
/// position of the terminating newline (or the end): a carriage return
/// directly before a newline is not part of the line.
pub open spec fn line_at(s: Seq<char>, i: int, j: int) -> Seq<char> {
    if j < s.len() && i < j && s[j - 1] == '\r' {
        s.subrange(i, j - 1)
    } else {
        s.subrange(i, j)
    }
}

/// The lines of `s[i..]`, split as `str::lines` splits them: at every
/// newline, with a final line ending optional and `\r\n` treated as one
/// line ending.
pub open spec fn lines_from(s: Seq<char>, i: int) -> Seq<Seq<char>>
    decreases s.len() - i when 0 <= i <= s.len() via lines_from_decreases
{
    if i >= s.len() {
        Seq::empty()
    } else {
        let j = find_char_from(s, '\n', i);
        if j == s.len() {
            seq![line_at(s, i, j)]
        } else {
            seq![line_at(s, i, j)] + lines_from(s, j + 1)
        }
    }
}

#[via_fn]
proof fn lines_from_decreases(s: Seq<char>, i: int) {
    if 0 <= i < s.len() {
        lemma_find_char_from(s, '\n', i);
    }
}

/// The lines of `s`, as `str::lines` yields them.
pub open spec fn lines_of(s: Seq<char>) -> Seq<Seq<char>> {
    lines_from(s, 0)
}

/// Splits `v` into its lines, returning for each line the sub-range of `v`
/// that holds its content.
pub fn split_lines(v: &Vec<char>) -> (r: Vec<(usize, usize)>)
    ensures
        r@.len() == lines_of(v@).len(),
        forall|k: int|
            0 <= k < r@.len() ==> (#[trigger] r@[k]).0 <= r@[k].1 <= v@.len() && v@.subrange(
                r@[k].0 as int,
                r@[k].1 as int,
            ) == lines_of(v@)[k],
{
    let n = v.len();
    let mut r: Vec<(usize, usize)> = Vec::new();
    let ghost mut done: Seq<Seq<char>> = Seq::empty();
    let mut i: usize = 0;
    proof {
        assert(v@.subrange(0, n as int) =~= v@);
    }
    while i < n
        invariant
            i <= n,
            n == v@.len(),
            done.len() == r@.len(),
            lines_of(v@) == done + lines_from(v@, i as int),
            forall|k: int|
                0 <= k < r@.len() ==> (#[trigger] r@[k]).0 <= r@[k].1 <= v@.len() && v@.subrange(
                    r@[k].0 as int,
                    r@[k].1 as int,
                ) == done[k],
        decreases n - i,
    {
        let j = find_char(v, '\n', i, n);
        proof {
            assert(v@.subrange(0, n as int) =~= v@);
        }
        let b: usize = if j < n && j > i && v[j - 1] == '\r' {
            j - 1
        } else {
            j
        };
        proof {
            assert(v@.subrange(b as int, b as int + 0) =~= v@.subrange(b as int, b as int));
            assert(v@.subrange(i as int, b as int) =~= line_at(v@, i as int, j as int));
        }
        r.push((i, b));
        proof {
            done = done.push(line_at(v@, i as int, j as int));
        }
        if j < n {
            i = j + 1;
        } else {
            i = n;
        }
        proof {
            assert(lines_of(v@) =~= done + lines_from(v@, i as int));
        }
    }
    proof {
        assert(lines_from(v@, i as int) =~= Seq::<Seq<char>>::empty());
        assert(lines_of(v@) =~= done);
        assert forall|k: int|
            0 <= k < r@.len() implies (#[trigger] r@[k]).0 <= r@[k].1 <= v@.len() && v@.subrange(
            r@[k].0 as int,
            r@[k].1 as int,
        ) == lines_of(v@)[k] by {
            assert(v@.subrange(r@[k].0 as int, r@[k].1 as int) == done[k]);
            assert(lines_of(v@)[k] == done[k]);
        }
    }
    r
}

/// Whether `needle` stands at the start of `v[lo..hi]`.
pub fn starts_with_range(v: &Vec<char>, lo: usize, hi: usize, needle: &Vec<char>) -> (r: bool)
    requires
        lo <= hi <= v@.len(),
    ensures
        r == starts_with_seq(v@.subrange(lo as int, hi as int), needle@),
{
    let ghost s = v@.subrange(lo as int, hi as int);
    let n = needle.len();
    if n > hi - lo {
        return false;
    }
    let r = matches_at(v, lo, hi, lo, needle);
    proof {
        assert(s.subrange(0, needle@.len() as int) =~= v@.subrange(
            lo as int,
            lo + needle@.len(),
        ));
    }
    r
}

/// The ten ASCII digits.
pub open spec fn is_digit_char(c: char) -> bool {
    ||| c == '0'
    ||| c == '1'
    ||| c == '2'
    ||| c == '3'
    ||| c == '4'
    ||| c == '5'
    ||| c == '6'
    ||| c == '7'
    ||| c == '8'
    ||| c == '9'
}

/// The value of a digit character (meaningful for digits only).
pub open spec fn digit_val(c: char) -> int {
    if c == '0' {
        0
    } else if c == '1' {
        1
    } else if c == '2' {
        2
    } else if c == '3' {
        3
    } else if c == '4' {
        4
    } else if c == '5' {
        5
    } else if c == '6' {
        6
    } else if c == '7' {
        7
    } else if c == '8' {
        8
    } else {
        9
    }
}

/// The value spelled by the digits `s[i..]`, accumulated onto `acc`.
pub open spec fn digits_value_from(s: Seq<char>, i: int, acc: int) -> int
    decreases s.len() - i when 0 <= i <= s.len()
{
    if i >= s.len() {
        acc
    } else {
        digits_value_from(s, i + 1, acc * 10 + digit_val(s[i]))
    }
}

/// Accumulating digits never shrinks a non-negative value.
pub proof fn lemma_digits_value_lower_bound(s: Seq<char>, i: int, acc: int)
    requires
        0 <= i <= s.len(),
        acc >= 0,
    ensures
        digits_value_from(s, i, acc) >= acc,
    decreases s.len() - i,
{
    if i < s.len() {
        lemma_digits_value_lower_bound(s, i + 1, acc * 10 + digit_val(s[i]));
    }
}

/// A decimal string's digit run: the text after an optional leading `+`.
pub open spec fn numeric_body(s: Seq<char>) -> Seq<char> {
    if s.len() > 0 && s[0] == '+' {
        s.subrange(1, s.len() as int)
    } else {
        s
    }
}

/// Every character of `s` is an ASCII digit.
pub open spec fn all_digits(s: Seq<char>) -> bool {
    forall|j: int| 0 <= j < s.len() ==> is_digit_char(#[trigger] s[j])
}

/// The number an unsigned decimal string spells, as `str::parse` for the
/// unsigned integer types reads it before its range check: an optional
/// leading `+`, then one or more ASCII digits, nothing else.
pub open spec fn numeric_value(s: Seq<char>) -> Option<int> {
    if numeric_body(s).len() > 0 && all_digits(numeric_body(s)) {
        Some(digits_value_from(numeric_body(s), 0, 0))
    } else {
        None
    }
}

/// The value of one digit character, `None` for any other character.
fn digit_of(c: char) -> (r: Option<u64>)
    ensures
        match r {
            Some(d) => is_digit_char(c) && d == digit_val(c),
            None => !is_digit_char(c),
        },
{
    match c {
        '0' => Some(0),
        '1' => Some(1),
        '2' => Some(2),
        '3' => Some(3),
        '4' => Some(4),
        '5' => Some(5),
        '6' => Some(6),
        '7' => Some(7),
        '8' => Some(8),
        '9' => Some(9),
        _ => None,
    }
}

/// Reads `v[lo..hi]` as an unsigned decimal number no greater than `max`:
/// the spelled value when the text is numeric and the value fits, `None`
/// otherwise.
pub fn parse_decimal_range(v: &Vec<char>, lo: usize, hi: usize, max: u64) -> (r: Option<u64>)
    requires
        lo <= hi <= v@.len(),
    ensures
        r == match numeric_value(v@.subrange(lo as int, hi as int)) {
            Some(val) => if val <= max {
                Some(val as u64)
            } else {
                None::<u64>
            },
            None => None::<u64>,
        },
{
    let ghost s = v@.subrange(lo as int, hi as int);
    let mut start = lo;
    if start < hi && v[start] == '+' {
        start = start + 1;
    }
    let ghost body = numeric_body(s);
    proof {
        assert(body =~= v@.subrange(start as int, hi as int));
    }
    if start == hi {
        return None;
    }
    let mut acc: u64 = 0;
    let mut i: usize = start;
    while i < hi
        invariant
            lo <= start <= i <= hi <= v@.len(),
            s == v@.subrange(lo as int, hi as int),
            body == v@.subrange(start as int, hi as int),
            body == numeric_body(s),
            acc <= max,
            forall|j: int| 0 <= j < i - start ==> is_digit_char(#[trigger] body[j]),
            digits_value_from(body, 0, 0) == digits_value_from(body, i - start, acc as int),
        decreases hi - i,
    {
        let ghost idx = i - start;
        match digit_of(v[i]) {
            None => {
                proof {
                    assert(body[idx] == v@[i as int]);
                    assert(!is_digit_char(body[idx]));
                    assert(!all_digits(body));
                    assert(numeric_value(s) is None);
                }
                return None;
            },
            Some(d) => {
                proof {
                    assert(body[idx] == v@[i as int]);
                }
                if acc > max / 10 || (acc == max / 10 && d > max % 10) {
                    proof {
                        assert(acc as int * 10 + d > max) by (nonlinear_arith)
                            requires
                                acc as int > max as int / 10 || (acc as int == max as int / 10
                                    && d as int > max as int % 10),
                                acc >= 0,
                                d >= 0,
                                max >= 0,
                        ;
                        if all_digits(body) {
                            assert(digits_value_from(body, idx, acc as int)
                                == digits_value_from(
                                body,
                                idx + 1,
                                acc as int * 10 + digit_val(body[idx]),
                            ));
                            lemma_digits_value_lower_bound(
                                body,
                                idx + 1,
                                acc as int * 10 + digit_val(body[idx]),
                            );
                            assert(body.len() > 0);
                            assert(numeric_value(s) == Some(digits_value_from(body, 0, 0)));
                            assert(digits_value_from(body, 0, 0) > max);
                        } else {
                            assert(numeric_value(s) is None);
                        }
                    }
                    return None;
                }
                proof {
                    assert(acc as int * 10 + d <= max) by (nonlinear_arith)
                        requires
                            acc as int <= max as int / 10,
                            !(acc as int == max as int / 10 && d as int > max as int % 10),
                            acc >= 0,
                            0 <= d <= 9,
                            max >= 0,
                    ;
                }
                acc = acc * 10 + d;
            },
        }
        i = i + 1;
    }
    proof {
        assert(body.len() > 0);
        assert(all_digits(body));
        assert(digits_value_from(body, body.len() as int, acc as int) == acc as int);
        assert(numeric_value(s) == Some(digits_value_from(body, 0, 0)));
    }
    Some(acc)
}

/// Reads a whole string as an unsigned number exactly as
/// `str::parse::<usize>` does: an optional leading `+`, then one or more
/// digits, spelling a value within `usize` range.
pub fn parse_usize(s: &str) -> (r: Option<usize>)
    ensures
        r == match numeric_value(s@) {
            Some(val) => if val <= usize::MAX {
                Some(val as usize)
            } else {
                None::<usize>
            },
            None => None::<usize>,
        },
{
    let v = chars_of(s);
    let n = v.len();
    proof {
        assert(v@.subrange(0, n as int) =~= s@);
    }
    match parse_decimal_range(&v, 0, n, usize::MAX as u64) {
        Some(val) => {
            proof {
                if numeric_value(s@) is Some {
                    lemma_digits_value_lower_bound(numeric_body(s@), 0, 0);
                }
            }
            Some(val as usize)
        },
        None => None,
    }
}

} // verus!
