//! Byte-string comparisons, and the few `str` operations of std that the
//! rule parsers lean on.
use vstd::prelude::*;

verus! {

/// `.`
pub const DOT: u8 = 46;
/// `*`
pub const STAR: u8 = 42;
/// `|`, the field separator of log records.
pub const PIPE: u8 = 124;
/// `\n`
pub const NEWLINE: u8 = 10;
/// `\r`
pub const CR: u8 = 13;
/// `_`
pub const UNDERSCORE: u8 = 95;
/// `/`
pub const SLASH: u8 = 47;
/// `0`
pub const DIGIT_ZERO: u8 = 48;

/// What `str::trim` leaves of a string: the text without its leading and
/// trailing white space.
pub uninterp spec fn trim_of(s: Seq<char>) -> Seq<char>;

/// Relies on `str::trim`, which depends on the characters alone.
#[verifier::external_body]
pub(crate) fn trim_str(s: &str) -> (r: &str)
    ensures
        r@ == trim_of(s@),
{
    s.trim()
}

/// Relies on `str::split_once` with a `char` pattern: it splits at the first
/// occurrence of `c`, and fails when `c` does not occur.
#[verifier::external_body]
pub(crate) fn split_once_char(s: &str, c: char) -> (r: Option<(&str, &str)>)
    ensures
        match r {
            Some((a, b)) => s@ == a@ + seq![c] + b@ && !a@.contains(c),
            None => !s@.contains(c),
        },
{
    s.split_once(c)
}

/// `t` is a prefix of `s`.
pub open spec fn is_prefix(t: Seq<u8>, s: Seq<u8>) -> bool {
    t.len() <= s.len() && s.take(t.len() as int) == t
}

/// `t` is a suffix of `s`.
pub open spec fn is_suffix(t: Seq<u8>, s: Seq<u8>) -> bool {
    t.len() <= s.len() && s.skip(s.len() - t.len()) == t
}

/// `t` occurs in `s` as a contiguous piece.
pub open spec fn occurs_in(t: Seq<u8>, s: Seq<u8>) -> bool {
    exists|i: int| 0 <= i <= s.len() - t.len() && #[trigger] s.subrange(i, i + t.len()) == t
}

/// Whether `s[at..at + t.len()]` equals `t`.
pub fn bytes_at(s: &[u8], at: usize, t: &[u8]) -> (r: bool)
    requires
        at + t@.len() <= s@.len(),
    ensures
        r == (s@.subrange(at as int, at + t@.len()) == t@),
{
    let n = s.len();
    let mut i: usize = 0;
    while i < t.len()
        invariant
            i <= t@.len(),
            n == s@.len(),
            at + t@.len() <= s@.len(),
            forall|j: int| 0 <= j < i ==> s@[at + j] == t@[j],
        decreases t@.len() - i,
    {
        if s[at + i] != t[i] {
            assert(s@.subrange(at as int, at + t@.len())[i as int] != t@[i as int]);
            return false;
        }
        i = i + 1;
    }
    assert(s@.subrange(at as int, at + t@.len()) =~= t@);
    true
}

/// Byte-for-byte equality.
pub fn bytes_eq(a: &[u8], b: &[u8]) -> (r: bool)
    ensures
        r == (a@ == b@),
{
    if a.len() != b.len() {
        return false;
    }
    let r = bytes_at(a, 0, b);
    assert(a@.subrange(0, b@.len() as int) =~= a@);
    r
}

/// Whether `t` is a prefix of `s`.
pub fn has_prefix(s: &[u8], t: &[u8]) -> (r: bool)
    ensures
        r == is_prefix(t@, s@),
{
    if t.len() > s.len() {
        return false;
    }
    let r = bytes_at(s, 0, t);
    assert(s@.take(t@.len() as int) =~= s@.subrange(0, t@.len() as int));
    r
}

/// Whether `t` is a suffix of `s`.
pub fn has_suffix(s: &[u8], t: &[u8]) -> (r: bool)
    ensures
        r == is_suffix(t@, s@),
{
    if t.len() > s.len() {
        return false;
    }
    let at = s.len() - t.len();
    let r = bytes_at(s, at, t);
    assert(s@.skip(at as int) =~= s@.subrange(at as int, at + t@.len()));
    r
}

/// Whether `t` occurs in `s`.
pub fn occurs(s: &[u8], t: &[u8]) -> (r: bool)
    ensures
        r == occurs_in(t@, s@),
{
    if t.len() > s.len() {
        return false;
    }
    let last = s.len() - t.len();
    let mut i: usize = 0;
    loop
        invariant
            i <= last,
            last == s@.len() - t@.len(),
            forall|j: int| 0 <= j < i ==> #[trigger] s@.subrange(j, j + t@.len()) != t@,
        ensures
            forall|j: int| 0 <= j <= last ==> #[trigger] s@.subrange(j, j + t@.len()) != t@,
        decreases last - i,
    {
        if bytes_at(s, i, t) {
            return true;
        }
        if i == last {
            break;
        }
        i = i + 1;
    }
    false
}

} // verus!
