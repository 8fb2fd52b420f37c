//! Splitting a record into separator-delimited fields without copying.
use vstd::prelude::*;

verus! {

/// Length of the longest prefix of `s` that holds no `sep`: the index of the
/// first `sep`, or `s.len()` when there is none.
pub open spec fn first_sep<A>(s: Seq<A>, sep: A) -> nat
    decreases s.len(),
{
    if s.len() == 0 {
        0
    } else if s[0] == sep {
        0
    } else {
        1 + first_sep(s.drop_first(), sep)
    }
}

/// The `n`-th (0-based) field of `s` when split on `sep`; `None` when `s`
/// holds fewer than `n` separators.
pub open spec fn field_at(s: Seq<u8>, sep: u8, n: nat) -> Option<Seq<u8>>
    decreases n,
{
    let i = first_sep(s, sep);
    if n == 0 {
        Some(s.take(i as int))
    } else if i < s.len() {
        field_at(s.skip(i + 1 as int), sep, (n - 1) as nat)
    } else {
        None
    }
}

/// `first_sep` is characterised by where the first separator stands.
pub proof fn lemma_first_sep<A>(s: Seq<A>, sep: A, i: int)
    requires
        0 <= i <= s.len(),
        forall|j: int| 0 <= j < i ==> s[j] != sep,
        i < s.len() ==> s[i] == sep,
    ensures
        first_sep(s, sep) == i,
    decreases s.len(),
{
    if s.len() > 0 && s[0] != sep {
        lemma_first_sep(s.drop_first(), sep, i - 1);
    }
}

/// Relies on `memchr::memchr`: the index of the first occurrence of `needle`
/// in `haystack`, or `None` when it does not occur.
#[verifier::external_body]
pub(crate) fn find_byte(needle: u8, haystack: &[u8]) -> (r: Option<usize>)
    ensures
        match r {
            Some(i) => i < haystack@.len() && haystack@[i as int] == needle && forall|j: int|
                0 <= j < i ==> haystack@[j] != needle,
            None => forall|j: int| 0 <= j < haystack@.len() ==> haystack@[j] != needle,
        },
{
    memchr::memchr(needle, haystack)
}

/// Index of the first `sep` in `s` at or after `from`, or `s.len()`.
pub(crate) fn next_sep(s: &[u8], sep: u8, from: usize) -> (r: usize)
    requires
        from <= s@.len(),
    ensures
        r == from + first_sep(s@.skip(from as int), sep),
        r <= s@.len(),
{
    let rest = vstd::slice::slice_subrange(s, from, s.len());
    assert(rest@ == s@.skip(from as int));
    match find_byte(sep, rest) {
        Some(i) => {
            proof {
                lemma_first_sep(rest@, sep, i as int);
            }
            from + i
        },
        None => {
            proof {
                lemma_first_sep(rest@, sep, rest@.len() as int);
            }
            s.len()
        },
    }
}

/// Returns the `n`-th (0-based) `sep`-delimited field of `line` as a view into
/// it, or `None` when `line` holds fewer than `n` separators.
pub fn nth_field(line: &[u8], sep: u8, n: usize) -> (r: Option<&[u8]>)
    ensures
        match r {
            Some(f) => field_at(line@, sep, n as nat) == Some(f@),
            None => field_at(line@, sep, n as nat) is None,
        },
{
    let mut start: usize = 0;
    let mut k: usize = 0;
    assert(line@.skip(0) == line@);
    loop
        invariant
            start <= line@.len(),
            k <= n,
            field_at(line@, sep, n as nat) == field_at(line@.skip(start as int), sep, (n - k) as nat),
        decreases line@.len() - start,
    {
        let end = next_sep(line, sep, start);
        let ghost rest = line@.skip(start as int);
        if k == n {
            let f = vstd::slice::slice_subrange(line, start, end);
            assert(f@ == rest.take(first_sep(rest, sep) as int));
            return Some(f);
        }
        if end == line.len() {
            return None;
        }
        assert(rest.skip(first_sep(rest, sep) as int + 1) == line@.skip(end + 1));
        start = end + 1;
        k = k + 1;
    }
}

} // verus!
