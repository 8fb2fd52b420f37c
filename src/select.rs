//! Which discovered files a task reads, judged by their path or file name
//! against the configured time prefixes. Walking the directory is the
//! caller's part.
use vstd::prelude::*;
use vstd::utf8::encode_utf8;
use crate::field::{field_at, nth_field};
use crate::text::{UNDERSCORE, has_prefix, has_suffix, is_prefix, is_suffix, occurs, occurs_in};

verus! {

/// The texts of an optional list, or nothing.
pub open spec fn opt_texts(o: Option<Vec<String>>) -> Seq<Seq<char>> {
    match o {
        Some(v) => v@.map_values(|s: String| s@),
        None => Seq::empty(),
    }
}

/// The bytes of each text.
pub open spec fn texts_bytes(ps: Seq<String>) -> Seq<Seq<u8>> {
    ps.map_values(|s: String| encode_utf8(s@))
}

/// An aggregated log is read when its path ends with `suffix` and holds one
/// of the time prefixes anywhere (a day may name a directory).
pub open spec fn aggregated_path_selected(path: Seq<u8>, prefixes: Seq<Seq<u8>>, suffix: Seq<u8>) -> bool {
    is_suffix(suffix, path) && exists|i: int|
        0 <= i < prefixes.len() && occurs_in(#[trigger] prefixes[i], path)
}

/// A native log, named `<id>_<id>_<timestamp>_<seq>.gz`, is read when its
/// name ends with `suffix` and its third `_`-separated part starts with one of
/// the time prefixes.
pub open spec fn native_name_selected(name: Seq<u8>, prefixes: Seq<Seq<u8>>, suffix: Seq<u8>) -> bool {
    &&& is_suffix(suffix, name)
    &&& field_at(name, UNDERSCORE, 2) matches Some(ts) && exists|i: int|
        0 <= i < prefixes.len() && is_prefix(#[trigger] prefixes[i], ts)
}

/// Appends clones of `from` to `to`.
fn append_texts(to: &mut Vec<String>, from: &Vec<String>)
    ensures
        final(to)@.map_values(|s: String| s@) == old(to)@.map_values(|s: String| s@) + from@.map_values(
            |s: String| s@,
        ),
{
    let mut i: usize = 0;
    let ghost base = to@.map_values(|s: String| s@);
    while i < from.len()
        invariant
            i <= from@.len(),
            to@.map_values(|s: String| s@) == base + from@.take(i as int).map_values(|s: String| s@),
        decreases from@.len() - i,
    {
        let c = from[i].clone();
        let ghost before = to@;
        to.push(c);
        assert(to@ == before.push(c));
        assert(to@.map_values(|s: String| s@) =~= before.map_values(|s: String| s@).push(c@));
        assert(from@.take(i + 1).map_values(|s: String| s@) =~= from@.take(i as int).map_values(
            |s: String| s@,
        ).push(from@[i as int]@));
        assert(to@.map_values(|s: String| s@) =~= base + from@.take(i + 1).map_values(|s: String| s@));
        i = i + 1;
    }
    assert(from@.take(from@.len() as int) == from@);
}

/// The time prefixes to look for: the day filters, then the hour filters.
pub fn search_prefixes(days: &Option<Vec<String>>, hours: &Option<Vec<String>>) -> (r: Vec<String>)
    ensures
        r@.map_values(|s: String| s@) == opt_texts(*days) + opt_texts(*hours),
{
    let mut r: Vec<String> = Vec::new();
    assert(r@.map_values(|s: String| s@) =~= Seq::<Seq<char>>::empty());
    if let Some(ds) = days {
        append_texts(&mut r, ds);
    }
    assert(r@.map_values(|s: String| s@) =~= opt_texts(*days));
    if let Some(hs) = hours {
        append_texts(&mut r, hs);
    }
    assert(r@.map_values(|s: String| s@) =~= opt_texts(*days) + opt_texts(*hours));
    r
}

/// Whether an aggregated log at `path` is read.
pub fn select_aggregated(path: &str, prefixes: &[String], suffix: &str) -> (r: bool)
    ensures
        r == aggregated_path_selected(encode_utf8(path@), texts_bytes(prefixes@), encode_utf8(suffix@)),
{
    let p = path.as_bytes();
    if !has_suffix(p, suffix.as_bytes()) {
        return false;
    }
    let ghost ps = texts_bytes(prefixes@);
    let mut i: usize = 0;
    while i < prefixes.len()
        invariant
            i <= prefixes@.len(),
            ps == texts_bytes(prefixes@),
            p@ == encode_utf8(path@),
            is_suffix(encode_utf8(suffix@), p@),
            forall|j: int| 0 <= j < i ==> !occurs_in(#[trigger] ps[j], p@),
        decreases prefixes@.len() - i,
    {
        let t = prefixes[i].as_str().as_bytes();
        assert(t@ == ps[i as int]);
        if occurs(p, t) {
            assert(occurs_in(ps[i as int], p@));
            return true;
        }
        i = i + 1;
    }
    false
}

/// Whether a native log with file name `name` is read.
pub fn select_native(name: &str, prefixes: &[String], suffix: &str) -> (r: bool)
    ensures
        r == native_name_selected(encode_utf8(name@), texts_bytes(prefixes@), encode_utf8(suffix@)),
{
    let n = name.as_bytes();
    if !has_suffix(n, suffix.as_bytes()) {
        return false;
    }
    let ts = match nth_field(n, UNDERSCORE, 2) {
        Some(t) => t,
        None => return false,
    };
    let ghost ps = texts_bytes(prefixes@);
    let mut i: usize = 0;
    while i < prefixes.len()
        invariant
            i <= prefixes@.len(),
            ps == texts_bytes(prefixes@),
            n@ == encode_utf8(name@),
            is_suffix(encode_utf8(suffix@), n@),
            field_at(n@, UNDERSCORE, 2) == Some(ts@),
            forall|j: int| 0 <= j < i ==> !is_prefix(#[trigger] ps[j], ts@),
        decreases prefixes@.len() - i,
    {
        let t = prefixes[i].as_str().as_bytes();
        assert(t@ == ps[i as int]);
        if has_prefix(ts, t) {
            assert(is_prefix(ps[i as int], ts@));
            return true;
        }
        i = i + 1;
    }
    false
}

} // verus!
