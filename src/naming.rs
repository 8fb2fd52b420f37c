//! Names of a task's results directory and file, derived from the rules and
//! the day filter. Joining them under a base directory is the caller's part.
use vstd::prelude::*;
use vstd::utf8::encode_utf8;
use crate::processor::LogKind;
use crate::text::{SLASH, STAR, UNDERSCORE};

verus! {

/// `s` with every byte `b` replaced by `with`.
pub open spec fn replace_byte(s: Seq<u8>, b: u8, with: Seq<u8>) -> Seq<u8>
    decreases s.len(),
{
    if s.len() == 0 {
        Seq::empty()
    } else {
        replace_byte(s.drop_last(), b, with) + if s.last() == b {
            with
        } else {
            seq![s.last()]
        }
    }
}

/// The domain part of the directory name: `all_domains`, the one rule with
/// `*` spelled `wildcard`, or `multi_domains`.
pub open spec fn domain_part(ds: Seq<String>) -> Seq<u8> {
    if ds.len() == 0 {
        encode_utf8("all_domains"@)
    } else if ds.len() == 1 {
        replace_byte(encode_utf8(ds[0]@), STAR, encode_utf8("wildcard"@))
    } else {
        encode_utf8("multi_domains"@)
    }
}

/// The IP part of the directory name: `all_ips`, the one rule with `/`
/// spelled `_`, or `multi_ips`.
pub open spec fn ip_part(ips: Seq<String>) -> Seq<u8> {
    if ips.len() == 0 {
        encode_utf8("all_ips"@)
    } else if ips.len() == 1 {
        replace_byte(encode_utf8(ips[0]@), SLASH, seq![UNDERSCORE])
    } else {
        encode_utf8("multi_ips"@)
    }
}

/// The date part: the first day filter, or `unknown`.
pub open spec fn date_part(days: Option<Vec<String>>) -> Seq<u8> {
    match days {
        Some(v) => if v@.len() > 0 {
            encode_utf8(v@[0]@)
        } else {
            encode_utf8("unknown"@)
        },
        None => encode_utf8("unknown"@),
    }
}

/// `<domain>_<ip>_<date>_results`.
pub open spec fn dir_name(ds: Seq<String>, ips: Seq<String>, days: Option<Vec<String>>) -> Seq<u8> {
    domain_part(ds) + seq![UNDERSCORE] + ip_part(ips) + seq![UNDERSCORE] + date_part(days)
        + encode_utf8("_results"@)
}

/// Appends `s` with every byte `b` replaced by `with`.
fn push_replaced(out: &mut Vec<u8>, s: &[u8], b: u8, with: &[u8])
    ensures
        final(out)@ == old(out)@ + replace_byte(s@, b, with@),
{
    let ghost base = out@;
    let mut i: usize = 0;
    assert(s@.take(0) =~= Seq::<u8>::empty());
    while i < s.len()
        invariant
            i <= s@.len(),
            out@ == base + replace_byte(s@.take(i as int), b, with@),
        decreases s@.len() - i,
    {
        assert(s@.take(i + 1).drop_last() =~= s@.take(i as int));
        if s[i] == b {
            out.extend_from_slice(with);
        } else {
            out.push(s[i]);
        }
        assert(out@ =~= base + replace_byte(s@.take(i + 1), b, with@));
        i = i + 1;
    }
    assert(s@.take(s@.len() as int) =~= s@);
}

/// Appends the bytes of `s`.
fn push_str(out: &mut Vec<u8>, s: &str)
    ensures
        final(out)@ == old(out)@ + encode_utf8(s@),
{
    let b = s.as_bytes();
    let ghost base = out@;
    out.extend_from_slice(b);
    assert(out@ =~= base + b@);
}

/// The name of the directory that holds a task's results, as bytes of UTF-8
/// text.
pub fn result_dir_name(query_domain: &[String], source_ip: &[String], query_time_day: &Option<Vec<String>>) -> (r: Vec<u8>)
    ensures
        r@ == dir_name(query_domain@, source_ip@, *query_time_day),
{
    let mut out: Vec<u8> = Vec::new();
    if query_domain.len() == 0 {
        push_str(&mut out, "all_domains");
    } else if query_domain.len() == 1 {
        push_replaced(&mut out, query_domain[0].as_str().as_bytes(), STAR, "wildcard".as_bytes());
    } else {
        push_str(&mut out, "multi_domains");
    }
    assert(out@ =~= domain_part(query_domain@));
    out.push(UNDERSCORE);
    let ghost with_domain = out@;
    if source_ip.len() == 0 {
        push_str(&mut out, "all_ips");
    } else if source_ip.len() == 1 {
        let under: [u8; 1] = [UNDERSCORE];
        assert(under@ =~= seq![UNDERSCORE]);
        push_replaced(&mut out, source_ip[0].as_str().as_bytes(), SLASH, under.as_slice());
    } else {
        push_str(&mut out, "multi_ips");
    }
    assert(out@ =~= with_domain + ip_part(source_ip@));
    out.push(UNDERSCORE);
    let ghost with_ip = out@;
    match query_time_day {
        Some(v) => {
            if v.len() > 0 {
                push_str(&mut out, v[0].as_str());
            } else {
                push_str(&mut out, "unknown");
            }
        },
        None => push_str(&mut out, "unknown"),
    }
    assert(out@ =~= with_ip + date_part(*query_time_day));
    push_str(&mut out, "_results");
    out
}

/// The name of a task's results file: `matched_aggregated_logs.txt` or
/// `matched_native_logs.txt`.
pub fn result_file_name(kind: LogKind) -> (r: Vec<u8>)
    ensures
        r@ == match kind {
            LogKind::Aggregated => encode_utf8("matched_aggregated_logs.txt"@),
            LogKind::Native => encode_utf8("matched_native_logs.txt"@),
        },
{
    let mut out: Vec<u8> = Vec::new();
    match kind {
        LogKind::Aggregated => push_str(&mut out, "matched_aggregated_logs.txt"),
        LogKind::Native => push_str(&mut out, "matched_native_logs.txt"),
    }
    assert(out@ =~= match kind {
        LogKind::Aggregated => encode_utf8("matched_aggregated_logs.txt"@),
        LogKind::Native => encode_utf8("matched_native_logs.txt"@),
    });
    out
}

} // verus!
