//! Deciding which records of a decoded log file are kept, and framing them
//! into output chunks.
use vstd::prelude::*;
use crate::chunk::{ChunkBuffer, framed};
use crate::domain::{DomainMatcher, DomainPattern, patterns_accept};
use crate::field::{field_at, first_sep, next_sep};
use crate::ip::{IPMatcher, IpPattern, ip_patterns_accept};
use crate::text::{CR, NEWLINE, PIPE};

verus! {

/// Field of the source IP in an aggregated record.
pub const AGGREGATED_LOG_IP_INDEX: usize = 0;
/// Field of the domain in an aggregated record.
pub const AGGREGATED_LOG_DOMAIN_INDEX: usize = 1;
/// Field of the source IP in a native record.
pub const NATIVE_LOG_IP_INDEX: usize = 4;
/// Field of the domain in a native record.
pub const NATIVE_LOG_DOMAIN_INDEX: usize = 7;

/// The two log populations, which differ in where their fields stand.
#[derive(Clone, Copy, Debug, PartialEq, Eq, Structural)]
pub enum LogKind {
    Aggregated,
    Native,
}

impl LogKind {
    /// Field of the source IP.
    pub open spec fn ip_field(self) -> nat {
        match self {
            LogKind::Aggregated => AGGREGATED_LOG_IP_INDEX as nat,
            LogKind::Native => NATIVE_LOG_IP_INDEX as nat,
        }
    }

    /// Field of the domain.
    pub open spec fn domain_field(self) -> nat {
        match self {
            LogKind::Aggregated => AGGREGATED_LOG_DOMAIN_INDEX as nat,
            LogKind::Native => NATIVE_LOG_DOMAIN_INDEX as nat,
        }
    }

    /// Field of the source IP.
    pub fn ip_index(&self) -> (r: usize)
        ensures
            r == self.ip_field(),
    {
        match self {
            LogKind::Aggregated => AGGREGATED_LOG_IP_INDEX,
            LogKind::Native => NATIVE_LOG_IP_INDEX,
        }
    }

    /// Field of the domain.
    pub fn domain_index(&self) -> (r: usize)
        ensures
            r == self.domain_field(),
    {
        match self {
            LogKind::Aggregated => AGGREGATED_LOG_DOMAIN_INDEX,
            LogKind::Native => NATIVE_LOG_DOMAIN_INDEX,
        }
    }
}

/// A record is kept when each configured filter accepts its field: the IP
/// rules (if any) the field `ip_idx`, the domain rules (if any) the field
/// `dom_idx`. A field the record lacks fails its filter.
pub open spec fn record_selected(
    ipm: Seq<IpPattern>,
    dm: Seq<DomainPattern>,
    line: Seq<u8>,
    ip_idx: nat,
    dom_idx: nat,
) -> bool {
    &&& (ipm.len() == 0 || (field_at(line, PIPE, ip_idx) matches Some(f) && ip_patterns_accept(
        ipm,
        f,
    )))
    &&& (dm.len() == 0 || (field_at(line, PIPE, dom_idx) matches Some(f) && patterns_accept(dm, f)))
}

/// A line with one trailing carriage return removed.
pub open spec fn strip_cr(l: Seq<u8>) -> Seq<u8> {
    if l.len() > 0 && l.last() == CR {
        l.drop_last()
    } else {
        l
    }
}

/// The part of `text` after its first line.
pub open spec fn after_first_line(text: Seq<u8>) -> Seq<u8> {
    let i = first_sep(text, NEWLINE);
    if i < text.len() {
        text.skip(i as int + 1)
    } else {
        Seq::empty()
    }
}

/// The records of a decoded text: its lines split at `\n`, each without a
/// trailing `\r`, empty ones left out.
pub open spec fn records_of(text: Seq<u8>) -> Seq<Seq<u8>>
    decreases text.len(),
{
    if text.len() == 0 {
        Seq::empty()
    } else {
        let line = strip_cr(text.take(first_sep(text, NEWLINE) as int));
        let rest = records_of(after_first_line(text));
        if line.len() == 0 {
            rest
        } else {
            seq![line] + rest
        }
    }
}

/// The records of `text` that are kept, in their order.
pub open spec fn kept_records(
    ipm: Seq<IpPattern>,
    dm: Seq<DomainPattern>,
    text: Seq<u8>,
    ip_idx: nat,
    dom_idx: nat,
) -> Seq<Seq<u8>>
    decreases text.len(),
{
    if text.len() == 0 {
        Seq::empty()
    } else {
        let line = strip_cr(text.take(first_sep(text, NEWLINE) as int));
        let rest = kept_records(ipm, dm, after_first_line(text), ip_idx, dom_idx);
        if line.len() > 0 && record_selected(ipm, dm, line, ip_idx, dom_idx) {
            seq![line] + rest
        } else {
            rest
        }
    }
}

/// With no rule of either kind, every record of a text is kept, in order.
pub proof fn lemma_no_rules_keep_every_record(text: Seq<u8>, ip_idx: nat, dom_idx: nat)
    ensures
        kept_records(Seq::empty(), Seq::empty(), text, ip_idx, dom_idx) == records_of(text),
    decreases text.len(),
{
    if text.len() > 0 {
        lemma_no_rules_keep_every_record(after_first_line(text), ip_idx, dom_idx);
    }
}

/// What `MultiGzDecoder` of flate2 yields for the compressed bytes `data`:
/// the content of all its members, or `None` when the stream is not valid
/// gzip.
pub uninterp spec fn gunzip_of(data: Seq<u8>) -> Option<Seq<u8>>;

/// Relies on flate2's `MultiGzDecoder`, read to the end with
/// `std::io::Read::read_to_end`.
#[verifier::external_body]
fn gunzip(data: &[u8]) -> (r: Option<Vec<u8>>)
    ensures
        match r {
            Some(v) => gunzip_of(data@) == Some(v@),
            None => gunzip_of(data@) is None,
        },
{
    let mut out = Vec::new();
    let mut decoder = flate2::read::MultiGzDecoder::new(data);
    std::io::Read::read_to_end(&mut decoder, &mut out).ok()?;
    Some(out)
}

/// A compressed file that could not be decoded.
#[derive(Debug, PartialEq, Eq, Structural)]
pub struct DecodeError;

/// The matchers shared read-only by every worker.
pub struct FileProcessor {
    ip_matcher: IPMatcher,
    domain_matcher: DomainMatcher,
}

impl FileProcessor {
    /// The IP rules.
    pub closed spec fn ip_rules(&self) -> Seq<IpPattern> {
        self.ip_matcher@
    }

    /// The domain rules.
    pub closed spec fn domain_rules(&self) -> Seq<DomainPattern> {
        self.domain_matcher@
    }

    /// Pairs the two matchers.
    pub fn new(ip_matcher: IPMatcher, domain_matcher: DomainMatcher) -> (r: FileProcessor)
        ensures
            r.ip_rules() == ip_matcher@,
            r.domain_rules() == domain_matcher@,
    {
        FileProcessor { ip_matcher, domain_matcher }
    }

    /// Whether a record is kept, scanning it once: the scan stops as soon as
    /// both fields have been judged, or as soon as one filter fails.
    pub fn check_line(&self, line: &[u8], ip_idx: usize, domain_idx: usize) -> (r: bool)
        ensures
            r == record_selected(
                self.ip_rules(),
                self.domain_rules(),
                line@,
                ip_idx as nat,
                domain_idx as nat,
            ),
    {
        let filter_ip = !self.ip_matcher.is_none();
        let filter_domain = !self.domain_matcher.is_none();
        if !filter_ip && !filter_domain {
            return true;
        }
        let ghost ipm = self.ip_rules();
        let ghost dm = self.domain_rules();
        let mut start: usize = 0;
        let mut k: usize = 0;
        assert(line@.skip(0) == line@);
        loop
            invariant
                start <= line@.len(),
                filter_ip == (ipm.len() != 0),
                filter_domain == (dm.len() != 0),
                filter_ip || filter_domain,
                ipm == self.ip_matcher@,
                dm == self.domain_matcher@,
                filter_ip && k <= ip_idx ==> field_at(line@, PIPE, ip_idx as nat) == field_at(
                    line@.skip(start as int),
                    PIPE,
                    (ip_idx - k) as nat,
                ),
                filter_domain && k <= domain_idx ==> field_at(line@, PIPE, domain_idx as nat)
                    == field_at(line@.skip(start as int), PIPE, (domain_idx - k) as nat),
                filter_ip && ip_idx < k ==> (field_at(line@, PIPE, ip_idx as nat) matches Some(
                    f,
                ) && ip_patterns_accept(ipm, f)),
                filter_domain && domain_idx < k ==> (field_at(line@, PIPE, domain_idx as nat) matches Some(
                    f,
                ) && patterns_accept(dm, f)),
                !filter_ip || k <= ip_idx || !filter_domain || k <= domain_idx,
            decreases line@.len() - start,
        {
            let end = next_sep(line, PIPE, start);
            let ghost rest = line@.skip(start as int);
            let field = vstd::slice::slice_subrange(line, start, end);
            assert(field@ == rest.take(first_sep(rest, PIPE) as int));
            if filter_ip && k == ip_idx {
                if !self.ip_matcher.matches(field) {
                    return false;
                }
            }
            if filter_domain && k == domain_idx {
                if !self.domain_matcher.matches(field) {
                    return false;
                }
            }
            if (!filter_ip || k >= ip_idx) && (!filter_domain || k >= domain_idx) {
                return true;
            }
            if end == line.len() {
                return false;
            }
            assert(rest.skip(first_sep(rest, PIPE) as int + 1) == line@.skip(end + 1));
            start = end + 1;
            k = k + 1;
        }
    }

    /// Splits a decoded text into records, appends each kept record (and a
    /// newline) to `out`, and returns how many were kept.
    pub fn process_records(&self, text: &[u8], ip_idx: usize, domain_idx: usize, out: &mut ChunkBuffer) -> (r: usize)
        requires
            old(out).wf(),
        ensures
            final(out).wf(),
            final(out).limit() == old(out).limit(),
            r == kept_records(self.ip_rules(), self.domain_rules(), text@, ip_idx as nat, domain_idx as nat).len(),
            final(out).content() == old(out).content() + framed(
                kept_records(self.ip_rules(), self.domain_rules(), text@, ip_idx as nat, domain_idx as nat),
            ),
    {
        let ghost ipm = self.ip_rules();
        let ghost dm = self.domain_rules();
        let ghost all = kept_records(ipm, dm, text@, ip_idx as nat, domain_idx as nat);
        let ghost base = out.content();
        let ghost mut done: Seq<Seq<u8>> = Seq::empty();
        let mut count: usize = 0;
        let mut start: usize = 0;
        assert(text@.skip(0) == text@);
        while start < text.len()
            invariant
                start <= text@.len(),
                out.wf(),
                out.limit() == old(out).limit(),
                all == done + kept_records(ipm, dm, text@.skip(start as int), ip_idx as nat, domain_idx as nat),
                out.content() == base + framed(done),
                count == done.len(),
                count <= start,
                ipm == self.ip_rules(),
                dm == self.domain_rules(),
            decreases text@.len() - start,
        {
            let end = next_sep(text, NEWLINE, start);
            let ghost rest = text@.skip(start as int);
            let mut stop = end;
            if stop > start && text[stop - 1] == CR {
                stop = stop - 1;
            }
            let line = vstd::slice::slice_subrange(text, start, stop);
            assert(line@ == strip_cr(rest.take(first_sep(rest, NEWLINE) as int)));
            let ghost next = if end < text@.len() { (end + 1) as int } else { text@.len() as int };
            assert(after_first_line(rest) == text@.skip(next));
            if line.len() > 0 && self.check_line(line, ip_idx, domain_idx) {
                out.push_line(line);
                proof {
                    let nd = done.push(line@);
                    assert(nd.drop_last() == done);
                    assert(framed(nd) == framed(done) + line@ + seq![NEWLINE]);
                    assert(all == nd + kept_records(ipm, dm, text@.skip(next), ip_idx as nat, domain_idx as nat));
                    done = nd;
                }
                count = count + 1;
            }
            if end < text.len() {
                start = end + 1;
            } else {
                start = text.len();
            }
        }
        assert(text@.skip(text@.len() as int) =~= Seq::<u8>::empty());
        assert(all == done);
        count
    }

    /// Decodes one compressed file and keeps the records that the rules
    /// accept at the fields of `kind`; a file that cannot be decoded yields
    /// an error and adds nothing to `out`.
    pub fn process_data(&self, data: &[u8], kind: LogKind, out: &mut ChunkBuffer) -> (r: Result<usize, DecodeError>)
        requires
            old(out).wf(),
        ensures
            final(out).wf(),
            final(out).limit() == old(out).limit(),
            match gunzip_of(data@) {
                None => r is Err && final(out).content() == old(out).content(),
                Some(text) => r == Ok::<usize, DecodeError>(
                    kept_records(self.ip_rules(), self.domain_rules(), text, kind.ip_field(), kind.domain_field()).len() as usize,
                ) && final(out).content() == old(out).content() + framed(
                    kept_records(self.ip_rules(), self.domain_rules(), text, kind.ip_field(), kind.domain_field()),
                ),
            },
    {
        match gunzip(data) {
            None => Err(DecodeError),
            Some(text) => Ok(self.process_records(text.as_slice(), kind.ip_index(), kind.domain_index(), out)),
        }
    }

    /// `process_data` for an aggregated log file.
    pub fn process_aggregated_data(&self, data: &[u8], out: &mut ChunkBuffer) -> (r: Result<usize, DecodeError>)
        requires
            old(out).wf(),
        ensures
            final(out).wf(),
            final(out).limit() == old(out).limit(),
            match gunzip_of(data@) {
                None => r is Err && final(out).content() == old(out).content(),
                Some(text) => r == Ok::<usize, DecodeError>(
                    kept_records(self.ip_rules(), self.domain_rules(), text, AGGREGATED_LOG_IP_INDEX as nat, AGGREGATED_LOG_DOMAIN_INDEX as nat).len() as usize,
                ) && final(out).content() == old(out).content() + framed(
                    kept_records(self.ip_rules(), self.domain_rules(), text, AGGREGATED_LOG_IP_INDEX as nat, AGGREGATED_LOG_DOMAIN_INDEX as nat),
                ),
            },
    {
        self.process_data(data, LogKind::Aggregated, out)
    }

    /// `process_data` for a native log file.
    pub fn process_native_data(&self, data: &[u8], out: &mut ChunkBuffer) -> (r: Result<usize, DecodeError>)
        requires
            old(out).wf(),
        ensures
            final(out).wf(),
            final(out).limit() == old(out).limit(),
            match gunzip_of(data@) {
                None => r is Err && final(out).content() == old(out).content(),
                Some(text) => r == Ok::<usize, DecodeError>(
                    kept_records(self.ip_rules(), self.domain_rules(), text, NATIVE_LOG_IP_INDEX as nat, NATIVE_LOG_DOMAIN_INDEX as nat).len() as usize,
                ) && final(out).content() == old(out).content() + framed(
                    kept_records(self.ip_rules(), self.domain_rules(), text, NATIVE_LOG_IP_INDEX as nat, NATIVE_LOG_DOMAIN_INDEX as nat),
                ),
            },
    {
        self.process_data(data, LogKind::Native, out)
    }
}

} // verus!
