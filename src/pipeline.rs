//! Bookkeeping of a pipeline run: how per-file match counts add up across
//! workers, and how many file buffers the IO thread, the file channel and the
//! workers can hold at once.
use vstd::prelude::*;
use crate::domain::DomainPattern;
use crate::ip::IpPattern;
use crate::processor::{FileProcessor, LogKind, gunzip_of, kept_records};

verus! {

/// Capacity of the channel of file buffers between the IO thread and the
/// workers.
pub const FILE_CHANNEL_CAPACITY: usize = 4;
/// Capacity of the channel of output chunks between the workers and the
/// writer.
pub const OUTPUT_CHANNEL_CAPACITY: usize = 1024;

/// Sum of a sequence of counts.
pub open spec fn total(c: Seq<nat>) -> nat
    decreases c.len(),
{
    if c.len() == 0 {
        0
    } else {
        total(c.drop_last()) + c.last()
    }
}

/// What worker `w` adds up when file `i` (with count `c[i]`) goes to worker
/// `owner[i]`.
pub open spec fn share(c: Seq<nat>, owner: Seq<nat>, w: nat) -> nat
    decreases c.len(),
{
    if c.len() == 0 || owner.len() == 0 {
        0
    } else {
        share(c.drop_last(), owner.drop_last(), w) + if owner.last() == w {
            c.last()
        } else {
            0
        }
    }
}

/// The sum of the shares of workers `0..n`.
pub open spec fn shares(c: Seq<nat>, owner: Seq<nat>, n: nat) -> nat
    decreases n,
{
    if n == 0 {
        0
    } else {
        shares(c, owner, (n - 1) as nat) + share(c, owner, (n - 1) as nat)
    }
}

proof fn lemma_shares_step(c: Seq<nat>, owner: Seq<nat>, m: nat)
    requires
        c.len() == owner.len(),
        c.len() > 0,
    ensures
        shares(c, owner, m) == shares(c.drop_last(), owner.drop_last(), m) + if owner.last() < m {
            c.last()
        } else {
            0
        },
    decreases m,
{
    if m > 0 {
        lemma_shares_step(c, owner, (m - 1) as nat);
    }
}

/// However the files are dealt out to `n` workers, the workers' totals add up
/// to the sum of the per-file counts: nothing is lost or counted twice.
pub proof fn lemma_shares_total(c: Seq<nat>, owner: Seq<nat>, n: nat)
    requires
        c.len() == owner.len(),
        forall|i: int| 0 <= i < owner.len() ==> #[trigger] owner[i] < n,
    ensures
        shares(c, owner, n) == total(c),
    decreases c.len(),
{
    if c.len() == 0 {
        lemma_shares_empty(c, owner, n);
    } else {
        lemma_shares_step(c, owner, n);
        let o = owner.drop_last();
        assert forall|i: int| 0 <= i < o.len() implies #[trigger] o[i] < n by {
            assert(o[i] == owner[i]);
        }
        assert(owner.last() == owner[owner.len() - 1]);
        lemma_shares_total(c.drop_last(), o, n);
    }
}

proof fn lemma_shares_empty(c: Seq<nat>, owner: Seq<nat>, n: nat)
    requires
        c.len() == 0,
    ensures
        shares(c, owner, n) == 0,
    decreases n,
{
    if n > 0 {
        lemma_shares_empty(c, owner, (n - 1) as nat);
    }
}

/// What one file contributes to the count of a run: its kept records, or
/// nothing when it cannot be decoded.
pub open spec fn file_matches(
    ipm: Seq<IpPattern>,
    dm: Seq<DomainPattern>,
    kind: LogKind,
    data: Seq<u8>,
) -> nat {
    match gunzip_of(data) {
        Some(text) => kept_records(ipm, dm, text, kind.ip_field(), kind.domain_field()).len(),
        None => 0,
    }
}

/// The per-file counts of a list of files.
pub open spec fn per_file_matches(p: FileProcessor, kind: LogKind, files: Seq<Seq<u8>>) -> Seq<nat> {
    files.map_values(|f: Seq<u8>| file_matches(p.ip_rules(), p.domain_rules(), kind, f))
}

/// The matched-record count of a concurrent run, with files dealt out to
/// `workers` workers in any way, equals the sum of what the single-threaded
/// decoder finds in each file on its own.
pub proof fn lemma_pipeline_conservation(
    p: FileProcessor,
    kind: LogKind,
    files: Seq<Seq<u8>>,
    owner: Seq<nat>,
    workers: nat,
)
    requires
        owner.len() == files.len(),
        forall|i: int| 0 <= i < owner.len() ==> #[trigger] owner[i] < workers,
    ensures
        shares(per_file_matches(p, kind, files), owner, workers) == total(
            per_file_matches(p, kind, files),
        ),
{
    lemma_shares_total(per_file_matches(p, kind, files), owner, workers);
}

/// Adds up the workers' match totals; `None` when the sum does not fit.
pub fn sum_counts(counts: &[usize]) -> (r: Option<usize>)
    ensures
        match r {
            Some(v) => v == total(counts@.map_values(|x: usize| x as nat)),
            None => total(counts@.map_values(|x: usize| x as nat)) > usize::MAX,
        },
{
    let ghost c = counts@.map_values(|x: usize| x as nat);
    let mut sum: usize = 0;
    let mut i: usize = 0;
    assert(c.take(0) =~= Seq::<nat>::empty());
    while i < counts.len()
        invariant
            i <= counts@.len(),
            c == counts@.map_values(|x: usize| x as nat),
            sum == total(c.take(i as int)),
        decreases counts@.len() - i,
    {
        assert(c.take(i + 1).drop_last() =~= c.take(i as int));
        if sum > usize::MAX - counts[i] {
            proof {
                lemma_total_prefix(c, i + 1);
            }
            return None;
        }
        sum = sum + counts[i];
        i = i + 1;
    }
    assert(c.take(counts@.len() as int) =~= c);
    Some(sum)
}

/// The sum of a leading part never exceeds the whole sum.
proof fn lemma_total_prefix(c: Seq<nat>, i: int)
    requires
        0 <= i <= c.len(),
    ensures
        total(c.take(i)) <= total(c),
    decreases c.len(),
{
    if i == c.len() {
        assert(c.take(i) =~= c);
    } else {
        assert(c.drop_last().take(i) =~= c.take(i));
        lemma_total_prefix(c.drop_last(), i);
    }
}

/// Where the full-file buffers of a run are: in the IO thread's hand (read,
/// not yet sent), queued in the file channel, or held by a busy worker.
pub struct Residency {
    pub reading: nat,
    pub queued: nat,
    pub busy: nat,
}

/// What can happen to file buffers.
pub enum FlowEvent {
    /// The IO thread reads the next file into memory.
    Read,
    /// The IO thread hands the buffer to the channel.
    Send,
    /// An idle worker receives a buffer from the channel.
    Take,
    /// A worker is done with its buffer and frees it.
    Release,
}

/// Whether `e` can happen in state `s`: the IO thread reads one file at a
/// time, the channel blocks a sender when it holds `cap` buffers, a worker
/// takes a buffer only when idle.
pub open spec fn flow_allowed(s: Residency, e: FlowEvent, cap: nat, workers: nat) -> bool {
    match e {
        FlowEvent::Read => s.reading == 0,
        FlowEvent::Send => s.reading == 1 && s.queued < cap,
        FlowEvent::Take => s.queued > 0 && s.busy < workers,
        FlowEvent::Release => s.busy > 0,
    }
}

/// The state after `e`.
pub open spec fn flow_after(s: Residency, e: FlowEvent) -> Residency {
    match e {
        FlowEvent::Read => Residency { reading: 1, ..s },
        FlowEvent::Send => Residency { reading: 0, queued: s.queued + 1, ..s },
        FlowEvent::Take => Residency { queued: (s.queued - 1) as nat, busy: s.busy + 1, ..s },
        FlowEvent::Release => Residency { busy: (s.busy - 1) as nat, ..s },
    }
}

/// The state after a run of events from an empty pipeline, or `None` when one
/// of them could not happen.
pub open spec fn flow_run(trace: Seq<FlowEvent>, cap: nat, workers: nat) -> Option<Residency>
    decreases trace.len(),
{
    if trace.len() == 0 {
        Some(Residency { reading: 0, queued: 0, busy: 0 })
    } else {
        match flow_run(trace.drop_last(), cap, workers) {
            Some(s) => if flow_allowed(s, trace.last(), cap, workers) {
                Some(flow_after(s, trace.last()))
            } else {
                None
            },
            None => None,
        }
    }
}

/// In every reachable state, the channel and the workers hold at most
/// `cap + workers` file buffers; counting the one the IO thread may hold
/// while it waits to send, at most `cap + workers + 1`.
pub proof fn lemma_residency_bound(trace: Seq<FlowEvent>, cap: nat, workers: nat)
    ensures
        flow_run(trace, cap, workers) matches Some(s) ==> s.queued <= cap && s.busy <= workers
            && s.reading <= 1 && s.queued + s.busy <= cap + workers && s.reading + s.queued
            + s.busy <= cap + workers + 1,
    decreases trace.len(),
{
    if trace.len() > 0 {
        lemma_residency_bound(trace.drop_last(), cap, workers);
    }
}

} // verus!
