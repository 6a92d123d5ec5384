//! The block-size sweep: from the replies of the operating system to the points.

use vstd::prelude::*;

use super::latency::{is_mean, lemma_quotient_is_mean};
use super::profile::elapsed;
use super::time::{
    is_time, law_more_ticks_last_longer, law_ticks_become_whole_nanoseconds,
    law_what_passed_leads_from_reading_to_reading, lemma_one_time, WRAP,
};
use crate::interrupt::hardware_interrupt::nanos_in;
use crate::interrupt::pass::PassCounts;
use crate::interrupt::session::MeasureError;
use crate::interrupt::sweep::{
    best_point, is_best, SweepAction, SweepEvent, SweepPoint, SweepResult, SweepState,
    DEFAULT_SWEEP_SIZES,
};

verus! {

// ── a conversation ──────────────────────────────────────────────────────────

/// The replies to one pass over a file that can be read.
pub struct PassReplies {
    /// The reply to the wish to bypass the cache, if that is asked for.
    pub bypass: SweepEvent,
    pub start: u64,
    pub rewound: u64,
    pub reads: Seq<SweepEvent>,
    pub end: u64,
}

/// Whether a reply to a read leaves the pass going: a chunk, or an interrupted call.
pub open spec fn goes_on(e: SweepEvent) -> bool {
    e is Chunk || e == SweepEvent::Failed(4)
}

/// The bytes of the chunks among some replies.
pub open spec fn bytes_in(reads: Seq<SweepEvent>) -> nat
    decreases reads.len(),
{
    if reads.len() == 0 {
        0
    } else {
        bytes_in(reads.drop_last()) + match reads.last() {
            SweepEvent::Chunk { bytes, .. } => bytes as nat,
            _ => 0,
        }
    }
}

/// The counter ticks that the reads of the chunks took.
pub open spec fn ticks_in(reads: Seq<SweepEvent>) -> nat
    decreases reads.len(),
{
    if reads.len() == 0 {
        0
    } else {
        ticks_in(reads.drop_last()) + match reads.last() {
            SweepEvent::Chunk { start_ticks, end_ticks, .. } => elapsed(start_ticks, end_ticks),
            _ => 0,
        }
    }
}

/// The number of chunks.
pub open spec fn chunks_in(reads: Seq<SweepEvent>) -> nat
    decreases reads.len(),
{
    if reads.len() == 0 {
        0
    } else {
        chunks_in(reads.drop_last()) + if reads.last() is Chunk {
            1nat
        } else {
            0
        }
    }
}

impl PassReplies {
    /// All replies of the pass.
    pub open spec fn all(self, uncached: bool) -> Seq<SweepEvent> {
        self.before(uncached) + self.reads + seq![
            SweepEvent::EndOfFile,
            SweepEvent::Done(self.end),
        ]
    }

    /// The replies before the first read.
    pub open spec fn before(self, uncached: bool) -> Seq<SweepEvent> {
        (if uncached {
            seq![self.bypass]
        } else {
            Seq::empty()
        }) + seq![SweepEvent::Done(self.start), SweepEvent::Done(self.rewound)]
    }

    /// Whether the replies are those of a file that can be read, with totals that fit
    /// in 64 bits.
    pub open spec fn fair(self) -> bool {
        &&& self.bypass is Done || self.bypass is Failed
        &&& forall|i: int| 0 <= i < self.reads.len() ==> goes_on(#[trigger] self.reads[i])
        &&& bytes_in(self.reads) <= u64::MAX
        &&& ticks_in(self.reads) <= u64::MAX
        &&& self.reads.len() <= u64::MAX
    }

    /// Whether a point is what the pass amounts to, at a block size and by a counter
    /// that runs at `hz`. The average latency is that of the mean number of ticks per
    /// read.
    pub open spec fn amounts_to(self, size: usize, hz: u64, p: SweepPoint) -> bool {
        let n = chunks_in(self.reads);
        &&& p.chunk_size == if size == 0 {
            1
        } else {
            size
        }
        &&& p.bytes == bytes_in(self.reads)
        &&& p.chunks == n
        &&& is_time(elapsed(self.start, self.end), hz as nat, p.wall_nanos as nat)
        &&& n == 0 ==> p.avg_chunk_nanos == 0
        &&& n > 0 ==> exists|mean: nat|
            #[trigger] is_mean(ticks_in(self.reads), n, mean) && is_time(
                mean,
                hz as nat,
                p.avg_chunk_nanos as nat,
            )
    }
}

/// The state after a series of replies.
pub open spec fn run(s: SweepState, events: Seq<SweepEvent>) -> SweepState
    decreases events.len(),
{
    if events.len() == 0 {
        s
    } else {
        run(s, events.drop_last()).after(events.last())
    }
}

/// The replies of some passes, one behind the other.
pub open spec fn passes_all(passes: Seq<PassReplies>, uncached: bool) -> Seq<SweepEvent>
    decreases passes.len(),
{
    if passes.len() == 0 {
        Seq::empty()
    } else {
        passes_all(passes.drop_last(), uncached) + passes.last().all(uncached)
    }
}

/// The replies to the calls before the first pass.
pub open spec fn opening(opened: u64, size: u64, hz: u64) -> Seq<SweepEvent> {
    seq![SweepEvent::Done(opened), SweepEvent::Done(size), SweepEvent::Done(hz)]
}

// ── the proof ───────────────────────────────────────────────────────────────

proof fn lemma_run_in_parts(s: SweepState, a: Seq<SweepEvent>, b: Seq<SweepEvent>)
    ensures
        run(s, a + b) == run(run(s, a), b),
    decreases b.len(),
{
    if b.len() == 0 {
        assert(a + b == a);
    } else {
        lemma_run_in_parts(s, a, b.drop_last());
        assert((a + b).drop_last() == a + b.drop_last());
        assert((a + b).last() == b.last());
    }
}

proof fn lemma_next_reply(s: SweepState, a: Seq<SweepEvent>, e: SweepEvent)
    ensures
        run(s, a.push(e)) == run(s, a).after(e),
{
    assert(a.push(e).drop_last() == a);
}

proof fn lemma_reads(s: SweepState, reads: Seq<SweepEvent>)
    requires
        s.action == SweepAction::Read,
        s.counts == PassCounts::none(),
        forall|i: int| 0 <= i < reads.len() ==> goes_on(#[trigger] reads[i]),
        bytes_in(reads) <= u64::MAX,
        ticks_in(reads) <= u64::MAX,
        reads.len() <= u64::MAX,
    ensures
        run(s, reads) == (SweepState {
            counts: PassCounts {
                bytes: bytes_in(reads) as u64,
                chunks: chunks_in(reads) as u64,
                ticks: ticks_in(reads) as u64,
            },
            ..s
        }),
        chunks_in(reads) <= reads.len(),
    decreases reads.len(),
{
    if reads.len() > 0 {
        let before = reads.drop_last();
        assert(goes_on(reads[reads.len() - 1]));
        assert forall|i: int| 0 <= i < before.len() implies goes_on(#[trigger] before[i]) by {
            assert(before[i] == reads[i]);
        }
        lemma_reads(s, before);
        if let SweepEvent::Chunk { start_ticks, end_ticks, .. } = reads.last() {
            law_what_passed_leads_from_reading_to_reading(start_ticks, end_ticks);
        }
    }
}

/// Whether a pass is about to begin.
pub open spec fn about_to_pass(s: SweepState) -> bool {
    &&& s.action == if s.uncached {
        SweepAction::BypassCache
    } else {
        SweepAction::StartPass
    }
    &&& s.error is None
    &&& s.counts == PassCounts::none()
}

#[verifier::spinoff_prover]
#[verifier::rlimit(50)]
proof fn lemma_pass(s: SweepState, r: PassReplies)
    requires
        about_to_pass(s),
        r.fair(),
    ensures
        ({
            let t = run(s, r.all(s.uncached));
            let read = SweepState {
                start_ticks: r.start,
                action: SweepAction::EndPass,
                counts: PassCounts {
                    bytes: bytes_in(r.reads) as u64,
                    chunks: chunks_in(r.reads) as u64,
                    ticks: ticks_in(r.reads) as u64,
                },
                ..s
            };
            &&& t == read.after(SweepEvent::Done(r.end))
            &&& chunks_in(r.reads) <= r.reads.len()
        }),
{
    let none = Seq::<SweepEvent>::empty();
    let a = if s.uncached {
        none.push(r.bypass)
    } else {
        none
    };
    lemma_next_reply(s, none, r.bypass);
    let b = a.push(SweepEvent::Done(r.start));
    let c = b.push(SweepEvent::Done(r.rewound));
    lemma_next_reply(s, a, SweepEvent::Done(r.start));
    lemma_next_reply(s, b, SweepEvent::Done(r.rewound));
    assert(r.before(s.uncached) == c);
    lemma_run_in_parts(s, c, r.reads);
    lemma_reads(run(s, c), r.reads);
    let d = c + r.reads;
    let e = d.push(SweepEvent::EndOfFile);
    let f = e.push(SweepEvent::Done(r.end));
    lemma_next_reply(s, d, SweepEvent::EndOfFile);
    lemma_next_reply(s, e, SweepEvent::Done(r.end));
    assert(r.all(s.uncached) == f);
}

// ── the laws ────────────────────────────────────────────────────────────────

/// A pass becomes a point with the bytes and the chunks of its reads, the time from
/// its start to its end, and the average latency of its reads. The first pass only
/// warms up: it makes no point. Its buffer has the block size.
#[verifier::spinoff_prover]
#[verifier::rlimit(50)]
pub proof fn law_a_pass_becomes_a_point(s: SweepState, r: PassReplies)
    requires
        about_to_pass(s),
        r.fair(),
        s.warm ==> s.points.len() < s.sizes.len(),
    ensures
        ({
            let t = run(s, r.all(s.uncached));
            let n = s.points.len() as int;
            &&& t.warm
            &&& t.error is None
            &&& t.sizes == s.sizes && t.counter_hz == s.counter_hz && t.uncached == s.uncached
                && t.path == s.path && t.size_bytes == s.size_bytes
            &&& !s.warm ==> t.points == s.points && s.chunk() == 256 * 1024
            &&& s.warm ==> t.points.len() == n + 1 && t.points.take(n) == s.points && r.amounts_to(
                s.sizes[n],
                s.counter_hz,
                t.points[n],
            ) && s.chunk() == t.points[n].chunk_size
            &&& t.points.len() == t.sizes.len() ==> t.action == SweepAction::Finish
            &&& t.points.len() < t.sizes.len() ==> about_to_pass(t)
        }),
{
    lemma_pass(s, r);
    let t = run(s, r.all(s.uncached));
    let n = s.points.len() as int;
    if s.warm {
        law_what_passed_leads_from_reading_to_reading(r.start, r.end);
        law_ticks_become_whole_nanoseconds(elapsed(r.start, r.end), s.counter_hz as nat);
        let sum = ticks_in(r.reads);
        let count = chunks_in(r.reads);
        if count > 0 {
            lemma_quotient_is_mean(sum, count);
            law_ticks_become_whole_nanoseconds(sum / count, s.counter_hz as nat);
            assert(is_mean(sum, count, sum / count));
        }
        assert(t.points.take(n) == s.points);
    }
}

#[verifier::spinoff_prover]
#[verifier::rlimit(50)]
proof fn lemma_passes(s: SweepState, passes: Seq<PassReplies>)
    requires
        about_to_pass(s),
        !s.warm,
        s.points.len() == 0,
        0 < passes.len() <= s.sizes.len() + 1,
        forall|i: int| 0 <= i < passes.len() ==> (#[trigger] passes[i]).fair(),
    ensures
        ({
            let t = run(s, passes_all(passes, s.uncached));
            &&& t.warm
            &&& t.error is None
            &&& t.sizes == s.sizes && t.counter_hz == s.counter_hz && t.uncached == s.uncached
                && t.path == s.path && t.size_bytes == s.size_bytes
            &&& t.points.len() == passes.len() - 1
            &&& forall|i: int|
                0 <= i < t.points.len() ==> passes[i + 1].amounts_to(
                    s.sizes[i],
                    s.counter_hz,
                    #[trigger] t.points[i],
                )
            &&& t.points.len() == t.sizes.len() ==> t.action == SweepAction::Finish
            &&& t.points.len() < t.sizes.len() ==> about_to_pass(t)
        }),
    decreases passes.len(),
{
    let before = passes.drop_last();
    let last = passes.last();
    assert(last == passes[passes.len() - 1]);
    lemma_run_in_parts(s, passes_all(before, s.uncached), last.all(s.uncached));
    if before.len() == 0 {
        assert(run(s, passes_all(before, s.uncached)) == s);
        law_a_pass_becomes_a_point(s, last);
    } else {
        assert forall|i: int| 0 <= i < before.len() implies (#[trigger] before[i]).fair() by {
            assert(before[i] == passes[i]);
        }
        lemma_passes(s, before);
        let t = run(s, passes_all(before, s.uncached));
        law_a_pass_becomes_a_point(t, last);
        let u = run(s, passes_all(passes, s.uncached));
        let n = t.points.len() as int;
        assert forall|i: int| 0 <= i < u.points.len() implies passes[i + 1].amounts_to(
            s.sizes[i],
            s.counter_hz,
            #[trigger] u.points[i],
        ) by {
            if i < n {
                assert(u.points[i] == u.points.take(n)[i]);
                assert(before[i + 1] == passes[i + 1]);
            }
        }
    }
}

/// Whether a result is what the replies to a sweep amount to.
pub open spec fn sweeps(
    m: SweepResult,
    path: Seq<char>,
    sizes: Seq<usize>,
    uncached: bool,
    size: u64,
    hz: u64,
    passes: Seq<PassReplies>,
) -> bool {
    &&& m.path@ == path
    &&& m.uncached == uncached
    &&& m.size_bytes == size
    &&& m.counter_hz == hz
    &&& m.points@.len() == sizes.len()
    &&& forall|i: int|
        0 <= i < sizes.len() ==> passes[i + 1].amounts_to(sizes[i], hz, #[trigger] m.points@[i])
}

/// A sweep of a file that can be read warms up and then makes a point for each block
/// size, in their order, from the reads of that pass alone.
pub proof fn law_a_sweep_tells_what_was_read(
    path: Seq<char>,
    sizes: Seq<usize>,
    uncached: bool,
    opened: u64,
    size: u64,
    hz: u64,
    passes: Seq<PassReplies>,
    m: SweepResult,
)
    requires
        passes.len() == sizes.len() + 1,
        forall|i: int| 0 <= i < passes.len() ==> (#[trigger] passes[i]).fair(),
    ensures
        ({
            let s = run(
                SweepState::initial(path, sizes, uncached),
                opening(opened, size, hz) + passes_all(passes, uncached),
            );
            &&& s.action == SweepAction::Finish
            &&& s.error is None
            &&& s.measured(m) ==> sweeps(m, path, sizes, uncached, size, hz, passes)
        }),
{
    let s = SweepState::initial(path, sizes, uncached);
    let none = Seq::<SweepEvent>::empty();
    let a = none.push(SweepEvent::Done(opened));
    let b = a.push(SweepEvent::Done(size));
    let c = b.push(SweepEvent::Done(hz));
    lemma_next_reply(s, none, SweepEvent::Done(opened));
    lemma_next_reply(s, a, SweepEvent::Done(size));
    lemma_next_reply(s, b, SweepEvent::Done(hz));
    assert(opening(opened, size, hz) == c);
    lemma_run_in_parts(s, c, passes_all(passes, uncached));
    lemma_passes(run(s, c), passes);
}

/// A call that fails ends a sweep with its error. Bypassing the cache is best effort,
/// and an interrupted read is tried again.
pub proof fn law_a_failing_call_ends_the_sweep(s: SweepState, errno: i32)
    requires
        s.action == SweepAction::Open || s.action == SweepAction::SeekEnd || s.action
            == SweepAction::Rewind || (s.action == SweepAction::Read && errno != 4),
    ensures
        s.after(SweepEvent::Failed(errno)).action == SweepAction::Finish,
        s.after(SweepEvent::Failed(errno)).error == Some(MeasureError::Os(errno)),
{
}

/// If every read of a pass took between `low` and `high` ticks, the average latency
/// lies between the times of these, as long as they fit in 64 bits.
pub proof fn law_the_average_lies_between_the_reads(
    r: PassReplies,
    size: usize,
    hz: u64,
    p: SweepPoint,
    low: nat,
    high: nat,
    least: nat,
    most: nat,
)
    requires
        r.amounts_to(size, hz, p),
        hz > 0,
        chunks_in(r.reads) > 0,
        forall|i: int|
            0 <= i < r.reads.len() ==> (#[trigger] r.reads[i] matches SweepEvent::Chunk {
                start_ticks,
                end_ticks,
                ..
            } ==> low <= elapsed(start_ticks, end_ticks) <= high),
        high * 1_000_000_000 < WRAP * hz,
        is_time(low, hz as nat, least),
        is_time(high, hz as nat, most),
    ensures
        least <= p.avg_chunk_nanos <= most,
{
    let sum = ticks_in(r.reads);
    let n = chunks_in(r.reads);
    lemma_sum_between(r.reads, low, high);
    let mean = choose|mean: nat|
        #[trigger] is_mean(sum, n, mean) && is_time(mean, hz as nat, p.avg_chunk_nanos as nat);
    assert(low <= mean <= high) by (nonlinear_arith)
        requires
            low * n <= sum <= high * n,
            mean * n <= sum < (mean + 1) * n,
            n > 0,
    ;
    law_more_ticks_last_longer(low, mean, hz as nat, hz as nat);
    law_more_ticks_last_longer(mean, high, hz as nat, hz as nat);
    law_ticks_become_whole_nanoseconds(low, hz as nat);
    law_ticks_become_whole_nanoseconds(mean, hz as nat);
    law_ticks_become_whole_nanoseconds(high, hz as nat);
    lemma_one_time(low, hz as nat, least, nanos_in(low, hz as nat));
    lemma_one_time(mean, hz as nat, p.avg_chunk_nanos as nat, nanos_in(mean, hz as nat));
    lemma_one_time(high, hz as nat, most, nanos_in(high, hz as nat));
}

proof fn lemma_sum_between(reads: Seq<SweepEvent>, low: nat, high: nat)
    requires
        forall|i: int|
            0 <= i < reads.len() ==> (#[trigger] reads[i] matches SweepEvent::Chunk {
                start_ticks,
                end_ticks,
                ..
            } ==> low <= elapsed(start_ticks, end_ticks) <= high),
    ensures
        low * chunks_in(reads) <= ticks_in(reads) <= high * chunks_in(reads),
    decreases reads.len(),
{
    if reads.len() == 0 {
        assert(low * 0 == 0 && high * 0 == 0);
    } else {
        let before = reads.drop_last();
        let n = chunks_in(before);
        assert forall|i: int| 0 <= i < before.len() implies (
        #[trigger] before[i] matches SweepEvent::Chunk { start_ticks, end_ticks, .. } ==> low
            <= elapsed(start_ticks, end_ticks) <= high) by {
            assert(before[i] == reads[i]);
        }
        lemma_sum_between(before, low, high);
        assert(reads.last() == reads[reads.len() - 1]);
        assert(low * (n + 1) == low * n + low) by (nonlinear_arith);
        assert(high * (n + 1) == high * n + high) by (nonlinear_arith);
    }
}

/// Whether a point is the best one, and every later one was slower.
pub open spec fn is_last_of_the_fastest(points: Seq<SweepPoint>, i: int) -> bool {
    &&& 0 <= i < points.len()
    &&& best_point(points) == Some(points[i])
    &&& forall|j: int|
        i < j < points.len() ==> (#[trigger] points[j]).rate().units() < points[i].rate().units()
}

/// The best block size of a sweep is one of those that were swept, and none of them
/// had a higher throughput; among equally fast ones it is the last. There is one
/// wherever something was swept.
pub proof fn law_the_best_block_size_is_the_fastest(points: Seq<SweepPoint>)
    ensures
        points.len() == 0 ==> best_point(points) is None,
        points.len() > 0 ==> best_point(points) is Some && points.contains(best_point(points)->0),
        forall|j: int|
            0 <= j < points.len() ==> (#[trigger] points[j]).rate().units() <= (best_point(
                points,
            )->0).rate().units(),
        points.len() > 0 ==> exists|i: int| #[trigger] is_last_of_the_fastest(points, i),
{
    if points.len() > 0 {
        lemma_some_best(points);
        let i = choose|i: int| is_best(points, i);
        assert(is_last_of_the_fastest(points, i));
        assert forall|j: int| 0 <= j < points.len() implies (#[trigger] points[j]).rate().units()
            <= points[i].rate().units() by {
            assert(!points[i].rate().below(points[j].rate()));
        }
    }
}

proof fn lemma_some_best(points: Seq<SweepPoint>)
    requires
        points.len() > 0,
    ensures
        exists|i: int| is_best(points, i),
    decreases points.len(),
{
    let before = points.drop_last();
    let n = before.len() as int;
    if n == 0 {
        assert(is_best(points, 0));
    } else {
        lemma_some_best(before);
        let i = choose|i: int| is_best(before, i);
        let last = points[n];
        assert(forall|j: int| 0 <= j < n ==> before[j] == #[trigger] points[j]);
        if last.rate().below(points[i].rate()) {
            assert forall|j: int| 0 <= j < points.len() implies !points[i].rate().below(
                (#[trigger] points[j]).rate(),
            ) by {
                if j < n {
                    assert(!before[i].rate().below(before[j].rate()));
                }
            }
            assert forall|j: int| i < j < points.len() implies (#[trigger] points[j]).rate().below(
                points[i].rate(),
            ) by {
                if j < n {
                    assert(before[j].rate().below(before[i].rate()));
                }
            }
            assert(is_best(points, i));
        } else {
            assert forall|j: int| 0 <= j < points.len() implies !points[n].rate().below(
                (#[trigger] points[j]).rate(),
            ) by {
                if j < n {
                    assert(!before[i].rate().below(before[j].rate()));
                }
            }
            assert(is_best(points, n));
        }
    }
}

/// The default block sizes go from 4 KiB to 16 MiB, each four times the one before.
pub proof fn law_the_default_sizes_go_by_four(i: int)
    requires
        0 <= i < DEFAULT_SWEEP_SIZES@.len(),
    ensures
        DEFAULT_SWEEP_SIZES@.len() == 7,
        DEFAULT_SWEEP_SIZES@[0] == 4 * 1024,
        DEFAULT_SWEEP_SIZES@[6] == 16 * 1024 * 1024,
        i > 0 ==> DEFAULT_SWEEP_SIZES@[i] == 4 * DEFAULT_SWEEP_SIZES@[i - 1],
{
    if i == 0 || i == 1 || i == 2 || i == 3 || i == 4 || i == 5 || i == 6 {
    }
}

} // verus!
