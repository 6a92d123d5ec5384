//! Latencies: the mean, the extremes and the percentiles of a measurement.

use vstd::prelude::*;

use super::profile::{all_between, chunks_in, chunks_that_took, elapsed, measures, took, Replies};
use super::time::{
    class_bound, in_class, is_time, law_latency_bounds_go_by_one_two_five,
    law_more_ticks_last_longer, law_ticks_become_whole_nanoseconds, lemma_one_time, WRAP,
};
use crate::interrupt::hardware_interrupt::{
    counted, lemma_rank_bucket_exists, nanos_in, percentile_rank, ranks_in, FileMeasurement,
    LATENCY_BOUNDS_NS,
};
use crate::interrupt::session::Event;

verus! {

/// Whether `mean` is the whole part of what each of `n` gets of `sum`.
pub open spec fn is_mean(sum: nat, n: nat, mean: nat) -> bool {
    mean * n <= sum < (mean + 1) * n
}

/// A quotient is the mean.
pub proof fn lemma_quotient_is_mean(sum: nat, n: nat)
    requires
        n > 0,
    ensures
        is_mean(sum, n, sum / n),
{
    let q = sum / n;
    assert(q * n <= sum < (q + 1) * n) by (nonlinear_arith)
        requires
            q == sum / n,
            n > 0,
    ;
}

/// The average latency of a measurement is the time of the mean number of ticks per
/// read; the least and the greatest latency are the times of the extremes.
pub proof fn law_latencies_are_times(m: FileMeasurement)
    ensures
        m.chunk_count == 0 ==> m.avg_nanos() == 0,
        m.chunk_count > 0 ==> exists|mean: nat|
            #[trigger] is_mean(m.read_ticks as nat, m.chunk_count as nat, mean) && is_time(
                mean,
                m.counter_hz as nat,
                m.avg_nanos(),
            ),
        is_time(m.min_chunk_ticks as nat, m.counter_hz as nat, m.min_nanos()),
        is_time(m.max_chunk_ticks as nat, m.counter_hz as nat, m.max_nanos()),
{
    let hz = m.counter_hz as nat;
    law_ticks_become_whole_nanoseconds(m.min_chunk_ticks as nat, hz);
    law_ticks_become_whole_nanoseconds(m.max_chunk_ticks as nat, hz);
    if m.chunk_count > 0 {
        let mean = m.read_ticks as nat / m.chunk_count as nat;
        lemma_quotient_is_mean(m.read_ticks as nat, m.chunk_count as nat);
        law_ticks_become_whole_nanoseconds(mean, hz);
    }
}

// ── percentiles of a histogram ──────────────────────────────────────────────

/// How many reads a histogram has in the classes up to `b`.
pub open spec fn up_to(buckets: Seq<u64>, b: int) -> nat
    decreases b + 1,
{
    if b < 0 {
        0
    } else {
        up_to(buckets, b - 1) + buckets[b] as nat
    }
}

/// Whether the class `b` is the first up to which there are `p` percent of the reads,
/// and at least one.
pub open spec fn reaches(buckets: Seq<u64>, p: nat, b: int) -> bool {
    let total = up_to(buckets, 13);
    &&& 0 <= b < 14
    &&& 100 * up_to(buckets, b) >= p * total && up_to(buckets, b) >= 1
    &&& 100 * up_to(buckets, b - 1) < p * total || up_to(buckets, b - 1) == 0
}

proof fn lemma_up_to_is_counted(buckets: Seq<u64>, b: int)
    requires
        -1 <= b < buckets.len(),
    ensures
        up_to(buckets, b) == counted(buckets, b + 1),
    decreases b + 1,
{
    if b >= 0 {
        lemma_up_to_is_counted(buckets, b - 1);
    }
}

/// A percentile of a measurement is the bound of the first latency class up to which
/// there are so many percent of the reads, or the slowest read where that was faster.
/// Where nothing was read it is zero.
pub proof fn law_a_percentile_is_reached(m: FileMeasurement, p: nat)
    requires
        p <= 100,
    ensures
        up_to(m.latency_buckets@, 13) == 0 ==> m.percentile(p) == 0,
        up_to(m.latency_buckets@, 13) > 0 ==> exists|b: int|
            #[trigger] reaches(m.latency_buckets@, p, b) && m.percentile(p) == if b < 13
                && class_bound(b) <= m.max_nanos() {
                class_bound(b)
            } else {
                m.max_nanos()
            },
{
    let buckets = m.latency_buckets@;
    lemma_up_to_is_counted(buckets, 13);
    let total = counted(buckets, 14);
    if total > 0 {
        let rank = percentile_rank(p, total);
        let q = (p * total + 99) / 100;
        assert(100 * q >= p * total && 100 * q < p * total + 100) by (nonlinear_arith)
            requires
                q == (p * total + 99) / 100,
        ;
        assert(q <= total) by (nonlinear_arith)
            requires
                100 * q < p * total + 100,
                p <= 100,
                total > 0,
        ;
        lemma_rank_bucket_exists(buckets, rank);
        let b = choose|i: int| ranks_in(buckets, rank, i);
        lemma_up_to_is_counted(buckets, b);
        lemma_up_to_is_counted(buckets, b - 1);
        if 0 <= b < 13 {
            law_latency_bounds_go_by_one_two_five(b);
        }
        assert(reaches(buckets, p, b));
    }
}

/// There is one class only at which so many percent of the reads are reached.
pub proof fn law_a_percentile_is_reached_once(buckets: Seq<u64>, p: nat, a: int, b: int)
    requires
        reaches(buckets, p, a),
        reaches(buckets, p, b),
    ensures
        a == b,
{
    if a < b {
        lemma_up_to_grows(buckets, a, b - 1);
    }
    if b < a {
        lemma_up_to_grows(buckets, b, a - 1);
    }
}

proof fn lemma_up_to_grows(buckets: Seq<u64>, a: int, b: int)
    requires
        -1 <= a <= b,
    ensures
        up_to(buckets, a) <= up_to(buckets, b),
    decreases b - a,
{
    if a < b {
        lemma_up_to_grows(buckets, a, b - 1);
    }
}

// ── percentiles of the reads ────────────────────────────────────────────────

/// Whether a reply is a chunk whose read took no more than `limit` nanoseconds.
pub open spec fn is_within(e: Event, hz: u64, limit: nat) -> bool {
    match e {
        Event::Chunk { start_ticks, end_ticks, .. } => exists|n: nat|
            #[trigger] is_time(elapsed(start_ticks, end_ticks), hz as nat, n) && n <= limit,
        _ => false,
    }
}

/// The number of chunks whose read took no more than `limit` nanoseconds.
pub open spec fn chunks_within(reads: Seq<Event>, hz: u64, limit: nat) -> nat
    decreases reads.len(),
{
    if reads.len() == 0 {
        0
    } else {
        chunks_within(reads.drop_last(), hz, limit) + if is_within(reads.last(), hz, limit) {
            1nat
        } else {
            0
        }
    }
}

/// The number of chunks of the latency classes up to `b`.
spec fn classed(reads: Seq<Event>, hz: u64, b: int) -> nat
    decreases b + 1,
{
    if b < 0 {
        0
    } else {
        classed(reads, hz, b - 1) + chunks_that_took(reads, hz, b)
    }
}

spec fn class_up_to(e: Event, hz: u64, b: int) -> bool {
    exists|c: int| 0 <= c <= b && #[trigger] took(e, hz, c)
}

proof fn lemma_classed_step(reads: Seq<Event>, hz: u64, b: int)
    requires
        reads.len() > 0,
        -1 <= b < 14,
    ensures
        classed(reads, hz, b) == classed(reads.drop_last(), hz, b) + if class_up_to(
            reads.last(),
            hz,
            b,
        ) {
            1nat
        } else {
            0
        },
    decreases b + 1,
{
    let e = reads.last();
    if b >= 0 {
        lemma_classed_step(reads, hz, b - 1);
        if took(e, hz, b) {
            if class_up_to(e, hz, b - 1) {
                let c = choose|c: int| 0 <= c <= b - 1 && #[trigger] took(e, hz, c);
                lemma_one_class(e, hz, b, c);
            }
        } else if class_up_to(e, hz, b) {
            let c = choose|c: int| 0 <= c <= b && #[trigger] took(e, hz, c);
            assert(0 <= c <= b - 1 && took(e, hz, c));
        }
        if class_up_to(e, hz, b - 1) {
            let c = choose|c: int| 0 <= c <= b - 1 && #[trigger] took(e, hz, c);
            assert(0 <= c <= b && took(e, hz, c));
        }
    }
}

proof fn lemma_one_class(e: Event, hz: u64, a: int, b: int)
    requires
        took(e, hz, a),
        took(e, hz, b),
    ensures
        a == b,
{
    let t = elapsed(e->start_ticks, e->end_ticks);
    let x = choose|n: nat| #[trigger] is_time(t, hz as nat, n) && in_class(n, a);
    let y = choose|n: nat| #[trigger] is_time(t, hz as nat, n) && in_class(n, b);
    lemma_one_time(t, hz as nat, x, y);
    if a < b {
        assert(class_bound(a) < x);
    }
    if b < a {
        assert(class_bound(b) < x);
    }
}

proof fn lemma_bounds_ascend(a: int, b: int)
    requires
        0 <= a <= b < 13,
    ensures
        class_bound(a) <= class_bound(b),
    decreases b - a,
{
    if a < b {
        lemma_bounds_ascend(a, b - 1);
        law_latency_bounds_go_by_one_two_five(b - 1);
        law_latency_bounds_go_by_one_two_five(b);
        assert(LATENCY_BOUNDS_NS@[b - 1] < LATENCY_BOUNDS_NS@[b]) by {
            if b == 1 || b == 2 || b == 3 || b == 4 || b == 5 || b == 6 {
            } else if b == 7 || b == 8 || b == 9 || b == 10 || b == 11 || b == 12 {
            }
        }
    }
}

/// The chunks of the classes up to `b` are those that took no more than its bound.
proof fn lemma_classed_within(reads: Seq<Event>, hz: u64, b: int)
    requires
        0 <= b < 13,
    ensures
        classed(reads, hz, b) == chunks_within(reads, hz, class_bound(b)),
    decreases reads.len(),
{
    if reads.len() == 0 {
        lemma_classed_none(reads, hz, b);
    } else {
        let e = reads.last();
        lemma_classed_within(reads.drop_last(), hz, b);
        lemma_classed_step(reads, hz, b);
        if class_up_to(e, hz, b) {
            let c = choose|c: int| 0 <= c <= b && #[trigger] took(e, hz, c);
            lemma_bounds_ascend(c, b);
            let t = elapsed(e->start_ticks, e->end_ticks);
            let n = choose|n: nat| #[trigger] is_time(t, hz as nat, n) && in_class(n, c);
            assert(is_time(t, hz as nat, n) && n <= class_bound(b));
        }
        if is_within(e, hz, class_bound(b)) {
            let t = elapsed(e->start_ticks, e->end_ticks);
            let n = choose|n: nat| #[trigger] is_time(t, hz as nat, n) && n <= class_bound(b);
            lemma_class_up_to(n, 0, b);
            let c = choose|c: int| 0 <= c <= b && #[trigger] in_class(n, c);
            assert(took(e, hz, c));
        }
    }
}

proof fn lemma_class_up_to(n: nat, a: int, b: int)
    requires
        0 <= a <= b < 13,
        n <= class_bound(b),
        forall|i: int| 0 <= i < a ==> #[trigger] class_bound(i) < n,
    ensures
        exists|c: int| a <= c <= b && #[trigger] in_class(n, c),
    decreases b - a,
{
    if n <= class_bound(a) {
        assert(in_class(n, a));
    } else {
        lemma_class_up_to(n, a + 1, b);
        let c = choose|c: int| a + 1 <= c <= b && #[trigger] in_class(n, c);
        assert(in_class(n, c));
    }
}

proof fn lemma_classed_none(reads: Seq<Event>, hz: u64, b: int)
    requires
        reads.len() == 0,
    ensures
        classed(reads, hz, b) == 0,
    decreases b + 1,
{
    if b >= 0 {
        lemma_classed_none(reads, hz, b - 1);
    }
}

proof fn lemma_classed_is_up_to(m: FileMeasurement, path: Seq<char>, r: Replies, b: int)
    requires
        measures(m, path, r),
        -1 <= b < 14,
    ensures
        classed(r.reads, r.hz, b) == up_to(m.latency_buckets@, b),
    decreases b + 1,
{
    if b >= 0 {
        lemma_classed_is_up_to(m, path, r, b - 1);
        assert(m.latency_buckets@[b] == chunks_that_took(r.reads, r.hz, b));
    }
}

/// Every chunk took no more than the slowest.
proof fn lemma_all_within_the_slowest(reads: Seq<Event>, hz: u64, limit: nat, ticks: nat)
    requires
        hz > 0,
        ticks * 1_000_000_000 < WRAP * hz,
        is_time(ticks, hz as nat, limit),
        all_between(reads, 0, ticks),
    ensures
        chunks_within(reads, hz, limit) == chunks_in(reads),
    decreases reads.len(),
{
    if reads.len() > 0 {
        let before = reads.drop_last();
        let e = reads.last();
        assert forall|i: int| 0 <= i < before.len() implies (
        #[trigger] before[i] matches Event::Chunk { start_ticks, end_ticks, .. } ==> 0 <= elapsed(
            start_ticks,
            end_ticks,
        ) <= ticks) by {
            assert(before[i] == reads[i]);
        }
        lemma_all_within_the_slowest(before, hz, limit, ticks);
        assert(e == reads[reads.len() - 1]);
        if e is Chunk {
            let t = elapsed(e->start_ticks, e->end_ticks);
            assert(t <= ticks);
            law_more_ticks_last_longer(t, ticks, hz as nat, hz as nat);
            law_ticks_become_whole_nanoseconds(t, hz as nat);
            law_ticks_become_whole_nanoseconds(ticks, hz as nat);
            lemma_one_time(ticks, hz as nat, limit, nanos_in(ticks, hz as nat));
            assert(is_time(t, hz as nat, nanos_in(t, hz as nat)));
            assert(is_within(e, hz, limit));
        }
    }
}

/// At least `p` percent of the reads took no longer than the percentile of a
/// measurement says, and fewer took no longer than any latency bound below it. This
/// is for times that fit in 64 bits.
#[verifier::spinoff_prover]
#[verifier::rlimit(50)]
pub proof fn law_a_percentile_covers_the_reads(
    m: FileMeasurement,
    path: Seq<char>,
    r: Replies,
    p: nat,
    c: int,
)
    requires
        measures(m, path, r),
        m.counter_hz > 0,
        m.max_chunk_ticks * 1_000_000_000 < WRAP * m.counter_hz,
        0 < p <= 100,
        0 <= c < 13,
    ensures
        100 * chunks_within(r.reads, r.hz, m.percentile(p)) >= p * chunks_in(r.reads),
        class_bound(c) < m.percentile(p) ==> 100 * chunks_within(r.reads, r.hz, class_bound(c)) < p
            * chunks_in(r.reads),
{
    let buckets = m.latency_buckets@;
    let total = chunks_in(r.reads);
    let slowest = m.max_nanos();
    law_a_percentile_is_reached(m, p);
    law_latencies_are_times(m);
    assert(all_between(r.reads, 0, m.max_chunk_ticks as nat));
    lemma_all_within_the_slowest(r.reads, r.hz, slowest, m.max_chunk_ticks as nat);
    lemma_classed_is_up_to(m, path, r, 13);
    lemma_classed_all(r.reads, r.hz);
    assert(p * total <= 100 * total) by (nonlinear_arith)
        requires
            p <= 100,
    ;
    if total > 0 {
        let b = choose|b: int|
            #[trigger] reaches(buckets, p, b) && m.percentile(p) == if b < 13 && class_bound(b)
                <= m.max_nanos() {
                class_bound(b)
            } else {
                m.max_nanos()
            };
        if b < 13 {
            lemma_classed_is_up_to(m, path, r, b);
            lemma_classed_within(r.reads, r.hz, b);
        }
        if class_bound(c) < m.percentile(p) {
            if b < 13 && b <= c {
                lemma_bounds_ascend(b, c);
            }
            assert(c < b);
            lemma_classed_is_up_to(m, path, r, c);
            lemma_classed_within(r.reads, r.hz, c);
            lemma_up_to_grows(buckets, c, b - 1);
            assert(p * total > 0) by (nonlinear_arith)
                requires
                    p > 0,
                    total > 0,
            ;
        }
    }
}

proof fn lemma_some_class(n: nat)
    ensures
        exists|c: int| 0 <= c <= 13 && #[trigger] in_class(n, c),
{
    if n <= class_bound(12) {
        lemma_class_up_to(n, 0, 12);
        let c = choose|c: int| 0 <= c <= 12 && #[trigger] in_class(n, c);
        assert(in_class(n, c));
    } else {
        assert forall|i: int| 0 <= i < 13 implies #[trigger] class_bound(i) < n by {
            lemma_bounds_ascend(i, 12);
        }
        assert(in_class(n, 13));
    }
}

proof fn lemma_classed_all(reads: Seq<Event>, hz: u64)
    ensures
        classed(reads, hz, 13) == chunks_in(reads),
    decreases reads.len(),
{
    if reads.len() == 0 {
        lemma_classed_none(reads, hz, 13);
    } else {
        lemma_classed_all(reads.drop_last(), hz);
        lemma_classed_step(reads, hz, 13);
        let e = reads.last();
        if e is Chunk {
            let t = elapsed(e->start_ticks, e->end_ticks);
            law_ticks_become_whole_nanoseconds(t, hz as nat);
            let n = nanos_in(t, hz as nat);
            lemma_some_class(n);
            let c = choose|c: int| 0 <= c <= 13 && #[trigger] in_class(n, c);
            assert(is_time(t, hz as nat, n) && in_class(n, c));
            assert(took(e, hz, c));
        }
    }
}

} // verus!
