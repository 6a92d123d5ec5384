//! The random-access benchmark: from the replies of the operating system to the
//! measurement.

use vstd::prelude::*;

use super::latency::{is_mean, lemma_quotient_is_mean};
use super::profile::elapsed;
use super::time::{
    is_time, law_ticks_become_whole_nanoseconds, law_what_passed_leads_from_reading_to_reading,
};
use crate::interrupt::hardware_interrupt::percentile_rank;
use crate::interrupt::random::{
    count_below, count_up_to, has_rank, law_random_blocks_lie_within_the_file,
    lemma_all_up_to_max, lemma_rank_exists, next_random, offset_for, seeded, RandomAction,
    RandomEvent, RandomMeasurement, RandomState,
};
use crate::interrupt::session::MeasureError;

verus! {

// ── a conversation ──────────────────────────────────────────────────────────

/// The replies to a benchmark of a file that can be read.
pub struct Replies {
    pub uncached: bool,
    pub opened: u64,
    /// The reply to the wish to bypass the cache, if that is asked for.
    pub bypass: RandomEvent,
    pub size: u64,
    pub hz: u64,
    pub start: u64,
    pub reads: Seq<RandomEvent>,
    pub end: u64,
}

/// Whether a reply to a read leaves the benchmark going: a block, or an interrupted
/// call.
pub open spec fn goes_on(e: RandomEvent) -> bool {
    e is Block || e == RandomEvent::Failed(4)
}

/// The bytes of the blocks among some replies.
pub open spec fn bytes_in(reads: Seq<RandomEvent>) -> nat
    decreases reads.len(),
{
    if reads.len() == 0 {
        0
    } else {
        bytes_in(reads.drop_last()) + match reads.last() {
            RandomEvent::Block { bytes, .. } => bytes as nat,
            _ => 0,
        }
    }
}

/// The counter ticks that the reads took.
pub open spec fn ticks_in(reads: Seq<RandomEvent>) -> nat
    decreases reads.len(),
{
    if reads.len() == 0 {
        0
    } else {
        ticks_in(reads.drop_last()) + match reads.last() {
            RandomEvent::Block { start_ticks, end_ticks, .. } => elapsed(start_ticks, end_ticks),
            _ => 0,
        }
    }
}

/// The number of blocks.
pub open spec fn blocks_in(reads: Seq<RandomEvent>) -> nat
    decreases reads.len(),
{
    if reads.len() == 0 {
        0
    } else {
        blocks_in(reads.drop_last()) + if reads.last() is Block {
            1nat
        } else {
            0
        }
    }
}

/// The number of blocks whose read took fewer ticks than `t`.
pub open spec fn faster_than(reads: Seq<RandomEvent>, t: nat) -> nat
    decreases reads.len(),
{
    if reads.len() == 0 {
        0
    } else {
        faster_than(reads.drop_last(), t) + match reads.last() {
            RandomEvent::Block { start_ticks, end_ticks, .. } if elapsed(start_ticks, end_ticks)
                < t => 1nat,
            _ => 0,
        }
    }
}

/// The number of blocks whose read took no more ticks than `t`.
pub open spec fn no_slower_than(reads: Seq<RandomEvent>, t: nat) -> nat
    decreases reads.len(),
{
    if reads.len() == 0 {
        0
    } else {
        no_slower_than(reads.drop_last(), t) + match reads.last() {
            RandomEvent::Block { start_ticks, end_ticks, .. } if elapsed(start_ticks, end_ticks)
                <= t => 1nat,
            _ => 0,
        }
    }
}

/// Whether `t` is the 99th percentile of the ticks that the reads took: 99 percent of
/// them took no more, and fewer took less.
pub open spec fn is_p99(reads: Seq<RandomEvent>, t: nat) -> bool {
    let n = blocks_in(reads);
    &&& 100 * no_slower_than(reads, t) >= 99 * n
    &&& 100 * faster_than(reads, t) < 99 * n
}

impl Replies {
    /// The replies before the first read.
    pub open spec fn opening(self) -> Seq<RandomEvent> {
        (if self.uncached {
            seq![RandomEvent::Done(self.opened), self.bypass]
        } else {
            seq![RandomEvent::Done(self.opened)]
        }) + seq![
            RandomEvent::Done(self.size),
            RandomEvent::Done(self.hz),
            RandomEvent::Done(self.start),
        ]
    }

    /// All replies.
    pub open spec fn all(self) -> Seq<RandomEvent> {
        (self.opening() + self.reads).push(RandomEvent::Done(self.end))
    }

    /// Whether the replies are those of a file that can be read, with totals that fit
    /// in 64 bits.
    pub open spec fn fair(self) -> bool {
        &&& self.bypass is Done || self.bypass is Failed
        &&& forall|i: int| 0 <= i < self.reads.len() ==> goes_on(#[trigger] self.reads[i])
        &&& bytes_in(self.reads) <= u64::MAX
        &&& ticks_in(self.reads) <= u64::MAX
    }
}

/// Whether a measurement is what the replies amount to: with the bytes and the number
/// of all reads, the time from the start to the end, the average latency of the reads,
/// and the latency that 99 percent of them did not exceed.
pub open spec fn measures(
    m: RandomMeasurement,
    path: Seq<char>,
    block_size: usize,
    r: Replies,
) -> bool {
    let n = blocks_in(r.reads);
    &&& m.path@ == path
    &&& m.block_size == block_size
    &&& m.uncached == r.uncached
    &&& m.counter_hz == r.hz
    &&& m.ops == n
    &&& m.bytes == bytes_in(r.reads)
    &&& m.wall_nanos == elapsed(r.start, r.end)
    &&& n == 0 ==> m.avg_nanos == 0 && m.p99_nanos == 0
    &&& n > 0 ==> exists|mean: nat|
        #[trigger] is_mean(ticks_in(r.reads), n, mean) && is_time(
            mean,
            r.hz as nat,
            m.avg_nanos as nat,
        )
    &&& n > 0 ==> exists|t: nat|
        #[trigger] is_p99(r.reads, t) && is_time(t, r.hz as nat, m.p99_nanos as nat)
}

/// The state after a series of replies.
pub open spec fn run(s: RandomState, events: Seq<RandomEvent>) -> RandomState
    decreases events.len(),
{
    if events.len() == 0 {
        s
    } else {
        run(s, events.drop_last()).after(events.last())
    }
}

// ── the proof ───────────────────────────────────────────────────────────────

proof fn lemma_run_in_parts(s: RandomState, a: Seq<RandomEvent>, b: Seq<RandomEvent>)
    ensures
        run(s, a + b) == run(run(s, a), b),
    decreases b.len(),
{
    if b.len() == 0 {
        assert(a + b == a);
    } else {
        lemma_run_in_parts(s, a, b.drop_last());
        assert((a + b).drop_last() == a + b.drop_last());
        assert((a + b).last() == b.last());
    }
}

proof fn lemma_next_reply(s: RandomState, a: Seq<RandomEvent>, e: RandomEvent)
    ensures
        run(s, a.push(e)) == run(s, a).after(e),
{
    assert(a.push(e).drop_last() == a);
}

/// Whether some numbers are the ticks of the blocks, as far as counts and sums tell.
spec fn tells(latencies: Seq<u64>, reads: Seq<RandomEvent>) -> bool {
    &&& latencies.len() == blocks_in(reads)
    &&& forall|t: u64|
        #![trigger count_below(latencies, t)]
        count_below(latencies, t) == faster_than(reads, t as nat)
    &&& forall|t: u64|
        #![trigger count_up_to(latencies, t)]
        count_up_to(latencies, t) == no_slower_than(reads, t as nat)
}

proof fn lemma_tells_more(latencies: Seq<u64>, reads: Seq<RandomEvent>, e: RandomEvent)
    requires
        tells(latencies, reads),
        e is Block,
    ensures
        tells(latencies.push(elapsed(e->start_ticks, e->end_ticks) as u64), reads.push(e)),
{
    law_what_passed_leads_from_reading_to_reading(e->start_ticks, e->end_ticks);
    let x = elapsed(e->start_ticks, e->end_ticks);
    let more = latencies.push(x as u64);
    let all = reads.push(e);
    assert(more.drop_last() == latencies);
    assert(all.drop_last() == reads);
    assert forall|t: u64|
        #![trigger count_below(more, t)]
        count_below(more, t) == faster_than(all, t as nat) by {
        assert(count_below(latencies, t) == faster_than(reads, t as nat));
    }
    assert forall|t: u64|
        #![trigger count_up_to(more, t)]
        count_up_to(more, t) == no_slower_than(all, t as nat) by {
        assert(count_up_to(latencies, t) == no_slower_than(reads, t as nat));
    }
}

/// Whether a state has booked some reads and nothing else since the state `s`.
spec fn booked(s: RandomState, t: RandomState, reads: Seq<RandomEvent>) -> bool {
    &&& t.uncached == s.uncached && t.block_size == s.block_size && t.ops == s.ops && t.error
        == s.error && t.size_bytes == s.size_bytes && t.counter_hz == s.counter_hz
        && t.start_nanos == s.start_nanos
    &&& t.bytes == bytes_in(reads)
    &&& t.ticks == ticks_in(reads)
    &&& tells(t.latencies, reads)
    &&& blocks_in(reads) < s.ops ==> t.action is ReadAt
    &&& blocks_in(reads) == s.ops ==> t.action == RandomAction::EndClock
}

#[verifier::spinoff_prover]
#[verifier::rlimit(50)]
proof fn lemma_reads(s: RandomState, reads: Seq<RandomEvent>)
    requires
        booked(s, s, Seq::empty()),
        forall|i: int| 0 <= i < reads.len() ==> goes_on(#[trigger] reads[i]),
        bytes_in(reads) <= u64::MAX,
        ticks_in(reads) <= u64::MAX,
        blocks_in(reads) <= s.ops,
    ensures
        booked(s, run(s, reads), reads),
    decreases reads.len(),
{
    if reads.len() == 0 {
        assert(reads == Seq::<RandomEvent>::empty());
    } else {
        let before = reads.drop_last();
        let e = reads.last();
        assert(before.push(e) == reads);
        assert(goes_on(reads[reads.len() - 1]));
        assert forall|i: int| 0 <= i < before.len() implies goes_on(#[trigger] before[i]) by {
            assert(before[i] == reads[i]);
        }
        lemma_reads(s, before);
        let t = run(s, before);
        let u = run(s, reads);
        assert(u == t.after(e));
        if let RandomEvent::Block { start_ticks, end_ticks, .. } = e {
            law_what_passed_leads_from_reading_to_reading(start_ticks, end_ticks);
            lemma_tells_more(t.latencies, before, e);
        } else {
            assert(e == RandomEvent::Failed(4));
            assert(u == t);
            assert forall|t: u64|
                #![trigger count_below(u.latencies, t)]
                count_below(u.latencies, t) == faster_than(reads, t as nat) by {
            }
        }
    }
}

proof fn lemma_opening(block_size: usize, ops: u64, seed: u64, r: Replies)
    requires
        r.bypass is Done || r.bypass is Failed,
    ensures
        ({
            let s = run(RandomState::initial(block_size, ops, seed, r.uncached), r.opening());
            &&& booked(s, s, Seq::empty())
            &&& s.block_size == block_size && s.ops == ops && s.uncached == r.uncached && s.error
                is None && s.size_bytes == r.size && s.counter_hz == r.hz && s.start_nanos
                == r.start
        }),
{
    let s = RandomState::initial(block_size, ops, seed, r.uncached);
    let none = Seq::<RandomEvent>::empty();
    let a = none.push(RandomEvent::Done(r.opened));
    let b = if r.uncached {
        a.push(r.bypass)
    } else {
        a
    };
    lemma_next_reply(s, none, RandomEvent::Done(r.opened));
    lemma_next_reply(s, a, r.bypass);
    let c = b.push(RandomEvent::Done(r.size));
    let d = c.push(RandomEvent::Done(r.hz));
    let e = d.push(RandomEvent::Done(r.start));
    lemma_next_reply(s, b, RandomEvent::Done(r.size));
    lemma_next_reply(s, c, RandomEvent::Done(r.hz));
    lemma_next_reply(s, d, RandomEvent::Done(r.start));
    assert(r.opening() == e);
    let t = run(s, e);
    assert(t.latencies == Seq::<u64>::empty());
    assert forall|x: u64|
        #![trigger count_below(t.latencies, x)]
        count_below(t.latencies, x) == faster_than(none, x as nat) by {
    }
    assert forall|x: u64|
        #![trigger count_up_to(t.latencies, x)]
        count_up_to(t.latencies, x) == no_slower_than(none, x as nat) by {
    }
}

// ── the laws ────────────────────────────────────────────────────────────────

/// A benchmark of a file that can be read measures its reads: how many there were, how
/// long they took together, on the average, and at the 99th percentile.
#[verifier::spinoff_prover]
#[verifier::rlimit(50)]
pub proof fn law_a_random_run_tells_what_was_read(
    path: Seq<char>,
    block_size: usize,
    ops: u64,
    seed: u64,
    r: Replies,
    m: RandomMeasurement,
)
    requires
        r.fair(),
        blocks_in(r.reads) == ops,
    ensures
        ({
            let s = run(RandomState::initial(block_size, ops, seed, r.uncached), r.all());
            &&& s.action == RandomAction::Finish
            &&& s.error is None
            &&& s.measured(path, m) ==> measures(m, path, block_size, r)
        }),
{
    let s = RandomState::initial(block_size, ops, seed, r.uncached);
    let read = r.opening() + r.reads;
    lemma_next_reply(s, read, RandomEvent::Done(r.end));
    lemma_run_in_parts(s, r.opening(), r.reads);
    lemma_opening(block_size, ops, seed, r);
    lemma_reads(run(s, r.opening()), r.reads);
    law_what_passed_leads_from_reading_to_reading(r.start, r.end);
    let u = run(s, r.all());
    let n = blocks_in(r.reads);
    if n > 0 && u.measured(path, m) {
        let sum = ticks_in(r.reads);
        lemma_quotient_is_mean(sum, n);
        law_ticks_become_whole_nanoseconds(sum / n, r.hz as nat);
        assert(is_mean(sum, n, sum / n));
        let l = u.latencies;
        let rank = percentile_rank(99, n);
        lemma_all_up_to_max(l);
        assert(0 < rank <= n);
        lemma_rank_exists(l, rank, u64::MAX);
        let i = choose|i: int| 0 <= i < l.len() && has_rank(l, rank, #[trigger] l[i]);
        assert(has_rank(l, rank, l[i]));
        let t = choose|t: u64| has_rank(l, rank, t);
        law_ticks_become_whole_nanoseconds(t as nat, r.hz as nat);
        assert(count_below(l, t) == faster_than(r.reads, t as nat));
        assert(count_up_to(l, t) == no_slower_than(r.reads, t as nat));
        assert(is_p99(r.reads, t as nat));
    }
}

/// A call that fails ends the benchmark with its error. Bypassing the cache is best
/// effort, and an interrupted read is tried again.
pub proof fn law_a_failing_call_ends_the_benchmark(s: RandomState, errno: i32)
    requires
        s.action == RandomAction::Open || s.action == RandomAction::SeekEnd || (s.action is ReadAt
            && errno != 4),
    ensures
        s.after(RandomEvent::Failed(errno)).action == RandomAction::Finish,
        s.after(RandomEvent::Failed(errno)).error == Some(MeasureError::Os(errno)),
{
}

/// An interrupted read is tried again at the same place.
pub proof fn law_an_interrupted_read_is_tried_again(s: RandomState)
    requires
        s.action is ReadAt,
    ensures
        s.after(RandomEvent::Failed(4)) == s,
{
}

/// Every read is made at the start of a block that lies within the file; in a file
/// that is shorter than a block, at its start.
pub proof fn law_reads_are_made_at_whole_blocks(s: RandomState, e: RandomEvent)
    requires
        !(s.action is ReadAt) || e is Block,
        s.after(e).action is ReadAt,
    ensures
        ({
            let at = s.after(e).action->ReadAt_0;
            let size = s.size_bytes;
            let block = s.block_size;
            if 0 < block <= size {
                at + block <= size && at as nat % block as nat == 0
            } else {
                at == 0
            }
        }),
{
    let r = s.after(e).random;
    if 0 < s.block_size <= s.size_bytes {
        law_random_blocks_lie_within_the_file(r, s.size_bytes, s.block_size);
    }
}

/// Every read draws a number of its own, the next of the generator, and is made at the
/// block that this number picks.
pub proof fn law_every_read_draws_a_number_of_its_own(s: RandomState, e: RandomEvent)
    requires
        !(s.action is ReadAt) || e is Block,
        s.after(e).action is ReadAt,
        0 < s.block_size <= s.size_bytes,
    ensures
        ({
            let t = s.after(e);
            let blocks = s.size_bytes as nat / s.block_size as nat;
            &&& t.random == next_random(s.random)
            &&& t.action->ReadAt_0 as nat / s.block_size as nat == t.random as nat % blocks
        }),
{
    let t = s.after(e);
    let block = s.block_size as nat;
    let blocks = s.size_bytes as nat / block;
    law_random_blocks_lie_within_the_file(t.random, s.size_bytes, s.block_size);
    assert(blocks > 0 && blocks * block <= s.size_bytes) by (nonlinear_arith)
        requires
            blocks == s.size_bytes as nat / block,
            0 < block <= s.size_bytes,
    ;
    let k = t.random as nat % blocks;
    assert(k * block <= s.size_bytes && (k * block) / block == k) by (nonlinear_arith)
        requires
            k < blocks,
            blocks * block <= s.size_bytes,
            block > 0,
    ;
}

/// Every whole block of a file can be drawn.
pub proof fn law_every_block_can_be_drawn(size: u64, block: usize, k: u64)
    requires
        0 < block,
        (k + 1) * block <= size,
    ensures
        exists|random: u64| #[trigger] offset_for(random, size, block) == k * block,
{
    let n = size as nat / block as nat;
    assert(k < n && k * block <= size) by (nonlinear_arith)
        requires
            n == size as nat / block as nat,
            (k + 1) * block <= size,
            block > 0,
    ;
    assert(k as nat % n == k) by (nonlinear_arith)
        requires
            k < n,
    ;
    assert(block <= size) by (nonlinear_arith)
        requires
            (k + 1) * block <= size,
            block > 0,
    ;
    assert(offset_for(k, size, block) == k * block);
}

/// A seed other than zero is taken as it is, and no seed leaves the generator stuck.
pub proof fn law_a_seed_is_taken_as_it_is(seed: u64)
    ensures
        seed != 0 ==> seeded(seed) == seed,
        seeded(seed) != 0,
{
}

/// The generator never falls together: different numbers are followed by different
/// numbers.
pub proof fn law_the_generator_keeps_numbers_apart(x: u64, y: u64)
    requires
        next_random(x) == next_random(y),
    ensures
        x == y,
{
    let a = x ^ (x << 13);
    let b = a ^ (a >> 7);
    let c = y ^ (y << 13);
    let d = c ^ (c >> 7);
    assert((b ^ (b << 17)) == (d ^ (d << 17)) ==> b == d) by (bit_vector);
    assert((a ^ (a >> 7)) == (c ^ (c >> 7)) ==> a == c) by (bit_vector);
    assert((x ^ (x << 13)) == (y ^ (y << 13)) ==> x == y) by (bit_vector);
}

/// The generator moves on: no number but zero follows itself.
pub proof fn law_the_generator_moves_on(x: u64)
    requires
        x != 0,
    ensures
        next_random(x) != x,
{
    let a = x ^ (x << 13);
    let b = a ^ (a >> 7);
    assert(a == x ^ (x << 13) && b == a ^ (a >> 7) && x != 0 ==> b ^ (b << 17) != x)
        by (bit_vector);
}

} // verus!
