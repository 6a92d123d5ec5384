//! The random-access benchmark: reads at random offsets, timed one by one.

use vstd::prelude::*;

use super::hardware_interrupt::{
    nanos_in, passed, passed_between, percentile_rank, ticks_to_nanos,
};
use super::session::{contains_nul, has_nul, MeasureError, EINTR};
use crate::binary64::Binary64;
use crate::rate::{per_second, per_second_of};

verus! {

/// How many reads the benchmark makes.
pub const RANDOM_OPS: u64 = 4_096;

/// How many bytes it reads at a time.
pub const RANDOM_BLOCK: usize = 4_096;

/// A finished random-access benchmark.
#[derive(Debug, Clone)]
pub struct RandomMeasurement {
    pub path: String,
    pub block_size: usize,
    pub ops: u64,
    pub bytes: u64,
    pub wall_nanos: u64,
    pub avg_nanos: u64,
    pub p99_nanos: u64,
    /// Whether the page cache was bypassed.
    pub uncached: bool,
    pub counter_hz: u64,
}

impl RandomMeasurement {
    /// The reads per second.
    pub open spec fn rate(&self) -> Binary64 {
        per_second(self.ops as nat, self.wall_nanos as nat)
    }

    /// The reads per second.
    pub fn iops(&self) -> (r: Binary64)
        ensures
            r == self.rate(),
            r.moderate(),
            r.exponent <= 43,
    {
        per_second_of(self.ops, self.wall_nanos)
    }
}

/// The number that follows in the generator's sequence.
pub open spec fn next_random(x: u64) -> u64 {
    let a = x ^ (x << 13);
    let b = a ^ (a >> 7);
    b ^ (b << 17)
}

/// The generator never yields zero from another number. From zero it yields
/// nothing else.
pub proof fn law_the_generator_never_yields_zero(x: u64)
    ensures
        next_random(x) == 0 <==> x == 0,
{
    let a = x ^ (x << 13);
    let b = a ^ (a >> 7);
    assert((x ^ (x << 13)) == 0 <==> x == 0) by (bit_vector);
    assert((a ^ (a >> 7)) == 0 <==> a == 0) by (bit_vector);
    assert((b ^ (b << 17)) == 0 <==> b == 0) by (bit_vector);
}

/// The number that a generator starts from: the seed, or one in place of zero.
pub open spec fn seeded(seed: u64) -> u64 {
    if seed == 0 {
        1
    } else {
        seed
    }
}

/// The number that follows in the generator's sequence.
pub fn next_random_of(x: u64) -> (r: u64)
    ensures
        r == next_random(x),
{
    let a = x ^ (x << 13);
    let b = a ^ (a >> 7);
    b ^ (b << 17)
}

/// The offset of a random block in a file of `size` bytes; the start of a file
/// that is shorter than a block.
pub open spec fn offset_for(random: u64, size: u64, block: usize) -> u64 {
    if block == 0 || size < block {
        0
    } else {
        ((random as nat % (size as nat / block as nat)) * block as nat) as u64
    }
}

proof fn lemma_offset_inside(random: nat, size: nat, block: nat)
    requires
        0 < block <= size,
    ensures
        size / block > 0,
        (random % (size / block)) * block + block <= size,
{
    let n = size / block;
    assert(n > 0 && n * block <= size) by (nonlinear_arith)
        requires
            n == size / block,
            0 < block <= size,
    ;
    let k = random % n;
    assert(k * block + block <= n * block) by (nonlinear_arith)
        requires
            k < n,
            block > 0,
    ;
}

/// The offset of a random block in a file of `size` bytes.
pub fn offset_of(random: u64, size: u64, block: usize) -> (o: u64)
    ensures
        o == offset_for(random, size, block),
{
    if block == 0 || size < block as u64 {
        0
    } else {
        proof {
            lemma_offset_inside(random as nat, size as nat, block as nat);
        }
        let n: u64 = size / (block as u64);
        let k: u64 = random % n;
        k * (block as u64)
    }
}

/// A random block lies within the file.
pub proof fn law_random_blocks_lie_within_the_file(random: u64, size: u64, block: usize)
    requires
        0 < block <= size,
    ensures
        offset_for(random, size, block) + block <= size,
        offset_for(random, size, block) as nat % block as nat == 0,
{
    lemma_offset_inside(random as nat, size as nat, block as nat);
    let k = random as nat % (size as nat / block as nat);
    vstd::arithmetic::div_mod::lemma_mod_multiples_basic(k as int, block as int);
}

/// The call that is due next.
#[derive(Debug, Clone, Copy, PartialEq, Eq, Structural)]
pub enum RandomAction {
    /// Open the file for reading.
    Open,
    /// Ask for reads that bypass the page cache.
    BypassCache,
    /// Seek to the end: the position is the size.
    SeekEnd,
    /// Find the frequency of the hardware counter.
    Calibrate,
    /// Read the clock before the first read.
    StartClock,
    /// Read a block at this offset, between two readings of the hardware counter.
    ReadAt(u64),
    /// Read the clock after the last read.
    EndClock,
    /// Nothing: the benchmark is over.
    Finish,
}

/// What a call returned.
#[derive(Debug, Clone, Copy, PartialEq, Eq, Structural)]
pub enum RandomEvent {
    /// The call succeeded with this value.
    Done(u64),
    /// The call failed with this error number.
    Failed(i32),
    /// A read returned this many bytes between two counter readings.
    Block { bytes: u64, start_ticks: u64, end_ticks: u64 },
}

/// A random-access benchmark under way.
pub struct RandomRun {
    uncached: bool,
    block_size: usize,
    ops: u64,
    action: RandomAction,
    error: Option<MeasureError>,
    size_bytes: u64,
    counter_hz: u64,
    random: u64,
    start_nanos: u64,
    end_nanos: u64,
    bytes: u64,
    ticks: u64,
    latencies: Vec<u64>,
}

/// The state of a random-access benchmark.
pub struct RandomState {
    pub uncached: bool,
    pub block_size: usize,
    /// How many reads are to be made.
    pub ops: u64,
    pub action: RandomAction,
    pub error: Option<MeasureError>,
    pub size_bytes: u64,
    pub counter_hz: u64,
    pub random: u64,
    pub start_nanos: u64,
    pub end_nanos: u64,
    pub bytes: u64,
    pub ticks: u64,
    /// The ticks of each read that was made.
    pub latencies: Seq<u64>,
}

impl RandomState {
    /// The state before the first call.
    pub open spec fn initial(block_size: usize, ops: u64, seed: u64, uncached: bool) -> RandomState {
        RandomState {
            uncached,
            block_size,
            ops,
            action: RandomAction::Open,
            error: None,
            size_bytes: 0,
            counter_hz: 0,
            random: seeded(seed),
            start_nanos: 0,
            end_nanos: 0,
            bytes: 0,
            ticks: 0,
            latencies: Seq::empty(),
        }
    }

    /// The state with another call due.
    pub open spec fn then_do(self, action: RandomAction) -> RandomState {
        RandomState { action, ..self }
    }

    /// The state after a call that ends the benchmark by failing.
    pub open spec fn given_up(self, errno: i32) -> RandomState {
        RandomState { action: RandomAction::Finish, error: Some(MeasureError::Os(errno)), ..self }
    }

    /// The state before the next read, or after the last.
    pub open spec fn next_read(self) -> RandomState {
        if self.latencies.len() >= self.ops {
            self.then_do(RandomAction::EndClock)
        } else {
            let r = next_random(self.random);
            RandomState {
                random: r,
                action: RandomAction::ReadAt(offset_for(r, self.size_bytes, self.block_size)),
                ..self
            }
        }
    }

    /// The state after the reply to the call that was due. A reply that does not
    /// answer that call changes nothing.
    pub open spec fn after(self, event: RandomEvent) -> RandomState {
        match (self.action, event) {
            (RandomAction::Open, RandomEvent::Done(_)) => self.then_do(
                if self.uncached {
                    RandomAction::BypassCache
                } else {
                    RandomAction::SeekEnd
                },
            ),
            (RandomAction::Open, RandomEvent::Failed(n)) => self.given_up(n),
            // Bypassing the cache is best effort.
            (RandomAction::BypassCache, RandomEvent::Done(_)) => self.then_do(RandomAction::SeekEnd),
            (RandomAction::BypassCache, RandomEvent::Failed(_)) => self.then_do(
                RandomAction::SeekEnd,
            ),
            (RandomAction::SeekEnd, RandomEvent::Done(size)) => RandomState {
                size_bytes: size,
                action: RandomAction::Calibrate,
                ..self
            },
            (RandomAction::SeekEnd, RandomEvent::Failed(n)) => self.given_up(n),
            (RandomAction::Calibrate, RandomEvent::Done(hz)) => RandomState {
                counter_hz: hz,
                action: RandomAction::StartClock,
                ..self
            },
            (RandomAction::StartClock, RandomEvent::Done(now)) => RandomState {
                start_nanos: now,
                ..self
            }.next_read(),
            (RandomAction::ReadAt(_), RandomEvent::Block { bytes, start_ticks, end_ticks }) => {
                let t = passed(start_ticks, end_ticks);
                RandomState {
                    bytes: (self.bytes + bytes) as u64,
                    ticks: (self.ticks + t) as u64,
                    latencies: self.latencies.push(t),
                    ..self
                }.next_read()
            },
            (RandomAction::ReadAt(_), RandomEvent::Failed(n)) => if n == EINTR {
                self
            } else {
                self.given_up(n)
            },
            (RandomAction::EndClock, RandomEvent::Done(now)) => RandomState {
                end_nanos: now,
                action: RandomAction::Finish,
                ..self
            },
            _ => self,
        }
    }

    /// Whether the totals have room for a block that is due.
    pub open spec fn room_for(self, event: RandomEvent) -> bool {
        match event {
            RandomEvent::Block { bytes, start_ticks, end_ticks } => (self.action is ReadAt) ==> {
                &&& self.bytes + bytes <= u64::MAX
                &&& self.ticks + passed(start_ticks, end_ticks) <= u64::MAX
            },
            _ => true,
        }
    }

    /// What holds in every state: the generator is not stuck at zero, a read is due
    /// only while there are fewer than were asked for, and a benchmark that ends
    /// without an error has made them all.
    pub open spec fn wf(self) -> bool {
        &&& self.random != 0
        &&& self.latencies.len() <= self.ops
        &&& self.action is ReadAt ==> self.latencies.len() < self.ops
        &&& self.action == RandomAction::EndClock ==> self.latencies.len() == self.ops
        &&& self.action == RandomAction::Finish && self.error is None ==> self.latencies.len()
            == self.ops
    }

    /// The mean latency in nanoseconds.
    pub open spec fn avg(self) -> nat {
        if self.latencies.len() == 0 {
            0
        } else {
            nanos_in(self.ticks as nat / self.latencies.len(), self.counter_hz as nat)
        }
    }

    /// The latency that 99 percent of the reads did not exceed: the one of that rank
    /// among the reads, counted from the fastest.
    pub open spec fn p99(self) -> nat {
        let n = self.latencies.len();
        if n == 0 {
            0
        } else {
            let t = choose|t: u64| has_rank(self.latencies, percentile_rank(99, n), t);
            nanos_in(t as nat, self.counter_hz as nat)
        }
    }

    /// Whether a measurement of the file `path` is what a finished benchmark amounts
    /// to.
    pub open spec fn measured(self, path: Seq<char>, m: RandomMeasurement) -> bool {
        &&& m.path@ == path
        &&& m.block_size == self.block_size
        &&& m.ops == self.ops
        &&& m.bytes == self.bytes
        &&& m.wall_nanos == passed(self.start_nanos, self.end_nanos)
        &&& m.avg_nanos == self.avg()
        &&& m.p99_nanos == self.p99()
        &&& m.uncached == self.uncached
        &&& m.counter_hz == self.counter_hz
    }
}

/// How many of the numbers are below `t`.
pub open spec fn count_below(s: Seq<u64>, t: u64) -> nat
    decreases s.len(),
{
    if s.len() == 0 {
        0
    } else {
        count_below(s.drop_last(), t) + if s.last() < t {
            1nat
        } else {
            0
        }
    }
}

/// How many of the numbers are at most `t`.
pub open spec fn count_up_to(s: Seq<u64>, t: u64) -> nat
    decreases s.len(),
{
    if s.len() == 0 {
        0
    } else {
        count_up_to(s.drop_last(), t) + if s.last() <= t {
            1nat
        } else {
            0
        }
    }
}

/// The number at a given rank, counted from the smallest.
pub open spec fn has_rank(s: Seq<u64>, rank: nat, t: u64) -> bool {
    count_below(s, t) < rank <= count_up_to(s, t)
}

proof fn lemma_counts_ordered(s: Seq<u64>, t: u64, u: u64)
    requires
        t < u,
    ensures
        count_up_to(s, t) <= count_below(s, u),
    decreases s.len(),
{
    if s.len() > 0 {
        lemma_counts_ordered(s.drop_last(), t, u);
    }
}

proof fn lemma_rank_unique(s: Seq<u64>, rank: nat, t: u64, u: u64)
    requires
        has_rank(s, rank, t),
        has_rank(s, rank, u),
    ensures
        t == u,
{
    if t < u {
        lemma_counts_ordered(s, t, u);
    }
    if u < t {
        lemma_counts_ordered(s, u, t);
    }
}

/// Counts how many of the numbers are below `t` and how many are at most `t`.
fn counts_around(s: &Vec<u64>, t: u64) -> (r: (usize, usize))
    ensures
        r.0 == count_below(s@, t),
        r.1 == count_up_to(s@, t),
{
    let mut below: usize = 0;
    let mut up_to: usize = 0;
    for i in 0..s.len()
        invariant
            below == count_below(s@.take(i as int), t),
            up_to == count_up_to(s@.take(i as int), t),
            below <= i,
            up_to <= i,
    {
        assert(s@.take(i + 1).drop_last() == s@.take(i as int));
        if s[i] < t {
            below = below + 1;
        }
        if s[i] <= t {
            up_to = up_to + 1;
        }
    }
    assert(s@.take(s@.len() as int) == s@);
    (below, up_to)
}

proof fn lemma_adjacent_counts(s: Seq<u64>, t: u64)
    requires
        t > 0,
    ensures
        count_up_to(s, (t - 1) as u64) == count_below(s, t),
    decreases s.len(),
{
    if s.len() > 0 {
        lemma_adjacent_counts(s.drop_last(), t);
    }
}

proof fn lemma_none_below_zero(s: Seq<u64>)
    ensures
        count_below(s, 0) == 0,
    decreases s.len(),
{
    if s.len() > 0 {
        lemma_none_below_zero(s.drop_last());
    }
}

/// Every number is at most the largest there is.
pub proof fn lemma_all_up_to_max(s: Seq<u64>)
    ensures
        count_up_to(s, u64::MAX) == s.len(),
    decreases s.len(),
{
    if s.len() > 0 {
        lemma_all_up_to_max(s.drop_last());
    }
}

proof fn lemma_counted_is_present(s: Seq<u64>, t: u64)
    requires
        count_below(s, t) < count_up_to(s, t),
    ensures
        exists|i: int| 0 <= i < s.len() && s[i] == t,
    decreases s.len(),
{
    if s.len() > 0 {
        let r = s.drop_last();
        if s.last() == t {
            assert(s[s.len() - 1] == t);
        } else {
            lemma_counted_is_present(r, t);
            let i = choose|i: int| 0 <= i < r.len() && r[i] == t;
            assert(s[i] == t);
        }
    }
}

/// There is a number at every rank.
pub proof fn lemma_rank_exists(s: Seq<u64>, rank: nat, t: u64)
    requires
        0 < rank <= count_up_to(s, t),
    ensures
        exists|i: int| 0 <= i < s.len() && has_rank(s, rank, #[trigger] s[i]),
    decreases t,
{
    if count_below(s, t) < rank {
        lemma_counted_is_present(s, t);
        let i = choose|i: int| 0 <= i < s.len() && s[i] == t;
        assert(has_rank(s, rank, s[i]));
    } else {
        if t == 0 {
            lemma_none_below_zero(s);
        }
        lemma_adjacent_counts(s, t);
        lemma_rank_exists(s, rank, (t - 1) as u64);
    }
}

/// The number at a given rank, counted from the smallest.
fn at_rank(s: &Vec<u64>, rank: usize) -> (t: u64)
    requires
        0 < rank <= s@.len(),
    ensures
        has_rank(s@, rank as nat, t),
{
    proof {
        lemma_all_up_to_max(s@);
        lemma_rank_exists(s@, rank as nat, u64::MAX);
    }
    let mut i: usize = 0;
    while i < s.len()
        invariant
            i <= s.len(),
            exists|k: int| i <= k < s@.len() && has_rank(s@, rank as nat, #[trigger] s@[k]),
        decreases s.len() - i,
    {
        let t = s[i];
        let around = counts_around(s, t);
        if around.0 < rank && rank <= around.1 {
            return t;
        }
        i = i + 1;
    }
    proof {
        assert(false);
    }
    0
}

impl View for RandomRun {
    type V = RandomState;

    closed spec fn view(&self) -> RandomState {
        RandomState {
            uncached: self.uncached,
            block_size: self.block_size,
            ops: self.ops,
            action: self.action,
            error: self.error,
            size_bytes: self.size_bytes,
            counter_hz: self.counter_hz,
            random: self.random,
            start_nanos: self.start_nanos,
            end_nanos: self.end_nanos,
            bytes: self.bytes,
            ticks: self.ticks,
            latencies: self.latencies@,
        }
    }
}

/// Starts to read `ops` blocks of a file at offsets drawn from `seed`. The seed
/// zero, from which nothing could be drawn, counts as one.
pub fn random_bench(path: &str, block_size: usize, ops: u64, seed: u64, uncached: bool) -> (r: Result<
    RandomRun,
    MeasureError,
>)
    ensures
        has_nul(path@) ==> r == Err::<RandomRun, MeasureError>(MeasureError::NulInPath),
        !has_nul(path@) ==> r is Ok && r->Ok_0@ == RandomState::initial(
            block_size,
            ops,
            seed,
            uncached,
        ) && r->Ok_0@.wf(),
{
    if contains_nul(path) {
        return Err(MeasureError::NulInPath);
    }
    Ok(
        RandomRun {
            uncached,
            block_size,
            ops,
            action: RandomAction::Open,
            error: None,
            size_bytes: 0,
            counter_hz: 0,
            random: if seed == 0 {
                1
            } else {
                seed
            },
            start_nanos: 0,
            end_nanos: 0,
            bytes: 0,
            ticks: 0,
            latencies: Vec::new(),
        },
    )
}

impl RandomRun {
    /// The call that is due next.
    pub fn action(&self) -> (a: RandomAction)
        ensures
            a == self@.action,
    {
        self.action
    }

    /// Whether the totals have room for a block.
    pub fn has_room_for(&self, event: RandomEvent) -> (r: bool)
        ensures
            r == self@.room_for(event),
    {
        match event {
            RandomEvent::Block { bytes, start_ticks, end_ticks } => match self.action {
                RandomAction::ReadAt(_) => {
                    let t = passed_between(start_ticks, end_ticks);
                    bytes <= u64::MAX - self.bytes && t <= u64::MAX - self.ticks
                },
                _ => true,
            },
            _ => true,
        }
    }

    fn give_up(&mut self, errno: i32)
        ensures
            final(self)@ == old(self)@.given_up(errno),
    {
        self.action = RandomAction::Finish;
        self.error = Some(MeasureError::Os(errno));
    }

    fn next_read(&mut self)
        ensures
            final(self)@ == old(self)@.next_read(),
    {
        if self.latencies.len() as u64 >= self.ops {
            self.action = RandomAction::EndClock;
        } else {
            let r = next_random_of(self.random);
            self.random = r;
            self.action = RandomAction::ReadAt(offset_of(r, self.size_bytes, self.block_size));
        }
    }

    /// Takes the reply to the call that was due.
    pub fn step(&mut self, event: RandomEvent)
        requires
            old(self)@.wf(),
            old(self)@.room_for(event),
        ensures
            final(self)@ == old(self)@.after(event),
            final(self)@.wf(),
    {
        proof {
            law_the_generator_never_yields_zero(self.random);
        }
        match (self.action, event) {
            (RandomAction::Open, RandomEvent::Done(_)) => {
                self.action = if self.uncached {
                    RandomAction::BypassCache
                } else {
                    RandomAction::SeekEnd
                };
            },
            (RandomAction::Open, RandomEvent::Failed(n)) => {
                self.give_up(n);
            },
            (RandomAction::BypassCache, RandomEvent::Done(_)) => {
                self.action = RandomAction::SeekEnd;
            },
            (RandomAction::BypassCache, RandomEvent::Failed(_)) => {
                self.action = RandomAction::SeekEnd;
            },
            (RandomAction::SeekEnd, RandomEvent::Done(size)) => {
                self.size_bytes = size;
                self.action = RandomAction::Calibrate;
            },
            (RandomAction::SeekEnd, RandomEvent::Failed(n)) => {
                self.give_up(n);
            },
            (RandomAction::Calibrate, RandomEvent::Done(hz)) => {
                self.counter_hz = hz;
                self.action = RandomAction::StartClock;
            },
            (RandomAction::StartClock, RandomEvent::Done(now)) => {
                self.start_nanos = now;
                self.next_read();
            },
            (RandomAction::ReadAt(_), RandomEvent::Block { bytes, start_ticks, end_ticks }) => {
                let t = passed_between(start_ticks, end_ticks);
                self.bytes = self.bytes + bytes;
                self.ticks = self.ticks + t;
                self.latencies.push(t);
                self.next_read();
            },
            (RandomAction::ReadAt(_), RandomEvent::Failed(n)) => {
                if n != EINTR {
                    self.give_up(n);
                }
            },
            (RandomAction::EndClock, RandomEvent::Done(now)) => {
                self.end_nanos = now;
                self.action = RandomAction::Finish;
            },
            _ => {},
        }
    }

    /// The result of a finished benchmark of the file `path`, or the error that ended
    /// it.
    pub fn finish(self, path: &str) -> (r: Result<RandomMeasurement, MeasureError>)
        requires
            self@.wf(),
            self@.action == RandomAction::Finish,
        ensures
            self@.error is Some ==> r == Err::<RandomMeasurement, MeasureError>(self@.error->0),
            self@.error is None ==> r is Ok,
            r matches Ok(m) ==> self@.measured(path@, m),
    {
        if let Some(e) = self.error {
            return Err(e);
        }
        let n = self.latencies.len();
        let avg_nanos: u64 = if n == 0 {
            0
        } else {
            ticks_to_nanos(self.ticks / (n as u64), self.counter_hz)
        };
        let p99_nanos: u64 = if n == 0 {
            0
        } else {
            let ceil: u128 = (99 * (n as u128) + 99) / 100;
            assert(0 < ceil <= n);
            let t = at_rank(&self.latencies, ceil as usize);
            proof {
                let l = self.latencies@;
                let u = choose|u: u64| has_rank(l, percentile_rank(99, l.len()), u);
                lemma_rank_unique(l, ceil as nat, t, u);
            }
            ticks_to_nanos(t, self.counter_hz)
        };
        Ok(
            RandomMeasurement {
                path: path.to_owned(),
                block_size: self.block_size,
                ops: n as u64,
                bytes: self.bytes,
                wall_nanos: passed_between(self.start_nanos, self.end_nanos),
                avg_nanos,
                p99_nanos,
                uncached: self.uncached,
                counter_hz: self.counter_hz,
            },
        )
    }
}

/// A benchmark that ends without an error has made every read that was asked
/// for.
pub proof fn law_a_random_run_makes_every_read(s: RandomState, event: RandomEvent)
    requires
        s.wf(),
        s.room_for(event),
    ensures
        s.after(event).wf(),
        s.after(event).action == RandomAction::Finish && s.after(event).error is None ==> s.after(
            event,
        ).latencies.len() == s.ops,
{
    law_the_generator_never_yields_zero(s.random);
}

/// Bypassing the cache is best effort: a random-access benchmark goes on in the
/// same way whether the system does it or not.
pub proof fn law_bypassing_the_cache_is_best_effort(s: RandomState, value: u64, errno: i32)
    requires
        s.action == RandomAction::BypassCache,
    ensures
        s.after(RandomEvent::Failed(errno)) == s.after(RandomEvent::Done(value)),
{
}

} // verus!
