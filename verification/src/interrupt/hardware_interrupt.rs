//! The measurements and the formulas behind them.

use vstd::prelude::*;

use crate::binary64::Binary64;
use crate::rate::{
    capped, capped_of, mib_per_second, mib_per_second_of, millis, millis_of, share, share_of,
};
use crate::text::{decimal, decimal_of};

verus! {

/// The size of the read buffer: large enough to amortize the cost of a system
/// call, small enough for several timer samples across a sizeable file.
pub const READ_CHUNK: usize = 262_144;

/// Upper bounds in nanoseconds of the read-latency histogram's buckets. A final
/// overflow bucket takes anything slower than the last bound.
pub const LATENCY_BOUNDS_NS: [u64; 13] = [
    1_000,
    2_000,
    5_000,
    10_000,
    20_000,
    50_000,
    100_000,
    200_000,
    500_000,
    1_000_000,
    2_000_000,
    5_000_000,
    10_000_000,
];

/// The number of buckets: one per bound and the overflow bucket.
pub const LATENCY_BUCKETS: usize = 14;

/// Live progress, handed out whenever the hardware timer interrupt produced a
/// snapshot.
#[derive(Debug, Clone, Copy)]
pub struct Progress {
    pub bytes_read: u64,
    pub size_bytes: u64,
    /// Monotonic nanoseconds since measurement start.
    pub elapsed_nanos: u64,
    /// Which timer interrupt produced this update, counted from one.
    pub interrupt_index: u64,
}

/// One progress snapshot, taken because the hardware timer interrupt fired.
#[derive(Debug, Clone, Copy)]
pub struct Sample {
    /// Monotonic nanoseconds since measurement start.
    pub at_nanos: u64,
    /// Bytes read by the time this interrupt was serviced.
    pub bytes: u64,
    /// Which timer interrupt produced this sample, counted from one.
    pub interrupt_index: u64,
}

/// The full measurement of a file.
#[derive(Debug, Clone)]
pub struct FileMeasurement {
    pub path: String,
    pub size_bytes: u64,
    pub bytes_read: u64,
    pub wall_nanos: u64,
    /// Hardware-counter ticks spent inside `read()` calls.
    pub read_ticks: u64,
    pub chunk_count: u64,
    pub min_chunk_ticks: u64,
    pub max_chunk_ticks: u64,
    /// Number of hardware timer interrupts that fired during the read.
    pub timer_interrupts: u64,
    pub counter_hz: u64,
    /// Whether the page cache was bypassed.
    pub uncached: bool,
    pub samples: Vec<Sample>,
    /// Distribution of the chunks' read latency over `LATENCY_BOUNDS_NS`.
    pub latency_buckets: [u64; LATENCY_BUCKETS],
}

/// The nanoseconds in `ticks` of a counter that runs at `hz`, modulo the range
/// of 64 bits; zero for a counter of unknown frequency.
pub open spec fn nanos_in(ticks: nat, hz: nat) -> nat {
    if hz == 0 {
        0
    } else {
        (ticks * 1_000_000_000 / hz) % 0x1_0000_0000_0000_0000
    }
}

/// Converts counter ticks to nanoseconds.
pub fn ticks_to_nanos(ticks: u64, hz: u64) -> (n: u64)
    ensures
        n == nanos_in(ticks as nat, hz as nat),
{
    if hz == 0 {
        0
    } else {
        let n: u128 = (ticks as u128) * 1_000_000_000 / (hz as u128);
        (n % 0x1_0000_0000_0000_0000) as u64
    }
}

/// A bucket that a latency belongs to: the first whose bound it does not exceed,
/// else the overflow bucket.
pub open spec fn is_bucket(nanos: nat, b: nat) -> bool {
    &&& b <= 13
    &&& forall|i: int| 0 <= i < b ==> #[trigger] LATENCY_BOUNDS_NS@[i] < nanos
    &&& b < 13 ==> nanos <= LATENCY_BOUNDS_NS@[b as int]
}

/// The bucket that a latency belongs to.
pub open spec fn bucket_of(nanos: nat) -> nat {
    choose|b: nat| is_bucket(nanos, b)
}

/// A latency belongs to one bucket only.
pub proof fn lemma_one_bucket(nanos: nat, b: nat)
    requires
        is_bucket(nanos, b),
    ensures
        b == bucket_of(nanos),
{
    let c = bucket_of(nanos);
    assert(is_bucket(nanos, c));
    if b < c {
        assert(LATENCY_BOUNDS_NS@[b as int] < nanos);
    }
    if c < b {
        assert(LATENCY_BOUNDS_NS@[c as int] < nanos);
    }
}

/// Every latency belongs to a bucket.
pub proof fn lemma_bucket_exists(nanos: nat)
    ensures
        is_bucket(nanos, bucket_of(nanos)),
{
    lemma_bucket_from(nanos, 0);
}

proof fn lemma_bucket_from(nanos: nat, i: nat)
    requires
        i <= 13,
        forall|j: int| 0 <= j < i ==> #[trigger] LATENCY_BOUNDS_NS@[j] < nanos,
    ensures
        exists|b: nat| is_bucket(nanos, b),
    decreases 13 - i,
{
    if i == 13 || nanos <= LATENCY_BOUNDS_NS@[i as int] {
        assert(is_bucket(nanos, i));
    } else {
        lemma_bucket_from(nanos, i + 1);
    }
}

/// Maps a chunk latency to its histogram bucket.
pub fn latency_bucket(nanos: u64) -> (b: usize)
    ensures
        is_bucket(nanos as nat, b as nat),
        b == bucket_of(nanos as nat),
        b < LATENCY_BUCKETS,
{
    let mut i: usize = 0;
    while i < 13
        invariant
            i <= 13,
            forall|j: int| 0 <= j < i ==> #[trigger] LATENCY_BOUNDS_NS@[j] < nanos,
        decreases 13 - i,
    {
        if nanos <= LATENCY_BOUNDS_NS[i] {
            proof {
                lemma_one_bucket(nanos as nat, i as nat);
            }
            return i;
        }
        i = i + 1;
    }
    proof {
        lemma_one_bucket(nanos as nat, 13);
    }
    13
}

/// The frequency of a counter that advanced by `ticks` in `nanos` nanoseconds;
/// zero where no time has passed.
pub open spec fn frequency(ticks: nat, nanos: nat) -> nat {
    nanos_in(ticks, nanos)
}

/// How long the counter runs for its calibration, in nanoseconds.
pub const CALIBRATION_NANOS: u64 = 20_000_000;

/// The frequency of the hardware counter, calibrated against the clock.
pub fn counter_frequency(ticks: u64, nanos: u64) -> (hz: u64)
    ensures
        hz == frequency(ticks as nat, nanos as nat),
{
    ticks_to_nanos(ticks, nanos)
}

/// A signed number in the bits of an unsigned one.
pub open spec fn unsigned_bits(n: int) -> nat {
    (n % 0x1_0000_0000_0000_0000) as nat
}

fn as_unsigned(n: i64) -> (u: u64)
    ensures
        u == unsigned_bits(n as int),
{
    if n >= 0 {
        n as u64
    } else {
        let low: u64 = (n - i64::MIN) as u64;
        low + 0x8000_0000_0000_0000
    }
}

/// The nanoseconds of a clock reading, modulo the range of 64 bits.
pub fn clock_nanos(tv_sec: i64, tv_nsec: i64) -> (n: u64)
    ensures
        n == (unsigned_bits(tv_sec as int) * 1_000_000_000 + unsigned_bits(tv_nsec as int))
            % 0x1_0000_0000_0000_0000,
{
    let s: u128 = as_unsigned(tv_sec) as u128;
    let f: u128 = as_unsigned(tv_nsec) as u128;
    ((s * 1_000_000_000 + f) % 0x1_0000_0000_0000_0000) as u64
}

/// What passed between two readings of a counter that may have wrapped.
pub open spec fn passed(from: u64, to: u64) -> u64 {
    ((to - from) % 0x1_0000_0000_0000_0000) as u64
}

/// What passed between two readings of a counter.
pub fn passed_between(from: u64, to: u64) -> (d: u64)
    ensures
        d == passed(from, to),
{
    if to >= from {
        to - from
    } else {
        (0xffff_ffff_ffff_ffff - from) + to + 1
    }
}

/// How often the hardware timer fires.
#[derive(Debug, Clone, Copy, PartialEq, Eq, Structural)]
pub struct SampleInterval {
    pub secs: u64,
    pub nanos: u32,
}

/// The interval between two samples of a measurement.
pub fn sample_interval() -> (d: SampleInterval)
    ensures
        d == (SampleInterval { secs: 0, nanos: 500_000 }),
{
    SampleInterval { secs: 0, nanos: 500_000 }
}

/// A timer setting: seconds and microseconds.
#[derive(Debug, Clone, Copy, PartialEq, Eq, Structural)]
pub struct Timeval {
    pub tv_sec: i64,
    pub tv_usec: i64,
}

/// The whole microseconds of an interval, as the timer takes them.
pub open spec fn timeval(d: SampleInterval) -> Timeval {
    Timeval {
        tv_sec: (if d.secs < 0x8000_0000_0000_0000 {
            d.secs as int
        } else {
            d.secs - 0x1_0000_0000_0000_0000
        }) as i64,
        tv_usec: (d.nanos / 1_000) as i64,
    }
}

/// Converts an interval to a timer setting.
pub fn timeval_from_duration(d: SampleInterval) -> (t: Timeval)
    ensures
        t == timeval(d),
{
    let tv_sec: i64 = if d.secs < 0x8000_0000_0000_0000 {
        d.secs as i64
    } else {
        (d.secs - 0x8000_0000_0000_0000) as i64 + i64::MIN
    };
    Timeval { tv_sec, tv_usec: (d.nanos / 1_000) as i64 }
}

/// The setting that arms the timer: at least one microsecond, since a zero
/// period would disarm it.
pub open spec fn arming(d: SampleInterval) -> Timeval {
    if d.secs == 0 && d.nanos < 1_000 {
        Timeval { tv_sec: 0, tv_usec: 1 }
    } else {
        timeval(d)
    }
}

/// The setting that arms the timer for an interval.
pub fn arm_timer(d: SampleInterval) -> (t: Timeval)
    ensures
        t == arming(d),
{
    let iv = if d.secs == 0 && d.nanos < 1_000 {
        SampleInterval { secs: 0, nanos: 1_000 }
    } else {
        d
    };
    timeval_from_duration(iv)
}

/// A setting that arms the timer never disarms it.
pub proof fn law_an_arming_setting_is_never_zero(d: SampleInterval)
    ensures
        arming(d) != (Timeval { tv_sec: 0, tv_usec: 0 }),
{
}

/// The setting that disarms the timer.
pub fn disarm_timer() -> (t: Timeval)
    ensures
        t == (Timeval { tv_sec: 0, tv_usec: 0 }),
{
    Timeval { tv_sec: 0, tv_usec: 0 }
}

/// The sum of the first `n` counts.
pub open spec fn counted(buckets: Seq<u64>, n: int) -> nat
    decreases n,
{
    if n <= 0 {
        0
    } else {
        counted(buckets, n - 1) + buckets[n - 1] as nat
    }
}

/// The rank of a percentile among `total` reads: the least number of reads that
/// make up `p` percent of them, and at least one.
pub open spec fn percentile_rank(p: nat, total: nat) -> nat {
    let r = (p * total + 99) / 100;
    if r == 0 {
        1
    } else {
        r
    }
}

/// The bucket that holds the read of a given rank, counted from the fastest.
pub open spec fn ranks_in(buckets: Seq<u64>, rank: nat, b: int) -> bool {
    0 <= b < buckets.len() && counted(buckets, b) < rank <= counted(buckets, b + 1)
}

proof fn lemma_counted_monotone(buckets: Seq<u64>, a: int, b: int)
    requires
        0 <= a <= b <= buckets.len(),
    ensures
        counted(buckets, a) <= counted(buckets, b),
    decreases b,
{
    if a < b {
        lemma_counted_monotone(buckets, a, b - 1);
    }
}

/// A read of a given rank lies in one bucket only.
pub proof fn lemma_one_rank_bucket(buckets: Seq<u64>, rank: nat, a: int, b: int)
    requires
        ranks_in(buckets, rank, a),
        ranks_in(buckets, rank, b),
    ensures
        a == b,
{
    if a < b {
        lemma_counted_monotone(buckets, a + 1, b);
    }
    if b < a {
        lemma_counted_monotone(buckets, b + 1, a);
    }
}

impl FileMeasurement {
    /// The measurement as a block of text.
    pub open spec fn summary_text(&self) -> Seq<char> {
        "── FILE MEASUREMENT ─────────────────────────\n  path            "@ + self.path@
            + "\n  size            "@ + decimal(self.size_bytes as nat)
            + " bytes\n  read            "@ + decimal(self.bytes_read as nat)
            + " bytes\n  wall time       "@ + millis(self.wall_nanos as nat).fixed(3)
            + " ms\n  throughput      "@ + self.rate().fixed(2)
            + " MiB/s\n  chunks          "@ + decimal(self.chunk_count as nat)
            + "\n  read latency    avg "@ + decimal(self.avg_nanos()) + " ns · min "@ + decimal(
            self.min_nanos(),
        ) + " ns · max "@ + decimal(self.max_nanos()) + " ns\n  read-busy       "@
            + self.busy().scaled(100).fixed(1) + "% of wall time\n  timer IRQs      "@ + decimal(
            self.timer_interrupts as nat,
        ) + " (hw counter @ "@ + decimal(self.counter_hz as nat) + " Hz)\n  samples         "@
            + decimal(self.samples@.len()) + " captured"@
    }

    /// The measurement as a block of text.
    pub fn summary(&self) -> (s: String)
        ensures
            s@ == self.summary_text(),
    {
        let mut s = "── FILE MEASUREMENT ─────────────────────────\n  path            ".to_owned();
        s.append(self.path.as_str());
        s.append("\n  size            ");
        s.append(decimal_of(self.size_bytes as u128).as_str());
        s.append(" bytes\n  read            ");
        s.append(decimal_of(self.bytes_read as u128).as_str());
        s.append(" bytes\n  wall time       ");
        s.append(millis_of(self.wall_nanos).fixed_of(3).as_str());
        s.append(" ms\n  throughput      ");
        s.append(self.throughput_mib_s().fixed_of(2).as_str());
        s.append(" MiB/s\n  chunks          ");
        s.append(decimal_of(self.chunk_count as u128).as_str());
        s.append("\n  read latency    avg ");
        s.append(decimal_of(self.avg_chunk_nanos() as u128).as_str());
        s.append(" ns · min ");
        s.append(decimal_of(self.min_chunk_nanos() as u128).as_str());
        s.append(" ns · max ");
        s.append(decimal_of(self.max_chunk_nanos() as u128).as_str());
        s.append(" ns\n  read-busy       ");
        s.append(self.read_busy_fraction().times(100).fixed_of(1).as_str());
        s.append("% of wall time\n  timer IRQs      ");
        s.append(decimal_of(self.timer_interrupts as u128).as_str());
        s.append(" (hw counter @ ");
        s.append(decimal_of(self.counter_hz as u128).as_str());
        s.append(" Hz)\n  samples         ");
        s.append(decimal_of(self.samples.len() as u128).as_str());
        s.append(" captured");
        s
    }

    /// The mean latency of a chunk.
    pub open spec fn avg_nanos(&self) -> nat {
        if self.chunk_count == 0 {
            0
        } else {
            nanos_in((self.read_ticks / self.chunk_count) as nat, self.counter_hz as nat)
        }
    }

    /// The latency of the fastest chunk.
    pub open spec fn min_nanos(&self) -> nat {
        nanos_in(self.min_chunk_ticks as nat, self.counter_hz as nat)
    }

    /// The latency of the slowest chunk.
    pub open spec fn max_nanos(&self) -> nat {
        nanos_in(self.max_chunk_ticks as nat, self.counter_hz as nat)
    }

    /// The read throughput in mebibytes per second.
    pub open spec fn rate(&self) -> Binary64 {
        mib_per_second(self.bytes_read as nat, self.wall_nanos as nat)
    }

    /// The share of the wall time spent in `read()` calls, from zero to one. Zero
    /// where no time has passed.
    pub open spec fn busy(&self) -> Binary64 {
        capped(
            share(
                nanos_in(self.read_ticks as nat, self.counter_hz as nat),
                self.wall_nanos as nat,
            ),
        )
    }

    /// Whether the extremes enclose the chunks: no chunk took less than the least
    /// time or more than the most.
    pub open spec fn enclosed(&self) -> bool {
        &&& self.chunk_count * self.min_chunk_ticks <= self.read_ticks
        &&& self.read_ticks <= self.chunk_count * self.max_chunk_ticks
        &&& self.min_chunk_ticks <= self.max_chunk_ticks
        &&& self.chunk_count == 0 ==> self.max_chunk_ticks == 0
    }

    /// The upper end of the latencies in a bucket: its bound, and never more than
    /// the slowest chunk.
    pub open spec fn bucket_top(&self, b: int) -> nat {
        if b < 13 && LATENCY_BOUNDS_NS@[b] <= self.max_nanos() {
            LATENCY_BOUNDS_NS@[b] as nat
        } else {
            self.max_nanos()
        }
    }

    /// The latency that `p` percent of the chunks did not exceed, as far as the
    /// histogram tells: the upper end of the bucket that holds the chunk of that
    /// rank. Zero where nothing was read.
    pub open spec fn percentile(&self, p: nat) -> nat {
        let b = self.latency_buckets@;
        let total = counted(b, 14);
        if total == 0 {
            0
        } else {
            self.bucket_top(choose|i: int| ranks_in(b, percentile_rank(p, total), i))
        }
    }

    /// Read throughput in mebibytes per second.
    pub fn throughput_mib_s(&self) -> (r: Binary64)
        ensures
            r == self.rate(),
            r.moderate(),
            -110 <= r.exponent <= 24,
    {
        mib_per_second_of(self.bytes_read, self.wall_nanos)
    }

    /// Mean latency of a chunk in nanoseconds.
    pub fn avg_chunk_nanos(&self) -> (n: u64)
        ensures
            n == self.avg_nanos(),
    {
        if self.chunk_count == 0 {
            0
        } else {
            ticks_to_nanos(self.read_ticks / self.chunk_count, self.counter_hz)
        }
    }

    /// Latency of the fastest chunk in nanoseconds.
    pub fn min_chunk_nanos(&self) -> (n: u64)
        ensures
            n == self.min_nanos(),
    {
        ticks_to_nanos(self.min_chunk_ticks, self.counter_hz)
    }

    /// Latency of the slowest chunk in nanoseconds.
    pub fn max_chunk_nanos(&self) -> (n: u64)
        ensures
            n == self.max_nanos(),
    {
        ticks_to_nanos(self.max_chunk_ticks, self.counter_hz)
    }

    /// Share of the wall time spent blocked in `read()`, from zero to one.
    pub fn read_busy_fraction(&self) -> (r: Binary64)
        ensures
            r == self.busy(),
            !Binary64::whole(1).below(r),
            self.wall_nanos == 0 ==> r == Binary64::zero(),
            r.moderate(),
            -117 <= r.exponent <= 13,
    {
        capped_of(share_of(ticks_to_nanos(self.read_ticks, self.counter_hz), self.wall_nanos))
    }

    /// The latency that `p` percent of the chunks did not exceed.
    fn percentile_ns(&self, p: u64) -> (n: u64)
        requires
            p <= 100,
        ensures
            n == self.percentile(p as nat),
    {
        let ghost b = self.latency_buckets@;
        let mut total: u128 = 0;
        for i in 0..14usize
            invariant
                b == self.latency_buckets@,
                total == counted(b, i as int),
                total <= i * 0xffff_ffff_ffff_ffff,
        {
            total = total + self.latency_buckets[i] as u128;
        }
        if total == 0 {
            return 0;
        }
        assert(p * total <= 100 * total) by (nonlinear_arith)
            requires
                p <= 100,
                total >= 0,
        ;
        let ceil: u128 = ((p as u128) * total + 99) / 100;
        let rank: u128 = if ceil == 0 { 1 } else { ceil };
        assert(rank == percentile_rank(p as nat, total as nat));
        let mut seen: u128 = 0;
        let mut i: usize = 0;
        while i < 14
            invariant_except_break
                seen < rank,
            invariant
                b == self.latency_buckets@,
                i <= 14,
                seen == counted(b, i as int),
                seen <= i * 0xffff_ffff_ffff_ffff,
                rank <= counted(b, 14),
            ensures
                ranks_in(b, rank as nat, i as int),
            decreases 14 - i,
        {
            let next: u128 = seen + self.latency_buckets[i] as u128;
            if rank <= next {
                break;
            }
            seen = next;
            i = i + 1;
        }
        proof {
            let j = choose|j: int| ranks_in(b, rank as nat, j);
            lemma_one_rank_bucket(b, rank as nat, i as int, j);
        }
        let top = self.max_chunk_nanos();
        if i < 13 && LATENCY_BOUNDS_NS[i] <= top {
            LATENCY_BOUNDS_NS[i]
        } else {
            top
        }
    }

    /// For each percentage the latency that as many of the chunks did not exceed.
    pub fn percentiles_ns(&self, ps: &[u64]) -> (v: Vec<u64>)
        requires
            forall|i: int| 0 <= i < ps@.len() ==> #[trigger] ps@[i] <= 100,
        ensures
            v@.len() == ps@.len(),
            forall|i: int| 0 <= i < ps@.len() ==> #[trigger] v@[i] == self.percentile(ps@[i] as nat),
    {
        let mut v: Vec<u64> = Vec::new();
        for i in 0..ps.len()
            invariant
                v@.len() == i,
                forall|j: int| 0 <= j < ps@.len() ==> #[trigger] ps@[j] <= 100,
                forall|j: int| 0 <= j < i ==> #[trigger] v@[j] == self.percentile(ps@[j] as nat),
        {
            v.push(self.percentile_ns(ps[i]));
        }
        v
    }
}

/// A higher percentile is never a lower latency, and none exceeds the slowest
/// chunk.
pub proof fn law_percentiles_ascend(m: FileMeasurement, p: nat, q: nat)
    requires
        p <= q <= 100,
    ensures
        m.percentile(p) <= m.percentile(q) <= m.max_nanos(),
{
    let b = m.latency_buckets@;
    let total = counted(b, 14);
    if total > 0 {
        lemma_rank_bucket_exists(b, percentile_rank(p, total));
        lemma_rank_bucket_exists(b, percentile_rank(q, total));
        let i = choose|i: int| ranks_in(b, percentile_rank(p, total), i);
        let j = choose|j: int| ranks_in(b, percentile_rank(q, total), j);
        assert((p * total + 99) / 100 <= (q * total + 99) / 100 <= total) by (nonlinear_arith)
            requires
                p <= q <= 100,
                total > 0,
        ;
        if j < i {
            lemma_counted_monotone(b, j + 1, i);
        }
    }
}

/// A read of every rank lies in a bucket.
pub proof fn lemma_rank_bucket_exists(b: Seq<u64>, rank: nat)
    requires
        b.len() == 14,
    ensures
        0 < rank <= counted(b, 14) ==> exists|i: int| ranks_in(b, rank, i),
{
    if 0 < rank <= counted(b, 14) {
        lemma_rank_bucket_below(b, rank, 14);
    }
}

proof fn lemma_rank_bucket_below(b: Seq<u64>, rank: nat, n: int)
    requires
        0 <= n <= b.len(),
        0 < rank <= counted(b, n),
    ensures
        exists|i: int| ranks_in(b, rank, i),
    decreases n,
{
    if rank <= counted(b, n - 1) && n > 0 {
        lemma_rank_bucket_below(b, rank, n - 1);
    } else {
        assert(ranks_in(b, rank, n - 1));
    }
}

/// The mean latency lies between that of the fastest and that of the slowest
/// chunk, as long as the slowest fits in 64 bits of nanoseconds.
pub proof fn law_the_mean_lies_between_the_extremes(m: FileMeasurement)
    requires
        m.enclosed(),
        m.counter_hz > 0 ==> m.max_chunk_ticks * 1_000_000_000 / m.counter_hz as int <= u64::MAX,
    ensures
        m.min_nanos() <= m.avg_nanos() <= m.max_nanos(),
{
    let n = m.chunk_count as int;
    let low = m.min_chunk_ticks as int;
    let high = m.max_chunk_ticks as int;
    let hz = m.counter_hz as int;
    if n > 0 && hz > 0 {
        let mean = m.read_ticks as int / n;
        assert(low <= mean <= high) by (nonlinear_arith)
            requires
                n > 0,
                n * low <= m.read_ticks,
                m.read_ticks <= n * high,
                mean == m.read_ticks as int / n,
        ;
        assert(low * 1_000_000_000 / hz <= mean * 1_000_000_000 / hz <= high * 1_000_000_000 / hz)
            by (nonlinear_arith)
            requires
                hz > 0,
                0 <= low <= mean <= high,
        ;
        assert(0 <= low * 1_000_000_000 / hz) by (nonlinear_arith)
            requires
                hz > 0,
                0 <= low,
        ;
    } else if hz > 0 {
        assert(0int * 1_000_000_000 / hz == 0) by (nonlinear_arith)
            requires
                hz > 0,
        ;
    }
}

} // verus!
