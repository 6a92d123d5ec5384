//! Parallel bulk reads: how fast can a tree be drained?
//!
//! The files are dealt out to worker threads in contiguous slices. There is no
//! timer sampling here: the process has one timer only, and its signal lands on
//! an arbitrary thread.

use vstd::prelude::*;

use crate::binary64::Binary64;
use crate::rate::{mib_per_second, mib_per_second_of};

verus! {

/// What one worker thread did.
#[derive(Debug, Clone, Copy, PartialEq, Eq, Structural)]
pub struct ThreadStat {
    pub index: usize,
    pub files: u64,
    pub bytes: u64,
    pub wall_nanos: u64,
}

impl ThreadStat {
    /// The throughput in mebibytes per second.
    pub open spec fn rate(self) -> Binary64 {
        mib_per_second(self.bytes as nat, self.wall_nanos as nat)
    }

    /// The throughput in mebibytes per second.
    pub fn throughput_mib_s(&self) -> (r: Binary64)
        ensures
            r == self.rate(),
            r.moderate(),
            -110 <= r.exponent <= 24,
    {
        mib_per_second_of(self.bytes, self.wall_nanos)
    }
}

/// A finished bulk read.
#[derive(Debug, Clone)]
pub struct BulkMeasurement {
    pub file_count: u64,
    pub bytes_read: u64,
    pub wall_nanos: u64,
    pub threads: usize,
    pub errors: u64,
    pub counter_hz: u64,
    pub counter_ticks: u64,
    /// Whether the page cache was bypassed.
    pub uncached: bool,
    pub per_thread: Vec<ThreadStat>,
}

impl BulkMeasurement {
    /// The throughput in mebibytes per second.
    pub open spec fn rate(&self) -> Binary64 {
        mib_per_second(self.bytes_read as nat, self.wall_nanos as nat)
    }

    /// The throughput in mebibytes per second.
    pub fn throughput_mib_s(&self) -> (r: Binary64)
        ensures
            r == self.rate(),
            r.moderate(),
            -110 <= r.exponent <= 24,
    {
        mib_per_second_of(self.bytes_read, self.wall_nanos)
    }
}

/// A number of worker threads as it is used: 1 to 256.
pub open spec fn workers(threads: nat) -> nat {
    if threads < 1 {
        1
    } else if threads > 256 {
        256
    } else {
        threads
    }
}

/// A number of worker threads as it is used.
pub fn clamp_threads(threads: usize) -> (n: usize)
    ensures
        n == workers(threads as nat),
{
    if threads < 1 {
        1
    } else if threads > 256 {
        256
    } else {
        threads
    }
}

/// How many files a worker gets: as few as cover all of them, and at least one.
pub open spec fn per_worker(files: nat, threads: nat) -> nat {
    let w = workers(threads);
    let p = (files + w - 1) as nat / w;
    if p == 0 {
        1
    } else {
        p
    }
}

/// The slice of the files that worker `k` gets: from, and up to.
pub open spec fn slice_of(files: nat, threads: nat, k: nat) -> (nat, nat) {
    let p = per_worker(files, threads);
    (k * p, if (k + 1) * p < files {
        (k + 1) * p
    } else {
        files
    })
}

/// The number of slices.
pub open spec fn slice_count(files: nat, threads: nat) -> nat {
    let p = per_worker(files, threads);
    (files + p - 1) as nat / p
}

/// Deals `files` files out to worker threads, a contiguous slice to each.
pub fn bulk_plan(files: usize, threads: usize) -> (plan: Vec<(usize, usize)>)
    ensures
        plan@.len() == slice_count(files as nat, threads as nat),
        forall|k: int|
            0 <= k < plan@.len() ==> (
            (#[trigger] plan@[k]).0 as nat,
            plan@[k].1 as nat,
        ) == slice_of(files as nat, threads as nat, k as nat),
        forall|k: int| 0 <= k < plan@.len() ==> (#[trigger] plan@[k]).0 < plan@[k].1 <= files,
{
    let w = clamp_threads(threads);
    assert(files % w != 0 ==> files / w < files) by (nonlinear_arith)
        requires
            w > 0,
            files >= 0,
    ;
    let ceil: usize = if files % w == 0 { files / w } else { files / w + 1 };
    let per: usize = if ceil == 0 { 1 } else { ceil };
    let ghost f = files as nat;
    proof {
        lemma_ceil(f, w as nat);
        assert(per == per_worker(f, threads as nat));
    }
    let mut plan: Vec<(usize, usize)> = Vec::new();
    let mut from: usize = 0;
    proof {
        let p = per as nat;
        assert((0 + p - 1) as nat / p == 0) by (nonlinear_arith)
            requires
                p > 0,
        ;
        assert(0 * p == 0);
    }
    while from < files
        invariant
            f == files,
            per == per_worker(f, threads as nat),
            per > 0,
            from <= files,
            from == files ==> plan@.len() == (f + per - 1) as nat / per as nat,
            from < files ==> from == plan@.len() * per,
            forall|k: int|
                0 <= k < plan@.len() ==> (
                (#[trigger] plan@[k]).0 as nat,
                plan@[k].1 as nat,
            ) == slice_of(f, threads as nat, k as nat),
        decreases files - from,
    {
        let to: usize = if per < files - from { from + per } else { files };
        let ghost k = plan@.len() as nat;
        proof {
            let p = per as nat;
            assert((k + 1) * p == k * p + p) by (nonlinear_arith);
            if to == files {
                lemma_ceil_unique(f, p, k);
            }
        }
        plan.push((from, to));
        from = to;
    }
    proof {
        assert forall|k: int| 0 <= k < plan@.len() implies (#[trigger] plan@[k]).0 < plan@[k].1
            <= files by {
            lemma_slice_starts_inside(f, threads as nat, k as nat);
            assert((k + 1) * per == k * per + per) by (nonlinear_arith);
        }
    }
    plan
}

/// A quotient rounded up.
pub proof fn lemma_ceil(n: nat, w: nat)
    requires
        w > 0,
    ensures
        (n + w - 1) as nat / w == if n % w == 0 {
            n / w
        } else {
            n / w + 1
        },
{
    let q = n / w;
    let r = n % w;
    assert(n == q * w + r) by (nonlinear_arith)
        requires
            q == n / w,
            r == n % w,
            w > 0,
    ;
    if r == 0 {
        vstd::arithmetic::div_mod::lemma_fundamental_div_mod_converse(
            n + w - 1,
            w as int,
            q as int,
            w - 1,
        );
    } else {
        assert(n + w - 1 == (q + 1) * w + (r - 1)) by (nonlinear_arith)
            requires
                n == q * w + r,
        ;
        vstd::arithmetic::div_mod::lemma_fundamental_div_mod_converse(
            n + w - 1,
            w as int,
            (q + 1) as int,
            r - 1,
        );
    }
}

proof fn lemma_ceil_unique(n: nat, p: nat, k: nat)
    requires
        p > 0,
        k * p < n <= (k + 1) * p,
    ensures
        (n + p - 1) as nat / p == k + 1,
{
    let r = n - k * p - 1;
    assert(n + p - 1 == (k + 1) * p + r) by (nonlinear_arith)
        requires
            r == n - k * p - 1,
    ;
    assert(0 <= r < p) by (nonlinear_arith)
        requires
            r == n - k * p - 1,
            k * p < n <= (k + 1) * p,
    ;
    vstd::arithmetic::div_mod::lemma_fundamental_div_mod_converse(
        n + p - 1,
        p as int,
        (k + 1) as int,
        r,
    );
}

/// Every file is covered by exactly one contiguous slice, and there are never
/// more slices than worker threads.
pub proof fn law_every_file_has_one_worker(files: nat, threads: nat, i: nat, k: nat)
    requires
        i < files,
        k < slice_count(files, threads),
    ensures
        slice_of(files, threads, k).0 <= i < slice_of(files, threads, k).1 <==> k == i
            / per_worker(files, threads),
        i / per_worker(files, threads) < slice_count(files, threads),
        slice_count(files, threads) <= workers(threads),
{
    let p = per_worker(files, threads);
    let w = workers(threads);
    let q = i / p;
    assert(q * p <= i < (q + 1) * p) by (nonlinear_arith)
        requires
            q == i / p,
            p > 0,
    ;
    let c = slice_count(files, threads);
    lemma_ceil(files, p);
    lemma_ceil(files, w);
    assert(c * p >= files) by (nonlinear_arith)
        requires
            c == if files % p == 0 {
                files / p
            } else {
                files / p + 1
            },
            p > 0,
    ;
    assert(q < c) by (nonlinear_arith)
        requires
            q * p <= i,
            i < files,
            files <= c * p,
            p > 0,
    ;
    assert(k != q ==> !(k * p <= i < (k + 1) * p)) by (nonlinear_arith)
        requires
            q * p <= i < (q + 1) * p,
            p > 0,
    ;
    assert(w * p >= files) by (nonlinear_arith)
        requires
            p >= (if files % w == 0 {
                files / w
            } else {
                files / w + 1
            }),
            w > 0,
    ;
    assert(c <= w) by (nonlinear_arith)
        requires
            c == (files + p - 1) as nat / p,
            files <= w * p,
            p > 0,
    ;
}

/// What a worker has read so far.
#[derive(Debug, Clone, Copy, PartialEq, Eq, Structural)]
pub struct WorkerTally {
    pub bytes: u64,
    pub errors: u64,
}

impl WorkerTally {
    /// The tally after one more file: its bytes, or one more error.
    pub open spec fn after(self, file: Option<u64>) -> WorkerTally {
        match file {
            Some(bytes) => WorkerTally { bytes: (self.bytes + bytes) as u64, ..self },
            None => WorkerTally { errors: (self.errors + 1) as u64, ..self },
        }
    }

    /// Whether one more file leaves the totals within 64 bits.
    pub open spec fn room_for(self, file: Option<u64>) -> bool {
        match file {
            Some(bytes) => self.bytes + bytes <= u64::MAX,
            None => self.errors + 1 <= u64::MAX,
        }
    }

    /// Whether one more file leaves the totals within 64 bits.
    pub fn has_room_for(self, file: Option<u64>) -> (r: bool)
        ensures
            r == self.room_for(file),
    {
        match file {
            Some(bytes) => bytes <= u64::MAX - self.bytes,
            None => self.errors < u64::MAX,
        }
    }

    /// Nothing read yet.
    pub fn new() -> (t: WorkerTally)
        ensures
            t == (WorkerTally { bytes: 0, errors: 0 }),
    {
        WorkerTally { bytes: 0, errors: 0 }
    }

    /// Books one more file: the bytes read from it, or nothing if it could not be
    /// read.
    pub fn step(self, file: Option<u64>) -> (t: WorkerTally)
        requires
            self.room_for(file),
        ensures
            t == self.after(file),
    {
        match file {
            Some(bytes) => WorkerTally { bytes: self.bytes + bytes, errors: self.errors },
            None => WorkerTally { bytes: self.bytes, errors: self.errors + 1 },
        }
    }
}

/// A worker's report: its statistics and its errors.
#[derive(Debug, Clone, Copy, PartialEq, Eq, Structural)]
pub struct WorkerReport {
    pub stat: ThreadStat,
    pub errors: u64,
}

/// The report of worker `index`, which got the files from the first place of
/// `slice` up to the second.
pub open spec fn reported(
    index: usize,
    slice: (usize, usize),
    tally: WorkerTally,
    wall_nanos: u64,
) -> WorkerReport {
    WorkerReport {
        stat: ThreadStat {
            index,
            files: (slice.1 - slice.0) as u64,
            bytes: tally.bytes,
            wall_nanos,
        },
        errors: tally.errors,
    }
}

/// The report of worker `index`, which got the files from the first place of
/// `slice` up to the second.
pub fn worker_report(
    index: usize,
    slice: (usize, usize),
    tally: WorkerTally,
    wall_nanos: u64,
) -> (w: WorkerReport)
    requires
        slice.0 <= slice.1,
    ensures
        w == reported(index, slice, tally, wall_nanos),
{
    WorkerReport {
        stat: ThreadStat {
            index,
            files: (slice.1 - slice.0) as u64,
            bytes: tally.bytes,
            wall_nanos,
        },
        errors: tally.errors,
    }
}

/// Whether some reports are those of the workers among whom the files were dealt
/// out, one for each in order.
pub open spec fn reported_by_all(reports: Seq<WorkerReport>, files: nat, threads: nat) -> bool {
    &&& reports.len() == slice_count(files, threads)
    &&& forall|k: int|
        0 <= k < reports.len() ==> {
            let (from, to) = slice_of(files, threads, k as nat);
            (#[trigger] reports[k]).stat.index == k && reports[k].stat.files == to - from
        }
}

/// The files that the workers got.
pub open spec fn total_files(reports: Seq<WorkerReport>) -> nat
    decreases reports.len(),
{
    if reports.len() == 0 {
        0
    } else {
        total_files(reports.drop_last()) + reports.last().stat.files as nat
    }
}

proof fn lemma_files_so_far(reports: Seq<WorkerReport>, files: nat, threads: nat, n: nat)
    requires
        reported_by_all(reports, files, threads),
        n <= reports.len(),
    ensures
        ({
            let p = per_worker(files, threads);
            total_files(reports.take(n as int)) == if n * p < files {
                n * p
            } else {
                files
            }
        }),
    decreases n,
{
    let p = per_worker(files, threads);
    let c = slice_count(files, threads);
    if n == 0 {
        assert(0 * p == 0);
    } else {
        let k = (n - 1) as nat;
        lemma_files_so_far(reports, files, threads, k);
        let part = reports.take(n as int);
        assert(part.drop_last() == reports.take(k as int));
        assert(part.last() == reports[k as int]);
        lemma_slice_starts_inside(files, threads, k);
        assert(n == k + 1);
    }
}

/// Every slice begins within the files.
pub proof fn lemma_slice_starts_inside(files: nat, threads: nat, k: nat)
    requires
        k < slice_count(files, threads),
    ensures
        k * per_worker(files, threads) < files,
{
    let p = per_worker(files, threads);
    let c = (files + p - 1) as nat / p;
    assert(k * p < files) by (nonlinear_arith)
        requires
            c == (files + p - 1) as nat / p,
            k + 1 <= c,
            p > 0,
    ;
}

/// The breakdown of a bulk read is complete: the workers are numbered from zero,
/// and their files add up to all of them.
pub proof fn law_the_breakdown_is_complete(
    reports: Seq<WorkerReport>,
    files: nat,
    threads: nat,
)
    requires
        reported_by_all(reports, files, threads),
    ensures
        total_files(reports) == files,
        forall|k: int| 0 <= k < reports.len() ==> (#[trigger] reports[k]).stat.index == k,
{
    let p = per_worker(files, threads);
    let c = slice_count(files, threads);
    lemma_files_so_far(reports, files, threads, c);
    assert(reports.take(c as int) == reports);
    lemma_ceil(files, p);
    assert(c * p >= files) by (nonlinear_arith)
        requires
            c == if files % p == 0 {
                files / p
            } else {
                files / p + 1
            },
            p > 0,
    ;
}

/// The bytes that the workers read.
pub open spec fn total_bytes(reports: Seq<WorkerReport>) -> nat
    decreases reports.len(),
{
    if reports.len() == 0 {
        0
    } else {
        total_bytes(reports.drop_last()) + reports.last().stat.bytes as nat
    }
}

/// The files that the workers could not read.
pub open spec fn total_errors(reports: Seq<WorkerReport>) -> nat
    decreases reports.len(),
{
    if reports.len() == 0 {
        0
    } else {
        total_errors(reports.drop_last()) + reports.last().errors as nat
    }
}

proof fn lemma_totals_grow(reports: Seq<WorkerReport>, n: int)
    requires
        0 <= n <= reports.len(),
    ensures
        total_bytes(reports.take(n)) <= total_bytes(reports),
        total_errors(reports.take(n)) <= total_errors(reports),
    decreases reports.len(),
{
    if n == reports.len() {
        assert(reports.take(n) == reports);
    } else {
        lemma_totals_grow(reports.drop_last(), n);
        assert(reports.drop_last().take(n) == reports.take(n));
    }
}

/// Whether the workers' totals fit in 64 bits.
pub fn totals_fit(reports: &Vec<WorkerReport>) -> (r: bool)
    ensures
        r == (total_bytes(reports@) <= u64::MAX && total_errors(reports@) <= u64::MAX),
{
    let mut bytes: u64 = 0;
    let mut errors: u64 = 0;
    for i in 0..reports.len()
        invariant
            bytes == total_bytes(reports@.take(i as int)),
            errors == total_errors(reports@.take(i as int)),
    {
        let w = reports[i];
        proof {
            assert(reports@.take(i + 1).drop_last() == reports@.take(i as int));
            lemma_totals_grow(reports@, i + 1);
        }
        if w.stat.bytes > u64::MAX - bytes || w.errors > u64::MAX - errors {
            return false;
        }
        bytes = bytes + w.stat.bytes;
        errors = errors + w.errors;
    }
    assert(reports@.take(reports@.len() as int) == reports@);
    true
}

/// Times of a whole bulk read.
#[derive(Debug, Clone, Copy, PartialEq, Eq, Structural)]
pub struct BulkTimes {
    pub wall_nanos: u64,
    pub counter_hz: u64,
    pub counter_ticks: u64,
}

/// Whether a measurement is what the workers' reports amount to.
pub open spec fn is_bulk_of(
    m: BulkMeasurement,
    files: usize,
    threads: usize,
    uncached: bool,
    reports: Seq<WorkerReport>,
    times: BulkTimes,
) -> bool {
    &&& m.file_count == files
    &&& m.bytes_read == total_bytes(reports)
    &&& m.errors == total_errors(reports)
    &&& m.threads == workers(threads as nat)
    &&& m.uncached == uncached
    &&& m.wall_nanos == times.wall_nanos
    &&& m.counter_hz == times.counter_hz
    &&& m.counter_ticks == times.counter_ticks
    &&& m.per_thread@ == reports.map_values(|w: WorkerReport| w.stat)
}

/// Puts the workers' reports together.
pub fn measure_bulk(
    files: usize,
    threads: usize,
    uncached: bool,
    reports: &Vec<WorkerReport>,
    times: BulkTimes,
) -> (m: BulkMeasurement)
    requires
        total_bytes(reports@) <= u64::MAX,
        total_errors(reports@) <= u64::MAX,
    ensures
        is_bulk_of(m, files, threads, uncached, reports@, times),
{
    let mut bytes: u64 = 0;
    let mut errors: u64 = 0;
    let mut per_thread: Vec<ThreadStat> = Vec::new();
    for i in 0..reports.len()
        invariant
            total_bytes(reports@) <= u64::MAX,
            total_errors(reports@) <= u64::MAX,
            bytes == total_bytes(reports@.take(i as int)),
            errors == total_errors(reports@.take(i as int)),
            per_thread@ == reports@.take(i as int).map_values(|w: WorkerReport| w.stat),
    {
        let w = reports[i];
        proof {
            assert(reports@.take(i + 1).drop_last() == reports@.take(i as int));
            lemma_totals_grow(reports@, i + 1);
        }
        bytes = bytes + w.stat.bytes;
        errors = errors + w.errors;
        per_thread.push(w.stat);
        assert(per_thread@ == reports@.take(i + 1).map_values(|w: WorkerReport| w.stat));
    }
    assert(reports@.take(reports@.len() as int) == reports@);
    BulkMeasurement {
        file_count: files as u64,
        bytes_read: bytes,
        wall_nanos: times.wall_nanos,
        threads: clamp_threads(threads),
        errors,
        counter_hz: times.counter_hz,
        counter_ticks: times.counter_ticks,
        uncached,
        per_thread,
    }
}

} // verus!
