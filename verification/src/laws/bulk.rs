//! Bulk reads: how the files are dealt out, and what the workers' results amount to.

use vstd::prelude::*;

use super::profile::elapsed;
use super::time::law_what_passed_leads_from_reading_to_reading;
use crate::interrupt::bulk::{
    is_bulk_of, lemma_ceil, lemma_slice_starts_inside, per_worker, reported, slice_count, slice_of,
    total_bytes, total_errors, workers, BulkMeasurement, BulkTimes, ThreadStat, WorkerReport,
    WorkerTally,
};
use crate::interrupt::pass::{Pass, PassCounts, ReadReply};

verus! {

// ── one file ────────────────────────────────────────────────────────────────

/// The bytes of the chunks among some replies to reads.
pub open spec fn bytes_in(replies: Seq<ReadReply>) -> nat
    decreases replies.len(),
{
    if replies.len() == 0 {
        0
    } else {
        bytes_in(replies.drop_last()) + match replies.last() {
            ReadReply::Chunk { bytes, .. } => bytes as nat,
            _ => 0,
        }
    }
}

/// The counter ticks that the reads of the chunks took.
pub open spec fn ticks_in(replies: Seq<ReadReply>) -> nat
    decreases replies.len(),
{
    if replies.len() == 0 {
        0
    } else {
        ticks_in(replies.drop_last()) + match replies.last() {
            ReadReply::Chunk { start_ticks, end_ticks, .. } => elapsed(start_ticks, end_ticks),
            _ => 0,
        }
    }
}

/// The number of chunks.
pub open spec fn chunks_in(replies: Seq<ReadReply>) -> nat
    decreases replies.len(),
{
    if replies.len() == 0 {
        0
    } else {
        chunks_in(replies.drop_last()) + if replies.last() is Chunk {
            1nat
        } else {
            0
        }
    }
}

/// Where a pass stands after a series of replies.
pub open spec fn run(p: Pass, replies: Seq<ReadReply>) -> Pass
    decreases replies.len(),
{
    if replies.len() == 0 {
        p
    } else {
        run(p, replies.drop_last()).after(replies.last())
    }
}

proof fn lemma_reading(replies: Seq<ReadReply>)
    requires
        forall|i: int|
            0 <= i < replies.len() ==> (#[trigger] replies[i] is Chunk || replies[i]
                == ReadReply::Failed(4)),
        bytes_in(replies) <= u64::MAX,
        ticks_in(replies) <= u64::MAX,
        replies.len() <= u64::MAX,
    ensures
        run(Pass::Reading(PassCounts::none()), replies) == Pass::Reading(
            PassCounts {
                bytes: bytes_in(replies) as u64,
                chunks: chunks_in(replies) as u64,
                ticks: ticks_in(replies) as u64,
            },
        ),
        chunks_in(replies) <= replies.len(),
    decreases replies.len(),
{
    if replies.len() > 0 {
        let before = replies.drop_last();
        assert(replies.last() == replies[replies.len() - 1]);
        assert forall|i: int| 0 <= i < before.len() implies (#[trigger] before[i] is Chunk
            || before[i] == ReadReply::Failed(4)) by {
            assert(before[i] == replies[i]);
        }
        lemma_reading(before);
        if let ReadReply::Chunk { start_ticks, end_ticks, .. } = replies.last() {
            law_what_passed_leads_from_reading_to_reading(start_ticks, end_ticks);
        }
    }
}

/// A file is read to its end: the pass then has the bytes, the chunks and the ticks of
/// all reads. An interrupted read is tried again, and another failure breaks the pass
/// with its error.
pub proof fn law_a_pass_counts_the_whole_file(replies: Seq<ReadReply>, errno: i32)
    requires
        forall|i: int|
            0 <= i < replies.len() ==> (#[trigger] replies[i] is Chunk || replies[i]
                == ReadReply::Failed(4)),
        bytes_in(replies) <= u64::MAX,
        ticks_in(replies) <= u64::MAX,
        replies.len() <= u64::MAX,
        errno != 4,
    ensures
        ({
            let s = Pass::Reading(PassCounts::none());
            &&& run(s, replies.push(ReadReply::EndOfFile)) matches Pass::Complete(c) && c.bytes
                == bytes_in(replies) && c.chunks == chunks_in(replies) && c.ticks == ticks_in(
                replies,
            )
            &&& run(s, replies.push(ReadReply::Failed(errno))) == Pass::Broken(errno)
        }),
{
    lemma_reading(replies);
    assert(replies.push(ReadReply::EndOfFile).drop_last() == replies);
    assert(replies.push(ReadReply::Failed(errno)).drop_last() == replies);
}

// ── one worker ──────────────────────────────────────────────────────────────

/// The bytes of the files that could be read.
pub open spec fn bytes_of(results: Seq<Option<u64>>) -> nat
    decreases results.len(),
{
    if results.len() == 0 {
        0
    } else {
        bytes_of(results.drop_last()) + match results.last() {
            Some(n) => n as nat,
            None => 0,
        }
    }
}

/// The number of files that could not be read.
pub open spec fn failures_of(results: Seq<Option<u64>>) -> nat
    decreases results.len(),
{
    if results.len() == 0 {
        0
    } else {
        failures_of(results.drop_last()) + if results.last() is None {
            1nat
        } else {
            0
        }
    }
}

/// A worker's tally after a series of files.
pub open spec fn tallied(results: Seq<Option<u64>>) -> WorkerTally
    decreases results.len(),
{
    if results.len() == 0 {
        WorkerTally { bytes: 0, errors: 0 }
    } else {
        tallied(results.drop_last()).after(results.last())
    }
}

/// A worker reports the number of its files, the bytes of those that could be read,
/// and how many could not.
pub proof fn law_a_worker_accounts_for_its_files(
    index: usize,
    slice: (usize, usize),
    results: Seq<Option<u64>>,
    wall_nanos: u64,
)
    requires
        slice.0 <= slice.1,
        results.len() == slice.1 - slice.0,
        bytes_of(results) <= u64::MAX,
    ensures
        ({
            let w = reported(index, slice, tallied(results), wall_nanos);
            &&& w.stat.index == index
            &&& w.stat.files == results.len()
            &&& w.stat.bytes == bytes_of(results)
            &&& w.stat.wall_nanos == wall_nanos
            &&& w.errors == failures_of(results)
        }),
{
    lemma_tallied(results);
}

proof fn lemma_tallied(results: Seq<Option<u64>>)
    requires
        bytes_of(results) <= u64::MAX,
        results.len() <= u64::MAX,
    ensures
        tallied(results).bytes == bytes_of(results),
        tallied(results).errors == failures_of(results),
        failures_of(results) <= results.len(),
    decreases results.len(),
{
    if results.len() > 0 {
        lemma_tallied(results.drop_last());
    }
}

// ── all workers ─────────────────────────────────────────────────────────────

/// The bytes that some threads read.
pub open spec fn thread_bytes(threads: Seq<ThreadStat>) -> nat
    decreases threads.len(),
{
    if threads.len() == 0 {
        0
    } else {
        thread_bytes(threads.drop_last()) + threads.last().bytes as nat
    }
}

/// The files that some workers could not read.
pub open spec fn worker_errors(reports: Seq<WorkerReport>) -> nat
    decreases reports.len(),
{
    if reports.len() == 0 {
        0
    } else {
        worker_errors(reports.drop_last()) + reports.last().errors as nat
    }
}

proof fn lemma_sums(reports: Seq<WorkerReport>)
    ensures
        total_bytes(reports) == thread_bytes(reports.map_values(|w: WorkerReport| w.stat)),
        total_errors(reports) == worker_errors(reports),
    decreases reports.len(),
{
    let stats = reports.map_values(|w: WorkerReport| w.stat);
    if reports.len() > 0 {
        lemma_sums(reports.drop_last());
        assert(stats.drop_last() == reports.drop_last().map_values(|w: WorkerReport| w.stat));
    }
}

/// A bulk read has the sums over its threads: the bytes of all of them, and the files
/// that none of them could read. Each thread stands in the breakdown as it reported.
/// It runs on as many threads as were asked for, from one to 256.
pub proof fn law_a_bulk_read_adds_up_its_threads(
    m: BulkMeasurement,
    files: usize,
    threads: usize,
    uncached: bool,
    reports: Seq<WorkerReport>,
    times: BulkTimes,
)
    requires
        is_bulk_of(m, files, threads, uncached, reports, times),
    ensures
        m.file_count == files,
        m.bytes_read == thread_bytes(m.per_thread@),
        m.errors == worker_errors(reports),
        m.per_thread@.len() == reports.len(),
        forall|k: int| 0 <= k < reports.len() ==> m.per_thread@[k] == (#[trigger] reports[k]).stat,
        m.wall_nanos == times.wall_nanos,
        m.counter_hz == times.counter_hz,
        m.counter_ticks == times.counter_ticks,
        m.uncached == uncached,
        1 <= m.threads <= 256,
        1 <= threads <= 256 ==> m.threads == threads,
        threads < 1 ==> m.threads == 1,
        threads > 256 ==> m.threads == 256,
{
    lemma_sums(reports);
}

/// The files are dealt out evenly and without gaps: the first slice begins with the
/// first file, each ends where the next begins, the last ends with the last file, none
/// is empty, and none has more files than an even share rounded up. There are no more
/// slices than threads.
#[verifier::spinoff_prover]
#[verifier::rlimit(50)]
pub proof fn law_the_files_are_dealt_out_evenly(files: nat, threads: nat, k: nat)
    requires
        1 <= threads <= 256,
        k < slice_count(files, threads),
    ensures
        ({
            let n = slice_count(files, threads);
            let (from, to) = slice_of(files, threads, k);
            &&& n <= threads
            &&& from < to <= files
            &&& (to - from - 1) * threads < files
            &&& k == 0 ==> from == 0
            &&& k + 1 < n ==> to == slice_of(files, threads, k + 1).0
            &&& k + 1 == n ==> to == files
        }),
{
    let w = threads;
    let p = per_worker(files, threads);
    let n = slice_count(files, threads);
    lemma_ceil(files, w);
    lemma_ceil(files, p);
    lemma_slice_starts_inside(files, threads, k);
    assert((k + 1) * p == k * p + p) by (nonlinear_arith);
    assert(files > 0) by (nonlinear_arith)
        requires
            k * p < files,
    ;
    if k + 1 < n {
        lemma_slice_starts_inside(files, threads, k + 1);
    } else {
        assert(n * p >= files) by (nonlinear_arith)
            requires
                n == if files % p == 0 {
                    files / p
                } else {
                    files / p + 1
                },
                p > 0,
        ;
    }
    let c = if files % w == 0 {
        files / w
    } else {
        files / w + 1
    };
    assert((c - 1) * w < files) by (nonlinear_arith)
        requires
            c == if files % w == 0 {
                files / w
            } else {
                files / w + 1
            },
            w > 0,
            files > 0,
    ;
    assert(c >= 1) by (nonlinear_arith)
        requires
            c == if files % w == 0 {
                files / w
            } else {
                files / w + 1
            },
            w > 0,
            files > 0,
    ;
    let (from, to) = slice_of(files, threads, k);
    assert((to - from - 1) * w <= (c - 1) * w) by (nonlinear_arith)
        requires
            to - from <= c,
            w > 0,
    ;
    if k == 0 {
        assert(0 * p == 0);
    }
    assert(w * p >= files) by (nonlinear_arith)
        requires
            p == c,
            c == (if files % w == 0 {
                files / w
            } else {
                files / w + 1
            }),
            w > 0,
    ;
    assert(n <= w) by (nonlinear_arith)
        requires
            n == (files + p - 1) as nat / p,
            files <= w * p,
            p > 0,
    ;
}

} // verus!
