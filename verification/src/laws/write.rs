//! The write benchmark: from the replies of the operating system to the measurement.

use vstd::prelude::*;

use super::profile::elapsed;
use super::time::law_what_passed_leads_from_reading_to_reading;
use crate::interrupt::session::MeasureError;
use crate::interrupt::write::{
    scratch_file, WriteAction, WriteEvent, WriteMeasurement, WriteRun, WRITE_CHUNK, WRITE_TOTAL,
};

verus! {

// ── a conversation ──────────────────────────────────────────────────────────

/// The replies to a benchmark that can write.
pub struct Replies {
    pub created: u64,
    pub hz: u64,
    pub start: u64,
    pub writes: Seq<WriteEvent>,
    /// The clock before the flush.
    pub flush: u64,
    pub flushed: u64,
    pub end: u64,
}

/// The bytes that some replies say were written.
pub open spec fn bytes_in(writes: Seq<WriteEvent>) -> nat
    decreases writes.len(),
{
    if writes.len() == 0 {
        0
    } else {
        bytes_in(writes.drop_last()) + match writes.last() {
            WriteEvent::Done(n) => n as nat,
            _ => 0,
        }
    }
}

/// How much is to be written next, once `done` bytes of `total` are: a whole block,
/// or what is left.
pub open spec fn wanted(total: u64, chunk: usize, done: nat) -> int {
    if total - done < chunk {
        total - done
    } else {
        chunk as int
    }
}

impl Replies {
    /// Whether the replies are those of a device with room: each write takes at least
    /// a byte and no more than it was given, or is interrupted, until all is written.
    pub open spec fn fair(self, total: u64, chunk: usize) -> bool {
        &&& forall|i: int|
            0 <= i < self.writes.len() ==> {
                ||| #[trigger] self.writes[i] == WriteEvent::Failed(4)
                ||| self.writes[i] matches WriteEvent::Done(n) && 0 < n <= wanted(
                    total,
                    chunk,
                    bytes_in(self.writes.take(i)),
                )
            }
        &&& bytes_in(self.writes) == total
    }

    /// The replies before the first write.
    pub open spec fn opening(self) -> Seq<WriteEvent> {
        seq![
            WriteEvent::Done(self.created),
            WriteEvent::Done(self.hz),
            WriteEvent::Done(self.start),
        ]
    }

    /// All replies.
    pub open spec fn all(self) -> Seq<WriteEvent> {
        self.opening() + self.writes + seq![
            WriteEvent::Done(self.flush),
            WriteEvent::Done(self.flushed),
            WriteEvent::Done(self.end),
        ]
    }
}

/// Whether a measurement is what the replies amount to: the wall time goes from the
/// first write to the end of the flush, the flush's own from its start to its end.
pub open spec fn measures(
    m: WriteMeasurement,
    path: Seq<char>,
    total: u64,
    chunk: usize,
    r: Replies,
) -> bool {
    &&& m.path@ == path
    &&& m.bytes == total
    &&& m.bytes == bytes_in(r.writes)
    &&& m.chunk_size == chunk
    &&& m.wall_nanos == elapsed(r.start, r.end)
    &&& m.fsync_nanos == elapsed(r.flush, r.end)
    &&& m.counter_hz == r.hz
}

/// The state after a series of replies.
pub open spec fn run(s: WriteRun, events: Seq<WriteEvent>) -> WriteRun
    decreases events.len(),
{
    if events.len() == 0 {
        s
    } else {
        run(s, events.drop_last()).after(events.last())
    }
}

// ── the proof ───────────────────────────────────────────────────────────────

proof fn lemma_run_in_parts(s: WriteRun, a: Seq<WriteEvent>, b: Seq<WriteEvent>)
    ensures
        run(s, a + b) == run(run(s, a), b),
    decreases b.len(),
{
    if b.len() == 0 {
        assert(a + b == a);
    } else {
        lemma_run_in_parts(s, a, b.drop_last());
        assert((a + b).drop_last() == a + b.drop_last());
        assert((a + b).last() == b.last());
    }
}

proof fn lemma_next_reply(s: WriteRun, a: Seq<WriteEvent>, e: WriteEvent)
    ensures
        run(s, a.push(e)) == run(s, a).after(e),
{
    assert(a.push(e).drop_last() == a);
}

/// The state in which so much is written.
spec fn with(s: WriteRun, done: nat) -> WriteRun {
    WriteRun {
        written: done as u64,
        action: if done == s.total {
            WriteAction::StartSync
        } else {
            WriteAction::Write(wanted(s.total, s.chunk_size, done) as u64)
        },
        ..s
    }
}

proof fn lemma_bytes_grow(writes: Seq<WriteEvent>, i: int)
    requires
        0 <= i <= writes.len(),
    ensures
        bytes_in(writes.take(i)) <= bytes_in(writes),
    decreases writes.len(),
{
    if i < writes.len() {
        lemma_bytes_grow(writes.drop_last(), i);
        assert(writes.drop_last().take(i) == writes.take(i));
    } else {
        assert(writes.take(i) == writes);
    }
}

proof fn lemma_writes(s: WriteRun, r: Replies, i: int)
    requires
        r.fair(s.total, s.chunk_size),
        s == with(s, 0),
        s.error is None,
        s.chunk_size > 0,
        0 <= i <= r.writes.len(),
    ensures
        run(s, r.writes.take(i)) == with(s, bytes_in(r.writes.take(i))),
    decreases i,
{
    lemma_bytes_grow(r.writes, i);
    if i == 0 {
        assert(r.writes.take(0) == Seq::<WriteEvent>::empty());
    } else {
        lemma_writes(s, r, i - 1);
        let before = r.writes.take(i - 1);
        let e = r.writes[i - 1];
        assert(r.writes.take(i) == before.push(e));
        lemma_next_reply(s, before, e);
        assert(before.push(e).drop_last() == before);
        lemma_bytes_grow(r.writes, i - 1);
    }
}

proof fn lemma_opening(total: u64, chunk: usize, r: Replies)
    ensures
        ({
            let s = run(WriteRun::initial(total, chunk), r.opening());
            &&& s == with(s, 0)
            &&& s.total == total && s.chunk_size == chunk && s.error is None && s.counter_hz
                == r.hz && s.start_nanos == r.start
        }),
{
    let s = WriteRun::initial(total, chunk);
    let none = Seq::<WriteEvent>::empty();
    let a = none.push(WriteEvent::Done(r.created));
    let b = a.push(WriteEvent::Done(r.hz));
    let c = b.push(WriteEvent::Done(r.start));
    lemma_next_reply(s, none, WriteEvent::Done(r.created));
    lemma_next_reply(s, a, WriteEvent::Done(r.hz));
    lemma_next_reply(s, b, WriteEvent::Done(r.start));
    assert(r.opening() == c);
}

// ── the laws ────────────────────────────────────────────────────────────────

/// A benchmark that can write measures what it wrote: all that was asked for, from the
/// first write to the end of the flush, with the time of the flush.
pub proof fn law_a_write_run_tells_what_was_written(
    path: Seq<char>,
    total: u64,
    chunk: usize,
    r: Replies,
    m: WriteMeasurement,
)
    requires
        chunk > 0,
        r.fair(total, chunk),
    ensures
        ({
            let s = run(WriteRun::initial(total, chunk), r.all());
            &&& s.action == WriteAction::Finish
            &&& s.error is None
            &&& s.measured(path, m) ==> measures(m, path, total, chunk, r)
        }),
{
    let s = WriteRun::initial(total, chunk);
    lemma_opening(total, chunk, r);
    lemma_run_in_parts(s, r.opening(), r.writes);
    let t = run(s, r.opening());
    lemma_writes(t, r, r.writes.len() as int);
    assert(r.writes.take(r.writes.len() as int) == r.writes);
    let a = r.opening() + r.writes;
    let b = a.push(WriteEvent::Done(r.flush));
    let c = b.push(WriteEvent::Done(r.flushed));
    let d = c.push(WriteEvent::Done(r.end));
    lemma_next_reply(s, a, WriteEvent::Done(r.flush));
    lemma_next_reply(s, b, WriteEvent::Done(r.flushed));
    lemma_next_reply(s, c, WriteEvent::Done(r.end));
    assert(r.all() == d);
    law_what_passed_leads_from_reading_to_reading(r.start, r.end);
    law_what_passed_leads_from_reading_to_reading(r.flush, r.end);
}

/// Each write is asked for a whole block, or for what is left.
pub proof fn law_each_write_is_a_block_or_the_rest(total: u64, chunk: usize, r: Replies, i: int)
    requires
        chunk > 0,
        r.fair(total, chunk),
        0 <= i < r.writes.len(),
        bytes_in(r.writes.take(i)) < total,
    ensures
        run(WriteRun::initial(total, chunk), r.opening() + r.writes.take(i)).action
            == WriteAction::Write(wanted(total, chunk, bytes_in(r.writes.take(i))) as u64),
{
    let s = WriteRun::initial(total, chunk);
    lemma_opening(total, chunk, r);
    lemma_run_in_parts(s, r.opening(), r.writes.take(i));
    lemma_writes(run(s, r.opening()), r, i);
}

/// A call that fails ends the benchmark with its error, an interrupted write aside; a
/// write that takes nothing ends it with the error of a full device.
pub proof fn law_a_failing_call_ends_the_benchmark(s: WriteRun, errno: i32)
    ensures
        s.action == WriteAction::Create || s.action == WriteAction::Sync || (s.action is Write
            && errno != 4) ==> s.after(WriteEvent::Failed(errno)).action == WriteAction::Finish
            && s.after(WriteEvent::Failed(errno)).error == Some(MeasureError::Os(errno)),
        s.action is Write ==> s.after(WriteEvent::Failed(4)) == s,
        s.action is Write ==> s.after(WriteEvent::Done(0)).action == WriteAction::Finish
            && s.after(WriteEvent::Done(0)).error == Some(MeasureError::Os(28)),
{
}

/// The benchmark writes 64 MiB in blocks of one.
pub proof fn law_the_benchmark_writes_blocks_of_a_mebibyte()
    ensures
        WRITE_CHUNK == 1024 * 1024,
        WRITE_TOTAL == 64 * WRITE_CHUNK,
{
}

/// The scratch file lies in the directory itself and is hidden there: behind the
/// directory's path and a slash its name begins with a dot and has no slash.
pub proof fn law_the_scratch_file_lies_in_the_directory(dir: Seq<char>, k: int)
    requires
        dir.len() > 0,
    ensures
        ({
            let f = scratch_file(dir);
            let n = if dir.last() == '/' {
                dir.len() as int
            } else {
                dir.len() as int + 1
            };
            &&& f.take(dir.len() as int) == dir
            &&& n < f.len()
            &&& f[n - 1] == '/'
            &&& f[n] == '.'
            &&& n <= k < f.len() ==> f[k] != '/'
        }),
{
    reveal_strlit("/");
    reveal_strlit(".sawskas-write-bench");
    let name = ".sawskas-write-bench"@;
    let f = scratch_file(dir);
    let n = if dir.last() == '/' {
        dir.len() as int
    } else {
        dir.len() as int + 1
    };
    assert(f.take(dir.len() as int) == dir);
    assert(f[n] == name[0]);
    if n <= k < f.len() {
        assert(f[k] == name[k - n]);
        let j = k - n;
        assert(0 <= j < 20);
        if j < 10 {
            assert(j == 0 || j == 1 || j == 2 || j == 3 || j == 4 || j == 5 || j == 6 || j == 7
                || j == 8 || j == 9);
        } else {
            assert(j == 10 || j == 11 || j == 12 || j == 13 || j == 14 || j == 15 || j == 16 || j
                == 17 || j == 18 || j == 19);
        }
    }
}

} // verus!
