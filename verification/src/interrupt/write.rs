//! The write benchmark: sequential writes into a directory, with the cost of
//! flushing them to storage.

use vstd::prelude::*;

use super::hardware_interrupt::{passed, passed_between};
use super::session::{contains_nul, has_nul, MeasureError, EINTR};
use crate::binary64::Binary64;
use crate::rate::{mib_per_second, mib_per_second_of};
use crate::text::chars_of;

verus! {

/// How much the benchmark writes.
pub const WRITE_TOTAL: u64 = 67_108_864;

/// How much it writes at a time.
pub const WRITE_CHUNK: usize = 1_048_576;

/// The error number of a device that is full.
pub const ENOSPC: i32 = 28;

/// A finished write benchmark.
#[derive(Debug, Clone)]
pub struct WriteMeasurement {
    pub path: String,
    pub bytes: u64,
    pub chunk_size: usize,
    /// From the first write to the end of the flush.
    pub wall_nanos: u64,
    pub fsync_nanos: u64,
    pub counter_hz: u64,
}

impl WriteMeasurement {
    /// The throughput in mebibytes per second, the flush included.
    pub open spec fn rate(&self) -> Binary64 {
        mib_per_second(self.bytes as nat, self.wall_nanos as nat)
    }

    /// The throughput in mebibytes per second, the flush included.
    pub fn throughput_mib_s(&self) -> (r: Binary64)
        ensures
            r == self.rate(),
            r.moderate(),
            -110 <= r.exponent <= 24,
    {
        mib_per_second_of(self.bytes, self.wall_nanos)
    }
}

/// The call that is due next.
#[derive(Debug, Clone, Copy, PartialEq, Eq, Structural)]
pub enum WriteAction {
    /// Create the scratch file.
    Create,
    /// Find the frequency of the hardware counter.
    Calibrate,
    /// Read the clock before the first write.
    StartClock,
    /// Write this many bytes.
    Write(u64),
    /// Read the clock before the flush.
    StartSync,
    /// Flush the file to storage.
    Sync,
    /// Read the clock after the flush.
    EndClock,
    /// Nothing: the benchmark is over.
    Finish,
}

/// What a call returned.
#[derive(Debug, Clone, Copy, PartialEq, Eq, Structural)]
pub enum WriteEvent {
    /// The call succeeded with this value.
    Done(u64),
    /// The call failed with this error number.
    Failed(i32),
}

/// A write benchmark's numbers and what is due.
#[derive(Debug, Clone, Copy, PartialEq, Eq, Structural)]
pub struct WriteRun {
    pub total: u64,
    pub chunk_size: usize,
    pub action: WriteAction,
    pub error: Option<MeasureError>,
    pub counter_hz: u64,
    pub written: u64,
    pub start_nanos: u64,
    pub sync_nanos: u64,
    pub end_nanos: u64,
}

impl WriteRun {
    /// The state before the first call.
    pub open spec fn initial(total: u64, chunk_size: usize) -> WriteRun {
        WriteRun {
            total,
            chunk_size,
            action: WriteAction::Create,
            error: None,
            counter_hz: 0,
            written: 0,
            start_nanos: 0,
            sync_nanos: 0,
            end_nanos: 0,
        }
    }

    /// What holds in every state: no more is written than was asked for.
    pub open spec fn wf(self) -> bool {
        &&& self.chunk_size > 0
        &&& self.written <= self.total
        &&& match self.action {
            WriteAction::Write(n) => 0 < n <= self.chunk_size && self.written + n <= self.total,
            WriteAction::Finish => self.error is None ==> self.written == self.total,
            WriteAction::StartSync => self.written == self.total,
            WriteAction::Sync => self.written == self.total,
            WriteAction::EndClock => self.written == self.total,
            _ => true,
        }
    }

    /// The state after a call that ends the benchmark by failing.
    pub open spec fn given_up(self, errno: i32) -> WriteRun {
        WriteRun { action: WriteAction::Finish, error: Some(MeasureError::Os(errno)), ..self }
    }

    /// The state before the next write, or before the flush.
    pub open spec fn next_write(self) -> WriteRun {
        WriteRun {
            action: if self.written == self.total {
                WriteAction::StartSync
            } else if self.total - self.written < self.chunk_size {
                WriteAction::Write((self.total - self.written) as u64)
            } else {
                WriteAction::Write(self.chunk_size as u64)
            },
            ..self
        }
    }

    /// The state after the reply to the call that was due. A write may be short; one
    /// that writes nothing means that the device is full.
    pub open spec fn after(self, event: WriteEvent) -> WriteRun {
        match (self.action, event) {
            (WriteAction::Create, WriteEvent::Done(_)) => WriteRun {
                action: WriteAction::Calibrate,
                ..self
            },
            (WriteAction::Create, WriteEvent::Failed(n)) => self.given_up(n),
            (WriteAction::Calibrate, WriteEvent::Done(hz)) => WriteRun {
                counter_hz: hz,
                action: WriteAction::StartClock,
                ..self
            },
            (WriteAction::StartClock, WriteEvent::Done(now)) => WriteRun {
                start_nanos: now,
                ..self
            }.next_write(),
            (WriteAction::Write(len), WriteEvent::Done(n)) => if n == 0 || n > len {
                self.given_up(ENOSPC)
            } else {
                WriteRun { written: (self.written + n) as u64, ..self }.next_write()
            },
            (WriteAction::Write(_), WriteEvent::Failed(n)) => if n == EINTR {
                self
            } else {
                self.given_up(n)
            },
            (WriteAction::StartSync, WriteEvent::Done(now)) => WriteRun {
                sync_nanos: now,
                action: WriteAction::Sync,
                ..self
            },
            (WriteAction::Sync, WriteEvent::Done(_)) => WriteRun {
                action: WriteAction::EndClock,
                ..self
            },
            (WriteAction::Sync, WriteEvent::Failed(n)) => self.given_up(n),
            (WriteAction::EndClock, WriteEvent::Done(now)) => WriteRun {
                end_nanos: now,
                action: WriteAction::Finish,
                ..self
            },
            _ => self,
        }
    }

    /// Whether a measurement of the directory `path` is what a finished benchmark
    /// amounts to.
    pub open spec fn measured(self, path: Seq<char>, m: WriteMeasurement) -> bool {
        &&& m.path@ == path
        &&& m.bytes == self.total
        &&& m.chunk_size == self.chunk_size
        &&& m.wall_nanos == passed(self.start_nanos, self.end_nanos)
        &&& m.fsync_nanos == passed(self.sync_nanos, self.end_nanos)
        &&& m.counter_hz == self.counter_hz
    }

    fn next_write_of(self) -> (r: WriteRun)
        requires
            self.written <= self.total,
        ensures
            r == self.next_write(),
    {
        let left: u64 = self.total - self.written;
        let action = if left == 0 {
            WriteAction::StartSync
        } else if left < self.chunk_size as u64 {
            WriteAction::Write(left)
        } else {
            WriteAction::Write(self.chunk_size as u64)
        };
        WriteRun { action, ..self }
    }

    fn give_up(self, errno: i32) -> (r: WriteRun)
        ensures
            r == self.given_up(errno),
    {
        WriteRun { action: WriteAction::Finish, error: Some(MeasureError::Os(errno)), ..self }
    }

    /// Takes the reply to the call that was due.
    pub fn step(self, event: WriteEvent) -> (r: WriteRun)
        requires
            self.wf(),
        ensures
            r == self.after(event),
            r.wf(),
    {
        match (self.action, event) {
            (WriteAction::Create, WriteEvent::Done(_)) => WriteRun {
                action: WriteAction::Calibrate,
                ..self
            },
            (WriteAction::Create, WriteEvent::Failed(n)) => self.give_up(n),
            (WriteAction::Calibrate, WriteEvent::Done(hz)) => WriteRun {
                counter_hz: hz,
                action: WriteAction::StartClock,
                ..self
            },
            (WriteAction::StartClock, WriteEvent::Done(now)) => {
                let started = WriteRun { start_nanos: now, ..self };
                started.next_write_of()
            },
            (WriteAction::Write(len), WriteEvent::Done(n)) => {
                if n == 0 || n > len {
                    self.give_up(ENOSPC)
                } else {
                    let longer = WriteRun { written: self.written + n, ..self };
                    longer.next_write_of()
                }
            },
            (WriteAction::Write(_), WriteEvent::Failed(n)) => {
                if n == EINTR {
                    self
                } else {
                    self.give_up(n)
                }
            },
            (WriteAction::StartSync, WriteEvent::Done(now)) => WriteRun {
                sync_nanos: now,
                action: WriteAction::Sync,
                ..self
            },
            (WriteAction::Sync, WriteEvent::Done(_)) => WriteRun {
                action: WriteAction::EndClock,
                ..self
            },
            (WriteAction::Sync, WriteEvent::Failed(n)) => self.give_up(n),
            (WriteAction::EndClock, WriteEvent::Done(now)) => WriteRun {
                end_nanos: now,
                action: WriteAction::Finish,
                ..self
            },
            _ => self,
        }
    }

    /// The result of a finished benchmark into the directory `path`, or the error
    /// that ended it.
    pub fn finish(self, path: &str) -> (r: Result<WriteMeasurement, MeasureError>)
        requires
            self.wf(),
            self.action == WriteAction::Finish,
        ensures
            self.error is Some ==> r == Err::<WriteMeasurement, MeasureError>(self.error->0),
            self.error is None ==> r is Ok,
            r matches Ok(m) ==> self.measured(path@, m),
    {
        if let Some(e) = self.error {
            return Err(e);
        }
        Ok(
            WriteMeasurement {
                path: path.to_owned(),
                bytes: self.written,
                chunk_size: self.chunk_size,
                wall_nanos: passed_between(self.start_nanos, self.end_nanos),
                fsync_nanos: passed_between(self.sync_nanos, self.end_nanos),
                counter_hz: self.counter_hz,
            },
        )
    }
}

/// Starts to write `total` bytes to the scratch file at `path`, in blocks of at
/// most `chunk_size` bytes and at least one.
pub fn write_bench(path: &str, total: u64, chunk_size: usize) -> (r: Result<WriteRun, MeasureError>)
    ensures
        has_nul(path@) ==> r == Err::<WriteRun, MeasureError>(MeasureError::NulInPath),
        !has_nul(path@) ==> r == Ok::<WriteRun, MeasureError>(
            WriteRun::initial(
                total,
                if chunk_size == 0 {
                    1
                } else {
                    chunk_size
                },
            ),
        ) && r->Ok_0.wf(),
{
    if contains_nul(path) {
        return Err(MeasureError::NulInPath);
    }
    Ok(
        WriteRun {
            total,
            chunk_size: if chunk_size == 0 { 1 } else { chunk_size },
            action: WriteAction::Create,
            error: None,
            counter_hz: 0,
            written: 0,
            start_nanos: 0,
            sync_nanos: 0,
            end_nanos: 0,
        },
    )
}

/// A benchmark never writes past what was asked for, and one that ends without
/// an error has written all of it.
pub proof fn law_a_write_run_writes_exactly_the_total(s: WriteRun, event: WriteEvent)
    requires
        s.wf(),
    ensures
        s.after(event).wf(),
        s.written <= s.after(event).written <= s.total,
        s.after(event).action == WriteAction::Finish && s.after(event).error is None ==> s.after(
            event,
        ).written == s.total,
{
}

/// The scratch file of a benchmark in the directory `dir`.
pub open spec fn scratch_file(dir: Seq<char>) -> Seq<char> {
    (if dir.len() == 0 || dir.last() == '/' {
        dir
    } else {
        dir + "/"@
    }) + ".sawskas-write-bench"@
}

/// The scratch file of a benchmark in the directory `dir`.
pub fn scratch_path(dir: &str) -> (s: String)
    ensures
        s@ == scratch_file(dir@),
{
    let v = chars_of(dir);
    let n = v.len();
    let mut s = dir.to_owned();
    if n > 0 && v[n - 1] != '/' {
        s.append("/");
    }
    s.append(".sawskas-write-bench");
    s
}

} // verus!
