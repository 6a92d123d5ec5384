//! Reading a file once, from start to end.

use vstd::prelude::*;

use super::hardware_interrupt::{passed, passed_between};
use super::session::EINTR;

verus! {

/// What one pass has read so far.
#[derive(Debug, Clone, Copy, PartialEq, Eq, Structural)]
pub struct PassCounts {
    pub bytes: u64,
    pub chunks: u64,
    /// Hardware-counter ticks spent inside `read()` calls.
    pub ticks: u64,
}

impl PassCounts {
    /// Nothing read yet.
    pub open spec fn none() -> PassCounts {
        PassCounts { bytes: 0, chunks: 0, ticks: 0 }
    }

    /// One more chunk.
    pub open spec fn with(self, bytes: u64, ticks: u64) -> PassCounts {
        PassCounts {
            bytes: (self.bytes + bytes) as u64,
            chunks: (self.chunks + 1) as u64,
            ticks: (self.ticks + ticks) as u64,
        }
    }

    /// Whether one more chunk leaves every total within 64 bits.
    pub open spec fn room_for(self, bytes: u64, ticks: u64) -> bool {
        &&& self.bytes + bytes <= u64::MAX
        &&& self.chunks + 1 <= u64::MAX
        &&& self.ticks + ticks <= u64::MAX
    }

    /// Nothing read yet.
    pub fn new() -> (c: PassCounts)
        ensures
            c == PassCounts::none(),
    {
        PassCounts { bytes: 0, chunks: 0, ticks: 0 }
    }

    /// Books one more chunk.
    pub fn add_chunk(self, bytes: u64, ticks: u64) -> (c: PassCounts)
        requires
            self.room_for(bytes, ticks),
        ensures
            c == self.with(bytes, ticks),
    {
        PassCounts {
            bytes: self.bytes + bytes,
            chunks: self.chunks + 1,
            ticks: self.ticks + ticks,
        }
    }

    /// Whether one more chunk leaves every total within 64 bits.
    pub fn has_room_for(self, bytes: u64, ticks: u64) -> (r: bool)
        ensures
            r == self.room_for(bytes, ticks),
    {
        bytes <= u64::MAX - self.bytes && self.chunks < u64::MAX && ticks <= u64::MAX - self.ticks
    }
}

/// What a `read()` call returned.
#[derive(Debug, Clone, Copy, PartialEq, Eq, Structural)]
pub enum ReadReply {
    /// A chunk of this many bytes, read between two counter readings.
    Chunk { bytes: u64, start_ticks: u64, end_ticks: u64 },
    /// The end of the file.
    EndOfFile,
    /// A failure with this error number.
    Failed(i32),
}

/// Where a pass stands.
#[derive(Debug, Clone, Copy, PartialEq, Eq, Structural)]
pub enum Pass {
    /// More is to be read.
    Reading(PassCounts),
    /// The whole file was read.
    Complete(PassCounts),
    /// A read failed with this error number.
    Broken(i32),
}

impl Pass {
    /// Where the pass stands after a `read()` call. An interrupted read is tried
    /// again.
    pub open spec fn after(self, reply: ReadReply) -> Pass {
        match self {
            Pass::Reading(c) => match reply {
                ReadReply::Chunk { bytes, start_ticks, end_ticks } => Pass::Reading(
                    c.with(bytes, passed(start_ticks, end_ticks)),
                ),
                ReadReply::EndOfFile => Pass::Complete(c),
                ReadReply::Failed(n) => if n == EINTR {
                    self
                } else {
                    Pass::Broken(n)
                },
            },
            _ => self,
        }
    }

    /// Whether the totals have room for what a `read()` call returned.
    pub open spec fn room_for(self, reply: ReadReply) -> bool {
        match (self, reply) {
            (Pass::Reading(c), ReadReply::Chunk { bytes, start_ticks, end_ticks }) => c.room_for(
                bytes,
                passed(start_ticks, end_ticks),
            ),
            _ => true,
        }
    }

    /// Whether the totals have room for what a `read()` call returned.
    pub fn has_room_for(self, reply: ReadReply) -> (r: bool)
        ensures
            r == self.room_for(reply),
    {
        match (self, reply) {
            (Pass::Reading(c), ReadReply::Chunk { bytes, start_ticks, end_ticks }) => c.has_room_for(
                bytes,
                passed_between(start_ticks, end_ticks),
            ),
            _ => true,
        }
    }

    /// A pass that has read nothing yet.
    pub fn start() -> (p: Pass)
        ensures
            p == Pass::Reading(PassCounts::none()),
    {
        Pass::Reading(PassCounts::new())
    }

    /// Takes what a `read()` call returned.
    pub fn step(self, reply: ReadReply) -> (p: Pass)
        requires
            self.room_for(reply),
        ensures
            p == self.after(reply),
    {
        match self {
            Pass::Reading(c) => match reply {
                ReadReply::Chunk { bytes, start_ticks, end_ticks } => Pass::Reading(
                    c.add_chunk(bytes, passed_between(start_ticks, end_ticks)),
                ),
                ReadReply::EndOfFile => Pass::Complete(c),
                ReadReply::Failed(n) => if n == EINTR {
                    self
                } else {
                    Pass::Broken(n)
                },
            },
            _ => self,
        }
    }
}

} // verus!
