//! The block-size sweep: one file, read again and again at different block sizes
//! to find the size with the best throughput.
//!
//! A warm-up pass comes first, so that every point sees the same state of the
//! page cache.

use vstd::prelude::*;

use super::hardware_interrupt::{nanos_in, passed, passed_between, ticks_to_nanos, READ_CHUNK};
use super::pass::PassCounts;
use super::session::{contains_nul, has_nul, MeasureError, EINTR};
use crate::binary64::Binary64;
use crate::rate::{mib_per_second, mib_per_second_of};

verus! {

/// The block sizes that are swept by default: 4 KiB to 16 MiB.
pub const DEFAULT_SWEEP_SIZES: [usize; 7] = [
    4_096,
    16_384,
    65_536,
    262_144,
    1_048_576,
    4_194_304,
    16_777_216,
];

/// The measurement at one block size.
#[derive(Debug, Clone, Copy, PartialEq, Eq, Structural)]
pub struct SweepPoint {
    pub chunk_size: usize,
    pub bytes: u64,
    pub chunks: u64,
    pub wall_nanos: u64,
    pub avg_chunk_nanos: u64,
}

impl SweepPoint {
    /// The throughput in mebibytes per second.
    pub open spec fn rate(self) -> Binary64 {
        mib_per_second(self.bytes as nat, self.wall_nanos as nat)
    }

    /// The throughput in mebibytes per second.
    pub fn throughput_mib_s(&self) -> (r: Binary64)
        ensures
            r == self.rate(),
            r.moderate(),
            -110 <= r.exponent <= 24,
    {
        mib_per_second_of(self.bytes, self.wall_nanos)
    }
}

/// A finished sweep.
#[derive(Debug, Clone)]
pub struct SweepResult {
    pub path: String,
    pub size_bytes: u64,
    pub counter_hz: u64,
    /// Whether the page cache was bypassed.
    pub uncached: bool,
    pub points: Vec<SweepPoint>,
}

/// The point with the highest throughput; among equals, the last.
pub open spec fn is_best(points: Seq<SweepPoint>, i: int) -> bool {
    &&& 0 <= i < points.len()
    &&& forall|j: int|
        0 <= j < points.len() ==> !points[i].rate().below((#[trigger] points[j]).rate())
    &&& forall|j: int| i < j < points.len() ==> (#[trigger] points[j]).rate().below(points[i].rate())
}

/// The point with the highest throughput, if there is one.
pub open spec fn best_point(points: Seq<SweepPoint>) -> Option<SweepPoint> {
    if points.len() == 0 {
        None
    } else {
        Some(points[choose|i: int| is_best(points, i)])
    }
}

impl SweepResult {
    /// The block size with the highest measured throughput, if any.
    pub fn best(&self) -> (r: Option<&SweepPoint>)
        ensures
            r is None == (self.points@.len() == 0),
            r is Some ==> best_point(self.points@) == Some(*r->0),
            r is Some ==> exists|i: int| is_best(self.points@, i) && *r->0 == self.points@[i],
    {
        if self.points.len() == 0 {
            return None;
        }
        let ghost ps = self.points@;
        let mut best: usize = 0;
        let mut top = self.points[0].throughput_mib_s();
        for k in 1..self.points.len()
            invariant
                ps == self.points@,
                0 <= best < k <= ps.len(),
                top == ps[best as int].rate(),
                top.wf(),
                forall|j: int| 0 <= j < k ==> !top.below((#[trigger] ps[j]).rate()),
                forall|j: int| best < j < k ==> (#[trigger] ps[j]).rate().below(top),
        {
            let r = self.points[k].throughput_mib_s();
            if !r.less_than(top) {
                best = k;
                top = r;
            }
        }
        proof {
            assert(is_best(ps, best as int));
            let i = choose|i: int| is_best(ps, i);
            assert(i == best) by {
                if i < best {
                    assert(ps[best as int].rate().below(ps[i].rate()));
                }
                if best < i {
                    assert(ps[i].rate().below(ps[best as int].rate()));
                }
            }
        }
        Some(&self.points[best])
    }
}

impl SweepResult {
    /// Whether there is a point for each of the block sizes, in their order.
    pub open spec fn at_sizes(&self, sizes: Seq<usize>) -> bool {
        &&& self.points@.len() == sizes.len()
        &&& forall|i: int|
            0 <= i < sizes.len() ==> (#[trigger] self.points@[i]).chunk_size == block(sizes[i])
    }

    /// Whether there is a point for each of the default block sizes, in their order.
    pub fn is_default(&self) -> (r: bool)
        ensures
            r == self.at_sizes(DEFAULT_SWEEP_SIZES@),
    {
        if self.points.len() != 7 {
            return false;
        }
        for i in 0..7usize
            invariant
                self.points@.len() == 7,
                forall|j: int|
                    0 <= j < i ==> (#[trigger] self.points@[j]).chunk_size == block(
                        DEFAULT_SWEEP_SIZES@[j],
                    ),
        {
            let size = DEFAULT_SWEEP_SIZES[i];
            let used = if size == 0 {
                1
            } else {
                size
            };
            if self.points[i].chunk_size != used {
                return false;
            }
        }
        true
    }
}

/// The call that is due next.
#[derive(Debug, Clone, Copy, PartialEq, Eq, Structural)]
pub enum SweepAction {
    /// Open the file for reading.
    Open,
    /// Seek to the end: the position is the size.
    SeekEnd,
    /// Find the frequency of the hardware counter.
    Calibrate,
    /// Ask for reads that bypass the page cache.
    BypassCache,
    /// Read the hardware counter before a pass.
    StartPass,
    /// Seek back to the start.
    Rewind,
    /// Read a chunk, between two readings of the hardware counter.
    Read,
    /// Read the hardware counter after a pass.
    EndPass,
    /// Nothing: the sweep is over.
    Finish,
}

/// What a call returned.
#[derive(Debug, Clone, Copy, PartialEq, Eq, Structural)]
pub enum SweepEvent {
    /// The call succeeded with this value.
    Done(u64),
    /// The call failed with this error number.
    Failed(i32),
    /// A chunk of this many bytes was read between two counter readings.
    Chunk { bytes: u64, start_ticks: u64, end_ticks: u64 },
    /// The end of the file was reached.
    EndOfFile,
}

/// A sweep under way.
pub struct Sweep {
    path: String,
    uncached: bool,
    sizes: Vec<usize>,
    action: SweepAction,
    error: Option<MeasureError>,
    size_bytes: u64,
    counter_hz: u64,
    warm: bool,
    start_ticks: u64,
    counts: PassCounts,
    points: Vec<SweepPoint>,
}

/// The state of a sweep.
pub struct SweepState {
    pub path: Seq<char>,
    pub uncached: bool,
    pub sizes: Seq<usize>,
    pub action: SweepAction,
    pub error: Option<MeasureError>,
    pub size_bytes: u64,
    pub counter_hz: u64,
    /// Whether the warm-up pass is over.
    pub warm: bool,
    pub start_ticks: u64,
    pub counts: PassCounts,
    pub points: Seq<SweepPoint>,
}

/// A block size as it is used: at least one byte.
pub open spec fn block(size: usize) -> usize {
    if size == 0 {
        1
    } else {
        size
    }
}

impl SweepState {
    /// The state before the first call.
    pub open spec fn initial(path: Seq<char>, sizes: Seq<usize>, uncached: bool) -> SweepState {
        SweepState {
            path,
            uncached,
            sizes,
            action: SweepAction::Open,
            error: None,
            size_bytes: 0,
            counter_hz: 0,
            warm: false,
            start_ticks: 0,
            counts: PassCounts::none(),
            points: Seq::empty(),
        }
    }

    /// Whether every pass has been made.
    pub open spec fn complete(self) -> bool {
        self.warm && self.points.len() == self.sizes.len()
    }

    /// The block size of the pass that is under way.
    pub open spec fn chunk(self) -> usize {
        if self.warm {
            block(self.sizes[self.points.len() as int])
        } else {
            READ_CHUNK
        }
    }

    /// The state with another call due.
    pub open spec fn then_do(self, action: SweepAction) -> SweepState {
        SweepState { action, ..self }
    }

    /// The state after a call that ends the sweep by failing.
    pub open spec fn given_up(self, errno: i32) -> SweepState {
        SweepState { action: SweepAction::Finish, error: Some(MeasureError::Os(errno)), ..self }
    }

    /// The state before the next pass, or at the end.
    pub open spec fn next_pass(self) -> SweepState {
        SweepState {
            counts: PassCounts::none(),
            action: if self.complete() {
                SweepAction::Finish
            } else if self.uncached {
                SweepAction::BypassCache
            } else {
                SweepAction::StartPass
            },
            ..self
        }
    }

    /// The point that a finished pass amounts to.
    pub open spec fn point(self, end_ticks: u64) -> SweepPoint {
        SweepPoint {
            chunk_size: self.chunk(),
            bytes: self.counts.bytes,
            chunks: self.counts.chunks,
            wall_nanos: nanos_in(
                passed(self.start_ticks, end_ticks) as nat,
                self.counter_hz as nat,
            ) as u64,
            avg_chunk_nanos: (if self.counts.chunks > 0 {
                nanos_in((self.counts.ticks / self.counts.chunks) as nat, self.counter_hz as nat)
            } else {
                0
            }) as u64,
        }
    }

    /// The state after the reply to the call that was due. A reply that does not
    /// answer that call changes nothing.
    pub open spec fn after(self, event: SweepEvent) -> SweepState {
        match (self.action, event) {
            (SweepAction::Open, SweepEvent::Done(_)) => self.then_do(SweepAction::SeekEnd),
            (SweepAction::Open, SweepEvent::Failed(n)) => self.given_up(n),
            (SweepAction::SeekEnd, SweepEvent::Done(size)) => SweepState {
                size_bytes: size,
                action: SweepAction::Calibrate,
                ..self
            },
            (SweepAction::SeekEnd, SweepEvent::Failed(n)) => self.given_up(n),
            (SweepAction::Calibrate, SweepEvent::Done(hz)) => SweepState {
                counter_hz: hz,
                ..self
            }.next_pass(),
            // Bypassing the cache is best effort.
            (SweepAction::BypassCache, SweepEvent::Done(_)) => self.then_do(SweepAction::StartPass),
            (SweepAction::BypassCache, SweepEvent::Failed(_)) => self.then_do(
                SweepAction::StartPass,
            ),
            (SweepAction::StartPass, SweepEvent::Done(ticks)) => SweepState {
                start_ticks: ticks,
                action: SweepAction::Rewind,
                ..self
            },
            (SweepAction::Rewind, SweepEvent::Done(_)) => self.then_do(SweepAction::Read),
            (SweepAction::Rewind, SweepEvent::Failed(n)) => self.given_up(n),
            (SweepAction::Read, SweepEvent::Chunk { bytes, start_ticks, end_ticks }) => SweepState {
                counts: self.counts.with(bytes, passed(start_ticks, end_ticks)),
                ..self
            },
            (SweepAction::Read, SweepEvent::EndOfFile) => self.then_do(SweepAction::EndPass),
            (SweepAction::Read, SweepEvent::Failed(n)) => if n == EINTR {
                self
            } else {
                self.given_up(n)
            },
            (SweepAction::EndPass, SweepEvent::Done(ticks)) => if self.warm {
                SweepState { points: self.points.push(self.point(ticks)), ..self }.next_pass()
            } else {
                SweepState { warm: true, ..self }.next_pass()
            },
            _ => self,
        }
    }

    /// Whether a result is what a finished sweep amounts to.
    pub open spec fn measured(self, s: SweepResult) -> bool {
        &&& s.path@ == self.path
        &&& s.size_bytes == self.size_bytes
        &&& s.counter_hz == self.counter_hz
        &&& s.uncached == self.uncached
        &&& s.points@ == self.points
    }

    /// Whether the totals have room for a chunk that is due.
    pub open spec fn room_for(self, event: SweepEvent) -> bool {
        match event {
            SweepEvent::Chunk { bytes, start_ticks, end_ticks } => self.action == SweepAction::Read
                ==> self.counts.room_for(bytes, passed(start_ticks, end_ticks)),
            _ => true,
        }
    }

    /// What holds in every state: the points made so far belong to the first block
    /// sizes in order, and a sweep that ends without an error has made them all.
    pub open spec fn wf(self) -> bool {
        &&& self.points.len() <= self.sizes.len()
        &&& forall|i: int|
            0 <= i < self.points.len() ==> (#[trigger] self.points[i]).chunk_size == block(
                self.sizes[i],
            )
        &&& !self.warm ==> self.points.len() == 0
        &&& self.error is Some ==> self.action == SweepAction::Finish
        &&& self.action == SweepAction::Finish && self.error is None ==> self.complete()
        &&& self.warm && self.action != SweepAction::Finish ==> self.points.len()
            < self.sizes.len()
    }
}

impl View for Sweep {
    type V = SweepState;

    closed spec fn view(&self) -> SweepState {
        SweepState {
            path: self.path@,
            uncached: self.uncached,
            sizes: self.sizes@,
            action: self.action,
            error: self.error,
            size_bytes: self.size_bytes,
            counter_hz: self.counter_hz,
            warm: self.warm,
            start_ticks: self.start_ticks,
            counts: self.counts,
            points: self.points@,
        }
    }
}

/// Starts to sweep a file across the given block sizes.
pub fn sweep_file(path: &str, sizes: &[usize], uncached: bool) -> (r: Result<Sweep, MeasureError>)
    ensures
        has_nul(path@) ==> r == Err::<Sweep, MeasureError>(MeasureError::NulInPath),
        !has_nul(path@) ==> r is Ok && r->Ok_0@ == SweepState::initial(path@, sizes@, uncached)
            && r->Ok_0@.wf(),
{
    if contains_nul(path) {
        return Err(MeasureError::NulInPath);
    }
    let mut copy: Vec<usize> = Vec::new();
    for i in 0..sizes.len()
        invariant
            copy@ == sizes@.take(i as int),
    {
        copy.push(sizes[i]);
        assert(sizes@.take(i + 1) == sizes@.take(i as int).push(sizes@[i as int]));
    }
    assert(sizes@.take(sizes@.len() as int) == sizes@);
    Ok(
        Sweep {
            path: path.to_owned(),
            uncached,
            sizes: copy,
            action: SweepAction::Open,
            error: None,
            size_bytes: 0,
            counter_hz: 0,
            warm: false,
            start_ticks: 0,
            counts: PassCounts::new(),
            points: Vec::new(),
        },
    )
}

/// Starts to sweep a file across the default block sizes.
pub fn default_sweep(path: &str, uncached: bool) -> (r: Result<Sweep, MeasureError>)
    ensures
        has_nul(path@) ==> r == Err::<Sweep, MeasureError>(MeasureError::NulInPath),
        !has_nul(path@) ==> r is Ok && r->Ok_0@ == SweepState::initial(
            path@,
            DEFAULT_SWEEP_SIZES@,
            uncached,
        ) && r->Ok_0@.wf(),
{
    let sizes = DEFAULT_SWEEP_SIZES;
    sweep_file(path, sizes.as_slice(), uncached)
}

impl Sweep {
    /// The call that is due next.
    pub fn action(&self) -> (a: SweepAction)
        ensures
            a == self@.action,
    {
        self.action
    }

    /// The size of the read buffer for the pass that is under way.
    pub fn chunk_size(&self) -> (n: usize)
        requires
            self@.wf(),
            self@.action != SweepAction::Finish,
        ensures
            n == self@.chunk(),
            n > 0,
    {
        if self.warm {
            let n = self.sizes[self.points.len()];
            if n == 0 {
                1
            } else {
                n
            }
        } else {
            READ_CHUNK
        }
    }

    /// Whether the totals have room for a chunk.
    pub fn has_room_for(&self, event: SweepEvent) -> (r: bool)
        ensures
            r == self@.room_for(event),
    {
        match event {
            SweepEvent::Chunk { bytes, start_ticks, end_ticks } => self.action != SweepAction::Read
                || self.counts.has_room_for(bytes, passed_between(start_ticks, end_ticks)),
            _ => true,
        }
    }

    fn give_up(&mut self, errno: i32)
        ensures
            final(self)@ == old(self)@.given_up(errno),
    {
        self.action = SweepAction::Finish;
        self.error = Some(MeasureError::Os(errno));
    }

    fn next_pass(&mut self)
        ensures
            final(self)@ == old(self)@.next_pass(),
    {
        self.counts = PassCounts::new();
        self.action = if self.warm && self.points.len() == self.sizes.len() {
            SweepAction::Finish
        } else if self.uncached {
            SweepAction::BypassCache
        } else {
            SweepAction::StartPass
        };
    }

    /// Takes the reply to the call that was due.
    pub fn step(&mut self, event: SweepEvent)
        requires
            old(self)@.wf(),
            old(self)@.room_for(event),
        ensures
            final(self)@ == old(self)@.after(event),
            final(self)@.wf(),
    {
        match (self.action, event) {
            (SweepAction::Open, SweepEvent::Done(_)) => {
                self.action = SweepAction::SeekEnd;
            },
            (SweepAction::Open, SweepEvent::Failed(n)) => {
                self.give_up(n);
            },
            (SweepAction::SeekEnd, SweepEvent::Done(size)) => {
                self.size_bytes = size;
                self.action = SweepAction::Calibrate;
            },
            (SweepAction::SeekEnd, SweepEvent::Failed(n)) => {
                self.give_up(n);
            },
            (SweepAction::Calibrate, SweepEvent::Done(hz)) => {
                self.counter_hz = hz;
                self.next_pass();
            },
            (SweepAction::BypassCache, SweepEvent::Done(_)) => {
                self.action = SweepAction::StartPass;
            },
            (SweepAction::BypassCache, SweepEvent::Failed(_)) => {
                self.action = SweepAction::StartPass;
            },
            (SweepAction::StartPass, SweepEvent::Done(ticks)) => {
                self.start_ticks = ticks;
                self.action = SweepAction::Rewind;
            },
            (SweepAction::Rewind, SweepEvent::Done(_)) => {
                self.action = SweepAction::Read;
            },
            (SweepAction::Rewind, SweepEvent::Failed(n)) => {
                self.give_up(n);
            },
            (SweepAction::Read, SweepEvent::Chunk { bytes, start_ticks, end_ticks }) => {
                self.counts = self.counts.add_chunk(bytes, passed_between(start_ticks, end_ticks));
            },
            (SweepAction::Read, SweepEvent::EndOfFile) => {
                self.action = SweepAction::EndPass;
            },
            (SweepAction::Read, SweepEvent::Failed(n)) => {
                if n != EINTR {
                    self.give_up(n);
                }
            },
            (SweepAction::EndPass, SweepEvent::Done(ticks)) => {
                if self.warm {
                    let c = self.counts;
                    let point = SweepPoint {
                        chunk_size: self.chunk_size(),
                        bytes: c.bytes,
                        chunks: c.chunks,
                        wall_nanos: ticks_to_nanos(
                            passed_between(self.start_ticks, ticks),
                            self.counter_hz,
                        ),
                        avg_chunk_nanos: if c.chunks > 0 {
                            ticks_to_nanos(c.ticks / c.chunks, self.counter_hz)
                        } else {
                            0
                        },
                    };
                    self.points.push(point);
                } else {
                    self.warm = true;
                }
                self.next_pass();
            },
            _ => {},
        }
    }

    /// The result of a finished sweep, or the error that ended it.
    pub fn finish(self) -> (r: Result<SweepResult, MeasureError>)
        requires
            self@.wf(),
            self@.action == SweepAction::Finish,
        ensures
            self@.error is Some ==> r == Err::<SweepResult, MeasureError>(self@.error->0),
            self@.error is None ==> r is Ok,
            r matches Ok(s) ==> self@.measured(s) && s.at_sizes(self@.sizes),
    {
        if let Some(e) = self.error {
            return Err(e);
        }
        Ok(
            SweepResult {
                path: self.path,
                size_bytes: self.size_bytes,
                counter_hz: self.counter_hz,
                uncached: self.uncached,
                points: self.points,
            },
        )
    }
}

/// Every reply keeps a sweep in order: the points follow the block sizes, and an
/// end without an error means a point for every size.
pub proof fn law_a_sweep_makes_a_point_per_size(s: SweepState, event: SweepEvent)
    requires
        s.wf(),
        s.room_for(event),
    ensures
        s.after(event).wf(),
        s.after(event).sizes == s.sizes,
        s.after(event).action == SweepAction::Finish && s.after(event).error is None
            ==> s.after(event).points.len() == s.sizes.len(),
{
}

/// Bypassing the cache is best effort: a sweep goes on in the same way whether
/// the system does it or not.
pub proof fn law_bypassing_the_cache_is_best_effort(s: SweepState, value: u64, errno: i32)
    requires
        s.action == SweepAction::BypassCache,
    ensures
        s.after(SweepEvent::Failed(errno)) == s.after(SweepEvent::Done(value)),
{
}

} // verus!
