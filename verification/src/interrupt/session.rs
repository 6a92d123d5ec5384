//! Measuring one file, as a conversation with the operating system.
//!
//! A [`Session`] says which call is due next and is told what it returned. It
//! decides what the reply means: go on, try again, give up, take a snapshot. The
//! hardware timer interrupt sets the cadence of the snapshots: a chunk that was
//! read after the timer fired carries the interrupt with it.

use vstd::prelude::*;

use super::hardware_interrupt::{
    arm_timer, arming, bucket_of, counted, latency_bucket, nanos_in, passed, passed_between,
    ticks_to_nanos, FileMeasurement, Progress, Sample, SampleInterval, Timeval, LATENCY_BUCKETS,
};
use crate::text::chars_of;

verus! {

/// The error number of a call that a signal interrupted.
pub const EINTR: i32 = 4;

/// Why a file could not be measured.
#[derive(Debug, Clone, Copy, PartialEq, Eq, Structural)]
pub enum MeasureError {
    /// Another measurement holds the timer.
    Busy,
    /// The path contains a NUL byte.
    NulInPath,
    /// A system call failed with this error number.
    Os(i32),
}

impl MeasureError {
    /// What the error says; a failed system call is described by the system.
    pub open spec fn text(self) -> Option<Seq<char>> {
        match self {
            MeasureError::Busy => Some("another measurement is already in progress"@),
            MeasureError::NulInPath => Some("path contains a NUL byte"@),
            MeasureError::Os(_) => None,
        }
    }

    /// The message of an error that is not the system's.
    pub fn message(self) -> (r: Option<&'static str>)
        ensures
            r is Some == self.text() is Some,
            r is Some ==> r->0@ == self.text()->0,
    {
        match self {
            MeasureError::Busy => Some("another measurement is already in progress"),
            MeasureError::NulInPath => Some("path contains a NUL byte"),
            MeasureError::Os(_) => None,
        }
    }
}

/// The call that is due next.
#[derive(Debug, Clone, Copy, PartialEq, Eq, Structural)]
pub enum Action {
    /// Open the file for reading.
    Open,
    /// Ask for reads that bypass the page cache.
    BypassCache,
    /// Seek to the end: the position is the size.
    SeekEnd,
    /// Seek back to the start.
    Rewind,
    /// Find the frequency of the hardware counter.
    Calibrate,
    /// Install the handler of the timer's signal, its counters at zero.
    InstallHandler,
    /// Arm the timer.
    ArmTimer,
    /// Read the clock for the first time.
    StartClock,
    /// Read a chunk, between two readings of the hardware counter.
    Read,
    /// Disarm the timer and count its interrupts.
    Disarm,
    /// Nothing: the measurement is over.
    Finish,
}

/// A timer interrupt that was pending when a chunk had been read.
#[derive(Debug, Clone, Copy, PartialEq, Eq, Structural)]
pub struct Interrupt {
    /// The clock when the snapshot was taken.
    pub now: u64,
    /// How many interrupts had fired by then.
    pub index: u64,
}

/// What a call returned.
#[derive(Debug, Clone, Copy, PartialEq, Eq, Structural)]
pub enum Event {
    /// The call succeeded with this value.
    Done(u64),
    /// The call failed with this error number.
    Failed(i32),
    /// A chunk of this many bytes was read between two counter readings.
    Chunk { bytes: u64, start_ticks: u64, end_ticks: u64, interrupt: Option<Interrupt> },
    /// The end of the file was reached, at this time of the clock.
    EndOfFile { now: u64 },
}

/// The running totals of a measurement.
#[derive(Debug, Clone, Copy, PartialEq, Eq, Structural)]
pub struct Counts {
    pub bytes_read: u64,
    pub read_ticks: u64,
    pub chunk_count: u64,
    pub min_chunk_ticks: u64,
    pub max_chunk_ticks: u64,
}

impl Counts {
    /// The totals before the first chunk.
    pub open spec fn none() -> Counts {
        Counts {
            bytes_read: 0,
            read_ticks: 0,
            chunk_count: 0,
            min_chunk_ticks: u64::MAX,
            max_chunk_ticks: 0,
        }
    }

    /// The totals after one more chunk.
    pub open spec fn with(self, bytes: u64, ticks: u64) -> Counts {
        Counts {
            bytes_read: (self.bytes_read + bytes) as u64,
            read_ticks: (self.read_ticks + ticks) as u64,
            chunk_count: (self.chunk_count + 1) as u64,
            min_chunk_ticks: if ticks < self.min_chunk_ticks {
                ticks
            } else {
                self.min_chunk_ticks
            },
            max_chunk_ticks: if ticks > self.max_chunk_ticks {
                ticks
            } else {
                self.max_chunk_ticks
            },
        }
    }

    /// Whether the extremes enclose the chunks: no chunk took less than the least
    /// time or more than the most.
    pub open spec fn enclosed(self) -> bool {
        &&& self.min_chunk_ticks <= self.max_chunk_ticks <= self.read_ticks
        &&& self.chunk_count * self.min_chunk_ticks <= self.read_ticks
        &&& self.read_ticks <= self.chunk_count * self.max_chunk_ticks
    }

    /// Whether one more chunk leaves every total within 64 bits.
    pub open spec fn room_for(self, bytes: u64, ticks: u64) -> bool {
        &&& self.bytes_read + bytes <= u64::MAX
        &&& self.read_ticks + ticks <= u64::MAX
        &&& self.chunk_count + 1 <= u64::MAX
    }
}

/// A measurement under way.
pub struct Session {
    path: String,
    uncached: bool,
    timer: Timeval,
    action: Action,
    error: Option<MeasureError>,
    size_bytes: u64,
    counter_hz: u64,
    start_nanos: u64,
    wall_nanos: u64,
    timer_interrupts: u64,
    counts: Counts,
    latency_buckets: [u64; LATENCY_BUCKETS],
    samples: Vec<Sample>,
}

/// The state of a measurement.
pub struct SessionState {
    pub path: Seq<char>,
    pub uncached: bool,
    pub timer: Timeval,
    pub action: Action,
    pub error: Option<MeasureError>,
    pub size_bytes: u64,
    pub counter_hz: u64,
    pub start_nanos: u64,
    pub wall_nanos: u64,
    pub timer_interrupts: u64,
    pub counts: Counts,
    pub latency_buckets: Seq<u64>,
    pub samples: Seq<Sample>,
}

impl SessionState {
    /// The state before the first call.
    pub open spec fn initial(path: Seq<char>, interval: SampleInterval, uncached: bool) -> SessionState {
        SessionState {
            path,
            uncached,
            timer: arming(interval),
            action: Action::Open,
            error: None,
            size_bytes: 0,
            counter_hz: 0,
            start_nanos: 0,
            wall_nanos: 0,
            timer_interrupts: 0,
            counts: Counts::none(),
            latency_buckets: Seq::new(14, |i: int| 0u64),
            samples: Seq::empty(),
        }
    }

    /// The state with another call due.
    pub open spec fn then_do(self, action: Action) -> SessionState {
        SessionState { action, ..self }
    }

    /// The state after a call that ends the measurement by failing.
    pub open spec fn given_up(self, errno: i32) -> SessionState {
        SessionState { action: Action::Finish, error: Some(MeasureError::Os(errno)), ..self }
    }

    /// The bucket for a chunk that took `ticks`.
    pub open spec fn slot(self, ticks: u64) -> int {
        bucket_of(nanos_in(ticks as nat, self.counter_hz as nat)) as int
    }

    /// The snapshot that a pending interrupt calls for.
    pub open spec fn snapshot(self, i: Interrupt) -> Sample {
        Sample {
            at_nanos: passed(self.start_nanos, i.now),
            bytes: self.counts.bytes_read,
            interrupt_index: i.index,
        }
    }

    /// The state after a chunk, its interrupt aside.
    pub open spec fn tallied(self, bytes: u64, ticks: u64) -> SessionState {
        SessionState {
            counts: self.counts.with(bytes, ticks),
            latency_buckets: self.latency_buckets.update(
                self.slot(ticks),
                (self.latency_buckets[self.slot(ticks)] + 1) as u64,
            ),
            ..self
        }
    }

    /// The state after the reply to the call that was due. A reply that does not
    /// answer that call changes nothing.
    pub open spec fn after(self, event: Event) -> SessionState {
        match (self.action, event) {
            (Action::Open, Event::Done(_)) => self.then_do(
                if self.uncached {
                    Action::BypassCache
                } else {
                    Action::SeekEnd
                },
            ),
            (Action::Open, Event::Failed(n)) => self.given_up(n),
            // Bypassing the cache is best effort.
            (Action::BypassCache, Event::Done(_)) => self.then_do(Action::SeekEnd),
            (Action::BypassCache, Event::Failed(_)) => self.then_do(Action::SeekEnd),
            (Action::SeekEnd, Event::Done(size)) => SessionState {
                size_bytes: size,
                action: Action::Rewind,
                ..self
            },
            (Action::SeekEnd, Event::Failed(n)) => self.given_up(n),
            (Action::Rewind, Event::Done(_)) => self.then_do(Action::Calibrate),
            (Action::Rewind, Event::Failed(n)) => self.given_up(n),
            (Action::Calibrate, Event::Done(hz)) => SessionState {
                counter_hz: hz,
                action: Action::InstallHandler,
                ..self
            },
            (Action::InstallHandler, Event::Done(_)) => self.then_do(Action::ArmTimer),
            (Action::InstallHandler, Event::Failed(n)) => self.given_up(n),
            (Action::ArmTimer, Event::Done(_)) => self.then_do(Action::StartClock),
            (Action::ArmTimer, Event::Failed(n)) => self.given_up(n),
            (Action::StartClock, Event::Done(now)) => SessionState {
                start_nanos: now,
                action: Action::Read,
                ..self
            },
            (Action::Read, Event::Chunk { bytes, start_ticks, end_ticks, interrupt }) => {
                let s = self.tallied(bytes, passed(start_ticks, end_ticks));
                match interrupt {
                    None => s,
                    Some(i) => SessionState { samples: s.samples.push(s.snapshot(i)), ..s },
                }
            },
            (Action::Read, Event::EndOfFile { now }) => SessionState {
                wall_nanos: passed(self.start_nanos, now),
                action: Action::Disarm,
                ..self
            },
            (Action::Read, Event::Failed(n)) => if n == EINTR {
                self
            } else {
                SessionState { action: Action::Disarm, error: Some(MeasureError::Os(n)), ..self }
            },
            (Action::Disarm, Event::Done(fired)) => SessionState {
                timer_interrupts: fired,
                action: Action::Finish,
                ..self
            },
            _ => self,
        }
    }

    /// Whether the totals have room for a chunk that is due.
    pub open spec fn room_for(self, event: Event) -> bool {
        match event {
            Event::Chunk { bytes, start_ticks, end_ticks, .. } => self.action == Action::Read
                ==> self.counts.room_for(bytes, passed(start_ticks, end_ticks)),
            _ => true,
        }
    }

    /// The progress to show after a reply: there is some when a chunk came with an
    /// interrupt.
    pub open spec fn progress(self, event: Event) -> Option<Progress> {
        match event {
            Event::Chunk { bytes, interrupt: Some(i), .. } if self.action == Action::Read => Some(
                Progress {
                    bytes_read: (self.counts.bytes_read + bytes) as u64,
                    size_bytes: self.size_bytes,
                    elapsed_nanos: passed(self.start_nanos, i.now),
                    interrupt_index: i.index,
                },
            ),
            _ => None,
        }
    }

    /// Whether the timer is armed, so that it has to be disarmed.
    pub open spec fn armed(self) -> bool {
        self.action == Action::StartClock || self.action == Action::Read || self.action
            == Action::Disarm
    }

    /// What holds in every state: each chunk is in exactly one bucket, the extremes
    /// enclose the chunks, and there is no more than one sample per chunk; the
    /// samples never go back.
    pub open spec fn wf(self) -> bool {
        let c = self.counts;
        &&& self.latency_buckets.len() == 14
        &&& counted(self.latency_buckets, 14) == c.chunk_count
        &&& c.chunk_count == 0 ==> c == Counts::none()
        &&& self.samples.len() <= c.chunk_count
        &&& c.chunk_count > 0 ==> c.enclosed()
        &&& forall|i: int|
            0 <= i < self.samples.len() ==> (#[trigger] self.samples[i]).bytes <= c.bytes_read
        &&& forall|i: int, j: int|
            0 <= i <= j < self.samples.len() ==> (#[trigger] self.samples[i]).bytes <= (
            #[trigger] self.samples[j]).bytes
        &&& self.error is Some ==> self.action == Action::Disarm || self.action == Action::Finish
    }

    /// The measurement that a finished session amounts to.
    pub open spec fn measured(self, m: FileMeasurement) -> bool {
        &&& m.path@ == self.path
        &&& m.size_bytes == self.size_bytes
        &&& m.bytes_read == self.counts.bytes_read
        &&& m.wall_nanos == self.wall_nanos
        &&& m.read_ticks == self.counts.read_ticks
        &&& m.chunk_count == self.counts.chunk_count
        &&& m.min_chunk_ticks == if self.counts.chunk_count == 0 {
            0
        } else {
            self.counts.min_chunk_ticks
        }
        &&& m.max_chunk_ticks == self.counts.max_chunk_ticks
        &&& m.timer_interrupts == self.timer_interrupts
        &&& m.counter_hz == self.counter_hz
        &&& m.uncached == self.uncached
        &&& m.samples@ == self.samples
        &&& m.latency_buckets@ == self.latency_buckets
    }
}

impl View for Session {
    type V = SessionState;

    closed spec fn view(&self) -> SessionState {
        SessionState {
            path: self.path@,
            uncached: self.uncached,
            timer: self.timer,
            action: self.action,
            error: self.error,
            size_bytes: self.size_bytes,
            counter_hz: self.counter_hz,
            start_nanos: self.start_nanos,
            wall_nanos: self.wall_nanos,
            timer_interrupts: self.timer_interrupts,
            counts: self.counts,
            latency_buckets: self.latency_buckets@,
            samples: self.samples@,
        }
    }
}

/// Whether a text contains a NUL character.
pub open spec fn has_nul(s: Seq<char>) -> bool {
    exists|i: int| 0 <= i < s.len() && #[trigger] s[i] == '\0'
}

/// Whether `s` contains a NUL character.
pub fn contains_nul(s: &str) -> (r: bool)
    ensures
        r == has_nul(s@),
{
    let v = chars_of(s);
    for i in 0..v.len()
        invariant
            v@ == s@,
            forall|j: int| 0 <= j < i ==> #[trigger] v@[j] != '\0',
    {
        if v[i] == '\0' {
            assert(s@[i as int] == '\0');
            return true;
        }
    }
    false
}

/// Starts to measure a file through the page cache. `busy` says whether another
/// measurement holds the timer.
pub fn measure_file(path: &str, sample_interval: SampleInterval, busy: bool) -> (r: Result<
    Session,
    MeasureError,
>)
    ensures
        busy ==> r == Err::<Session, MeasureError>(MeasureError::Busy),
        !busy && has_nul(path@) ==> r == Err::<Session, MeasureError>(MeasureError::NulInPath),
        !busy && !has_nul(path@) ==> r is Ok && r->Ok_0@ == SessionState::initial(
            path@,
            sample_interval,
            false,
        ) && r->Ok_0@.wf(),
{
    measure_file_with(path, sample_interval, false, busy)
}

/// Starts to measure a file, by choice past the page cache.
pub fn measure_file_with(
    path: &str,
    sample_interval: SampleInterval,
    uncached: bool,
    busy: bool,
) -> (r: Result<Session, MeasureError>)
    ensures
        busy ==> r == Err::<Session, MeasureError>(MeasureError::Busy),
        !busy && has_nul(path@) ==> r == Err::<Session, MeasureError>(MeasureError::NulInPath),
        !busy && !has_nul(path@) ==> r is Ok && r->Ok_0@ == SessionState::initial(
            path@,
            sample_interval,
            uncached,
        ) && r->Ok_0@.wf(),
{
    if busy {
        return Err(MeasureError::Busy);
    }
    if contains_nul(path) {
        return Err(MeasureError::NulInPath);
    }
    let s = Session {
        path: path.to_owned(),
        uncached,
        timer: arm_timer(sample_interval),
        action: Action::Open,
        error: None,
        size_bytes: 0,
        counter_hz: 0,
        start_nanos: 0,
        wall_nanos: 0,
        timer_interrupts: 0,
        counts: Counts {
            bytes_read: 0,
            read_ticks: 0,
            chunk_count: 0,
            min_chunk_ticks: u64::MAX,
            max_chunk_ticks: 0,
        },
        latency_buckets: [0u64;LATENCY_BUCKETS],
        samples: Vec::new(),
    };
    proof {
        assert(s@.latency_buckets == Seq::new(14, |i: int| 0u64));
        lemma_counted_zero(s@.latency_buckets, 14);
    }
    Ok(s)
}

proof fn lemma_still_enclosed(c: Counts, bytes: u64, ticks: u64)
    requires
        c.room_for(bytes, ticks),
        c.chunk_count == 0 ==> c == Counts::none(),
        c.chunk_count > 0 ==> c.enclosed(),
    ensures
        c.with(bytes, ticks).enclosed(),
{
    let d = c.with(bytes, ticks);
    let n = c.chunk_count as int;
    let low = d.min_chunk_ticks as int;
    let high = d.max_chunk_ticks as int;
    if n > 0 {
        assert(n * low <= n * c.min_chunk_ticks) by (nonlinear_arith)
            requires
                n > 0,
                low <= c.min_chunk_ticks,
        ;
        assert(n * c.max_chunk_ticks <= n * high) by (nonlinear_arith)
            requires
                n > 0,
                c.max_chunk_ticks <= high,
        ;
    }
    assert((n + 1) * low == n * low + low) by (nonlinear_arith);
    assert((n + 1) * high == n * high + high) by (nonlinear_arith);
    if n == 0 {
        assert(n * low == 0 && n * high == 0);
    }
}

proof fn lemma_counted_zero(b: Seq<u64>, n: int)
    requires
        forall|i: int| 0 <= i < b.len() ==> #[trigger] b[i] == 0,
        0 <= n <= b.len(),
    ensures
        counted(b, n) == 0,
    decreases n,
{
    if n > 0 {
        lemma_counted_zero(b, n - 1);
    }
}

proof fn lemma_counted_update(b: Seq<u64>, i: int, v: u64, n: int)
    requires
        0 <= i < b.len(),
        0 <= n <= b.len(),
    ensures
        counted(b.update(i, v), n) == counted(b, n) + (if i < n { v - b[i] } else { 0 }),
    decreases n,
{
    if n > 0 {
        lemma_counted_update(b, i, v, n - 1);
    }
}

proof fn lemma_count_at_most(b: Seq<u64>, i: int, n: int)
    requires
        0 <= i < n <= b.len(),
    ensures
        b[i] <= counted(b, n),
    decreases n,
{
    if i < n - 1 {
        lemma_count_at_most(b, i, n - 1);
    }
}

impl Session {
    /// The call that is due next.
    pub fn action(&self) -> (a: Action)
        ensures
            a == self@.action,
    {
        self.action
    }

    /// The setting to arm the timer with.
    pub fn timer(&self) -> (t: Timeval)
        ensures
            t == self@.timer,
    {
        self.timer
    }

    /// Whether the totals have room for a chunk.
    pub fn has_room_for(&self, event: Event) -> (r: bool)
        ensures
            r == self@.room_for(event),
    {
        match event {
            Event::Chunk { bytes, start_ticks, end_ticks, .. } => {
                if self.action == Action::Read {
                    let ticks = passed_between(start_ticks, end_ticks);
                    bytes <= u64::MAX - self.counts.bytes_read && ticks <= u64::MAX
                        - self.counts.read_ticks && self.counts.chunk_count < u64::MAX
                } else {
                    true
                }
            },
            _ => true,
        }
    }

    /// Takes the reply to the call that was due, and returns the progress to show.
    pub fn step(&mut self, event: Event) -> (r: Option<Progress>)
        requires
            old(self)@.wf(),
            old(self)@.room_for(event),
        ensures
            final(self)@ == old(self)@.after(event),
            final(self)@.wf(),
            r == old(self)@.progress(event),
    {
        match (self.action, event) {
            (Action::Open, Event::Done(_)) => {
                self.action = if self.uncached {
                    Action::BypassCache
                } else {
                    Action::SeekEnd
                };
            },
            (Action::BypassCache, Event::Done(_)) => {
                self.action = Action::SeekEnd;
            },
            (Action::BypassCache, Event::Failed(_)) => {
                self.action = Action::SeekEnd;
            },
            (Action::SeekEnd, Event::Done(size)) => {
                self.size_bytes = size;
                self.action = Action::Rewind;
            },
            (Action::Rewind, Event::Done(_)) => {
                self.action = Action::Calibrate;
            },
            (Action::Calibrate, Event::Done(hz)) => {
                self.counter_hz = hz;
                self.action = Action::InstallHandler;
            },
            (Action::InstallHandler, Event::Done(_)) => {
                self.action = Action::ArmTimer;
            },
            (Action::ArmTimer, Event::Done(_)) => {
                self.action = Action::StartClock;
            },
            (Action::Open, Event::Failed(n)) => {
                self.give_up(n);
            },
            (Action::SeekEnd, Event::Failed(n)) => {
                self.give_up(n);
            },
            (Action::Rewind, Event::Failed(n)) => {
                self.give_up(n);
            },
            (Action::InstallHandler, Event::Failed(n)) => {
                self.give_up(n);
            },
            (Action::ArmTimer, Event::Failed(n)) => {
                self.give_up(n);
            },
            (Action::StartClock, Event::Done(now)) => {
                self.start_nanos = now;
                self.action = Action::Read;
            },
            (Action::Read, Event::Chunk { bytes, start_ticks, end_ticks, interrupt }) => {
                return self.chunk(bytes, passed_between(start_ticks, end_ticks), interrupt);
            },
            (Action::Read, Event::EndOfFile { now }) => {
                self.wall_nanos = passed_between(self.start_nanos, now);
                self.action = Action::Disarm;
            },
            (Action::Read, Event::Failed(n)) => {
                if n != EINTR {
                    self.action = Action::Disarm;
                    self.error = Some(MeasureError::Os(n));
                }
            },
            (Action::Disarm, Event::Done(fired)) => {
                self.timer_interrupts = fired;
                self.action = Action::Finish;
            },
            _ => {},
        }
        None
    }

    fn give_up(&mut self, errno: i32)
        ensures
            final(self)@ == old(self)@.given_up(errno),
    {
        self.action = Action::Finish;
        self.error = Some(MeasureError::Os(errno));
    }

    /// Books a chunk, and takes a snapshot if an interrupt was pending.
    fn chunk(&mut self, bytes: u64, ticks: u64, interrupt: Option<Interrupt>) -> (r: Option<Progress>)
        requires
            old(self)@.wf(),
            old(self)@.action == Action::Read,
            old(self)@.counts.room_for(bytes, ticks),
        ensures
            ({
                let s = old(self)@.tallied(bytes, ticks);
                final(self)@ == match interrupt {
                    None => s,
                    Some(i) => SessionState { samples: s.samples.push(s.snapshot(i)), ..s },
                }
            }),
            final(self)@.wf(),
            match interrupt {
                None => r is None,
                Some(i) => r == Some(
                    Progress {
                        bytes_read: (old(self)@.counts.bytes_read + bytes) as u64,
                        size_bytes: old(self)@.size_bytes,
                        elapsed_nanos: passed(old(self)@.start_nanos, i.now),
                        interrupt_index: i.index,
                    },
                ),
            },
    {
        let c = self.counts;
        let slot = latency_bucket(ticks_to_nanos(ticks, self.counter_hz));
        proof {
            lemma_still_enclosed(c, bytes, ticks);
            lemma_count_at_most(self.latency_buckets@, slot as int, 14);
            lemma_counted_update(
                self.latency_buckets@,
                slot as int,
                (self.latency_buckets@[slot as int] + 1) as u64,
                14,
            );
        }
        self.counts = Counts {
            bytes_read: c.bytes_read + bytes,
            read_ticks: c.read_ticks + ticks,
            chunk_count: c.chunk_count + 1,
            min_chunk_ticks: if ticks < c.min_chunk_ticks { ticks } else { c.min_chunk_ticks },
            max_chunk_ticks: if ticks > c.max_chunk_ticks { ticks } else { c.max_chunk_ticks },
        };
        self.latency_buckets[slot] = self.latency_buckets[slot] + 1;
        match interrupt {
            None => None,
            Some(i) => {
                let at = passed_between(self.start_nanos, i.now);
                self.samples.push(
                    Sample {
                        at_nanos: at,
                        bytes: self.counts.bytes_read,
                        interrupt_index: i.index,
                    },
                );
                Some(
                    Progress {
                        bytes_read: self.counts.bytes_read,
                        size_bytes: self.size_bytes,
                        elapsed_nanos: at,
                        interrupt_index: i.index,
                    },
                )
            },
        }
    }

    /// The result of a finished session: the measurement, or the error that ended
    /// it.
    pub fn finish(self) -> (r: Result<FileMeasurement, MeasureError>)
        requires
            self@.wf(),
            self@.action == Action::Finish,
        ensures
            self@.error is Some ==> r == Err::<FileMeasurement, MeasureError>(self@.error->0),
            self@.error is None ==> r is Ok && self@.measured(r->Ok_0) && r->Ok_0.enclosed(),
    {
        if let Some(e) = self.error {
            return Err(e);
        }
        Ok(
            FileMeasurement {
                path: self.path,
                size_bytes: self.size_bytes,
                bytes_read: self.counts.bytes_read,
                wall_nanos: self.wall_nanos,
                read_ticks: self.counts.read_ticks,
                chunk_count: self.counts.chunk_count,
                min_chunk_ticks: if self.counts.chunk_count == 0 {
                    0
                } else {
                    self.counts.min_chunk_ticks
                },
                max_chunk_ticks: self.counts.max_chunk_ticks,
                timer_interrupts: self.timer_interrupts,
                counter_hz: self.counter_hz,
                uncached: self.uncached,
                samples: self.samples,
                latency_buckets: self.latency_buckets,
            },
        )
    }
}

// ── what holds of every run ─────────────────────────────────────────────────

/// The state after a series of replies.
pub open spec fn run(s: SessionState, events: Seq<Event>) -> SessionState
    decreases events.len(),
{
    if events.len() == 0 {
        s
    } else {
        run(s, events.drop_last()).after(events.last())
    }
}

/// Whether the totals have room for every chunk of a series of replies.
pub open spec fn roomy(s: SessionState, events: Seq<Event>) -> bool
    decreases events.len(),
{
    events.len() > 0 ==> roomy(s, events.drop_last()) && run(s, events.drop_last()).room_for(
        events.last(),
    )
}

/// The bytes of the chunks in a series of replies.
pub open spec fn chunk_bytes(s: SessionState, events: Seq<Event>) -> nat
    decreases events.len(),
{
    if events.len() == 0 {
        0
    } else {
        chunk_bytes(s, events.drop_last()) + match events.last() {
            Event::Chunk { bytes, .. } => if run(s, events.drop_last()).action == Action::Read {
                bytes as nat
            } else {
                0
            },
            _ => 0,
        }
    }
}

proof fn lemma_after_wf(s: SessionState, event: Event)
    requires
        s.wf(),
        s.room_for(event),
    ensures
        s.after(event).wf(),
{
    if let Event::Chunk { bytes, start_ticks, end_ticks, interrupt } = event {
        if s.action == Action::Read {
            let ticks = passed(start_ticks, end_ticks);
            let b = s.latency_buckets;
            lemma_still_enclosed(s.counts, bytes, ticks);
            lemma_slot_in_range(s, ticks);
            let slot = s.slot(ticks);
            lemma_count_at_most(b, slot, 14);
            lemma_counted_update(b, slot, (b[slot] + 1) as u64, 14);
        }
    }
}

proof fn lemma_slot_in_range(s: SessionState, ticks: u64)
    ensures
        0 <= s.slot(ticks) < 14,
{
    let n = nanos_in(ticks as nat, s.counter_hz as nat);
    super::hardware_interrupt::lemma_bucket_exists(n);
}

/// Every measured chunk lands in exactly one bucket: in whatever order the
/// system replies, the histogram adds up to the number of chunks.
pub proof fn law_every_chunk_lands_in_one_bucket(s: SessionState, events: Seq<Event>)
    requires
        s.wf(),
        roomy(s, events),
    ensures
        run(s, events).wf(),
        counted(run(s, events).latency_buckets, 14) == run(s, events).counts.chunk_count,
    decreases events.len(),
{
    if events.len() > 0 {
        law_every_chunk_lands_in_one_bucket(s, events.drop_last());
        lemma_after_wf(run(s, events.drop_last()), events.last());
    }
}

/// A measurement counts every byte that was read, and no other.
pub proof fn law_every_byte_is_counted(s: SessionState, events: Seq<Event>)
    requires
        roomy(s, events),
    ensures
        run(s, events).counts.bytes_read == s.counts.bytes_read + chunk_bytes(s, events),
    decreases events.len(),
{
    if events.len() > 0 {
        law_every_byte_is_counted(s, events.drop_last());
    }
}

proof fn lemma_armed_or_over(s: SessionState, events: Seq<Event>)
    requires
        s.armed(),
    ensures
        run(s, events).armed() || run(s, events).action == Action::Finish,
    decreases events.len(),
{
    if events.len() > 0 {
        lemma_armed_or_over(s, events.drop_last());
    }
}

/// Once the timer is armed, a measurement that ends has disarmed it, whatever the
/// replies were.
pub proof fn law_the_timer_is_always_disarmed(s: SessionState, events: Seq<Event>)
    requires
        s.armed(),
        run(s, events).action == Action::Finish,
    ensures
        exists|k: int|
            0 <= k < events.len() && run(s, #[trigger] events.take(k)).action == Action::Disarm
                && events[k] is Done,
    decreases events.len(),
{
    let n = events.len() - 1;
    let before = events.drop_last();
    assert(before == events.take(n));
    if run(s, before).action == Action::Finish {
        law_the_timer_is_always_disarmed(s, before);
        let k = choose|k: int|
            0 <= k < before.len() && run(s, #[trigger] before.take(k)).action == Action::Disarm
                && before[k] is Done;
        assert(events.take(k) == before.take(k));
        assert(events[k] == before[k]);
    } else {
        lemma_armed_or_over(s, before);
        assert(run(s, events.take(n)).action == Action::Disarm && events[n] is Done);
    }
}

/// Bypassing the cache is best effort: a measurement goes on in the same way
/// whether the system does it or not.
pub proof fn law_bypassing_the_cache_is_best_effort(s: SessionState, value: u64, errno: i32)
    requires
        s.action == Action::BypassCache,
    ensures
        s.after(Event::Failed(errno)) == s.after(Event::Done(value)),
{
}

/// Whether every chunk in a series of replies has at least one byte.
pub open spec fn chunks_have_bytes(events: Seq<Event>) -> bool {
    forall|k: int|
        0 <= k < events.len() ==> (#[trigger] events[k] matches Event::Chunk { bytes, .. } ==> bytes
            >= 1)
}

/// Whether the samples rise: each has at least one byte, and more than the one
/// before.
pub open spec fn samples_rise(samples: Seq<Sample>) -> bool {
    &&& forall|i: int| 0 <= i < samples.len() ==> (#[trigger] samples[i]).bytes >= 1
    &&& forall|i: int, j: int|
        0 <= i < j < samples.len() ==> (#[trigger] samples[i]).bytes < (#[trigger] samples[j]).bytes
}

/// Where every chunk has at least one byte, the samples of a measurement rise: each
/// tells of more bytes than the one before, the first of at least one, and none of
/// more than was read. There is no more than one sample per chunk.
pub proof fn law_samples_rise(s: SessionState, events: Seq<Event>)
    requires
        s.wf(),
        samples_rise(s.samples),
        roomy(s, events),
        chunks_have_bytes(events),
    ensures
        samples_rise(run(s, events).samples),
        run(s, events).samples.len() <= run(s, events).counts.chunk_count,
        forall|i: int|
            0 <= i < run(s, events).samples.len() ==> (#[trigger] run(s, events).samples[i]).bytes
                <= run(s, events).counts.bytes_read,
    decreases events.len(),
{
    law_every_chunk_lands_in_one_bucket(s, events);
    if events.len() > 0 {
        let before = events.drop_last();
        assert(chunks_have_bytes(before)) by {
            assert forall|k: int| 0 <= k < before.len() implies (
            #[trigger] before[k] matches Event::Chunk { bytes, .. } ==> bytes >= 1) by {
                assert(before[k] == events[k]);
            }
        }
        law_samples_rise(s, before);
        assert(events.last() == events[events.len() - 1]);
    }
}

/// A read that a signal interrupted is simply tried again.
pub proof fn law_an_interrupted_read_is_tried_again(s: SessionState)
    requires
        s.action == Action::Read,
    ensures
        s.after(Event::Failed(EINTR)) == s,
{
}

/// Once a measurement is over, no reply changes it.
pub proof fn law_a_finished_session_stays_as_it_is(s: SessionState, event: Event)
    requires
        s.action == Action::Finish,
    ensures
        s.after(event) == s,
{
}

} // verus!
