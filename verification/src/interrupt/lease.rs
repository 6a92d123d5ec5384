//! Who holds the timer.
//!
//! The timer and its handler belong to the whole process, so that only one
//! measurement may run at a time. A [`Lease`] says whether one does.

use vstd::prelude::*;

use super::hardware_interrupt::SampleInterval;
use super::session::{has_nul, measure_file_with, MeasureError, Session, SessionState};

verus! {

/// Whether the timer is held by a measurement.
pub struct Lease {
    held: bool,
}

impl View for Lease {
    type V = bool;

    closed spec fn view(&self) -> bool {
        self.held
    }
}

impl Lease {
    /// The timer before the first measurement: nobody holds it.
    pub fn new() -> (l: Lease)
        ensures
            !l@,
    {
        Lease { held: false }
    }

    /// Starts to measure a file. The measurement holds the timer until it is over;
    /// while another one holds it, it is refused, and the other goes on holding it.
    pub fn begin(&mut self, path: &str, sample_interval: SampleInterval, uncached: bool) -> (r:
        Result<Session, MeasureError>)
        ensures
            old(self)@ ==> r == Err::<Session, MeasureError>(MeasureError::Busy),
            !old(self)@ && has_nul(path@) ==> r == Err::<Session, MeasureError>(
                MeasureError::NulInPath,
            ),
            !old(self)@ && !has_nul(path@) ==> r is Ok && r->Ok_0@ == SessionState::initial(
                path@,
                sample_interval,
                uncached,
            ) && r->Ok_0@.wf(),
            final(self)@ == held_after(old(self)@, Call::Begin(path@)),
    {
        let r = measure_file_with(path, sample_interval, uncached, self.held);
        if r.is_ok() {
            self.held = true;
        }
        r
    }

    /// Ends the measurement that holds the timer, whether it succeeded or failed:
    /// the timer is free again.
    pub fn end(&mut self)
        ensures
            final(self)@ == held_after(old(self)@, Call::End),
    {
        self.held = false;
    }
}

/// What is done with the timer.
pub enum Call {
    /// A measurement of the file at this path begins.
    Begin(Seq<char>),
    /// The running measurement ends.
    End,
}

/// Whether a measurement that begins is refused because another one runs.
pub open spec fn refused(held: bool, call: Call) -> bool {
    call is Begin && held
}

/// Whether a measurement begins to run.
pub open spec fn starts(held: bool, call: Call) -> bool {
    match call {
        Call::Begin(path) => !held && !has_nul(path),
        Call::End => false,
    }
}

/// Whether the timer is held after a call.
pub open spec fn held_after(held: bool, call: Call) -> bool {
    match call {
        Call::Begin(_) => held || starts(held, call),
        Call::End => false,
    }
}

/// Whether the timer is held after some calls.
pub open spec fn held_at_last(calls: Seq<Call>) -> bool
    decreases calls.len(),
{
    if calls.len() == 0 {
        false
    } else {
        held_after(held_at_last(calls.drop_last()), calls.last())
    }
}

/// How many measurements run after some calls: those that started and have not
/// ended.
pub open spec fn running(calls: Seq<Call>) -> int
    decreases calls.len(),
{
    if calls.len() == 0 {
        0
    } else {
        let before = running(calls.drop_last());
        match calls.last() {
            Call::Begin(_) => if starts(held_at_last(calls.drop_last()), calls.last()) {
                before + 1
            } else {
                before
            },
            Call::End => if before > 0 {
                before - 1
            } else {
                0
            },
        }
    }
}

/// One measurement runs at a time: after any calls at most one does, and the timer
/// is held exactly while it does. The next one is refused exactly while one runs,
/// and that leaves the running one alone.
pub proof fn law_one_measurement_at_a_time(calls: Seq<Call>, path: Seq<char>)
    ensures
        0 <= running(calls) <= 1,
        held_at_last(calls) == (running(calls) == 1),
        refused(held_at_last(calls), Call::Begin(path)) == (running(calls) == 1),
        running(calls) == 1 ==> running(calls.push(Call::Begin(path))) == 1 && held_at_last(
            calls.push(Call::Begin(path)),
        ),
    decreases calls.len(),
{
    if calls.len() > 0 {
        law_one_measurement_at_a_time(calls.drop_last(), path);
    }
    assert(calls.push(Call::Begin(path)).drop_last() == calls);
}

/// Once a measurement has ended, however it did, the next one is not refused.
pub proof fn law_an_ended_measurement_frees_the_timer(calls: Seq<Call>, path: Seq<char>)
    ensures
        running(calls.push(Call::End)) == 0,
        !refused(held_at_last(calls.push(Call::End)), Call::Begin(path)),
        !has_nul(path) ==> starts(held_at_last(calls.push(Call::End)), Call::Begin(path)),
{
    law_one_measurement_at_a_time(calls, path);
    assert(calls.push(Call::End).drop_last() == calls);
}

} // verus!
