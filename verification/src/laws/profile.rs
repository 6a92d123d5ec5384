//! Profiling a file: from the replies of the operating system to the measurement.

use vstd::prelude::*;

use super::time::{
    in_class, is_time, law_a_latency_is_counted_in_its_class, law_ticks_become_whole_nanoseconds,
    law_what_passed_leads_from_reading_to_reading, lemma_one_time, WRAP,
};
use crate::interrupt::hardware_interrupt::{
    bucket_of, counted, nanos_in, passed, FileMeasurement, Sample, SampleInterval,
};
use crate::interrupt::session::{roomy, run, Action, Event, MeasureError, SessionState};

verus! {

// ── a conversation ──────────────────────────────────────────────────────────

/// What a counter advanced by from one reading to a later one, around the end of its
/// range where it wrapped.
pub open spec fn elapsed(from: u64, to: u64) -> nat {
    if from <= to {
        (to - from) as nat
    } else {
        (WRAP + to - from) as nat
    }
}

/// The replies to a measurement of a file that can be read: those before the first
/// read, those of the reads, and those behind the last.
pub struct Replies {
    pub uncached: bool,
    /// The reply to the wish to bypass the cache, which is asked for only if it is to
    /// be bypassed.
    pub bypass: Event,
    /// What the calls whose values nobody looks at returned.
    pub opened: u64,
    pub rewound: u64,
    pub installed: u64,
    pub armed: u64,
    pub size: u64,
    pub hz: u64,
    pub start: u64,
    pub reads: Seq<Event>,
    pub end: u64,
    pub fired: u64,
}

/// Whether a reply to a read leaves the measurement going: a chunk, or an interrupted
/// call.
pub open spec fn goes_on(e: Event) -> bool {
    e is Chunk || e == Event::Failed(4)
}

impl Replies {
    /// The replies before the first read.
    pub open spec fn opening(self) -> Seq<Event> {
        let front = if self.uncached {
            seq![Event::Done(self.opened), self.bypass]
        } else {
            seq![Event::Done(self.opened)]
        };
        front + seq![
            Event::Done(self.size),
            Event::Done(self.rewound),
            Event::Done(self.hz),
            Event::Done(self.installed),
            Event::Done(self.armed),
            Event::Done(self.start),
        ]
    }

    /// All replies, up to the end of the file and the count of timer interrupts.
    pub open spec fn all(self) -> Seq<Event> {
        self.opening() + self.reads + seq![
            Event::EndOfFile { now: self.end },
            Event::Done(self.fired),
        ]
    }

    /// Whether the replies are those of a file that can be read, with totals that fit
    /// in 64 bits.
    pub open spec fn fair(self) -> bool {
        &&& self.bypass is Done || self.bypass is Failed
        &&& forall|i: int| 0 <= i < self.reads.len() ==> goes_on(#[trigger] self.reads[i])
        &&& bytes_in(self.reads) <= u64::MAX
        &&& ticks_in(self.reads) <= u64::MAX
        &&& self.reads.len() <= u64::MAX
    }
}

/// The bytes of the chunks among some replies.
pub open spec fn bytes_in(reads: Seq<Event>) -> nat
    decreases reads.len(),
{
    if reads.len() == 0 {
        0
    } else {
        bytes_in(reads.drop_last()) + match reads.last() {
            Event::Chunk { bytes, .. } => bytes as nat,
            _ => 0,
        }
    }
}

/// The counter ticks that the reads of the chunks took.
pub open spec fn ticks_in(reads: Seq<Event>) -> nat
    decreases reads.len(),
{
    if reads.len() == 0 {
        0
    } else {
        ticks_in(reads.drop_last()) + match reads.last() {
            Event::Chunk { start_ticks, end_ticks, .. } => elapsed(start_ticks, end_ticks),
            _ => 0,
        }
    }
}

/// The number of chunks.
pub open spec fn chunks_in(reads: Seq<Event>) -> nat
    decreases reads.len(),
{
    if reads.len() == 0 {
        0
    } else {
        chunks_in(reads.drop_last()) + if reads.last() is Chunk {
            1nat
        } else {
            0
        }
    }
}

/// Whether a reply is a chunk whose read took a time of a latency class, by a counter
/// that runs at `hz`.
pub open spec fn took(e: Event, hz: u64, b: int) -> bool {
    match e {
        Event::Chunk { start_ticks, end_ticks, .. } => exists|n: nat|
            #[trigger] is_time(elapsed(start_ticks, end_ticks), hz as nat, n) && in_class(n, b),
        _ => false,
    }
}

/// The number of chunks whose read took a time of a latency class.
pub open spec fn chunks_that_took(reads: Seq<Event>, hz: u64, b: int) -> nat
    decreases reads.len(),
{
    if reads.len() == 0 {
        0
    } else {
        chunks_that_took(reads.drop_last(), hz, b) + if took(reads.last(), hz, b) {
            1nat
        } else {
            0
        }
    }
}

/// Whether some chunk's read took so many ticks.
pub open spec fn some_took(reads: Seq<Event>, ticks: nat) -> bool {
    exists|i: int|
        0 <= i < reads.len() && (#[trigger] reads[i] matches Event::Chunk {
            start_ticks,
            end_ticks,
            ..
        } && elapsed(start_ticks, end_ticks) == ticks)
}

/// Whether every chunk's read took at least `low` ticks and at most `high`.
pub open spec fn all_between(reads: Seq<Event>, low: nat, high: nat) -> bool {
    forall|i: int|
        0 <= i < reads.len() ==> (#[trigger] reads[i] matches Event::Chunk {
            start_ticks,
            end_ticks,
            ..
        } ==> low <= elapsed(start_ticks, end_ticks) <= high)
}

/// The samples that the timer interrupts call for: one for each chunk that an
/// interrupt came with, with the time since `start` and the bytes read by then.
pub open spec fn sampled(reads: Seq<Event>, start: u64) -> Seq<Sample>
    decreases reads.len(),
{
    if reads.len() == 0 {
        Seq::empty()
    } else {
        let before = sampled(reads.drop_last(), start);
        match reads.last() {
            Event::Chunk { interrupt: Some(i), .. } => before.push(
                Sample {
                    at_nanos: elapsed(start, i.now) as u64,
                    bytes: bytes_in(reads) as u64,
                    interrupt_index: i.index,
                },
            ),
            _ => before,
        }
    }
}

/// Whether a measurement is what the replies amount to.
pub open spec fn measures(m: FileMeasurement, path: Seq<char>, r: Replies) -> bool {
    &&& m.path@ == path
    &&& m.uncached == r.uncached
    &&& m.size_bytes == r.size
    &&& m.counter_hz == r.hz
    &&& m.wall_nanos == elapsed(r.start, r.end)
    &&& m.timer_interrupts == r.fired
    &&& m.bytes_read == bytes_in(r.reads)
    &&& m.read_ticks == ticks_in(r.reads)
    &&& m.chunk_count == chunks_in(r.reads)
    &&& all_between(r.reads, m.min_chunk_ticks as nat, m.max_chunk_ticks as nat)
    &&& m.chunk_count > 0 ==> some_took(r.reads, m.min_chunk_ticks as nat) && some_took(
        r.reads,
        m.max_chunk_ticks as nat,
    )
    &&& m.chunk_count == 0 ==> m.min_chunk_ticks == 0 && m.max_chunk_ticks == 0
    &&& forall|b: int|
        0 <= b < 14 ==> #[trigger] m.latency_buckets@[b] == chunks_that_took(r.reads, r.hz, b)
    &&& m.samples@ == sampled(r.reads, r.start)
}

// ── the proof ───────────────────────────────────────────────────────────────

proof fn lemma_elapsed(from: u64, to: u64)
    ensures
        passed(from, to) == elapsed(from, to),
        elapsed(from, to) < WRAP,
{
    law_what_passed_leads_from_reading_to_reading(from, to);
}

/// A series of replies may be taken in two parts.
pub proof fn lemma_run_in_parts(s: SessionState, a: Seq<Event>, b: Seq<Event>)
    ensures
        run(s, a + b) == run(run(s, a), b),
    decreases b.len(),
{
    if b.len() == 0 {
        assert(a + b == a);
    } else {
        lemma_run_in_parts(s, a, b.drop_last());
        assert((a + b).drop_last() == a + b.drop_last());
        assert((a + b).last() == b.last());
    }
}

proof fn lemma_next_reply(s: SessionState, a: Seq<Event>, e: Event)
    ensures
        run(s, a.push(e)) == run(s, a).after(e),
{
    assert(a.push(e).drop_last() == a);
}

/// Whether a state has booked some reads and nothing else since the state `s`.
spec fn booked(s: SessionState, t: SessionState, reads: Seq<Event>) -> bool {
    let c = t.counts;
    &&& t.action == Action::Read
    &&& t.path == s.path && t.uncached == s.uncached && t.error == s.error && t.size_bytes
        == s.size_bytes && t.counter_hz == s.counter_hz && t.start_nanos == s.start_nanos
    &&& c.bytes_read == bytes_in(reads)
    &&& c.read_ticks == ticks_in(reads)
    &&& c.chunk_count == chunks_in(reads)
    &&& chunks_in(reads) <= reads.len()
    &&& c.chunk_count > 0 ==> {
        &&& all_between(reads, c.min_chunk_ticks as nat, c.max_chunk_ticks as nat)
        &&& some_took(reads, c.min_chunk_ticks as nat)
        &&& some_took(reads, c.max_chunk_ticks as nat)
    }
    &&& c.chunk_count == 0 ==> c == s.counts && forall|i: int|
        0 <= i < reads.len() ==> !(#[trigger] reads[i] is Chunk)
    &&& t.latency_buckets.len() == 14
    &&& forall|b: int|
        0 <= b < 14 ==> #[trigger] t.latency_buckets[b] == chunks_that_took(reads, s.counter_hz, b)
    &&& t.samples == sampled(reads, s.start_nanos)
}

proof fn lemma_at_most_all(reads: Seq<Event>, hz: u64, b: int)
    ensures
        chunks_that_took(reads, hz, b) <= chunks_in(reads) <= reads.len(),
    decreases reads.len(),
{
    if reads.len() > 0 {
        lemma_at_most_all(reads.drop_last(), hz, b);
    }
}

/// A chunk's class is the bucket that it is booked in.
proof fn lemma_booked_in_its_class(e: Event, hz: u64, b: int)
    requires
        e is Chunk,
        0 <= b < 14,
    ensures
        took(e, hz, b) == (bucket_of(
            nanos_in(passed(e->start_ticks, e->end_ticks) as nat, hz as nat),
        ) == b),
{
    let t = elapsed(e->start_ticks, e->end_ticks);
    lemma_elapsed(e->start_ticks, e->end_ticks);
    let n = nanos_in(t, hz as nat);
    law_ticks_become_whole_nanoseconds(t, hz as nat);
    law_a_latency_is_counted_in_its_class(n, b);
    if took(e, hz, b) {
        let k = choose|k: nat| #[trigger] is_time(t, hz as nat, k) && in_class(k, b);
        lemma_one_time(t, hz as nat, k, n);
    }
}

proof fn lemma_extremes(before: Seq<Event>, e: Event, low: nat, high: nat, t: nat, first: bool)
    requires
        e is Chunk,
        t == elapsed(e->start_ticks, e->end_ticks),
        first ==> forall|i: int| 0 <= i < before.len() ==> !(#[trigger] before[i] is Chunk),
        !first ==> all_between(before, low, high) && some_took(before, low) && some_took(
            before,
            high,
        ),
    ensures
        ({
            let new_low = if first || t < low {
                t
            } else {
                low
            };
            let new_high = if first || t > high {
                t
            } else {
                high
            };
            let reads = before.push(e);
            &&& all_between(reads, new_low, new_high)
            &&& some_took(reads, new_low)
            &&& some_took(reads, new_high)
        }),
{
    let new_low = if first || t < low {
        t
    } else {
        low
    };
    let new_high = if first || t > high {
        t
    } else {
        high
    };
    let reads = before.push(e);
    assert(reads[before.len() as int] == e);
    assert forall|i: int| 0 <= i < reads.len() implies (#[trigger] reads[i] matches Event::Chunk {
        start_ticks,
        end_ticks,
        ..
    } ==> new_low <= elapsed(start_ticks, end_ticks) <= new_high) by {
        if i < before.len() {
            assert(reads[i] == before[i]);
        }
    }
    if !first {
        let i = choose|i: int|
            0 <= i < before.len() && (#[trigger] before[i] matches Event::Chunk {
                start_ticks,
                end_ticks,
                ..
            } && elapsed(start_ticks, end_ticks) == low);
        assert(reads[i] == before[i]);
        let j = choose|j: int|
            0 <= j < before.len() && (#[trigger] before[j] matches Event::Chunk {
                start_ticks,
                end_ticks,
                ..
            } && elapsed(start_ticks, end_ticks) == high);
        assert(reads[j] == before[j]);
    }
}

proof fn lemma_sums_grow(reads: Seq<Event>)
    requires
        reads.len() > 0,
    ensures
        bytes_in(reads.drop_last()) <= bytes_in(reads),
        ticks_in(reads.drop_last()) <= ticks_in(reads),
        chunks_in(reads.drop_last()) <= chunks_in(reads),
{
}

#[verifier::spinoff_prover]
#[verifier::rlimit(50)]
proof fn lemma_reads_are_booked(s: SessionState, reads: Seq<Event>)
    requires
        booked(s, s, Seq::empty()),
        s.counts == crate::interrupt::session::Counts::none(),
        forall|i: int| 0 <= i < reads.len() ==> goes_on(#[trigger] reads[i]),
        bytes_in(reads) <= u64::MAX,
        ticks_in(reads) <= u64::MAX,
        reads.len() <= u64::MAX,
    ensures
        booked(s, run(s, reads), reads),
    decreases reads.len(),
{
    if reads.len() == 0 {
        assert(reads == Seq::<Event>::empty());
    } else {
        let before = reads.drop_last();
        let e = reads.last();
        assert(before.push(e) == reads);
        assert(goes_on(reads[reads.len() - 1]));
        assert forall|i: int| 0 <= i < before.len() implies goes_on(#[trigger] before[i]) by {
            assert(before[i] == reads[i]);
        }
        lemma_sums_grow(reads);
        lemma_reads_are_booked(s, before);
        let t = run(s, before);
        let u = run(s, reads);
        assert(u == t.after(e));
        if let Event::Chunk { bytes, start_ticks, end_ticks, interrupt } = e {
            let ticks = passed(start_ticks, end_ticks);
            lemma_elapsed(start_ticks, end_ticks);
            lemma_extremes(
                before,
                e,
                t.counts.min_chunk_ticks as nat,
                t.counts.max_chunk_ticks as nat,
                ticks as nat,
                t.counts.chunk_count == 0,
            );
            assert(chunks_in(reads) <= reads.len());
            crate::interrupt::hardware_interrupt::lemma_bucket_exists(
                nanos_in(ticks as nat, s.counter_hz as nat),
            );
            assert forall|b: int| 0 <= b < 14 implies #[trigger] u.latency_buckets[b]
                == chunks_that_took(reads, s.counter_hz, b) by {
                lemma_booked_in_its_class(e, s.counter_hz, b);
                lemma_at_most_all(before, s.counter_hz, b);
                assert(t.latency_buckets[b] == chunks_that_took(before, s.counter_hz, b));
            }
            if let Some(i) = interrupt {
                lemma_elapsed(s.start_nanos, i.now);
            }
            assert(u.samples == sampled(reads, s.start_nanos));
        } else {
            assert(e == Event::Failed(4));
            assert(u == t);
            assert forall|b: int| 0 <= b < 14 implies #[trigger] u.latency_buckets[b]
                == chunks_that_took(reads, s.counter_hz, b) by {
                assert(t.latency_buckets[b] == chunks_that_took(before, s.counter_hz, b));
            }
            if t.counts.chunk_count > 0 {
                let c = t.counts;
                let i = choose|i: int|
                    0 <= i < before.len() && (#[trigger] before[i] matches Event::Chunk {
                        start_ticks,
                        end_ticks,
                        ..
                    } && elapsed(start_ticks, end_ticks) == c.min_chunk_ticks);
                assert(reads[i] == before[i]);
                let j = choose|j: int|
                    0 <= j < before.len() && (#[trigger] before[j] matches Event::Chunk {
                        start_ticks,
                        end_ticks,
                        ..
                    } && elapsed(start_ticks, end_ticks) == c.max_chunk_ticks);
                assert(reads[j] == before[j]);
                assert forall|i: int| 0 <= i < reads.len() implies (
                #[trigger] reads[i] matches Event::Chunk { start_ticks, end_ticks, .. }
                    ==> c.min_chunk_ticks <= elapsed(start_ticks, end_ticks)
                    <= c.max_chunk_ticks) by {
                    if i < before.len() {
                        assert(reads[i] == before[i]);
                    }
                }
            } else {
                assert forall|i: int| 0 <= i < reads.len() implies !(
                #[trigger] reads[i] is Chunk) by {
                    if i < before.len() {
                        assert(reads[i] == before[i]);
                    }
                }
            }
        }
    }
}

/// The state when the first read is due.
spec fn ready(path: Seq<char>, interval: SampleInterval, r: Replies) -> SessionState {
    SessionState {
        action: Action::Read,
        size_bytes: r.size,
        counter_hz: r.hz,
        start_nanos: r.start,
        ..SessionState::initial(path, interval, r.uncached)
    }
}

proof fn lemma_opening(path: Seq<char>, interval: SampleInterval, r: Replies)
    requires
        r.bypass is Done || r.bypass is Failed,
    ensures
        run(SessionState::initial(path, interval, r.uncached), r.opening()) == ready(
            path,
            interval,
            r,
        ),
{
    let s = SessionState::initial(path, interval, r.uncached);
    let none = Seq::<Event>::empty();
    let a = none.push(Event::Done(r.opened));
    let b = if r.uncached {
        a.push(r.bypass)
    } else {
        a
    };
    lemma_next_reply(s, none, Event::Done(r.opened));
    lemma_next_reply(s, a, r.bypass);
    let c = b.push(Event::Done(r.size));
    let d = c.push(Event::Done(r.rewound));
    let e = d.push(Event::Done(r.hz));
    let f = e.push(Event::Done(r.installed));
    let g = f.push(Event::Done(r.armed));
    let h = g.push(Event::Done(r.start));
    lemma_next_reply(s, b, Event::Done(r.size));
    lemma_next_reply(s, c, Event::Done(r.rewound));
    lemma_next_reply(s, d, Event::Done(r.hz));
    lemma_next_reply(s, e, Event::Done(r.installed));
    lemma_next_reply(s, f, Event::Done(r.armed));
    lemma_next_reply(s, g, Event::Done(r.start));
    assert(r.opening() == h);
}

proof fn lemma_ready_is_booked(path: Seq<char>, interval: SampleInterval, r: Replies)
    ensures
        booked(ready(path, interval, r), ready(path, interval, r), Seq::empty()),
        ready(path, interval, r).counts == crate::interrupt::session::Counts::none(),
{
    let none = Seq::<Event>::empty();
    let s = ready(path, interval, r);
    assert forall|b: int| 0 <= b < 14 implies #[trigger] s.latency_buckets[b] == chunks_that_took(
        none,
        s.counter_hz,
        b,
    ) by {
    }
}

// ── the laws ────────────────────────────────────────────────────────────────

/// A file that can be read is measured: the measurement has the size, the counter's
/// frequency and the timer interrupts that the system told, the bytes of all chunks,
/// the ticks of all reads, the least and the most that a read took, every chunk in
/// the latency class of its time by the calibrated counter, and a sample for each
/// chunk that an interrupt came with.
#[verifier::spinoff_prover]
#[verifier::rlimit(50)]
pub proof fn law_a_profile_tells_what_was_read(
    path: Seq<char>,
    interval: SampleInterval,
    r: Replies,
    m: FileMeasurement,
)
    requires
        r.fair(),
    ensures
        ({
            let s = run(SessionState::initial(path, interval, r.uncached), r.all());
            &&& s.action == Action::Finish
            &&& s.error is None
            &&& s.measured(m) ==> measures(m, path, r)
        }),
{
    let s = SessionState::initial(path, interval, r.uncached);
    let read = r.opening() + r.reads;
    let end = Event::EndOfFile { now: r.end };
    let last = Event::Done(r.fired);
    assert(r.all() == read.push(end).push(last));
    lemma_next_reply(s, read.push(end), last);
    lemma_next_reply(s, read, end);
    lemma_run_in_parts(s, r.opening(), r.reads);
    lemma_opening(path, interval, r);
    lemma_ready_is_booked(path, interval, r);
    lemma_reads_are_booked(ready(path, interval, r), r.reads);
    lemma_elapsed(r.start, r.end);
    let u = run(s, r.all());
    if u.measured(m) {
        assert forall|b: int| 0 <= b < 14 implies #[trigger] m.latency_buckets@[b]
            == chunks_that_took(r.reads, r.hz, b) by {
            assert(m.latency_buckets@[b] == u.latency_buckets[b]);
        }
    }
}

/// While a file is read, the progress after a chunk that an interrupt came with tells
/// of all bytes read so far, of the file's size and of the time since the start.
pub proof fn law_progress_tells_what_was_read(
    path: Seq<char>,
    interval: SampleInterval,
    r: Replies,
    e: Event,
)
    requires
        r.fair(),
        goes_on(e),
        bytes_in(r.reads.push(e)) <= u64::MAX,
    ensures
        ({
            let s = run(
                SessionState::initial(path, interval, r.uncached),
                r.opening() + r.reads,
            );
            match e {
                Event::Chunk { interrupt: Some(i), .. } => s.progress(e) matches Some(p) && {
                    &&& p.bytes_read == bytes_in(r.reads.push(e))
                    &&& p.size_bytes == r.size
                    &&& p.elapsed_nanos == elapsed(r.start, i.now)
                    &&& p.interrupt_index == i.index
                },
                _ => s.progress(e) is None,
            }
        }),
{
    let s = SessionState::initial(path, interval, r.uncached);
    lemma_run_in_parts(s, r.opening(), r.reads);
    lemma_opening(path, interval, r);
    lemma_ready_is_booked(path, interval, r);
    lemma_reads_are_booked(ready(path, interval, r), r.reads);
    assert(r.reads.push(e).drop_last() == r.reads);
    if let Event::Chunk { interrupt: Some(i), .. } = e {
        lemma_elapsed(r.start, i.now);
    }
}

/// A read that fails, other than by an interruption, ends the measurement with its
/// error, once the timer is disarmed.
pub proof fn law_a_failing_read_is_reported(
    path: Seq<char>,
    interval: SampleInterval,
    r: Replies,
    errno: i32,
)
    requires
        r.fair(),
        errno != 4,
    ensures
        ({
            let s = SessionState::initial(path, interval, r.uncached);
            let failed = (r.opening() + r.reads).push(Event::Failed(errno));
            &&& run(s, failed).action == Action::Disarm
            &&& run(s, failed.push(Event::Done(r.fired))).action == Action::Finish
            &&& run(s, failed.push(Event::Done(r.fired))).error == Some(MeasureError::Os(errno))
        }),
{
    let s = SessionState::initial(path, interval, r.uncached);
    let read = r.opening() + r.reads;
    lemma_next_reply(s, read.push(Event::Failed(errno)), Event::Done(r.fired));
    lemma_next_reply(s, read, Event::Failed(errno));
    lemma_run_in_parts(s, r.opening(), r.reads);
    lemma_opening(path, interval, r);
    lemma_ready_is_booked(path, interval, r);
    lemma_reads_are_booked(ready(path, interval, r), r.reads);
}

/// The calls before the first read, in their order.
pub open spec fn first_calls(uncached: bool) -> Seq<Action> {
    (if uncached {
        seq![Action::Open, Action::BypassCache]
    } else {
        seq![Action::Open]
    }) + seq![
        Action::SeekEnd,
        Action::Rewind,
        Action::Calibrate,
        Action::InstallHandler,
        Action::ArmTimer,
        Action::StartClock,
    ]
}

/// The calls before the first read come in their order, and one that fails ends the
/// measurement with its error; only the wish to bypass the cache may fail.
#[verifier::spinoff_prover]
#[verifier::rlimit(50)]
pub proof fn law_the_first_calls_come_in_order(
    path: Seq<char>,
    interval: SampleInterval,
    r: Replies,
    k: int,
    errno: i32,
)
    requires
        r.bypass is Done || r.bypass is Failed,
        0 <= k < first_calls(r.uncached).len(),
    ensures
        ({
            let s = run(
                SessionState::initial(path, interval, r.uncached),
                r.opening().take(k),
            );
            let due = first_calls(r.uncached)[k];
            &&& r.opening().len() == first_calls(r.uncached).len()
            &&& s.action == due
            &&& due != Action::BypassCache && due != Action::Calibrate && due
                != Action::StartClock ==> s.after(Event::Failed(errno)).action == Action::Finish
                && s.after(Event::Failed(errno)).error == Some(MeasureError::Os(errno))
        }),
    decreases k,
{
    let s = SessionState::initial(path, interval, r.uncached);
    let all = r.opening();
    if k == 0 {
        assert(all.take(0) == Seq::<Event>::empty());
    } else {
        law_the_first_calls_come_in_order(path, interval, r, k - 1, errno);
        assert(all.take(k) == all.take(k - 1).push(all[k - 1]));
        lemma_next_reply(s, all.take(k - 1), all[k - 1]);
    }
}

// ── replies of all kinds ────────────────────────────────────────────────────

/// The number of chunks that came while a read was due and whose read took a time of
/// a latency class, by a counter that runs at `hz`.
pub open spec fn taken_in_class(s: SessionState, events: Seq<Event>, hz: u64, b: int) -> nat
    decreases events.len(),
{
    if events.len() == 0 {
        0
    } else {
        let before = events.drop_last();
        taken_in_class(s, before, hz, b) + if run(s, before).action == Action::Read && took(
            events.last(),
            hz,
            b,
        ) {
            1nat
        } else {
            0
        }
    }
}

/// The last value that came in reply to the calibration; zero before there is one.
pub open spec fn calibrated(s: SessionState, events: Seq<Event>) -> u64
    decreases events.len(),
{
    if events.len() == 0 {
        0
    } else {
        let before = events.drop_last();
        match events.last() {
            Event::Done(hz) if run(s, before).action == Action::Calibrate => hz,
            _ => calibrated(s, before),
        }
    }
}

spec fn before_calibration(a: Action) -> bool {
    a == Action::Open || a == Action::BypassCache || a == Action::SeekEnd || a == Action::Rewind
        || a == Action::Calibrate
}

proof fn lemma_nothing_before_calibration(s: SessionState, events: Seq<Event>, hz: u64, b: int)
    requires
        s.action == Action::Open,
        before_calibration(run(s, events).action),
    ensures
        taken_in_class(s, events, hz, b) == 0,
    decreases events.len(),
{
    if events.len() > 0 {
        let before = events.drop_last();
        assert(before_calibration(run(s, before).action));
        lemma_nothing_before_calibration(s, before, hz, b);
    }
}

proof fn lemma_taken_at_most(s: SessionState, events: Seq<Event>, hz: u64, b: int)
    requires
        roomy(s, events),
        s.wf(),
        s.counts.chunk_count == 0,
    ensures
        taken_in_class(s, events, hz, b) <= run(s, events).counts.chunk_count,
    decreases events.len(),
{
    if events.len() > 0 {
        lemma_taken_at_most(s, events.drop_last(), hz, b);
    }
}

/// Whatever the replies are and in whatever order they come: each latency class counts
/// the chunks that came while a read was due and whose read took a time of that class,
/// by the frequency that the calibration yielded.
#[verifier::spinoff_prover]
#[verifier::rlimit(50)]
pub proof fn law_the_histogram_counts_the_reads(
    path: Seq<char>,
    interval: SampleInterval,
    uncached: bool,
    events: Seq<Event>,
    b: int,
)
    requires
        roomy(SessionState::initial(path, interval, uncached), events),
        0 <= b < 14,
    ensures
        ({
            let s = SessionState::initial(path, interval, uncached);
            let hz = calibrated(s, events);
            &&& run(s, events).counter_hz == hz
            &&& run(s, events).latency_buckets.len() == 14
            &&& run(s, events).latency_buckets[b] == taken_in_class(s, events, hz, b)
        }),
    decreases events.len(),
{
    let s = SessionState::initial(path, interval, uncached);
    if events.len() > 0 {
        let before = events.drop_last();
        let e = events.last();
        law_the_histogram_counts_the_reads(path, interval, uncached, before, b);
        let t = run(s, before);
        if t.action == Action::Calibrate {
            lemma_nothing_before_calibration(s, before, calibrated(s, events), b);
            lemma_nothing_before_calibration(s, before, calibrated(s, before), b);
        }
        if t.action == Action::Read && e is Chunk {
            lemma_counted_none(s.latency_buckets, 14);
            lemma_taken_at_most(s, before, t.counter_hz, b);
            lemma_booked_in_its_class(e, t.counter_hz, b);
            crate::interrupt::hardware_interrupt::lemma_bucket_exists(
                nanos_in(passed(e->start_ticks, e->end_ticks) as nat, t.counter_hz as nat),
            );
        }
    }
}

proof fn lemma_counted_none(b: Seq<u64>, n: int)
    requires
        forall|i: int| 0 <= i < b.len() ==> #[trigger] b[i] == 0,
        0 <= n <= b.len(),
    ensures
        counted(b, n) == 0,
    decreases n,
{
    if n > 0 {
        lemma_counted_none(b, n - 1);
    }
}

} // verus!
