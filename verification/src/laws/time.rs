//! Time: counter readings, frequencies, timer settings, and latency classes.

use vstd::prelude::*;

use crate::interrupt::hardware_interrupt::{
    arming, bucket_of, frequency, is_bucket, lemma_bucket_exists, lemma_one_bucket, nanos_in,
    passed, unsigned_bits, SampleInterval, LATENCY_BOUNDS_NS,
};

verus! {

/// The number of values of a 64-bit counter.
pub const WRAP: u128 = 0x1_0000_0000_0000_0000;

/// Whether `ticks` of a counter that runs at `hz` last `nanos` whole nanoseconds.
pub open spec fn lasts(ticks: nat, hz: nat, nanos: nat) -> bool {
    nanos * hz <= ticks * 1_000_000_000 < (nanos + 1) * hz
}

/// Whether `nanos` is the time of `ticks` of a counter that runs at `hz`, kept in 64
/// bits. A counter of unknown frequency measures no time.
pub open spec fn is_time(ticks: nat, hz: nat, nanos: nat) -> bool {
    &&& nanos < WRAP
    &&& if hz == 0 {
        nanos == 0
    } else {
        exists|k: nat| #[trigger] lasts(ticks, hz, nanos + k * WRAP as nat)
    }
}

proof fn lemma_lasts_once(ticks: nat, hz: nat, a: nat, b: nat)
    requires
        hz > 0,
        lasts(ticks, hz, a),
        lasts(ticks, hz, b),
    ensures
        a == b,
{
    if a < b {
        assert((a + 1) * hz <= b * hz) by (nonlinear_arith)
            requires
                a < b,
        ;
    }
    if b < a {
        assert((b + 1) * hz <= a * hz) by (nonlinear_arith)
            requires
                b < a,
        ;
    }
}

/// Ticks have one time only.
pub proof fn lemma_one_time(ticks: nat, hz: nat, a: nat, b: nat)
    requires
        is_time(ticks, hz, a),
        is_time(ticks, hz, b),
    ensures
        a == b,
{
    if hz > 0 {
        let j = choose|j: nat| #[trigger] lasts(ticks, hz, a + j * WRAP as nat);
        let k = choose|k: nat| #[trigger] lasts(ticks, hz, b + k * WRAP as nat);
        lemma_lasts_once(ticks, hz, a + j * WRAP as nat, b + k * WRAP as nat);
    }
}

/// Counter ticks become the whole nanoseconds that they last: so many that one more
/// would be too long.
pub proof fn law_ticks_become_whole_nanoseconds(ticks: nat, hz: nat)
    ensures
        is_time(ticks, hz, nanos_in(ticks, hz)),
        hz > 0 && ticks * 1_000_000_000 < WRAP * hz ==> lasts(ticks, hz, nanos_in(ticks, hz)),
{
    if hz > 0 {
        let q = ticks * 1_000_000_000 / hz;
        assert(q * hz <= ticks * 1_000_000_000 < (q + 1) * hz) by (nonlinear_arith)
            requires
                q == ticks * 1_000_000_000 / hz,
                hz > 0,
        ;
        let n = q % (WRAP as nat);
        let k = q / (WRAP as nat);
        assert(q == n + k * WRAP as nat);
        assert(lasts(ticks, hz, n + k * WRAP as nat));
        if ticks * 1_000_000_000 < WRAP * hz {
            assert(q < WRAP) by (nonlinear_arith)
                requires
                    q * hz <= ticks * 1_000_000_000,
                    ticks * 1_000_000_000 < WRAP * hz,
                    hz > 0,
            ;
        }
    }
}

/// More ticks never last less time, and a faster counter never makes the same ticks
/// last longer, as long as the times fit in 64 bits.
pub proof fn law_more_ticks_last_longer(a: nat, b: nat, slow: nat, fast: nat)
    requires
        a <= b,
        0 < slow <= fast,
        b * 1_000_000_000 < WRAP * slow,
    ensures
        nanos_in(a, fast) <= nanos_in(b, slow),
{
    assert(a * 1_000_000_000 < WRAP * fast) by (nonlinear_arith)
        requires
            a <= b,
            slow <= fast,
            b * 1_000_000_000 < WRAP * slow,
    ;
    law_ticks_become_whole_nanoseconds(a, fast);
    law_ticks_become_whole_nanoseconds(b, slow);
    let x = nanos_in(a, fast);
    let y = nanos_in(b, slow);
    assert(x <= y) by (nonlinear_arith)
        requires
            x * fast <= a * 1_000_000_000,
            b * 1_000_000_000 < (y + 1) * slow,
            a <= b,
            0 < slow <= fast,
    ;
}

/// What passed between two readings of a counter leads from the one to the other,
/// around the end of its range where it wrapped.
pub proof fn law_what_passed_leads_from_reading_to_reading(from: u64, to: u64)
    ensures
        from <= to ==> from + passed(from, to) == to,
        to < from ==> from + passed(from, to) == to + WRAP,
{
}

/// A calibrated frequency, over the time of the calibration, makes up the ticks that
/// were counted, to within one tick per second.
pub proof fn law_a_frequency_accounts_for_the_ticks(ticks: nat, nanos: nat)
    requires
        nanos > 0,
        ticks * 1_000_000_000 < WRAP * nanos,
    ensures
        frequency(ticks, nanos) * nanos <= ticks * 1_000_000_000,
        ticks * 1_000_000_000 < (frequency(ticks, nanos) + 1) * nanos,
{
    law_ticks_become_whole_nanoseconds(ticks, nanos);
}

/// A number that is not negative has itself in its bits; another has what it lacks of
/// the whole range.
pub proof fn law_signed_bits(n: i64)
    ensures
        n >= 0 ==> unsigned_bits(n as int) == n,
        n < 0 ==> unsigned_bits(n as int) == WRAP + n,
{
}

/// The timer is armed for the whole microseconds of an interval, and for one where
/// there are none.
pub proof fn law_the_timer_is_armed_for_the_interval(d: SampleInterval)
    requires
        d.secs < 0x8000_0000_0000_0000,
    ensures
        ({
            let t = arming(d);
            let micros = t.tv_sec * 1_000_000 + t.tv_usec;
            let nanos = d.secs * 1_000_000_000 + d.nanos;
            if nanos < 1_000 {
                micros == 1
            } else {
                micros * 1_000 <= nanos < (micros + 1) * 1_000
            }
        }),
{
}

// ── latency classes ─────────────────────────────────────────────────────────

/// The upper bound of a latency class in nanoseconds: one, two and five microseconds,
/// and so on by tens.
pub open spec fn class_bound(b: int) -> nat {
    let digit: nat = if b % 3 == 0 {
        1
    } else if b % 3 == 1 {
        2
    } else {
        5
    };
    let unit: nat = if b / 3 == 0 {
        1_000
    } else if b / 3 == 1 {
        10_000
    } else if b / 3 == 2 {
        100_000
    } else if b / 3 == 3 {
        1_000_000
    } else {
        10_000_000
    };
    digit * unit
}

/// Whether a latency belongs to a class: it exceeds the bounds of the faster classes
/// and not its own. The last class has no bound.
pub open spec fn in_class(nanos: nat, b: int) -> bool {
    &&& 0 <= b < 14
    &&& forall|i: int| 0 <= i < b ==> #[trigger] class_bound(i) < nanos
    &&& b < 13 ==> nanos <= class_bound(b)
}

/// The latency histogram has its bounds at one, two and five microseconds, and so on
/// up to ten milliseconds.
pub proof fn law_latency_bounds_go_by_one_two_five(b: int)
    requires
        0 <= b < 13,
    ensures
        LATENCY_BOUNDS_NS@[b] == class_bound(b),
{
    if b < 7 {
        if b == 0 || b == 1 || b == 2 || b == 3 || b == 4 || b == 5 || b == 6 {
        }
    } else {
        if b == 7 || b == 8 || b == 9 || b == 10 || b == 11 || b == 12 {
        }
    }
}

/// A latency is counted in the class that it belongs to, and belongs to no other.
pub proof fn law_a_latency_is_counted_in_its_class(nanos: nat, b: int)
    requires
        0 <= b < 14,
    ensures
        in_class(nanos, b) == (bucket_of(nanos) == b),
{
    assert forall|i: int| 0 <= i < 13 implies #[trigger] LATENCY_BOUNDS_NS@[i] == class_bound(
        i,
    ) by {
        law_latency_bounds_go_by_one_two_five(i);
    }
    lemma_bucket_exists(nanos);
    if in_class(nanos, b) {
        assert forall|i: int| 0 <= i < b implies #[trigger] LATENCY_BOUNDS_NS@[i] < nanos by {
            assert(class_bound(i) < nanos);
        }
        assert(is_bucket(nanos, b as nat));
        lemma_one_bucket(nanos, b as nat);
    }
    if bucket_of(nanos) == b {
        assert forall|i: int| 0 <= i < b implies #[trigger] class_bound(i) < nanos by {
            assert(LATENCY_BOUNDS_NS@[i] < nanos);
        }
    }
}

} // verus!
