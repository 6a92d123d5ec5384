//! Numbers: rates, shares and lengths of time, and how they are written.

use vstd::arithmetic::power2::{lemma_pow2_adds, lemma_pow2_pos, pow2};
use vstd::prelude::*;

use super::time::{is_time, law_ticks_become_whole_nanoseconds, lemma_one_time};
use crate::binary64::{
    half_even, is_tiny, lemma_half_even_error, lemma_nearest_error, lemma_whole_is_exact, nearest,
    pow10, Binary64, HIGH, LOW,
};
use crate::frontend::batch::Aggregate;
use crate::human::{human_bytes_text, human_ns_text, tenths};
use crate::interrupt::bulk::{BulkMeasurement, ThreadStat};
use crate::interrupt::hardware_interrupt::{nanos_in, FileMeasurement};
use crate::interrupt::random::RandomMeasurement;
use crate::interrupt::sweep::SweepPoint;
use crate::interrupt::write::WriteMeasurement;
use crate::rate::{mib_per_second, millis, per_second, seconds, share};
use crate::text::{
    decimal, digits_value, law_a_decimal_number_reads_back, repeated, zero_padded,
};

verus! {

/// Whether `x` is `y` up to `k` parts in two to the power of 53.
pub open spec fn near(x: nat, y: nat, k: nat) -> bool {
    (HIGH - k) * y <= HIGH * x <= (HIGH + k) * y
}

/// Whether a double is `n / d` up to 16 parts in two to the power of 53: its first
/// fourteen decimal digits are right.
pub open spec fn is_about(r: Binary64, n: nat, d: nat) -> bool {
    near(r.units() * d, n * pow2(1074), 16)
}

// ── the proof ───────────────────────────────────────────────────────────────

/// A looser bound.
pub proof fn lemma_near_more(x: nat, y: nat, j: nat, k: nat)
    requires
        near(x, y, j),
        j <= k <= 100,
    ensures
        near(x, y, k),
{
    assert((HIGH - k) * y <= (HIGH - j) * y && (HIGH + j) * y <= (HIGH + k) * y)
        by (nonlinear_arith)
        requires
            j <= k,
            y >= 0,
    ;
}

/// What is near something near.
#[verifier::spinoff_prover]
#[verifier::rlimit(50)]
pub proof fn lemma_near_chain(x: nat, y: nat, z: nat, j: nat, k: nat)
    requires
        near(x, y, j),
        near(y, z, k),
        j <= 40,
        k <= 40,
    ensures
        near(x, z, j + k + 1),
{
    let e = HIGH as int;
    assert(e * (e * x) <= (e + j) * (e * y)) by (nonlinear_arith)
        requires
            e * x <= (e + j) * y,
            e > 0,
    ;
    assert((e + j) * (e * y) <= (e + j) * ((e + k) * z)) by (nonlinear_arith)
        requires
            e * y <= (e + k) * z,
            e + j >= 0,
    ;
    assert((e + j) * ((e + k) * z) <= e * ((e + (j + k + 1)) * z)) by (nonlinear_arith)
        requires
            j <= 40,
            k <= 40,
            e > 1600,
            z >= 0,
    ;
    assert(e * x <= (e + (j + k + 1)) * z) by (nonlinear_arith)
        requires
            e * (e * x) <= e * ((e + (j + k + 1)) * z),
            e > 0,
    ;
    assert((e - j) * (e * y) <= e * (e * x)) by (nonlinear_arith)
        requires
            (e - j) * y <= e * x,
            e > 0,
    ;
    assert((e - j) * ((e - k) * z) <= (e - j) * (e * y)) by (nonlinear_arith)
        requires
            (e - k) * z <= e * y,
            e - j >= 0,
    ;
    assert(e * ((e - (j + k + 1)) * z) <= (e - j) * ((e - k) * z)) by (nonlinear_arith)
        requires
            j <= 40,
            k <= 40,
            j >= 0,
            k >= 0,
            e > 1600,
            z >= 0,
    ;
    assert((e - (j + k + 1)) * z <= e * x) by (nonlinear_arith)
        requires
            e * ((e - (j + k + 1)) * z) <= e * (e * x),
            e > 0,
    ;
}

#[verifier::spinoff_prover]
#[verifier::rlimit(50)]
proof fn lemma_near_back(x: nat, y: nat, k: nat)
    requires
        near(x, y, k),
        k <= 40,
    ensures
        near(y, x, k + 1),
{
    let e = HIGH as int;
    // e x <= (e + k) y, so (e - k - 1) x <= e y
    assert(e * ((e - (k + 1)) * x) <= (e - (k + 1)) * ((e + k) * y)) by (nonlinear_arith)
        requires
            e * x <= (e + k) * y,
            e > 41,
            k <= 40,
    ;
    assert((e - (k + 1)) * ((e + k) * y) <= e * (e * y)) by (nonlinear_arith)
        requires
            e > 41,
            0 <= k <= 40,
            y >= 0,
    ;
    assert((e - (k + 1)) * x <= e * y) by (nonlinear_arith)
        requires
            e * ((e - (k + 1)) * x) <= e * (e * y),
            e > 0,
    ;
    assert((e + (k + 1)) * ((e - k) * y) <= (e + (k + 1)) * (e * x)) by (nonlinear_arith)
        requires
            (e - k) * y <= e * x,
            e > 0,
            k >= 0,
    ;
    assert(e * (e * y) <= (e + (k + 1)) * ((e - k) * y)) by (nonlinear_arith)
        requires
            e > 2000,
            0 <= k <= 40,
            y >= 0,
    ;
    assert(e * y <= (e + (k + 1)) * x) by (nonlinear_arith)
        requires
            e * (e * y) <= (e + (k + 1)) * (e * x),
            e > 0,
    ;
}

/// Factors keep numbers near.
pub proof fn lemma_near_times(x: nat, y: nat, k: nat, f: nat)
    requires
        near(x, y, k),
    ensures
        near(x * f, y * f, k),
{
    let e = HIGH as int;
    assert((e - k) * (y * f) <= e * (x * f) && e * (x * f) <= (e + k) * (y * f))
        by (nonlinear_arith)
        requires
            (e - k) * y <= e * x,
            e * x <= (e + k) * y,
            f >= 0,
    ;
}

/// Factors can be left out.
pub proof fn lemma_near_cancel(x: nat, y: nat, k: nat, f: nat)
    requires
        near(x * f, y * f, k),
        f > 0,
    ensures
        near(x, y, k),
{
    let e = HIGH as int;
    assert((e - k) * y <= e * x && e * x <= (e + k) * y) by (nonlinear_arith)
        requires
            (e - k) * (y * f) <= e * (x * f),
            e * (x * f) <= (e + k) * (y * f),
            f > 0,
    ;
}

/// The quotient of two doubles that are near `na / da` and `nb / db`.
#[verifier::spinoff_prover]
#[verifier::rlimit(50)]
pub proof fn lemma_quotient(
    a: nat,
    b: nat,
    na: nat,
    da: nat,
    nb: nat,
    db: nat,
    i: nat,
    j: nat,
)
    requires
        near(a * da, na * pow2(1074), i),
        near(b * db, nb * pow2(1074), j),
        i <= 10,
        j <= 10,
        b > 0,
        a == 0 || !is_tiny(a, b),
        a <= b * pow2(1000),
    ensures
        near(nearest(a, b).units() * (da * nb), (na * db) * pow2(1074), i + j + 4),
{
    let u = pow2(1074);
    let r = nearest(a, b).units();
    lemma_pow2_pos(1074);
    lemma_nearest_error(a, b);
    assert(near(r * b, a * u, 1));
    // r b da db  ~  a u da db  ~  na u u db
    lemma_near_times(r * b, a * u, 1, da * db);
    lemma_near_times(a * da, na * u, i, u * db);
    assert((a * u) * (da * db) == (a * da) * (u * db)) by (nonlinear_arith);
    lemma_near_chain(
        (r * b) * (da * db),
        (a * u) * (da * db),
        (na * u) * (u * db),
        1,
        i,
    );
    // r da nb u  ~  r da b db
    lemma_near_back(b * db, nb * u, j);
    lemma_near_times(nb * u, b * db, j + 1, r * da);
    assert((b * db) * (r * da) == (r * b) * (da * db)) by (nonlinear_arith);
    lemma_near_chain(
        (nb * u) * (r * da),
        (r * b) * (da * db),
        (na * u) * (u * db),
        j + 1,
        i + 2,
    );
    assert((nb * u) * (r * da) == (r * (da * nb)) * u) by (nonlinear_arith);
    assert((na * u) * (u * db) == ((na * db) * u) * u) by (nonlinear_arith);
    lemma_near_cancel(r * (da * nb), (na * db) * u, i + j + 4, u);
}

/// A double near a number is about as large.
pub proof fn lemma_size(x: nat, y: nat, k: nat)
    requires
        near(x, y, k),
        k <= 40,
    ensures
        y <= 2 * x,
        x <= 2 * y,
{
    let e = HIGH as int;
    assert(y <= 2 * x && x <= 2 * y) by (nonlinear_arith)
        requires
            (e - k) * y <= e * x,
            e * x <= (e + k) * y,
            e > 100,
            k <= 40,
            y >= 0,
            x >= 0,
    ;
}

/// A whole number as a double.
proof fn lemma_whole(n: nat)
    requires
        n < 0x1_0000_0000_0000_0000,
    ensures
        near(Binary64::whole(n).units() * 1, n * pow2(1074), 1),
        n > 0 ==> Binary64::whole(n).units() > 0,
{
    vstd::arithmetic::power2::lemma2_to64();
    vstd::arithmetic::power2::lemma2_to64_rest();
    lemma_pow2_adds(64, 936);
    lemma_pow2_adds(52, 1022);
    lemma_pow2_pos(936);
    lemma_pow2_pos(1022);
    let k = pow2(1000);
    assert(n <= 1 * k) by (nonlinear_arith)
        requires
            n < 0x1_0000_0000_0000_0000,
            k == 0x1_0000_0000_0000_0000 * pow2(936),
            pow2(936) > 0,
    ;
    if n > 0 {
        let u = pow2(1074);
        assert(n * u >= LOW * 1) by (nonlinear_arith)
            requires
                n > 0,
                u == 0x10_0000_0000_0000 * pow2(1022),
                pow2(1022) > 0,
                LOW == 0x10_0000_0000_0000,
        ;
    }
    lemma_nearest_error(n, 1);
    let r = Binary64::whole(n).units();
    assert(r * 1 == r);
    lemma_size(r * 1, n * pow2(1074), 1);
    if n > 0 {
        lemma_pow2_pos(1074);
        assert(n * pow2(1074) > 0) by (nonlinear_arith)
            requires
                n > 0,
                pow2(1074) > 0,
        ;
    }
}

/// The quotient of two doubles of ordinary size is neither tiny nor huge.
#[verifier::spinoff_prover]
#[verifier::rlimit(50)]
pub proof fn lemma_ordinary(a: nat, b: nat, p: nat, q: nat)
    requires
        a <= p * b,
        b <= q * a,
        0 < p < 0x1_0000_0000_0000_0000_0000_0000_0000_0000,
        0 < q < 0x1_0000_0000_0000_0000_0000_0000_0000_0000_0000_0000_0000_0000,
        a > 0,
    ensures
        !is_tiny(a, b),
        a <= b * pow2(1000),
{
    vstd::arithmetic::power2::lemma2_to64();
    vstd::arithmetic::power2::lemma2_to64_rest();
    lemma_pow2_adds(64, 64);
    lemma_pow2_adds(128, 64);
    lemma_pow2_adds(128, 872);
    lemma_pow2_adds(192, 52);
    lemma_pow2_adds(244, 830);
    lemma_pow2_pos(872);
    lemma_pow2_pos(830);
    assert(pow2(128) == 0x1_0000_0000_0000_0000_0000_0000_0000_0000);
    assert(pow2(192) == 0x1_0000_0000_0000_0000_0000_0000_0000_0000_0000_0000_0000_0000);
    let u = pow2(1074);
    let k = pow2(1000);
    let h = pow2(872);
    let g = pow2(830);
    let low = LOW as nat;
    assert(p <= k) by (nonlinear_arith)
        requires
            k == pow2(128) * h,
            p < pow2(128),
            h >= 1,
    ;
    assert(p * b <= b * k) by (nonlinear_arith)
        requires
            p <= k,
            b >= 0,
    ;
    assert(low * q <= u) by (nonlinear_arith)
        requires
            u == (pow2(192) * low) * g,
            q < pow2(192),
            g >= 1,
            low > 0,
    ;
    assert(low * b <= a * u) by (nonlinear_arith)
        requires
            b <= q * a,
            low * q <= u,
            a > 0,
            low > 0,
    ;
}

/// A quotient of whole numbers as doubles.
pub proof fn lemma_share(part: nat, all: nat)
    requires
        part < 0x1_0000_0000_0000_0000,
        0 < all < 0x1_0000_0000_0000_0000,
    ensures
        near(
            Binary64::whole(part).over(Binary64::whole(all)).units() * all,
            part * pow2(1074),
            6,
        ),
{
    let a = Binary64::whole(part).units();
    let b = Binary64::whole(all).units();
    let u = pow2(1074);
    lemma_pow2_pos(1074);
    lemma_whole(part);
    lemma_whole(all);
    lemma_size(a * 1, part * u, 1);
    lemma_size(b * 1, all * u, 1);
    if part > 0 {
        let w = 0x1_0000_0000_0000_0000nat;
        assert(a <= (4 * w) * b && b <= (4 * w) * a) by (nonlinear_arith)
            requires
                a <= 2 * (part * u),
                part * u <= 2 * a,
                b <= 2 * (all * u),
                all * u <= 2 * b,
                0 < part < w,
                0 < all < w,
                u > 0,
        ;
        lemma_ordinary(a, b, 4 * w, 4 * w);
    } else {
        assert(part * u == 0) by (nonlinear_arith)
            requires
                part == 0,
        ;
        assert(0 <= b * pow2(1000)) by (nonlinear_arith);
    }
    lemma_quotient(a, b, part, 1, all, 1, 1, 1);
    let r = nearest(a, b).units();
    assert(r * (1 * all) == r * all && (part * 1) * u == part * u) by (nonlinear_arith);
}

// ── the laws ────────────────────────────────────────────────────────────────

/// A share is the quotient of its parts; a length of time is its nanoseconds over a
/// billion in seconds and over a million in milliseconds.
pub proof fn law_shares_and_times_are_quotients(part: u64, all: u64)
    ensures
        all == 0 ==> share(part as nat, all as nat) == Binary64::zero(),
        all > 0 ==> is_about(share(part as nat, all as nat), part as nat, all as nat),
        is_about(seconds(part as nat), part as nat, 1_000_000_000),
        is_about(millis(part as nat), part as nat, 1_000_000),
{
    if all > 0 {
        lemma_share(part as nat, all as nat);
        lemma_near_more(
            share(part as nat, all as nat).units() * all as nat,
            part as nat * pow2(1074),
            6,
            16,
        );
    }
    lemma_share(part as nat, 1_000_000_000);
    lemma_near_more(
        seconds(part as nat).units() * 1_000_000_000,
        part as nat * pow2(1074),
        6,
        16,
    );
    lemma_share(part as nat, 1_000_000);
    lemma_near_more(millis(part as nat).units() * 1_000_000, part as nat * pow2(1074), 6, 16);
}

/// Seconds are of ordinary size.
pub proof fn lemma_seconds(nanos: nat)
    requires
        0 < nanos < 0x1_0000_0000_0000_0000,
    ensures
        near(seconds(nanos).units() * 1_000_000_000, nanos * pow2(1074), 6),
        seconds(nanos).units() > 0,
        pow2(1074) <= 2_000_000_000 * seconds(nanos).units(),
        seconds(nanos).units() <= 0x2_0000_0000_0000_0000 * pow2(1074),
{
    lemma_share(nanos, 1_000_000_000);
    let s = seconds(nanos).units();
    let u = pow2(1074);
    lemma_pow2_pos(1074);
    lemma_size(s * 1_000_000_000, nanos * u, 6);
    assert(u <= 2_000_000_000 * s && s <= 0x2_0000_0000_0000_0000 * u) by (nonlinear_arith)
        requires
            nanos * u <= 2 * (s * 1_000_000_000),
            s * 1_000_000_000 <= 2 * (nanos * u),
            0 < nanos < 0x1_0000_0000_0000_0000,
            u > 0,
    ;
}

/// A number of events per second is their number over the time.
pub proof fn law_events_per_second_are_events_over_time(count: u64, nanos: u64)
    ensures
        nanos == 0 ==> per_second(count as nat, nanos as nat) == Binary64::zero(),
        nanos > 0 ==> is_about(
            per_second(count as nat, nanos as nat),
            count as nat * 1_000_000_000,
            nanos as nat,
        ),
{
    if nanos > 0 {
        let a = Binary64::whole(count as nat).units();
        let b = seconds(nanos as nat).units();
        let u = pow2(1074);
        let n = count as nat;
        lemma_whole(n);
        lemma_seconds(nanos as nat);
        lemma_size(a * 1, n * u, 1);
        lemma_pow2_pos(1074);
        let w = 0x1_0000_0000_0000_0000nat;
        if n > 0 {
            assert(a <= (w * 8_000_000_000) * b && b <= (w * 8) * a) by (nonlinear_arith)
                requires
                    a <= 2 * (n * u),
                    n * u <= 2 * a,
                    u <= 2_000_000_000 * b,
                    b <= 0x2_0000_0000_0000_0000 * u,
                    0 < n < w,
                    u > 0,
                    w == 0x1_0000_0000_0000_0000,
            ;
            lemma_ordinary(a, b, w * 8_000_000_000, w * 8);
        } else {
            assert(n * u == 0) by (nonlinear_arith)
                requires
                    n == 0,
            ;
            assert(0 <= b * pow2(1000)) by (nonlinear_arith);
        }
        lemma_quotient(a, b, n, 1, nanos as nat, 1_000_000_000, 1, 6);
        let r = per_second(n, nanos as nat).units();
        assert(r * (1 * nanos as nat) == r * nanos as nat);
        lemma_near_more(r * nanos as nat, (n * 1_000_000_000) * u, 11, 16);
    }
}

/// A throughput in mebibytes per second is the bytes over the time.
pub proof fn law_a_throughput_is_bytes_over_time(bytes: u64, nanos: u64)
    ensures
        nanos == 0 ==> mib_per_second(bytes as nat, nanos as nat) == Binary64::zero(),
        nanos > 0 ==> is_about(
            mib_per_second(bytes as nat, nanos as nat),
            bytes as nat * 1_000_000_000,
            1024 * 1024 * nanos as nat,
        ),
{
    if nanos > 0 {
        let n = bytes as nat;
        let mib = Binary64::whole(n).over(Binary64::whole(1_048_576));
        let a = mib.units();
        let b = seconds(nanos as nat).units();
        let u = pow2(1074);
        lemma_pow2_pos(1074);
        lemma_share(n, 1_048_576);
        lemma_seconds(nanos as nat);
        lemma_size(a * 1_048_576, n * u, 6);
        let w = 0x1_0000_0000_0000_0000nat;
        if n > 0 {
            assert(a > 0 && a <= (w * 8_000_000_000) * b && b <= (w * 8_388_608) * a)
                by (nonlinear_arith)
                requires
                    a * 1_048_576 <= 2 * (n * u),
                    n * u <= 2 * (a * 1_048_576),
                    u <= 2_000_000_000 * b,
                    b <= 0x2_0000_0000_0000_0000 * u,
                    0 < n < w,
                    u > 0,
                    w == 0x1_0000_0000_0000_0000,
            ;
            lemma_ordinary(a, b, w * 8_000_000_000, w * 8_388_608);
        } else {
            assert(a == 0) by (nonlinear_arith)
                requires
                    a * 1_048_576 <= 2 * (n * u),
                    n == 0,
            ;
            assert(0 <= b * pow2(1000)) by (nonlinear_arith);
        }
        lemma_quotient(a, b, n, 1_048_576, nanos as nat, 1_000_000_000, 6, 6);
    }
}

/// Every throughput that is reported is that of the bytes and the wall time of what was
/// measured: of a file, a thread, a bulk read, a block size, a write benchmark and a
/// directory scan. The random-access rate is that of its reads.
pub proof fn law_every_rate_is_that_of_its_own_numbers(
    m: FileMeasurement,
    t: ThreadStat,
    b: BulkMeasurement,
    p: SweepPoint,
    w: WriteMeasurement,
    a: Aggregate,
    r: RandomMeasurement,
)
    ensures
        m.wall_nanos > 0 ==> is_about(
            m.rate(),
            m.bytes_read as nat * 1_000_000_000,
            1024 * 1024 * m.wall_nanos as nat,
        ),
        t.wall_nanos > 0 ==> is_about(
            t.rate(),
            t.bytes as nat * 1_000_000_000,
            1024 * 1024 * t.wall_nanos as nat,
        ),
        b.wall_nanos > 0 ==> is_about(
            b.rate(),
            b.bytes_read as nat * 1_000_000_000,
            1024 * 1024 * b.wall_nanos as nat,
        ),
        p.wall_nanos > 0 ==> is_about(
            p.rate(),
            p.bytes as nat * 1_000_000_000,
            1024 * 1024 * p.wall_nanos as nat,
        ),
        w.wall_nanos > 0 ==> is_about(
            w.rate(),
            w.bytes as nat * 1_000_000_000,
            1024 * 1024 * w.wall_nanos as nat,
        ),
        a.wall_nanos > 0 ==> is_about(
            a.rate(),
            a.bytes as nat * 1_000_000_000,
            1024 * 1024 * a.wall_nanos as nat,
        ),
        r.wall_nanos > 0 ==> is_about(
            r.rate(),
            r.ops as nat * 1_000_000_000,
            r.wall_nanos as nat,
        ),
{
    law_a_throughput_is_bytes_over_time(m.bytes_read, m.wall_nanos);
    law_a_throughput_is_bytes_over_time(t.bytes, t.wall_nanos);
    law_a_throughput_is_bytes_over_time(b.bytes_read, b.wall_nanos);
    law_a_throughput_is_bytes_over_time(p.bytes, p.wall_nanos);
    law_a_throughput_is_bytes_over_time(w.bytes, w.wall_nanos);
    law_a_throughput_is_bytes_over_time(a.bytes, a.wall_nanos);
    law_events_per_second_are_events_over_time(r.ops, r.wall_nanos);
}

/// The share of the wall time that was spent in reads is the time of the reads over the
/// wall time, and one where that would be more. Where no time has passed it is zero.
pub proof fn law_the_busy_share_is_read_time_over_wall_time(m: FileMeasurement, t: u64)
    requires
        is_time(m.read_ticks as nat, m.counter_hz as nat, t as nat),
    ensures
        m.wall_nanos == 0 ==> m.busy() == Binary64::zero(),
        m.wall_nanos > 0 && 1001 * t <= 1000 * m.wall_nanos ==> is_about(
            m.busy(),
            t as nat,
            m.wall_nanos as nat,
        ),
        m.wall_nanos > 0 && 1000 * t >= 1001 * m.wall_nanos ==> m.busy() == Binary64::whole(1),
{
    let u = pow2(1074);
    let wall = m.wall_nanos as nat;
    let n = nanos_in(m.read_ticks as nat, m.counter_hz as nat);
    law_ticks_become_whole_nanoseconds(m.read_ticks as nat, m.counter_hz as nat);
    lemma_one_time(m.read_ticks as nat, m.counter_hz as nat, t as nat, n);
    lemma_whole_is_exact(1);
    lemma_pow2_pos(1074);
    assert(Binary64::whole(1).units() == u);
    assert(Binary64::zero().units() == 0) by (nonlinear_arith)
        requires
            Binary64::zero().units() == 0 * u,
    ;
    if wall > 0 {
        law_shares_and_times_are_quotients(t, m.wall_nanos);
        let r = share(t as nat, wall).units();
        let e = HIGH as int;
        if 1001 * t <= 1000 * m.wall_nanos {
            assert(r <= u) by (nonlinear_arith)
                requires
                    e * (r * wall) <= (e + 16) * (t as nat * u),
                    1001 * t as nat <= 1000 * wall,
                    e > 100_000,
                    wall > 0,
                    u > 0,
            ;
        }
        if 1000 * t >= 1001 * m.wall_nanos {
            assert(r > u) by (nonlinear_arith)
                requires
                    (e - 16) * (t as nat * u) <= e * (r * wall),
                    1000 * t as nat >= 1001 * wall,
                    e > 100_000,
                    wall > 0,
                    u > 0,
            ;
        }
    }
}

// ── how numbers are written ─────────────────────────────────────────────────

proof fn lemma_digits_push(s: Seq<char>, c: char)
    ensures
        digits_value(s.push(c)) == digits_value(s) * 10 + (c as nat - 48) as nat,
{
    assert(s.push(c).drop_last() == s);
}

proof fn lemma_zeros(k: nat, s: Seq<char>)
    ensures
        digits_value(repeated('0', k as int) + s) == digits_value(s),
    decreases s.len(), k,
{
    let zeros = repeated('0', k as int);
    if s.len() > 0 {
        lemma_zeros(k, s.drop_last());
        assert((zeros + s).drop_last() == zeros + s.drop_last());
    } else if k > 0 {
        lemma_zeros((k - 1) as nat, s);
        let fewer = repeated('0', k - 1);
        assert(zeros + s == (fewer + s).push('0'));
        lemma_digits_push(fewer + s, '0');
        assert('0' as nat == 48);
    } else {
        assert(zeros + s == s);
    }
}

proof fn lemma_decimal_length(n: nat, p: nat)
    requires
        n < pow10(p),
        p > 0,
    ensures
        0 < decimal(n).len() <= p,
    decreases p,
{
    if n >= 10 {
        if p == 1 {
            assert(pow10(1) == 10 * pow10(0));
        }
        assert(pow10(p) == 10 * pow10((p - 1) as nat));
        lemma_decimal_length(n / 10, (p - 1) as nat);
    }
}

proof fn lemma_pow10_pos(p: nat)
    ensures
        pow10(p) > 0,
    decreases p,
{
    if p > 0 {
        lemma_pow10_pos((p - 1) as nat);
    }
}

/// What a text with a point stands for, counted in the unit of its last digit.
pub open spec fn point_value(whole: Seq<char>, behind: Seq<char>, unit: nat) -> nat {
    digits_value(whole) * unit + digits_value(behind)
}

/// A double is written with as many digits behind the point as asked for, and stands for
/// a number that is off by no more than half of its last digit.
pub proof fn law_a_written_double_is_rounded_to_its_last_digit(x: Binary64, p: nat)
    ensures
        exists|whole: Seq<char>, behind: Seq<char>|
            x.fixed(p) == (if p == 0 {
                whole
            } else {
                whole + seq!['.'] + behind
            }) && behind.len() == p && {
                let v = #[trigger] point_value(whole, behind, pow10(p));
                &&& 2 * (v * pow2(1074)) <= 2 * (x.units() * pow10(p)) + pow2(1074)
                &&& 2 * (x.units() * pow10(p)) <= 2 * (v * pow2(1074)) + pow2(1074)
            },
{
    let t = pow10(p);
    let u = pow2(1074);
    lemma_pow2_pos(1074);
    lemma_pow10_pos(p);
    let q = half_even(x.units() * t, u);
    lemma_half_even_error(x.units() * t, u);
    if p == 0 {
        let none = Seq::<char>::empty();
        law_a_decimal_number_reads_back(q);
        assert(point_value(decimal(q), none, t) == q) by (nonlinear_arith)
            requires
                point_value(decimal(q), none, t) == q * t + 0,
                t == 1,
        ;
    } else {
        let a = q / t;
        let b = q % t;
        let whole = decimal(a);
        let behind = zero_padded(b, p);
        law_a_decimal_number_reads_back(a);
        law_a_decimal_number_reads_back(b);
        lemma_decimal_length(b, p);
        lemma_zeros((p - decimal(b).len()) as nat, decimal(b));
        assert(behind.len() == p);
        assert(x.fixed(p) == whole + seq!['.'] + behind) by {
            assert(whole.push('.') == whole + seq!['.']);
        }
        assert(q == a * t + b) by (nonlinear_arith)
            requires
                a == q / t,
                b == q % t,
                t > 0,
        ;
        assert(point_value(whole, behind, t) == q);
    }
}

/// A length of time is written in the largest of nanoseconds, microseconds and
/// milliseconds of which it has one, cut to whole ones.
pub proof fn law_a_length_of_time_is_cut_to_its_unit(n: nat)
    ensures
        exists|k: nat|
            {
                ||| n < 1_000 && human_ns_text(n) == #[trigger] decimal(k) + " ns"@ && k == n
                ||| 1_000 <= n < 1_000_000 && human_ns_text(n) == decimal(k) + " µs"@ && k * 1_000
                    <= n < (k + 1) * 1_000
                ||| n >= 1_000_000 && human_ns_text(n) == decimal(k) + " ms"@ && k * 1_000_000 <= n
                    < (k + 1) * 1_000_000
            },
{
    let k = if n < 1_000 {
        n
    } else if n < 1_000_000 {
        n / 1_000
    } else {
        n / 1_000_000
    };
    assert(human_ns_text(n) == decimal(k) + (if n < 1_000 {
        " ns"@
    } else if n < 1_000_000 {
        " µs"@
    } else {
        " ms"@
    }));
}

/// A byte count below 1024 is written in full; another in the largest of kibibytes,
/// mebibytes and gibibytes of which it has one, with one digit behind the point.
pub proof fn law_a_byte_count_is_written_in_its_unit(n: u64)
    ensures
        n < 1024 ==> human_bytes_text(n as nat) == decimal(n as nat) + " B"@,
        n >= 1024 ==> exists|x: Binary64|
            {
                ||| n < 1024 * 1024 && human_bytes_text(n as nat) == #[trigger] x.fixed(1)
                    + " KiB"@ && is_about(x, n as nat, 1024)
                ||| 1024 * 1024 <= n < 1024 * 1024 * 1024 && human_bytes_text(n as nat) == x.fixed(
                    1,
                ) + " MiB"@ && is_about(x, n as nat, 1024 * 1024)
                ||| n >= 1024 * 1024 * 1024 && human_bytes_text(n as nat) == x.fixed(1) + " GiB"@
                    && is_about(x, n as nat, 1024 * 1024 * 1024)
            },
{
    if n >= 1024 {
        let unit: u64 = if n < 0x10_0000 {
            0x400
        } else if n < 0x4000_0000 {
            0x10_0000
        } else {
            0x4000_0000
        };
        let x = Binary64::whole(n as nat).over(Binary64::whole(unit as nat));
        law_shares_and_times_are_quotients(n, unit);
        assert(x == share(n as nat, unit as nat));
        assert(tenths(n as nat, unit as nat) == x.fixed(1));
    }
}

} // verus!
