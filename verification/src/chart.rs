//! The lengths of bars in charts and progress displays.

use vstd::arithmetic::power2::{lemma_pow2_adds, lemma_pow2_pos, pow2};
use vstd::prelude::*;

use crate::binary64::{
    lemma_nearest_at_most, lemma_nearest_below, lemma_nearest_ratio, lemma_pattern_order,
    lemma_share_of_itself, lemma_whole_exponent, lemma_whole_is_exact, lemma_whole_is_positive,
    lemma_whole_part_at_most, nearest, Binary64,
};
use crate::rate::{capped, capped_of, one, seconds, seconds_of, share, share_of};

verus! {

/// A value that a full bar can stand for.
pub open spec fn is_scale(v: Binary64) -> bool {
    v.wf() && v.mantissa > 0 && -82 <= v.exponent
}

/// The largest of some values; zero where there are none.
pub open spec fn largest(values: Seq<Binary64>) -> Binary64
    decreases values.len(),
{
    if values.len() == 0 {
        Binary64::zero()
    } else {
        largest(values.drop_last()).larger(values.last())
    }
}

/// The value of a full bar: the largest of the values, and no less than a
/// billionth.
pub open spec fn full_scale(values: Seq<Binary64>) -> Binary64 {
    largest(values).larger(seconds(1))
}

/// A bar's length where a full bar has length `width`.
pub open spec fn bar(value: Binary64, full: Binary64, width: nat) -> Binary64 {
    value.over(full).scaled(width)
}

/// The cells that a bar fills out of `width`; a bar has at least one.
pub open spec fn bar_cells(value: Binary64, full: Binary64, width: nat) -> nat {
    let n = bar(value, full, width).round();
    if n < 1 {
        1
    } else {
        n
    }
}

/// The value of a full bar over `values`.
pub fn full_scale_of(values: &Vec<Binary64>) -> (r: Binary64)
    requires
        forall|i: int| 0 <= i < values@.len() ==> (#[trigger] values@[i]).wf(),
    ensures
        r == full_scale(values@),
        is_scale(r),
        forall|i: int| 0 <= i < values@.len() ==> (#[trigger] values@[i]).units() <= r.units(),
{
    let mut top = Binary64 { mantissa: 0, exponent: 0 };
    for k in 0..values.len()
        invariant
            forall|i: int| 0 <= i < values@.len() ==> (#[trigger] values@[i]).wf(),
            top == largest(values@.take(k as int)),
            top.wf(),
            forall|i: int| 0 <= i < k ==> (#[trigger] values@[i]).units() <= top.units(),
    {
        proof {
            assert(values@.take(k + 1).drop_last() == values@.take(k as int));
        }
        top = top.max_with(values[k]);
    }
    assert(values@.take(values@.len() as int) == values@);
    let least = seconds_of(1);
    let r = top.max_with(least);
    proof {
        lemma_units_positive(least);
        lemma_pattern_order(r, least);
        if r.mantissa == 0 {
            assert(r.units() == 0) by (nonlinear_arith)
                requires
                    r.units() == r.mantissa as nat * pow2((r.exponent + 1074) as nat),
                    r.mantissa == 0,
            ;
        }
    }
    r
}

proof fn lemma_units_positive(a: Binary64)
    requires
        a.mantissa > 0,
    ensures
        a.units() > 0,
{
    lemma_pow2_pos((a.exponent + 1074) as nat);
    assert(a.units() > 0) by (nonlinear_arith)
        requires
            a.units() == a.mantissa as nat * pow2((a.exponent + 1074) as nat),
            a.mantissa > 0,
            pow2((a.exponent + 1074) as nat) > 0,
    ;
}

/// The length of a bar whose value and scale are of similar size.
fn near_bar_of(value: Binary64, full: Binary64, width: u32) -> (r: Binary64)
    requires
        value.moderate(),
        full.moderate(),
        -60 <= value.exponent - full.exponent <= 60,
        value.mantissa > 0,
        full.mantissa > 0,
        value.units() <= full.units(),
        0 < width <= 2048,
    ensures
        r == bar(value, full, width as nat),
        r.wf(),
        r.units() <= width * pow2(1074),
        r.exponent <= 10,
{
    let q = value.divided_by(full);
    let r = q.times(width);
    proof {
        lemma_units_positive(full);
        lemma_units_positive(value);
        lemma_pow2_pos(1074);
        lemma_nearest_at_most(value.units(), full.units(), 1);
        lemma_scaled_at_most(q, width as nat);
        lemma_below_one(q);
    }
    r
}

/// Doubles that are both shifted by the same power of two have the same quotient.
proof fn lemma_shifted_quotient(a: Binary64, b: Binary64, c: Binary64, d: Binary64)
    requires
        a.mantissa == c.mantissa,
        b.mantissa == d.mantissa,
        b.mantissa > 0,
        a.exponent - b.exponent == c.exponent - d.exponent,
        -1074 <= a.exponent,
        -1074 <= b.exponent,
        -1074 <= c.exponent,
        -1074 <= d.exponent,
    ensures
        a.over(b) == c.over(d),
        a.units() <= b.units() ==> c.units() <= d.units(),
{
    let x = a.mantissa as nat;
    let y = b.mantissa as nat;
    let u = pow2((a.exponent + 1074) as nat);
    let v = pow2((b.exponent + 1074) as nat);
    let s = pow2((c.exponent + 1074) as nat);
    let t = pow2((d.exponent + 1074) as nat);
    lemma_units_positive(b);
    lemma_units_positive(d);
    lemma_pow2_pos((a.exponent + 1074) as nat);
    lemma_pow2_pos((b.exponent + 1074) as nat);
    lemma_pow2_pos((c.exponent + 1074) as nat);
    lemma_pow2_pos((d.exponent + 1074) as nat);
    lemma_pow2_adds((a.exponent + 1074) as nat, (d.exponent + 1074) as nat);
    lemma_pow2_adds((c.exponent + 1074) as nat, (b.exponent + 1074) as nat);
    assert(u * t == s * v);
    assert((x * u) * (y * t) == (x * s) * (y * v)) by (nonlinear_arith)
        requires
            u * t == s * v,
    ;
    lemma_nearest_ratio(a.units(), b.units(), c.units(), d.units());
    if a.units() <= b.units() {
        assert(x * s <= y * t) by (nonlinear_arith)
            requires
                x * u <= y * v,
                u * t == s * v,
                u > 0,
                v > 0,
                s > 0,
                t > 0,
        ;
    }
}

/// A bar whose value is far below its scale is short.
proof fn lemma_short_bar(value: Binary64, full: Binary64, width: nat)
    requires
        value.wf(),
        is_scale(full),
        value.mantissa > 0 ==> value.exponent + 60 < full.exponent,
        0 < width <= 2048,
    ensures
        4 * bar(value, full, width).units() <= pow2(1074),
{
    let n = value.units();
    let d = full.units();
    let q = value.over(full);
    lemma_units_positive(full);
    lemma_pow2_adds(50, 1024);
    lemma_pow2_adds(11, 1024);
    lemma_pow2_adds(39, 1035);
    lemma_pow2_adds(2, 1072);
    lemma_pow2_adds(37, 1035);
    vstd::arithmetic::power2::lemma2_to64();
    vstd::arithmetic::power2::lemma2_to64_rest();
    if value.mantissa == 0 {
        assert(n == 0) by (nonlinear_arith)
            requires
                n == value.mantissa as nat * pow2((value.exponent + 1074) as nat),
                value.mantissa == 0,
        ;
    } else {
        let u = pow2((value.exponent + 1074) as nat);
        let v = pow2((full.exponent + 1074) as nat);
        lemma_pow2_adds((value.exponent + 1074) as nat, 60);
        lemma_pow2_adds(
            (value.exponent + 1134) as nat,
            (full.exponent - value.exponent - 60) as nat,
        );
        lemma_pow2_pos((full.exponent - value.exponent - 60) as nat);
        lemma_pow2_pos((value.exponent + 1074) as nat);
        let g = pow2((full.exponent - value.exponent - 60) as nat);
        let x = value.mantissa as nat;
        let y = full.mantissa as nat;
        assert((x * u) * 0x4_0000_0000_0000 <= y * v) by (nonlinear_arith)
            requires
                x < 0x20_0000_0000_0000,
                y >= 0x10_0000_0000_0000,
                v == (u * 0x1000_0000_0000_0000) * g,
                g >= 1,
                u >= 1,
        ;
    }
    assert(n * pow2(50) <= d) by (nonlinear_arith)
        requires
            n == 0 || n * 0x4_0000_0000_0000 <= d,
            pow2(50) == 0x4_0000_0000_0000,
            d >= 0,
    ;
    lemma_nearest_below(n, d, 50);
    let m = q.units() * width;
    lemma_pow2_pos(1024);
    assert(m <= 2048 * pow2(1024)) by (nonlinear_arith)
        requires
            m == q.units() * width,
            q.units() <= pow2(1024),
            width <= 2048,
    ;
    lemma_pow2_pos(1074);
    assert(m * pow2(39) <= pow2(1074)) by (nonlinear_arith)
        requires
            m <= pow2(1035),
            pow2(39) * pow2(1035) == pow2(1074),
    ;
    lemma_nearest_below(m, pow2(1074), 39);
    lemma_pow2_pos(1072);
    assert(pow2(1035) <= pow2(1072)) by (nonlinear_arith)
        requires
            pow2(1072) == pow2(37) * pow2(1035),
            pow2(37) >= 1,
    ;
}

/// The length of the bar for `value` where `full` has length `width`, or nothing
/// where that is no more than a quarter.
pub fn bar_of(value: Binary64, full: Binary64, width: u32) -> (r: Option<Binary64>)
    requires
        value.wf(),
        is_scale(full),
        value.units() <= full.units(),
        0 < width <= 2048,
    ensures
        r matches Some(b) ==> {
            &&& b == bar(value, full, width as nat)
            &&& b.wf()
            &&& b.units() <= width * pow2(1074)
            &&& b.exponent <= 10
        },
        r is None ==> 4 * bar(value, full, width as nat).units() <= pow2(1074),
{
    if value.mantissa == 0 || full.exponent - value.exponent > 60 {
        proof {
            lemma_short_bar(value, full, width as nat);
        }
        return None;
    }
    let v = Binary64 { mantissa: value.mantissa, exponent: value.exponent - full.exponent };
    let f = Binary64 { mantissa: full.mantissa, exponent: 0 };
    proof {
        lemma_pattern_order(full, value);
        assert(value.exponent <= full.exponent);
        lemma_shifted_quotient(value, full, v, f);
    }
    Some(near_bar_of(v, f, width))
}

proof fn lemma_below_one(q: Binary64)
    requires
        q.wf(),
        q.mantissa > 0,
        q.units() <= pow2(1074),
    ensures
        q.exponent < -42,
{
    lemma_pow2_pos(1074);
    crate::binary64::lemma_exponent_at_most(q);
}

proof fn lemma_scaled_at_most(q: Binary64, k: nat)
    requires
        q.units() <= pow2(1074),
        0 < k <= 2048,
    ensures
        q.scaled(k).units() <= k * pow2(1074),
{
    assert(q.units() * k <= k * pow2(1074)) by (nonlinear_arith)
        requires
            q.units() <= pow2(1074),
    ;
    lemma_pow2_pos(1074);
    lemma_nearest_at_most(q.units() * k, pow2(1074), k);
}

/// The cells that the bar for `value` fills out of `width`.
pub fn bar_cells_of(value: Binary64, full: Binary64, width: u32) -> (n: usize)
    requires
        value.wf(),
        is_scale(full),
        value.units() <= full.units(),
        0 < width <= 2048,
    ensures
        n == bar_cells(value, full, width as nat),
        1 <= n <= width,
{
    match bar_of(value, full, width) {
        Some(b) => {
            proof {
                lemma_whole_part_at_most(b, width as nat);
            }
            let n = b.round_of() as usize;
            if n < 1 {
                1
            } else {
                n
            }
        },
        None => {
            proof {
                let u = bar(value, full, width as nat).units();
                let g = pow2(1074);
                lemma_pow2_pos(1074);
                assert((2 * u + g) / (2 * g) == 0) by (nonlinear_arith)
                    requires
                        4 * u <= g,
                        g > 0,
                        u >= 0,
                ;
            }
            1
        },
    }
}

// ── progress ────────────────────────────────────────────────────────────────

/// How much of a whole is done, as a number from zero to one; nothing out of
/// nothing is all of it.
pub open spec fn done_share(done: nat, all: nat) -> Binary64 {
    if all == 0 {
        Binary64::whole(1)
    } else {
        capped(share(done, all))
    }
}

/// The cells of a progress bar that are filled out of `width`.
pub open spec fn done_cells(done: nat, all: nat, width: nat) -> nat {
    done_share(done, all).scaled(width).round()
}

/// The percentage that is done, cut to a whole number.
pub open spec fn done_percent(done: nat, all: nat) -> nat {
    done_share(done, all).scaled(100).floor()
}

/// How much of `all` is done.
pub fn done_share_of(done: u64, all: u64) -> (r: Binary64)
    ensures
        r == done_share(done as nat, all as nat),
        r.moderate(),
        r.units() <= pow2(1074),
        -117 <= r.exponent <= 13,
{
    if all == 0 {
        one()
    } else {
        capped_of(share_of(done, all))
    }
}

/// `width` times a share.
fn part_of(s: Binary64, width: u32) -> (r: Binary64)
    requires
        s.moderate(),
        s.units() <= pow2(1074),
        -117 <= s.exponent <= 13,
        0 < width <= 2048,
    ensures
        r == s.scaled(width as nat),
        r.wf(),
        r.exponent <= 10,
        r.units() <= width * pow2(1074),
{
    let r = s.times(width);
    proof {
        lemma_pow2_pos(1074);
        if s.mantissa > 0 {
            lemma_scaled_at_most(s, width as nat);
            lemma_below_one(s);
        } else {
            assert(s.units() * width as nat == 0) by (nonlinear_arith)
                requires
                    s.units() == s.mantissa as nat * pow2((s.exponent + 1074) as nat),
                    s.mantissa == 0,
            ;
            lemma_scaled_at_most(s, width as nat);
        }
    }
    r
}

/// The filled cells out of `width`.
pub fn done_cells_of(done: u64, all: u64, width: u32) -> (n: usize)
    requires
        0 < width <= 2048,
    ensures
        n == done_cells(done as nat, all as nat, width as nat),
        n <= width,
{
    let r = part_of(done_share_of(done, all), width);
    proof {
        lemma_whole_part_at_most(r, width as nat);
    }
    r.round_of() as usize
}

/// The percentage that is done.
pub fn done_percent_of(done: u64, all: u64) -> (n: u64)
    ensures
        n == done_percent(done as nat, all as nat),
        n <= 100,
{
    let r = part_of(done_share_of(done, all), 100);
    proof {
        lemma_whole_part_at_most(r, 100);
    }
    r.floor_of()
}

proof fn lemma_all_of_a_width(width: nat)
    requires
        0 < width <= 2048,
    ensures
        Binary64::whole(1).scaled(width).floor() == width,
        Binary64::whole(1).scaled(width).round() == width,
{
    let g = pow2(1074);
    lemma_pow2_pos(1074);
    lemma_whole_is_exact(1);
    lemma_whole_is_exact(width);
    assert(width * g == g * width) by (nonlinear_arith);
    lemma_nearest_ratio(width, 1, g * width, g);
    let u = Binary64::whole(1).scaled(width).units();
    assert(u / g == width) by (nonlinear_arith)
        requires
            u == width * g,
            g > 0,
    ;
    assert((2 * u + g) / (2 * g) == width) by (nonlinear_arith)
        requires
            u == width * g,
            g > 0,
    ;
}

/// A progress bar is full, and stands at a hundred percent, when everything is
/// done; where there is nothing to do, too.
pub proof fn law_a_finished_bar_is_full(n: u64, width: nat)
    requires
        0 < width <= 2048,
    ensures
        done_cells(n as nat, n as nat, width) == width,
        done_percent(n as nat, n as nat) == 100,
{
    if n > 0 {
        lemma_whole_is_positive(n as nat);
        lemma_share_of_itself(Binary64::whole(n as nat).units());
    }
    lemma_all_of_a_width(width);
    lemma_all_of_a_width(100);
}

} // verus!
