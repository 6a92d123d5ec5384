//! Non-negative double-precision numbers in integer arithmetic.
//!
//! Rates, fractions and bar lengths are IEEE 754 binary64 quantities: each
//! operation yields the double nearest to the exact result, ties to even. Here
//! a double is held as the integers `mantissa * 2^exponent`, so that every
//! rounding step is an integer division that can be stated and proved.

use vstd::arithmetic::power2::{lemma_pow2_adds, lemma_pow2_pos, lemma_pow2_unfold, pow2};
use vstd::prelude::*;

use crate::text::{decimal, decimal_of, zero_padded, zero_padded_of};

verus! {

/// The smallest normal mantissa, two to the power of 52.
pub const LOW: u64 = 0x10_0000_0000_0000;

/// One more than the largest mantissa, two to the power of 53.
pub const HIGH: u64 = 0x20_0000_0000_0000;

/// The double `mantissa * 2^exponent`.
#[derive(Clone, Copy, PartialEq, Eq, Structural, Debug)]
pub struct Binary64 {
    pub mantissa: u64,
    pub exponent: i32,
}

/// The quotient of two numbers rounded to the nearest integer, ties to even.
pub open spec fn half_even(n: nat, d: nat) -> nat {
    let q = n / d;
    let r = n % d;
    if 2 * r < d || (2 * r == d && q % 2 == 0) {
        q
    } else {
        q + 1
    }
}

/// Whether `n / d` is smaller than every normal double.
pub open spec fn is_tiny(n: nat, d: nat) -> bool {
    n * pow2(1074) < LOW * d
}

/// Whether `n / d` lies in the range of the normal doubles with exponent `e`.
pub open spec fn in_binade(n: nat, d: nat, e: int) -> bool {
    &&& -1074 <= e
    &&& LOW * (d * pow2((e + 2000) as nat)) <= n * pow2(2000)
    &&& n * pow2(2000) < HIGH * (d * pow2((e + 2000) as nat))
}

/// Whether `n / d` lies in the range of the normal doubles.
pub open spec fn in_range(n: nat, d: nat) -> bool {
    exists|e: int| in_binade(n, d, e)
}

/// The double of a mantissa that rounding may have carried over.
pub open spec fn carried(m: nat, e: int) -> Binary64 {
    if m == HIGH {
        Binary64 { mantissa: LOW, exponent: (e + 1) as i32 }
    } else {
        Binary64 { mantissa: m as u64, exponent: e as i32 }
    }
}

/// The double of a mantissa at the lowest exponent.
pub open spec fn lowest(m: nat) -> Binary64 {
    if m == 0 {
        Binary64 { mantissa: 0, exponent: 0 }
    } else {
        Binary64 { mantissa: m as u64, exponent: (-1074) as i32 }
    }
}

/// The double nearest to `n / d`, ties to even. What is smaller than every normal
/// double is rounded at the lowest exponent. Past the largest double the exponent
/// goes on growing: there is no infinity.
pub open spec fn nearest(n: nat, d: nat) -> Binary64 {
    if n == 0 {
        Binary64 { mantissa: 0, exponent: 0 }
    } else if is_tiny(n, d) {
        lowest(half_even(n * pow2(1074), d))
    } else {
        let e = choose|e: int| in_binade(n, d, e);
        carried(half_even(n * pow2(2000), d * pow2((e + 2000) as nat)), e)
    }
}

/// The power of ten with the given exponent.
pub open spec fn pow10(p: nat) -> nat
    decreases p,
{
    if p == 0 {
        1
    } else {
        10 * pow10((p - 1) as nat)
    }
}

/// A count of 10^-p in decimal notation, with `p` digits behind the point.
pub open spec fn with_point(n: nat, p: nat) -> Seq<char> {
    if p == 0 {
        decimal(n)
    } else {
        decimal(n / pow10(p)).push('.') + zero_padded(n % pow10(p), p)
    }
}

impl Binary64 {
    /// A finite double that is not negative: zero, a full mantissa at one of the
    /// exponents, or a smaller one at the lowest exponent.
    pub open spec fn wf(self) -> bool {
        ||| self.mantissa == 0 && self.exponent == 0
        ||| LOW <= self.mantissa < HIGH && -1074 <= self.exponent <= 971
        ||| 0 < self.mantissa < LOW && self.exponent == -1074
    }

    /// A value whose exponent leaves room for one more division.
    pub open spec fn moderate(self) -> bool {
        &&& self.wf()
        &&& -150 <= self.exponent <= 150
    }

    /// The value, counted in units of the least double, two to the power of -1074.
    pub open spec fn units(self) -> nat {
        self.mantissa as nat * pow2((self.exponent + 1074) as nat)
    }

    /// Zero.
    pub open spec fn zero() -> Binary64 {
        Binary64 { mantissa: 0, exponent: 0 }
    }

    /// The double nearest to a whole number.
    pub open spec fn whole(n: nat) -> Binary64 {
        nearest(n, 1)
    }

    /// The double nearest to the quotient of two doubles.
    pub open spec fn over(self, other: Binary64) -> Binary64 {
        nearest(self.units(), other.units())
    }

    /// The double nearest to `k` times a double.
    pub open spec fn scaled(self, k: nat) -> Binary64 {
        nearest(self.units() * k, pow2(1074))
    }

    /// The double nearest to the sum of two doubles.
    pub open spec fn plus(self, other: Binary64) -> Binary64 {
        nearest(self.units() + other.units(), pow2(1074))
    }

    /// The smaller-than relation on the values.
    pub open spec fn below(self, other: Binary64) -> bool {
        self.units() < other.units()
    }

    /// The larger of two doubles.
    pub open spec fn larger(self, other: Binary64) -> Binary64 {
        if self.below(other) {
            other
        } else {
            self
        }
    }

    /// The decimal notation with `p` digits behind the point, ties to even.
    pub open spec fn fixed(self, p: nat) -> Seq<char> {
        with_point(half_even(self.units() * pow10(p), pow2(1074)), p)
    }

    /// The whole part.
    pub open spec fn floor(self) -> nat {
        self.units() / pow2(1074)
    }

    /// The nearest whole number, halves rounded up.
    pub open spec fn round(self) -> nat {
        (2 * self.units() + pow2(1074)) / (2 * pow2(1074))
    }

    /// The bit pattern of the double.
    pub open spec fn pattern(self) -> nat {
        if self.mantissa == 0 {
            0
        } else {
            ((self.exponent + 1075) * LOW + (self.mantissa - LOW)) as nat
        }
    }
}

// ── rounding ────────────────────────────────────────────────────────────────

/// Rounding depends on the fraction only, not on how it is written.
pub proof fn lemma_half_even_ratio(a: nat, b: nat, c: nat, d: nat)
    requires
        b > 0,
        d > 0,
        a * d == c * b,
    ensures
        half_even(a, b) == half_even(c, d),
        a / b == c / d,
{
    let q = a / b;
    let r = a % b;
    assert(a == q * b + r) by (nonlinear_arith)
        requires
            q == a / b,
            r == a % b,
            b > 0,
    ;
    let s = c - q * d;
    assert(r * d == s * b) by (nonlinear_arith)
        requires
            a == q * b + r,
            s == c - q * d,
            a * d == c * b,
    ;
    assert(0 <= s < d) by (nonlinear_arith)
        requires
            r * d == s * b,
            0 <= r < b,
            b > 0,
            d > 0,
    ;
    vstd::arithmetic::div_mod::lemma_fundamental_div_mod_converse(c as int, d as int, q as int, s);
    assert((2 * r < b) == (2 * s < d)) by (nonlinear_arith)
        requires
            r * d == s * b,
            b > 0,
            d > 0,
            r >= 0,
            s >= 0,
    ;
    assert((2 * r == b) == (2 * s == d)) by (nonlinear_arith)
        requires
            r * d == s * b,
            b > 0,
            d > 0,
            r >= 0,
            s >= 0,
    ;
}

proof fn lemma_binade_order(n: nat, d: nat, e1: int, e2: int)
    requires
        d > 0,
        in_binade(n, d, e1),
        in_binade(n, d, e2),
    ensures
        e1 >= e2,
{
    if e1 < e2 {
        let x = d * pow2((e1 + 2000) as nat);
        let y = d * pow2((e2 + 2000) as nat);
        assert(2 * x <= y) by {
            let k = (e2 - e1 - 1) as nat;
            lemma_pow2_unfold((e1 + 2001) as nat);
            lemma_pow2_adds((e1 + 2001) as nat, k);
            lemma_pow2_pos(k);
            let p = pow2((e1 + 2000) as nat);
            let g = pow2(k);
            assert(pow2((e2 + 2000) as nat) == 2 * p * g);
            assert(2 * (d * p) <= d * (2 * p * g)) by (nonlinear_arith)
                requires
                    g >= 1,
                    d >= 0,
                    p >= 0,
            ;
        }
        assert(false);
    }
}

/// A fraction lies in the range of one exponent only.
pub proof fn lemma_binade_unique(n: nat, d: nat, e1: int, e2: int)
    requires
        d > 0,
        in_binade(n, d, e1),
        in_binade(n, d, e2),
    ensures
        e1 == e2,
{
    lemma_binade_order(n, d, e1, e2);
    lemma_binade_order(n, d, e2, e1);
}

/// What lies in the range of an exponent is not smaller than every normal double.
proof fn lemma_not_tiny(n: nat, d: nat, e: int)
    requires
        d > 0,
        in_binade(n, d, e),
    ensures
        !is_tiny(n, d),
        n > 0,
{
    let g = pow2(926);
    let u = pow2((e + 1074) as nat);
    let low = LOW as nat;
    lemma_pow2_pos(926);
    lemma_pow2_pos((e + 1074) as nat);
    lemma_pow2_adds((e + 1074) as nat, 926);
    lemma_pow2_adds(1074, 926);
    let h = pow2(1074);
    assert(low * (d * (u * g)) <= n * (h * g));
    assert(low * d <= n * h) by (nonlinear_arith)
        requires
            low * (d * (u * g)) <= n * (h * g),
            u >= 1,
            g >= 1,
            low >= 0,
            d >= 0,
    ;
    assert(n > 0) by (nonlinear_arith)
        requires
            low * d <= n * h,
            low > 0,
            d > 0,
            n >= 0,
    ;
}

/// Every quotient is smaller than every normal double, or in the range of one.
pub proof fn lemma_in_range(n: nat, d: nat)
    requires
        d > 0,
        !is_tiny(n, d),
    ensures
        in_range(n, d),
{
    let h = pow2(1074);
    let q = (n * h) / d;
    let low = LOW as nat;
    assert(low <= q && q * d <= n * h < (q + 1) * d) by (nonlinear_arith)
        requires
            q == (n * h) / d,
            low * d <= n * h,
            d > 0,
    ;
    let k = lemma_highest_bit(q);
    lemma_pow2_constants();
    if k < 52 {
        lemma_pow2_monotone(k + 1, 52);
    }
    let e = k - 1126;
    let v = pow2((k - 52) as nat);
    lemma_pow2_adds(52, (k - 52) as nat);
    lemma_pow2_unfold(k + 1);
    let g = pow2(926);
    lemma_pow2_pos(926);
    lemma_pow2_adds((k - 52) as nat, 926);
    lemma_pow2_adds(1074, 926);
    let w = pow2((e + 2000) as nat);
    assert(w == v * g);
    assert(low * (d * (v * g)) <= n * (h * g)) by (nonlinear_arith)
        requires
            low * v <= q,
            q * d <= n * h,
            g >= 0,
            d >= 0,
    ;
    assert(n * (h * g) < (2 * low) * (d * (v * g))) by (nonlinear_arith)
        requires
            q + 1 <= 2 * (low * v),
            n * h < (q + 1) * d,
            g >= 1,
            d >= 0,
    ;
    assert(in_binade(n, d, e));
}

/// The nearest double, found from any fraction `a / b` equal to `n / d / 2^e`
/// that lies in the range of the mantissas.
pub proof fn lemma_nearest(n: nat, d: nat, e: int, a: nat, b: nat)
    requires
        d > 0,
        b > 0,
        -1074 <= e,
        LOW * b <= a < HIGH * b,
        a * (d * pow2((e + 2000) as nat)) == b * (n * pow2(2000)),
    ensures
        nearest(n, d) == carried(half_even(a, b), e),
        n > 0,
        LOW <= half_even(a, b) <= HIGH,
        in_binade(n, d, e),
{
    let sn = n * pow2(2000);
    let p = pow2((e + 2000) as nat);
    lemma_pow2_pos((e + 2000) as nat);
    lemma_pow2_pos(2000);
    let sd = d * p;
    assert(sd > 0) by (nonlinear_arith)
        requires
            sd == d * p,
            d > 0,
            p > 0,
    ;
    assert(LOW * sd <= sn) by (nonlinear_arith)
        requires
            a * sd == b * sn,
            LOW * b <= a,
            b > 0,
            sd > 0,
    ;
    assert(sn < HIGH * sd) by (nonlinear_arith)
        requires
            a * sd == b * sn,
            a < HIGH * b,
            b > 0,
            sd > 0,
    ;
    assert(in_binade(n, d, e));
    lemma_not_tiny(n, d, e);
    let f = choose|f: int| in_binade(n, d, f);
    lemma_binade_unique(n, d, e, f);
    assert(a * sd == sn * b) by (nonlinear_arith)
        requires
            a * sd == b * sn,
    ;
    lemma_half_even_ratio(a, b, sn, sd);
    assert(n > 0) by (nonlinear_arith)
        requires
            sn == n * pow2(2000),
            sn >= 1,
            n >= 0,
    ;
    assert(LOW <= a / b < HIGH) by (nonlinear_arith)
        requires
            LOW * b <= a < HIGH * b,
            b > 0,
    ;
}

/// The nearest double depends on the fraction only, not on how it is written.
pub proof fn lemma_nearest_ratio(n1: nat, d1: nat, n2: nat, d2: nat)
    requires
        d1 > 0,
        d2 > 0,
        n1 * d2 == n2 * d1,
    ensures
        nearest(n1, d1) == nearest(n2, d2),
{
    assert((n1 == 0) == (n2 == 0)) by (nonlinear_arith)
        requires
            n1 * d2 == n2 * d1,
            d1 > 0,
            d2 > 0,
    ;
    let h = pow2(1074);
    lemma_pow2_pos(1074);
    lemma_scale_bound(LOW as nat, n1, d1, n2, d2, 1, h);
    assert(is_tiny(n1, d1) == is_tiny(n2, d2));
    if n1 > 0 && is_tiny(n1, d1) {
        assert((n1 * h) * d2 == (n2 * h) * d1) by (nonlinear_arith)
            requires
                n1 * d2 == n2 * d1,
        ;
        lemma_half_even_ratio(n1 * h, d1, n2 * h, d2);
    } else if n1 > 0 {
        lemma_in_range(n1, d1);
        let e = choose|e: int| in_binade(n1, d1, e);
        let p = pow2((e + 2000) as nat);
        let g = pow2(2000);
        lemma_pow2_pos((e + 2000) as nat);
        lemma_pow2_pos(2000);
        lemma_scale_bound(LOW as nat, n1, d1, n2, d2, p, g);
        lemma_scale_bound(HIGH as nat, n1, d1, n2, d2, p, g);
        assert(in_binade(n2, d2, e));
        let f = choose|f: int| in_binade(n2, d2, f);
        lemma_binade_unique(n2, d2, e, f);
        assert((n1 * g) * (d2 * p) == (n2 * g) * (d1 * p)) by (nonlinear_arith)
            requires
                n1 * d2 == n2 * d1,
        ;
        assert(d1 * p > 0 && d2 * p > 0) by (nonlinear_arith)
            requires
                d1 > 0,
                d2 > 0,
                p > 0,
        ;
        lemma_half_even_ratio(n1 * g, d1 * p, n2 * g, d2 * p);
    }
}

proof fn lemma_scale_bound(k: nat, n1: nat, d1: nat, n2: nat, d2: nat, p: nat, g: nat)
    requires
        d1 > 0,
        d2 > 0,
        p > 0,
        g > 0,
        n1 * d2 == n2 * d1,
    ensures
        (k * (d1 * p) <= n1 * g) == (k * (d2 * p) <= n2 * g),
{
    let a1 = k * (d1 * p);
    let b1 = n1 * g;
    let a2 = k * (d2 * p);
    let b2 = n2 * g;
    assert(a1 * d2 == a2 * d1 && b1 * d2 == b2 * d1) by (nonlinear_arith)
        requires
            n1 * d2 == n2 * d1,
            a1 == k * (d1 * p),
            a2 == k * (d2 * p),
            b1 == n1 * g,
            b2 == n2 * g,
    ;
    assert((a1 <= b1) == (a2 <= b2)) by (nonlinear_arith)
        requires
            a1 * d2 == a2 * d1,
            b1 * d2 == b2 * d1,
            d1 > 0,
            d2 > 0,
    ;
}

// ── the operations ──────────────────────────────────────────────────────────

/// Two to the power of `k`.
fn power(k: u32) -> (p: u128)
    requires
        k <= 120,
    ensures
        p == pow2(k as nat),
        0 < p <= 0x100_0000_0000_0000_0000_0000_0000_0000,
{
    let mut p: u128 = 1;
    let mut i: u32 = 0;
    proof {
        vstd::arithmetic::power2::lemma2_to64();
        lemma_pow2_of_120();
    }
    while i < k
        invariant
            i <= k <= 120,
            p == pow2(i as nat),
            pow2(120) == 0x100_0000_0000_0000_0000_0000_0000_0000,
        decreases k - i,
    {
        proof {
            lemma_pow2_unfold((i + 1) as nat);
            lemma_pow2_monotone((i + 1) as nat, 120);
        }
        p = p * 2;
        i = i + 1;
    }
    proof {
        lemma_pow2_monotone(k as nat, 120);
        lemma_pow2_pos(k as nat);
    }
    p
}

proof fn lemma_pow2_constants()
    ensures
        pow2(0) == 1,
        pow2(52) == LOW,
        pow2(67) == 0x8_0000_0000_0000_0000,
{
    vstd::arithmetic::power2::lemma2_to64();
    vstd::arithmetic::power2::lemma2_to64_rest();
    lemma_pow2_adds(60, 7);
}

proof fn lemma_pow2_of_120()
    ensures
        pow2(120) == 0x100_0000_0000_0000_0000_0000_0000_0000,
{
    vstd::arithmetic::power2::lemma2_to64();
    vstd::arithmetic::power2::lemma2_to64_rest();
    lemma_pow2_adds(60, 60);
    assert(pow2(60) == 0x1000_0000_0000_0000);
}

proof fn lemma_pow2_monotone(a: nat, b: nat)
    requires
        a <= b,
    ensures
        pow2(a) <= pow2(b),
{
    if a < b {
        vstd::arithmetic::power2::lemma_pow2_strictly_increases(a, b);
    }
}

/// The quotient rounded to the nearest integer, ties to even.
fn divide(n: u128, d: u128) -> (q: u128)
    requires
        0 < d <= 0x100_0000_0000_0000_0000_0000_0000_0000,
    ensures
        q == half_even(n as nat, d as nat),
{
    let q = n / d;
    let r = n % d;
    if 2 * r < d || (2 * r == d && q % 2 == 0) {
        q
    } else {
        assert(q < u128::MAX) by {
            if q == u128::MAX {
                assert(d == 1 && r == 0) by (nonlinear_arith)
                    requires
                        q == n / d,
                        r == n % d,
                        q == u128::MAX,
                        n <= u128::MAX,
                        d > 0,
                ;
            }
        }
        q + 1
    }
}

/// Rounds a fraction in the range of the mantissas and places it at `e`.
fn settle(a: u128, b: u128, e: i32) -> (r: Binary64)
    requires
        0 < b <= 0x100_0000_0000_0000_0000_0000_0000_0000,
        LOW * b <= a < HIGH * b,
        -1074 <= e < 971,
    ensures
        r == carried(half_even(a as nat, b as nat), e as int),
        r.wf(),
        r.mantissa > 0,
        e <= r.exponent <= e + 1,
        r.exponent == e + 1 ==> r.mantissa == LOW,
{
    let m = divide(a, b);
    assert(LOW <= a / b < HIGH) by (nonlinear_arith)
        requires
            LOW * b <= a < HIGH * b,
            b > 0,
    ;
    if m == HIGH as u128 {
        Binary64 { mantissa: LOW, exponent: e + 1 }
    } else {
        Binary64 { mantissa: m as u64, exponent: e }
    }
}

/// The double nearest to `n * 2^e`.
fn settle_whole(n: u128, e: i32) -> (r: Binary64)
    requires
        n < 0x100_0000_0000_0000_0000_0000_0000_0000,
        -300 <= e <= 300,
    ensures
        r == nearest(n as nat * pow2((e + 1074) as nat), pow2(1074)),
        r.wf(),
        n > 0 ==> r.mantissa > 0 && e - 52 <= r.exponent <= e + 68,
        0 < n < 0x1_0000_0000_0000_0000 ==> r.exponent <= e + 12,
        n > 0 ==> in_range(n as nat * pow2((e + 1074) as nat), pow2(1074)),
        n == 0 ==> r == Binary64::zero(),
        0 < n < LOW ==> r.exponent <= e && r.mantissa == n * pow2((e - r.exponent) as nat),
{
    proof {
        lemma_pow2_pos(1074);
        lemma_pow2_pos((e + 1074) as nat);
        lemma_pow2_constants();
    }
    if n == 0 {
        assert(n as nat * pow2((e + 1074) as nat) == 0) by (nonlinear_arith)
            requires
                n == 0,
        ;
        return Binary64 { mantissa: 0, exponent: 0 };
    }
    if n < LOW as u128 {
        let mut a: u128 = n;
        let mut k: i32 = 0;
        proof {
            assert(n * pow2(0) == n) by (nonlinear_arith)
                requires
                    pow2(0) == 1,
            ;
        }
        while a < LOW as u128
            invariant
                0 < n < LOW,
                0 <= k <= 52,
                a == n * pow2(k as nat),
                a < HIGH,
                pow2(52) == LOW,
                a < LOW ==> k < 52,
            decreases HIGH - a,
        {
            proof {
                lemma_pow2_unfold((k + 1) as nat);
                let p = pow2(k as nat);
                lemma_pow2_pos(k as nat);
                assert(n * (2 * p) == 2 * (n * p)) by (nonlinear_arith);
                if k + 1 == 52 {
                    assert(n * pow2(52) >= LOW) by (nonlinear_arith)
                        requires
                            n >= 1,
                            pow2(52) == LOW,
                    ;
                }
                assert(a > 0) by (nonlinear_arith)
                    requires
                        a == n * p,
                        n > 0,
                        p > 0,
                {
                }
            }
            a = a * 2;
            k = k + 1;
        }
        let r = settle(a, 1, e - k);
        proof {
            lemma_shift_up(n as nat, e as int, k as nat);
            lemma_nearest(
                n as nat * pow2((e + 1074) as nat),
                pow2(1074),
                e - k,
                a as nat,
                1,
            );
        }
        r
    } else {
        let mut b: u128 = 1;
        let mut k: i32 = 0;
        while n >= 0x20_0000_0000_0000 * b
            invariant
                LOW <= n < 0x100_0000_0000_0000_0000_0000_0000_0000,
                0 <= k <= 67,
                b == pow2(k as nat),
                0 < b <= 0x8_0000_0000_0000_0000,
                0x10_0000_0000_0000 * b <= n,
                pow2(67) == 0x8_0000_0000_0000_0000,
            decreases 0x8_0000_0000_0000_0000 - b,
        {
            proof {
                lemma_pow2_unfold((k + 1) as nat);
                if k == 67 {
                    assert(false);
                }
                lemma_pow2_monotone((k + 1) as nat, 67);
            }
            b = b * 2;
            k = k + 1;
        }
        assert(LOW * b <= n < HIGH * b) by (nonlinear_arith)
            requires
                0x10_0000_0000_0000 * b <= n < 0x20_0000_0000_0000 * b,
                LOW == 0x10_0000_0000_0000,
                HIGH == 0x20_0000_0000_0000,
        ;
        let r = settle(n, b, e + k);
        proof {
            if n < 0x1_0000_0000_0000_0000 && k >= 12 {
                vstd::arithmetic::power2::lemma2_to64();
                lemma_pow2_monotone(12, k as nat);
            }
            lemma_shift_down(n as nat, e as int, k as nat);
            lemma_nearest(
                n as nat * pow2((e + 1074) as nat),
                pow2(1074),
                e + k,
                n as nat,
                b as nat,
            );
        }
        r
    }
}

proof fn lemma_shift_up(n: nat, e: int, k: nat)
    requires
        -300 <= e <= 300,
        k <= 52,
    ensures
        (n * pow2(k)) * (pow2(1074) * pow2((e - k + 2000) as nat)) == 1 * ((n * pow2(
            (e + 1074) as nat,
        )) * pow2(2000)),
{
    lemma_pow2_adds(1074, (e - k + 2000) as nat);
    lemma_pow2_adds(k, (3074 + e - k) as nat);
    lemma_pow2_adds((e + 1074) as nat, 2000);
    let x = pow2(k);
    let y = pow2((3074 + e - k) as nat);
    let u = pow2((e + 1074) as nat);
    let w = pow2(2000);
    assert((n * x) * y == (n * u) * w) by (nonlinear_arith)
        requires
            x * y == u * w,
    ;
}

proof fn lemma_shift_down(n: nat, e: int, k: nat)
    requires
        -300 <= e <= 300,
        k <= 67,
    ensures
        n * (pow2(1074) * pow2((e + k + 2000) as nat)) == pow2(k) * ((n * pow2((e + 1074) as nat))
            * pow2(2000)),
{
    lemma_pow2_adds(1074, (e + k + 2000) as nat);
    lemma_pow2_adds(k, (3074 + e) as nat);
    lemma_pow2_adds((e + 1074) as nat, 2000);
    let x = pow2(k);
    let y = pow2((3074 + e + k) as nat);
    let u = pow2((e + 1074) as nat);
    let w = pow2(2000);
    assert(n * y == x * ((n * u) * w)) by (nonlinear_arith)
        requires
            y == x * (u * w),
    ;
}

impl Binary64 {
    /// The double nearest to `n`.
    pub fn from_u64(n: u64) -> (r: Binary64)
        ensures
            r == Binary64::whole(n as nat),
            r.wf(),
            n > 0 ==> r.mantissa > 0,
            n == 0 ==> r == Binary64::zero(),
            -52 <= r.exponent <= 12,
            0 < n < LOW ==> r.exponent <= 0 && r.mantissa == n * pow2((-r.exponent) as nat),
            n > 0 ==> in_range(n as nat * pow2(1074), pow2(1074)),
            r == nearest(n as nat * pow2(1074), pow2(1074)),
    {
        let r = settle_whole(n as u128, 0);
        proof {
            lemma_pow2_pos(1074);
            let p = pow2(1074);
            assert((n as nat * p) * 1 == n as nat * p);
            assert(n > 0 ==> n as nat * p > 0) by (nonlinear_arith)
                requires
                    p > 0,
            ;
            lemma_nearest_ratio(n as nat * p, p, n as nat, 1);
        }
        r
    }

    /// The quotient of two doubles.
    pub fn divided_by(self, other: Binary64) -> (r: Binary64)
        requires
            self.moderate(),
            other.moderate(),
            other.mantissa > 0,
        ensures
            r == self.over(other),
            r.wf(),
            self.mantissa > 0 ==> r.mantissa > 0 && self.exponent - other.exponent - 53
                <= r.exponent <= self.exponent - other.exponent - 51,
            self.mantissa == 0 ==> r == Binary64::zero(),
            self.mantissa > 0 ==> in_range(self.units(), other.units()),
    {
        if self.mantissa == 0 {
            assert(self.units() == 0) by (nonlinear_arith)
                requires
                    self.units() == self.mantissa as nat * pow2((self.exponent + 1074) as nat),
                    self.mantissa == 0,
            ;
            return Binary64 { mantissa: 0, exponent: 0 };
        }
        let k: i32 = if self.mantissa >= other.mantissa { 52 } else { 53 };
        let a: u128 = (self.mantissa as u128) * (if k == 52 { 0x10_0000_0000_0000u128 } else {
            0x20_0000_0000_0000u128
        });
        let b: u128 = other.mantissa as u128;
        let e: i32 = self.exponent - other.exponent - k;
        proof {
            let x = self.mantissa as nat;
            let y = other.mantissa as nat;
            assert(LOW * b <= a < HIGH * b) by (nonlinear_arith)
                requires
                    b == y,
                    a == x * (if k == 52 { 0x10_0000_0000_0000nat } else { 0x20_0000_0000_0000nat }),
                    k == (if x >= y { 52int } else { 53int }),
                    0x10_0000_0000_0000 <= x < 0x20_0000_0000_0000,
                    0x10_0000_0000_0000 <= y < 0x20_0000_0000_0000,
                    LOW == 0x10_0000_0000_0000,
                    HIGH == 0x20_0000_0000_0000,
            ;
            lemma_pow2_constants();
            lemma_pow2_unfold(53);
            lemma_pow2_pos((other.exponent + 1074) as nat);
            let u = pow2((self.exponent + 1074) as nat);
            let v = pow2((other.exponent + 1074) as nat);
            let w = pow2((e + 2000) as nat);
            let g = pow2(2000);
            let h = pow2(k as nat);
            assert(a == x * h);
            lemma_pow2_adds(k as nat, (other.exponent + 1074) as nat);
            lemma_pow2_adds((k + other.exponent + 1074) as nat, (e + 2000) as nat);
            lemma_pow2_adds((self.exponent + 1074) as nat, 2000);
            assert((h * v) * w == u * g);
            assert((x * h) * ((y * v) * w) == y * ((x * u) * g)) by (nonlinear_arith)
                requires
                    (h * v) * w == u * g,
            ;
            assert(y * v > 0) by (nonlinear_arith)
                requires
                    y > 0,
                    v > 0,
            ;
            lemma_nearest(self.units(), other.units(), e as int, a as nat, b as nat);
        }
        settle(a, b, e)
    }

    /// `k` times a double.
    pub fn times(self, k: u32) -> (r: Binary64)
        requires
            self.wf(),
            -300 <= self.exponent <= 300,
        ensures
            r == self.scaled(k as nat),
            r.wf(),
            self.mantissa > 0 && k > 0 ==> r.mantissa > 0 && self.exponent - 52 <= r.exponent
                <= self.exponent + 68,
            self.mantissa > 0 && 0 < k <= 2048 ==> r.exponent <= self.exponent + 12,
            self.mantissa == 0 || k == 0 ==> r == Binary64::zero(),
            self.mantissa > 0 && k > 0 ==> in_range(self.units() * k as nat, pow2(1074)),
    {
        assert((self.mantissa as u128) * (k as u128) < 0x100_0000_0000_0000_0000_0000_0000_0000)
            by (nonlinear_arith)
            requires
                self.mantissa < 0x20_0000_0000_0000,
                k <= u32::MAX,
        ;
        let n: u128 = (self.mantissa as u128) * (k as u128);
        proof {
            let x = self.mantissa as nat;
            let u = pow2((self.exponent + 1074) as nat);
            assert((x * k as nat) * u == (x * u) * k as nat) by (nonlinear_arith);
            assert(x > 0 && k > 0 ==> n > 0) by (nonlinear_arith)
                requires
                    n == x * k as nat,
            ;
            assert(x == 0 || k == 0 ==> n == 0) by (nonlinear_arith)
                requires
                    n == x * k as nat,
            ;
            assert(k <= 2048 ==> n < 0x1_0000_0000_0000_0000) by (nonlinear_arith)
                requires
                    n == x * k as nat,
                    x < 0x20_0000_0000_0000,
            ;
        }
        settle_whole(n, self.exponent)
    }

    /// The sum of two doubles of similar size.
    pub fn add_to(self, other: Binary64) -> (r: Binary64)
        requires
            self.moderate(),
            other.moderate(),
            self.mantissa > 0,
            other.mantissa > 0,
            self.exponent <= other.exponent <= self.exponent + 60,
        ensures
            r == self.plus(other),
            r.wf(),
            r.mantissa > 0,
            self.exponent - 52 <= r.exponent <= self.exponent + 68,
            in_range(self.units() + other.units(), pow2(1074)),
    {
        let d: u32 = (other.exponent - self.exponent) as u32;
        let p = power(d);
        proof {
            lemma_pow2_monotone(d as nat, 60);
            vstd::arithmetic::power2::lemma2_to64_rest();
            assert(other.mantissa * p < 0x10_0000_0000_0000_0000_0000_0000_0000) by (nonlinear_arith)
                requires
                    other.mantissa < 0x20_0000_0000_0000,
                    p <= 0x1000_0000_0000_0000,
            ;
        }
        let n: u128 = (other.mantissa as u128) * p + (self.mantissa as u128);
        proof {
            let u = pow2((self.exponent + 1074) as nat);
            let x = self.mantissa as nat;
            let y = other.mantissa as nat;
            let q = p as nat;
            lemma_pow2_adds(d as nat, (self.exponent + 1074) as nat);
            assert((y * q + x) * u == x * u + y * (q * u)) by (nonlinear_arith);
        }
        settle_whole(n, self.exponent)
    }

    /// The bit pattern of the double.
    pub fn bits(self) -> (b: u64)
        requires
            self.wf(),
        ensures
            b == self.pattern(),
    {
        if self.mantissa == 0 {
            0
        } else {
            (self.exponent + 1074) as u64 * 0x10_0000_0000_0000 + self.mantissa
        }
    }

    /// Whether a double is smaller than another.
    pub fn less_than(self, other: Binary64) -> (r: bool)
        requires
            self.wf(),
            other.wf(),
        ensures
            r == self.below(other),
    {
        proof {
            lemma_pattern_order(self, other);
        }
        self.bits() < other.bits()
    }

    /// The larger of two doubles.
    pub fn max_with(self, other: Binary64) -> (r: Binary64)
        requires
            self.wf(),
            other.wf(),
        ensures
            r == self.larger(other),
    {
        if self.less_than(other) {
            other
        } else {
            self
        }
    }

    /// The decimal notation with `p` digits behind the point.
    pub fn fixed_of(self, p: u32) -> (s: String)
        requires
            self.wf(),
            self.exponent <= 44,
            p <= 4,
        ensures
            s@ == self.fixed(p as nat),
    {
        let ten: u128 = if p == 0 {
            1
        } else if p == 1 {
            10
        } else if p == 2 {
            100
        } else if p == 3 {
            1000
        } else {
            10000
        };
        proof {
            reveal_with_fuel(pow10, 6);
            assert(ten == pow10(p as nat));
            assert(self.mantissa * ten < 0x80_0000_0000_0000_0000) by (nonlinear_arith)
                requires
                    self.mantissa < 0x20_0000_0000_0000,
                    ten <= 10000,
            ;
        }
        let m: u128 = (self.mantissa as u128) * ten;
        let n: u128 = round_shifted(m, self.exponent);
        proof {
            let u = pow2((self.exponent + 1074) as nat);
            let x = self.mantissa as nat;
            let t = ten as nat;
            assert((x * t) * u == (x * u) * t) by (nonlinear_arith);
            assert(n == half_even(self.units() * pow10(p as nat), pow2(1074)));
        }
        if p == 0 {
            decimal_of(n)
        } else {
            let mut s = decimal_of(n / ten);
            s.push('.');
            let f = zero_padded_of(n % ten, p as usize);
            s.append(f.as_str());
            s
        }
    }

    /// The whole part.
    pub fn floor_of(self) -> (n: u64)
        requires
            self.wf(),
            self.exponent <= 10,
        ensures
            n == self.floor(),
    {
        let ghost u = pow2((self.exponent + 1074) as nat);
        let ghost x = self.mantissa as nat;
        if self.exponent >= 0 {
            let p = power(self.exponent as u32);
            proof {
                lemma_small_power(self.exponent as nat);
                lemma_pow2_adds(self.exponent as nat, 1074);
                lemma_pow2_pos(1074);
                let q = p as nat;
                let g = pow2(1074);
                assert(x * (q * g) == (x * q) * g) by (nonlinear_arith);
                vstd::arithmetic::div_mod::lemma_div_by_multiple((x * q) as int, g as int);
                assert(x * q < 0x80_0000_0000_0000_00) by (nonlinear_arith)
                    requires
                        x < 0x20_0000_0000_0000,
                        q <= 1024,
                ;
            }
            self.mantissa * (p as u64)
        } else if self.exponent >= -120 {
            let p = power((-self.exponent) as u32);
            proof {
                lemma_pow2_adds((-self.exponent) as nat, (self.exponent + 1074) as nat);
                let q = p as nat;
                lemma_pow2_pos(1074);
                assert(x * (q * u) == (x * u) * q) by (nonlinear_arith);
                lemma_half_even_ratio(x, q, x * u, pow2(1074));
                assert(x / q <= x) by (nonlinear_arith)
                    requires
                        q >= 1,
                ;
            }
            ((self.mantissa as u128) / p) as u64
        } else {
            proof {
                lemma_far_below(x, self.exponent as int);
            }
            0
        }
    }

    /// The nearest whole number, halves rounded up.
    pub fn round_of(self) -> (n: u64)
        requires
            self.wf(),
            self.exponent <= 10,
        ensures
            n == self.round(),
    {
        let ghost u = pow2((self.exponent + 1074) as nat);
        let ghost x = self.mantissa as nat;
        let ghost g = pow2(1074);
        proof {
            lemma_pow2_pos(1074);
        }
        if self.exponent >= 0 {
            let n = self.floor_of();
            proof {
                lemma_pow2_adds(self.exponent as nat, 1074);
                let q = pow2(self.exponent as nat);
                assert(x * (q * g) == (x * q) * g) by (nonlinear_arith);
                vstd::arithmetic::div_mod::lemma_div_by_multiple((x * q) as int, g as int);
                assert(2 * ((x * q) * g) + g == (x * q) * (2 * g) + g) by (nonlinear_arith);
                vstd::arithmetic::div_mod::lemma_fundamental_div_mod_converse(
                    (2 * self.units() + g) as int,
                    (2 * g) as int,
                    (x * q) as int,
                    g as int,
                );
            }
            n
        } else if self.exponent >= -120 {
            let p = power((-self.exponent) as u32);
            proof {
                lemma_pow2_adds((-self.exponent) as nat, (self.exponent + 1074) as nat);
                let q = p as nat;
                assert((2 * x + q) * (2 * g) == (2 * (x * u) + g) * (2 * q)) by (nonlinear_arith)
                    requires
                        q * u == g,
                ;
                lemma_half_even_ratio(2 * x + q, 2 * q, 2 * (x * u) + g, 2 * g);
                assert((2 * x + q) / (2 * q) <= 2 * x + 1) by (nonlinear_arith)
                    requires
                        q >= 1,
                        x >= 0,
                ;
            }
            ((2 * (self.mantissa as u128) + p) / (2 * p)) as u64
        } else {
            proof {
                lemma_far_below(x, self.exponent as int);
            }
            0
        }
    }
}

proof fn lemma_small_power(k: nat)
    requires
        k <= 10,
    ensures
        pow2(k) <= 1024,
{
    vstd::arithmetic::power2::lemma2_to64();
    lemma_pow2_monotone(k, 10);
}

/// A mantissa at a very low exponent is less than half of one.
proof fn lemma_far_below(x: nat, e: int)
    requires
        x < 0x80_0000_0000_0000_0000,
        -1074 <= e < -120,
    ensures
        2 * (x * pow2((e + 1074) as nat)) < pow2(1074),
        (x * pow2((e + 1074) as nat)) / pow2(1074) == 0,
        (2 * (x * pow2((e + 1074) as nat)) + pow2(1074)) / (2 * pow2(1074)) == 0,
{
    let u = pow2((e + 1074) as nat);
    lemma_pow2_pos((e + 1074) as nat);
    lemma_pow2_adds((-e) as nat, (e + 1074) as nat);
    lemma_pow2_of_120();
    lemma_pow2_monotone(120, (-e) as nat);
    let q = pow2((-e) as nat);
    let g = pow2(1074);
    assert(2 * (x * u) < g) by (nonlinear_arith)
        requires
            q * u == g,
            q >= 0x100_0000_0000_0000_0000_0000_0000_0000,
            x < 0x80_0000_0000_0000_0000,
            u > 0,
    ;
    vstd::arithmetic::div_mod::lemma_fundamental_div_mod_converse(
        (x * u) as int,
        g as int,
        0,
        (x * u) as int,
    );
    vstd::arithmetic::div_mod::lemma_fundamental_div_mod_converse(
        (2 * (x * u) + g) as int,
        (2 * g) as int,
        0,
        (2 * (x * u) + g) as int,
    );
}

/// `m * 2^e` rounded to the nearest integer, ties to even.
fn round_shifted(m: u128, e: i32) -> (n: u128)
    requires
        m < 0x80_0000_0000_0000_0000,
        -1074 <= e <= 44,
    ensures
        n == half_even(m as nat * pow2((e + 1074) as nat), pow2(1074)),
{
    let ghost u = pow2((e + 1074) as nat);
    let ghost x = m as nat;
    let ghost g = pow2(1074);
    proof {
        lemma_pow2_pos(1074);
    }
    if e >= 0 {
        let p = power(e as u32);
        proof {
            lemma_pow2_adds(e as nat, 1074);
            lemma_pow2_monotone(e as nat, 44);
            vstd::arithmetic::power2::lemma2_to64_rest();
            let q = p as nat;
            assert(x * q < 0x8000_0000_0000_0000_0000_0000_0000_0000) by (nonlinear_arith)
                requires
                    x < 0x80_0000_0000_0000_0000,
                    q <= 0x1000_0000_0000,
            ;
            assert(x * (q * g) == (x * q) * g) by (nonlinear_arith);
            vstd::arithmetic::div_mod::lemma_div_by_multiple((x * q) as int, g as int);
            vstd::arithmetic::div_mod::lemma_mod_multiples_basic((x * q) as int, g as int);
        }
        m * p
    } else if e >= -120 {
        let p = power((-e) as u32);
        proof {
            lemma_pow2_adds((-e) as nat, (e + 1074) as nat);
            let q = p as nat;
            assert(x * (q * u) == (x * u) * q) by (nonlinear_arith);
            lemma_half_even_ratio(x, q, x * u, g);
        }
        divide(m, p)
    } else {
        proof {
            lemma_far_below(x, e as int);
            vstd::arithmetic::div_mod::lemma_fundamental_div_mod_converse(
                (x * u) as int,
                g as int,
                0,
                (x * u) as int,
            );
        }
        0
    }
}

/// Doubles are ordered as their bit patterns are.
pub proof fn lemma_pattern_order(a: Binary64, b: Binary64)
    requires
        a.wf(),
        b.wf(),
    ensures
        (a.pattern() < b.pattern()) == a.below(b),
        (a.pattern() == b.pattern()) == (a == b),
        (a.units() == b.units()) == (a == b),
{
    lemma_pattern_monotone(a, b);
    lemma_pattern_monotone(b, a);
}

proof fn lemma_pattern_monotone(a: Binary64, b: Binary64)
    requires
        a.wf(),
        b.wf(),
    ensures
        a.pattern() < b.pattern() ==> a.below(b),
        a.pattern() == b.pattern() ==> a == b,
{
    let u = pow2((a.exponent + 1074) as nat);
    let v = pow2((b.exponent + 1074) as nat);
    let x = a.mantissa as nat;
    let y = b.mantissa as nat;
    lemma_pow2_pos((a.exponent + 1074) as nat);
    lemma_pow2_pos((b.exponent + 1074) as nat);
    if a.mantissa == 0 {
        assert(x * u == 0) by (nonlinear_arith)
            requires
                x == 0,
        ;
        assert(y > 0 ==> y * v > 0) by (nonlinear_arith)
            requires
                v > 0,
        ;
    } else if b.mantissa == 0 {
    } else if a.pattern() == b.pattern() {
        if a.exponent < b.exponent {
            assert((a.exponent + 1) <= b.exponent);
            assert(false);
        }
        if b.exponent < a.exponent {
            assert(false);
        }
    } else if a.pattern() < b.pattern() {
        if a.exponent < b.exponent {
            let k = (b.exponent - a.exponent - 1) as nat;
            lemma_pow2_unfold((a.exponent + 1075) as nat);
            lemma_pow2_adds((a.exponent + 1075) as nat, k);
            lemma_pow2_pos(k);
            let g = pow2(k);
            assert(v == (2 * u) * g);
            assert(x * u < y * v) by (nonlinear_arith)
                requires
                    v == (2 * u) * g,
                    g >= 1,
                    u >= 1,
                    x < 0x20_0000_0000_0000,
                    y >= 0x10_0000_0000_0000,
            ;
        } else if a.exponent == b.exponent {
            assert(x * u < y * u) by (nonlinear_arith)
                requires
                    x < y,
                    u > 0,
            ;
        } else {
            assert(false);
        }
    }
}

/// The exponent of a small whole number follows from its highest bit.
pub proof fn lemma_whole_exponent(r: Binary64, n: nat, k: nat)
    requires
        r.wf(),
        r.mantissa > 0,
        r.exponent <= 0,
        r.mantissa == n * pow2((-r.exponent) as nat),
        k < 52,
        pow2(k) <= n < pow2(k + 1),
    ensures
        r.exponent == k - 52,
{
    lemma_pow2_constants();
    lemma_pow2_unfold(53);
    let s = (-r.exponent) as nat;
    lemma_pow2_pos(s);
    let p = pow2(s);
    if s + k >= 53 {
        lemma_pow2_adds(k, s);
        lemma_pow2_monotone(53, k + s);
        let q = pow2(k);
        assert(n * p >= q * p) by (nonlinear_arith)
            requires
                n >= q,
                p > 0,
        ;
        assert(false);
    }
    if s + k < 52 {
        lemma_pow2_adds(k + 1, s);
        lemma_pow2_monotone(k + 1 + s, 52);
        let q = pow2(k + 1);
        assert(n * p < q * p) by (nonlinear_arith)
            requires
                n < q,
                p > 0,
        ;
        assert(false);
    }
}

/// Rounding does not pass a whole number: a fraction of at most `k` rounds to a
/// double of at most `k`.
pub proof fn lemma_nearest_at_most(n: nat, d: nat, k: nat)
    requires
        d > 0,
        0 < k < LOW,
        n <= k * d,
    ensures
        nearest(n, d).units() <= k * pow2(1074),
{
    let r = nearest(n, d);
    let g = pow2(2000);
    lemma_pow2_pos(2000);
    lemma_pow2_pos(1074);
    if n == 0 {
        assert(0 * pow2(1074) == 0);
    } else if is_tiny(n, d) {
        let h = pow2(1074);
        assert(n * h <= (k * h) * d) by (nonlinear_arith)
            requires
                n <= k * d,
                h > 0,
        ;
        lemma_half_even_at_most(n * h, d, k * h);
        lemma_lowest_units(n, d);
    } else {
        lemma_in_range(n, d);
        let e = choose|e: int| in_binade(n, d, e);
        let w = pow2((e + 2000) as nat);
        lemma_pow2_pos((e + 2000) as nat);
        let low = LOW as nat;
        if e > 0 {
            lemma_pow2_monotone(2000, (e + 2000) as nat);
            assert(low * (d * w) > (k * d) * g) by (nonlinear_arith)
                requires
                    w >= g,
                    g > 0,
                    d > 0,
                    low > k,
            ;
            assert((k * d) * g >= n * g) by (nonlinear_arith)
                requires
                    n <= k * d,
                    g > 0,
            ;
            assert(false);
        }
        let h = pow2((-e) as nat);
        lemma_pow2_pos((-e) as nat);
        lemma_pow2_adds((-e) as nat, (e + 2000) as nat);
        assert(n * g <= (k * h) * (d * w)) by (nonlinear_arith)
            requires
                n <= k * d,
                h * w == g,
                g > 0,
        ;
        assert(d * w > 0) by (nonlinear_arith)
            requires
                d > 0,
                w > 0,
        ;
        let m = half_even(n * g, d * w);
        lemma_half_even_at_most(n * g, d * w, k * h);
        assert(LOW <= (n * g) / (d * w) < HIGH) by (nonlinear_arith)
            requires
                LOW * (d * w) <= n * g < HIGH * (d * w),
                d * w > 0,
        ;
        assert(r == carried(m, e));
        let t = pow2((e + 1074) as nat);
        lemma_pow2_adds((-e) as nat, (e + 1074) as nat);
        if m == HIGH {
            lemma_pow2_unfold((e + 1075) as nat);
            assert(low * (2 * t) == m * t) by (nonlinear_arith)
                requires
                    m == 2 * low,
            ;
        }
        assert(m * t <= k * (h * t)) by (nonlinear_arith)
            requires
                m <= k * h,
                t >= 0,
        ;
    }
}

/// Rounding to the nearest whole number is off by no more than a half.
pub proof fn lemma_half_even_error(n: nat, d: nat)
    requires
        d > 0,
    ensures
        2 * (half_even(n, d) * d) <= 2 * n + d,
        2 * n <= 2 * (half_even(n, d) * d) + d,
{
    let q = n / d;
    let r = n % d;
    assert(n == q * d + r && 0 <= r < d) by (nonlinear_arith)
        requires
            q == n / d,
            r == n % d,
            d > 0,
    ;
    assert((q + 1) * d == q * d + d) by (nonlinear_arith);
}

/// Rounding to the nearest double is off by no more than one part in two to the power
/// of 53.
pub proof fn lemma_nearest_error(n: nat, d: nat)
    requires
        d > 0,
        n == 0 || !is_tiny(n, d),
        n <= d * pow2(1000),
    ensures
        (HIGH - 1) * (n * pow2(1074)) <= HIGH * (nearest(n, d).units() * d),
        HIGH * (nearest(n, d).units() * d) <= (HIGH + 1) * (n * pow2(1074)),
{
    let u = pow2(1074);
    let x = nearest(n, d).units() * d;
    let y = n * u;
    if n == 0 {
        assert(nearest(n, d).units() == 0 * pow2(1074));
        assert(x == 0 && y == 0) by (nonlinear_arith)
            requires
                x == (0 * pow2(1074)) * d,
                y == 0 * u,
        ;
        assert((HIGH - 1) * y == 0 && HIGH * x == 0) by (nonlinear_arith)
            requires
                x == 0,
                y == 0,
        ;
    } else {
        lemma_in_range(n, d);
        let e = choose|e: int| in_binade(n, d, e);
        let g = pow2(2000);
        let w = pow2((e + 2000) as nat);
        let h = pow2(926);
        let t = pow2((e + 1074) as nat);
        lemma_pow2_pos((e + 2000) as nat);
        lemma_pow2_pos(926);
        lemma_pow2_adds(1074, 926);
        lemma_pow2_adds((e + 1074) as nat, 926);
        let top = n * g;
        let below = d * w;
        let m = half_even(top, below);
        assert(below > 0) by (nonlinear_arith)
            requires
                below == d * w,
                d > 0,
                w > 0,
        ;
        lemma_half_even_error(top, below);
        lemma_in_binade_mantissa(n, d, e);
        if e >= 2000 {
            let k = pow2(1000);
            let low = LOW as nat;
            lemma_pow2_monotone(3000, (e + 2000) as nat);
            lemma_pow2_adds(1000, 2000);
            lemma_pow2_pos(2000);
            lemma_pow2_pos(1000);
            assert(low * (d * w) > n * g) by (nonlinear_arith)
                requires
                    w >= k * g,
                    n <= d * k,
                    d > 0,
                    g > 0,
                    k > 0,
                    low > 1,
            ;
        }
        lemma_carried_units(m, e);
        assert(x * h == m * below) by (nonlinear_arith)
            requires
                x == (m * t) * d,
                w == t * h,
                below == d * w,
        ;
        assert(y * h == top) by (nonlinear_arith)
            requires
                y == n * u,
                top == n * g,
                g == u * h,
        ;
        let p = m * below;
        assert(HIGH * p <= (HIGH + 1) * top && (HIGH - 1) * top <= HIGH * p) by (nonlinear_arith)
            requires
                2 * p <= 2 * top + below,
                2 * top <= 2 * p + below,
                LOW * below <= top,
                HIGH == 2 * LOW,
                LOW > 0,
        ;
        assert(HIGH * x <= (HIGH + 1) * y) by (nonlinear_arith)
            requires
                HIGH * p <= (HIGH + 1) * top,
                x * h == p,
                y * h == top,
                h > 0,
        ;
        assert((HIGH - 1) * y <= HIGH * x) by (nonlinear_arith)
            requires
                (HIGH - 1) * top <= HIGH * p,
                x * h == p,
                y * h == top,
                h > 0,
        ;
    }
}

/// Rounding does not pass a power of two below one: a fraction of at most
/// two to the power of `-j` rounds to a double of at most that.
pub proof fn lemma_nearest_below(n: nat, d: nat, j: nat)
    requires
        d > 0,
        j <= 1000,
        n * pow2(j) <= d,
    ensures
        nearest(n, d).units() <= pow2((1074 - j) as nat),
{
    let h = pow2(1074);
    let top = pow2((1074 - j) as nat);
    let p = pow2(j);
    lemma_pow2_pos((1074 - j) as nat);
    lemma_pow2_pos(j);
    lemma_pow2_adds(j, (1074 - j) as nat);
    if n == 0 {
        assert(0 * pow2(1074) == 0);
    } else if is_tiny(n, d) {
        assert(n * h <= top * d) by (nonlinear_arith)
            requires
                n * p <= d,
                h == p * top,
                top > 0,
        ;
        lemma_half_even_at_most(n * h, d, top);
        lemma_lowest_units(n, d);
    } else {
        lemma_in_range(n, d);
        let e = choose|e: int| in_binade(n, d, e);
        let g = pow2(2000);
        let w = pow2((e + 2000) as nat);
        let low = LOW as nat;
        lemma_pow2_pos((e + 2000) as nat);
        lemma_pow2_pos(2000);
        lemma_in_binade_mantissa(n, d, e);
        if e + j > 0 {
            lemma_pow2_monotone(2000, (e + 2000 + j) as nat);
            lemma_pow2_adds((e + 2000) as nat, j);
            assert(low * (d * w) > n * g) by (nonlinear_arith)
                requires
                    n * p <= d,
                    w * p >= g,
                    low > 1,
                    n > 0,
                    d > 0,
                    g > 0,
                    w > 0,
            ;
            assert(false);
        }
        let k = pow2((-e - j) as nat);
        lemma_pow2_pos((-e - j) as nat);
        lemma_pow2_adds((-e - j) as nat, j);
        lemma_pow2_adds((-e) as nat, (e + 2000) as nat);
        assert(n * g <= k * (d * w)) by (nonlinear_arith)
            requires
                n * p <= d,
                (k * p) * w == g,
                k > 0,
                w > 0,
        ;
        let m = half_even(n * g, d * w);
        lemma_half_even_at_most(n * g, d * w, k);
        let t = pow2((e + 1074) as nat);
        lemma_pow2_adds((-e - j) as nat, (e + 1074) as nat);
        lemma_carried_units(m, e);
        assert(m * t <= k * t) by (nonlinear_arith)
            requires
                m <= k,
        ;
    }
}

/// The double that a quotient below the normal doubles rounds to.
proof fn lemma_lowest_units(n: nat, d: nat)
    requires
        d > 0,
        is_tiny(n, d),
    ensures
        lowest(half_even(n * pow2(1074), d)).units() == half_even(n * pow2(1074), d),
        half_even(n * pow2(1074), d) <= LOW,
        nearest(n, d).wf(),
        nearest(n, d).units() == half_even(n * pow2(1074), d),
{
    let a = n * pow2(1074);
    let m = half_even(a, d);
    let low = LOW as nat;
    assert(a <= low * d);
    lemma_half_even_at_most(a, d, low);
    lemma_pow2_constants();
    assert(m * pow2(0) == m) by (nonlinear_arith)
        requires
            pow2(0) == 1,
    ;
    assert(0 * pow2(1074) == 0);
    if n == 0 {
        assert(a == 0) by (nonlinear_arith)
            requires
                a == n * pow2(1074),
                n == 0,
        ;
        lemma_half_even_at_most(a, d, 0);
    }
}

proof fn lemma_half_even_at_most(n: nat, d: nat, k: nat)
    requires
        d > 0,
        n <= k * d,
    ensures
        half_even(n, d) <= k,
{
    let q = n / d;
    let r = n % d;
    assert(n == q * d + r) by (nonlinear_arith)
        requires
            q == n / d,
            r == n % d,
            d > 0,
    ;
    assert(q <= k && (q == k ==> r == 0)) by (nonlinear_arith)
        requires
            n == q * d + r,
            0 <= r < d,
            n <= k * d,
            d > 0,
    ;
}

/// A double of at most `k` has a whole part of at most `k`, rounded or not.
pub proof fn lemma_whole_part_at_most(a: Binary64, k: nat)
    requires
        a.units() <= k * pow2(1074),
    ensures
        a.floor() <= k,
        a.round() <= k,
{
    let g = pow2(1074);
    let u = a.units();
    lemma_pow2_pos(1074);
    assert(u / g <= k) by (nonlinear_arith)
        requires
            u <= k * g,
            g > 0,
    ;
    assert((2 * u + g) / (2 * g) <= k) by (nonlinear_arith)
        requires
            u <= k * g,
            g > 0,
    ;
}

/// A double below 1024 has a correspondingly low exponent.
pub proof fn lemma_exponent_at_most(a: Binary64)
    requires
        a.wf(),
        a.mantissa > 0,
        a.units() < 1024 * pow2(1074),
    ensures
        a.exponent < -42,
{
    if a.exponent >= -42 {
        let u = pow2((a.exponent + 1074) as nat);
        lemma_pow2_monotone(1032, (a.exponent + 1074) as nat);
        lemma_pow2_adds(1032, 42);
        vstd::arithmetic::power2::lemma2_to64_rest();
        vstd::arithmetic::power2::lemma2_to64();
        let v = pow2(1032);
        lemma_pow2_pos(1032);
        let x = a.mantissa as nat;
        assert(pow2(42) == 0x400_0000_0000);
        assert(x * u >= 1024 * (v * 0x400_0000_0000)) by (nonlinear_arith)
            requires
                x >= 0x10_0000_0000_0000,
                u >= v,
                v > 0,
        ;
        assert(false);
    }
}

/// A double of at least one has a correspondingly high exponent.
pub proof fn lemma_exponent_at_least(a: Binary64)
    requires
        a.wf(),
        a.units() >= pow2(1074),
    ensures
        a.exponent >= -52,
        a.mantissa > 0,
{
    let u = pow2((a.exponent + 1074) as nat);
    let x = a.mantissa as nat;
    lemma_pow2_pos(1074);
    if a.mantissa == 0 {
        assert(x * u == 0) by (nonlinear_arith)
            requires
                x == 0,
        ;
    }
    if a.exponent < -52 {
        lemma_pow2_monotone((a.exponent + 1074) as nat, 1021);
        lemma_pow2_adds(1021, 53);
        vstd::arithmetic::power2::lemma2_to64_rest();
        lemma_pow2_pos(1021);
        let v = pow2(1021);
        assert(pow2(53) == HIGH);
        assert(x * u < v * 0x20_0000_0000_0000) by (nonlinear_arith)
            requires
                x < 0x20_0000_0000_0000,
                u <= v,
                v > 0,
        ;
        assert(false);
    }
}

proof fn lemma_half_even_monotone(n1: nat, n2: nat, d: nat)
    requires
        d > 0,
        n1 <= n2,
    ensures
        half_even(n1, d) <= half_even(n2, d),
{
    let q1 = n1 / d;
    let q2 = n2 / d;
    let r1 = n1 % d;
    let r2 = n2 % d;
    assert(q1 <= q2 && (q1 == q2 ==> r1 <= r2)) by (nonlinear_arith)
        requires
            n1 <= n2,
            d > 0,
            q1 == n1 / d,
            q2 == n2 / d,
            r1 == n1 % d,
            r2 == n2 % d,
    ;
}

proof fn lemma_carried_units(m: nat, e: int)
    requires
        m <= HIGH,
        -1074 <= e < 2000,
    ensures
        carried(m, e).units() == m * pow2((e + 1074) as nat),
{
    if m == HIGH {
        let t = pow2((e + 1074) as nat);
        lemma_pow2_unfold((e + 1075) as nat);
        let low = LOW as nat;
        assert(low * (2 * t) == m * t) by (nonlinear_arith)
            requires
                m == 2 * low,
        ;
    }
}

proof fn lemma_in_binade_mantissa(n: nat, d: nat, e: int)
    requires
        d > 0,
        in_binade(n, d, e),
    ensures
        LOW <= half_even(n * pow2(2000), d * pow2((e + 2000) as nat)) <= HIGH,
        d * pow2((e + 2000) as nat) > 0,
{
    let a = n * pow2(2000);
    let w = pow2((e + 2000) as nat);
    lemma_pow2_pos((e + 2000) as nat);
    let b = d * w;
    assert(b > 0) by (nonlinear_arith)
        requires
            b == d * w,
            d > 0,
            w > 0,
    ;
    assert(LOW <= a / b < HIGH) by (nonlinear_arith)
        requires
            LOW * b <= a < HIGH * b,
            b > 0,
    ;
}

proof fn lemma_binade_of_a_word(n: nat, d: nat, e: int)
    requires
        d > 0,
        n <= 0x1_0000_0000_0000_0000 * d,
        in_binade(n, d, e),
    ensures
        e <= 12,
{
    if e > 12 {
        let g = pow2(2000);
        let w = pow2((e + 2000) as nat);
        lemma_pow2_pos(2000);
        lemma_pow2_monotone(2013, (e + 2000) as nat);
        lemma_pow2_adds(13, 2000);
        vstd::arithmetic::power2::lemma2_to64();
        assert(w >= 0x2000 * g);
        assert(LOW * (d * w) > n * g) by (nonlinear_arith)
            requires
                w >= 0x2000 * g,
                g > 0,
                d > 0,
                n <= 0x1_0000_0000_0000_0000 * d,
                LOW == 0x10_0000_0000_0000,
        ;
    }
}

/// A larger quotient has no smaller double.
pub proof fn lemma_nearest_monotone(n1: nat, n2: nat, d: nat)
    requires
        d > 0,
        0 < n1 <= n2,
        n2 <= 0x1_0000_0000_0000_0000 * d,
        in_range(n1, d),
        in_range(n2, d),
        nearest(n1, d).wf(),
        nearest(n2, d).wf(),
        -390 <= nearest(n1, d).exponent,
        -390 <= nearest(n2, d).exponent,
    ensures
        nearest(n1, d).units() <= nearest(n2, d).units(),
{
    let e1 = choose|e: int| in_binade(n1, d, e);
    let e2 = choose|e: int| in_binade(n2, d, e);
    lemma_not_tiny(n1, d, e1);
    lemma_not_tiny(n2, d, e2);
    let g = pow2(2000);
    let w1 = pow2((e1 + 2000) as nat);
    let w2 = pow2((e2 + 2000) as nat);
    let low = LOW as nat;
    lemma_pow2_pos(2000);
    lemma_pow2_pos((e1 + 2000) as nat);
    lemma_pow2_pos((e2 + 2000) as nat);
    assert(n1 * g <= n2 * g) by (nonlinear_arith)
        requires
            n1 <= n2,
    ;
    if e1 > e2 {
        lemma_pow2_monotone((e2 + 2001) as nat, (e1 + 2000) as nat);
        lemma_pow2_unfold((e2 + 2001) as nat);
        assert(low * (d * w1) >= (2 * low) * (d * w2)) by (nonlinear_arith)
            requires
                w1 >= 2 * w2,
                d > 0,
        ;
        assert(false);
    }
    let m1 = half_even(n1 * g, d * w1);
    let m2 = half_even(n2 * g, d * w2);
    lemma_in_binade_mantissa(n1, d, e1);
    lemma_in_binade_mantissa(n2, d, e2);
    lemma_binade_of_a_word(n2, d, e2);
    lemma_exponent_of_carried(m1, e1, nearest(n1, d));
    lemma_exponent_of_carried(m2, e2, nearest(n2, d));
    lemma_carried_units(m1, e1);
    lemma_carried_units(m2, e2);
    let t1 = pow2((e1 + 1074) as nat);
    let t2 = pow2((e2 + 1074) as nat);
    if e1 == e2 {
        lemma_half_even_monotone(n1 * g, n2 * g, d * w1);
        assert(m1 * t1 <= m2 * t1) by (nonlinear_arith)
            requires
                m1 <= m2,
        ;
    } else {
        lemma_pow2_monotone((e1 + 1075) as nat, (e2 + 1074) as nat);
        lemma_pow2_unfold((e1 + 1075) as nat);
        assert(m1 * t1 <= m2 * t2) by (nonlinear_arith)
            requires
                m1 <= 2 * low,
                low <= m2,
                2 * t1 <= t2,
        ;
    }
}

proof fn lemma_exponent_of_carried(m: nat, e: int, r: Binary64)
    requires
        r == carried(m, e),
        -2000 <= e,
        -390 <= r.exponent <= 1074,
        e <= 12,
    ensures
        -1074 <= e < 2000,
{
}

// ── whole numbers ───────────────────────────────────────────────────────────

/// The place of the highest bit of a number.
pub proof fn lemma_highest_bit(n: nat) -> (k: nat)
    requires
        0 < n,
    ensures
        pow2(k) <= n < pow2(k + 1),
    decreases n,
{
    lemma_pow2_constants();
    if n == 1 {
        lemma_pow2_unfold(1);
        0
    } else {
        let j = lemma_highest_bit(n / 2);
        lemma_pow2_unfold(j + 1);
        lemma_pow2_unfold(j + 2);
        j + 1
    }
}

/// A whole number of at most 53 bits is a double.
pub proof fn lemma_whole_is_exact(n: nat)
    requires
        0 < n <= HIGH,
    ensures
        Binary64::whole(n).units() == n * pow2(1074),
        in_range(n, 1),
{
    lemma_pow2_constants();
    let k = lemma_highest_bit(n);
    lemma_pow2_unfold(53);
    if k > 53 {
        lemma_pow2_monotone(54, k);
        lemma_pow2_unfold(54);
    }
    let e = k - 52;
    lemma_pow2_pos(k);
    if k <= 52 {
        let a = n * pow2((52 - k) as nat);
        let t = pow2((52 - k) as nat);
        lemma_pow2_pos((52 - k) as nat);
        lemma_pow2_adds(k, (52 - k) as nat);
        lemma_pow2_unfold(k + 1);
        assert(LOW <= a < HIGH) by (nonlinear_arith)
            requires
                a == n * t,
                pow2(k) * t == LOW,
                pow2(k) <= n < 2 * pow2(k),
                t > 0,
                HIGH == 2 * LOW,
        ;
        lemma_pow2_adds((52 - k) as nat, (k + 1948) as nat);
        assert(a * (1 * pow2((e + 2000) as nat)) == 1 * (n * pow2(2000))) by (nonlinear_arith)
            requires
                a == n * t,
                t * pow2((e + 2000) as nat) == pow2(2000),
        ;
        lemma_nearest(n, 1, e, a, 1);
        assert(half_even(a, 1) == a);
        lemma_pow2_adds((52 - k) as nat, (k + 1022) as nat);
        assert(a * pow2((e + 1074) as nat) == n * pow2(1074)) by (nonlinear_arith)
            requires
                a == n * t,
                t * pow2((e + 1074) as nat) == pow2(1074),
        ;
    } else {
        assert(n == HIGH);
        lemma_pow2_adds(1, 1999);
        lemma_pow2_adds(1, 2000);
        lemma_pow2_unfold(1);
        assert(LOW * (1 * pow2(2001)) == 1 * (n * pow2(2000))) by (nonlinear_arith)
            requires
                pow2(2001) == 2 * pow2(2000),
                n == 2 * LOW,
        ;
        lemma_nearest(n, 1, 1, LOW as nat, 1);
        assert(half_even(LOW as nat, 1) == LOW);
        lemma_pow2_adds(1, 1074);
        assert(LOW * pow2(1075) == n * pow2(1074)) by (nonlinear_arith)
            requires
                pow2(1075) == 2 * pow2(1074),
                n == 2 * LOW,
        ;
    }
}

/// The double nearest to a whole number of 64 bits is not zero, unless the number
/// is.
pub proof fn lemma_whole_is_positive(n: nat)
    requires
        0 < n <= u64::MAX,
    ensures
        Binary64::whole(n).units() > 0,
{
    lemma_pow2_constants();
    let k = lemma_highest_bit(n);
    if k <= 52 {
        lemma_pow2_unfold(53);
        lemma_pow2_monotone(k + 1, 53);
        lemma_whole_is_exact(n);
        lemma_pow2_pos(1074);
        assert(n * pow2(1074) > 0) by (nonlinear_arith)
            requires
                n > 0,
                pow2(1074) > 0,
        ;
    } else {
        if k > 63 {
            lemma_pow2_monotone(64, k);
            vstd::arithmetic::power2::lemma2_to64_rest();
        }
        let b = pow2((k - 52) as nat);
        let e = k - 52;
        lemma_pow2_pos((k - 52) as nat);
        lemma_pow2_adds(52, (k - 52) as nat);
        lemma_pow2_unfold(k + 1);
        lemma_pow2_adds((k - 52) as nat, 2000);
        assert(n * (1 * pow2((e + 2000) as nat)) == b * (n * pow2(2000))) by (nonlinear_arith)
            requires
                b * pow2(2000) == pow2((e + 2000) as nat),
        ;
        lemma_nearest(n, 1, e, n, b);
        let r = Binary64::whole(n);
        lemma_pow2_pos((r.exponent + 1074) as nat);
        assert(r.units() > 0) by (nonlinear_arith)
            requires
                r.units() == r.mantissa as nat * pow2((r.exponent + 1074) as nat),
                r.mantissa > 0,
                pow2((r.exponent + 1074) as nat) > 0,
        ;
    }
}

/// A number has the share one in itself.
pub proof fn lemma_share_of_itself(u: nat)
    requires
        u > 0,
    ensures
        nearest(u, u) == Binary64::whole(1),
{
    lemma_whole_is_exact(1);
    lemma_nearest_ratio(1, 1, u, u);
}

} // verus!
