//! Rates and shares as double-precision numbers.

use vstd::arithmetic::power2::pow2;
use vstd::prelude::*;

use crate::binary64::{lemma_whole_exponent, Binary64};

verus! {

/// A length of time in seconds.
pub open spec fn seconds(nanos: nat) -> Binary64 {
    Binary64::whole(nanos).over(Binary64::whole(1_000_000_000))
}

/// A length of time in milliseconds.
pub open spec fn millis(nanos: nat) -> Binary64 {
    Binary64::whole(nanos).over(Binary64::whole(1_000_000))
}

/// Mebibytes per second; zero where no time has passed.
pub open spec fn mib_per_second(bytes: nat, nanos: nat) -> Binary64 {
    if nanos == 0 {
        Binary64::zero()
    } else {
        Binary64::whole(bytes).over(Binary64::whole(1_048_576)).over(seconds(nanos))
    }
}

/// Events per second; zero where no time has passed.
pub open spec fn per_second(count: nat, nanos: nat) -> Binary64 {
    if nanos == 0 {
        Binary64::zero()
    } else {
        Binary64::whole(count).over(seconds(nanos))
    }
}

/// The share that `part` has in `all`; zero where there is nothing.
pub open spec fn share(part: nat, all: nat) -> Binary64 {
    if all == 0 {
        Binary64::zero()
    } else {
        Binary64::whole(part).over(Binary64::whole(all))
    }
}

/// A whole number below two to the power of 52 with its highest bit known.
fn constant(n: u64, Ghost(k): Ghost<nat>) -> (r: Binary64)
    requires
        0 < n < 0x10_0000_0000_0000,
        k < 52,
        pow2(k) <= n < pow2(k + 1),
    ensures
        r == Binary64::whole(n as nat),
        r.moderate(),
        r.mantissa > 0,
        r.exponent == k - 52,
{
    let r = Binary64::from_u64(n);
    proof {
        lemma_whole_exponent(r, n as nat, k);
    }
    r
}

/// `nanos` in seconds.
pub fn seconds_of(nanos: u64) -> (r: Binary64)
    ensures
        r == seconds(nanos as nat),
        r.moderate(),
        nanos > 0 ==> r.mantissa > 0 && -82 <= r.exponent <= -16,
        nanos == 0 ==> r == Binary64::zero(),
{
    proof {
        vstd::arithmetic::power2::lemma2_to64();
    }
    let d = constant(1_000_000_000, Ghost(29));
    Binary64::from_u64(nanos).divided_by(d)
}

/// `nanos` in milliseconds.
pub fn millis_of(nanos: u64) -> (r: Binary64)
    ensures
        r == millis(nanos as nat),
        r.moderate(),
        r.exponent <= 0,
{
    proof {
        vstd::arithmetic::power2::lemma2_to64();
    }
    let d = constant(1_000_000, Ghost(19));
    Binary64::from_u64(nanos).divided_by(d)
}

/// `bytes` over `nanos` in mebibytes per second.
pub fn mib_per_second_of(bytes: u64, nanos: u64) -> (r: Binary64)
    ensures
        r == mib_per_second(bytes as nat, nanos as nat),
        r.moderate(),
        -110 <= r.exponent <= 24,
{
    if nanos == 0 {
        return Binary64 { mantissa: 0, exponent: 0 };
    }
    proof {
        vstd::arithmetic::power2::lemma2_to64();
    }
    let d = constant(1_048_576, Ghost(20));
    let mib = Binary64::from_u64(bytes).divided_by(d);
    let secs = seconds_of(nanos);
    mib.divided_by(secs)
}

/// `count` over `nanos` in events per second.
pub fn per_second_of(count: u64, nanos: u64) -> (r: Binary64)
    ensures
        r == per_second(count as nat, nanos as nat),
        r.moderate(),
        r.exponent <= 43,
{
    if nanos == 0 {
        return Binary64 { mantissa: 0, exponent: 0 };
    }
    let secs = seconds_of(nanos);
    Binary64::from_u64(count).divided_by(secs)
}

/// The share that `part` has in `all`.
pub fn share_of(part: u64, all: u64) -> (r: Binary64)
    ensures
        r == share(part as nat, all as nat),
        r.moderate(),
        -117 <= r.exponent <= 13,
{
    if all == 0 {
        return Binary64 { mantissa: 0, exponent: 0 };
    }
    let d = Binary64::from_u64(all);
    Binary64::from_u64(part).divided_by(d)
}

/// A number, or one where that is less.
pub open spec fn capped(r: Binary64) -> Binary64 {
    if Binary64::whole(1).below(r) {
        Binary64::whole(1)
    } else {
        r
    }
}

/// The double nearest to one, with its exponent.
pub(crate) fn one() -> (r: Binary64)
    ensures
        r == Binary64::whole(1),
        r.moderate(),
        r.mantissa > 0,
        r.exponent == -52,
        r.units() == pow2(1074),
{
    let r = Binary64::from_u64(1);
    proof {
        vstd::arithmetic::power2::lemma2_to64();
        vstd::arithmetic::power2::lemma2_to64_rest();
        lemma_whole_exponent(r, 1, 0);
        assert(r.mantissa == pow2(52)) by (nonlinear_arith)
            requires
                r.mantissa == 1 * pow2(52),
        ;
        vstd::arithmetic::power2::lemma_pow2_adds(52, 1022);
    }
    r
}

/// A number, or one where that is less.
pub fn capped_of(s: Binary64) -> (r: Binary64)
    requires
        s.moderate(),
        -117 <= s.exponent <= 13,
    ensures
        r == capped(s),
        !Binary64::whole(1).below(r),
        s == Binary64::zero() ==> r == s,
        r.moderate(),
        r.units() <= pow2(1074),
        -117 <= r.exponent <= 13,
{
    let top = one();
    if top.less_than(s) {
        proof {
            assert(s == Binary64::zero() ==> s.units() == 0) by (nonlinear_arith)
                requires
                    s.units() == s.mantissa as nat * pow2((s.exponent + 1074) as nat),
                    s == Binary64::zero() ==> s.mantissa == 0,
            ;
        }
        top
    } else {
        s
    }
}

} // verus!
