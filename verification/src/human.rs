//! Quantities in a form for human readers.

use vstd::prelude::*;

use crate::binary64::Binary64;
use crate::rate::share_of;
use crate::text::{decimal, decimal_of};

verus! {

/// A length of time: nanoseconds, microseconds or milliseconds, cut to a whole
/// number of the unit.
pub open spec fn human_ns_text(n: nat) -> Seq<char> {
    if n < 1_000 {
        decimal(n) + " ns"@
    } else if n < 1_000_000 {
        decimal(n / 1_000) + " µs"@
    } else {
        decimal(n / 1_000_000) + " ms"@
    }
}

/// A length of time for human readers.
pub fn human_ns(n: u64) -> (s: String)
    ensures
        s@ == human_ns_text(n as nat),
{
    if n < 1_000 {
        let mut s = decimal_of(n as u128);
        s.append(" ns");
        s
    } else if n < 1_000_000 {
        let mut s = decimal_of((n / 1_000) as u128);
        s.append(" µs");
        s
    } else {
        let mut s = decimal_of((n / 1_000_000) as u128);
        s.append(" ms");
        s
    }
}

/// `n / unit` with one digit behind the point.
pub open spec fn tenths(n: nat, unit: nat) -> Seq<char> {
    Binary64::whole(n).over(Binary64::whole(unit)).fixed(1)
}

/// A byte count: whole bytes below 1024, else with one digit behind the point
/// in the largest unit up to gibibytes that does not make it less than one.
pub open spec fn human_bytes_text(n: nat) -> Seq<char> {
    if n < 0x400 {
        decimal(n) + " B"@
    } else if n < 0x10_0000 {
        tenths(n, 0x400) + " KiB"@
    } else if n < 0x4000_0000 {
        tenths(n, 0x10_0000) + " MiB"@
    } else {
        tenths(n, 0x4000_0000) + " GiB"@
    }
}

/// A byte count for human readers.
pub fn human_bytes(n: u64) -> (s: String)
    ensures
        s@ == human_bytes_text(n as nat),
{
    if n < 0x400 {
        let mut s = decimal_of(n as u128);
        s.append(" B");
        s
    } else if n < 0x10_0000 {
        let mut s = share_of(n, 0x400).fixed_of(1);
        s.append(" KiB");
        s
    } else if n < 0x4000_0000 {
        let mut s = share_of(n, 0x10_0000).fixed_of(1);
        s.append(" MiB");
        s
    } else {
        let mut s = share_of(n, 0x4000_0000).fixed_of(1);
        s.append(" GiB");
        s
    }
}

} // verus!
