//! Doubles, held by their bits and compared as doubles are.

use vstd::prelude::*;

verus! {

/// The bit that tells a negative double.
pub const SIGN: u64 = 0x8000000000000000;

/// The largest magnitude of a number; what is beyond is no number.
pub const INFINITE: u64 = 0x7FF0000000000000;

/// Zero, by its bits.
pub const ZERO: u64 = 0;

/// One, by its bits.
pub const ONE: u64 = 0x3FF0000000000000;

/// A double without its sign.
pub open spec fn magnitude(d: u64) -> u64 {
    if d >= SIGN {
        (d - SIGN) as u64
    } else {
        d
    }
}

/// Whether a double is no number.
pub open spec fn not_a_number(d: u64) -> bool {
    magnitude(d) > INFINITE
}

/// Where a double stands among the numbers. Both zeros stand at one place.
pub open spec fn place(d: u64) -> int {
    if d >= SIGN {
        -(magnitude(d) as int)
    } else {
        magnitude(d) as int
    }
}

/// Whether a double is less than another. What is no number is less than
/// nothing, and nothing is less than it.
pub open spec fn below(a: u64, b: u64) -> bool {
    !not_a_number(a) && !not_a_number(b) && place(a) < place(b)
}

/// A double brought between two others. What is no number stays as it is.
pub open spec fn clamped(d: u64, low: u64, high: u64) -> u64 {
    if below(d, low) {
        low
    } else if below(high, d) {
        high
    } else {
        d
    }
}

/// Whether a double is less than another.
pub fn is_below(a: u64, b: u64) -> (r: bool)
    ensures
        r == below(a, b),
{
    let x: u64 = if a >= SIGN {
        a - SIGN
    } else {
        a
    };
    let y: u64 = if b >= SIGN {
        b - SIGN
    } else {
        b
    };
    if x > INFINITE || y > INFINITE {
        return false;
    }
    if a >= SIGN {
        if b >= SIGN {
            x > y
        } else {
            x > 0 || y > 0
        }
    } else {
        b < SIGN && x < y
    }
}

/// Brings a double between two others.
pub fn clamp(d: u64, low: u64, high: u64) -> (r: u64)
    ensures
        r == clamped(d, low, high),
{
    if is_below(d, low) {
        low
    } else if is_below(high, d) {
        high
    } else {
        d
    }
}

/// A number that orders doubles: of two numbers the lesser one has the lesser key.
pub fn order_key(d: u64) -> (r: i64)
    ensures
        r == place(d),
{
    if d >= SIGN {
        -((d - SIGN) as i64)
    } else {
        d as i64
    }
}

/// A number that was brought between two others is not outside of them.
pub proof fn clamped_is_between(d: u64, low: u64, high: u64)
    requires
        !not_a_number(d),
        !below(high, low),
    ensures
        !below(clamped(d, low, high), low),
        !below(high, clamped(d, low, high)),
{
}

} // verus!
