//! The scale of a rounding to decimal places.
//!
//! A value is rounded to `p` places by scaling it with the `p`-th power of
//! ten, rounding to a whole number and scaling back. This module gives the
//! power of ten as a whole number; the arithmetic on the value itself is the
//! caller's.

use vstd::prelude::*;
use vstd::arithmetic::power::{lemma_pow_increases, pow};

verus! {

/// The places that a rounding goes to when none are asked for.
pub const DEFAULT_PLACES: u32 = 2;

/// The most places whose power of ten is below `2^64`.
pub const MAX_PLACES: u32 = 19;

/// The places asked for, or the default.
pub open spec fn places_of(place: Option<u32>) -> nat {
    match place {
        Some(p) => p as nat,
        None => DEFAULT_PLACES as nat,
    }
}

proof fn lemma_next_power_of_ten(e: nat)
    ensures
        pow(10, e + 1) == 10 * pow(10, e),
{
    reveal(pow);
}

proof fn lemma_large_powers_of_ten()
    ensures
        pow(10, 19) == 10_000_000_000_000_000_000,
        pow(10, 20) == 100_000_000_000_000_000_000,
{
    reveal(pow);
    assert(pow(10, 0) == 1);
    lemma_next_power_of_ten(0);
    lemma_next_power_of_ten(1);
    lemma_next_power_of_ten(2);
    lemma_next_power_of_ten(3);
    lemma_next_power_of_ten(4);
    assert(pow(10, 5) == 100_000);
    lemma_next_power_of_ten(5);
    lemma_next_power_of_ten(6);
    lemma_next_power_of_ten(7);
    lemma_next_power_of_ten(8);
    lemma_next_power_of_ten(9);
    assert(pow(10, 10) == 10_000_000_000);
    lemma_next_power_of_ten(10);
    lemma_next_power_of_ten(11);
    lemma_next_power_of_ten(12);
    lemma_next_power_of_ten(13);
    lemma_next_power_of_ten(14);
    assert(pow(10, 15) == 1_000_000_000_000_000);
    lemma_next_power_of_ten(15);
    lemma_next_power_of_ten(16);
    lemma_next_power_of_ten(17);
    lemma_next_power_of_ten(18);
    lemma_next_power_of_ten(19);
}

/// The power of ten fits in 64 bits for up to [`MAX_PLACES`] places and for
/// no more.
pub proof fn lemma_power_of_ten_fits(places: nat)
    ensures
        pow(10, places) <= u64::MAX <==> places <= MAX_PLACES,
        pow(10, places) >= 1,
{
    lemma_large_powers_of_ten();
    if places <= 19 {
        lemma_pow_increases(10, places, 19);
    } else {
        lemma_pow_increases(10, 20, places);
    }
    lemma_pow_increases(10, 0, places);
    reveal(pow);
    assert(pow(10, 0) == 1);
}

/// The power of ten for the places asked for (two when none are), or `None`
/// when it does not fit in 64 bits.
pub fn decimal_base(place: Option<u32>) -> (base: Option<u64>)
    ensures
        base is Some <==> places_of(place) <= MAX_PLACES,
        base matches Some(b) ==> b == pow(10, places_of(place)),
{
    let places: u32 = match place {
        Some(p) => p,
        None => DEFAULT_PLACES,
    };
    if places > MAX_PLACES {
        return None;
    }
    let mut base: u64 = 1;
    let mut i: u32 = 0;
    proof {
        reveal(pow);
        assert(pow(10, 0) == 1);
    }
    while i < places
        invariant
            i <= places <= MAX_PLACES,
            base == pow(10, i as nat),
        decreases places - i,
    {
        proof {
            lemma_next_power_of_ten(i as nat);
            lemma_power_of_ten_fits((i + 1) as nat);
        }
        base = base * 10;
        i += 1;
    }
    Some(base)
}

} // verus!
