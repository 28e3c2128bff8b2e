//! Rates as the bits of the binary64 number that was written.
//!
//! The library decides on a rate (is it finite, is it negative) from its bits
//! and never computes with it. A price that a tariff scaled is kept as the
//! written rate together with the multipliers, in the order in which they
//! apply, so that the caller multiplies exactly once per factor.

use vstd::prelude::*;

verus! {

/// A number in the binary64 format.
#[derive(Debug, Clone, Copy, PartialEq, Eq, Structural)]
pub struct Rate {
    pub bits: u64,
}

impl Rate {
    /// The biased exponent.
    pub open spec fn exponent(self) -> int {
        (self.bits as int / 0x10_0000_0000_0000) % 0x800
    }

    /// The number without its sign bit.
    pub open spec fn magnitude(self) -> int {
        self.bits as int % 0x8000_0000_0000_0000
    }

    /// Neither an infinity nor a NaN.
    pub open spec fn finite(self) -> bool {
        self.exponent() != 0x7ff
    }

    /// The sign bit is set.
    pub open spec fn signed(self) -> bool {
        self.bits >= 0x8000_0000_0000_0000
    }

    /// A finite number of at least zero; a zero counts with either sign.
    pub open spec fn non_negative(self) -> bool {
        self.finite() && (!self.signed() || self.magnitude() == 0)
    }

    /// A finite number above zero.
    pub open spec fn positive(self) -> bool {
        self.finite() && !self.signed() && self.magnitude() != 0
    }

    pub fn is_finite(&self) -> (r: bool)
        ensures
            r == self.finite(),
    {
        (self.bits / 0x10_0000_0000_0000) % 0x800 != 0x7ff
    }

    /// Whether the number is finite and not below zero.
    pub fn is_non_negative(&self) -> (r: bool)
        ensures
            r == self.non_negative(),
    {
        self.is_finite() && (self.bits < 0x8000_0000_0000_0000 || self.bits
            % 0x8000_0000_0000_0000 == 0)
    }

    /// Whether the number is finite and above zero.
    pub fn is_positive(&self) -> (r: bool)
        ensures
            r == self.positive(),
    {
        self.is_finite() && self.bits < 0x8000_0000_0000_0000 && self.bits != 0
    }
}

impl Rate {
    /// The place of the number in the total order of all binary64 values: by
    /// value, with the negative zero below the positive one and the NaNs outside
    /// of the infinities.
    pub open spec fn rank(self) -> int {
        if self.signed() {
            -self.magnitude() - 1
        } else {
            self.magnitude()
        }
    }

    /// Whether the number is above another in the total order.
    pub fn is_above(&self, other: &Rate) -> (r: bool)
        ensures
            r == (self.rank() > other.rank()),
    {
        let half: u64 = 0x8000_0000_0000_0000;
        if self.bits >= half {
            other.bits >= half && self.bits < other.bits
        } else {
            other.bits >= half || self.bits > other.bits
        }
    }
}

impl Rate {
    /// Not a number.
    pub open spec fn nan(self) -> bool {
        self.magnitude() > 0x7ff0_0000_0000_0000
    }

    /// Whether two numbers have the same value: the two zeros do, and what is
    /// not a number has none.
    pub open spec fn equals(self, other: Rate) -> bool {
        !self.nan() && !other.nan() && (self == other || self.magnitude() == 0 && other.magnitude()
            == 0)
    }

    /// Whether two numbers have the same value.
    pub fn same(&self, other: &Rate) -> (r: bool)
        ensures
            r == self.equals(*other),
    {
        let half: u64 = 0x8000_0000_0000_0000;
        let one: u64 = self.bits % half;
        let two: u64 = other.bits % half;
        one <= 0x7ff0_0000_0000_0000 && two <= 0x7ff0_0000_0000_0000 && (self.bits == other.bits
            || one == 0 && two == 0)
    }
}

/// Having the same value goes both ways, and from one number over a second to a
/// third; a finite number has the value of itself.
pub proof fn same_value_is_an_equivalence(a: Rate, b: Rate, c: Rate)
    ensures
        a.equals(b) == b.equals(a),
        a.equals(b) && b.equals(c) ==> a.equals(c),
        a.finite() ==> a.equals(a),
{
}

/// What a number is can be read off its bits: the infinities and what is not a
/// number have the largest exponent, and the sign is the highest bit. A zero is
/// not negative with either sign, and positive with none.
pub proof fn bits_tell_what_a_number_is(rate: Rate)
    ensures
        rate.finite() <==> rate.bits % 0x8000_0000_0000_0000 < 0x7ff0_0000_0000_0000,
        rate.positive() <==> 0 < rate.bits < 0x7ff0_0000_0000_0000,
        rate.non_negative() <==> rate.bits < 0x7ff0_0000_0000_0000 || rate.bits
            == 0x8000_0000_0000_0000,
        rate.nan() <==> rate.bits % 0x8000_0000_0000_0000 > 0x7ff0_0000_0000_0000,
{
    let m = rate.bits as int % 0x8000_0000_0000_0000;
    let b = rate.bits as int;
    assert(b == m || b == m + 0x8000_0000_0000_0000);
    assert((b / 0x10_0000_0000_0000) % 0x800 == m / 0x10_0000_0000_0000);
}

/// Numbers rank by their value: of two that are not negative the one with the
/// larger bits is larger, of two that are negative the one with the smaller, and
/// a negative one is below any other.
pub proof fn numbers_rank_by_value(a: Rate, b: Rate)
    ensures
        a.bits < 0x8000_0000_0000_0000 && b.bits < 0x8000_0000_0000_0000 ==> (a.rank() > b.rank()
            <==> a.bits > b.bits),
        a.bits >= 0x8000_0000_0000_0000 && b.bits >= 0x8000_0000_0000_0000 ==> (a.rank()
            > b.rank() <==> a.bits < b.bits),
        a.bits < 0x8000_0000_0000_0000 && b.bits >= 0x8000_0000_0000_0000 ==> a.rank() > b.rank(),
        a.rank() == b.rank() <==> a == b,
{
}

/// A positive number is not negative.
pub proof fn positive_is_non_negative(rate: Rate)
    requires
        rate.positive(),
    ensures
        rate.non_negative(),
{
}

/// A rate as it goes into a price: the written number, the multiplier of the
/// tariff that was in force, and the multiplier of the long-context tier.
///
/// Its value is `written * window * context`, multiplied from the left, where
/// an absent factor is left out.
#[derive(Debug, Clone, Copy, PartialEq, Eq, Structural)]
pub struct Price {
    pub written: Rate,
    pub window: Option<Rate>,
    pub context: Option<Rate>,
}

impl Price {
    /// The price that is the rate as it was written.
    pub open spec fn plain(rate: Rate) -> Price {
        Price { written: rate, window: None, context: None }
    }

    pub fn of(rate: Rate) -> (r: Price)
        ensures
            r == Price::plain(rate),
    {
        Price { written: rate, window: None, context: None }
    }
}

} // verus!
