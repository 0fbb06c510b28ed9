//! Exact rational scalars: a numerator/denominator pair of `BigInt`s with a
//! positive denominator. Region bounds and grid coordinates are such values.

use vstd::prelude::*;
use num_bigint::BigInt;
use crate::bigint::{big_value, big_from_i128, big_clone, big_mul, big_le};

verus! {

/// Mathematical model of a rational: the two held integers.
pub ghost struct RatV {
    pub num: int,
    pub den: int,
}

/// The rational value `num / den`.
pub struct Rat {
    pub num: BigInt,
    pub den: BigInt,
}

impl View for Rat {
    type V = RatV;

    open spec fn view(&self) -> RatV {
        RatV { num: big_value(self.num), den: big_value(self.den) }
    }
}

/// `a <= b` as rationals, by cross-multiplication; meaningful when both
/// denominators are positive.
pub open spec fn rat_le_v(a: RatV, b: RatV) -> bool {
    a.num * b.den <= b.num * a.den
}

/// `a < b` as rationals, by cross-multiplication.
pub open spec fn rat_lt_v(a: RatV, b: RatV) -> bool {
    a.num * b.den < b.num * a.den
}

/// `a == b` as rationals, by cross-multiplication.
pub open spec fn rat_eq_v(a: RatV, b: RatV) -> bool {
    a.num * b.den == b.num * a.den
}

impl Rat {
    /// A well-formed rational has a positive denominator.
    pub open spec fn wf(&self) -> bool {
        self@.den > 0
    }

    /// The rational `num / den`.
    pub fn from_int(num: i64, den: u64) -> (r: Rat)
        requires
            den >= 1,
        ensures
            r@ == (RatV { num: num as int, den: den as int }),
            r.wf(),
    {
        Rat { num: big_from_i128(num as i128), den: big_from_i128(den as i128) }
    }

    /// The rational `n / 1`.
    pub fn integer(n: i64) -> (r: Rat)
        ensures
            r@ == (RatV { num: n as int, den: 1 }),
            r.wf(),
    {
        Rat::from_int(n, 1)
    }

    /// An identical copy, down to the representation.
    pub fn dup(&self) -> (r: Rat)
        ensures
            r@ == self@,
    {
        Rat { num: big_clone(&self.num), den: big_clone(&self.den) }
    }

    /// Whether `self <= other` as rational values.
    pub fn le_value(&self, other: &Rat) -> (r: bool)
        requires
            self.wf(),
            other.wf(),
        ensures
            r == rat_le_v(self@, other@),
    {
        let lhs = big_mul(&self.num, &other.den);
        let rhs = big_mul(&other.num, &self.den);
        big_le(&lhs, &rhs)
    }

    /// Whether `self < other` as rational values.
    pub fn lt_value(&self, other: &Rat) -> (r: bool)
        requires
            self.wf(),
            other.wf(),
        ensures
            r == rat_lt_v(self@, other@),
    {
        let lhs = big_mul(&self.num, &other.den);
        let rhs = big_mul(&other.num, &self.den);
        !big_le(&rhs, &lhs)
    }

    /// Whether `self == other` as rational values.
    pub fn eq_value(&self, other: &Rat) -> (r: bool)
        requires
            self.wf(),
            other.wf(),
        ensures
            r == rat_eq_v(self@, other@),
    {
        let lhs = big_mul(&self.num, &other.den);
        let rhs = big_mul(&other.num, &self.den);
        big_le(&lhs, &rhs) && big_le(&rhs, &lhs)
    }
}

} // verus!
