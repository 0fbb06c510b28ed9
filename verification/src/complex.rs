//! Exact complex numbers: a pair of numerators over one shared positive
//! denominator. One escape-iteration step, `z * z + c`, is computed here
//! exactly, and the magnitude test against the threshold 2 is the exact
//! integer comparison `re * re + im * im <= 4 * den * den`.

use vstd::prelude::*;
use num_bigint::BigInt;
use crate::bigint::{big_value, big_from_i128, big_clone, big_add, big_sub, big_mul, big_le};
use crate::rational::{Rat, RatV};

verus! {

/// Mathematical model of an exact complex number: the value is
/// `(re + im * i) / den`.
pub ghost struct CplxV {
    pub re: int,
    pub im: int,
    pub den: int,
}

/// A complex number with rational coordinates sharing one denominator.
pub struct CRat {
    pub re_num: BigInt,
    pub im_num: BigInt,
    pub den: BigInt,
}

impl View for CRat {
    type V = CplxV;

    open spec fn view(&self) -> CplxV {
        CplxV {
            re: big_value(self.re_num),
            im: big_value(self.im_num),
            den: big_value(self.den),
        }
    }
}

/// One Mandelbrot step on models: the exact representation of `z * z + c`
/// computed over a shared denominator, with no reduction.
pub open spec fn step_v(z: CplxV, c: CplxV) -> CplxV {
    CplxV {
        re: (z.re * z.re - z.im * z.im) * c.den + c.re * (z.den * z.den),
        im: 2 * z.re * z.im * c.den + c.im * (z.den * z.den),
        den: z.den * z.den * c.den,
    }
}

/// The inclusive magnitude test: `|z| <= 2`, i.e. `re^2 + im^2 <= 4 * den^2`.
pub open spec fn within_threshold_v(z: CplxV) -> bool {
    z.re * z.re + z.im * z.im <= 4 * (z.den * z.den)
}

impl CRat {
    /// A well-formed complex value has a positive denominator.
    pub open spec fn wf(&self) -> bool {
        self@.den > 0
    }

    /// The origin, `0 + 0i`.
    pub fn zero() -> (r: CRat)
        ensures
            r@ == (CplxV { re: 0, im: 0, den: 1 }),
            r.wf(),
    {
        CRat {
            re_num: big_from_i128(0),
            im_num: big_from_i128(0),
            den: big_from_i128(1),
        }
    }

    /// The complex number `re + im * i` for integer parts.
    pub fn from_ints(re: i64, im: i64) -> (r: CRat)
        ensures
            r@ == (CplxV { re: re as int, im: im as int, den: 1 }),
            r.wf(),
    {
        CRat {
            re_num: big_from_i128(re as i128),
            im_num: big_from_i128(im as i128),
            den: big_from_i128(1),
        }
    }

    /// The complex number whose real part is `re` and imaginary part is `im`,
    /// brought to the shared denominator `re.den * im.den`.
    pub fn from_parts(re: &Rat, im: &Rat) -> (r: CRat)
        requires
            re.wf(),
            im.wf(),
        ensures
            r@ == combine_v(re@, im@),
            r.wf(),
    {
        let r = CRat {
            re_num: big_mul(&re.num, &im.den),
            im_num: big_mul(&im.num, &re.den),
            den: big_mul(&re.den, &im.den),
        };
        assert(r@.den > 0) by (nonlinear_arith)
            requires
                r@.den == re@.den * im@.den,
                re@.den > 0,
                im@.den > 0,
        ;
        r
    }

    /// An identical copy, down to the representation.
    pub fn dup(&self) -> (r: CRat)
        ensures
            r@ == self@,
    {
        CRat {
            re_num: big_clone(&self.re_num),
            im_num: big_clone(&self.im_num),
            den: big_clone(&self.den),
        }
    }

    /// The real coordinate as a rational scalar.
    pub fn re(&self) -> (r: Rat)
        ensures
            r@ == (RatV { num: self@.re, den: self@.den }),
    {
        Rat { num: big_clone(&self.re_num), den: big_clone(&self.den) }
    }

    /// The imaginary coordinate as a rational scalar.
    pub fn im(&self) -> (r: Rat)
        ensures
            r@ == (RatV { num: self@.im, den: self@.den }),
    {
        Rat { num: big_clone(&self.im_num), den: big_clone(&self.den) }
    }

    /// One exact Mandelbrot step: the representation of `self * self + c`.
    pub fn step(&self, c: &CRat) -> (r: CRat)
        requires
            self.wf(),
            c.wf(),
        ensures
            r@ == step_v(self@, c@),
            r.wf(),
    {
        let re_sq = big_mul(&self.re_num, &self.re_num);
        let im_sq = big_mul(&self.im_num, &self.im_num);
        let re_diff = big_sub(&re_sq, &im_sq);
        let den_sq = big_mul(&self.den, &self.den);
        let cross = big_mul(&self.re_num, &self.im_num);
        let cross_f = big_mul(&cross, &c.den);
        let r = CRat {
            re_num: big_add(&big_mul(&re_diff, &c.den), &big_mul(&c.re_num, &den_sq)),
            im_num: big_add(&big_add(&cross_f, &cross_f), &big_mul(&c.im_num, &den_sq)),
            den: big_mul(&den_sq, &c.den),
        };
        assert(r@.den > 0) by (nonlinear_arith)
            requires
                r@.den == (self@.den * self@.den) * c@.den,
                self@.den > 0,
                c@.den > 0,
        ;
        proof {
            let z = self@;
            let cc = c@;
            assert((z.re * z.im) * cc.den + (z.re * z.im) * cc.den == 2 * z.re * z.im * cc.den)
                by (nonlinear_arith);
        }
        r
    }

    /// The inclusive escape test: whether `|self| <= 2`.
    pub fn within_threshold(&self) -> (r: bool)
        requires
            self.wf(),
        ensures
            r == within_threshold_v(self@),
    {
        let re_sq = big_mul(&self.re_num, &self.re_num);
        let im_sq = big_mul(&self.im_num, &self.im_num);
        let norm = big_add(&re_sq, &im_sq);
        let den_sq = big_mul(&self.den, &self.den);
        let bound = big_mul(&big_from_i128(4), &den_sq);
        big_le(&norm, &bound)
    }
}

/// The shared-denominator form of the complex number `re + im * i` built
/// from two rational scalars.
pub open spec fn combine_v(re: RatV, im: RatV) -> CplxV {
    CplxV {
        re: re.num * im.den,
        im: im.num * re.den,
        den: re.den * im.den,
    }
}

/// The models of a sequence of exact complex numbers, elementwise.
pub open spec fn views_of(s: Seq<CRat>) -> Seq<CplxV> {
    s.map_values(|p: CRat| p@)
}

} // verus!
