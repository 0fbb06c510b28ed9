//! Regular sampling of a rectangular region of the complex plane.
//!
//! A region is four rational bounds. Sampling at a linear density takes
//! `floor(span * density)` evenly spaced values along each axis, endpoints
//! included, and forms the row-major grid of complex numbers whose entry
//! `(i, j)` is `re[j] + im[i] * i`, rows ordered by increasing imaginary
//! part. A zero sample count on an axis yields an empty grid.

use vstd::prelude::*;
use vstd::arithmetic::div_mod::{lemma_div_pos_is_pos, lemma_fundamental_div_mod_converse};
use crate::bigint::{big_value, big_from_i128, big_clone, big_add, big_sub, big_mul, big_div,
    big_le, big_to_usize};
use crate::rational::{Rat, RatV, rat_le_v, rat_eq_v};
use crate::complex::{CRat, CplxV, combine_v, views_of};

verus! {

/// A rectangular region of the complex plane: `[x_min, x_max] x [y_min, y_max]`.
pub struct Region {
    pub x_min: Rat,
    pub x_max: Rat,
    pub y_min: Rat,
    pub y_max: Rat,
}

impl Region {
    /// Bounds are well-formed rationals and each axis is ordered.
    pub open spec fn wf(&self) -> bool {
        &&& self.x_min.wf()
        &&& self.x_max.wf()
        &&& self.y_min.wf()
        &&& self.y_max.wf()
        &&& rat_le_v(self.x_min@, self.x_max@)
        &&& rat_le_v(self.y_min@, self.y_max@)
    }

    /// Runtime check of `wf`, for callers outside verified code.
    pub fn is_valid(&self) -> (r: bool)
        ensures
            r == self.wf(),
    {
        let one = big_from_i128(1);
        if !big_le(&one, &self.x_min.den) || !big_le(&one, &self.x_max.den)
            || !big_le(&one, &self.y_min.den) || !big_le(&one, &self.y_max.den) {
            return false;
        }
        self.x_min.le_value(&self.x_max) && self.y_min.le_value(&self.y_max)
    }
}

/// The number of samples an axis gets: `floor((hi - lo) * density)`.
pub open spec fn count_v(lo: RatV, hi: RatV, density: int) -> int {
    ((hi.num * lo.den - lo.num * hi.den) * density) / (lo.den * hi.den)
}

/// Computes the sample count of one axis exactly; `None` only when the count
/// does not fit in `usize`.
pub fn count_samples(lo: &Rat, hi: &Rat, density: u32) -> (r: Option<usize>)
    requires
        lo.wf(),
        hi.wf(),
        rat_le_v(lo@, hi@),
    ensures
        count_v(lo@, hi@, density as int) >= 0,
        r matches Some(n) ==> n as int == count_v(lo@, hi@, density as int),
        r is Some <==> count_v(lo@, hi@, density as int) <= usize::MAX as int,
{
    let hi_lo = big_mul(&hi.num, &lo.den);
    let lo_hi = big_mul(&lo.num, &hi.den);
    let span = big_sub(&hi_lo, &lo_hi);
    let scaled = big_mul(&span, &big_from_i128(density as i128));
    let den = big_mul(&lo.den, &hi.den);
    assert(big_value(scaled) >= 0 && big_value(den) > 0) by (nonlinear_arith)
        requires
            big_value(scaled) == (hi@.num * lo@.den - lo@.num * hi@.den) * (density as int),
            hi@.num * lo@.den - lo@.num * hi@.den >= 0,
            density as int >= 0,
            big_value(den) == lo@.den * hi@.den,
            lo@.den > 0,
            hi@.den > 0,
    ;
    let q = big_div(&scaled, &den);
    proof {
        lemma_div_pos_is_pos(big_value(scaled), big_value(den));
    }
    big_to_usize(&q)
}

/// The `j`-th of `n` evenly spaced rationals from `lo` to `hi`, endpoints
/// included: the exact representation of `lo + j * (hi - lo) / (n - 1)` over
/// the common denominator `lo.den * hi.den * (n - 1)`.
pub open spec fn linspace_at(lo: RatV, hi: RatV, n: int, j: int) -> RatV {
    if n <= 1 {
        lo
    } else {
        RatV {
            num: lo.num * hi.den * (n - 1) + j * (hi.num * lo.den - lo.num * hi.den),
            den: lo.den * hi.den * (n - 1),
        }
    }
}

/// `n` evenly spaced rationals from `lo` to `hi`, endpoints included.
pub fn linspace(lo: &Rat, hi: &Rat, n: usize) -> (r: Vec<Rat>)
    requires
        lo.wf(),
        hi.wf(),
    ensures
        r@.len() == n,
        forall|j: int| 0 <= j < n ==> (#[trigger] r@[j])@ == linspace_at(lo@, hi@, n as int, j),
        forall|j: int| 0 <= j < n ==> (#[trigger] r@[j]).wf(),
{
    let mut out: Vec<Rat> = Vec::new();
    if n == 0 {
        return out;
    }
    if n == 1 {
        out.push(lo.dup());
        return out;
    }
    let lo_hi = big_mul(&lo.num, &hi.den);
    let hi_lo = big_mul(&hi.num, &lo.den);
    let step = big_sub(&hi_lo, &lo_hi);
    let nm1 = big_from_i128((n - 1) as i128);
    let base = big_mul(&lo_hi, &nm1);
    let den = big_mul(&big_mul(&lo.den, &hi.den), &nm1);
    assert(big_value(den) > 0) by (nonlinear_arith)
        requires
            big_value(den) == (lo@.den * hi@.den) * (n - 1),
            lo@.den > 0,
            hi@.den > 0,
            n >= 2,
    ;
    let mut j: usize = 0;
    while j < n
        invariant
            2 <= n,
            j <= n,
            out@.len() == j,
            big_value(step) == hi@.num * lo@.den - lo@.num * hi@.den,
            big_value(base) == (lo@.num * hi@.den) * (n - 1),
            big_value(den) == (lo@.den * hi@.den) * (n - 1),
            big_value(den) > 0,
            forall|k: int| 0 <= k < j ==>
                (#[trigger] out@[k])@ == linspace_at(lo@, hi@, n as int, k),
            forall|k: int| 0 <= k < j ==> (#[trigger] out@[k]).wf(),
        decreases n - j,
    {
        let offset = big_mul(&big_from_i128(j as i128), &step);
        let num = big_add(&base, &offset);
        out.push(Rat { num, den: big_clone(&den) });
        j = j + 1;
    }
    out
}

/// Both endpoints are sampled exactly: the first of `n` evenly spaced
/// values equals `lo` and the last equals `hi`, as rational values.
pub proof fn lemma_linspace_endpoints(lo: RatV, hi: RatV, n: int)
    requires
        lo.den > 0,
        hi.den > 0,
        n >= 1,
    ensures
        rat_eq_v(linspace_at(lo, hi, n, 0), lo),
        n >= 2 ==> rat_eq_v(linspace_at(lo, hi, n, n - 1), hi),
{
    if n >= 2 {
        let first = linspace_at(lo, hi, n, 0);
        assert(first.num * lo.den == lo.num * first.den) by (nonlinear_arith)
            requires
                first.num == lo.num * hi.den * (n - 1)
                    + 0 * (hi.num * lo.den - lo.num * hi.den),
                first.den == lo.den * hi.den * (n - 1),
        ;
        let last = linspace_at(lo, hi, n, n - 1);
        assert(last.num * hi.den == hi.num * last.den) by (nonlinear_arith)
            requires
                last.num == lo.num * hi.den * (n - 1)
                    + (n - 1) * (hi.num * lo.den - lo.num * hi.den),
                last.den == lo.den * hi.den * (n - 1),
        ;
    }
}

/// Entry `(i, j)` of a grid over `region` with the given dimensions: the
/// complex number whose real part is the `j`-th of `w` samples on the real
/// axis and whose imaginary part is the `i`-th of `h` samples on the
/// imaginary axis.
pub open spec fn grid_entry_v(region: Region, w: int, h: int, i: int, j: int) -> CplxV {
    combine_v(
        linspace_at(region.x_min@, region.x_max@, w, j),
        linspace_at(region.y_min@, region.y_max@, h, i),
    )
}

/// Mathematical model of a sampled grid: the row-major sequence of complex
/// values together with its dimensions.
pub ghost struct GridV {
    pub width: int,
    pub height: int,
    pub points: Seq<CplxV>,
}

/// A row-major grid of sampled complex numbers; rows follow increasing
/// imaginary part, each row runs left to right in real part.
pub struct Grid {
    pub width: usize,
    pub height: usize,
    pub points: Vec<CRat>,
}

impl View for Grid {
    type V = GridV;

    open spec fn view(&self) -> GridV {
        GridV {
            width: self.width as int,
            height: self.height as int,
            points: views_of(self.points@),
        }
    }
}

impl Grid {
    /// The point count matches the dimensions and every point is well-formed.
    pub open spec fn wf(&self) -> bool {
        &&& self@.points.len() == self@.width * self@.height
        &&& forall|k: int| 0 <= k < self@.points.len() ==> (#[trigger] self@.points[k]).den > 0
    }

    /// Runtime check of `wf`, for callers outside verified code.
    pub fn is_well_formed(&self) -> (r: bool)
        ensures
            r == self.wf(),
    {
        let n: usize = self.points.len();
        match self.width.checked_mul(self.height) {
            Some(total) => {
                if total != n {
                    return false;
                }
            },
            None => {
                proof {
                    assert(self@.points.len() == n as int);
                    assert(self@.width * self@.height > usize::MAX as int);
                }
                return false;
            },
        }
        let one = big_from_i128(1);
        let mut k: usize = 0;
        while k < n
            invariant
                k <= n,
                n == self@.points.len(),
                self@.points.len() == self@.width * self@.height,
                big_value(one) == 1,
                forall|m: int| 0 <= m < k ==> (#[trigger] self@.points[m]).den > 0,
            decreases n - k,
        {
            if !big_le(&one, &self.points[k].den) {
                proof {
                    assert(self@.points[k as int].den <= 0);
                }
                return false;
            }
            k = k + 1;
        }
        true
    }

    /// The entry in row `i` (imaginary axis) and column `j` (real axis).
    pub fn point(&self, i: usize, j: usize) -> (r: &CRat)
        requires
            self.wf(),
            i < self@.height,
            j < self@.width,
        ensures
            r@ == self@.points[i as int * self@.width + j as int],
    {
        let n: usize = self.points.len();
        proof {
            lemma_row_major_index(self@.width, self@.height, i as int, j as int);
        }
        &self.points[i * self.width + j]
    }
}

/// For `0 <= i < h` and `0 <= j < w`, the row-major index `i * w + j` lies
/// inside a grid of `w * h` points.
proof fn lemma_row_major_index(w: int, h: int, i: int, j: int)
    requires
        0 <= i < h,
        0 <= j < w,
    ensures
        0 <= i * w + j < w * h,
{
    assert(0 <= i * w + j < w * h) by (nonlinear_arith)
        requires
            0 <= i < h,
            0 <= j < w,
    ;
}

/// The grid `g` is exactly the sampling of `region` at `density`: its
/// dimensions are the axis sample counts and entry `(i, j)` is the complex
/// number formed from the `j`-th real and `i`-th imaginary sample.
pub open spec fn grid_matches(g: GridV, region: Region, density: int) -> bool {
    &&& g.width == count_v(region.x_min@, region.x_max@, density)
    &&& g.height == count_v(region.y_min@, region.y_max@, density)
    &&& forall|i: int, j: int| 0 <= i < g.height && 0 <= j < g.width ==>
        g.points[i * g.width + j] == #[trigger] grid_entry_v(region, g.width, g.height, i, j)
}

/// Both axis sample counts, and the total point count, fit in `usize`.
pub open spec fn counts_fit(region: Region, density: int) -> bool {
    &&& count_v(region.x_min@, region.x_max@, density) <= usize::MAX as int
    &&& count_v(region.y_min@, region.y_max@, density) <= usize::MAX as int
    &&& count_v(region.x_min@, region.x_max@, density)
        * count_v(region.y_min@, region.y_max@, density) <= usize::MAX as int
}

/// Samples the region at the given density. `None` exactly when a sample
/// count, or the total point count, does not fit in `usize`.
pub fn sample(region: &Region, density: u32) -> (r: Option<Grid>)
    requires
        region.wf(),
    ensures
        (r matches Some(g) ==> g.wf() && grid_matches(g@, *region, density as int)),
        r is Some <==> counts_fit(*region, density as int),
{
    let w_opt = count_samples(&region.x_min, &region.x_max, density);
    let h_opt = count_samples(&region.y_min, &region.y_max, density);
    let w: usize = match w_opt {
        Some(w) => w,
        None => {
            return None;
        },
    };
    let h: usize = match h_opt {
        Some(h) => h,
        None => {
            return None;
        },
    };
    if w.checked_mul(h).is_none() {
        return None;
    }
    let xs = linspace(&region.x_min, &region.x_max, w);
    let ys = linspace(&region.y_min, &region.y_max, h);
    let mut points: Vec<CRat> = Vec::new();
    let mut i: usize = 0;
    while i < h
        invariant
            i <= h,
            w * h <= usize::MAX,
            points@.len() == i * w,
            xs@.len() == w,
            ys@.len() == h,
            region.wf(),
            forall|k: int| 0 <= k < w ==>
                (#[trigger] xs@[k])@ == linspace_at(region.x_min@, region.x_max@, w as int, k),
            forall|k: int| 0 <= k < w ==> (#[trigger] xs@[k]).wf(),
            forall|k: int| 0 <= k < h ==>
                (#[trigger] ys@[k])@ == linspace_at(region.y_min@, region.y_max@, h as int, k),
            forall|k: int| 0 <= k < h ==> (#[trigger] ys@[k]).wf(),
            forall|k: int| 0 <= k < points@.len() ==>
                (#[trigger] points@[k])@ == combine_v(
                    xs@[k % (w as int)]@, ys@[k / (w as int)]@),
            forall|k: int| 0 <= k < points@.len() ==> (#[trigger] points@[k]).wf(),
        decreases h - i,
    {
        let mut j: usize = 0;
        while j < w
            invariant
                i < h,
                j <= w,
                w * h <= usize::MAX,
                points@.len() == i * w + j,
                xs@.len() == w,
                ys@.len() == h,
                region.wf(),
                forall|k: int| 0 <= k < w ==>
                    (#[trigger] xs@[k])@ == linspace_at(region.x_min@, region.x_max@, w as int, k),
                forall|k: int| 0 <= k < w ==> (#[trigger] xs@[k]).wf(),
                forall|k: int| 0 <= k < h ==>
                    (#[trigger] ys@[k])@ == linspace_at(region.y_min@, region.y_max@, h as int, k),
                forall|k: int| 0 <= k < h ==> (#[trigger] ys@[k]).wf(),
                forall|k: int| 0 <= k < points@.len() ==>
                    (#[trigger] points@[k])@ == combine_v(
                        xs@[k % (w as int)]@, ys@[k / (w as int)]@),
                forall|k: int| 0 <= k < points@.len() ==> (#[trigger] points@[k]).wf(),
            decreases w - j,
        {
            proof {
                lemma_row_major_index(w as int, h as int, i as int, j as int);
                lemma_fundamental_div_mod_converse(
                    i as int * (w as int) + j as int, w as int, i as int, j as int);
            }
            let p = CRat::from_parts(&xs[j], &ys[i]);
            points.push(p);
            j = j + 1;
        }
        proof {
            assert(i * w + w == (i + 1) * w) by (nonlinear_arith);
        }
        i = i + 1;
    }
    proof {
        assert(i * w == w * h) by (nonlinear_arith)
            requires
                i == h,
        ;
    }
    let g = Grid { width: w, height: h, points };
    proof {
        assert forall|i2: int, j2: int| 0 <= i2 < g@.height && 0 <= j2 < g@.width implies
            g@.points[i2 * g@.width + j2]
                == #[trigger] grid_entry_v(*region, g@.width, g@.height, i2, j2) by {
            lemma_row_major_index(w as int, h as int, i2, j2);
            lemma_fundamental_div_mod_converse(i2 * (w as int) + j2, w as int, i2, j2);
        }
    }
    Some(g)
}

} // verus!
