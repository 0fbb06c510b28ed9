//! Monotonicity of escape: once an orbit's magnitude passes the threshold 2,
//! it grows at every later step, so a point classified unstable at some
//! iteration count stays unstable at every larger one.
//!
//! The argument is the classical one, carried out on the exact
//! representation: while `|z| > 2` and `|z| >= |c|`, one step gives
//! `|z * z + c| >= |z|^2 - |c| >= |z| * (|z| - 1) > |z|`, and along a
//! Mandelbrot orbit the side condition `|z| >= |c|` renews itself.

use vstd::prelude::*;
use crate::complex::{CplxV, step_v, within_threshold_v};
use crate::classifier::{orbit_v, stable_after, lemma_orbit_wf};

verus! {

/// The integer `re^2 + im^2`: the squared magnitude scaled by `den^2`.
pub open spec fn norm_num(z: CplxV) -> int {
    z.re * z.re + z.im * z.im
}

/// `|z| >= |c|` as rationals, by cross-multiplication of squared magnitudes.
pub open spec fn dominates(z: CplxV, c: CplxV) -> bool {
    norm_num(z) * (c.den * c.den) >= norm_num(c) * (z.den * z.den)
}

/// The quadratic heart of the growth bound: if `u^2 <= s^3 * f^2 * d^2` and
/// `s > 4 d^2`, the shifted square `(s^2 f + u)^2` stays above `s^3 d^2 f^2`.
proof fn lemma_shifted_square(s: int, f: int, d: int, u: int)
    requires
        s > 4 * (d * d),
        d >= 1,
        f >= 1,
        u * u <= s * s * s * (f * f) * (d * d),
    ensures
        (s * s * f + u) * (s * s * f + u) > s * s * s * (d * d) * (f * f),
{
    assert((s * s * f + u) * (s * s * f + u) > s * s * s * (d * d) * (f * f))
        by (nonlinear_arith)
        requires
            s > 4 * (d * d),
            d >= 1,
            f >= 1,
            u * u <= s * s * s * (f * f) * (d * d),
    ;
}

/// `(x + y)^2` expanded.
proof fn lemma_sq_sum(x: int, y: int)
    ensures
        (x + y) * (x + y) == x * x + 2 * (x * y) + y * y,
{
    assert((x + y) * (x + y) == x * x + 2 * (x * y) + y * y) by (nonlinear_arith);
}

/// `(x - y)^2` expanded.
proof fn lemma_sq_diff(x: int, y: int)
    ensures
        (x - y) * (x - y) == x * x - 2 * (x * y) + y * y,
{
    assert((x - y) * (x - y) == x * x - 2 * (x * y) + y * y) by (nonlinear_arith);
}

/// Products of products regrouped pairwise.
proof fn lemma_mul_swap(x: int, y: int, z: int, w: int)
    ensures
        (x * y) * (z * w) == (x * z) * (y * w),
{
    assert((x * y) * (z * w) == (x * z) * (y * w)) by (nonlinear_arith);
}

/// Associativity, in the two groupings the proofs below need.
proof fn lemma_mul_assoc3(x: int, y: int, z: int)
    ensures
        x * (y * z) == (x * y) * z,
        (x * y) * z == y * (x * z),
{
    assert(x * (y * z) == (x * y) * z && (x * y) * z == y * (x * z)) by (nonlinear_arith);
}

/// Left distribution over a sum.
proof fn lemma_mul_dist(x: int, y: int, z: int)
    ensures
        x * (y + z) == x * y + x * z,
        (y + z) * x == y * x + z * x,
{
    assert(x * (y + z) == x * y + x * z && (y + z) * x == y * x + z * x)
        by (nonlinear_arith);
}

/// A binary product of binary sums, written out.
proof fn lemma_foil(x1: int, x2: int, y1: int, y2: int)
    ensures
        (x1 + x2) * (y1 + y2) == x1 * y1 + x1 * y2 + x2 * y1 + x2 * y2,
{
    assert((x1 + x2) * (y1 + y2) == x1 * y1 + x1 * y2 + x2 * y1 + x2 * y2)
        by (nonlinear_arith);
}

/// A factor of two moved across a product.
proof fn lemma_mul_two(x: int, y: int)
    ensures
        x * (2 * y) == 2 * (x * y),
{
    assert(x * (2 * y) == 2 * (x * y)) by (nonlinear_arith);
}

/// One escape step: a point past the threshold whose magnitude also bounds
/// `|c|` moves strictly further out, and keeps bounding `|c|`.
pub proof fn lemma_escape_step(z: CplxV, c: CplxV)
    requires
        z.den > 0,
        c.den > 0,
        !within_threshold_v(z),
        dominates(z, c),
    ensures
        !within_threshold_v(step_v(z, c)),
        dominates(step_v(z, c), c),
{
    let a = z.re;
    let b = z.im;
    let d = z.den;
    let p = c.re;
    let q = c.im;
    let f = c.den;
    let s = a * a + b * b;
    let t = p * p + q * q;
    let g1 = a * a - b * b;
    let g2 = 2 * a * b;
    let r = g1 * p + g2 * q;
    let dd = d * d;
    let u = r * dd;
    let zz = step_v(z, c);
    let x = norm_num(zz);
    assert(zz.den == d * d * f);
    assert(s > 4 * dd && s > 0 && t >= 0 && dd >= 1) by (nonlinear_arith)
        requires
            s == a * a + b * b,
            t == p * p + q * q,
            a * a + b * b > 4 * (d * d),
            dd == d * d,
            d >= 1,
    ;
    // The two numerator components of z * z + c.
    assert(zz.re == g1 * f + p * dd && zz.im == g2 * f + q * dd) by (nonlinear_arith)
        requires
            zz.re == (a * a - b * b) * f + p * (d * d),
            zz.im == 2 * a * b * f + q * (d * d),
            g1 == a * a - b * b,
            g2 == 2 * a * b,
            dd == d * d,
    ;
    assert(g1 * g1 + g2 * g2 == s * s) by (nonlinear_arith)
        requires
            g1 == a * a - b * b,
            g2 == 2 * a * b,
            s == a * a + b * b,
    ;
    // |z * z + c|^2 expanded over the common denominator, in small steps.
    let pp = p * dd;
    let qq = q * dd;
    lemma_sq_sum(g1 * f, pp);
    lemma_sq_sum(g2 * f, qq);
    lemma_mul_swap(g1, f, g1, f);
    lemma_mul_swap(g2, f, g2, f);
    lemma_mul_assoc3(g1, f, pp);
    lemma_mul_assoc3(g2, f, qq);
    lemma_mul_dist(f * f, g1 * g1, g2 * g2);
    lemma_mul_dist(f, g1 * pp, g2 * qq);
    assert(g1 * pp + g2 * qq == u) by (nonlinear_arith)
        requires
            pp == p * dd,
            qq == q * dd,
            r == g1 * p + g2 * q,
            u == r * dd,
    ;
    assert(pp * pp + qq * qq == t * (dd * dd)) by (nonlinear_arith)
        requires
            pp == p * dd,
            qq == q * dd,
            t == p * p + q * q,
    ;
    assert(x == s * s * (f * f) + 2 * (f * u) + t * (dd * dd));
    // The Cauchy-Schwarz gap is itself a square.
    lemma_sq_sum(g1 * p, g2 * q);
    lemma_sq_diff(g1 * q, g2 * p);
    lemma_mul_swap(g1, p, g1, p);
    lemma_mul_swap(g2, q, g2, q);
    lemma_mul_swap(g1, q, g1, q);
    lemma_mul_swap(g2, p, g2, p);
    lemma_mul_swap(g1, p, g2, q);
    lemma_mul_swap(g1, q, g2, p);
    assert(p * q == q * p) by (nonlinear_arith);
    lemma_foil(g1 * g1, g2 * g2, p * p, q * q);
    assert(s * s * t == r * r + (g1 * q - g2 * p) * (g1 * q - g2 * p));
    assert((g1 * q - g2 * p) * (g1 * q - g2 * p) >= 0) by (nonlinear_arith);
    assert(r * r <= s * s * t);
    // |z| >= |c| turns the Cauchy-Schwarz bound into u^2 <= s^3 f^2 d^2.
    assert(u * u <= s * s * s * (f * f) * (d * d)) by (nonlinear_arith)
        requires
            u == r * dd,
            dd == d * d,
            r * r <= s * s * t,
            t * (d * d) <= s * (f * f),
            s >= 0,
            t >= 0,
            d >= 1,
    ;
    lemma_shifted_square(s, f, d, u);
    // Fold the square back into s^2 * x.
    let m = s * s;
    lemma_mul_dist(m, m * (f * f) + 2 * (f * u), t * (dd * dd));
    lemma_mul_dist(m, m * (f * f), 2 * (f * u));
    lemma_sq_sum(m * f, u);
    lemma_mul_swap(m, f, m, f);
    lemma_mul_assoc3(m, m, f * f);
    lemma_mul_two(m, f * u);
    lemma_mul_assoc3(m, f, u);
    assert(u * u == (r * r) * (dd * dd)) by (nonlinear_arith)
        requires
            u == r * dd,
    ;
    lemma_mul_assoc3(m, t, dd * dd);
    assert(dd * dd >= 0) by (nonlinear_arith)
        requires
            dd >= 1,
    ;
    vstd::arithmetic::mul::lemma_mul_inequality(r * r, m * t, dd * dd);
    assert(m * x >= (m * f + u) * (m * f + u));
    assert(x > s * (d * d) * (f * f)) by (nonlinear_arith)
        requires
            s * s * x >= (s * s * f + u) * (s * s * f + u),
            (s * s * f + u) * (s * s * f + u) > s * s * s * (d * d) * (f * f),
            s > 0,
    ;
    // Strict growth pushes the new point past the threshold ...
    assert(x > 4 * (zz.den * zz.den)) by (nonlinear_arith)
        requires
            x > s * (d * d) * (f * f),
            s > 4 * (d * d),
            zz.den == d * d * f,
            d >= 1,
            f >= 1,
    ;
    // ... and keeps its magnitude at or above |c|.
    assert(x * (f * f) >= t * (zz.den * zz.den)) by (nonlinear_arith)
        requires
            x > s * (d * d) * (f * f),
            s * (f * f) >= t * (d * d),
            zz.den == d * d * f,
            t >= 0,
            d >= 1,
            f >= 1,
    ;
}

/// The threshold is inclusive: a final orbit value whose magnitude is
/// exactly 2, i.e. whose scaled squared norm equals `4 * den^2`, is
/// classified stable.
pub proof fn lemma_boundary_inclusive(c: CplxV, n: nat)
    requires
        norm_num(orbit_v(c, n)) == 4 * (orbit_v(c, n).den * orbit_v(c, n).den),
    ensures
        stable_after(c, n),
{
}

/// The first orbit value is `c` itself, in the same representation.
pub proof fn lemma_orbit_one(c: CplxV)
    ensures
        orbit_v(c, 1) == c,
{
    let z0 = CplxV { re: 0, im: 0, den: 1 };
    assert(orbit_v(c, 0) == z0);
    assert(orbit_v(c, 1) == step_v(z0, c));
    assert((0 * 0 - 0 * 0) * c.den + c.re * (1 * 1) == c.re) by (nonlinear_arith);
    assert(2 * 0 * 0 * c.den + c.im * (1 * 1) == c.im) by (nonlinear_arith);
    assert(1 * 1 * c.den == c.den) by (nonlinear_arith);
}

/// An escaped orbit value bounds `|c|`: either `c` escaped at the first
/// step with `|z_1| = |c|`, or `|c| <= 2` and any escaped value beats it.
proof fn lemma_escaped_dominates(c: CplxV, n: nat)
    requires
        c.den > 0,
        !stable_after(c, n),
    ensures
        dominates(orbit_v(c, n), c),
    decreases n, 0nat,
{
    let z = orbit_v(c, n);
    if n == 0 {
        assert(0 * 0 + 0 * 0 <= 4 * (1 * 1)) by (nonlinear_arith);
        assert(false);
    } else {
        let prev = orbit_v(c, (n - 1) as nat);
        lemma_orbit_wf(c, (n - 1) as nat);
        lemma_orbit_wf(c, n);
        if !within_threshold_v(prev) {
            lemma_escaped_dominates(c, (n - 1) as nat);
            lemma_escape_step(prev, c);
        } else if n == 1 {
            lemma_orbit_one(c);
        } else {
            // The orbit was still inside at step n - 1 >= 1, so it cannot
            // have escaped at step 1; hence |c| <= 2 and the bound is easy.
            lemma_orbit_one(c);
            if !within_threshold_v(c) {
                lemma_escape_persists_inner(c, 1, (n - 1) as nat);
                assert(false);
            }
            assert(norm_num(c) >= 0) by (nonlinear_arith);
            assert(norm_num(z) * (c.den * c.den) >= norm_num(c) * (z.den * z.den))
                by (nonlinear_arith)
                requires
                    norm_num(z) > 4 * (z.den * z.den),
                    norm_num(c) <= 4 * (c.den * c.den),
                    c.den > 0,
                    z.den > 0,
                    norm_num(c) >= 0,
            ;
        }
    }
}

/// Escape persists from `n` to any `m >= n`.
proof fn lemma_escape_persists_inner(c: CplxV, n: nat, m: nat)
    requires
        c.den > 0,
        n <= m,
        !stable_after(c, n),
    ensures
        !stable_after(c, m),
    decreases m, 1nat,
{
    if m > n {
        lemma_escape_persists_inner(c, n, (m - 1) as nat);
        lemma_escaped_dominates(c, (m - 1) as nat);
        lemma_orbit_wf(c, (m - 1) as nat);
        lemma_escape_step(orbit_v(c, (m - 1) as nat), c);
    }
}

/// Increasing the iteration count never brings a point back: a point
/// classified unstable after `n` iterations is unstable after every
/// `m >= n` as well.
pub proof fn lemma_escape_persists(c: CplxV, n: nat, m: nat)
    requires
        c.den > 0,
        n <= m,
        !stable_after(c, n),
    ensures
        !stable_after(c, m),
{
    lemma_escape_persists_inner(c, n, m);
}

/// The point `2 + 2i` is unstable for every positive iteration count: its
/// first orbit value already has squared magnitude `8 > 4`.
pub proof fn lemma_two_plus_two_i_unstable(n: nat)
    requires
        n >= 1,
    ensures
        !stable_after(CplxV { re: 2, im: 2, den: 1 }, n),
{
    let c = CplxV { re: 2, im: 2, den: 1 };
    lemma_orbit_one(c);
    assert(!within_threshold_v(c));
    lemma_escape_persists(c, 1, n);
}

} // verus!
