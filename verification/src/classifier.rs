//! The escape-iteration stability test and its application to a grid.
//!
//! A point `c` is stable after `n` iterations when the orbit
//! `z_0 = 0, z_{k+1} = z_k * z_k + c`, computed exactly, has `|z_n| <= 2`.
//! `collect_stable` keeps, in traversal order, the grid points the test
//! classifies as stable.

use vstd::prelude::*;
use crate::complex::{CRat, CplxV, step_v, within_threshold_v, views_of};
use crate::sampler::Grid;

verus! {

/// The `n`-th orbit value of the Mandelbrot recurrence for `c`:
/// `z_0 = 0, z_{k+1} = z_k * z_k + c`, in exact shared-denominator form.
pub open spec fn orbit_v(c: CplxV, n: nat) -> CplxV
    decreases n,
{
    if n == 0 {
        CplxV { re: 0, im: 0, den: 1 }
    } else {
        step_v(orbit_v(c, (n - 1) as nat), c)
    }
}

/// `c` is stable after `n` iterations: the final orbit value has `|z| <= 2`.
pub open spec fn stable_after(c: CplxV, n: nat) -> bool {
    within_threshold_v(orbit_v(c, n))
}

/// The orbit denominators stay positive when `c` is well-formed.
pub proof fn lemma_orbit_wf(c: CplxV, n: nat)
    requires
        c.den > 0,
    ensures
        orbit_v(c, n).den > 0,
    decreases n,
{
    if n > 0 {
        lemma_orbit_wf(c, (n - 1) as nat);
        let z = orbit_v(c, (n - 1) as nat);
        assert(z.den * z.den * c.den > 0) by (nonlinear_arith)
            requires
                z.den > 0,
                c.den > 0,
        ;
    }
}

/// Runs exactly `iterations` escape steps on `c` and reports whether the
/// final orbit value stayed within the inclusive threshold `|z| <= 2`.
pub fn classify(c: &CRat, iterations: u64) -> (r: bool)
    requires
        c.wf(),
    ensures
        r == stable_after(c@, iterations as nat),
{
    let mut z = CRat::zero();
    let mut k: u64 = 0;
    while k < iterations
        invariant
            k <= iterations,
            c.wf(),
            z.wf(),
            z@ == orbit_v(c@, k as nat),
        decreases iterations - k,
    {
        z = z.step(c);
        k = k + 1;
    }
    z.within_threshold()
}

/// The subsequence of `s` stable after `n` iterations, in traversal order.
pub open spec fn stable_points_v(s: Seq<CplxV>, n: nat) -> Seq<CplxV>
    decreases s.len(),
{
    if s.len() == 0 {
        Seq::empty()
    } else {
        let rest = stable_points_v(s.drop_last(), n);
        if stable_after(s.last(), n) {
            rest.push(s.last())
        } else {
            rest
        }
    }
}

/// Applies `classify` to every grid point in row-major traversal order and
/// keeps the stable ones, preserving that order.
pub fn collect_stable(grid: &Grid, iterations: u64) -> (r: Vec<CRat>)
    requires
        grid.wf(),
    ensures
        views_of(r@) == stable_points_v(grid@.points, iterations as nat),
        forall|k: int| 0 <= k < r@.len() ==> (#[trigger] r@[k]).wf(),
{
    let mut out: Vec<CRat> = Vec::new();
    let mut k: usize = 0;
    let n: usize = grid.points.len();
    while k < n
        invariant
            k <= n,
            n == grid@.points.len(),
            grid.wf(),
            views_of(out@) == stable_points_v(grid@.points.take(k as int), iterations as nat),
            forall|m: int| 0 <= m < out@.len() ==> (#[trigger] out@[m]).wf(),
        decreases n - k,
    {
        proof {
            let pts = grid@.points;
            assert(pts.take(k as int + 1).drop_last() =~= pts.take(k as int));
            assert(pts.take(k as int + 1).last() == pts[k as int]);
        }
        let p = &grid.points[k];
        if classify(p, iterations) {
            let ghost before = out@;
            out.push(p.dup());
            proof {
                assert(views_of(out@) =~= views_of(before).push(p@));
            }
        }
        k = k + 1;
    }
    proof {
        assert(grid@.points.take(n as int) =~= grid@.points);
    }
    out
}

/// The stable subset is drawn from the grid and never larger than it:
/// each collected point occurs in the traversal and the count is bounded.
pub proof fn lemma_stable_points_subset(s: Seq<CplxV>, n: nat)
    ensures
        stable_points_v(s, n).len() <= s.len(),
        forall|k: int| 0 <= k < stable_points_v(s, n).len() ==>
            s.contains(#[trigger] stable_points_v(s, n)[k]),
    decreases s.len(),
{
    if s.len() > 0 {
        lemma_stable_points_subset(s.drop_last(), n);
        let rest = stable_points_v(s.drop_last(), n);
        assert forall|k: int| 0 <= k < stable_points_v(s, n).len() implies
            s.contains(#[trigger] stable_points_v(s, n)[k]) by {
            if k < rest.len() {
                assert(s.drop_last().contains(rest[k]));
                let m = choose|m: int| 0 <= m < s.drop_last().len() && s.drop_last()[m] == rest[k];
                assert(s[m] == rest[k]);
            } else {
                assert(s[s.len() - 1] == s.last());
            }
        }
    }
}

/// Classification is a function of the grid and the iteration count alone:
/// two traversals of the same grid with the same count return the same
/// ordered stable set.
pub proof fn lemma_collect_deterministic(
    s: Seq<CplxV>,
    n: nat,
    r1: Seq<CplxV>,
    r2: Seq<CplxV>,
)
    requires
        r1 == stable_points_v(s, n),
        r2 == stable_points_v(s, n),
    ensures
        r1 == r2,
{
}

/// The origin never escapes: its orbit is `0` forever, so it is stable for
/// every iteration count.
pub proof fn lemma_origin_stable(n: nat)
    ensures
        stable_after(CplxV { re: 0, im: 0, den: 1 }, n),
{
    let c = CplxV { re: 0, im: 0, den: 1 };
    lemma_origin_orbit(n);
    assert(orbit_v(c, n).re * orbit_v(c, n).re + orbit_v(c, n).im * orbit_v(c, n).im == 0);
    assert(4 * (orbit_v(c, n).den * orbit_v(c, n).den) == 4);
}

/// The orbit of the origin is identically `0 / 1`.
pub proof fn lemma_origin_orbit(n: nat)
    ensures
        orbit_v(CplxV { re: 0, im: 0, den: 1 }, n) == (CplxV { re: 0, im: 0, den: 1 }),
    decreases n,
{
    if n > 0 {
        lemma_origin_orbit((n - 1) as nat);
    }
}

} // verus!
