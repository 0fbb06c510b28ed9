use num_bigint::BigInt;
use mandelbrot::classifier::{classify, collect_stable};
use mandelbrot::complex::CRat;
use mandelbrot::orbit::{julia, mandelbrot as mandelbrot_orbit, Orbit};
use mandelbrot::rational::Rat;
use mandelbrot::sampler::{count_samples, linspace, sample, Grid, Region};

fn unit_square() -> Region {
    Region {
        x_min: Rat::from_int(0, 1),
        x_max: Rat::from_int(1, 1),
        y_min: Rat::from_int(0, 1),
        y_max: Rat::from_int(1, 1),
    }
}

fn reference_region() -> Region {
    Region {
        x_min: Rat::from_int(-2, 1),
        x_max: Rat::from_int(1, 2),
        y_min: Rat::from_int(-3, 2),
        y_max: Rat::from_int(3, 2),
    }
}

fn same_point(a: &CRat, b: &CRat) -> bool {
    a.re_num == b.re_num && a.im_num == b.im_num && a.den == b.den
}

#[test]
fn grid_dimensions_ten_by_ten() {
    let region = unit_square();
    assert!(region.is_valid());
    let grid: Grid = sample(&region, 10).expect("counts fit");
    assert_eq!(grid.width, 10);
    assert_eq!(grid.height, 10);
    assert_eq!(grid.points.len(), 100);
}

#[test]
fn grid_bounds_are_inclusive() {
    let region = unit_square();
    let grid = sample(&region, 10).expect("counts fit");
    let x_min = Rat::from_int(0, 1);
    let x_max = Rat::from_int(1, 1);
    assert!(grid.point(0, 0).re().eq_value(&x_min));
    assert!(grid.point(0, 9).re().eq_value(&x_max));
    assert!(grid.point(0, 0).im().eq_value(&x_min));
    assert!(grid.point(9, 0).im().eq_value(&x_max));
}

#[test]
fn linspace_exact_representation() {
    let lo = Rat::from_int(0, 1);
    let hi = Rat::from_int(1, 1);
    let xs = linspace(&lo, &hi, 10);
    assert_eq!(xs.len(), 10);
    // The j-th of ten samples over [0, 1] is exactly j / 9.
    assert_eq!(xs[3].num, BigInt::from(3));
    assert_eq!(xs[3].den, BigInt::from(9));
    assert_eq!(xs[9].num, BigInt::from(9));
    assert_eq!(xs[9].den, BigInt::from(9));
}

#[test]
fn axis_counts_are_exact() {
    let zero = Rat::from_int(0, 1);
    let one = Rat::from_int(1, 1);
    let half = Rat::from_int(1, 2);
    assert_eq!(count_samples(&zero, &one, 10), Some(10));
    assert_eq!(count_samples(&zero, &half, 1), Some(0));
    assert_eq!(count_samples(&Rat::from_int(-2, 1), &half, 2), Some(5));
}

#[test]
fn degenerate_density_yields_empty_set() {
    let region = unit_square();
    let grid = sample(&region, 0).expect("counts fit");
    assert_eq!(grid.width, 0);
    assert_eq!(grid.height, 0);
    assert!(grid.points.is_empty());
    let stable = collect_stable(&grid, 20);
    assert!(stable.is_empty());
}

#[test]
fn degenerate_axis_yields_empty_set() {
    // A span of one half at density 1 truncates to zero samples.
    let region = Region {
        x_min: Rat::from_int(0, 1),
        x_max: Rat::from_int(1, 2),
        y_min: Rat::from_int(0, 1),
        y_max: Rat::from_int(1, 1),
    };
    let grid = sample(&region, 1).expect("counts fit");
    assert_eq!(grid.width, 0);
    assert_eq!(grid.height, 1);
    assert!(grid.points.is_empty());
    assert!(collect_stable(&grid, 5).is_empty());
}

#[test]
fn origin_is_stable_at_any_count() {
    let origin = CRat::from_ints(0, 0);
    assert!(classify(&origin, 1));
    assert!(classify(&origin, 7));
    assert!(classify(&origin, 100));
}

#[test]
fn exterior_point_is_unstable() {
    let c = CRat::from_ints(2, 2);
    assert!(!classify(&c, 1));
    assert!(!classify(&c, 10));
}

#[test]
fn boundary_magnitude_two_is_stable() {
    // For c = 2 the first orbit value is exactly 2, so |z| = 2 and the
    // inclusive threshold keeps it; one more step reaches 6 and escapes.
    let c = CRat::from_ints(2, 0);
    assert!(classify(&c, 1));
    assert!(!classify(&c, 2));
}

#[test]
fn escaped_points_stay_escaped() {
    let c = CRat::from_ints(2, 2);
    for n in 1..=8u64 {
        assert!(!classify(&c, n));
    }
    // c = 1 crosses the threshold between the second and third step and
    // never comes back: 0, 1, 2, 5, 26, ...
    let one = CRat::from_ints(1, 0);
    assert!(classify(&one, 1));
    assert!(classify(&one, 2));
    assert!(!classify(&one, 3));
    assert!(!classify(&one, 4));
    assert!(!classify(&one, 6));
}

#[test]
fn collect_stable_is_deterministic() {
    let region = reference_region();
    let grid = sample(&region, 1).expect("counts fit");
    let first = collect_stable(&grid, 5);
    let second = collect_stable(&grid, 5);
    assert_eq!(first.len(), second.len());
    for (a, b) in first.iter().zip(second.iter()) {
        assert!(same_point(a, b));
    }
}

#[test]
fn small_reference_grid_dimensions() {
    // The reference region [-2, 1/2] x [-3/2, 3/2] at density 2 spans
    // 2.5 x 3 units, giving a 5-wide, 6-tall grid.
    let region = reference_region();
    let grid = sample(&region, 2).expect("counts fit");
    assert_eq!(grid.width, 5);
    assert_eq!(grid.height, 6);
}

#[test]
fn end_to_end_small_scenario() {
    // Density 1 samples the reference region at x in {-2, 1/2} and
    // y in {-3/2, 0, 3/2}. After twenty exact iterations only c = -2
    // survives: its orbit is 0, -2, 2, 2, ... with magnitude exactly 2,
    // while the corner 1/2 + 3/2 i escapes at once.
    let region = reference_region();
    let grid = sample(&region, 1).expect("counts fit");
    assert_eq!(grid.width, 2);
    assert_eq!(grid.height, 3);
    let stable = collect_stable(&grid, 20);
    assert_eq!(stable.len(), 1);
    let minus_two = Rat::from_int(-2, 1);
    let zero = Rat::from_int(0, 1);
    assert!(stable[0].re().eq_value(&minus_two));
    assert!(stable[0].im().eq_value(&zero));
    // The far corner is in the grid but not in the stable set.
    let corner = grid.point(2, 1);
    assert!(corner.re().eq_value(&Rat::from_int(1, 2)));
    assert!(corner.im().eq_value(&Rat::from_int(3, 2)));
    for p in stable.iter() {
        assert!(!same_point(p, corner));
    }
}

#[test]
fn runtime_validity_checks() {
    let region = reference_region();
    assert!(region.is_valid());
    let swapped = Region {
        x_min: Rat::from_int(1, 2),
        x_max: Rat::from_int(-2, 1),
        y_min: Rat::from_int(-3, 2),
        y_max: Rat::from_int(3, 2),
    };
    assert!(!swapped.is_valid());
    let grid = sample(&region, 1).expect("counts fit");
    assert!(grid.is_well_formed());
    let malformed = Grid { width: 2, height: 2, points: Vec::new() };
    assert!(!malformed.is_well_formed());
}

#[test]
fn orbit_generator_emits_mandelbrot_terms() {
    let mut orbit = mandelbrot_orbit(1);
    assert_eq!(orbit.next(), Some(BigInt::from(0)));
    assert_eq!(orbit.next(), Some(BigInt::from(1)));
    assert_eq!(orbit.next(), Some(BigInt::from(2)));
    assert_eq!(orbit.next(), Some(BigInt::from(5)));
    assert_eq!(orbit.next(), Some(BigInt::from(26)));
}

#[test]
fn orbit_generator_emits_julia_terms() {
    let mut orbit = julia(-1, 0);
    assert_eq!(orbit.next(), Some(BigInt::from(-1)));
    assert_eq!(orbit.next(), Some(BigInt::from(1)));
    assert_eq!(orbit.next(), Some(BigInt::from(1)));
}

#[test]
fn orbit_generator_honours_limit() {
    let mut orbit = Orbit::new(0, 2, Some(2));
    assert_eq!(orbit.next(), Some(BigInt::from(0)));
    assert_eq!(orbit.next(), Some(BigInt::from(2)));
    assert_eq!(orbit.next(), Some(BigInt::from(6)));
    assert_eq!(orbit.next(), None);
    assert_eq!(orbit.next(), None);
}
