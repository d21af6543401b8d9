use sdf_atlas::CubicSegment;
use sdf_atlas::LinearSegment;
use sdf_atlas::OutlineDistance;
use sdf_atlas::QuadraticSegment;
use sdf_atlas::Vec2;

const FX: i64 = 1 << 20;

fn v(x: f64, y: f64) -> Vec2 {
    Vec2::new((x * FX as f64) as i64, (y * FX as f64) as i64)
}

fn to_f64(d: i64) -> f64 {
    d as f64 / FX as f64
}

fn float_eq(a: f64, b: f64) -> bool {
    let eps = 4e-5;
    (a - b).abs() < eps
}

/*
Test samples (from an independent quintic minimization):

Curve points: [(100.0, 200.0), (250.0, 400.0), (400.0, 200.0), (400.0, 400.0)]
Query point: (98.0, 314.0)
Result: dist=80.05094469021948, t=0.1091577060749022

Query point: (419.0, 291.0)
Result: dist=47.04632869336913, t=0.7942392383680202
*/
#[test]
fn test_cubic_distance() {
    let p0 = v(100.0, 200.0);
    let p1 = v(250.0, 400.0);
    let p2 = v(400.0, 200.0);
    let p3 = v(400.0, 400.0);
    let seg = CubicSegment::new(p0, p1, p2, p3);

    let p = v(98.0, 314.0);
    let dist = to_f64(seg.distance(p));
    assert!(float_eq(dist, 80.05094469021948), "dist={}", dist);

    let p = v(419.0, 291.0);
    let dist = to_f64(seg.distance(p));
    assert!(float_eq(dist, 47.04632869336913), "dist={}", dist);
}

// The distance from (5, 3) to the segment (0,0)-(10,0) is exactly 3, and
// from (-1, 0) exactly 1 (to the clamped end).
#[test]
fn test_line_distance() {
    let seg = LinearSegment::new(v(0.0, 0.0), v(10.0, 0.0));
    assert_eq!(seg.distance(v(5.0, 3.0)), 3 * FX);
    assert_eq!(seg.distance(v(-1.0, 0.0)), FX);
}

// The quadratic through (0,0), (1,2), (2,0) peaks at (1,1); the distance
// from (1, 0.5) is 0.5.
#[test]
fn test_quadratic_distance() {
    let seg = QuadraticSegment::new(v(0.0, 0.0), v(1.0, 2.0), v(2.0, 0.0));
    let dist = to_f64(seg.distance(v(1.0, 0.5)));
    assert!((dist - 0.5).abs() < 1e-3, "dist={}", dist);
}

// The distance at each segment end is zero for all three segment kinds.
#[test]
fn test_endpoint_distance_zero() {
    let a = v(3.0, -4.0);
    let b = v(10.0, 2.0);
    let c = v(-5.0, 8.0);
    let d = v(1.0, 1.0);
    let lin = LinearSegment::new(a, b);
    assert_eq!(lin.distance(a), 0);
    assert_eq!(lin.distance(b), 0);
    let quad = QuadraticSegment::new(a, b, c);
    assert_eq!(quad.distance(a), 0);
    assert_eq!(quad.distance(c), 0);
    let cub = CubicSegment::new(a, b, c, d);
    assert_eq!(cub.distance(a), 0);
    assert_eq!(cub.distance(d), 0);
}

// Distances are never negative, and are zero only within rounding of the
// curve itself.
#[test]
fn test_distance_nonnegative_and_positive_off_curve() {
    let seg = CubicSegment::new(v(0.0, 0.0), v(1.0, 3.0), v(3.0, -1.0), v(4.0, 2.0));
    let probes = [v(-2.0, -2.0), v(2.0, 0.0), v(5.0, 5.0), v(0.0, 4.0)];
    for p in probes {
        assert!(seg.distance(p) >= 0);
    }
    // a point one unit above the start cannot be closer than ~0.7
    assert!(to_f64(seg.distance(v(0.0, 1.0))) > 0.2);
}

// A one-sided triangle inequality on samples: moving the query point by
// delta changes the distance by at most |delta| (plus rounding).
#[test]
fn test_distance_lipschitz_samples() {
    let seg = QuadraticSegment::new(v(0.0, 0.0), v(2.0, 4.0), v(4.0, 0.0));
    let tol = 1e-3;
    let mut sx = -3.0;
    while sx < 7.0 {
        let p = v(sx, 1.0);
        let q = v(sx + 0.25, 1.0);
        let dp = to_f64(seg.distance(p));
        let dq = to_f64(seg.distance(q));
        assert!((dp - dq).abs() <= 0.25 + tol, "at {}: {} vs {}", sx, dp, dq);
        sx += 0.5;
    }
}

// The index returns the least distance over everything stored, and the
// no-segment sentinel when empty.
#[test]
fn test_outline_distance_min() {
    let mut index = OutlineDistance::new();
    assert_eq!(index.distance(v(0.0, 0.0)), i64::MAX);
    index.push_line(v(0.0, 10.0), v(10.0, 10.0));
    index.push_bezier2(v(0.0, 0.0), v(1.0, 2.0), v(2.0, 0.0));
    index.push_bezier3(v(20.0, 0.0), v(21.0, 3.0), v(23.0, -1.0), v(24.0, 2.0));
    // (1, 0.5) is 0.5 from the quadratic, farther from everything else
    let dist = to_f64(index.distance(v(1.0, 0.5)));
    assert!((dist - 0.5).abs() < 1e-3, "dist={}", dist);
    // (5, 11) is 1 above the line
    assert_eq!(index.distance(v(5.0, 11.0)), FX);
}
