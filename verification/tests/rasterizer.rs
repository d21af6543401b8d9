use sdf_atlas::fixed_from_26_6;
use sdf_atlas::column_of;
use sdf_atlas::quantize_bands;
use sdf_atlas::CubicSegment;
use sdf_atlas::QuadraticSegment;
use sdf_atlas::Rasterizer;
use sdf_atlas::Vec2;

const FX: i64 = 1 << 20;

fn v(x: f64, y: f64) -> Vec2 {
    Vec2::new((x * FX as f64) as i64, (y * FX as f64) as i64)
}

// A square contour, oriented so the interior winds positive, crossed at
// mid-height: an upward crossing at the left edge and a downward one at the
// right edge, sorted by X.
#[test]
fn test_square_scanline_crossings() {
    let mut rz = Rasterizer::new();
    let corners = [v(0.0, 0.0), v(0.0, 10.0), v(10.0, 10.0), v(10.0, 0.0)];
    for i in 0..4 {
        rz.push_line(corners[i], corners[(i + 1) % 4]);
    }
    let crossings = rz.scanline_crossings(5 * FX);
    assert_eq!(crossings.len(), 2);
    assert_eq!((crossings[0].dir, crossings[0].x), (1, 0));
    assert_eq!((crossings[1].dir, crossings[1].x), (-1, 10 * FX));
}

// The directions over a whole closed contour balance to zero on every
// scanline through it.
#[test]
fn test_square_crossings_balance() {
    let mut rz = Rasterizer::new();
    let corners = [v(0.0, 0.0), v(0.0, 10.0), v(10.0, 10.0), v(10.0, 0.0)];
    for i in 0..4 {
        rz.push_line(corners[i], corners[(i + 1) % 4]);
    }
    for yi in 0..10 {
        let crossings = rz.scanline_crossings(yi * FX + FX / 2);
        let sum: i64 = crossings.iter().map(|c| c.dir as i64).sum();
        assert_eq!(sum, 0, "unbalanced at scanline {}", yi);
    }
}

// Half-open ranges: a scanline through the shared endpoint of two contour
// pieces yields one crossing for the junction, not two.
#[test]
fn test_half_open_junction() {
    let mut rz = Rasterizer::new();
    // the left edge rises in two pieces sharing (0, 5)
    rz.push_line(v(0.0, 0.0), v(0.0, 5.0));
    rz.push_line(v(0.0, 5.0), v(0.0, 10.0));
    // a right edge falling in one piece closes the shape's sides
    rz.push_line(v(10.0, 10.0), v(10.0, 0.0));
    let crossings = rz.scanline_crossings(5 * FX);
    assert_eq!(crossings.len(), 2);
    assert_eq!((crossings[0].dir, crossings[0].x), (1, 0));
    assert_eq!((crossings[1].dir, crossings[1].x), (-1, 10 * FX));
}

// Splitting a quadratic with an interior Y extremum yields one rising and
// one falling half, each stored Y-monotonic.
#[test]
fn test_bezier2_split_monotonic() {
    let mut rz = Rasterizer::new();
    let (p0, p1, p2) = (v(0.0, 0.0), v(1.0, 2.0), v(2.0, 0.0));
    rz.push_bezier2(p0, p1, p2);
    assert_eq!(rz.quadratic_profiles.len(), 2);
    let dirs: Vec<i8> = rz.quadratic_profiles.iter().map(|p| p.dir).collect();
    assert!(dirs.contains(&1) && dirs.contains(&-1));
    for prof in &rz.quadratic_profiles {
        assert!(prof.p0.y < prof.p2.y);
        // sampled Y is non-decreasing along each stored profile
        let seg = QuadraticSegment::new(prof.p0, prof.p1, prof.p2);
        let mut last = seg.eval_point(0).y;
        for s in 1..=32 {
            let t = (s * FX) / 32;
            let y = seg.eval_point(t).y;
            assert!(y + 2 >= last, "profile not monotonic at sample {}", s);
            last = y;
        }
    }
}

// Splitting a cubic with two interior Y extrema yields three monotonic
// pieces with alternating directions.
#[test]
fn test_bezier3_split_monotonic() {
    let mut rz = Rasterizer::new();
    let (p0, p1, p2, p3) = (v(0.0, 0.0), v(3.0, 6.0), v(6.0, -6.0), v(9.0, 0.0));
    rz.push_bezier3(p0, p1, p2, p3);
    assert_eq!(rz.cubic_profiles.len(), 3);
    for prof in &rz.cubic_profiles {
        assert!(prof.p0.y < prof.p3.y);
        let seg = CubicSegment::new(prof.p0, prof.p1, prof.p2, prof.p3);
        let mut last = seg.eval_point(0).y;
        for s in 1..=32 {
            let t = (s * FX) / 32;
            let y = seg.eval_point(t).y;
            assert!(y + 4 >= last, "profile not monotonic at sample {}", s);
            last = y;
        }
    }
}

// A monotonic quadratic is crossed once, at its curve X.
#[test]
fn test_bezier2_crossing() {
    let mut rz = Rasterizer::new();
    // rises from (0,0) to (2,2) bending right
    rz.push_bezier2(v(0.0, 0.0), v(2.0, 0.5), v(2.0, 2.0));
    assert_eq!(rz.quadratic_profiles.len(), 1);
    let crossings = rz.scanline_crossings(FX);
    assert_eq!(crossings.len(), 1);
    assert_eq!(crossings[0].dir, 1);
    // at half height the curve is already right of the midpoint
    assert!(crossings[0].x > FX && crossings[0].x < 2 * FX);
}

// Horizontal lines contribute no profile and no crossing.
#[test]
fn test_horizontal_dropped() {
    let mut rz = Rasterizer::new();
    rz.push_line(v(0.0, 3.0), v(10.0, 3.0));
    assert_eq!(rz.linear_profiles.len(), 0);
    assert_eq!(rz.scanline_crossings(3 * FX).len(), 0);
}

// 26.6 font units to the fixed-point pixel grid: with em 2048 at face size
// 64, one pixel is 2048 26.6-units.
#[test]
fn test_fixed_from_26_6() {
    assert_eq!(fixed_from_26_6(2048, 2048, 64), FX);
    assert_eq!(fixed_from_26_6(1024, 2048, 64), FX / 2);
    assert_eq!(fixed_from_26_6(-2048, 2048, 64), -FX);
    assert_eq!(fixed_from_26_6(0, 2048, 64), 0);
}

// The first pixel column whose center lies at or right of an X coordinate.
#[test]
fn test_column_of() {
    // pixel centers sit at xmin + col + 1/2
    assert_eq!(column_of(0, 0), 0);
    assert_eq!(column_of(FX / 2, 0), 0);
    assert_eq!(column_of(FX / 2 + 1, 0), 1);
    assert_eq!(column_of(10 * FX, 0), 10);
    assert_eq!(column_of(0, -3), 3);
    assert_eq!(column_of(-2 * FX, 0), -2);
}

// The quantization bands: 127 -/+ d * 1920 / face_size.
#[test]
fn test_quantize_bands() {
    assert_eq!(quantize_bands(0, 64), (127, 127));
    // one pixel unit at face size 64 scales to 30
    assert_eq!(quantize_bands(FX, 64), (97, 157));
    // far away: the outside band saturates low, the inside high
    let (outside, inside) = quantize_bands(100 * FX, 64);
    assert!(outside < 0 && inside > 255);
}

// Reverse-fill: traversing the same square with the opposite orientation
// and rendering under the reversed fill rule colors every pixel the same.
#[test]
fn test_reverse_fill_square_identical() {
    let corners = [v(0.0, 0.0), v(0.0, 10.0), v(10.0, 10.0), v(10.0, 0.0)];
    let mut forward = Rasterizer::new();
    for i in 0..4 {
        forward.push_line(corners[i], corners[(i + 1) % 4]);
    }
    let mut backward = Rasterizer::new();
    for i in (0..4).rev() {
        backward.push_line(corners[(i + 1) % 4], corners[i]);
    }
    let bands = vec![(20, 220); 12];
    for yi in 0..10 {
        let y = yi * FX + FX / 2;
        let cols = |rz: &Rasterizer| {
            let mut cs: Vec<sdf_atlas::ColumnCrossing> = rz
                .scanline_crossings(y)
                .iter()
                .map(|c| sdf_atlas::ColumnCrossing { dir: c.dir, col: column_of(c.x, 0) })
                .collect();
            cs.sort_by_key(|c| c.col);
            cs
        };
        let plain = sdf_atlas::render_row(&bands, &cols(&forward), false);
        let reversed = sdf_atlas::render_row(&bands, &cols(&backward), true);
        assert_eq!(plain, reversed, "rows differ at scanline {}", yi);
    }
}
