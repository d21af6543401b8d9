use sdf_atlas::ColumnCrossing;
use sdf_atlas::render_row;

fn flat_bands(width: usize, outside: i64, inside: i64) -> Vec<(i64, i64)> {
    let mut bands = Vec::new();
    for _ in 0..width {
        bands.push((outside, inside));
    }
    bands
}

// A square contour crossed at mid-height yields an upward crossing at its
// left edge and a downward one at its right edge; the row is filled between
// them and outside-valued elsewhere.
#[test]
fn test_row_square_crossings() {
    let bands = flat_bands(12, 27, 227);
    let crossings = vec![
        ColumnCrossing { dir: 1, col: 0 },
        ColumnCrossing { dir: -1, col: 10 },
    ];
    let row = render_row(&bands, &crossings, false);
    assert_eq!(row.len(), 12);
    for c in 0..10 {
        assert_eq!(row[c], 227, "column {} should be inside", c);
    }
    assert_eq!(row[10], 27);
    assert_eq!(row[11], 27);
}

// With no crossings every pixel is outside.
#[test]
fn test_row_no_crossings() {
    let bands = flat_bands(4, 33, 200);
    let row = render_row(&bands, &Vec::new(), false);
    assert_eq!(row, vec![33, 33, 33, 33]);
}

// Reversing every crossing direction and rendering under the reversed fill
// rule gives the identical row.
#[test]
fn test_row_reverse_fill_matches() {
    let bands = flat_bands(12, 27, 227);
    let crossings = vec![
        ColumnCrossing { dir: 1, col: 0 },
        ColumnCrossing { dir: -1, col: 10 },
    ];
    let flipped = vec![
        ColumnCrossing { dir: -1, col: 0 },
        ColumnCrossing { dir: 1, col: 10 },
    ];
    let plain = render_row(&bands, &crossings, false);
    let reversed = render_row(&bands, &flipped, true);
    assert_eq!(plain, reversed);
}

// Band values below 0 and above 255 saturate to the byte range; the value
// 127 marks the outline itself.
#[test]
fn test_row_quantization_clamps() {
    let bands = vec![(-5, 300), (127, 127), (255, 0), (256, 300)];
    let crossings = vec![ColumnCrossing { dir: 1, col: 2 }];
    let row = render_row(&bands, &crossings, false);
    // columns 0 and 1 are outside, 2 and 3 inside
    assert_eq!(row, vec![0, 127, 0, 255]);
    let row_outside = render_row(&bands, &Vec::new(), false);
    // outside everywhere: -5 clamps to 0, 256 clamps to 255
    assert_eq!(row_outside, vec![0, 127, 255, 255]);
}

// Crossings left of the row's first column still count toward the winding
// number of every column.
#[test]
fn test_row_crossing_left_of_origin() {
    let bands = flat_bands(3, 10, 240);
    let crossings = vec![
        ColumnCrossing { dir: 1, col: -7 },
        ColumnCrossing { dir: -1, col: 2 },
    ];
    let row = render_row(&bands, &crossings, false);
    assert_eq!(row, vec![240, 240, 10]);
}

// Under the non-zero rule two nested upward crossings need two downward
// ones before the fill ends.
#[test]
fn test_row_nonzero_rule_nested() {
    let bands = flat_bands(8, 0, 255);
    let crossings = vec![
        ColumnCrossing { dir: 1, col: 0 },
        ColumnCrossing { dir: 1, col: 2 },
        ColumnCrossing { dir: -1, col: 4 },
        ColumnCrossing { dir: -1, col: 6 },
    ];
    let row = render_row(&bands, &crossings, false);
    assert_eq!(row, vec![255, 255, 255, 255, 255, 255, 0, 0]);
}

// Past the last crossing the winding balance of a closed contour's
// crossings is zero, so the row ends on the outside band.
#[test]
fn test_row_ends_outside_balanced() {
    let bands = flat_bands(20, 9, 200);
    let crossings = vec![
        ColumnCrossing { dir: 1, col: 1 },
        ColumnCrossing { dir: 1, col: 3 },
        ColumnCrossing { dir: -1, col: 6 },
        ColumnCrossing { dir: -1, col: 9 },
    ];
    let row = render_row(&bands, &crossings, false);
    for c in 9..20 {
        assert_eq!(row[c], 9, "column {} should be outside", c);
    }
}
