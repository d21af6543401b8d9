use sdf_atlas::AtlasError;
use sdf_atlas::BBox;
use sdf_atlas::ColumnCrossing;
use sdf_atlas::Font;
use sdf_atlas::Glyph;

const EM: i64 = 2048;
const FACE: usize = 64;
const PAD: usize = 3;

fn sample_bbox() -> BBox {
    BBox { xmin: -320, ymin: 0, xmax: 1280, ymax: 640 }
}

fn overlap(a: &Glyph, b: &Glyph) -> bool {
    !(a.x + a.width <= b.x || b.x + b.width <= a.x || a.y + a.height <= b.y
        || b.y + b.height <= a.y)
}

#[test]
fn test_font_new_zeroed() {
    let font = Font::new(64);
    assert_eq!(font.width, 64);
    assert_eq!(font.height, 64);
    assert_eq!(font.buffer.len(), 64 * 64);
    assert!(font.buffer.iter().all(|&b| b == 0));
    assert_eq!(font.glyphs.len(), 0);
}

#[test]
fn test_place_glyph_metrics() {
    let mut font = Font::new(256);
    let glyph = font.place_glyph('A' as u32, sample_bbox(), EM, FACE, PAD).unwrap();
    // px(1280) = 1, px(-320) = 0, px(640) = 0, px(0) = 0 at one pixel per
    // 2048 26.6-units, so the rectangle is (1 - 0) + 2*3 by (0 - 0) + 2*3.
    assert_eq!(glyph.width, 7);
    assert_eq!(glyph.height, 6);
    assert_eq!(glyph.xmin, -3);
    assert_eq!(glyph.ymin, -3);
    assert!(glyph.x + glyph.width <= font.width);
    assert!(glyph.y + glyph.height <= font.height);
    assert_eq!(font.glyphs.len(), 1);
    assert_eq!(font.glyphs[&('A' as u32)], glyph);
}

// Three placements land on pairwise disjoint rectangles inside the texture,
// and every pixel outside their union is zero.
#[test]
fn test_atlas_three_glyphs() {
    let mut font = Font::new(256);
    let mut glyphs = Vec::new();
    for ch in ['A', 'B', 'C'] {
        let b = BBox {
            xmin: -320,
            ymin: -256,
            xmax: 1280 + (ch as i64 - 'A' as i64) * 512,
            ymax: 640,
        };
        glyphs.push(font.place_glyph(ch as u32, b, EM, FACE, PAD).unwrap());
    }
    for i in 0..glyphs.len() {
        let g = &glyphs[i];
        assert!(g.x + g.width <= font.width);
        assert!(g.y + g.height <= font.height);
        for j in 0..i {
            assert!(!overlap(g, &glyphs[j]), "glyphs {} and {} overlap", i, j);
        }
    }
    for row in 0..font.height {
        for col in 0..font.width {
            let covered = glyphs.iter().any(|g| {
                g.y <= row && row < g.y + g.height && g.x <= col && col < g.x + g.width
            });
            if !covered {
                assert_eq!(font.buffer[row * font.width + col], 0);
            }
        }
    }
}

#[test]
fn test_atlas_full_oversized() {
    let mut font = Font::new(16);
    // a glyph 32774 pixels wide cannot fit a 16 x 16 texture
    let wide = BBox { xmin: 0, ymin: 0, xmax: 0x400_0000, ymax: 640 };
    let r = font.place_glyph('A' as u32, wide, EM, FACE, PAD);
    assert_eq!(r, Err(AtlasError::AtlasFull));
}

#[test]
fn test_atlas_full_exhausted() {
    let mut font = Font::new(16);
    let mut placed = 0;
    let mut code: u32 = 'a' as u32;
    loop {
        match font.place_glyph(code, sample_bbox(), EM, FACE, PAD) {
            Ok(_) => {
                placed += 1;
                code += 1;
                assert!(placed <= 4, "a 16x16 texture cannot hold five 7x6 glyphs");
            }
            Err(AtlasError::AtlasFull) => break,
        }
    }
    assert!(placed >= 1, "a 16x16 texture holds at least one 7x6 glyph");
    assert_eq!(font.glyphs.len(), placed);
}

#[test]
fn test_render_glyph_row_writes() {
    let mut font = Font::new(64);
    let code = 'Q' as u32;
    let glyph = font.place_glyph(code, sample_bbox(), EM, FACE, PAD).unwrap();
    assert_eq!((glyph.width, glyph.height), (7, 6));
    let bands: Vec<(i64, i64)> = vec![(27, 227); 7];
    let crossings = vec![
        ColumnCrossing { dir: 1, col: 0 },
        ColumnCrossing { dir: -1, col: 5 },
    ];
    font.render_glyph_row(code, 1, &bands, &crossings, false);
    for row in 0..font.height {
        for col in 0..font.width {
            let expected = if row == glyph.y + 1 && glyph.x <= col && col < glyph.x + 5 {
                227
            } else if row == glyph.y + 1 && glyph.x + 5 <= col && col < glyph.x + 7 {
                27
            } else {
                0
            };
            assert_eq!(font.buffer[row * font.width + col], expected);
        }
    }
}

#[test]
fn test_glyph_lookup() {
    let mut font = Font::new(64);
    let glyph = font.place_glyph('x' as u32, sample_bbox(), EM, FACE, PAD).unwrap();
    assert_eq!(font.glyph('x' as u32), Some(&glyph));
    assert_eq!(font.glyph('y' as u32), None);
}

// Requesting the same character twice packs a second rectangle and the
// table keeps the latest one; both rectangles stay disjoint and in bounds.
#[test]
fn test_duplicate_character() {
    let mut font = Font::new(256);
    let first = font.place_glyph('A' as u32, sample_bbox(), EM, FACE, PAD).unwrap();
    let second = font.place_glyph('A' as u32, sample_bbox(), EM, FACE, PAD).unwrap();
    assert!(!overlap(&first, &second));
    assert_eq!(font.glyphs.len(), 1);
    assert_eq!(font.glyphs[&('A' as u32)], second);
    assert!(second.x + second.width <= font.width);
    assert!(second.y + second.height <= font.height);
}
