//! The font atlas: a square byte texture, a character-to-glyph table, and
//! the placement and row-filling steps that keep its invariant.
//!
//! The invariant says that glyph rectangles lie inside the texture, that
//! they are pairwise disjoint, that every glyph of the table was placed,
//! and that every pixel outside all placed rectangles is still zero.

use std::collections::HashMap;
use vstd::prelude::*;
use vstd::arithmetic::mul::lemma_mul_inequality;
use crate::packing::packer_frame;
use crate::packing::packer_new;
use crate::packing::packer_pack;
use crate::scanline::ColumnCrossing;
use crate::scanline::cols_sorted;
use crate::scanline::pixel_value;
use crate::scanline::render_row;
use crate::scanline::winding_at;
use crate::units::BBox;
use crate::units::lemma_px_monotonic;
use crate::units::px_from_26_6;
use crate::units::px_of_26_6;

verus! {

broadcast use vstd::std_specs::hash::group_hash_axioms;

/// The one failure the atlas surfaces: no free rectangle of the requested
/// size is left in the texture.
#[derive(Clone, Copy, Debug, PartialEq, Eq, Structural)]
pub enum AtlasError {
    AtlasFull,
}

/// One glyph's pixel rectangle inside the atlas texture (top-left corner,
/// size) and its pixel-grid origin relative to the font-unit origin.
#[derive(Clone, Copy, Debug, PartialEq, Eq, Structural)]
pub struct Glyph {
    pub x: usize,
    pub y: usize,
    pub width: usize,
    pub height: usize,
    pub xmin: isize,
    pub ymin: isize,
}

/// Bounds on an em size, a face size, and a padding under which glyph
/// rectangle arithmetic is exact in 64-bit integers.
pub open spec fn metrics_args_ok(em_size: int, face_size: int, padding: int) -> bool {
    &&& 16 <= em_size <= 0x1_0000
    &&& 1 <= face_size <= 0x1000
    &&& 1 <= padding <= 0x1000
}

/// The glyph pixel width a bounding box yields: the spread of the rounded
/// pixel-grid ends plus a padding ring on both sides.
pub open spec fn glyph_width_spec(bbox: BBox, em_size: int, face_size: int, padding: int) -> int {
    px_of_26_6(bbox.xmax as int, em_size, face_size) - px_of_26_6(
        bbox.xmin as int,
        em_size,
        face_size,
    ) + 2 * padding
}

/// The glyph pixel height a bounding box yields.
pub open spec fn glyph_height_spec(bbox: BBox, em_size: int, face_size: int, padding: int) -> int {
    px_of_26_6(bbox.ymax as int, em_size, face_size) - px_of_26_6(
        bbox.ymin as int,
        em_size,
        face_size,
    ) + 2 * padding
}

/// The pixel-grid X of the glyph rectangle's left edge.
pub open spec fn glyph_xmin_spec(bbox: BBox, em_size: int, face_size: int, padding: int) -> int {
    px_of_26_6(bbox.xmin as int, em_size, face_size) - padding
}

/// The pixel-grid Y of the glyph rectangle's bottom edge.
pub open spec fn glyph_ymin_spec(bbox: BBox, em_size: int, face_size: int, padding: int) -> int {
    px_of_26_6(bbox.ymin as int, em_size, face_size) - padding
}

/// The glyph's rectangle lies inside a `width` by `height` texture and is
/// not empty.
pub open spec fn glyph_fits(g: Glyph, width: int, height: int) -> bool {
    &&& 1 <= g.width
    &&& 1 <= g.height
    &&& g.x + g.width <= width
    &&& g.y + g.height <= height
}

/// Two glyph rectangles share no pixel.
pub open spec fn rects_disjoint(a: Glyph, b: Glyph) -> bool {
    ||| a.x + a.width <= b.x
    ||| b.x + b.width <= a.x
    ||| a.y + a.height <= b.y
    ||| b.y + b.height <= a.y
}

/// Texture pixel (`row`, `col`) lies inside the glyph's rectangle.
pub open spec fn pixel_in_glyph(g: Glyph, row: int, col: int) -> bool {
    &&& g.y <= row < g.y + g.height
    &&& g.x <= col < g.x + g.width
}

/// Texture pixel (`row`, `col`) lies inside some placed glyph's rectangle.
pub open spec fn pixel_covered(placed: Seq<(u32, Glyph)>, row: int, col: int) -> bool {
    exists|i: int| 0 <= i < placed.len() && pixel_in_glyph(#[trigger] placed[i].1, row, col)
}

impl Glyph {
    /// The glyph rectangle a 26.6 bounding box yields at the given em size,
    /// face size and padding, not yet placed (`x` and `y` zero).
    pub fn from_bbox(bbox: BBox, em_size: i64, face_size: usize, padding: usize) -> (g: Glyph)
        requires
            bbox.wf(),
            metrics_args_ok(em_size as int, face_size as int, padding as int),
        ensures
            g.x == 0,
            g.y == 0,
            g.width == glyph_width_spec(bbox, em_size as int, face_size as int, padding as int),
            g.height == glyph_height_spec(bbox, em_size as int, face_size as int, padding as int),
            g.xmin == glyph_xmin_spec(bbox, em_size as int, face_size as int, padding as int),
            g.ymin == glyph_ymin_spec(bbox, em_size as int, face_size as int, padding as int),
            2 <= g.width <= 0x4000_2000,
            2 <= g.height <= 0x4000_2000,
    {
        let face = face_size as i64;
        let pad = padding as i64;
        let px_xmin = px_from_26_6(bbox.xmin, em_size, face);
        let px_ymin = px_from_26_6(bbox.ymin, em_size, face);
        let px_xmax = px_from_26_6(bbox.xmax, em_size, face);
        let px_ymax = px_from_26_6(bbox.ymax, em_size, face);
        proof {
            lemma_px_monotonic(bbox.xmin as int, bbox.xmax as int, em_size as int, face as int);
            lemma_px_monotonic(bbox.ymin as int, bbox.ymax as int, em_size as int, face as int);
        }
        let width = (px_xmax - px_xmin) + 2 * pad;
        let height = (px_ymax - px_ymin) + 2 * pad;
        Glyph {
            x: 0,
            y: 0,
            width: width as usize,
            height: height as usize,
            xmin: (px_xmin - pad) as isize,
            ymin: (px_ymin - pad) as isize,
        }
    }
}

/// A font atlas: one square grayscale texture, the glyphs drawn into it,
/// the record of every placement in insertion order, and the packer that
/// hands out free rectangles.
pub struct Font {
    pub buffer: Vec<u8>,
    pub width: usize,
    pub height: usize,
    pub glyphs: HashMap<u32, Glyph>,
    pub placed: Vec<(u32, Glyph)>,
    pub packer: rect_packer::Packer,
}

impl Font {
    /// The atlas invariant: the texture is `width` by `height`, the packer's
    /// frame matches it, every placed rectangle fits, placed rectangles are
    /// pairwise disjoint, every glyph of the table was placed, and every
    /// pixel outside all placed rectangles is zero.
    pub open spec fn wf(&self) -> bool {
        &&& self.width <= 0x8000
        &&& self.height <= 0x8000
        &&& self.buffer@.len() == self.width * self.height
        &&& packer_frame(self.packer) == (self.width as int, self.height as int)
        &&& crate::packing::packer_zero_padding(self.packer)
        &&& forall|i: int|
            0 <= i < self.placed@.len() ==> glyph_fits(
                (#[trigger] self.placed@[i]).1,
                self.width as int,
                self.height as int,
            )
        &&& forall|i: int, j: int|
            0 <= i < j < self.placed@.len() ==> rects_disjoint(
                self.placed@[i].1,
                self.placed@[j].1,
            )
        &&& forall|c: u32|
            self.glyphs@.contains_key(c) ==> exists|i: int|
                0 <= i < self.placed@.len() && #[trigger] self.placed@[i] == (
                c,
                self.glyphs@[c],
                )
        &&& forall|row: int, col: int|
            0 <= row < self.height && 0 <= col < self.width && !pixel_covered(
                self.placed@,
                row,
                col,
            ) ==> self.buffer@[row * self.width + col] == 0
    }

    /// An empty atlas: a zeroed `square_size` by `square_size` texture with
    /// no glyphs.
    pub fn new(square_size: usize) -> (font: Font)
        requires
            square_size <= 0x8000,
        ensures
            font.wf(),
            font.width == square_size,
            font.height == square_size,
            font.glyphs@ == Map::<u32, Glyph>::empty(),
            font.placed@.len() == 0,
            font.buffer@.len() == square_size * square_size,
            forall|p: int| 0 <= p < font.buffer@.len() ==> font.buffer@[p] == 0,
    {
        proof {
            assert(square_size * square_size <= 0x4000_0000) by (nonlinear_arith)
                requires
                    square_size <= 0x8000,
            ;
        }
        let size = square_size * square_size;
        let mut buffer: Vec<u8> = Vec::new();
        while buffer.len() < size
            invariant
                buffer@.len() <= size,
                forall|p: int| 0 <= p < buffer@.len() ==> buffer@[p] == 0,
            decreases size - buffer@.len(),
        {
            buffer.push(0);
        }
        let font = Font {
            buffer,
            width: square_size,
            height: square_size,
            glyphs: HashMap::new(),
            placed: Vec::new(),
            packer: packer_new(square_size as i32, square_size as i32),
        };
        proof {
            lemma_pixel_index_in_range(font.width as int, font.height as int);
        }
        font
    }
}

/// Whether two glyph rectangles share no pixel, decided by their edges.
fn rects_disjoint_check(a: &Glyph, b: &Glyph) -> (r: bool)
    requires
        a.x + a.width <= usize::MAX,
        a.y + a.height <= usize::MAX,
        b.x + b.width <= usize::MAX,
        b.y + b.height <= usize::MAX,
    ensures
        r == rects_disjoint(*a, *b),
{
    a.x + a.width <= b.x || b.x + b.width <= a.x || a.y + a.height <= b.y || b.y + b.height <= a.y
}

impl Font {
    /// Compute a glyph's rectangle for the bounding box, have the packer
    /// place it, record it in the glyph table, and return it; or report that
    /// the texture has no room left. The new rectangle lies inside the
    /// texture and off every rectangle placed before, so the atlas invariant
    /// is kept; nothing is drawn yet. The full atlas is reported in exactly
    /// three cases: the rectangle is wider or taller than the texture (the
    /// first ensures arm below), the packer declines, or the packer hands
    /// back a position overlapping an earlier placement (the re-check above
    /// the table update); the latter two are outside decisions the contract
    /// cannot tell apart.
    pub fn place_glyph(
        &mut self,
        code: u32,
        bbox: BBox,
        em_size: i64,
        face_size: usize,
        padding: usize,
    ) -> (r: Result<Glyph, AtlasError>)
        requires
            old(self).wf(),
            bbox.wf(),
            metrics_args_ok(em_size as int, face_size as int, padding as int),
        ensures
            final(self).wf(),
            final(self).width == old(self).width,
            final(self).height == old(self).height,
            final(self).buffer@ == old(self).buffer@,
            glyph_width_spec(bbox, em_size as int, face_size as int, padding as int) > old(
                self,
            ).width || glyph_height_spec(bbox, em_size as int, face_size as int, padding as int)
                > old(self).height ==> r == Err::<Glyph, AtlasError>(AtlasError::AtlasFull),
            match r {
                Ok(g) => {
                    &&& g.width == glyph_width_spec(
                        bbox,
                        em_size as int,
                        face_size as int,
                        padding as int,
                    )
                    &&& g.height == glyph_height_spec(
                        bbox,
                        em_size as int,
                        face_size as int,
                        padding as int,
                    )
                    &&& g.xmin == glyph_xmin_spec(
                        bbox,
                        em_size as int,
                        face_size as int,
                        padding as int,
                    )
                    &&& g.ymin == glyph_ymin_spec(
                        bbox,
                        em_size as int,
                        face_size as int,
                        padding as int,
                    )
                    &&& glyph_fits(g, old(self).width as int, old(self).height as int)
                    &&& final(self).glyphs@ == old(self).glyphs@.insert(code, g)
                    &&& final(self).placed@ == old(self).placed@.push((code, g))
                },
                Err(e) => {
                    &&& e == AtlasError::AtlasFull
                    &&& final(self).glyphs@ == old(self).glyphs@
                    &&& final(self).placed@ == old(self).placed@
                },
            },
    {
        let g0 = Glyph::from_bbox(bbox, em_size, face_size, padding);
        if g0.width > self.width || g0.height > self.height {
            // the packer cannot place a rectangle wider or taller than its frame
            return Err(AtlasError::AtlasFull);
        }
        let pos = packer_pack(&mut self.packer, g0.width as i32, g0.height as i32);
        match pos {
            None => Err(AtlasError::AtlasFull),
            Some((px, py)) => {
                let g = Glyph {
                    x: px as usize,
                    y: py as usize,
                    width: g0.width,
                    height: g0.height,
                    xmin: g0.xmin,
                    ymin: g0.ymin,
                };
                // The packer is trusted only for the frame bounds; that the new
                // rectangle misses every earlier one is checked here.
                let mut i: usize = 0;
                let placed_len = self.placed.len();
                while i < placed_len
                    invariant
                        self.wf(),
                        self.width == old(self).width,
                        self.height == old(self).height,
                        self.buffer@ == old(self).buffer@,
                        self.glyphs@ == old(self).glyphs@,
                        self.placed@ == old(self).placed@,
                        placed_len == self.placed@.len(),
                        i <= placed_len,
                        glyph_fits(g, self.width as int, self.height as int),
                        forall|k: int|
                            0 <= k < i ==> rects_disjoint(g, (#[trigger] self.placed@[k]).1),
                    decreases placed_len - i,
                {
                    if !rects_disjoint_check(&g, &self.placed[i].1) {
                        // unreachable for a packer that packs: reported as a
                        // full atlas so the caller can enlarge and retry
                        return Err(AtlasError::AtlasFull);
                    }
                    i = i + 1;
                }
                self.glyphs.insert(code, g);
                self.placed.push((code, g));
                proof {
                    lemma_place_preserves_wf(*old(self), *self, code, g);
                }
                Ok(g)
            },
        }
    }

    /// Fill one pixel row of a placed glyph. `row_in_glyph` counts texture
    /// rows from the glyph rectangle's top edge; `bands` holds each pixel's
    /// two quantized distance candidates (outside, inside) and `crossings`
    /// the row's scanline crossings by glyph-local column. Every byte of the
    /// row gets the candidate the non-zero winding rule picks, clamped to a
    /// byte; every other texture byte is left as it was.
    pub fn render_glyph_row(
        &mut self,
        code: u32,
        row_in_glyph: usize,
        bands: &Vec<(i64, i64)>,
        crossings: &Vec<ColumnCrossing>,
        reverse_fill: bool,
    )
        requires
            old(self).wf(),
            old(self).glyphs@.contains_key(code),
            row_in_glyph < old(self).glyphs@[code].height,
            bands@.len() == old(self).glyphs@[code].width,
            cols_sorted(crossings@),
            crossings@.len() <= 0x7fff_ffff,
        ensures
            final(self).wf(),
            final(self).width == old(self).width,
            final(self).height == old(self).height,
            final(self).glyphs@ == old(self).glyphs@,
            final(self).placed@ == old(self).placed@,
            ({
                let g = old(self).glyphs@[code];
                let base = (g.y + row_in_glyph) * old(self).width + g.x;
                &&& forall|c: int|
                    0 <= c < g.width ==> final(self).buffer@[base + c] == pixel_value(
                        bands@[c].0 as int,
                        bands@[c].1 as int,
                        winding_at(crossings@, c),
                        reverse_fill,
                    )
                &&& forall|p: int|
                    0 <= p < old(self).buffer@.len() && !(base <= p < base + g.width)
                        ==> final(self).buffer@[p] == old(self).buffer@[p]
            }),
    {
        let g = match self.glyphs.get(&code) {
            Some(gl) => *gl,
            None => Glyph { x: 0, y: 0, width: 0, height: 0, xmin: 0, ymin: 0 },
        };
        proof {
            let i = choose|i: int|
                0 <= i < self.placed@.len() && #[trigger] self.placed@[i] == (
                code,
                self.glyphs@[code],
                );
            assert(glyph_fits(g, self.width as int, self.height as int));
            lemma_row_base_bound(
                g,
                row_in_glyph as int,
                self.width as int,
                self.height as int,
            );
        }
        let row = render_row(bands, crossings, reverse_fill);
        let base = (g.y + row_in_glyph) * self.width + g.x;
        let ghost pre = *self;
        let mut c: usize = 0;
        while c < g.width
            invariant
                pre.wf(),
                glyph_fits(g, pre.width as int, pre.height as int),
                self.width == pre.width,
                self.height == pre.height,
                self.glyphs@ == pre.glyphs@,
                self.placed@ == pre.placed@,
                self.packer == pre.packer,
                self.buffer@.len() == pre.buffer@.len(),
                base == (g.y + row_in_glyph) * pre.width + g.x,
                base + g.width <= pre.buffer@.len(),
                base + g.width <= 0x4000_0000,
                row@.len() == g.width,
                c <= g.width,
                forall|k: int| 0 <= k < c ==> self.buffer@[base + k] == row@[k],
                forall|p: int|
                    0 <= p < pre.buffer@.len() && !(base <= p < base + c) ==> self.buffer@[p]
                        == pre.buffer@[p],
            decreases g.width - c,
        {
            let value = row[c];
            self.buffer.set(base + c, value);
            c = c + 1;
        }
        proof {
            lemma_rendered_row_preserves_wf(pre, *self, g, code, base as int, row_in_glyph as int);
            assert forall|k: int| 0 <= k < g.width implies self.buffer@[base + k] == pixel_value(
                bands@[k].0 as int,
                bands@[k].1 as int,
                winding_at(crossings@, k),
                reverse_fill,
            ) by {
                assert(self.buffer@[base + k] == row@[k]);
            }
        }
    }

    /// The glyph the table holds for a character code, if any.
    pub fn glyph(&self, code: u32) -> (g: Option<&Glyph>)
        ensures
            match g {
                Some(gl) => self.glyphs@.contains_key(code) && *gl == self.glyphs@[code],
                None => !self.glyphs@.contains_key(code),
            },
    {
        self.glyphs.get(&code)
    }
}

/// Appending a placement that fits the texture, misses every earlier
/// rectangle, and goes into the glyph table as well, keeps the atlas
/// invariant.
proof fn lemma_place_preserves_wf(pre: Font, post: Font, code: u32, g: Glyph)
    requires
        pre.wf(),
        post.width == pre.width,
        post.height == pre.height,
        post.buffer@ == pre.buffer@,
        packer_frame(post.packer) == (post.width as int, post.height as int),
        crate::packing::packer_zero_padding(post.packer),
        post.glyphs@ == pre.glyphs@.insert(code, g),
        post.placed@ == pre.placed@.push((code, g)),
        glyph_fits(g, pre.width as int, pre.height as int),
        forall|k: int| 0 <= k < pre.placed@.len() ==> rects_disjoint(g, (#[trigger] pre.placed@[k]).1),
    ensures
        post.wf(),
{
    let n = pre.placed@.len() as int;
    assert(forall|i: int| 0 <= i < n ==> post.placed@[i] == pre.placed@[i]);
    assert(post.placed@[n] == (code, g));
    assert forall|c: u32| post.glyphs@.contains_key(c) implies exists|i: int|
        0 <= i < post.placed@.len() && #[trigger] post.placed@[i] == (c, post.glyphs@[c]) by {
        if c == code {
            assert(post.placed@[n] == (c, post.glyphs@[c]));
        } else {
            let i = choose|i: int|
                0 <= i < pre.placed@.len() && #[trigger] pre.placed@[i] == (c, pre.glyphs@[c]);
            assert(post.placed@[i] == (c, post.glyphs@[c]));
        }
    }
    assert forall|row: int, col: int|
        0 <= row < post.height && 0 <= col < post.width && !pixel_covered(
            post.placed@,
            row,
            col,
        ) implies post.buffer@[row * post.width + col] == 0 by {
        if pixel_covered(pre.placed@, row, col) {
            let i = choose|i: int|
                0 <= i < pre.placed@.len() && pixel_in_glyph(#[trigger] pre.placed@[i].1, row, col);
            assert(pixel_in_glyph(post.placed@[i].1, row, col));
        } else {
            assert(pre.buffer@[row * pre.width + col] == 0);
        }
    }
}

/// The first byte of one row of a fitting glyph rectangle, and the byte past
/// its last, both lie inside the texture buffer.
proof fn lemma_row_base_bound(g: Glyph, row_in_glyph: int, width: int, height: int)
    requires
        glyph_fits(g, width, height),
        0 <= row_in_glyph < g.height,
        0 <= width <= 0x8000,
        0 <= height <= 0x8000,
    ensures
        0 <= (g.y + row_in_glyph) * width,
        (g.y + row_in_glyph) * width + g.x + g.width <= width * height,
        width * height <= 0x4000_0000,
{
    lemma_mul_inequality(g.y + row_in_glyph + 1, height, width);
    assert((g.y + row_in_glyph + 1) * width == (g.y + row_in_glyph) * width + width)
        by (nonlinear_arith);
    assert(0 <= (g.y + row_in_glyph) * width) by (nonlinear_arith)
        requires
            0 <= g.y + row_in_glyph,
            0 <= width,
    ;
    assert(width * height <= 0x4000_0000) by (nonlinear_arith)
        requires
            0 <= width <= 0x8000,
            0 <= height <= 0x8000,
    ;
}

/// A pixel index splits into a row and a column in exactly one way.
proof fn lemma_row_index_unique(width: int, r1: int, c1: int, r2: int, c2: int)
    requires
        1 <= width,
        0 <= c1 < width,
        0 <= c2 < width,
        r1 * width + c1 == r2 * width + c2,
    ensures
        r1 == r2,
        c1 == c2,
{
    assert(r1 == r2 && c1 == c2) by (nonlinear_arith)
        requires
            1 <= width,
            0 <= c1 < width,
            0 <= c2 < width,
            r1 * width + c1 == r2 * width + c2,
    ;
}

/// Overwriting only bytes of one row of a placed glyph's rectangle keeps the
/// atlas invariant.
proof fn lemma_rendered_row_preserves_wf(
    pre: Font,
    post: Font,
    g: Glyph,
    code: u32,
    base: int,
    row_in_glyph: int,
)
    requires
        pre.wf(),
        pre.glyphs@.contains_key(code),
        g == pre.glyphs@[code],
        glyph_fits(g, pre.width as int, pre.height as int),
        0 <= row_in_glyph < g.height,
        base == (g.y + row_in_glyph) * pre.width + g.x,
        post.width == pre.width,
        post.height == pre.height,
        post.glyphs@ == pre.glyphs@,
        post.placed@ == pre.placed@,
        post.packer == pre.packer,
        post.buffer@.len() == pre.buffer@.len(),
        forall|p: int|
            0 <= p < pre.buffer@.len() && !(base <= p < base + g.width) ==> post.buffer@[p]
                == pre.buffer@[p],
    ensures
        post.wf(),
{
    let w = pre.width as int;
    assert forall|row: int, col: int|
        0 <= row < post.height && 0 <= col < post.width && !pixel_covered(
            post.placed@,
            row,
            col,
        ) implies post.buffer@[row * w + col] == 0 by {
        lemma_pixel_index_in_range(w, post.height as int);
        let p = row * w + col;
        if base <= p < base + g.width {
            // the written byte lies in the glyph's rectangle, which is covered
            let k = p - base;
            lemma_row_index_unique(w, row, col, g.y + row_in_glyph, g.x + k);
            assert(pixel_in_glyph(g, row, col));
            let i = choose|i: int|
                0 <= i < pre.placed@.len() && #[trigger] pre.placed@[i] == (
                code,
                pre.glyphs@[code],
                );
            assert(pixel_in_glyph(post.placed@[i].1, row, col));
            assert(false);
        } else {
            assert(post.buffer@[p] == pre.buffer@[p]);
            assert(!pixel_covered(pre.placed@, row, col));
        }
    }
}

/// Law: in a well-formed atlas the glyph rectangles of two distinct
/// character codes share no pixel.
pub proof fn lemma_glyph_rects_disjoint(f: &Font, a: u32, b: u32)
    requires
        f.wf(),
        a != b,
        f.glyphs@.contains_key(a),
        f.glyphs@.contains_key(b),
    ensures
        rects_disjoint(f.glyphs@[a], f.glyphs@[b]),
{
    let i = choose|i: int|
        0 <= i < f.placed@.len() && #[trigger] f.placed@[i] == (a, f.glyphs@[a]);
    let j = choose|j: int|
        0 <= j < f.placed@.len() && #[trigger] f.placed@[j] == (b, f.glyphs@[b]);
    assert(i != j);
    if i < j {
        assert(rects_disjoint(f.placed@[i].1, f.placed@[j].1));
    } else {
        assert(rects_disjoint(f.placed@[j].1, f.placed@[i].1));
    }
}

/// Law: in a well-formed atlas every glyph of the table has its rectangle
/// inside the texture.
pub proof fn lemma_glyph_rect_in_texture(f: &Font, c: u32)
    requires
        f.wf(),
        f.glyphs@.contains_key(c),
    ensures
        glyph_fits(f.glyphs@[c], f.width as int, f.height as int),
{
    let i = choose|i: int|
        0 <= i < f.placed@.len() && #[trigger] f.placed@[i] == (c, f.glyphs@[c]);
}

/// Law: in a well-formed atlas every texture pixel outside all placed glyph
/// rectangles is still zero.
pub proof fn lemma_pixel_outside_glyphs_zero(f: &Font, row: int, col: int)
    requires
        f.wf(),
        0 <= row < f.height,
        0 <= col < f.width,
        !pixel_covered(f.placed@, row, col),
    ensures
        f.buffer@[row * f.width + col] == 0,
{
}

/// Every pixel (`row`, `col`) of a `width` by `height` texture has its index
/// `row * width + col` inside the buffer.
proof fn lemma_pixel_index_in_range(width: int, height: int)
    ensures
        forall|row: int, col: int|
            0 <= row < height && 0 <= col < width ==> 0 <= #[trigger] (row * width + col) < height
                * width,
{
    assert forall|row: int, col: int|
        0 <= row < height && 0 <= col < width implies 0 <= #[trigger] (row * width + col) < height
        * width by {
        lemma_mul_inequality(row + 1, height, width);
        assert((row + 1) * width == row * width + width) by (nonlinear_arith);
        assert(0 <= row * width) by (nonlinear_arith)
            requires
                0 <= row,
                0 <= width,
        ;
    }
}

} // verus!
