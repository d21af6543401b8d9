//! A signed-distance-field font atlas library.
//!
//! The whole pipeline works on exact integers: 26.6 font coordinates land
//! on a signed 20-bit fixed-point pixel grid; Bezier segments are split
//! into Y-monotonic profiles and crossed with scanlines; distances are
//! minimized over candidate curve parameters; glyph rectangles are packed
//! into a square texture and filled row by row from the crossings and the
//! quantized distance bands by the non-zero winding rule.

pub mod curve;
pub mod font;
pub mod mindist;
pub mod packing;
pub mod rasterizer;
pub mod scanline;
pub mod units;

pub use curve::CubicSegment;
pub use curve::LinearSegment;
pub use curve::QuadraticSegment;
pub use curve::Vec2;
pub use font::AtlasError;
pub use font::Font;
pub use font::Glyph;
pub use mindist::OutlineDistance;
pub use rasterizer::OrientedCrossing;
pub use rasterizer::Rasterizer;
pub use scanline::ColumnCrossing;
pub use scanline::column_of;
pub use scanline::quantize_bands;
pub use scanline::render_row;
pub use units::BBox;
pub use units::fixed_from_26_6;
pub use units::px_from_26_6;
