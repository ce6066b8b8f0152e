//! The bookkeeping of the batched quad renderer: the per-frame vertex batch
//! with its cap, the static index pattern, and the synthesis of glyphs from
//! quads.

pub mod batch;
pub mod glyph;

pub use self::batch::{
    corner_signs, corner_uv, quad_index_bytes, quad_indices, BatchState, DrawCall, QuadBatch,
    VertexWords, MAX_INDICES, MAX_QUADS, MAX_VERTICES, WORDS_PER_QUAD, WORDS_PER_VERTEX,
};
pub use self::glyph::{
    cell_offset, digit_segments, glyph_quads, number_glyphs, number_width, segment_quad,
    text_glyph,
    text_width, Glyph, GlyphQuad, CELL_HEIGHT, CELL_WIDTH, NUMBER_SPACING, STROKE, TEXT_SPACING,
    UNITS_PER_SCALE,
};
