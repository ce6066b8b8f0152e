use grey_engine::render::{
    cell_offset, corner_signs, corner_uv, digit_segments, glyph_quads, number_glyphs,
    number_width,
    quad_index_bytes,
    quad_indices, segment_quad, text_glyph, text_width, Glyph, GlyphQuad, QuadBatch, VertexWords,
    CELL_HEIGHT, CELL_WIDTH, MAX_INDICES, MAX_QUADS, MAX_VERTICES, NUMBER_SPACING, STROKE,
    TEXT_SPACING, UNITS_PER_SCALE, WORDS_PER_QUAD, WORDS_PER_VERTEX,
};

fn vertex(x: f32, y: f32, u: f32, v: f32) -> VertexWords {
    VertexWords {
        x: x.to_bits(),
        y: y.to_bits(),
        u: u.to_bits(),
        v: v.to_bits(),
        r: 1.0f32.to_bits(),
        g: 0.5f32.to_bits(),
        b: 0.25f32.to_bits(),
        a: 1.0f32.to_bits(),
    }
}

fn unit_quad(offset: f32) -> [VertexWords; 4] {
    [
        vertex(offset - 0.5, -0.5, 0.0, 1.0),
        vertex(offset + 0.5, -0.5, 1.0, 1.0),
        vertex(offset + 0.5, 0.5, 1.0, 0.0),
        vertex(offset - 0.5, 0.5, 0.0, 0.0),
    ]
}

fn to_length(units: i32, scale: f32) -> f32 {
    units as f32 * scale / UNITS_PER_SCALE as f32
}

#[test]
fn batch_constants() {
    assert_eq!(MAX_QUADS, 10000);
    assert_eq!(MAX_VERTICES, 40000);
    assert_eq!(MAX_INDICES, 60000);
    assert_eq!(WORDS_PER_VERTEX, 8);
    assert_eq!(WORDS_PER_QUAD, 32);
}

#[test]
fn new_batch_is_empty() {
    let batch = QuadBatch::new();
    assert_eq!(batch.quad_count(), 0);
    assert_eq!(batch.index_count(), 0);
    assert!(batch.words().is_empty());
    assert!(batch.vertex_bytes().is_empty());
    assert!(!batch.is_full());
}

#[test]
fn push_quad_appends_four_vertices_in_order() {
    let mut batch = QuadBatch::new();
    assert!(batch.push_quad(unit_quad(0.0)));
    assert!(batch.push_quad(unit_quad(3.0)));
    assert_eq!(batch.quad_count(), 2);
    assert_eq!(batch.index_count(), 12);
    let words = batch.words();
    assert_eq!(words.len(), 64);
    assert_eq!(f32::from_bits(words[0]), -0.5);
    assert_eq!(f32::from_bits(words[1]), -0.5);
    assert_eq!(f32::from_bits(words[2]), 0.0);
    assert_eq!(f32::from_bits(words[3]), 1.0);
    assert_eq!(f32::from_bits(words[4]), 1.0);
    assert_eq!(f32::from_bits(words[5]), 0.5);
    assert_eq!(f32::from_bits(words[6]), 0.25);
    assert_eq!(f32::from_bits(words[7]), 1.0);
    assert_eq!(f32::from_bits(words[8]), 0.5);
    assert_eq!(f32::from_bits(words[24]), -0.5);
    assert_eq!(f32::from_bits(words[25]), 0.5);
    assert_eq!(f32::from_bits(words[32]), 2.5);
    assert_eq!(f32::from_bits(words[56]), 2.5);
    assert_eq!(f32::from_bits(words[57]), 0.5);
}

#[test]
fn draws_beyond_the_cap_are_dropped() {
    let mut batch = QuadBatch::new();
    batch.begin();
    for i in 0..MAX_QUADS {
        assert!(batch.push_quad(unit_quad(i as f32)));
    }
    assert_eq!(batch.quad_count(), MAX_QUADS);
    assert!(batch.is_full());
    let before: Vec<u32> = batch.words().to_vec();
    assert!(!batch.push_quad(unit_quad(-7.0)));
    assert_eq!(batch.quad_count(), MAX_QUADS);
    assert_eq!(batch.words(), &before[..]);
    assert_eq!(batch.words().len(), MAX_VERTICES * WORDS_PER_VERTEX);
    assert_eq!(batch.index_count(), 60000);
}

#[test]
fn begin_forgets_the_last_frame() {
    let mut batch = QuadBatch::new();
    batch.push_quad(unit_quad(0.0));
    batch.push_quad(unit_quad(1.0));
    batch.begin();
    assert_eq!(batch.quad_count(), 0);
    assert!(batch.words().is_empty());
    batch.push_quad(unit_quad(2.0));
    assert_eq!(batch.quad_count(), 1);
    assert_eq!(f32::from_bits(batch.words()[0]), 1.5);
}

#[test]
fn vertex_bytes_are_the_words_in_memory_order() {
    let mut batch = QuadBatch::new();
    batch.push_quad(unit_quad(0.0));
    let bytes = batch.vertex_bytes();
    assert_eq!(bytes.len(), 4 * 32);
    let mut expected = Vec::new();
    for word in batch.words() {
        expected.extend_from_slice(&word.to_ne_bytes());
    }
    assert_eq!(bytes, &expected[..]);
    assert_eq!(&bytes[0..4], &(-0.5f32).to_ne_bytes());
    let little: Vec<u8> = batch.words().iter().flat_map(|w| w.to_le_bytes()).collect();
    let big: Vec<u8> = batch.words().iter().flat_map(|w| w.to_be_bytes()).collect();
    assert!(bytes == &little[..] || bytes == &big[..]);
}

#[test]
fn index_pattern_is_two_triangles_for_each_quad() {
    let indices = quad_indices();
    assert_eq!(indices.len(), MAX_INDICES);
    assert_eq!(&indices[0..6], &[0, 1, 2, 0, 2, 3]);
    assert_eq!(&indices[6..12], &[4, 5, 6, 4, 6, 7]);
    assert_eq!(&indices[59994..60000], &[39996, 39997, 39998, 39996, 39998, 39999]);
    for quad in 0..MAX_QUADS {
        let base = (quad * 4) as u16;
        assert_eq!(
            &indices[quad * 6..quad * 6 + 6],
            &[base, base + 1, base + 2, base, base + 2, base + 3]
        );
    }
}

#[test]
fn index_bytes_are_the_indices_in_memory_order() {
    let indices = quad_indices();
    let bytes = quad_index_bytes(&indices);
    assert_eq!(bytes.len(), 2 * MAX_INDICES);
    assert_eq!(&bytes[2..4], &1u16.to_ne_bytes());
    assert_eq!(&bytes[119998..120000], &39999u16.to_ne_bytes());
    let little: Vec<u8> = indices.iter().flat_map(|i| i.to_le_bytes()).collect();
    let big: Vec<u8> = indices.iter().flat_map(|i| i.to_be_bytes()).collect();
    assert!(bytes == &little[..] || bytes == &big[..]);
}

#[test]
fn corners_run_counter_clockwise_from_bottom_left() {
    assert_eq!(corner_signs(0), (-1, -1));
    assert_eq!(corner_signs(1), (1, -1));
    assert_eq!(corner_signs(2), (1, 1));
    assert_eq!(corner_signs(3), (-1, 1));
    assert_eq!(corner_uv(0), (0, 1));
    assert_eq!(corner_uv(1), (1, 1));
    assert_eq!(corner_uv(2), (1, 0));
    assert_eq!(corner_uv(3), (0, 0));
}

#[test]
fn seven_segment_truth_table() {
    assert_eq!(digit_segments(0), [true, true, true, true, true, true, false]);
    assert_eq!(digit_segments(1), [false, true, true, false, false, false, false]);
    assert_eq!(digit_segments(2), [true, true, false, true, true, false, true]);
    assert_eq!(digit_segments(3), [true, true, true, true, false, false, true]);
    assert_eq!(digit_segments(4), [false, true, true, false, false, true, true]);
    assert_eq!(digit_segments(5), [true, false, true, true, false, true, true]);
    assert_eq!(digit_segments(6), [true, false, true, true, true, true, true]);
    assert_eq!(digit_segments(7), [true, true, true, false, false, false, false]);
    assert_eq!(digit_segments(8), [true, true, true, true, true, true, true]);
    assert_eq!(digit_segments(9), [true, true, true, true, false, true, true]);
    assert_eq!(digit_segments(10), [false; 7]);
    assert_eq!(digit_segments(255), [false; 7]);
}

#[test]
fn cell_measures_at_scale_one() {
    assert_eq!(to_length(CELL_WIDTH, 1.0), 12.0);
    assert_eq!(to_length(CELL_HEIGHT, 1.0), 20.0);
    assert_eq!(to_length(STROKE, 1.0), 2.5);
    assert_eq!(to_length(NUMBER_SPACING, 1.0), 2.0);
    assert_eq!(to_length(TEXT_SPACING, 1.0), 3.0);
}

#[test]
fn segment_geometry_at_scale_one() {
    let (w, h, t) = (12.0f32, 20.0f32, 2.5f32);
    let cx = w * 0.5;
    let expected = [
        (cx, h * 0.5 - t * 0.5, w - t * 2.0, t),
        (cx + w * 0.5 - t * 0.5, h * 0.25, t, h * 0.5 - t),
        (cx + w * 0.5 - t * 0.5, -h * 0.25, t, h * 0.5 - t),
        (cx, -h * 0.5 + t * 0.5, w - t * 2.0, t),
        (cx - w * 0.5 + t * 0.5, -h * 0.25, t, h * 0.5 - t),
        (cx - w * 0.5 + t * 0.5, h * 0.25, t, h * 0.5 - t),
        (cx, 0.0, w - t * 2.0, t),
    ];
    for segment in 0..7 {
        let quad = segment_quad(segment);
        let got = (
            to_length(quad.cx, 1.0),
            to_length(quad.cy, 1.0),
            to_length(quad.width, 1.0),
            to_length(quad.height, 1.0),
        );
        assert_eq!(got, expected[segment]);
        assert!(!quad.translucent);
    }
    assert_eq!(
        segment_quad(0),
        GlyphQuad { cx: 120, cy: 175, width: 140, height: 50, translucent: false }
    );
}

#[test]
fn minus_five_is_a_bar_and_the_segments_of_five() {
    let glyphs = number_glyphs(-5);
    assert_eq!(glyphs, vec![Glyph::Minus, Glyph::Digit(5)]);
    let bar = glyph_quads(glyphs[0]);
    assert_eq!(bar.len(), 1);
    assert_eq!(to_length(bar[0].cx, 1.0), 6.0);
    assert_eq!(to_length(bar[0].cy, 1.0), 0.0);
    assert!((to_length(bar[0].width, 1.0) - 12.0 * 0.6).abs() < 1e-5);
    assert_eq!(to_length(bar[0].height, 1.0), 2.0);
    let five = glyph_quads(glyphs[1]);
    assert_eq!(
        five,
        vec![segment_quad(0), segment_quad(2), segment_quad(3), segment_quad(5), segment_quad(6)]
    );
    assert!(!five.contains(&segment_quad(1)));
    assert!(!five.contains(&segment_quad(4)));
    assert_eq!(number_width(2), 520);
    assert_eq!(to_length(520, 1.0), 26.0);
}

#[test]
fn number_glyphs_are_the_decimal_text() {
    assert_eq!(number_glyphs(0), vec![Glyph::Digit(0)]);
    assert_eq!(number_glyphs(7), vec![Glyph::Digit(7)]);
    assert_eq!(number_glyphs(10), vec![Glyph::Digit(1), Glyph::Digit(0)]);
    assert_eq!(
        number_glyphs(1234),
        vec![Glyph::Digit(1), Glyph::Digit(2), Glyph::Digit(3), Glyph::Digit(4)]
    );
    assert_eq!(number_glyphs(-90), vec![Glyph::Minus, Glyph::Digit(9), Glyph::Digit(0)]);
    let expect = |text: &str| -> Vec<Glyph> {
        text.chars()
            .map(|c| if c == '-' { Glyph::Minus } else { Glyph::Digit(c as u8 - b'0') })
            .collect()
    };
    assert_eq!(number_glyphs(i32::MAX), expect("2147483647"));
    assert_eq!(number_glyphs(i32::MIN), expect("-2147483648"));
    assert_eq!(number_glyphs(i32::MIN).len(), 11);
    for n in [-1000001, -100, -11, -1, 1, 9, 99, 100, 101, 65536, 999999999, 1000000000] {
        assert_eq!(number_glyphs(n), expect(&format!("{}", n)));
    }
}

#[test]
fn each_glyph_has_its_quads() {
    assert_eq!(glyph_quads(Glyph::Space), vec![]);
    assert_eq!(glyph_quads(Glyph::Digit(8)).len(), 7);
    assert_eq!(glyph_quads(Glyph::Digit(1)), vec![segment_quad(1), segment_quad(2)]);
    assert_eq!(glyph_quads(Glyph::Digit(12)), vec![]);
    assert_eq!(
        glyph_quads(Glyph::Colon),
        vec![
            GlyphQuad { cx: 72, cy: 100, width: 50, height: 50, translucent: false },
            GlyphQuad { cx: 72, cy: -100, width: 50, height: 50, translucent: false },
        ]
    );
    assert_eq!(
        glyph_quads(Glyph::LetterF),
        vec![
            GlyphQuad { cx: 120, cy: 175, width: 190, height: 50, translucent: false },
            GlyphQuad { cx: 25, cy: 0, width: 50, height: 400, translucent: false },
            GlyphQuad { cx: 95, cy: 0, width: 144, height: 50, translucent: false },
        ]
    );
    assert_eq!(
        glyph_quads(Glyph::LetterP),
        vec![
            GlyphQuad { cx: 120, cy: 175, width: 190, height: 50, translucent: false },
            GlyphQuad { cx: 25, cy: 0, width: 50, height: 400, translucent: false },
            GlyphQuad { cx: 215, cy: 100, width: 50, height: 150, translucent: false },
            GlyphQuad { cx: 120, cy: 0, width: 190, height: 50, translucent: false },
        ]
    );
    assert_eq!(
        glyph_quads(Glyph::Placeholder),
        vec![GlyphQuad { cx: 120, cy: 0, width: 192, height: 400, translucent: true }]
    );
}

#[test]
fn text_characters_map_to_glyphs() {
    for (i, ch) in "0123456789".chars().enumerate() {
        assert_eq!(text_glyph(ch), Glyph::Digit(i as u8));
    }
    assert_eq!(text_glyph(':'), Glyph::Colon);
    assert_eq!(text_glyph(' '), Glyph::Space);
    assert_eq!(text_glyph('F'), Glyph::LetterF);
    assert_eq!(text_glyph('f'), Glyph::LetterF);
    assert_eq!(text_glyph('P'), Glyph::LetterP);
    assert_eq!(text_glyph('p'), Glyph::LetterP);
    assert_eq!(text_glyph('S'), Glyph::Digit(5));
    assert_eq!(text_glyph('s'), Glyph::Digit(5));
    assert_eq!(text_glyph('x'), Glyph::Placeholder);
    assert_eq!(text_glyph('-'), Glyph::Placeholder);
    assert_eq!(text_glyph('/'), Glyph::Placeholder);
    assert_eq!(text_glyph(';'), Glyph::Placeholder);
    assert_eq!(text_glyph('\u{e9}'), Glyph::Placeholder);
}

#[test]
fn widths_leave_out_the_trailing_gap() {
    assert_eq!(number_width(1), 240);
    assert_eq!(number_width(3), 3 * 280 - 40);
    assert_eq!(number_width(0), 0);
    assert_eq!(text_width(1), 240);
    assert_eq!(text_width(3), 840);
    assert_eq!(to_length(840, 1.0), 42.0);
    assert_eq!(text_width(0), 0);
    assert_eq!(to_length(text_width(0) as i32, 1.0), 0.0);
    assert_eq!(text_width(u32::MAX), 300 * (u32::MAX as i64) - 60);
}

#[test]
fn flush_of_an_empty_batch_is_a_no_op() {
    let mut batch = QuadBatch::new();
    assert!(batch.flush().is_none());
    batch.push_quad(unit_quad(0.0));
    batch.begin();
    assert!(batch.flush().is_none());
}

#[test]
fn flush_is_one_upload_and_one_draw_for_all_quads() {
    let mut batch = QuadBatch::new();
    batch.push_quad(unit_quad(0.0));
    batch.push_quad(unit_quad(1.0));
    batch.push_quad(unit_quad(2.0));
    let call = batch.flush().expect("three quads were recorded");
    assert_eq!(call.index_count, 18);
    assert_eq!(call.vertex_bytes.len(), 3 * 4 * 8 * 4);
    assert_eq!(call.vertex_bytes, batch.vertex_bytes());
}

#[test]
fn an_empty_row_has_no_width() {
    assert_eq!(text_width(0), 0);
    assert_eq!(number_width(0), 0);
    assert!(text_width(1) > 0);
    assert!(number_width(1) > 0);
}

#[test]
fn cells_are_placed_one_cell_and_one_gap_apart() {
    assert_eq!(cell_offset(0, NUMBER_SPACING), 0);
    assert_eq!(cell_offset(1, NUMBER_SPACING), 280);
    assert_eq!(cell_offset(2, NUMBER_SPACING), 560);
    assert_eq!(cell_offset(0, TEXT_SPACING), 0);
    assert_eq!(cell_offset(1, TEXT_SPACING), 300);
    assert_eq!(cell_offset(7, TEXT_SPACING), 2100);
    assert_eq!(cell_offset(u32::MAX, TEXT_SPACING), 300 * (u32::MAX as i64));
    assert_eq!(to_length(280, 1.0), 14.0);
    assert_eq!(to_length(300, 1.0), 15.0);
    for count in 1..20u32 {
        assert_eq!(
            number_width(count),
            cell_offset(count - 1, NUMBER_SPACING) + CELL_WIDTH as i64
        );
        assert_eq!(text_width(count), cell_offset(count - 1, TEXT_SPACING) + CELL_WIDTH as i64);
    }
}

#[test]
fn the_digit_of_minus_five_stands_in_the_second_cell() {
    let glyphs = number_glyphs(-5);
    assert_eq!(glyphs.len(), 2);
    assert_eq!(cell_offset(0, NUMBER_SPACING), 0);
    let second = cell_offset(1, NUMBER_SPACING);
    assert_eq!(to_length(second as i32, 1.0), 14.0);
    let top = glyph_quads(glyphs[1])[0];
    assert_eq!(to_length(second as i32 + top.cx, 1.0), 20.0);
    assert_eq!(to_length(number_width(2) as i32, 1.0), 26.0);
}
