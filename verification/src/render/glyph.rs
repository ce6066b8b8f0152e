//! Glyphs made of quads: seven-segment digits, a minus bar, a colon, two
//! block letters and a placeholder box.
//!
//! All lengths are whole numbers of units, twenty units to one length of
//! scale 1: a character cell is 12 wide and 20 high at scale 1, a stroke is
//! 2.5 thick, and every offset and size of a glyph is a whole number of
//! twentieths. A glyph's quads are placed relative to the cell's origin, the
//! middle of its left edge.

use vstd::prelude::*;

verus! {

/// Units in one length of scale 1.
pub const UNITS_PER_SCALE: i32 = 20;

/// The width of a character cell.
pub const CELL_WIDTH: i32 = 240;

/// The height of a character cell.
pub const CELL_HEIGHT: i32 = 400;

/// The thickness of a stroke.
pub const STROKE: i32 = 50;

/// The gap between two cells of a number.
pub const NUMBER_SPACING: i32 = 40;

/// The gap between two cells of a text.
pub const TEXT_SPACING: i32 = 60;

/// One axis-aligned quad of a glyph: its centre relative to the cell's
/// origin, and its size. A translucent quad is drawn with reduced opacity.
#[derive(Debug, Clone, Copy, PartialEq, Eq, Structural)]
pub struct GlyphQuad {
    pub cx: i32,
    pub cy: i32,
    pub width: i32,
    pub height: i32,
    pub translucent: bool,
}

/// What is drawn in one character cell.
#[derive(Debug, Clone, Copy, PartialEq, Eq, Structural)]
pub enum Glyph {
    /// A seven-segment digit; a value above 9 lights no segment.
    Digit(u8),
    /// The minus sign: a short horizontal bar.
    Minus,
    /// Two dots.
    Colon,
    /// Nothing.
    Space,
    LetterF,
    LetterP,
    /// The box that stands for a character outside the set.
    Placeholder,
}

/// Whether segment `segment` is lit in `digit`. The segments are numbered
/// A = 0 (top), B = 1 (upper right), C = 2 (lower right), D = 3 (bottom),
/// E = 4 (lower left), F = 5 (upper left), G = 6 (middle).
pub open spec fn segment_lit(digit: int, segment: int) -> bool {
    if segment == 0 {
        digit == 0 || digit == 2 || digit == 3 || digit == 5 || digit == 6 || digit == 7 || digit
            == 8 || digit == 9
    } else if segment == 1 {
        digit == 0 || digit == 1 || digit == 2 || digit == 3 || digit == 4 || digit == 7 || digit
            == 8 || digit == 9
    } else if segment == 2 {
        digit == 0 || digit == 1 || digit == 3 || digit == 4 || digit == 5 || digit == 6 || digit
            == 7 || digit == 8 || digit == 9
    } else if segment == 3 {
        digit == 0 || digit == 2 || digit == 3 || digit == 5 || digit == 6 || digit == 8 || digit
            == 9
    } else if segment == 4 {
        digit == 0 || digit == 2 || digit == 6 || digit == 8
    } else if segment == 5 {
        digit == 0 || digit == 4 || digit == 5 || digit == 6 || digit == 8 || digit == 9
    } else if segment == 6 {
        digit == 2 || digit == 3 || digit == 4 || digit == 5 || digit == 6 || digit == 8 || digit
            == 9
    } else {
        false
    }
}

/// The seven segments of `digit`, A first; none is lit for a value above 9.
pub fn digit_segments(digit: u8) -> (segments: [bool; 7])
    ensures
        forall|segment: int|
            0 <= segment < 7 ==> #[trigger] segments@[segment] == segment_lit(
                digit as int,
                segment,
            ),
{
    if digit == 0 {
        [true, true, true, true, true, true, false]
    } else if digit == 1 {
        [false, true, true, false, false, false, false]
    } else if digit == 2 {
        [true, true, false, true, true, false, true]
    } else if digit == 3 {
        [true, true, true, true, false, false, true]
    } else if digit == 4 {
        [false, true, true, false, false, true, true]
    } else if digit == 5 {
        [true, false, true, true, false, true, true]
    } else if digit == 6 {
        [true, false, true, true, true, true, true]
    } else if digit == 7 {
        [true, true, true, false, false, false, false]
    } else if digit == 8 {
        [true, true, true, true, true, true, true]
    } else if digit == 9 {
        [true, true, true, true, false, true, true]
    } else {
        [false, false, false, false, false, false, false]
    }
}

/// An opaque quad.
pub open spec fn solid(cx: int, cy: int, width: int, height: int) -> GlyphQuad {
    GlyphQuad {
        cx: cx as i32,
        cy: cy as i32,
        width: width as i32,
        height: height as i32,
        translucent: false,
    }
}

/// The quad of a segment. The horizontal segments A, G and D span the cell
/// between the two columns of vertical strokes, at the top, the middle and
/// the bottom; the vertical segments fill the upper or lower half of a
/// column but for the thickness of a stroke.
pub open spec fn segment_quad_spec(segment: int) -> GlyphQuad {
    let w = CELL_WIDTH as int;
    let h = CELL_HEIGHT as int;
    let t = STROKE as int;
    let cx = w / 2;
    if segment == 0 {
        solid(cx, h / 2 - t / 2, w - 2 * t, t)
    } else if segment == 1 {
        solid(cx + w / 2 - t / 2, h / 4, t, h / 2 - t)
    } else if segment == 2 {
        solid(cx + w / 2 - t / 2, -(h / 4), t, h / 2 - t)
    } else if segment == 3 {
        solid(cx, -(h / 2) + t / 2, w - 2 * t, t)
    } else if segment == 4 {
        solid(cx - w / 2 + t / 2, -(h / 4), t, h / 2 - t)
    } else if segment == 5 {
        solid(cx - w / 2 + t / 2, h / 4, t, h / 2 - t)
    } else {
        solid(cx, 0, w - 2 * t, t)
    }
}

/// The quad of segment `segment`.
pub fn segment_quad(segment: usize) -> (quad: GlyphQuad)
    requires
        segment < 7,
    ensures
        quad == segment_quad_spec(segment as int),
{
    if segment == 0 {
        GlyphQuad { cx: 120, cy: 175, width: 140, height: 50, translucent: false }
    } else if segment == 1 {
        GlyphQuad { cx: 215, cy: 100, width: 50, height: 150, translucent: false }
    } else if segment == 2 {
        GlyphQuad { cx: 215, cy: -100, width: 50, height: 150, translucent: false }
    } else if segment == 3 {
        GlyphQuad { cx: 120, cy: -175, width: 140, height: 50, translucent: false }
    } else if segment == 4 {
        GlyphQuad { cx: 25, cy: -100, width: 50, height: 150, translucent: false }
    } else if segment == 5 {
        GlyphQuad { cx: 25, cy: 100, width: 50, height: 150, translucent: false }
    } else {
        GlyphQuad { cx: 120, cy: 0, width: 140, height: 50, translucent: false }
    }
}

/// The quads of the lit segments of `digit` among the first `upto`
/// segments, A first.
pub open spec fn lit_quads(digit: int, upto: int) -> Seq<GlyphQuad>
    decreases upto,
{
    if upto <= 0 {
        Seq::empty()
    } else if segment_lit(digit, upto - 1) {
        lit_quads(digit, upto - 1).push(segment_quad_spec(upto - 1))
    } else {
        lit_quads(digit, upto - 1)
    }
}

/// The quads of a glyph, in the order in which they are drawn.
pub open spec fn glyph_quads_spec(glyph: Glyph) -> Seq<GlyphQuad> {
    let w = CELL_WIDTH as int;
    let h = CELL_HEIGHT as int;
    let t = STROKE as int;
    let cx = w / 2;
    match glyph {
        Glyph::Digit(digit) => lit_quads(digit as int, 7),
        Glyph::Minus => seq![solid(cx, 0, w * 6 / 10, 2 * UNITS_PER_SCALE)],
        Glyph::Colon => seq![
            solid(w * 3 / 10, 5 * UNITS_PER_SCALE, t, t),
            solid(w * 3 / 10, -5 * UNITS_PER_SCALE, t, t),
        ],
        Glyph::Space => Seq::empty(),
        Glyph::LetterF => seq![
            solid(cx, h / 2 - t / 2, w - t, t),
            solid(cx - w / 2 + t / 2, 0, t, h),
            solid(cx - t / 2, 0, w * 6 / 10, t),
        ],
        Glyph::LetterP => seq![
            solid(cx, h / 2 - t / 2, w - t, t),
            solid(cx - w / 2 + t / 2, 0, t, h),
            solid(cx + w / 2 - t / 2, h / 4, t, h / 2 - t),
            solid(cx, 0, w - t, t),
        ],
        Glyph::Placeholder => seq![
            GlyphQuad {
                cx: cx as i32,
                cy: 0,
                width: (w * 8 / 10) as i32,
                height: h as i32,
                translucent: true,
            },
        ],
    }
}

/// The quads of a glyph, in the order in which they are drawn.
pub fn glyph_quads(glyph: Glyph) -> (quads: Vec<GlyphQuad>)
    ensures
        quads@ == glyph_quads_spec(glyph),
{
    let mut quads: Vec<GlyphQuad> = Vec::new();
    match glyph {
        Glyph::Digit(digit) => {
            let segments = digit_segments(digit);
            let mut segment: usize = 0;
            while segment < 7
                invariant
                    segment <= 7,
                    quads@ == lit_quads(digit as int, segment as int),
                    forall|k: int|
                        0 <= k < 7 ==> #[trigger] segments@[k] == segment_lit(digit as int, k),
                decreases 7 - segment,
            {
                if segments[segment] {
                    quads.push(segment_quad(segment));
                }
                segment = segment + 1;
            }
        },
        Glyph::Minus => {
            quads.push(GlyphQuad { cx: 120, cy: 0, width: 144, height: 40, translucent: false });
        },
        Glyph::Colon => {
            quads.push(GlyphQuad { cx: 72, cy: 100, width: 50, height: 50, translucent: false });
            quads.push(GlyphQuad { cx: 72, cy: -100, width: 50, height: 50, translucent: false });
        },
        Glyph::Space => {},
        Glyph::LetterF => {
            quads.push(GlyphQuad { cx: 120, cy: 175, width: 190, height: 50, translucent: false });
            quads.push(GlyphQuad { cx: 25, cy: 0, width: 50, height: 400, translucent: false });
            quads.push(GlyphQuad { cx: 95, cy: 0, width: 144, height: 50, translucent: false });
        },
        Glyph::LetterP => {
            quads.push(GlyphQuad { cx: 120, cy: 175, width: 190, height: 50, translucent: false });
            quads.push(GlyphQuad { cx: 25, cy: 0, width: 50, height: 400, translucent: false });
            quads.push(
                GlyphQuad { cx: 215, cy: 100, width: 50, height: 150, translucent: false },
            );
            quads.push(GlyphQuad { cx: 120, cy: 0, width: 190, height: 50, translucent: false });
        },
        Glyph::Placeholder => {
            quads.push(GlyphQuad { cx: 120, cy: 0, width: 192, height: 400, translucent: true });
        },
    }
    assert(quads@ =~= glyph_quads_spec(glyph));
    quads
}

/// The glyph that a text shows for a character: digits, the colon, the
/// space and the letters F and P stand for themselves, S is drawn as the
/// digit 5, and every other character as the placeholder.
pub open spec fn text_glyph_spec(ch: char) -> Glyph {
    if '0' <= ch <= '9' {
        Glyph::Digit((ch as int - '0' as int) as u8)
    } else if ch == ':' {
        Glyph::Colon
    } else if ch == ' ' {
        Glyph::Space
    } else if ch == 'F' || ch == 'f' {
        Glyph::LetterF
    } else if ch == 'P' || ch == 'p' {
        Glyph::LetterP
    } else if ch == 'S' || ch == 's' {
        Glyph::Digit(5)
    } else {
        Glyph::Placeholder
    }
}

/// The glyph that a text shows for `ch`.
pub fn text_glyph(ch: char) -> (glyph: Glyph)
    ensures
        glyph == text_glyph_spec(ch),
{
    if ch >= '0' && ch <= '9' {
        let code: u32 = ch as u32;
        Glyph::Digit((code - 48) as u8)
    } else if ch == ':' {
        Glyph::Colon
    } else if ch == ' ' {
        Glyph::Space
    } else if ch == 'F' || ch == 'f' {
        Glyph::LetterF
    } else if ch == 'P' || ch == 'p' {
        Glyph::LetterP
    } else if ch == 'S' || ch == 's' {
        Glyph::Digit(5)
    } else {
        Glyph::Placeholder
    }
}

/// The decimal digits of `n`, the most significant first; one digit 0 for 0.
pub open spec fn decimal_digits(n: nat) -> Seq<u8>
    decreases n,
{
    if n < 10 {
        seq![n as u8]
    } else {
        decimal_digits(n / 10).push((n % 10) as u8)
    }
}

/// The glyphs of a number: a minus sign if it is negative, then the decimal
/// digits of its magnitude.
pub open spec fn number_glyphs_spec(number: int) -> Seq<Glyph> {
    let magnitude = if number < 0 {
        (-number) as nat
    } else {
        number as nat
    };
    let digits = decimal_digits(magnitude).map_values(|d: u8| Glyph::Digit(d));
    if number < 0 {
        seq![Glyph::Minus] + digits
    } else {
        digits
    }
}

/// The digits that are still to be split off: none once nothing is left.
spec fn leading_digits(rest: nat) -> Seq<u8> {
    if rest == 0 {
        Seq::empty()
    } else {
        decimal_digits(rest)
    }
}

spec fn reversed(s: Seq<u8>) -> Seq<u8> {
    Seq::new(s.len(), |j: int| s[s.len() - 1 - j])
}

/// The glyphs of `number`, one for each character of its decimal text.
pub fn number_glyphs(number: i32) -> (glyphs: Vec<Glyph>)
    ensures
        glyphs@ == number_glyphs_spec(number as int),
        1 <= glyphs@.len() <= 11,
{
    let negative = number < 0;
    let magnitude: u32 = if negative {
        (-(number as i64)) as u32
    } else {
        number as u32
    };
    let mut low: Vec<u8> = Vec::new();
    low.push((magnitude % 10) as u8);
    let mut rest: u32 = magnitude / 10;
    let mut bound: u32 = 1000000000;
    assert(leading_digits(rest as nat) + reversed(low@) =~= decimal_digits(magnitude as nat));
    while rest > 0
        invariant
            1 <= low@.len() <= 10,
            rest < bound,
            bound == 1000000000 || bound == 100000000 || bound == 10000000 || bound == 1000000
                || bound == 100000 || bound == 10000 || bound == 1000 || bound == 100 || bound
                == 10 || bound == 1,
            bound == 1000000000 ==> low@.len() == 1,
            bound == 100000000 ==> low@.len() == 2,
            bound == 10000000 ==> low@.len() == 3,
            bound == 1000000 ==> low@.len() == 4,
            bound == 100000 ==> low@.len() == 5,
            bound == 10000 ==> low@.len() == 6,
            bound == 1000 ==> low@.len() == 7,
            bound == 100 ==> low@.len() == 8,
            bound == 10 ==> low@.len() == 9,
            bound == 1 ==> low@.len() == 10,
            leading_digits(rest as nat) + reversed(low@) == decimal_digits(magnitude as nat),
        decreases rest,
    {
        let ghost before = low@;
        let digit = (rest % 10) as u8;
        low.push(digit);
        proof {
            assert(leading_digits(rest as nat) =~= leading_digits((rest / 10) as nat).push(digit));
            assert(reversed(low@) =~= seq![digit] + reversed(before));
            assert(leading_digits((rest / 10) as nat) + reversed(low@) =~= leading_digits(
                rest as nat,
            ) + reversed(before));
        }
        rest = rest / 10;
        bound = bound / 10;
    }
    assert(reversed(low@) =~= decimal_digits(magnitude as nat));
    let mut glyphs: Vec<Glyph> = Vec::new();
    if negative {
        glyphs.push(Glyph::Minus);
    }
    let ghost sign = glyphs@;
    let count = low.len();
    let mut k: usize = 0;
    while k < count
        invariant
            k <= count,
            count == low@.len(),
            reversed(low@) == decimal_digits(magnitude as nat),
            sign == if negative {
                seq![Glyph::Minus]
            } else {
                Seq::<Glyph>::empty()
            },
            glyphs@.len() == sign.len() + k,
            forall|j: int| 0 <= j < sign.len() ==> glyphs@[j] == sign[j],
            forall|j: int|
                0 <= j < k ==> #[trigger] glyphs@[sign.len() + j] == Glyph::Digit(
                    low@[count - 1 - j],
                ),
        decreases count - k,
    {
        glyphs.push(Glyph::Digit(low[count - 1 - k]));
        k = k + 1;
    }
    proof {
        let digits = decimal_digits(magnitude as nat).map_values(|d: u8| Glyph::Digit(d));
        assert forall|j: int| 0 <= j < count implies glyphs@[sign.len() + j] == digits[j] by {
            assert(reversed(low@)[j] == low@[count - 1 - j]);
        }
        assert(glyphs@ =~= sign + digits);
    }
    glyphs
}

/// How far the left edge of cell `index` of a row lies to the right of the
/// row's start, with `spacing` between the cells.
pub open spec fn cell_offset_spec(index: int, spacing: int) -> int {
    index * (CELL_WIDTH + spacing)
}

/// The offset of cell `index` of a number (`spacing == NUMBER_SPACING`) or
/// of a text (`spacing == TEXT_SPACING`).
pub fn cell_offset(index: u32, spacing: i32) -> (x: i64)
    requires
        spacing == NUMBER_SPACING || spacing == TEXT_SPACING,
    ensures
        x == index as int * (CELL_WIDTH as int + spacing as int),
        x == cell_offset_spec(index as int, spacing as int),
{
    if spacing == NUMBER_SPACING {
        (index as i64) * 280
    } else {
        (index as i64) * 300
    }
}

/// The width of `count` cells in a row with `spacing` between them: the
/// cells and the gaps between them, without a gap after the last. A row of
/// no cell has no gap to leave out, and its width is zero.
pub open spec fn row_width_spec(count: int, spacing: int) -> int {
    if count == 0 {
        0
    } else {
        count * (CELL_WIDTH + spacing) - spacing
    }
}

/// The width of a number of `count` glyphs.
pub fn number_width(count: u32) -> (width: i64)
    ensures
        width == row_width_spec(count as int, NUMBER_SPACING as int),
        width >= 0,
{
    if count == 0 {
        0
    } else {
        (count as i64) * 280 - 40
    }
}

/// The width of a text of `count` glyphs.
pub fn text_width(count: u32) -> (width: i64)
    ensures
        width == row_width_spec(count as int, TEXT_SPACING as int),
        width >= 0,
{
    if count == 0 {
        0
    } else {
        (count as i64) * 300 - 60
    }
}

} // verus!
