//! Glyph metrics and rasters, read from a fontdue font.
//!
//! The font itself is opaque: what the layout logic reads from it is
//! carried across the boundary as plain integer metrics. A fractional
//! advance width becomes its ceiling in whole pixels, the unit every
//! grid computation uses.

use vstd::prelude::*;

verus! {

use vstd::string::StrSliceExecFns;

/// Declares fontdue::Font to the verifier: an opaque, read-only font
/// resource that only the wrappers below look into.
#[verifier::external_type_specification]
#[verifier::external_body]
pub struct ExFont(fontdue::Font);

/// Layout metrics of one character at one size, in whole pixels.
#[derive(Clone, Copy, Debug, PartialEq, Eq, Structural)]
pub struct CharMetrics {
    /// Ceiling of the advance width: how far the cursor moves.
    pub advance: usize,
    /// Height of the glyph's bounding box.
    pub height: usize,
    /// Width of the glyph's bounding box.
    pub width: usize,
}

/// A rasterized glyph: its bounding box, cursor advance, and a
/// row-major coverage bitmap of `width * height` bytes, 0 for no
/// coverage up to 255 for full coverage.
#[derive(Clone, Debug)]
pub struct GlyphRaster {
    pub width: usize,
    pub height: usize,
    pub advance: usize,
    pub bitmap: Vec<u8>,
}

impl GlyphRaster {
    /// The bitmap holds one byte per bounding-box pixel.
    pub open spec fn wf(&self) -> bool {
        self.bitmap@.len() == self.width * self.height
    }
}

/// Relies on fontdue::Font::metrics: layout metrics for a character
/// at a size in pixels, a pure function of the font, the character
/// and the size; for a character the font lacks, the metrics of the
/// font's default character. Nothing quantitative is promised of it.
#[verifier::external_body]
pub(crate) fn char_metrics(font: &fontdue::Font, c: char, size: usize) -> CharMetrics {
    let m = font.metrics(c, size as _);
    CharMetrics { advance: m.advance_width.ceil() as usize, height: m.height, width: m.width }
}

/// Relies on fontdue::Font::rasterize: metrics and a coverage bitmap
/// for a character at a size in pixels; the bitmap starts at the top
/// left corner of the glyph and holds width * height coverage bytes.
#[verifier::external_body]
pub(crate) fn rasterize_glyph(font: &fontdue::Font, c: char, size: usize) -> (g: GlyphRaster)
    ensures
        g.wf(),
{
    let (m, bitmap) = font.rasterize(c, size as _);
    GlyphRaster {
        width: m.width,
        height: m.height,
        advance: m.advance_width.ceil() as usize,
        bitmap,
    }
}

/// Sum of the advance widths of a metrics sequence.
pub open spec fn sum_advances(ms: Seq<CharMetrics>) -> int
    decreases ms.len(),
{
    if ms.len() == 0 {
        0
    } else {
        sum_advances(ms.drop_last()) + ms.last().advance
    }
}

/// Largest glyph height of a metrics sequence, 0 when it is empty.
pub open spec fn max_height(ms: Seq<CharMetrics>) -> int
    decreases ms.len(),
{
    if ms.len() == 0 {
        0
    } else if ms.last().height >= max_height(ms.drop_last()) {
        ms.last().height as int
    } else {
        max_height(ms.drop_last())
    }
}

/// A value clamped to what a usize can hold.
pub open spec fn clamp_usize(x: int) -> int {
    if x > usize::MAX {
        usize::MAX as int
    } else {
        x
    }
}

/// Width of a text line: the advances summed, plus padding on each
/// side, saturating at the machine limit.
pub open spec fn spec_text_width(ms: Seq<CharMetrics>, padding: int) -> int {
    clamp_usize(sum_advances(ms) + 2 * padding)
}

/// Height of a text line: the tallest glyph, plus padding on each
/// side, saturating at the machine limit.
pub open spec fn spec_text_height(ms: Seq<CharMetrics>, padding: int) -> int {
    clamp_usize(max_height(ms) + 2 * padding)
}

/// The metrics of every character of a text at one size, in order.
pub fn text_metrics(text: &str, font: &fontdue::Font, size: usize) -> (ms: Vec<CharMetrics>)
    ensures
        ms@.len() == text@.len(),
{
    let n = text.unicode_len();
    let mut ms: Vec<CharMetrics> = Vec::new();
    let mut i: usize = 0;
    while i < n
        invariant
            n == text@.len(),
            i <= n,
            ms@.len() == i,
        decreases n - i,
    {
        let c = text.get_char(i);
        ms.push(char_metrics(font, c, size));
        i = i + 1;
    }
    ms
}

/// Bounding box of a text line from its per-character metrics: the
/// advances summed and the tallest glyph, each padded on both sides.
pub fn measure_metrics(ms: &Vec<CharMetrics>, padding: usize) -> (r: (usize, usize))
    ensures
        r.0 == spec_text_width(ms@, padding as int),
        r.1 == spec_text_height(ms@, padding as int),
{
    let mut total_width: usize = 0;
    let mut tallest: usize = 0;
    let mut i: usize = 0;
    proof {
        assert(ms@.take(0) =~= Seq::<CharMetrics>::empty());
    }
    while i < ms.len()
        invariant
            i <= ms@.len(),
            total_width == clamp_usize(sum_advances(ms@.take(i as int))),
            tallest == max_height(ms@.take(i as int)),
        decreases ms@.len() - i,
    {
        proof {
            assert(ms@.take(i + 1).drop_last() =~= ms@.take(i as int));
            assert(ms@.take(i + 1).last() == ms@[i as int]);
        }
        total_width = total_width.saturating_add(ms[i].advance);
        if ms[i].height > tallest {
            tallest = ms[i].height;
        }
        i = i + 1;
    }
    proof {
        assert(ms@.take(ms@.len() as int) =~= ms@);
    }
    let pad2 = padding.saturating_add(padding);
    (total_width.saturating_add(pad2), tallest.saturating_add(pad2))
}

} // verus!
