//! Silhouette construction: the shape text is rasterized, centered
//! on the canvas interior, and painted into an occupancy grid; an
//! auto-fit search picks the largest size whose rendering fits the
//! interior.

use vstd::prelude::*;

use crate::font::{
    clamp_usize, measure_metrics, rasterize_glyph, spec_text_height, spec_text_width,
    text_metrics, CharMetrics, GlyphRaster,
};
use crate::grid::{lemma_count_le_total, lemma_count_zero, OccupancyGrid};

verus! {

use vstd::string::StrSliceExecFns;

/// Canvas dimensions in pixels, with a margin kept clear on each side.
#[derive(Clone, Copy, Debug, PartialEq, Eq, Structural)]
pub struct CanvasConfig {
    pub width: usize,
    pub height: usize,
    pub margin: usize,
}

/// Interior length left of a canvas dimension once the margin is
/// taken off both ends; zero when the margin swallows it.
pub open spec fn spec_avail(dim: int, margin: int) -> int {
    if dim > 2 * margin {
        dim - 2 * margin
    } else {
        0
    }
}

/// Interior length of one canvas dimension.
pub fn avail(dim: usize, margin: usize) -> (r: usize)
    ensures
        r == spec_avail(dim as int, margin as int),
{
    dim.saturating_sub(margin.saturating_add(margin))
}

/// A font size request: fixed in pixels, or still to be resolved
/// against the canvas by the auto-fit search.
#[derive(Clone, Copy, Debug, PartialEq, Eq, Structural)]
pub enum FontSize {
    Fixed(usize),
    AutoFit,
}

impl core::convert::From<usize> for FontSize {
    fn from(size: usize) -> (r: FontSize) {
        FontSize::Fixed(size)
    }
}

impl vstd::std_specs::convert::FromSpecImpl<usize> for FontSize {
    open spec fn obeys_from_spec() -> bool {
        true
    }

    open spec fn from_spec(t: usize) -> FontSize {
        FontSize::Fixed(t)
    }
}

/// The text whose rendering forms the silhouette, with its font and
/// its size. The size must be resolved to `Fixed` before the mask is
/// built.
pub struct ShapeConfig {
    pub text: String,
    pub font: fontdue::Font,
    pub font_size: FontSize,
}

impl ShapeConfig {
    /// The resolved size. Only a resolved configuration may ask for
    /// it: the unresolved state is kept out by the precondition.
    pub fn get_font_size(&self) -> (s: usize)
        requires
            self.font_size is Fixed,
        ensures
            s == self.font_size->0,
    {
        match self.font_size {
            FontSize::Fixed(size) => size,
            FontSize::AutoFit => 0,
        }
    }
}

/// Bounding box of `text` at a fixed size: per-character metrics are
/// read from the font and aggregated, with padding on each side.
pub fn calculate_text_size(text: &str, font: &fontdue::Font, font_size: FontSize, padding: usize)
    -> (r: (usize, usize))
    requires
        font_size is Fixed,
    ensures
        exists|ms: Seq<CharMetrics>|
            ms.len() == text@.len() && r.0 == spec_text_width(ms, padding as int) && r.1
                == spec_text_height(ms, padding as int),
{
    let size = match font_size {
        FontSize::Fixed(s) => s,
        FontSize::AutoFit => 0,
    };
    let ms = text_metrics(text, font, size);
    let r = measure_metrics(&ms, padding);
    proof {
        assert(ms@.len() == text@.len() && r.0 == spec_text_width(ms@, padding as int) && r.1
            == spec_text_height(ms@, padding as int));
    }
    r
}

/// Size `s` fits the interior: measured width and height at `s` are
/// within the available width and height.
pub open spec fn size_fits(
    widths: Seq<usize>,
    heights: Seq<usize>,
    avail_w: int,
    avail_h: int,
    s: int,
) -> bool {
    widths[s] <= avail_w && heights[s] <= avail_h
}

/// The measurement tables never shrink as the size grows.
pub open spec fn sizes_monotone(widths: Seq<usize>, heights: Seq<usize>) -> bool {
    forall|i: int, j: int|
        1 <= i <= j < widths.len() ==> (#[trigger] widths[i]) <= (#[trigger] widths[j])
            && heights[i] <= heights[j]
}

/// One consequence of monotone tables, for a pair of sizes.
proof fn lemma_mono_pair(widths: Seq<usize>, heights: Seq<usize>, i: int, j: int)
    requires
        sizes_monotone(widths, heights),
        heights.len() == widths.len(),
        1 <= i <= j < widths.len(),
    ensures
        widths[i] <= widths[j],
        heights[i] <= heights[j],
{
    assert((#[trigger] widths[i]) <= (#[trigger] widths[j]) && heights[i] <= heights[j]);
}

/// Binary search for the largest size in `[1, avail_h]` that fits the
/// interior, given the measured width and height of the text at every
/// candidate size (entry `s` of each table is the measure at size
/// `s`; entry 0 is unused). Returns 1 when nothing fits. Assuming the
/// tables are monotone, the result is maximal-feasible: it fits, and
/// no larger candidate does.
pub fn solve_font_size(widths: &Vec<usize>, heights: &Vec<usize>, avail_w: usize, avail_h: usize)
    -> (best: usize)
    requires
        widths@.len() == heights@.len(),
        widths@.len() == avail_h + 1,
    ensures
        1 <= best,
        best <= avail_h || best == 1,
        best == 1 || size_fits(widths@, heights@, avail_w as int, avail_h as int, best as int),
        sizes_monotone(widths@, heights@) && avail_h >= 1 && size_fits(
            widths@,
            heights@,
            avail_w as int,
            avail_h as int,
            1,
        ) ==> size_fits(widths@, heights@, avail_w as int, avail_h as int, best as int) && (best
            == avail_h || !size_fits(
            widths@,
            heights@,
            avail_w as int,
            avail_h as int,
            best + 1,
        )),
        sizes_monotone(widths@, heights@) && avail_h >= 1 && !size_fits(
            widths@,
            heights@,
            avail_w as int,
            avail_h as int,
            1,
        ) ==> best == 1,
{
    let ghost ws = widths@;
    let ghost hs = heights@;
    let ghost aw = avail_w as int;
    let ghost ah = avail_h as int;
    let table_len = widths.len();
    assert(table_len == ah + 1);
    assert(ah < usize::MAX);
    let mut low: usize = 1;
    let mut high: usize = avail_h;
    let mut best: usize = 1;
    while low <= high
        invariant
            widths@ == ws,
            heights@ == hs,
            ws.len() == hs.len(),
            ws.len() == ah + 1,
            aw == avail_w as int,
            ah == avail_h as int,
            ah < usize::MAX,
            1 <= low,
            high <= avail_h,
            best == 1 || (1 <= best <= avail_h && size_fits(ws, hs, aw, ah, best as int)),
            sizes_monotone(ws, hs) ==> forall|s: int|
                high < s <= ah ==> !size_fits(ws, hs, aw, ah, s),
            sizes_monotone(ws, hs) ==> forall|s: int| 1 <= s < low ==> size_fits(ws, hs, aw, ah, s),
            sizes_monotone(ws, hs) && low > 1 ==> best == low - 1,
        decreases high + 1 - low,
    {
        let mid = low + (high - low) / 2;
        if widths[mid] <= avail_w && heights[mid] <= avail_h {
            proof {
                if sizes_monotone(ws, hs) {
                    assert forall|s: int| 1 <= s < mid + 1 implies size_fits(ws, hs, aw, ah, s) by {
                        lemma_mono_pair(ws, hs, s, mid as int);
                    }
                }
            }
            best = mid;
            low = mid + 1;
        } else {
            proof {
                if sizes_monotone(ws, hs) {
                    assert forall|s: int| mid - 1 < s <= ah implies !size_fits(ws, hs, aw, ah, s)
                        by {
                        lemma_mono_pair(ws, hs, mid as int, s);
                    }
                }
            }
            high = mid - 1;
        }
    }
    proof {
        if sizes_monotone(ws, hs) && avail_h >= 1 && size_fits(ws, hs, aw, ah, 1) {
            assert(low > 1);
        }
    }
    best
}

/// The largest font size at which the shape text fits the canvas
/// interior: measures the text at every candidate size in
/// `[1, interior height]` and runs the maximal-feasible search over
/// the resulting tables. Returns 1 when the interior is empty or
/// nothing fits.
pub fn calculate_auto_font_size(canvas: &CanvasConfig, text: &str, font: &fontdue::Font) -> (s:
    usize)
    requires
        canvas.height < usize::MAX,
    ensures
        1 <= s,
        s <= spec_avail(canvas.height as int, canvas.margin as int) || s == 1,
{
    let avail_w = avail(canvas.width, canvas.margin);
    let avail_h = avail(canvas.height, canvas.margin);
    let mut widths: Vec<usize> = Vec::new();
    let mut heights: Vec<usize> = Vec::new();
    widths.push(0);
    heights.push(0);
    let mut size: usize = 1;
    while size <= avail_h
        invariant
            avail_h == spec_avail(canvas.height as int, canvas.margin as int),
            avail_h < usize::MAX,
            1 <= size,
            size <= avail_h + 1,
            widths@.len() == size,
            heights@.len() == size,
        decreases avail_h + 1 - size,
    {
        let ms = text_metrics(text, font, size);
        let (w, h) = measure_metrics(&ms, 0);
        widths.push(w);
        heights.push(h);
        size = size + 1;
    }
    solve_font_size(&widths, &heights, avail_w, avail_h)
}

/// Whether the raster of one glyph, anchored with its top-left pixel
/// at `(bx, by)`, covers the canvas cell `(r, c)` with an intensity
/// above the threshold.
pub open spec fn glyph_paints_at(g: GlyphRaster, bx: int, by: int, r: int, c: int) -> bool {
    let gy = r - by;
    let gx = c - bx;
    &&& 0 <= gy < g.height
    &&& 0 <= gx < g.width
    &&& g.bitmap@[gy * g.width + gx] > 127
}

/// As `glyph_paints_at`, restricted to the pixels scanned strictly
/// before row `y`, column `x` of the glyph (row-major order).
pub open spec fn glyph_paints_before(
    g: GlyphRaster,
    bx: int,
    by: int,
    y: int,
    x: int,
    r: int,
    c: int,
) -> bool {
    let gy = r - by;
    let gx = c - bx;
    &&& 0 <= gy < g.height
    &&& 0 <= gx < g.width
    &&& (gy < y || (gy == y && gx < x))
    &&& g.bitmap@[gy * g.width + gx] > 127
}

/// Sum of the cursor advances of the first `i` glyphs.
pub open spec fn advance_prefix(gs: Seq<GlyphRaster>, i: int) -> int
    decreases i,
{
    if i <= 0 {
        0
    } else {
        advance_prefix(gs, i - 1) + gs[i - 1].advance
    }
}

/// Whether glyph `i`, at its cursor position, paints cell `(r, c)`.
pub open spec fn painted_by(gs: Seq<GlyphRaster>, i: int, ox: int, oy: int, r: int, c: int) -> bool {
    glyph_paints_at(gs[i], ox + advance_prefix(gs, i), oy, r, c)
}

/// Whether any of the first `k` glyphs paints cell `(r, c)`.
pub open spec fn painted_upto(gs: Seq<GlyphRaster>, k: int, ox: int, oy: int, r: int, c: int) -> bool {
    exists|i: int| 0 <= i < k && #[trigger] painted_by(gs, i, ox, oy, r, c)
}

/// Marks every cell covered by a bright enough pixel of the glyph
/// anchored at `(base_x, base_y)`; pixels outside the grid are
/// dropped.
pub fn paint_one_glyph(grid: &mut OccupancyGrid, base_x: usize, base_y: usize, g: &GlyphRaster)
    requires
        old(grid).wf(),
        g.wf(),
    ensures
        final(grid).wf(),
        final(grid).spec_height() == old(grid).spec_height(),
        final(grid).spec_width() == old(grid).spec_width(),
        forall|r: int, c: int|
            0 <= r < old(grid).spec_height() && 0 <= c < old(grid).spec_width()
                ==> final(grid).cell(r, c) == (old(grid).cell(r, c) || glyph_paints_at(
                *g,
                base_x as int,
                base_y as int,
                r,
                c,
            )),
{
    let ghost g0 = *grid;
    let ghost height = grid.spec_height() as int;
    let ghost width = grid.spec_width() as int;
    let mut y: usize = 0;
    while y < g.height
        invariant
            grid.wf(),
            g.wf(),
            grid.spec_height() as int == height,
            grid.spec_width() as int == width,
            g0.wf(),
            g0.spec_height() as int == height,
            g0.spec_width() as int == width,
            y <= g.height,
            forall|r: int, c: int|
                0 <= r < height && 0 <= c < width ==> grid.cell(r, c) == (g0.cell(r, c)
                    || glyph_paints_before(*g, base_x as int, base_y as int, y as int, 0, r, c)),
        decreases g.height - y,
    {
        let mut x: usize = 0;
        while x < g.width
            invariant
                grid.wf(),
                g.wf(),
                grid.spec_height() as int == height,
                grid.spec_width() as int == width,
                g0.wf(),
                g0.spec_height() as int == height,
                g0.spec_width() as int == width,
                y < g.height,
                x <= g.width,
                forall|r: int, c: int|
                    0 <= r < height && 0 <= c < width ==> grid.cell(r, c) == (g0.cell(r, c)
                        || glyph_paints_before(
                        *g,
                        base_x as int,
                        base_y as int,
                        y as int,
                        x as int,
                        r,
                        c,
                    )),
            decreases g.width - x,
        {
            let blen = g.bitmap.len();
            proof {
                assert((y as int) * (g.width as int) + (x as int) < (g.width as int) * (
                g.height as int)) by (nonlinear_arith)
                    requires
                        0 <= (y as int) < (g.height as int),
                        0 <= (x as int) < (g.width as int),
                ;
                assert(blen == (g.width as int) * (g.height as int));
            }
            let idx = y * g.width + x;
            let px = g.bitmap[idx];
            let ghost pre = *grid;
            proof {
                assert(forall|r: int, c: int|
                    0 <= r < height && 0 <= c < width ==> pre.cell(r, c) == (g0.cell(r, c)
                        || glyph_paints_before(
                        *g,
                        base_x as int,
                        base_y as int,
                        y as int,
                        x as int,
                        r,
                        c,
                    )));
            }
            if px > 127 {
                if let Some(rr) = base_y.checked_add(y) {
                    if let Some(cc) = base_x.checked_add(x) {
                        if rr < grid.height() && cc < grid.width() {
                            grid.set(rr, cc, true);
                        }
                    }
                }
            }
            proof {
                let bx = base_x as int;
                let by = base_y as int;
                assert forall|r: int, c: int| 0 <= r < height && 0 <= c < width implies grid.cell(
                    r,
                    c,
                ) == (g0.cell(r, c) || glyph_paints_before(
                    *g,
                    bx,
                    by,
                    y as int,
                    x + 1,
                    r,
                    c,
                )) by {
                    if r == by + y && c == bx + x && px > 127 {
                        assert(grid.cell(r, c));
                        assert(g.bitmap@[(r - by) * g.width + (c - bx)] > 127);
                        assert(glyph_paints_before(*g, bx, by, y as int, x + 1, r, c));
                    } else {
                        assert(grid.cell(r, c) == pre.cell(r, c));
                        assert(pre.cell(r, c) == (g0.cell(r, c) || glyph_paints_before(
                            *g,
                            bx,
                            by,
                            y as int,
                            x as int,
                            r,
                            c,
                        )));
                        assert(glyph_paints_before(*g, bx, by, y as int, x + 1, r, c)
                            == glyph_paints_before(*g, bx, by, y as int, x as int, r, c));
                    }
                }
            }
            x = x + 1;
        }
        let ghost yprev = y as int;
        y = y + 1;
        proof {
            let bx = base_x as int;
            let by = base_y as int;
            assert(forall|r: int, c: int|
                0 <= r < height && 0 <= c < width ==> grid.cell(r, c) == (g0.cell(r, c)
                    || glyph_paints_before(*g, bx, by, yprev, g.width as int, r, c)));
            assert forall|r: int, c: int| 0 <= r < height && 0 <= c < width implies grid.cell(r, c)
                == (g0.cell(r, c) || glyph_paints_before(*g, bx, by, y as int, 0, r, c)) by {
                assert(grid.cell(r, c) == (g0.cell(r, c) || glyph_paints_before(
                    *g,
                    bx,
                    by,
                    yprev,
                    g.width as int,
                    r,
                    c,
                )));
                assert(glyph_paints_before(*g, bx, by, yprev, g.width as int, r, c)
                    == glyph_paints_before(*g, bx, by, y as int, 0, r, c));
            }
        }
    }
    proof {
        assert forall|r: int, c: int| 0 <= r < height && 0 <= c < width implies grid.cell(r, c) == (
        g0.cell(r, c) || glyph_paints_at(*g, base_x as int, base_y as int, r, c)) by {
            assert(grid.cell(r, c) == (g0.cell(r, c) || glyph_paints_before(
                *g,
                base_x as int,
                base_y as int,
                g.height as int,
                0,
                r,
                c,
            )));
        }
    }
}

/// Paints a row of glyph rasters into the grid: the first glyph is
/// anchored at `(off_x, off_y)`, each following one at the cursor
/// advanced by the previous glyph's advance width.
pub fn paint_glyphs(grid: &mut OccupancyGrid, off_x: usize, off_y: usize, gs: &Vec<GlyphRaster>)
    requires
        old(grid).wf(),
        forall|i: int| 0 <= i < gs@.len() ==> (#[trigger] gs@[i]).wf(),
    ensures
        final(grid).wf(),
        final(grid).spec_height() == old(grid).spec_height(),
        final(grid).spec_width() == old(grid).spec_width(),
        forall|r: int, c: int|
            0 <= r < old(grid).spec_height() && 0 <= c < old(grid).spec_width()
                ==> final(grid).cell(r, c) == (old(grid).cell(r, c) || painted_upto(
                gs@,
                gs@.len() as int,
                off_x as int,
                off_y as int,
                r,
                c,
            )),
{
    let ghost g0 = *grid;
    let ghost height = grid.spec_height() as int;
    let ghost width = grid.spec_width() as int;
    let mut cur_x: usize = off_x;
    let mut i: usize = 0;
    while i < gs.len()
        invariant
            grid.wf(),
            grid.spec_height() as int == height,
            grid.spec_width() as int == width,
            g0.wf(),
            g0.spec_height() as int == height,
            g0.spec_width() as int == width,
            i <= gs@.len(),
            forall|k: int| 0 <= k < gs@.len() ==> (#[trigger] gs@[k]).wf(),
            cur_x == clamp_usize(off_x + advance_prefix(gs@, i as int)),
            forall|r: int, c: int|
                0 <= r < height && 0 <= c < width ==> grid.cell(r, c) == (g0.cell(r, c)
                    || painted_upto(gs@, i as int, off_x as int, off_y as int, r, c)),
        decreases gs@.len() - i,
    {
        let ghost mid = *grid;
        let ghost base = off_x + advance_prefix(gs@, i as int);
        let ghost ox = off_x as int;
        let ghost oy = off_y as int;
        paint_one_glyph(grid, cur_x, off_y, &gs[i]);
        proof {
            assert(advance_prefix(gs@, i + 1) == advance_prefix(gs@, i as int)
                + gs@[i as int].advance);
            assert(forall|r: int, c: int|
                0 <= r < height && 0 <= c < width ==> mid.cell(r, c) == (g0.cell(r, c)
                    || painted_upto(gs@, i as int, ox, oy, r, c)));
            assert(forall|r: int, c: int|
                0 <= r < height && 0 <= c < width ==> grid.cell(r, c) == (mid.cell(r, c)
                    || glyph_paints_at(gs@[i as int], cur_x as int, oy, r, c)));
            assert forall|r: int, c: int| 0 <= r < height && 0 <= c < width implies grid.cell(r, c)
                == (g0.cell(r, c) || painted_upto(gs@, i + 1, ox, oy, r, c)) by {
                if grid.cell(r, c) {
                    if mid.cell(r, c) {
                        if !g0.cell(r, c) {
                            let w = choose|k: int|
                                0 <= k < i && #[trigger] painted_by(gs@, k, ox, oy, r, c);
                            assert(painted_by(gs@, w, ox, oy, r, c));
                            assert(painted_upto(gs@, i + 1, ox, oy, r, c));
                        }
                    } else {
                        assert(glyph_paints_at(gs@[i as int], cur_x as int, oy, r, c));
                        if base <= usize::MAX {
                            assert(cur_x as int == base);
                            assert(painted_by(gs@, i as int, ox, oy, r, c));
                        } else {
                            assert(cur_x == usize::MAX);
                            assert(c - cur_x < 0);
                            assert(false);
                        }
                        assert(painted_upto(gs@, i + 1, ox, oy, r, c));
                    }
                } else {
                    assert(!mid.cell(r, c));
                    assert(!g0.cell(r, c));
                    assert forall|k: int| 0 <= k < i + 1 implies !painted_by(
                        gs@,
                        k,
                        ox,
                        oy,
                        r,
                        c,
                    ) by {
                        if k < i {
                            assert(!painted_upto(gs@, i as int, ox, oy, r, c));
                        } else {
                            assert(!glyph_paints_at(gs@[i as int], cur_x as int, oy, r, c));
                            if base <= usize::MAX {
                                assert(cur_x as int == base);
                            } else {
                                assert(cur_x == usize::MAX);
                                assert(c < width <= usize::MAX);
                            }
                        }
                    }
                }
            }
        }
        cur_x = cur_x.saturating_add(gs[i].advance);
        i = i + 1;
    }
}

/// Builds the occupancy grid for the canvas: the shape text is
/// rasterized at its resolved size, centered on the canvas interior,
/// and painted; pixels falling outside the grid are dropped. An empty
/// interior (margin at least half of a canvas dimension) yields an
/// all-false grid.
pub fn calculate_mask(canvas: &CanvasConfig, shape: &ShapeConfig) -> (g: OccupancyGrid)
    requires
        shape.font_size is Fixed,
        canvas.height * canvas.width <= usize::MAX,
    ensures
        g.wf(),
        g.spec_height() == canvas.height,
        g.spec_width() == canvas.width,
        g.spec_count() <= canvas.height * canvas.width,
        spec_avail(canvas.width as int, canvas.margin as int) == 0 || spec_avail(
            canvas.height as int,
            canvas.margin as int,
        ) == 0 ==> g.spec_count() == 0,
{
    let size = shape.get_font_size();
    let mut g = OccupancyGrid::new(canvas.height, canvas.width);
    let avail_w = avail(canvas.width, canvas.margin);
    let avail_h = avail(canvas.height, canvas.margin);
    if avail_w == 0 || avail_h == 0 {
        proof {
            lemma_count_zero(&g);
        }
        return g;
    }
    let n = shape.text.as_str().unicode_len();
    let mut gs: Vec<GlyphRaster> = Vec::new();
    let mut total_width: usize = 0;
    let mut max_height: usize = 0;
    let mut i: usize = 0;
    while i < n
        invariant
            n == shape.text@.len(),
            i <= n,
            gs@.len() == i,
            forall|k: int| 0 <= k < gs@.len() ==> (#[trigger] gs@[k]).wf(),
        decreases n - i,
    {
        let c = shape.text.as_str().get_char(i);
        let raster = rasterize_glyph(&shape.font, c, size);
        total_width = total_width.saturating_add(raster.advance);
        if raster.height > max_height {
            max_height = raster.height;
        }
        gs.push(raster);
        i = i + 1;
    }
    let offset_x = canvas.margin.saturating_add(avail_w.saturating_sub(total_width) / 2);
    let offset_y = canvas.margin.saturating_add(avail_h.saturating_sub(max_height) / 2);
    paint_glyphs(&mut g, offset_x, offset_y, &gs);
    proof {
        lemma_count_le_total(&g);
    }
    g
}

/// Cells strictly before `(r, c)` in row-major order come earlier in
/// the flat pixel buffer.
proof fn lemma_lex_base_lt(r0: int, c0: int, r1: int, c1: int, w: int)
    requires
        0 <= c0 < w,
        0 <= c1,
        0 <= r0,
        r0 < r1 || (r0 == r1 && c0 < c1),
    ensures
        r0 * w + c0 < r1 * w + c1,
{
    if r0 < r1 {
        assert(r0 * w + c0 < r1 * w + c1) by (nonlinear_arith)
            requires
                0 <= c0 < w,
                0 <= c1,
                0 <= r0 < r1,
        ;
    }
}

/// The RGBA bytes of the diagnostic raster: each silhouette cell
/// becomes an opaque white pixel, every other cell a fully
/// transparent one, row-major from the top left.
pub fn mask_to_pixels(g: &OccupancyGrid) -> (px: Vec<u8>)
    requires
        g.wf(),
    ensures
        px@.len() == 4 * g.spec_height() * g.spec_width(),
        forall|r: int, c: int, j: int|
            0 <= r < g.spec_height() && 0 <= c < g.spec_width() && 0 <= j < 4 ==> #[trigger] px@[4
                * (r * g.spec_width() + c) + j] == (if g.cell(r, c) {
                255u8
            } else {
                0u8
            }),
{
    let height = g.height();
    let width = g.width();
    let ghost h = height as int;
    let ghost w = width as int;
    let mut px: Vec<u8> = Vec::new();
    let mut r: usize = 0;
    while r < height
        invariant
            g.wf(),
            height == g.spec_height(),
            width == g.spec_width(),
            h == height as int,
            w == width as int,
            r <= height,
            px@.len() == 4 * ((r as int) * w),
            forall|rr: int, cc: int, j: int|
                0 <= rr < r && 0 <= cc < w && 0 <= j < 4 ==> #[trigger] px@[4 * (rr * w + cc)
                    + j] == (if g.cell(rr, cc) {
                    255u8
                } else {
                    0u8
                }),
        decreases height - r,
    {
        let mut c: usize = 0;
        while c < width
            invariant
                g.wf(),
                height == g.spec_height(),
                width == g.spec_width(),
                h == height as int,
                w == width as int,
                r < height,
                c <= width,
                px@.len() == 4 * ((r as int) * w + c as int),
                forall|rr: int, cc: int, j: int|
                    0 <= rr < h && 0 <= cc < w && 0 <= j < 4 && (rr < r || (rr == r && cc < c))
                        ==> #[trigger] px@[4 * (rr * w + cc) + j] == (if g.cell(rr, cc) {
                        255u8
                    } else {
                        0u8
                    }),
            decreases width - c,
        {
            let ghost px0 = px@;
            let v: u8 = if g.get(r, c) {
                255
            } else {
                0
            };
            px.push(v);
            px.push(v);
            px.push(v);
            px.push(v);
            proof {
                assert forall|rr: int, cc: int, j: int|
                    0 <= rr < h && 0 <= cc < w && 0 <= j < 4 && (rr < r || (rr == r && cc < c
                        + 1)) implies #[trigger] px@[4 * (rr * w + cc) + j] == (if g.cell(rr, cc) {
                    255u8
                } else {
                    0u8
                }) by {
                    if rr < r || (rr == r && cc < c) {
                        lemma_lex_base_lt(rr, cc, r as int, c as int, w);
                        assert(px@[4 * (rr * w + cc) + j] == px0[4 * (rr * w + cc) + j]);
                    } else {
                        assert(rr == r && cc == c);
                    }
                }
            }
            c = c + 1;
        }
        proof {
            assert(4 * ((r as int) * w + w) == 4 * ((r + 1) * w)) by (nonlinear_arith);
        }
        r = r + 1;
    }
    proof {
        assert(4 * (h * w) == 4 * h * w) by (nonlinear_arith);
    }
    px
}

} // verus!
