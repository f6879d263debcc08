//! The word-placement engine: repeatedly draws a free cell, a word
//! and a color, searches the largest size whose padded bounding box
//! fits entirely inside free cells, claims the rectangle, and stops
//! once the coverage threshold, the attempt budget or the free area
//! is exhausted.

use vstd::prelude::*;

use crate::fill_ratio_ppm;
use crate::grid::{lemma_count_le_of_subset, OccupancyGrid};
use crate::mask::{calculate_mask, calculate_text_size, spec_avail, CanvasConfig, FontSize,
    ShapeConfig};
use crate::rng::gen_index;

verus! {

/// The words to pack, their font, the inclusive size range to try,
/// the padding around each word, and the color palette.
pub struct FillConfig {
    pub words: Vec<String>,
    pub font: fontdue::Font,
    pub font_size_range: (usize, usize),
    pub padding: usize,
    pub colors: Vec<String>,
}

/// Everything one run needs: canvas, resolved shape, fill settings,
/// the coverage threshold in parts per million, and the attempt
/// budget.
pub struct DrawConfig {
    pub canva_config: CanvasConfig,
    pub shape_config: ShapeConfig,
    pub fill_config: FillConfig,
    pub ratio_threshold_ppm: u64,
    pub max_try_count: usize,
}

/// A fatal configuration fault, rejected before the engine runs.
#[derive(Clone, Copy, Debug, PartialEq, Eq, Structural)]
pub enum ConfigError {
    EmptyWordList,
    EmptyColorList,
    InvalidSizeRange,
    NonPositiveCanvas,
    MarginTooLarge,
}

/// The faults checked in order: empty word list, empty color list,
/// inverted size range, a zero canvas dimension, a margin that leaves
/// no interior.
pub open spec fn spec_validate(
    canvas: CanvasConfig,
    words: Seq<String>,
    colors: Seq<String>,
    font_size_range: (usize, usize),
) -> Result<(), ConfigError> {
    if words.len() == 0 {
        Err(ConfigError::EmptyWordList)
    } else if colors.len() == 0 {
        Err(ConfigError::EmptyColorList)
    } else if font_size_range.0 > font_size_range.1 {
        Err(ConfigError::InvalidSizeRange)
    } else if canvas.width == 0 || canvas.height == 0 {
        Err(ConfigError::NonPositiveCanvas)
    } else if spec_avail(canvas.width as int, canvas.margin as int) == 0 || spec_avail(
        canvas.height as int,
        canvas.margin as int,
    ) == 0 {
        Err(ConfigError::MarginTooLarge)
    } else {
        Ok(())
    }
}

/// Rejects a configuration the engine must not run on, with the
/// first fault found.
pub fn validate_config(
    canvas: &CanvasConfig,
    words: &Vec<String>,
    colors: &Vec<String>,
    font_size_range: (usize, usize),
) -> (r: Result<(), ConfigError>)
    ensures
        r == spec_validate(*canvas, words@, colors@, font_size_range),
{
    if words.len() == 0 {
        Err(ConfigError::EmptyWordList)
    } else if colors.len() == 0 {
        Err(ConfigError::EmptyColorList)
    } else if font_size_range.0 > font_size_range.1 {
        Err(ConfigError::InvalidSizeRange)
    } else if canvas.width == 0 || canvas.height == 0 {
        Err(ConfigError::NonPositiveCanvas)
    } else if crate::mask::avail(canvas.width, canvas.margin) == 0 || crate::mask::avail(
        canvas.height,
        canvas.margin,
    ) == 0 {
        Err(ConfigError::MarginTooLarge)
    } else {
        Ok(())
    }
}

/// One placed word: its text, top-left cell, resolved size, color,
/// and the claimed rectangle's dimensions.
#[derive(Clone, Debug)]
pub struct PlacedWord {
    pub word: String,
    pub x: usize,
    pub y: usize,
    pub font_size: usize,
    pub color: String,
    pub width: usize,
    pub height: usize,
}

/// Whether `(r, c)` lies in the rectangle of `width` x `height`
/// cells whose top-left cell is `(y, x)`.
pub open spec fn in_rect(y: int, x: int, width: int, height: int, r: int, c: int) -> bool {
    y <= r < y + height && x <= c < x + width
}

/// Whether the rectangle claimed by a placed word covers `(r, c)`.
pub open spec fn rect_covers(p: PlacedWord, r: int, c: int) -> bool {
    in_rect(p.y as int, p.x as int, p.width as int, p.height as int, r, c)
}

/// Whether any word of the sequence covers `(r, c)`.
pub open spec fn covered_by(ps: Seq<PlacedWord>, r: int, c: int) -> bool {
    exists|k: int| 0 <= k < ps.len() && #[trigger] rect_covers(ps[k], r, c)
}

/// Appending a word covers exactly its rectangle more.
pub proof fn lemma_covered_push(ps: Seq<PlacedWord>, p: PlacedWord, r: int, c: int)
    ensures
        covered_by(ps.push(p), r, c) == (covered_by(ps, r, c) || rect_covers(p, r, c)),
{
    if covered_by(ps.push(p), r, c) {
        let k = choose|k: int| 0 <= k < ps.push(p).len() && #[trigger] rect_covers(ps.push(p)[k], r, c);
        if k < ps.len() {
            assert(rect_covers(ps[k], r, c));
        } else {
            assert(ps.push(p)[k] == p);
        }
    }
    if covered_by(ps, r, c) {
        let k = choose|k: int| 0 <= k < ps.len() && #[trigger] rect_covers(ps[k], r, c);
        assert(rect_covers(ps.push(p)[k], r, c));
    }
    if rect_covers(p, r, c) {
        assert(rect_covers(ps.push(p)[ps.len() as int], r, c));
    }
}

/// Every cell of the given rectangle is free in the grid.
pub open spec fn spec_area_free(
    g: OccupancyGrid,
    x: int,
    y: int,
    width: int,
    height: int,
) -> bool {
    forall|r: int, c: int| #[trigger] in_rect(y, x, width, height, r, c) ==> g.cell(r, c)
}

/// A word box of the given dimensions, anchored at `(y, x)`, can be
/// placed: it stays inside the grid and covers only free cells.
pub open spec fn placeable(g: OccupancyGrid, x: int, y: int, wh: (usize, usize)) -> bool {
    &&& y + wh.1 <= g.spec_height()
    &&& x + wh.0 <= g.spec_width()
    &&& spec_area_free(g, x, y, wh.0 as int, wh.1 as int)
}

/// The word is one of the list.
pub open spec fn from_list(ss: Seq<String>, w: String) -> bool {
    exists|i: int| 0 <= i < ss.len() && #[trigger] ss[i] == w
}

/// A placed word is well formed for a run: its rectangle lies inside
/// the grid, its size is from the configured range, and its text and
/// color are from the configured lists.
pub open spec fn placed_wf(
    p: PlacedWord,
    words: Seq<String>,
    colors: Seq<String>,
    size_min: int,
    size_max: int,
    height: int,
    width: int,
) -> bool {
    &&& p.y + p.height <= height
    &&& p.x + p.width <= width
    &&& size_min <= p.font_size <= size_max
    &&& from_list(words, p.word)
    &&& from_list(colors, p.color)
}

/// One grid coordinate comes strictly before another in row-major
/// order.
pub open spec fn pos_lt(a: (usize, usize), b: (usize, usize)) -> bool {
    a.0 < b.0 || (a.0 == b.0 && a.1 < b.1)
}

/// The coordinates `(row, column)` of every free cell: as many
/// entries as the grid counts free cells, each one a free cell, every
/// free cell among them, in strictly increasing row-major order.
pub fn get_available_positions(g: &OccupancyGrid) -> (ps: Vec<(usize, usize)>)
    requires
        g.wf(),
    ensures
        ps@.len() == g.spec_count(),
        forall|k: int|
            0 <= k < ps@.len() ==> (#[trigger] ps@[k]).0 < g.spec_height() && ps@[k].1
                < g.spec_width() && g.cell(ps@[k].0 as int, ps@[k].1 as int),
        forall|rr: usize, cc: usize|
            rr < g.spec_height() && cc < g.spec_width() && #[trigger] g.cell(rr as int, cc as int)
                ==> exists|k: int| 0 <= k < ps@.len() && ps@[k] == (rr, cc),
        forall|k1: int, k2: int|
            0 <= k1 < k2 < ps@.len() ==> pos_lt(#[trigger] ps@[k1], #[trigger] ps@[k2]),
{
    let ghost rows = g.grid_seq();
    let mut ps: Vec<(usize, usize)> = Vec::new();
    let mut r: usize = 0;
    proof {
        assert(rows.take(0) =~= Seq::<Seq<bool>>::empty());
    }
    let height = g.height();
    let width = g.width();
    while r < height
        invariant
            g.wf(),
            height == g.spec_height(),
            width == g.spec_width(),
            rows == g.grid_seq(),
            r <= height,
            ps@.len() == crate::grid::count_grid(rows.take(r as int)),
            forall|k: int|
                0 <= k < ps@.len() ==> (#[trigger] ps@[k]).0 < height && ps@[k].1 < width
                    && g.cell(ps@[k].0 as int, ps@[k].1 as int),
            forall|rr: usize, cc: usize|
                rr < r && cc < width && #[trigger] g.cell(rr as int, cc as int) ==> exists|k: int|
                    0 <= k < ps@.len() && ps@[k] == (rr, cc),
            forall|k: int| 0 <= k < ps@.len() ==> (#[trigger] ps@[k]).0 < r,
            forall|k1: int, k2: int|
                0 <= k1 < k2 < ps@.len() ==> pos_lt(#[trigger] ps@[k1], #[trigger] ps@[k2]),
        decreases height - r,
    {
        let ghost row = rows[r as int];
        let ghost n0 = ps@.len();
        let mut c: usize = 0;
        proof {
            assert(row.take(0) =~= Seq::<bool>::empty());
        }
        while c < width
            invariant
                g.wf(),
                height == g.spec_height(),
                width == g.spec_width(),
                rows == g.grid_seq(),
                r < height,
                row == rows[r as int],
                c <= width,
                n0 == crate::grid::count_grid(rows.take(r as int)),
                ps@.len() == n0 + crate::grid::count_row(row.take(c as int)),
                forall|k: int|
                    0 <= k < ps@.len() ==> (#[trigger] ps@[k]).0 < height && ps@[k].1 < width
                        && g.cell(ps@[k].0 as int, ps@[k].1 as int),
                forall|rr: usize, cc: usize|
                    (rr < r || (rr == r && cc < c)) && rr < height && cc < width && #[trigger]
                        g.cell(rr as int, cc as int) ==> exists|k: int|
                        0 <= k < ps@.len() && ps@[k] == (rr, cc),
                forall|k: int|
                    0 <= k < ps@.len() ==> pos_lt(#[trigger] ps@[k], (r, c)),
                forall|k1: int, k2: int|
                    0 <= k1 < k2 < ps@.len() ==> pos_lt(#[trigger] ps@[k1], #[trigger] ps@[k2]),
            decreases width - c,
        {
            proof {
                assert(row.take(c + 1).drop_last() =~= row.take(c as int));
                assert(row.take(c + 1).last() == row[c as int]);
                assert(row[c as int] == g.cell(r as int, c as int));
            }
            let ghost ps0 = ps@;
            if g.get(r, c) {
                ps.push((r, c));
            }
            proof {
                assert forall|rr: usize, cc: usize|
                    (rr < r || (rr == r && cc < c + 1)) && rr < height && cc < width && #[trigger]
                        g.cell(rr as int, cc as int) implies exists|k: int|
                    0 <= k < ps@.len() && ps@[k] == (rr, cc) by {
                    if rr == r && cc == c {
                        assert(ps@[ps@.len() - 1] == (rr, cc));
                    } else {
                        let k0 = choose|k: int| 0 <= k < ps0.len() && ps0[k] == (rr, cc);
                        assert(ps@[k0] == (rr, cc));
                    }
                }
            }
            c = c + 1;
        }
        proof {
            assert(row.take(width as int) =~= row);
            assert(rows.take(r + 1).drop_last() =~= rows.take(r as int));
            assert(rows.take(r + 1).last() == rows[r as int]);
        }
        r = r + 1;
    }
    proof {
        assert(rows.take(height as int) =~= rows);
    }
    ps
}

/// Whether every cell of the `text_width` x `text_height` rectangle
/// anchored at `(y, x)` is free.
pub fn is_area_available(
    g: &OccupancyGrid,
    x: usize,
    y: usize,
    text_width: usize,
    text_height: usize,
) -> (b: bool)
    requires
        g.wf(),
        y + text_height <= g.spec_height(),
        x + text_width <= g.spec_width(),
    ensures
        b == spec_area_free(*g, x as int, y as int, text_width as int, text_height as int),
{
    let mut dy: usize = 0;
    while dy < text_height
        invariant
            g.wf(),
            y + text_height <= g.spec_height(),
            x + text_width <= g.spec_width(),
            dy <= text_height,
            forall|r: int, c: int|
                in_rect(y as int, x as int, text_width as int, text_height as int, r, c) && r < y
                    + dy ==> g.cell(r, c),
        decreases text_height - dy,
    {
        let mut dx: usize = 0;
        while dx < text_width
            invariant
                g.wf(),
                y + text_height <= g.spec_height(),
                x + text_width <= g.spec_width(),
                dy < text_height,
                dx <= text_width,
                forall|r: int, c: int|
                    in_rect(y as int, x as int, text_width as int, text_height as int, r, c) && r
                        < y + dy ==> g.cell(r, c),
                forall|c: int| x <= c < x + dx ==> #[trigger] g.cell(y + dy, c),
            decreases text_width - dx,
        {
            if !g.get(y + dy, x + dx) {
                proof {
                    assert(in_rect(
                        y as int,
                        x as int,
                        text_width as int,
                        text_height as int,
                        y + dy,
                        x + dx,
                    ));
                }
                return false;
            }
            dx = dx + 1;
        }
        dy = dy + 1;
    }
    proof {
        assert forall|r: int, c: int|
            in_rect(y as int, x as int, text_width as int, text_height as int, r, c) implies g.cell(
            r,
            c,
        ) by {
            assert(r < y + text_height);
        }
    }
    true
}

/// Clears every cell of the rectangle `text_size` (width, height)
/// anchored at `position` (row, column); parts outside the grid are
/// ignored.
pub fn update_mask(
    grid: &mut OccupancyGrid,
    position: (usize, usize),
    text_size: (usize, usize),
)
    requires
        old(grid).wf(),
    ensures
        final(grid).wf(),
        final(grid).spec_height() == old(grid).spec_height(),
        final(grid).spec_width() == old(grid).spec_width(),
        forall|r: int, c: int|
            0 <= r < old(grid).spec_height() && 0 <= c < old(grid).spec_width()
                ==> final(grid).cell(r, c) == (old(grid).cell(r, c) && !in_rect(
                position.0 as int,
                position.1 as int,
                text_size.0 as int,
                text_size.1 as int,
                r,
                c,
            )),
{
    let (y, x) = position;
    let (text_width, text_height) = text_size;
    let ghost g0 = *grid;
    let ghost height = grid.spec_height() as int;
    let ghost width = grid.spec_width() as int;
    let ghost yy = y as int;
    let ghost xx = x as int;
    let ghost tw = text_width as int;
    let ghost th = text_height as int;
    let mut dy: usize = 0;
    while dy < text_height
        invariant
            grid.wf(),
            grid.spec_height() as int == height,
            grid.spec_width() as int == width,
            g0.wf(),
            g0.spec_height() as int == height,
            g0.spec_width() as int == width,
            dy <= text_height,
            yy == y as int,
            xx == x as int,
            tw == text_width as int,
            th == text_height as int,
            forall|r: int, c: int|
                0 <= r < height && 0 <= c < width ==> (#[trigger] grid.cell(r, c)) == (g0.cell(
                    r,
                    c,
                ) && !(in_rect(yy, xx, tw, th, r, c) && r < yy + dy)),
        decreases text_height - dy,
    {
        let mut dx: usize = 0;
        while dx < text_width
            invariant
                grid.wf(),
                grid.spec_height() as int == height,
                grid.spec_width() as int == width,
                g0.wf(),
                g0.spec_height() as int == height,
                g0.spec_width() as int == width,
                dy < text_height,
                dx <= text_width,
                yy == y as int,
                xx == x as int,
                tw == text_width as int,
                th == text_height as int,
                forall|r: int, c: int|
                    0 <= r < height && 0 <= c < width ==> (#[trigger] grid.cell(r, c)) == (g0.cell(
                        r,
                        c,
                    ) && !(in_rect(yy, xx, tw, th, r, c) && (r < yy + dy || (r == yy + dy && c < xx
                        + dx)))),
            decreases text_width - dx,
        {
            let ghost pre = *grid;
            proof {
                assert(forall|r: int, c: int|
                    0 <= r < height && 0 <= c < width ==> pre.cell(r, c) == (g0.cell(r, c) && !(
                    in_rect(yy, xx, tw, th, r, c) && (r < yy + dy || (r == yy + dy && c < xx
                        + dx)))));
            }
            if let Some(r) = y.checked_add(dy) {
                if let Some(c) = x.checked_add(dx) {
                    if r < grid.height() && c < grid.width() {
                        grid.set(r, c, false);
                    }
                }
            }
            proof {
                assert forall|r: int, c: int| 0 <= r < height && 0 <= c < width implies grid.cell(
                    r,
                    c,
                ) == (g0.cell(r, c) && !(in_rect(yy, xx, tw, th, r, c) && (r < yy + dy || (r == yy
                    + dy && c < xx + dx + 1)))) by {
                    if r == yy + dy && c == xx + dx {
                        assert(grid.cell(r, c) == false);
                    } else {
                        assert(grid.cell(r, c) == pre.cell(r, c));
                    }
                }
            }
            dx = dx + 1;
        }
        let ghost dyprev = dy as int;
        dy = dy + 1;
        proof {
            assert(forall|r: int, c: int|
                0 <= r < height && 0 <= c < width ==> grid.cell(r, c) == (g0.cell(r, c) && !(
                in_rect(yy, xx, tw, th, r, c) && (r < yy + dyprev || (r == yy + dyprev && c < xx
                    + tw)))));
            assert forall|r: int, c: int| 0 <= r < height && 0 <= c < width implies grid.cell(r, c)
                == (g0.cell(r, c) && !(in_rect(yy, xx, tw, th, r, c) && r < yy + dy)) by {
                assert(grid.cell(r, c) == (g0.cell(r, c) && !(in_rect(yy, xx, tw, th, r, c) && (r
                    < yy + dyprev || (r == yy + dyprev && c < xx + tw)))));
                assert((in_rect(yy, xx, tw, th, r, c) && (r < yy + dyprev || (r == yy + dyprev && c
                    < xx + tw))) == (in_rect(yy, xx, tw, th, r, c) && r < yy + dy));
            }
        }
    }
    proof {
        assert(dy == text_height);
        assert forall|r: int, c: int| 0 <= r < height && 0 <= c < width implies grid.cell(r, c)
            == (g0.cell(r, c) && !in_rect(yy, xx, tw, th, r, c)) by {
            assert(grid.cell(r, c) == (g0.cell(r, c) && !(in_rect(yy, xx, tw, th, r, c) && r < yy
                + dy)));
            assert((in_rect(yy, xx, tw, th, r, c) && r < yy + th) == in_rect(yy, xx, tw, th, r, c));
        }
    }
}

/// Searches the candidate sizes from the largest down for one whose
/// measured box, anchored at `(x, y)`, stays inside the grid and
/// covers only free cells. Entry `j` of `sizes` is the measured
/// (width, height) at size `size_min + j`. Returns the size found
/// with its box, and nothing when no candidate fits; every candidate
/// larger than a returned size is unplaceable.
pub fn find_possible_font_size(
    g: &OccupancyGrid,
    x: usize,
    y: usize,
    size_min: usize,
    size_max: usize,
    sizes: &Vec<(usize, usize)>,
) -> (found: Option<(usize, usize, usize)>)
    requires
        g.wf(),
        size_min <= size_max,
        sizes@.len() == size_max - size_min + 1,
    ensures
        match found {
            Some(f) => {
                &&& size_min <= f.0 <= size_max
                &&& (f.1, f.2) == sizes@[f.0 - size_min]
                &&& placeable(*g, x as int, y as int, (f.1, f.2))
                &&& forall|s: int|
                    f.0 < s <= size_max ==> !#[trigger] placeable(
                        *g,
                        x as int,
                        y as int,
                        sizes@[s - size_min],
                    )
            },
            None => forall|s: int|
                size_min <= s <= size_max ==> !#[trigger] placeable(
                    *g,
                    x as int,
                    y as int,
                    sizes@[s - size_min],
                ),
        },
{
    let mut j = sizes.len();
    while j > 0
        invariant
            g.wf(),
            size_min <= size_max,
            sizes@.len() == size_max - size_min + 1,
            j <= sizes@.len(),
            forall|s: int|
                size_min + j <= s <= size_max ==> !#[trigger] placeable(
                    *g,
                    x as int,
                    y as int,
                    sizes@[s - size_min],
                ),
        decreases j,
    {
        j = j - 1;
        let font_size = size_min + j;
        let (text_width, text_height) = sizes[j];
        let fits_y = match y.checked_add(text_height) {
            Some(e) => e <= g.height(),
            None => false,
        };
        let fits_x = match x.checked_add(text_width) {
            Some(e) => e <= g.width(),
            None => false,
        };
        if fits_y && fits_x {
            if is_area_available(g, x, y, text_width, text_height) {
                return Some((font_size, text_width, text_height));
            }
        }
        proof {
            assert(!placeable(*g, x as int, y as int, sizes@[j as int]));
        }
    }
    None
}

/// One run of the engine over a prepared grid. Per attempt: draw a
/// free cell and a word, search the largest placeable size, and on
/// success draw a color, record the word and claim its rectangle.
/// Stops when the fill ratio reaches the threshold, the attempt
/// budget is spent, or no free cell remains. Whatever the random
/// draws, every recorded rectangle lies inside the grid on cells that
/// were free at the start, the rectangles are pairwise disjoint, and
/// the grid ends as it began minus exactly the claimed rectangles.
pub fn place_words(
    grid: &mut OccupancyGrid,
    words: &Vec<String>,
    colors: &Vec<String>,
    size_min: usize,
    size_max: usize,
    tables: &Vec<Vec<(usize, usize)>>,
    ratio_threshold_ppm: u64,
    max_try_count: usize,
    rng: &mut rand::rngs::StdRng,
) -> (placed: Vec<PlacedWord>)
    requires
        old(grid).wf(),
        words@.len() > 0,
        colors@.len() > 0,
        size_min <= size_max,
        tables@.len() == words@.len(),
        forall|w: int|
            0 <= w < tables@.len() ==> (#[trigger] tables@[w])@.len() == size_max - size_min + 1,
    ensures
        final(grid).wf(),
        final(grid).spec_height() == old(grid).spec_height(),
        final(grid).spec_width() == old(grid).spec_width(),
        placed@.len() <= max_try_count,
        forall|k: int|
            0 <= k < placed@.len() ==> placed_wf(
                #[trigger] placed@[k],
                words@,
                colors@,
                size_min as int,
                size_max as int,
                old(grid).spec_height() as int,
                old(grid).spec_width() as int,
            ),
        forall|k: int, r: int, c: int|
            0 <= k < placed@.len() && #[trigger] rect_covers(placed@[k], r, c) ==> old(grid).cell(
                r,
                c,
            ),
        forall|k1: int, k2: int, r: int, c: int|
            0 <= k1 < k2 < placed@.len() && #[trigger] rect_covers(placed@[k1], r, c)
                ==> !#[trigger] rect_covers(placed@[k2], r, c),
        forall|r: int, c: int|
            0 <= r < old(grid).spec_height() && 0 <= c < old(grid).spec_width()
                ==> final(grid).cell(r, c) == (old(grid).cell(r, c) && !covered_by(placed@, r, c)),
        final(grid).spec_count() <= old(grid).spec_count(),
        old(grid).spec_count() == 0 ==> placed@.len() == 0,
        ratio_threshold_ppm == 0 ==> placed@.len() == 0,
{
    let ghost g0 = *grid;
    let ghost height = grid.spec_height() as int;
    let ghost width = grid.spec_width() as int;
    let mut placed: Vec<PlacedWord> = Vec::new();
    let total = grid.count_true();
    let mut tries: usize = 0;
    while tries < max_try_count
        invariant
            grid.wf(),
            grid.spec_height() as int == height,
            grid.spec_width() as int == width,
            g0.wf(),
            g0.spec_height() as int == height,
            g0.spec_width() as int == width,
            total == g0.spec_count(),
            words@.len() > 0,
            colors@.len() > 0,
            size_min <= size_max,
            tables@.len() == words@.len(),
            forall|w: int|
                0 <= w < tables@.len() ==> (#[trigger] tables@[w])@.len() == size_max - size_min
                    + 1,
            tries <= max_try_count,
            placed@.len() <= tries,
            forall|k: int|
                0 <= k < placed@.len() ==> placed_wf(
                    #[trigger] placed@[k],
                    words@,
                    colors@,
                    size_min as int,
                    size_max as int,
                    height,
                    width,
                ),
            forall|k: int, r: int, c: int|
                0 <= k < placed@.len() && #[trigger] rect_covers(placed@[k], r, c) ==> g0.cell(
                    r,
                    c,
                ),
            forall|k1: int, k2: int, r: int, c: int|
                0 <= k1 < k2 < placed@.len() && #[trigger] rect_covers(placed@[k1], r, c)
                    ==> !#[trigger] rect_covers(placed@[k2], r, c),
            forall|r: int, c: int|
                0 <= r < height && 0 <= c < width ==> grid.cell(r, c) == (g0.cell(r, c)
                    && !covered_by(placed@, r, c)),
            total == 0 ==> placed@.len() == 0,
            ratio_threshold_ppm == 0 ==> placed@.len() == 0,
        decreases max_try_count - tries,
    {
        proof {
            assert forall|r: int, c: int|
                0 <= r < height && 0 <= c < width && grid.cell(r, c) implies g0.cell(r, c) by {}
            lemma_count_le_of_subset(&*grid, &g0);
        }
        let current = grid.count_true();
        let ratio = fill_ratio_ppm(current, total);
        if ratio >= ratio_threshold_ppm {
            break ;
        }
        let positions = get_available_positions(grid);
        if positions.len() == 0 {
            break ;
        }
        let pidx = gen_index(rng, positions.len());
        let chosen = positions[pidx];
        let py = chosen.0;
        let px = chosen.1;
        let widx = gen_index(rng, words.len());
        let found = find_possible_font_size(
            grid,
            px,
            py,
            size_min,
            size_max,
            &tables[widx],
        );
        if let Some(f) = found {
            let font_size = f.0;
            let text_width = f.1;
            let text_height = f.2;
            let cidx = gen_index(rng, colors.len());
            let p = PlacedWord {
                word: words[widx].clone(),
                x: px,
                y: py,
                font_size,
                color: colors[cidx].clone(),
                width: text_width,
                height: text_height,
            };
            let ghost pre = *grid;
            let ghost placed_pre = placed@;
            proof {
                assert(forall|r: int, c: int|
                    0 <= r < height && 0 <= c < width ==> pre.cell(r, c) == (g0.cell(r, c)
                        && !covered_by(placed_pre, r, c)));
                assert(placeable(pre, px as int, py as int, (text_width, text_height)));
            }
            update_mask(grid, (py, px), (text_width, text_height));
            placed.push(p);
            proof {
                assert(placed@ == placed_pre.push(p));
                assert forall|r: int, c: int| #[trigger] rect_covers(p, r, c) implies pre.cell(
                    r,
                    c,
                ) && g0.cell(r, c) && !covered_by(placed_pre, r, c) by {
                    assert(in_rect(
                        py as int,
                        px as int,
                        text_width as int,
                        text_height as int,
                        r,
                        c,
                    ));
                    assert(pre.cell(r, c));
                }
                assert forall|k: int|
                    0 <= k < placed@.len() implies placed_wf(
                    #[trigger] placed@[k],
                    words@,
                    colors@,
                    size_min as int,
                    size_max as int,
                    height,
                    width,
                ) by {
                    if k < placed_pre.len() {
                        assert(placed@[k] == placed_pre[k]);
                    } else {
                        assert(placed@[k] == p);
                        assert(words@[widx as int] == p.word);
                        assert(from_list(words@, p.word));
                        assert(colors@[cidx as int] == p.color);
                        assert(from_list(colors@, p.color));
                    }
                }
                assert forall|k: int, r: int, c: int|
                    0 <= k < placed@.len() && #[trigger] rect_covers(placed@[k], r, c) implies
                    g0.cell(r, c) by {
                    if k < placed_pre.len() {
                        assert(placed@[k] == placed_pre[k]);
                        assert(rect_covers(placed_pre[k], r, c));
                    } else {
                        assert(placed@[k] == p);
                    }
                }
                assert forall|k1: int, k2: int, r: int, c: int|
                    0 <= k1 < k2 < placed@.len() && #[trigger] rect_covers(placed@[k1], r, c)
                    implies !#[trigger] rect_covers(placed@[k2], r, c) by {
                    if k2 < placed_pre.len() {
                        assert(placed@[k1] == placed_pre[k1]);
                        assert(placed@[k2] == placed_pre[k2]);
                    } else {
                        assert(placed@[k2] == p);
                        assert(placed@[k1] == placed_pre[k1]);
                        if rect_covers(p, r, c) {
                            assert(!covered_by(placed_pre, r, c));
                            assert(!rect_covers(placed_pre[k1], r, c));
                        }
                    }
                }
                assert forall|r: int, c: int| 0 <= r < height && 0 <= c < width implies grid.cell(
                    r,
                    c,
                ) == (g0.cell(r, c) && !covered_by(placed@, r, c)) by {
                    lemma_covered_push(placed_pre, p, r, c);
                    assert(grid.cell(r, c) == (pre.cell(r, c) && !in_rect(
                        py as int,
                        px as int,
                        text_width as int,
                        text_height as int,
                        r,
                        c,
                    )));
                }
            }
        }
        tries = tries + 1;
    }
    proof {
        assert forall|r: int, c: int|
            0 <= r < height && 0 <= c < width && grid.cell(r, c) implies g0.cell(r, c) by {}
        lemma_count_le_of_subset(&*grid, &g0);
    }
    placed
}

/// Measures every word of the fill configuration at every size of
/// the range: entry `(w, j)` of the result is the padded bounding box
/// of word `w` at size `size_min + j`.
pub fn measure_word_tables(fill: &FillConfig) -> (tables: Vec<Vec<(usize, usize)>>)
    requires
        fill.font_size_range.0 <= fill.font_size_range.1,
        fill.font_size_range.1 < usize::MAX,
    ensures
        tables@.len() == fill.words@.len(),
        forall|w: int|
            0 <= w < tables@.len() ==> (#[trigger] tables@[w])@.len() == fill.font_size_range.1
                - fill.font_size_range.0 + 1,
{
    let size_min = fill.font_size_range.0;
    let size_max = fill.font_size_range.1;
    let mut tables: Vec<Vec<(usize, usize)>> = Vec::new();
    let mut w: usize = 0;
    while w < fill.words.len()
        invariant
            fill.font_size_range.0 == size_min,
            fill.font_size_range.1 == size_max,
            size_min <= size_max,
            size_max < usize::MAX,
            w <= fill.words@.len(),
            tables@.len() == w,
            forall|k: int|
                0 <= k < tables@.len() ==> (#[trigger] tables@[k])@.len() == size_max - size_min
                    + 1,
        decreases fill.words@.len() - w,
    {
        let mut row: Vec<(usize, usize)> = Vec::new();
        let mut s: usize = size_min;
        while s <= size_max
            invariant
                size_min <= size_max,
                size_max < usize::MAX,
                size_min <= s,
                s <= size_max + 1,
                row@.len() == s - size_min,
                w < fill.words@.len(),
            decreases size_max + 1 - s,
        {
            let wh = calculate_text_size(
                fill.words[w].as_str(),
                &fill.font,
                FontSize::Fixed(s),
                fill.padding,
            );
            row.push(wh);
            s = s + 1;
        }
        tables.push(row);
        w = w + 1;
    }
    tables
}

/// One full run: builds the silhouette grid from the canvas and the
/// resolved shape, measures the words, and packs them. Returns the
/// placed words in placement order; an empty interior yields an
/// empty sequence.
pub fn draw(config: &DrawConfig, rng: &mut rand::rngs::StdRng) -> (placed: Vec<PlacedWord>)
    requires
        config.shape_config.font_size is Fixed,
        config.canva_config.height * config.canva_config.width <= usize::MAX,
        config.fill_config.words@.len() > 0,
        config.fill_config.colors@.len() > 0,
        config.fill_config.font_size_range.0 <= config.fill_config.font_size_range.1,
        config.fill_config.font_size_range.1 < usize::MAX,
    ensures
        placed@.len() <= config.max_try_count,
        forall|k: int|
            0 <= k < placed@.len() ==> placed_wf(
                #[trigger] placed@[k],
                config.fill_config.words@,
                config.fill_config.colors@,
                config.fill_config.font_size_range.0 as int,
                config.fill_config.font_size_range.1 as int,
                config.canva_config.height as int,
                config.canva_config.width as int,
            ),
        forall|k1: int, k2: int, r: int, c: int|
            0 <= k1 < k2 < placed@.len() && #[trigger] rect_covers(placed@[k1], r, c)
                ==> !#[trigger] rect_covers(placed@[k2], r, c),
        spec_avail(config.canva_config.width as int, config.canva_config.margin as int) == 0
            || spec_avail(config.canva_config.height as int, config.canva_config.margin as int)
            == 0 ==> placed@.len() == 0,
        config.ratio_threshold_ppm == 0 ==> placed@.len() == 0,
{
    let mut grid = calculate_mask(&config.canva_config, &config.shape_config);
    let tables = measure_word_tables(&config.fill_config);
    place_words(
        &mut grid,
        &config.fill_config.words,
        &config.fill_config.colors,
        config.fill_config.font_size_range.0,
        config.fill_config.font_size_range.1,
        &tables,
        config.ratio_threshold_ppm,
        config.max_try_count,
        rng,
    )
}

} // verus!
