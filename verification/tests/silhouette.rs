use wordshape::font::{measure_metrics, CharMetrics, GlyphRaster};
use wordshape::grid::OccupancyGrid;
use wordshape::mask::{mask_to_pixels, paint_glyphs, solve_font_size};

#[test]
fn measure_sums_advances_and_takes_the_tallest_glyph() {
    let ms = vec![
        CharMetrics {
            advance: 3,
            height: 7,
            width: 2,
        },
        CharMetrics {
            advance: 4,
            height: 5,
            width: 3,
        },
    ];
    assert_eq!(measure_metrics(&ms, 2), (11, 11));
    assert_eq!(measure_metrics(&ms, 0), (7, 7));
    let empty: Vec<CharMetrics> = Vec::new();
    assert_eq!(measure_metrics(&empty, 0), (0, 0));
    assert_eq!(measure_metrics(&empty, 5), (10, 10));
}

#[test]
fn grid_starts_empty() {
    let g = OccupancyGrid::new(3, 4);
    assert_eq!(g.height(), 3);
    assert_eq!(g.width(), 4);
    assert_eq!(g.count_true(), 0);
    assert!(!g.get(0, 0));
    assert!(!g.get(2, 3));
}

#[test]
fn grid_set_and_count() {
    let mut g = OccupancyGrid::new(3, 4);
    g.set(0, 1, true);
    g.set(2, 3, true);
    g.set(2, 3, true);
    assert_eq!(g.count_true(), 2);
    assert!(g.get(0, 1));
    assert!(g.get(2, 3));
    assert!(!g.get(1, 1));
    g.set(0, 1, false);
    assert_eq!(g.count_true(), 1);
}

#[test]
fn paint_marks_bright_pixels_at_offset() {
    let mut g = OccupancyGrid::new(4, 4);
    let glyph = GlyphRaster {
        width: 2,
        height: 2,
        advance: 2,
        bitmap: vec![255, 0, 0, 200],
    };
    let glyphs = vec![glyph];
    paint_glyphs(&mut g, 1, 1, &glyphs);
    assert_eq!(g.count_true(), 2);
    assert!(g.get(1, 1));
    assert!(g.get(2, 2));
    assert!(!g.get(1, 2));
    assert!(!g.get(2, 1));
}

#[test]
fn paint_threshold_is_strict() {
    let mut g = OccupancyGrid::new(1, 2);
    let glyph = GlyphRaster {
        width: 2,
        height: 1,
        advance: 2,
        bitmap: vec![127, 128],
    };
    let glyphs = vec![glyph];
    paint_glyphs(&mut g, 0, 0, &glyphs);
    assert!(!g.get(0, 0));
    assert!(g.get(0, 1));
}

#[test]
fn paint_advances_cursor_between_glyphs() {
    let mut g = OccupancyGrid::new(1, 8);
    let a = GlyphRaster {
        width: 1,
        height: 1,
        advance: 3,
        bitmap: vec![255],
    };
    let b = GlyphRaster {
        width: 1,
        height: 1,
        advance: 1,
        bitmap: vec![255],
    };
    let glyphs = vec![a, b];
    paint_glyphs(&mut g, 1, 0, &glyphs);
    assert!(g.get(0, 1));
    assert!(g.get(0, 4));
    assert_eq!(g.count_true(), 2);
}

#[test]
fn paint_drops_pixels_outside_the_grid() {
    let mut g = OccupancyGrid::new(2, 2);
    let glyph = GlyphRaster {
        width: 3,
        height: 3,
        advance: 3,
        bitmap: vec![255; 9],
    };
    let glyphs = vec![glyph];
    paint_glyphs(&mut g, 1, 1, &glyphs);
    assert_eq!(g.count_true(), 1);
    assert!(g.get(1, 1));
}

#[test]
fn solver_returns_largest_feasible_size() {
    // entry s holds the measure at size s; entry 0 is unused
    let widths = vec![0, 10, 20, 30, 40, 50];
    let heights = vec![0, 1, 2, 3, 4, 5];
    let best = solve_font_size(&widths, &heights, 30, 5);
    assert_eq!(best, 3);
}

#[test]
fn solver_accepts_the_top_size() {
    let widths = vec![0, 1, 2, 3];
    let heights = vec![0, 1, 2, 3];
    let best = solve_font_size(&widths, &heights, 100, 3);
    assert_eq!(best, 3);
}

#[test]
fn solver_falls_back_to_one_when_nothing_fits() {
    let widths = vec![0, 100, 200];
    let heights = vec![0, 1, 2];
    let best = solve_font_size(&widths, &heights, 50, 2);
    assert_eq!(best, 1);
}

#[test]
fn solver_degenerate_interior_yields_one() {
    let widths = vec![0];
    let heights = vec![0];
    let best = solve_font_size(&widths, &heights, 0, 0);
    assert_eq!(best, 1);
}

#[test]
fn pixels_mark_silhouette_cells_opaque_white() {
    let mut g = OccupancyGrid::new(1, 2);
    g.set(0, 1, true);
    let px = mask_to_pixels(&g);
    assert_eq!(px, vec![0, 0, 0, 0, 255, 255, 255, 255]);
}
