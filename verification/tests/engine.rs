use rand::rngs::StdRng;
use rand::SeedableRng;
use wordshape::draw::{
    find_possible_font_size, get_available_positions, is_area_available, place_words, update_mask,
    PlacedWord,
};
use wordshape::grid::OccupancyGrid;

fn grid_with_block(height: usize, width: usize, top: usize, left: usize, bh: usize, bw: usize)
    -> OccupancyGrid {
    let mut g = OccupancyGrid::new(height, width);
    for r in top..top + bh {
        for c in left..left + bw {
            g.set(r, c, true);
        }
    }
    g
}

fn in_block(p: &PlacedWord, top: usize, left: usize, bh: usize, bw: usize) -> bool {
    p.y >= top && p.y + p.height <= top + bh && p.x >= left && p.x + p.width <= left + bw
}

#[test]
fn available_positions_list_free_cells_in_row_major_order() {
    let mut g = OccupancyGrid::new(3, 4);
    g.set(2, 3, true);
    g.set(0, 1, true);
    let ps = get_available_positions(&g);
    assert_eq!(ps, vec![(0, 1), (2, 3)]);
    assert_eq!(ps.len(), g.count_true());
}

#[test]
fn area_availability_requires_every_cell() {
    let g = grid_with_block(10, 10, 2, 2, 4, 4);
    assert!(is_area_available(&g, 2, 2, 4, 4));
    assert!(is_area_available(&g, 3, 3, 2, 3));
    assert!(!is_area_available(&g, 1, 1, 2, 2));
    assert!(!is_area_available(&g, 5, 5, 2, 2));
    assert!(is_area_available(&g, 0, 0, 0, 0));
}

#[test]
fn update_mask_clears_exactly_the_rectangle() {
    let mut g = grid_with_block(6, 6, 0, 0, 6, 6);
    update_mask(&mut g, (1, 2), (3, 2));
    // rows 1..3, columns 2..5 cleared
    assert_eq!(g.count_true(), 36 - 6);
    assert!(!g.get(1, 2));
    assert!(!g.get(2, 4));
    assert!(g.get(0, 2));
    assert!(g.get(3, 2));
    assert!(g.get(1, 1));
    assert!(g.get(1, 5));
}

#[test]
fn update_mask_clips_at_the_border() {
    let mut g = grid_with_block(3, 3, 0, 0, 3, 3);
    update_mask(&mut g, (2, 2), (5, 5));
    assert_eq!(g.count_true(), 8);
    assert!(!g.get(2, 2));
}

#[test]
fn font_size_search_prefers_the_largest_fit() {
    let g = grid_with_block(10, 10, 0, 0, 10, 10);
    let sizes = vec![(2, 2), (4, 4), (20, 20)];
    let found = find_possible_font_size(&g, 1, 1, 5, 7, &sizes);
    assert_eq!(found, Some((6, 4, 4)));
}

#[test]
fn font_size_search_reports_no_fit() {
    let g = OccupancyGrid::new(10, 10);
    let sizes = vec![(2, 2)];
    let found = find_possible_font_size(&g, 0, 0, 3, 3, &sizes);
    assert_eq!(found, None);
}

#[test]
fn zero_threshold_places_nothing() {
    let mut g = grid_with_block(20, 20, 0, 0, 20, 20);
    let words = vec!["a".to_string()];
    let colors = vec!["black".to_string()];
    let tables = vec![vec![(5, 5)]];
    let mut rng = StdRng::seed_from_u64(7);
    let placed = place_words(&mut g, &words, &colors, 5, 5, &tables, 0, 50, &mut rng);
    assert!(placed.is_empty());
    assert_eq!(g.count_true(), 400);
}

#[test]
fn single_attempt_places_at_most_one_word_inside_the_silhouette() {
    let (top, left, bh, bw) = (50, 85, 100, 30);
    let mut g = grid_with_block(200, 200, top, left, bh, bw);
    let words = vec!["a".to_string()];
    let colors = vec!["black".to_string()];
    let tables = vec![vec![(5, 5)]];
    let mut rng = StdRng::seed_from_u64(42);
    let placed = place_words(&mut g, &words, &colors, 5, 5, &tables, 1_000_000, 1, &mut rng);
    assert!(placed.len() <= 1);
    for p in &placed {
        assert_eq!(p.word, "a");
        assert_eq!(p.color, "black");
        assert_eq!(p.font_size, 5);
        assert_eq!((p.width, p.height), (5, 5));
        assert!(in_block(p, top, left, bh, bw));
    }
}

#[test]
fn empty_silhouette_yields_no_words_despite_a_generous_budget() {
    let mut g = OccupancyGrid::new(100, 100);
    let words = vec!["a".to_string(), "b".to_string()];
    let colors = vec!["red".to_string(), "blue".to_string()];
    let tables = vec![vec![(4, 4), (5, 5)], vec![(6, 5), (7, 6)]];
    let mut rng = StdRng::seed_from_u64(3);
    let placed = place_words(&mut g, &words, &colors, 3, 4, &tables, 900_000, 10_000, &mut rng);
    assert!(placed.is_empty());
    assert_eq!(g.count_true(), 0);
}

#[test]
fn full_threshold_run_halts_within_budget_and_ratio_stays_bounded() {
    let (top, left, bh, bw) = (5, 5, 40, 40);
    let mut g = grid_with_block(60, 60, top, left, bh, bw);
    let total = g.count_true();
    let words = vec!["ab".to_string(), "c".to_string(), "def".to_string()];
    let colors = vec![
        "#FF5733".to_string(),
        "#33FF57".to_string(),
        "#3357FF".to_string(),
    ];
    let per_word = vec![(6, 4), (8, 5), (10, 6), (12, 7)];
    let tables = vec![per_word.clone(), per_word.clone(), per_word];
    let mut rng = StdRng::seed_from_u64(11);
    let max_try = 300;
    let placed = place_words(
        &mut g, &words, &colors, 3, 6, &tables, 1_000_000, max_try, &mut rng,
    );
    assert!(placed.len() <= max_try);
    let remaining = g.count_true();
    assert!(remaining <= total);
    assert!(wordshape::fill_ratio_ppm(remaining, total) <= 1_000_000);
    // the claimed rectangles lie inside the silhouette and are disjoint
    let mut claimed = vec![vec![false; 60]; 60];
    for p in &placed {
        assert!(in_block(p, top, left, bh, bw));
        assert!(words.contains(&p.word));
        assert!(colors.contains(&p.color));
        assert!(p.font_size >= 3 && p.font_size <= 6);
        for r in p.y..p.y + p.height {
            for c in p.x..p.x + p.width {
                assert!(!claimed[r][c]);
                claimed[r][c] = true;
                assert!(!g.get(r, c));
            }
        }
    }
}
