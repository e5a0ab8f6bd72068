use wzmapeditor::map_model::{MapData, TerrainType, TerrainTypeData};
use wzmapeditor::render_diag::{
    collect_map, histogram_summary, info, ranked_rows, tile_texture_histogram, warn, Line, MAX_ROWS,
};

fn labels(n: usize) -> Vec<String> {
    (0..n).map(|i| format!("g{i}")).collect()
}

#[test]
fn ranked_rows_orders_by_count_then_index() {
    let rows = ranked_rows(vec![(0, 5), (1, 0), (2, 9), (3, 5)]);
    assert_eq!(rows, vec![(2, 9), (0, 5), (3, 5)]);
}

#[test]
fn histogram_summary_folds_the_tail_into_one_entry() {
    let rows: Vec<(usize, u32)> = (0..MAX_ROWS + 3).map(|i| (i, 10)).collect();
    let summary = histogram_summary(&rows, 10 * rows.len(), &labels(rows.len()));
    assert!(summary.starts_with("g0 10 (9%)"), "{summary}");
    assert!(summary.ends_with("3 more 30 (27%)"), "{summary}");
    assert!(!summary.contains("g8 "), "{summary}");
}

#[test]
fn histogram_summary_handles_an_empty_map() {
    assert_eq!(histogram_summary(&[], 0, &labels(0)), "none");
}

#[test]
fn tile_texture_histogram_counts_each_texture() {
    let mut map = MapData::new(2, 2);
    map.tiles[0].texture = 7;
    map.tiles[1].texture = 7;
    map.tiles[2].texture = 3;
    assert_eq!(tile_texture_histogram(&map), vec![(7, 2), (0, 1), (3, 1)]);
}

#[test]
fn histogram_summary_exact_text_for_two_rows() {
    let rows = vec![(4, 3), (1, 1)];
    let names = vec!["grass".to_string(), "rock".to_string()];
    assert_eq!(histogram_summary(&rows, 4, &names), "grass 3 (75%), rock 1 (25%)");
}

#[test]
fn histogram_summary_zero_total_gives_zero_percent() {
    let rows = vec![(0, 2)];
    assert_eq!(histogram_summary(&rows, 0, &labels(1)), "g0 2 (0%)");
}

#[test]
fn tile_texture_histogram_ignores_flip_bits() {
    let mut map = MapData::new(1, 2);
    map.tiles[0].texture = 5 | 0x8000;
    map.tiles[1].texture = 5;
    assert_eq!(tile_texture_histogram(&map), vec![(5, 2)]);
}

#[test]
fn info_and_warn_keep_their_text() {
    let a = info("hello".to_string());
    let b = warn("careful".to_string());
    assert_eq!(a.text, "hello");
    assert_eq!(b.text, "careful");
    assert!(!a.warn);
    assert!(b.warn);
}

#[test]
fn collect_map_without_a_map_says_so() {
    let mut lines: Vec<Line> = vec![info("head".to_string())];
    collect_map(&mut lines, None, None, &[TerrainType::Sand]);
    assert_eq!(lines.len(), 2);
    assert_eq!(lines[0].text, "head");
    assert_eq!(lines[1].text, "Map: none open");
    assert!(!lines[1].warn);
}

#[test]
fn collect_map_reports_textures_and_builtin_table() {
    let mut map = MapData::new(2, 2);
    map.tiles[0].texture = 7;
    map.tiles[1].texture = 7;
    map.tiles[2].texture = 3;
    let builtin = [TerrainType::Sand, TerrainType::Water, TerrainType::Road];
    let mut lines: Vec<Line> = Vec::new();
    collect_map(&mut lines, Some(&map), None, &builtin);
    assert_eq!(lines.len(), 2);
    assert_eq!(
        lines[0].text,
        "Map 2x2, 3 distinct tile textures: tile 7 2 (50%), tile 0 1 (25%), tile 3 1 (25%)"
    );
    assert_eq!(lines[1].text, "Terrain types: map has no .ttp; using the built-in 3-entry table");
    assert!(!lines[0].warn && !lines[1].warn);
}

#[test]
fn collect_map_counts_differing_terrain_types() {
    let map = MapData::new(1, 1);
    let builtin = [TerrainType::Sand, TerrainType::Water, TerrainType::Road];
    let own = TerrainTypeData { terrain_types: vec![TerrainType::Sand, TerrainType::Rubble] };
    let mut lines: Vec<Line> = Vec::new();
    collect_map(&mut lines, Some(&map), Some(&own), &builtin);
    assert_eq!(lines[0].text, "Map 1x1, 1 distinct tile textures: tile 0 1 (100%)");
    assert_eq!(lines[1].text, "Terrain types: map .ttp has 2 entries vs built-in 3, 1 differ");
}
