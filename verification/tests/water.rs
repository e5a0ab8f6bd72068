use wzmapeditor::map_model::{MapData, TerrainType, TerrainTypeData};
use wzmapeditor::water::{is_water_tile, riverbed_depths};

/// A 4x4 map where tiles (1,1) and (2,1) are water (texture 7).
fn make_test_map() -> (MapData, TerrainTypeData) {
    let mut map = MapData::new(4, 4);
    for tile in &mut map.tiles {
        tile.height = 100;
    }
    map.tiles[5_usize].texture = 7;
    map.tiles[6_usize].texture = 7;
    let mut terrain_types = vec![TerrainType::Sand; 8];
    terrain_types[7] = TerrainType::Water;
    (map, TerrainTypeData { terrain_types })
}

/// An 8x8 map that is entirely water at height 100.
fn make_lake_map() -> (MapData, TerrainTypeData) {
    let mut map = MapData::new(8, 8);
    for tile in &mut map.tiles {
        tile.height = 100;
        tile.texture = 7;
    }
    let mut terrain_types = vec![TerrainType::Sand; 8];
    terrain_types[7] = TerrainType::Water;
    (map, TerrainTypeData { terrain_types })
}

#[test]
fn is_water_tile_identifies_water() {
    let (map, ttp) = make_test_map();
    assert!(is_water_tile(&map, &ttp, 1, 1));
    assert!(is_water_tile(&map, &ttp, 2, 1));
    assert!(!is_water_tile(&map, &ttp, 0, 0));
    assert!(!is_water_tile(&map, &ttp, 3, 3));
}

#[test]
fn no_dig_without_surrounded_vertices() {
    // A 2-tile pond has no vertex with water on all 4 sides.
    let (map, ttp) = make_test_map();
    let digs = riverbed_depths(&map, &ttp);
    assert!(digs.iter().all(|&d| d == 0));
}

#[test]
fn lake_interior_is_dug_within_game_bounds() {
    let (map, ttp) = make_lake_map();
    let digs = riverbed_depths(&map, &ttp);
    let vw = 9;

    // Map border vertices are never water vertices.
    assert_eq!(digs[0], 0);
    assert_eq!(digs[4], 0);

    // Interior digs land between the shore minimum (~100) and
    // WATER_MIN_DEPTH plus the jitter margin.
    let centre = digs[4 * vw + 4];
    assert!(centre > 90 && centre < 620, "centre dig {centre} outside expected range");
}

#[test]
fn dig_is_deterministic() {
    let (map, ttp) = make_lake_map();
    assert_eq!(riverbed_depths(&map, &ttp), riverbed_depths(&map, &ttp));
}

#[test]
fn lake_digs_match_the_games_riverbed() {
    let (map, ttp) = make_lake_map();
    let digs = riverbed_depths(&map, &ttp);
    let expected: [[i32; 9]; 9] = [
        [0, 0, 0, 0, 0, 0, 0, 0, 0],
        [0, 130, 168, 233, 225, 328, 538, 560, 0],
        [0, 207, 216, 255, 363, 401, 525, 504, 0],
        [0, 225, 306, 345, 414, 470, 525, 500, 0],
        [0, 229, 345, 414, 475, 512, 504, 508, 0],
        [0, 337, 427, 488, 500, 530, 556, 534, 0],
        [0, 530, 564, 556, 504, 547, 530, 517, 0],
        [0, 500, 564, 512, 551, 551, 521, 564, 0],
        [0, 0, 0, 0, 0, 0, 0, 0, 0],
    ];
    assert_eq!(digs.len(), 81);
    for (y, row) in expected.iter().enumerate() {
        assert_eq!(&digs[y * 9..(y + 1) * 9], &row[..], "row {y}");
    }
}

#[test]
fn a_small_pond_is_dug_only_inside() {
    // Tiles (1..=3, 1..=3) of a 5x5 map are water: the four vertices
    // surrounded by water are dug, nothing else.
    let mut map = MapData::new(5, 5);
    for y in 1..=3 {
        for x in 1..=3 {
            map.tiles[y * 5 + x].texture = 7;
        }
    }
    let mut terrain_types = vec![TerrainType::Sand; 8];
    terrain_types[7] = TerrainType::Water;
    let digs = riverbed_depths(&map, &TerrainTypeData { terrain_types });
    let mut expected = vec![0i32; 36];
    expected[2 * 6 + 2] = 548;
    expected[2 * 6 + 3] = 548;
    expected[3 * 6 + 2] = 524;
    expected[3 * 6 + 3] = 524;
    assert_eq!(digs, expected);
}

#[test]
fn textures_without_a_terrain_type_are_not_water() {
    let (mut map, ttp) = make_test_map();
    map.tiles[0].texture = 200;
    assert!(!is_water_tile(&map, &ttp, 0, 0));
    assert!(!is_water_tile(&map, &ttp, 4, 0));
}

#[test]
fn dug_vertices_are_interior_water_within_bounds() {
    let (map, ttp) = make_lake_map();
    let digs = riverbed_depths(&map, &ttp);
    for (k, &d) in digs.iter().enumerate() {
        let (x, y) = (k % 9, k / 9);
        if d != 0 {
            assert!((1..=7).contains(&x) && (1..=7).contains(&y), "vertex ({x}, {y}) dug");
            assert!((100..=566).contains(&d), "depth {d} at ({x}, {y})");
        }
    }
}
