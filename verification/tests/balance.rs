use wzmapeditor::balance::{all_equal, run_balance_analysis, BalanceState};
use wzmapeditor::map_model::{Droid, Feature, Structure, WorldPos, WzMap, TILE_UNITS};
use wzmapeditor::balance::count_oil;

fn centre(tx: u32, ty: u32) -> WorldPos {
    WorldPos { x: tx * TILE_UNITS + TILE_UNITS / 2, y: ty * TILE_UNITS + TILE_UNITS / 2 }
}

fn place_structure(map: &mut WzMap, name: &str, player: i8, tx: u32, ty: u32) {
    map.structures.push(Structure {
        name: name.into(),
        position: centre(tx, ty),
        direction: 0,
        player,
        modules: 0,
        id: None,
    });
}

fn place_oil(map: &mut WzMap, tx: u32, ty: u32) {
    map.features.push(Feature {
        name: "OilResource".into(),
        position: centre(tx, ty),
        direction: 0,
        id: None,
        player: None,
    });
}

fn place_droid(map: &mut WzMap, name: &str, player: i8, tx: u32, ty: u32) {
    map.droids.push(Droid { name: name.into(), position: centre(tx, ty), direction: 0, player, id: None });
}

#[test]
fn empty_map_is_trivially_balanced() {
    let map = WzMap::new(16, 16);
    let report = run_balance_analysis(&map);
    assert!(report.players.is_empty());
    assert!(report.fully_balanced());
    assert_eq!(report.total_oil, 0);
}

#[test]
fn voronoi_assigns_oil_to_nearest_player() {
    let mut map = WzMap::new(32, 32);
    place_structure(&mut map, "A0CommandCentre", 0, 4, 4);
    place_structure(&mut map, "A0CommandCentre", 1, 28, 28);
    place_oil(&mut map, 5, 5);
    place_oil(&mut map, 6, 6);
    place_oil(&mut map, 27, 27);

    let report = run_balance_analysis(&map);
    let p0 = report.players.iter().find(|p| p.player == 0).unwrap();
    let p1 = report.players.iter().find(|p| p.player == 1).unwrap();
    assert_eq!(p0.oil_count, 2);
    assert_eq!(p1.oil_count, 1);
    assert_eq!(report.total_oil, 3);
    assert!(!report.oil_balanced);
    assert_eq!(report.oil_assignment.len(), 3);
    assert_eq!(report.oil_assignment[0], ((5, 5), 0));
    assert_eq!(report.oil_assignment[2], ((27, 27), 1));
}

#[test]
fn equal_layout_is_balanced() {
    let mut map = WzMap::new(32, 32);
    place_structure(&mut map, "A0CommandCentre", 0, 4, 4);
    place_structure(&mut map, "A0PowerGenerator", 0, 5, 4);
    place_structure(&mut map, "A0CommandCentre", 1, 28, 28);
    place_structure(&mut map, "A0PowerGenerator", 1, 27, 28);
    place_oil(&mut map, 5, 5);
    place_oil(&mut map, 27, 27);

    let report = run_balance_analysis(&map);
    assert!(report.fully_balanced());
    assert!(report.oil_balanced);
    assert!(report.structures_balanced);
    assert!(report.droids_balanced);
}

#[test]
fn structure_mismatch_breaks_structure_balance() {
    let mut map = WzMap::new(32, 32);
    place_structure(&mut map, "A0CommandCentre", 0, 4, 4);
    place_structure(&mut map, "A0PowerGenerator", 0, 5, 4);
    place_structure(&mut map, "A0CommandCentre", 1, 28, 28);

    let report = run_balance_analysis(&map);
    assert!(!report.structures_balanced);
    assert!(report.oil_balanced);
}

#[test]
fn droid_count_is_per_player() {
    let mut map = WzMap::new(32, 32);
    place_structure(&mut map, "A0CommandCentre", 0, 4, 4);
    place_structure(&mut map, "A0CommandCentre", 1, 28, 28);
    place_droid(&mut map, "ConstructionDroid", 0, 4, 5);
    place_droid(&mut map, "ConstructionDroid", 0, 4, 6);
    place_droid(&mut map, "ConstructionDroid", 1, 28, 27);

    let report = run_balance_analysis(&map);
    let p0 = report.players.iter().find(|p| p.player == 0).unwrap();
    let p1 = report.players.iter().find(|p| p.player == 1).unwrap();
    assert_eq!(p0.droid_count, 2);
    assert_eq!(p1.droid_count, 1);
    assert!(!report.droids_balanced);
}

#[test]
fn hq_is_preferred_start_tile() {
    let mut map = WzMap::new(32, 32);
    place_structure(&mut map, "Factory", 0, 5, 5);
    place_structure(&mut map, "A0CommandCentre", 0, 9, 9);
    let report = run_balance_analysis(&map);
    let p0 = &report.players[0];
    assert_eq!(p0.start_tile, (9, 9));
    assert!(p0.has_hq);
}

#[test]
fn players_sorted_and_breakdown_sorted_by_name() {
    let mut map = WzMap::new(32, 32);
    place_structure(&mut map, "Wall", 3, 1, 1);
    place_structure(&mut map, "Factory", 1, 2, 2);
    place_structure(&mut map, "Bunker", 3, 3, 3);
    place_structure(&mut map, "Wall", 3, 4, 4);
    let report = run_balance_analysis(&map);
    let ids: Vec<i8> = report.players.iter().map(|p| p.player).collect();
    assert_eq!(ids, vec![1, 3]);
    let p3 = &report.players[1];
    assert_eq!(p3.start_tile, (1, 1));
    assert!(!p3.has_hq);
    assert_eq!(p3.structure_count, 3);
    assert_eq!(p3.structures, vec![("Bunker".to_string(), 1), ("Wall".to_string(), 2)]);
}

#[test]
fn equidistant_oil_goes_to_the_lower_player() {
    let mut map = WzMap::new(32, 32);
    place_structure(&mut map, "A0CommandCentre", 2, 0, 0);
    place_structure(&mut map, "A0CommandCentre", 5, 4, 0);
    place_oil(&mut map, 2, 0);
    let report = run_balance_analysis(&map);
    assert_eq!(report.oil_assignment, vec![((2, 0), 2)]);
    assert_eq!(report.neutral_oil, 0);
}

#[test]
fn all_equal_cases() {
    assert!(all_equal(&[]));
    assert!(all_equal(&[3, 3, 3]));
    assert!(!all_equal(&[3, 4]));
}

#[test]
fn balance_state_caches_until_cleared() {
    let mut map = WzMap::new(16, 16);
    place_structure(&mut map, "A0CommandCentre", 0, 4, 4);
    let mut state = BalanceState::new();
    assert!(state.report.is_none());
    state.ensure(&map);
    assert_eq!(state.report.as_ref().unwrap().players.len(), 1);
    place_structure(&mut map, "A0CommandCentre", 1, 8, 8);
    state.ensure(&map);
    assert_eq!(state.report.as_ref().unwrap().players.len(), 1);
    state.refresh(&map);
    assert_eq!(state.report.as_ref().unwrap().players.len(), 2);
    state.highlighted_players.push(1);
    state.show_voronoi = true;
    state.clear();
    assert!(state.report.is_none());
    assert!(state.highlighted_players.is_empty());
    assert!(state.show_voronoi);
}

#[test]
fn count_oil_ignores_case_and_other_features() {
    let mut map = WzMap::new(8, 8);
    place_oil(&mut map, 1, 1);
    map.features.push(Feature { name: "oilresource".into(), position: centre(2, 2), direction: 0, id: None, player: None });
    map.features.push(Feature { name: "Tree".into(), position: centre(3, 3), direction: 0, id: None, player: None });
    assert_eq!(count_oil(&map), 2);
    assert_eq!(run_balance_analysis(&map).total_oil, 2);
}

#[test]
fn oil_on_a_map_without_players_is_neutral() {
    let mut map = WzMap::new(16, 16);
    place_oil(&mut map, 2, 3);
    place_oil(&mut map, 5, 5);
    let report = run_balance_analysis(&map);
    assert!(report.players.is_empty());
    assert_eq!(report.total_oil, 2);
    assert_eq!(report.neutral_oil, 2);
    assert!(report.oil_assignment.is_empty());
    assert!(report.fully_balanced());
}
