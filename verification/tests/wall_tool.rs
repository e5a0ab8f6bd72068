use wzmapeditor::map_model::{Structure, WorldPos, WzMap, TILE_UNITS};
use wzmapeditor::stats::{upsert, StatsDatabase, StructureStats};
use wzmapeditor::wall_tool::{
    base_wall_for_corner, bresenham_4_connected, compute_neighbor_mask, corner_stat_is_cross_pie, corner_wall_for,
    default_families, deg_to_direction, enumerate_families, family_has_cross_corner, migrate_corner_walls_to_base,
    offset_tile, pick_stat_and_dir, structure_covers_tile, wall_shape_for_mask, WallFamily, WallTool, MASK_DOWN,
    MASK_LEFT, MASK_RIGHT, MASK_UP, WALL_TYPE_CROSS, WALL_TYPE_L_CORNER, WALL_TYPE_STRAIGHT, WALL_TYPE_T,
};

fn family(base: &str) -> WallFamily {
    WallFamily { label: base.to_string(), base: base.to_string() }
}

fn structure(name: &str, pos: WorldPos, direction: u16) -> Structure {
    Structure { name: name.into(), position: pos, direction, player: 0, modules: 0, id: None }
}

fn wall_stat(id: &str) -> StructureStats {
    StructureStats {
        id: id.into(),
        structure_type: Some("WALL".into()),
        width: Some(1),
        breadth: Some(1),
        combines_with_wall: false,
        model: None,
        weapons: Vec::new(),
        ecm_id: None,
        sensor_id: None,
    }
}

#[test]
fn wall_type_table_matches_wz2100() {
    let expected = [0u8, 0, 0, 0, 0, 3, 3, 2, 0, 3, 3, 2, 0, 2, 2, 1];
    for (mask, &want) in expected.iter().enumerate() {
        let got = wall_shape_for_mask(mask as u8).wall_type;
        assert_eq!(got, want, "mask {mask:#x}");
    }
}

#[test]
fn direction_table_matches_wz2100() {
    let expected_deg = [0u16, 0, 180, 0, 270, 0, 270, 0, 90, 90, 180, 180, 270, 90, 270, 0];
    for (mask, &deg) in expected_deg.iter().enumerate() {
        let dir = wall_shape_for_mask(mask as u8).direction;
        let got_deg = (u32::from(dir) * 360 / 65536) as u16;
        assert_eq!(got_deg, deg, "mask {mask:#x}: expected {deg} deg");
    }
}

#[test]
fn isolated_wall_is_straight() {
    let shape = wall_shape_for_mask(0);
    assert_eq!(shape.wall_type, WALL_TYPE_STRAIGHT);
    assert_eq!(shape.direction, 0);
}

#[test]
fn horizontal_run_is_straight() {
    let shape = wall_shape_for_mask(MASK_LEFT | MASK_RIGHT);
    assert_eq!(shape.wall_type, WALL_TYPE_STRAIGHT);
}

#[test]
fn vertical_run_straight_rotated() {
    let shape = wall_shape_for_mask(MASK_UP | MASK_DOWN);
    assert_eq!(shape.wall_type, WALL_TYPE_STRAIGHT);
    assert_eq!(shape.direction, 0xC000);
}

#[test]
fn l_shape_uses_corner_variant() {
    for mask in [MASK_LEFT | MASK_UP, MASK_LEFT | MASK_DOWN, MASK_RIGHT | MASK_UP, MASK_RIGHT | MASK_DOWN] {
        assert_eq!(wall_shape_for_mask(mask).wall_type, WALL_TYPE_L_CORNER, "mask {mask:#x}");
    }
}

#[test]
fn t_junction_uses_t_variant() {
    let shape = wall_shape_for_mask(MASK_LEFT | MASK_RIGHT | MASK_DOWN);
    assert_eq!(shape.wall_type, WALL_TYPE_T);
}

#[test]
fn cross_uses_cross_variant() {
    let shape = wall_shape_for_mask(MASK_LEFT | MASK_RIGHT | MASK_UP | MASK_DOWN);
    assert_eq!(shape.wall_type, WALL_TYPE_CROSS);
}

#[test]
fn cross_corner_option_routes_l_to_cwall_for_cross_pie_families() {
    let shape = wall_shape_for_mask(MASK_LEFT | MASK_UP);
    for (base, expected_corner) in [
        ("A0HardcreteMk1Wall", "A0HardcreteMk1CWall"),
        ("CollectiveWall", "CollectiveCWall"),
        ("NEXUSWall", "NEXUSCWall"),
    ] {
        let (name, dir) = pick_stat_and_dir(&family(base), shape, true);
        assert_eq!(name, expected_corner, "family {base}");
        assert_eq!(dir, 0, "family {base}");
    }
}

#[test]
fn cross_corner_option_leaves_non_cross_pie_families_alone() {
    let shape = wall_shape_for_mask(MASK_LEFT | MASK_UP);
    for base in ["A0BaBaHorizontalWall", "A0TankTrap"] {
        let (name, _) = pick_stat_and_dir(&family(base), shape, true);
        assert_eq!(name, base, "family {base}");
    }
}

#[test]
fn cross_corner_option_off_uses_base_stat_at_l() {
    let shape = wall_shape_for_mask(MASK_LEFT | MASK_UP);
    let (name, dir) = pick_stat_and_dir(&family("A0HardcreteMk1Wall"), shape, false);
    assert_eq!(name, "A0HardcreteMk1Wall");
    assert_eq!(dir, shape.direction);
}

#[test]
fn cross_corner_option_unaffected_at_non_l_masks() {
    for mask in 0u8..16 {
        let shape = wall_shape_for_mask(mask);
        if shape.wall_type == WALL_TYPE_L_CORNER {
            continue;
        }
        let (name, dir) = pick_stat_and_dir(&family("A0HardcreteMk1Wall"), shape, true);
        assert_eq!(name, "A0HardcreteMk1Wall", "mask {mask:#x}");
        assert_eq!(dir, shape.direction, "mask {mask:#x}");
    }
}

#[test]
fn bresenham_horizontal() {
    let pts = bresenham_4_connected((2, 5), (6, 5));
    assert_eq!(pts, vec![(2, 5), (3, 5), (4, 5), (5, 5), (6, 5)]);
}

#[test]
fn bresenham_vertical() {
    let pts = bresenham_4_connected((3, 2), (3, 5));
    assert_eq!(pts, vec![(3, 2), (3, 3), (3, 4), (3, 5)]);
}

#[test]
fn straight_tile_saves_under_base_stat() {
    let shape = wall_shape_for_mask(MASK_LEFT | MASK_RIGHT);
    let (name, dir) = pick_stat_and_dir(&family("A0HardcreteMk1Wall"), shape, false);
    assert_eq!(name, "A0HardcreteMk1Wall");
    assert_eq!(dir, shape.direction);
}

#[test]
fn l_corner_tile_saves_under_base_wall_stat() {
    let shape = wall_shape_for_mask(MASK_LEFT | MASK_UP);
    let (name, dir) = pick_stat_and_dir(&family("A0HardcreteMk1Wall"), shape, false);
    assert_eq!(name, "A0HardcreteMk1Wall");
    assert_eq!(dir, shape.direction);
}

#[test]
fn t_and_cross_tiles_save_under_base_wall_stat() {
    for mask in [MASK_LEFT | MASK_RIGHT | MASK_DOWN, MASK_LEFT | MASK_RIGHT | MASK_UP | MASK_DOWN] {
        let shape = wall_shape_for_mask(mask);
        let (name, _) = pick_stat_and_dir(&family("CollectiveWall"), shape, false);
        assert_eq!(name, "CollectiveWall", "mask {mask:#x}");
    }
}

#[test]
fn base_wall_for_corner_round_trips() {
    assert_eq!(base_wall_for_corner("A0HardcreteMk1CWall"), Some("A0HardcreteMk1Wall"));
    assert_eq!(base_wall_for_corner("A0BabaCornerWall"), Some("A0BaBaHorizontalWall"));
    assert_eq!(base_wall_for_corner("NotAWall"), None);
}

#[test]
fn all_default_families_pair_with_a_cwall() {
    for (_, base) in default_families() {
        assert!(corner_wall_for(base).is_some(), "default family {base} has no paired CWall");
    }
}

#[test]
fn cross_pie_flags() {
    assert!(family_has_cross_corner("A0HardcreteMk1Wall"));
    assert!(!family_has_cross_corner("A0TankTrap"));
    assert!(corner_stat_is_cross_pie("NEXUSCWall"));
    assert!(!corner_stat_is_cross_pie("A0BabaCornerWall"));
}

#[test]
fn migrate_rewrites_only_non_cross_pie_cwalls() {
    let pos = WorldPos { x: 0, y: 0 };
    let mut structures = vec![
        structure("A0HardcreteMk1CWall", pos, 0),
        structure("A0HardcreteMk1Wall", pos, 0),
        structure("A0BabaCornerWall", pos, 0x4000),
        structure("A0CommandCentre", pos, 0),
    ];
    let n = migrate_corner_walls_to_base(&mut structures);
    assert_eq!(n, 1);
    assert_eq!(structures[0].name, "A0HardcreteMk1CWall");
    assert_eq!(structures[1].name, "A0HardcreteMk1Wall");
    assert_eq!(structures[2].name, "A0BaBaHorizontalWall");
    assert_eq!(structures[2].direction, 0x4000);
    assert_eq!(structures[3].name, "A0CommandCentre");
}

#[test]
fn wall_tool_press_release_places_structure_and_returns_command() {
    let mut stats = StatsDatabase::new();
    upsert(&mut stats.structures, wall_stat("A0HardcreteMk1Wall"));
    let mut map = WzMap::new(8, 8);
    let mut tool = WallTool::new();
    let pos = WorldPos { x: 4 * TILE_UNITS + TILE_UNITS / 2, y: 4 * TILE_UNITS + TILE_UNITS / 2 };
    let dirty = tool.on_mouse_press(&mut map, Some(&stats), 0, pos);
    assert_eq!(map.structures.len(), 1, "press should place a wall");
    assert_eq!(map.structures[0].name, "A0HardcreteMk1Wall");
    let cmd = tool.on_mouse_release();
    assert!(cmd.is_some(), "release should return a CompoundCommand");
    assert!(dirty, "objects dirty flag should be set");
}

#[test]
fn wall_tool_release_with_no_press_returns_none() {
    let mut tool = WallTool::new();
    assert!(tool.on_mouse_release().is_none());
    assert!(tool.on_deactivated().is_none());
}

#[test]
fn wall_tool_without_stats_places_nothing() {
    let mut map = WzMap::new(4, 4);
    let mut tool = WallTool::new();
    let dirty = tool.on_mouse_press(&mut map, None, 0, WorldPos { x: 64, y: 64 });
    assert!(!dirty);
    assert!(map.structures.is_empty());
    assert!(tool.on_mouse_release().is_none());
}

#[test]
fn wall_stroke_drag_joins_tiles_into_a_run() {
    let mut stats = StatsDatabase::new();
    upsert(&mut stats.structures, wall_stat("A0HardcreteMk1Wall"));
    let mut map = WzMap::new(8, 8);
    let mut tool = WallTool::new();
    tool.on_mouse_press(&mut map, Some(&stats), 0, WorldPos { x: 64, y: 64 });
    tool.on_mouse_drag(&mut map, Some(&stats), 0, WorldPos { x: 3 * 128 + 64, y: 64 });
    assert_eq!(map.structures.len(), 4);
    assert_eq!(tool.hover_tile(), Some((3, 0)));
    let fam = family("A0HardcreteMk1Wall");
    assert_eq!(compute_neighbor_mask(&map, &stats, &fam, (1, 0)), MASK_LEFT | MASK_RIGHT);
    assert!(tool.on_mouse_release().is_some());
    assert!(tool.on_mouse_release().is_none());
}

#[test]
fn bresenham_never_skips_tiles_diagonally() {
    let pts = bresenham_4_connected((0, 0), (3, 3));
    for win in pts.windows(2) {
        let dx = (win[0].0 as i32 - win[1].0 as i32).abs();
        let dy = (win[0].1 as i32 - win[1].1 as i32).abs();
        assert_eq!(dx + dy, 1, "steps must be 4-connected: {win:?}");
    }
    assert_eq!(pts.first(), Some(&(0, 0)));
    assert_eq!(pts.last(), Some(&(3, 3)));
}

#[test]
fn offset_tile_refuses_negative_coordinates() {
    assert_eq!(offset_tile((0, 0), -1, 0), None);
    assert_eq!(offset_tile((2, 3), 1, -1), Some((3, 2)));
}

#[test]
fn deg_to_direction_quarter_turns() {
    assert_eq!(deg_to_direction(0), 0);
    assert_eq!(deg_to_direction(90), 0x4000);
    assert_eq!(deg_to_direction(270), 0xC000);
}

#[test]
fn structure_covers_its_footprint() {
    let mut stats = StatsDatabase::new();
    let mut big = wall_stat("Big");
    big.width = Some(2);
    big.breadth = Some(2);
    upsert(&mut stats.structures, big);
    let s = structure("Big", WorldPos { x: 256, y: 256 }, 0);
    assert!(structure_covers_tile(&s, &stats, (1, 1)));
    assert!(structure_covers_tile(&s, &stats, (2, 2)));
    assert!(!structure_covers_tile(&s, &stats, (3, 3)));
}

#[test]
fn enumerate_families_lists_loaded_defaults_then_extras() {
    let mut stats = StatsDatabase::new();
    upsert(&mut stats.structures, wall_stat("ZWall"));
    upsert(&mut stats.structures, wall_stat("A0HardcreteMk1Wall"));
    upsert(&mut stats.structures, wall_stat("AWall"));
    let fams = enumerate_families(&stats);
    let bases: Vec<&str> = fams.iter().map(|f| f.base.as_str()).collect();
    assert_eq!(bases, vec!["A0HardcreteMk1Wall", "AWall", "ZWall"]);
}

#[test]
fn wall_tool_picks_the_first_offered_family_on_first_paint() {
    let mut stats = StatsDatabase::new();
    upsert(&mut stats.structures, wall_stat("ZZCustomWall"));
    upsert(&mut stats.structures, wall_stat("AACustomWall"));
    let mut map = WzMap::new(8, 8);
    let mut tool = WallTool::new();
    assert!(tool.family().is_none());
    assert!(tool.on_mouse_press(&mut map, Some(&stats), 0, WorldPos { x: 64, y: 64 }));
    let fam = tool.family().expect("a family is chosen");
    assert_eq!(fam.base, "AACustomWall");
    assert_eq!(fam.label, "AACustomWall");
    assert_eq!(map.structures[0].name, "AACustomWall");

    // With the built-in family loaded, it comes first.
    upsert(&mut stats.structures, wall_stat("A0HardcreteMk1Wall"));
    let mut tool = WallTool::new();
    let mut map = WzMap::new(8, 8);
    tool.on_mouse_press(&mut map, Some(&stats), 0, WorldPos { x: 64, y: 64 });
    assert_eq!(tool.family().unwrap().base, "A0HardcreteMk1Wall");
}
