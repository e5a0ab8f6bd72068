use wzmapeditor::map_model::{Structure, WorldPos};
use wzmapeditor::stats::{upsert, StatsDatabase, StructureStats};
use wzmapeditor::wall_render::{build_wall_tile_index, wall_shape_from_index};
use wzmapeditor::wall_tool::{WALL_TYPE_L_CORNER, WALL_TYPE_STRAIGHT, WALL_TYPE_T};

fn stat(id: &str, kind: Option<&str>, combines: bool) -> StructureStats {
    StructureStats {
        id: id.into(),
        structure_type: kind.map(str::to_string),
        width: Some(1),
        breadth: Some(1),
        combines_with_wall: combines,
        model: None,
        weapons: Vec::new(),
        ecm_id: None,
        sensor_id: None,
    }
}

fn at(name: &str, tx: u32, ty: u32) -> Structure {
    Structure {
        name: name.into(),
        position: WorldPos { x: tx * 128 + 64, y: ty * 128 + 64 },
        direction: 0,
        player: 0,
        modules: 0,
        id: None,
    }
}

fn db() -> StatsDatabase {
    let mut db = StatsDatabase::new();
    upsert(&mut db.structures, stat("A0HardcreteMk1Wall", Some("WALL"), false));
    upsert(&mut db.structures, stat("A0HardcreteMk1CWall", Some("CORNER WALL"), false));
    upsert(&mut db.structures, stat("WallTower01", Some("DEFENSE"), true));
    upsert(&mut db.structures, stat("Factory", Some("FACTORY"), false));
    upsert(&mut db.structures, stat("CollectiveWall", Some("WALL"), false));
    db
}

#[test]
fn index_files_corners_under_their_base_and_skips_other_structures() {
    let db = db();
    let structures = vec![
        at("A0HardcreteMk1Wall", 1, 1),
        at("A0HardcreteMk1CWall", 2, 1),
        at("WallTower01", 1, 2),
        at("Factory", 3, 3),
        at("Unknown", 4, 4),
    ];
    let index = build_wall_tile_index(&structures, Some(&db));
    let mut rows: Vec<((u32, u32), String, bool)> =
        index.iter().map(|e| (e.tile, e.stat_name.clone(), e.combines_only)).collect();
    rows.sort();
    assert_eq!(
        rows,
        vec![
            ((1, 1), "A0HardcreteMk1Wall".to_string(), false),
            ((1, 2), "WallTower01".to_string(), true),
            ((2, 1), "A0HardcreteMk1Wall".to_string(), false),
        ]
    );
    assert!(build_wall_tile_index(&structures, None).is_empty());
}

#[test]
fn later_structure_on_a_tile_wins() {
    let db = db();
    let structures = vec![at("A0HardcreteMk1Wall", 1, 1), at("CollectiveWall", 1, 1)];
    let index = build_wall_tile_index(&structures, Some(&db));
    assert_eq!(index.len(), 1);
    assert_eq!(index[0].stat_name, "CollectiveWall");
}

#[test]
fn shapes_read_off_the_index() {
    let db = db();
    let structures = vec![
        at("A0HardcreteMk1Wall", 1, 1),
        at("A0HardcreteMk1Wall", 0, 1),
        at("A0HardcreteMk1Wall", 2, 1),
        at("WallTower01", 1, 2),
        at("CollectiveWall", 1, 0),
    ];
    let index = build_wall_tile_index(&structures, Some(&db));
    let t = wall_shape_from_index(&index, "A0HardcreteMk1Wall", (1, 1));
    assert_eq!(t.wall_type, WALL_TYPE_T);
    let end = wall_shape_from_index(&index, "A0HardcreteMk1Wall", (0, 1));
    assert_eq!(end.wall_type, WALL_TYPE_STRAIGHT);
    let corner = wall_shape_from_index(&index, "A0HardcreteMk1Wall", (0, 2));
    assert_eq!(corner.wall_type, WALL_TYPE_L_CORNER);
    let edge = wall_shape_from_index(&index, "A0HardcreteMk1Wall", (0, 0));
    assert_eq!(edge.wall_type, WALL_TYPE_STRAIGHT);
}
