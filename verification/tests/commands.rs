use wzmapeditor::history::{CompoundCommand, EditCommand, EditHistory};
use wzmapeditor::map_model::{Droid, Feature, Structure, WorldPos, WzMap};
use wzmapeditor::object_edit::{
    DeleteObjectCommand, MoveObjectCommand, ObjectKind, PlaceDroidCommand, PlaceFeatureCommand, PlaceStructureCommand,
    ReplaceObjectCommand, RotateObjectCommand,
};
use wzmapeditor::stamp_command::StampCommand;
use wzmapeditor::history::pack_commands_as_one;
use wzmapeditor::stamp_command::stamp_command_non_empty;

fn structure() -> Structure {
    Structure {
        name: "A0CommandCentre".into(),
        position: WorldPos { x: 256, y: 256 },
        direction: 0,
        player: 0,
        modules: 0,
        id: Some(1),
    }
}

fn droid() -> Droid {
    Droid { name: "ConstructionDroid".into(), position: WorldPos { x: 256, y: 256 }, direction: 0, player: 0, id: Some(2) }
}

fn feature() -> Feature {
    Feature {
        name: "OilResource".into(),
        position: WorldPos { x: 256, y: 256 },
        direction: 0,
        id: Some(3),
        player: Some(0),
    }
}

fn empty_stamp() -> StampCommand {
    StampCommand {
        tile_changes: Vec::new(),
        structures: Vec::new(),
        droids: Vec::new(),
        features: Vec::new(),
        structure_indices: Vec::new(),
        droid_indices: Vec::new(),
        feature_indices: Vec::new(),
    }
}

#[test]
fn replace_object_restores_every_edited_field() {
    let mut map = WzMap::new(8, 8);
    let before = structure();
    map.structures.push(before.clone());
    let mut after = before.clone();
    after.position = WorldPos { x: 512, y: 768 };
    after.direction = 16384;
    after.player = 3;
    after.modules = 2;
    let cmd = ReplaceObjectCommand::structure(0, before, after);
    cmd.execute(&mut map);
    let edited = &map.structures[0];
    assert_eq!(edited.position.x, 512);
    assert_eq!(edited.direction, 16384);
    assert_eq!(edited.player, 3);
    assert_eq!(edited.modules, 2);
    cmd.undo(&mut map);
    let restored = &map.structures[0];
    assert_eq!(restored.position.x, 256);
    assert_eq!(restored.direction, 0);
    assert_eq!(restored.player, 0);
    assert_eq!(restored.modules, 0);
}

#[test]
fn every_object_command_dirties_object_buffers() {
    let commands: Vec<(&str, EditCommand)> = vec![
        ("PlaceStructureCommand", EditCommand::PlaceStructure(PlaceStructureCommand { structure: structure() })),
        ("PlaceDroidCommand", EditCommand::PlaceDroid(PlaceDroidCommand { droid: droid() })),
        ("PlaceFeatureCommand", EditCommand::PlaceFeature(PlaceFeatureCommand { feature: feature() })),
        ("DeleteObjectCommand", EditCommand::DeleteObject(DeleteObjectCommand::structure(0, structure()))),
        (
            "MoveObjectCommand",
            EditCommand::MoveObject(MoveObjectCommand {
                kind: ObjectKind::Structure,
                index: 0,
                old_pos: WorldPos { x: 256, y: 256 },
                new_pos: WorldPos { x: 512, y: 512 },
            }),
        ),
        (
            "RotateObjectCommand",
            EditCommand::RotateObject(RotateObjectCommand {
                kind: ObjectKind::Structure,
                index: 0,
                old_direction: 0,
                new_direction: 16384,
            }),
        ),
        (
            "ReplaceObjectCommand",
            EditCommand::ReplaceObject(ReplaceObjectCommand::structure(0, structure(), structure())),
        ),
    ];
    for (name, cmd) in commands {
        assert!(cmd.dirties_objects(), "{name} changes object geometry, so undo must rebuild instance buffers");
    }
}

#[test]
fn replace_object_ignores_a_stale_index() {
    let mut map = WzMap::new(8, 8);
    let cmd = ReplaceObjectCommand::structure(7, structure(), structure());
    cmd.execute(&mut map);
    cmd.undo(&mut map);
    assert!(map.structures.is_empty());
}

#[test]
fn compound_dirties_objects_when_any_child_does() {
    let empty = EditCommand::Compound(CompoundCommand::new(vec![
        EditCommand::Compound(CompoundCommand::new(Vec::new())),
        EditCommand::Compound(CompoundCommand::new(Vec::new())),
    ]));
    assert!(!empty.dirties_objects(), "a group that touches no object should not force an object rebuild");
    let mixed = EditCommand::Compound(CompoundCommand::new(vec![
        EditCommand::Compound(CompoundCommand::new(Vec::new())),
        EditCommand::PlaceDroid(PlaceDroidCommand { droid: droid() }),
    ]));
    assert!(mixed.dirties_objects(), "one object-touching child must dirty the whole compound");
}

#[test]
fn compound_execute_and_undo() {
    let compound = EditCommand::Compound(CompoundCommand::new(vec![
        EditCommand::PlaceStructure(PlaceStructureCommand { structure: structure() }),
        EditCommand::PlaceDroid(PlaceDroidCommand { droid: droid() }),
        EditCommand::MoveObject(MoveObjectCommand {
            kind: ObjectKind::Structure,
            index: 0,
            old_pos: WorldPos { x: 256, y: 256 },
            new_pos: WorldPos { x: 640, y: 128 },
        }),
    ]));
    let mut map = WzMap::new(1, 1);
    compound.execute(&mut map);
    assert_eq!(map.structures.len(), 1);
    assert_eq!(map.droids.len(), 1);
    assert_eq!(map.structures[0].position, WorldPos { x: 640, y: 128 });
    compound.undo(&mut map);
    assert!(map.structures.is_empty());
    assert!(map.droids.is_empty());
}

#[test]
fn delete_object_round_trip_keeps_order() {
    let mut map = WzMap::new(4, 4);
    let mut a = feature();
    a.name = "A".into();
    let mut b = feature();
    b.name = "B".into();
    map.features.push(a.clone());
    map.features.push(b.clone());
    let cmd = DeleteObjectCommand::feature(0, a);
    cmd.execute(&mut map);
    assert_eq!(map.features.len(), 1);
    assert_eq!(map.features[0].name, "B");
    cmd.undo(&mut map);
    assert_eq!(map.features[0].name, "A");
    assert_eq!(map.features[1].name, "B");
}

#[test]
fn rotate_object_and_back() {
    let mut map = WzMap::new(4, 4);
    map.droids.push(droid());
    let cmd = RotateObjectCommand { kind: ObjectKind::Droid, index: 0, old_direction: 0, new_direction: 0x8000 };
    cmd.execute(&mut map);
    assert_eq!(map.droids[0].direction, 0x8000);
    cmd.undo(&mut map);
    assert_eq!(map.droids[0].direction, 0);
}

#[test]
fn history_undo_then_redo_restores_the_map() {
    let mut map = WzMap::new(4, 4);
    let mut history = EditHistory::new();
    history.execute(EditCommand::PlaceStructure(PlaceStructureCommand { structure: structure() }), &mut map);
    assert_eq!(map.structures.len(), 1);
    assert!(history.undo(&mut map));
    assert!(map.structures.is_empty());
    assert!(history.redo(&mut map));
    assert_eq!(map.structures.len(), 1);
    assert!(!history.redo(&mut map));
    assert!(history.undo(&mut map));
    assert!(!history.undo(&mut map));
    assert!(map.structures.is_empty());
}

#[test]
fn stamp_command_writes_tiles_and_appends_objects() {
    let mut map = WzMap::new(2, 2);
    let mut cmd = empty_stamp();
    cmd.tile_changes.push((1, 1, 0, 0, 9, 40));
    cmd.tile_changes.push((5, 5, 0, 0, 9, 40));
    cmd.structures.push(structure());
    cmd.structure_indices.push(0);
    cmd.execute(&mut map);
    assert_eq!(map.map_data.tiles[3].texture, 9);
    assert_eq!(map.map_data.tiles[3].height, 40);
    assert_eq!(map.structures.len(), 1);
    cmd.undo(&mut map);
    assert_eq!(map.map_data.tiles[3].texture, 0);
    assert!(map.structures.is_empty());
    assert!(EditCommand::Stamp(empty_stamp()).dirties_objects());
}

#[test]
fn pack_commands_as_one_cases() {
    assert!(pack_commands_as_one(Vec::new()).is_none());
    let one = pack_commands_as_one(vec![EditCommand::PlaceDroid(PlaceDroidCommand { droid: droid() })]);
    assert!(matches!(one, Some(EditCommand::PlaceDroid(_))));
    let two = pack_commands_as_one(vec![
        EditCommand::PlaceDroid(PlaceDroidCommand { droid: droid() }),
        EditCommand::PlaceFeature(PlaceFeatureCommand { feature: feature() }),
    ]);
    match two {
        Some(EditCommand::Compound(c)) => assert_eq!(c.commands.len(), 2),
        _ => panic!("expected a compound"),
    }
}

#[test]
fn stamp_non_empty_cases() {
    let mut cmd = empty_stamp();
    assert!(!stamp_command_non_empty(&cmd));
    cmd.droids.push(droid());
    assert!(stamp_command_non_empty(&cmd));
}
