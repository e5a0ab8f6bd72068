use wzmapeditor::balance::BalanceState;
use wzmapeditor::balance_panel::{cell_tone, focus_next_structure, median, CellTone};
use wzmapeditor::map_model::{Droid, Feature, Gateway, ScriptLabel, Structure, WorldPos, WzMap};
use wzmapeditor::property_edit::{
    apply_to_selection, finish_frame, summarize_selection, direction_to_step, find_object_at, merge_common, player_label, replace_command,
    snapshot, EditActivity, PropertyEdit, PropertyValue, SelectedObject,
};

fn structure(name: &str, player: i8, x: u32, y: u32) -> Structure {
    Structure { name: name.into(), position: WorldPos { x, y }, direction: 0, player, modules: 0, id: None }
}

#[test]
fn median_picks_the_upper_middle() {
    assert_eq!(median(&[]), None);
    assert_eq!(median(&[7]), Some(7));
    assert_eq!(median(&[5, 1, 3]), Some(3));
    assert_eq!(median(&[4, 1, 3, 2]), Some(3));
    assert_eq!(median(&[2, 2, 9, 2]), Some(2));
}

#[test]
fn cell_tones() {
    assert_eq!(cell_tone(3, Some(5), true), CellTone::Default);
    assert_eq!(cell_tone(5, Some(5), false), CellTone::Muted);
    assert_eq!(cell_tone(3, Some(5), false), CellTone::Imbalanced);
    assert_eq!(cell_tone(3, None, false), CellTone::Muted);
}

#[test]
fn focus_cycles_through_matching_structures() {
    let mut map = WzMap::new(8, 8);
    map.structures.push(structure("Factory", 0, 100, 100));
    map.structures.push(structure("Factory", 1, 200, 200));
    map.structures.push(structure("Factory", 0, 300, 300));
    let mut state = BalanceState::new();
    assert_eq!(focus_next_structure(&mut state, &map, 0, "Factory"), Some(WorldPos { x: 100, y: 100 }));
    assert_eq!(focus_next_structure(&mut state, &map, 0, "Factory"), Some(WorldPos { x: 300, y: 300 }));
    assert_eq!(focus_next_structure(&mut state, &map, 0, "Factory"), Some(WorldPos { x: 100, y: 100 }));
    assert_eq!(focus_next_structure(&mut state, &map, 1, "Factory"), Some(WorldPos { x: 200, y: 200 }));
    assert_eq!(focus_next_structure(&mut state, &map, 2, "Factory"), None);
    assert_eq!(state.breakdown_cycle.len(), 2);
}

#[test]
fn direction_steps_round_to_the_nearest_quarter() {
    assert_eq!(direction_to_step(0), 0);
    assert_eq!(direction_to_step(8191), 0);
    assert_eq!(direction_to_step(8192), 1);
    assert_eq!(direction_to_step(0x4000), 1);
    assert_eq!(direction_to_step(0xC000), 3);
    assert_eq!(direction_to_step(0xFFFF), 0);
}

#[test]
fn player_labels() {
    assert_eq!(player_label(-1), "Scavenger");
    assert_eq!(player_label(3), "Player 3");
    assert_eq!(player_label(-5), "Player -5");
}

#[test]
fn merge_common_latches_on_disagreement() {
    let mut common: Option<i8> = None;
    let mut varies = false;
    merge_common(&mut common, &mut varies, 2i8);
    assert_eq!((common, varies), (Some(2), false));
    merge_common(&mut common, &mut varies, 2i8);
    assert_eq!((common, varies), (Some(2), false));
    merge_common(&mut common, &mut varies, 4i8);
    assert_eq!((common, varies), (None, true));
    merge_common(&mut common, &mut varies, 4i8);
    assert_eq!((common, varies), (None, true));
}

#[test]
fn edit_activity_folds_widgets() {
    let mut act = EditActivity::default();
    assert!(!act.note(false, true));
    assert!(act.active && !act.changed);
    act.note_changed(true);
    assert!(act.changed);
    assert!(act.note(true, false));
}

#[test]
fn property_edit_round_trip_is_one_undo_step() {
    let mut map = WzMap::new(8, 8);
    map.structures.push(structure("A0CommandCentre", 0, 256, 256));
    map.map_data.gateways.push(Gateway { x1: 1, y1: 1, x2: 2, y2: 2 });
    map.labels.push(("pos0".into(), ScriptLabel::new_position("a".into(), 1, 2)));

    let target = SelectedObject::Structure(0);
    let before = snapshot(&map, target).expect("structure exists");
    map.structures[0].player = 3;
    map.structures[0].direction = 0x4000;
    let after = snapshot(&map, target).expect("structure exists");
    let cmd = replace_command(target, before, after).expect("same kind");
    cmd.undo(&mut map);
    assert_eq!(map.structures[0].player, 0);
    assert_eq!(map.structures[0].direction, 0);
    cmd.execute(&mut map);
    assert_eq!(map.structures[0].player, 3);

    let gw = SelectedObject::Gateway(0);
    let before = snapshot(&map, gw).unwrap();
    map.map_data.gateways[0].x2 = 5;
    let after = snapshot(&map, gw).unwrap();
    let cmd = replace_command(gw, before, after).unwrap();
    cmd.undo(&mut map);
    assert_eq!(map.map_data.gateways[0].x2, 2);

    assert!(snapshot(&map, SelectedObject::Droid(0)).is_none());
    let label = snapshot(&map, SelectedObject::Label(0)).unwrap();
    assert!(matches!(label, PropertyValue::Label(_)));
    let gate = snapshot(&map, SelectedObject::Gateway(0)).unwrap();
    assert!(replace_command(gw, label, gate).is_none());
}

#[test]
fn find_object_at_prefers_structures() {
    let mut map = WzMap::new(8, 8);
    map.structures.push(structure("A", 0, 10, 10));
    map.structures.push(structure("B", 0, 20, 20));
    assert_eq!(find_object_at(&map, 20, 20), Some(SelectedObject::Structure(1)));
    assert_eq!(find_object_at(&map, 30, 30), None);
}

#[test]
fn multi_selection_summary_and_edit_round_trip() {
    let mut map = WzMap::new(8, 8);
    map.structures.push(structure("A", 1, 10, 10));
    map.structures.push(structure("B", 1, 20, 20));
    map.droids.push(Droid { name: "D".into(), position: WorldPos { x: 5, y: 5 }, direction: 0x4000, player: 2, id: None });
    map.features.push(Feature { name: "Tree".into(), position: WorldPos { x: 6, y: 6 }, direction: 0, id: None, player: None });
    let sel = vec![
        SelectedObject::Structure(0),
        SelectedObject::Structure(1),
        SelectedObject::Feature(0),
        SelectedObject::Droid(0),
        SelectedObject::Label(3),
        SelectedObject::Structure(9),
    ];
    let sum = summarize_selection(&map, &sel);
    assert_eq!((sum.structures, sum.droids, sum.features), (2, 1, 1));
    assert_eq!((sum.player_targets, sum.rotation_targets), (3, 4));
    assert_eq!((sum.common_player, sum.player_varies), (None, true));
    assert_eq!((sum.common_rotation, sum.rotation_varies), (None, true));

    let sel2 = vec![SelectedObject::Structure(0), SelectedObject::Structure(1)];
    let sum2 = summarize_selection(&map, &sel2);
    assert_eq!((sum2.common_player, sum2.player_varies), (Some(1), false));
    assert_eq!(sum2.common_rotation, Some(0));

    let cmds = apply_to_selection(&mut map, &sel, Some(2), Some(5));
    assert_eq!(cmds.len(), 4);
    assert_eq!(map.structures[0].direction, 0x8000);
    assert_eq!(map.structures[1].player, 5);
    assert_eq!(map.droids[0].player, 5);
    assert_eq!(map.features[0].direction, 0x8000);
    assert_eq!(map.features[0].player, None);
    for c in cmds.iter().rev() {
        c.undo(&mut map);
    }
    assert_eq!(map.structures[0].direction, 0);
    assert_eq!(map.structures[1].player, 1);
    assert_eq!(map.droids[0].direction, 0x4000);
    assert_eq!(map.droids[0].player, 2);

    let only_player = apply_to_selection(&mut map, &[SelectedObject::Feature(0)], None, Some(3));
    assert!(only_player.is_empty());
}

#[test]
fn a_drag_becomes_one_undo_entry_when_it_ends() {
    let mut map = WzMap::new(8, 8);
    map.structures.push(structure("A0CommandCentre", 0, 256, 256));
    let target = SelectedObject::Structure(0);
    let mut pending: Option<PropertyEdit> = None;

    // First frame of a drag: a change while the widget is held.
    let before = snapshot(&map, target);
    map.structures[0].direction = 0x1000;
    let held = EditActivity { changed: true, active: true };
    assert!(finish_frame(&mut pending, &map, target, before, &held).is_none());
    assert!(pending.is_some());

    // Second frame: the drag goes on; the pending start value is kept.
    let before = snapshot(&map, target);
    map.structures[0].direction = 0x2000;
    assert!(finish_frame(&mut pending, &map, target, before, &held).is_none());

    // Release: one command from the first value to the last.
    let released = EditActivity { changed: false, active: false };
    let before = snapshot(&map, target);
    let cmd = finish_frame(&mut pending, &map, target, before, &released).expect("one entry");
    assert!(pending.is_none());
    cmd.undo(&mut map);
    assert_eq!(map.structures[0].direction, 0);
    cmd.execute(&mut map);
    assert_eq!(map.structures[0].direction, 0x2000);

    // A frame with nothing pending and nothing changed gives nothing.
    let before = snapshot(&map, target);
    assert!(finish_frame(&mut pending, &map, target, before, &released).is_none());
}
