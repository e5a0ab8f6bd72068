use wzmapeditor::gateway_tool::{AddGatewayCommand, DeleteGatewayCommand, GatewayTool};
use wzmapeditor::label_tool::{next_label_key, AddLabelCommand, DeleteLabelCommand, MoveLabelCommand, ScriptLabelTool};
use wzmapeditor::history::{EditCommand, EditHistory};
use wzmapeditor::map_model::{Gateway, ScriptLabel, WorldPos, WzMap, TILE_UNITS};

fn world_pos_for(tile: (u32, u32)) -> WorldPos {
    WorldPos { x: tile.0 * TILE_UNITS + TILE_UNITS / 2, y: tile.1 * TILE_UNITS + TILE_UNITS / 2 }
}

#[test]
fn next_label_key_empty_labels() {
    let labels: Vec<(String, ScriptLabel)> = vec![];
    assert_eq!(next_label_key(&labels, "pos"), "pos0");
}

#[test]
fn next_label_key_increments_from_existing() {
    let labels = vec![
        ("pos0".to_string(), ScriptLabel::new_position("start".into(), 100, 200)),
        ("pos1".to_string(), ScriptLabel::new_position("start".into(), 300, 400)),
    ];
    assert_eq!(next_label_key(&labels, "pos"), "pos2");
}

#[test]
fn next_label_key_skips_different_prefix() {
    let labels = vec![
        ("area0".to_string(), ScriptLabel::new_area("zone".into(), 0, 0, 100, 100)),
        ("pos5".to_string(), ScriptLabel::new_position("start".into(), 100, 200)),
    ];
    assert_eq!(next_label_key(&labels, "pos"), "pos6");
    assert_eq!(next_label_key(&labels, "area"), "area1");
}

#[test]
fn next_label_key_handles_gaps() {
    let labels = vec![
        ("pos0".to_string(), ScriptLabel::new_position("a".into(), 0, 0)),
        ("pos5".to_string(), ScriptLabel::new_position("b".into(), 0, 0)),
    ];
    assert_eq!(next_label_key(&labels, "pos"), "pos6");
}

#[test]
fn next_label_key_ignores_non_numeric_suffixes() {
    let labels = vec![
        ("posX".to_string(), ScriptLabel::new_position("a".into(), 0, 0)),
        ("pos3".to_string(), ScriptLabel::new_position("b".into(), 0, 0)),
    ];
    assert_eq!(next_label_key(&labels, "pos"), "pos4");
}

#[test]
fn add_and_delete_label_commands() {
    let mut map = WzMap::new(4, 4);
    let add_cmd = AddLabelCommand { key: "pos0".to_string(), label: ScriptLabel::new_position("test".into(), 100, 200) };
    add_cmd.execute(&mut map);
    assert_eq!(map.labels.len(), 1);
    assert_eq!(map.labels[0].0, "pos0");
    add_cmd.undo(&mut map);
    assert!(map.labels.is_empty());
}

#[test]
fn delete_label_command_roundtrip() {
    let mut map = WzMap::new(4, 4);
    let label = ScriptLabel::new_position("test".into(), 100, 200);
    map.labels.push(("pos0".to_string(), label.clone()));
    let del_cmd = DeleteLabelCommand { index: 0, saved_key: "pos0".to_string(), saved_label: label };
    del_cmd.execute(&mut map);
    assert!(map.labels.is_empty());
    del_cmd.undo(&mut map);
    assert_eq!(map.labels.len(), 1);
    assert_eq!(map.labels[0].0, "pos0");
}

#[test]
fn move_label_command_roundtrip() {
    let mut map = WzMap::new(4, 4);
    let old_label = ScriptLabel::new_position("test".into(), 100, 200);
    let new_label = ScriptLabel::new_position("test".into(), 300, 400);
    map.labels.push(("pos0".to_string(), old_label.clone()));
    let move_cmd = MoveLabelCommand { index: 0, old_label: old_label.clone(), new_label: new_label.clone() };
    move_cmd.execute(&mut map);
    assert_eq!(map.labels[0].1.center().x, 300);
    assert_eq!(map.labels[0].1.center().y, 400);
    move_cmd.undo(&mut map);
    assert_eq!(map.labels[0].1.center().x, 100);
    assert_eq!(map.labels[0].1.center().y, 200);
}

#[test]
fn area_label_center_is_the_midpoint() {
    let l = ScriptLabel::new_area("z".into(), 100, 200, 300, 500);
    let c = l.center();
    assert_eq!((c.x, c.y), (200, 350));
}

#[test]
fn script_label_tool_position_click_adds_position_label() {
    let mut map = WzMap::new(8, 8);
    let mut tool = ScriptLabelTool::default();
    let cmd = tool.on_mouse_release(&mut map, Some(world_pos_for((3, 4))));
    assert!(cmd.is_some(), "release should return an AddLabelCommand");
    assert_eq!(map.labels.len(), 1);
    let (key, label) = &map.labels[0];
    assert!(key.starts_with("position_"), "got key {key}");
    assert_eq!(key, "position_0");
    match label {
        ScriptLabel::Position { pos, label } => {
            assert_eq!(pos[0], 3 * TILE_UNITS + TILE_UNITS / 2);
            assert_eq!(pos[1], 4 * TILE_UNITS + TILE_UNITS / 2);
            assert_eq!(label, "pos0");
        }
        ScriptLabel::Area { .. } => panic!("expected Position label"),
    }
}

#[test]
fn script_label_tool_area_drag_adds_area_label() {
    let mut map = WzMap::new(8, 8);
    let mut tool = ScriptLabelTool { place_area: true, ..Default::default() };
    tool.on_mouse_press(world_pos_for((1, 2)));
    assert_eq!(tool.drag_start(), Some((1, 2)));
    let cmd = tool.on_mouse_release(&mut map, Some(world_pos_for((4, 5))));
    assert!(cmd.is_some(), "release should return an AddLabelCommand");
    assert!(tool.drag_start().is_none(), "drag start should be cleared");
    assert_eq!(map.labels.len(), 1);
    let (key, label) = &map.labels[0];
    assert!(key.starts_with("area_"), "got key {key}");
    match label {
        ScriptLabel::Area { pos1, pos2, .. } => {
            assert_eq!(pos1[0], TILE_UNITS);
            assert_eq!(pos1[1], 2 * TILE_UNITS);
            assert_eq!(pos2[0], 5 * TILE_UNITS);
            assert_eq!(pos2[1], 6 * TILE_UNITS);
        }
        ScriptLabel::Position { .. } => panic!("expected Area label"),
    }
}

#[test]
fn script_label_tool_release_with_no_press_in_area_mode_returns_none() {
    let mut map = WzMap::new(4, 4);
    let mut tool = ScriptLabelTool { place_area: true, ..Default::default() };
    assert!(tool.on_mouse_release(&mut map, Some(world_pos_for((1, 1)))).is_none());
    assert!(map.labels.is_empty());
}

#[test]
fn typed_label_name_is_used_once() {
    let mut map = WzMap::new(8, 8);
    let mut tool = ScriptLabelTool { name: "base".into(), ..Default::default() };
    tool.on_mouse_release(&mut map, Some(world_pos_for((0, 0))));
    tool.on_mouse_release(&mut map, Some(world_pos_for((1, 0))));
    let names: Vec<String> = map
        .labels
        .iter()
        .map(|(_, l)| match l {
            ScriptLabel::Position { label, .. } | ScriptLabel::Area { label, .. } => label.clone(),
        })
        .collect();
    assert_eq!(names, vec!["base".to_string(), "pos1".to_string()]);
    assert_eq!(map.labels[1].0, "position_1");
}

#[test]
fn gateway_tool_press_release_places_gateway_and_returns_command() {
    let mut map = WzMap::new(8, 8);
    let mut tool = GatewayTool::default();
    tool.on_mouse_press(world_pos_for((1, 2)));
    assert_eq!(tool.drag_start(), Some((1, 2)));
    let cmd = tool.on_mouse_release(&mut map, Some(world_pos_for((4, 5))));
    assert!(cmd.is_some(), "release should return an AddGatewayCommand");
    assert!(tool.drag_start().is_none(), "drag start should be cleared");
    assert_eq!(map.map_data.gateways.len(), 1);
    let gw = map.map_data.gateways[0];
    assert_eq!((gw.x1, gw.y1, gw.x2, gw.y2), (1, 2, 4, 5));
}

#[test]
fn gateway_tool_release_with_no_press_returns_none() {
    let mut map = WzMap::new(4, 4);
    let mut tool = GatewayTool::default();
    assert!(tool.on_mouse_release(&mut map, Some(world_pos_for((1, 1)))).is_none());
    assert!(tool.on_deactivated().is_none());
    assert!(map.map_data.gateways.is_empty());
}

#[test]
fn gateway_tool_release_off_terrain_returns_none_and_clears_start() {
    let mut map = WzMap::new(4, 4);
    let mut tool = GatewayTool::default();
    tool.on_mouse_press(world_pos_for((2, 2)));
    assert!(tool.on_mouse_release(&mut map, None).is_none());
    assert!(tool.drag_start().is_none());
    assert!(map.map_data.gateways.is_empty());
}

#[test]
fn gateway_corners_are_normalised_and_clamped() {
    let mut map = WzMap::new(4, 4);
    let mut tool = GatewayTool::default();
    tool.on_mouse_press(world_pos_for((300, 7)));
    tool.on_mouse_release(&mut map, Some(world_pos_for((2, 1))));
    let gw = map.map_data.gateways[0];
    assert_eq!((gw.x1, gw.y1, gw.x2, gw.y2), (2, 1, 255, 7));
}

#[test]
fn gateway_commands_round_trip() {
    let mut map = WzMap::new(4, 4);
    let gw = Gateway { x1: 0, y1: 0, x2: 1, y2: 1 };
    let add = AddGatewayCommand { gateway: gw };
    add.execute(&mut map);
    assert_eq!(map.map_data.gateways, vec![gw]);
    let del = DeleteGatewayCommand { index: 0, saved: gw };
    del.execute(&mut map);
    assert!(map.map_data.gateways.is_empty());
    del.undo(&mut map);
    assert_eq!(map.map_data.gateways, vec![gw]);
    add.undo(&mut map);
    assert!(map.map_data.gateways.is_empty());
}

#[test]
fn label_and_gateway_edits_do_not_dirty_objects() {
    let label = EditCommand::AddLabel(AddLabelCommand {
        key: "pos0".to_string(),
        label: ScriptLabel::new_position("test".into(), 100, 200),
    });
    assert!(!label.dirties_objects());
    let gate = EditCommand::AddGateway(AddGatewayCommand { gateway: Gateway { x1: 1, y1: 1, x2: 2, y2: 1 } });
    assert!(!gate.dirties_objects());
    let mut map = WzMap::new(4, 4);
    let mut history = EditHistory::new();
    history.execute(label, &mut map);
    assert!(!history.undo(&mut map), "undoing a label edit needs no object rebuild");
    assert!(map.labels.is_empty());
    assert!(!history.redo(&mut map));
    assert_eq!(map.labels.len(), 1);
}
