use wzmapeditor::testing::{
    can_test_map, is_campaign_map, launch_block, skirmish_plan, test_map_tooltip, LaunchBlock, TEST_AI_SCRIPT,
};

#[test]
fn skirmish_config_has_correct_map_name() {
    let plan = skirmish_plan("my_test_map", 2);
    assert_eq!(plan.map_name, "my_test_map");
}

#[test]
fn skirmish_config_clamps_to_min_players() {
    let plan = skirmish_plan("test", 1);
    assert_eq!(plan.max_players, 2);
    assert_eq!(plan.slots.len(), 2);
    assert_eq!(plan.slots[1].ai, Some(TEST_AI_SCRIPT));
}

#[test]
fn skirmish_config_fills_ai_slots() {
    let plan = skirmish_plan("test", 4);
    assert_eq!(plan.max_players, 4);
    assert!(plan.slots[0].ai.is_none());
    for i in 1..4u8 {
        let slot = plan.slots[i as usize];
        assert_eq!(slot.ai, Some(TEST_AI_SCRIPT), "missing AI for player_{i}");
        assert_eq!(slot.team, i, "wrong team for player_{i}");
    }
}

#[test]
fn skirmish_config_player_0_is_team_0() {
    let plan = skirmish_plan("test", 2);
    assert_eq!(plan.slots[0].team, 0);
}

#[test]
fn campaign_prefix_detected() {
    let prefixes = [
        "wrf/cam1/cam1a/",
        "wrf/cam2/cam2-1s/",
        "wrf/cam3/cam3a/",
        "wrf/tutorial/tut1/",
        "wrf/fastplay/fp1/",
    ];
    for prefix in &prefixes {
        assert!(is_campaign_map(Some(prefix)), "expected campaign prefix: {prefix}");
    }
}

#[test]
fn skirmish_prefix_not_campaign() {
    let prefixes = ["", "multiplay/maps/2c-Startup/", "multiplay/maps/4c-rush/"];
    for prefix in &prefixes {
        assert!(!is_campaign_map(Some(prefix)), "should not be campaign: {prefix}");
    }
}

#[test]
fn no_prefix_is_not_campaign() {
    assert!(!is_campaign_map(None));
}

#[test]
fn can_test_map_needs_every_condition() {
    assert!(can_test_map(true, true, false, Some("multiplay/maps/")));
    assert!(!can_test_map(false, true, false, None));
    assert!(!can_test_map(true, false, false, None));
    assert!(!can_test_map(true, true, true, None));
    assert!(!can_test_map(true, true, false, Some("wrf/cam1/")));
}

#[test]
fn tooltip_reports_the_first_blocking_reason() {
    assert_eq!(test_map_tooltip(true, true, true, None), "Test game is already running");
    assert_eq!(test_map_tooltip(false, false, false, None), "Load a map first");
    assert_eq!(
        test_map_tooltip(true, false, false, Some("wrf/cam1/")),
        "Campaign maps cannot be test-launched (skirmish only)"
    );
    assert_eq!(
        test_map_tooltip(true, false, false, None),
        "Set the WZ2100 data directory first (File > Set Data Directory)"
    );
    assert_eq!(test_map_tooltip(true, true, false, None), "Launch map in WZ2100 (F5)");
}

#[test]
fn launch_checks_run_in_order() {
    assert_eq!(launch_block(false, false, true), Some(LaunchBlock::NoMap));
    assert_eq!(launch_block(true, false, true), Some(LaunchBlock::NoInstallDir));
    assert_eq!(launch_block(true, true, true), Some(LaunchBlock::AlreadyRunning));
    assert_eq!(launch_block(true, true, false), None);
    assert_eq!(LaunchBlock::NoMap.message(), "No map loaded");
    assert_eq!(LaunchBlock::NoInstallDir.message(), "No game install directory set");
    assert_eq!(LaunchBlock::AlreadyRunning.message(), "Test game is already running");
    assert!(LaunchBlock::AlreadyRunning.is_warning());
    assert!(!LaunchBlock::NoMap.is_warning());
}

#[test]
fn skirmish_plan_fixed_settings() {
    let plan = skirmish_plan("m", 3);
    assert_eq!((plan.scavengers, plan.difficulty, plan.power_level, plan.bases), (0, "Medium", 1, 1));
    assert_eq!(plan.slots[0].difficulty, None);
    assert_eq!(plan.slots[1].difficulty, Some("Medium"));
    assert_eq!(plan.slots[2].difficulty, Some("Medium"));
}
