use wzmapeditor::stamp_tool::{StampMode, StampState};
use wzmapeditor::stamp_transform::StampPattern;

#[test]
fn switching_stamp_mode_drops_the_pattern() {
    let mut st = StampState::new();
    st.pattern = Some(StampPattern { width: 1, height: 1, tiles: Vec::new(), objects: Vec::new() });
    st.capture_mode = false;
    st.preview_pos = Some((3, 4));
    st.scatter_last_tile = Some((1, 1));

    assert!(!st.select_mode(StampMode::Single));
    assert!(st.pattern.is_some());
    assert_eq!(st.preview_pos, Some((3, 4)));

    assert!(st.select_mode(StampMode::Scatter));
    assert_eq!(st.mode, StampMode::Scatter);
    assert!(st.pattern.is_none());
    assert!(st.capture_mode);
    assert_eq!(st.preview_pos, None);
    assert_eq!(st.capture_start, None);
    assert_eq!(st.scatter_last_tile, None);
    assert!(st.scatter_stroke.is_empty());
}

fn held_pattern() -> Option<StampPattern> {
    Some(StampPattern { width: 2, height: 1, tiles: Vec::new(), objects: Vec::new() })
}

#[test]
fn capture_and_recapture_transitions() {
    let mut st = StampState::new();
    assert!(!st.switch_to_stamp_mode());
    assert!(st.capture_mode);
    st.pattern = held_pattern();
    assert!(st.switch_to_stamp_mode());
    assert!(!st.capture_mode);
    assert!(st.pattern.is_some());
    assert!(!st.begin_capture());
    assert!(st.recapture());
    assert!(st.capture_mode);
    assert!(st.pattern.is_none());
    assert!(!st.recapture());
    st.capture_mode = false;
    assert!(st.begin_capture());
    assert!(st.capture_mode);
}

#[test]
fn secondary_click_cancels_drag_then_stamp_mode() {
    let mut st = StampState::new();
    st.capture_start = Some((1, 2));
    assert!(st.on_secondary_click());
    assert_eq!(st.capture_start, None);
    assert!(!st.on_secondary_click());

    st.pattern = held_pattern();
    st.capture_mode = false;
    st.preview_pos = Some((5, 5));
    assert!(st.on_secondary_click());
    assert!(st.capture_mode);
    assert!(st.pattern.is_none());
    assert_eq!(st.preview_pos, None);
}
