use wzmapeditor::fold_seed_u32;
use wzmapeditor::logger::{classify_for_panel, LogLevel, LogSeverity};
use wzmapeditor::water::MersenneTwister;

#[test]
fn test_fold_seed_u32_preserves_upper_entropy() {
    let a = fold_seed_u32(0x0000_0000_DEAD_BEEF);
    let b = fold_seed_u32(0x1234_5678_DEAD_BEEF);
    assert_ne!(a, b, "Upper 32 bits of seed should influence fold");
    assert_eq!(fold_seed_u32(42), fold_seed_u32(42));
}

#[test]
fn fold_seed_u32_exact_value() {
    assert_eq!(fold_seed_u32(0x1234_5678_DEAD_BEEF), 0x1234_5678 ^ 0xDEAD_BEEF);
    assert_eq!(fold_seed_u32(7), 7);
}

#[test]
fn mersenne_twister_matches_reference() {
    let mut mt = MersenneTwister::new(5489);
    assert_eq!(mt.u32(), 3_499_211_612);
    assert_eq!(mt.u32(), 581_869_302);
    assert_eq!(mt.u32(), 3_890_346_734);
}

#[test]
fn mersenne_twister_same_seed_same_stream() {
    let mut a = MersenneTwister::new(1);
    let mut b = MersenneTwister::new(1);
    for _ in 0..700 {
        assert_eq!(a.u32(), b.u32());
    }
}

#[test]
fn classifies_internal_warn_as_warn() {
    assert_eq!(classify_for_panel("wz_maplib::validate", LogLevel::Warn), Some(LogSeverity::Warn));
}

#[test]
fn classifies_internal_info_as_none() {
    assert_eq!(classify_for_panel("wzmapeditor::app::map_io", LogLevel::Info), None);
}

#[test]
fn classifies_third_party_error_as_none() {
    assert_eq!(classify_for_panel("wgpu_core::device", LogLevel::Error), None);
}

#[test]
fn classifies_internal_error_and_bare_crate_name() {
    assert_eq!(classify_for_panel("wz_stats", LogLevel::Error), Some(LogSeverity::Error));
    assert_eq!(classify_for_panel("wz_pie_extra::x", LogLevel::Error), None);
    assert_eq!(classify_for_panel("wzmapeditor::app", LogLevel::Debug), None);
}
