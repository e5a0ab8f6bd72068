//! Test-launching a map in the game: when it is possible, why not, and the
//! skirmish set-up handed to the game (human player plus AI opponents).
use vstd::prelude::*;
use crate::text::{str_starts_with, has_prefix};

verus! {

/// Fixed map name for test archives and skirmish configs.
pub const TEST_MAP_NAME: &'static str = "__wzmapeditor_test";

/// AI script for the opponent slots of a test game.
pub const TEST_AI_SCRIPT: &'static str = "multiplay/skirmish/semperfi.js";

/// Difficulty of the test game and of its AI opponents.
pub const TEST_DIFFICULTY: &'static str = "Medium";

/// A skirmish game needs at least two players.
pub const MIN_SKIRMISH_PLAYERS: u8 = 2;

/// Campaign maps live under `wrf/` in the game's archives.
pub open spec fn spec_is_campaign_map(prefix: Option<Seq<char>>) -> bool {
    prefix matches Some(p) && has_prefix(p, "wrf/"@)
}

/// Whether the map was opened from a campaign archive prefix (such as
/// `wrf/cam1/cam1a/`); those cannot be test-launched as skirmish games.
pub fn is_campaign_map(last_opened_map_prefix: Option<&str>) -> (r: bool)
    ensures
        r == spec_is_campaign_map(match last_opened_map_prefix {
            Some(p) => Some(p@),
            None => None,
        }),
{
    match last_opened_map_prefix {
        Some(p) => str_starts_with(p, "wrf/"),
        None => false,
    }
}

/// Whether a test game can be launched: a map is open, the game directory
/// is known, no test game runs and the map is not a campaign map.
pub fn can_test_map(
    has_document: bool,
    has_install_dir: bool,
    test_running: bool,
    last_opened_map_prefix: Option<&str>,
) -> (r: bool)
    ensures
        r == (has_document && has_install_dir && !test_running && !spec_is_campaign_map(
            match last_opened_map_prefix {
                Some(p) => Some(p@),
                None => None,
            },
        )),
{
    has_document && has_install_dir && !test_running && !is_campaign_map(last_opened_map_prefix)
}

pub open spec fn spec_test_map_tooltip(
    has_document: bool,
    has_install_dir: bool,
    test_running: bool,
    campaign: bool,
) -> Seq<char> {
    if test_running {
        "Test game is already running"@
    } else if !has_document {
        "Load a map first"@
    } else if campaign {
        "Campaign maps cannot be test-launched (skirmish only)"@
    } else if !has_install_dir {
        "Set the WZ2100 data directory first (File > Set Data Directory)"@
    } else {
        "Launch map in WZ2100 (F5)"@
    }
}

/// Tooltip of the test-launch button: why it is disabled, or what it does.
pub fn test_map_tooltip(
    has_document: bool,
    has_install_dir: bool,
    test_running: bool,
    last_opened_map_prefix: Option<&str>,
) -> (r: &'static str)
    ensures
        r@ == spec_test_map_tooltip(
            has_document,
            has_install_dir,
            test_running,
            spec_is_campaign_map(match last_opened_map_prefix {
                Some(p) => Some(p@),
                None => None,
            }),
        ),
{
    if test_running {
        "Test game is already running"
    } else if !has_document {
        "Load a map first"
    } else if is_campaign_map(last_opened_map_prefix) {
        "Campaign maps cannot be test-launched (skirmish only)"
    } else if !has_install_dir {
        "Set the WZ2100 data directory first (File > Set Data Directory)"
    } else {
        "Launch map in WZ2100 (F5)"
    }
}

/// One player slot of a test skirmish.
#[derive(Debug, Clone, Copy, PartialEq, Eq)]
pub struct SkirmishSlot {
    pub team: u8,
    /// AI script; `None` for the human player.
    pub ai: Option<&'static str>,
    /// AI difficulty; `None` for the human player.
    pub difficulty: Option<&'static str>,
}

/// The skirmish set-up of a test game.
#[derive(Debug)]
pub struct SkirmishPlan {
    pub map_name: String,
    pub max_players: u8,
    /// Scavengers in the game: none.
    pub scavengers: u8,
    pub difficulty: &'static str,
    pub power_level: u8,
    /// Starting base level.
    pub bases: u8,
    /// Slot `i` is player `i`.
    pub slots: Vec<SkirmishSlot>,
}

/// Players of a test game: as many as the map has, but at least two.
pub open spec fn skirmish_players(players: u8) -> u8 {
    if players < 2 {
        2
    } else {
        players
    }
}

/// The skirmish set-up for a map: at least two players; player 0 is the
/// human on team 0, every other player a medium AI on a team of its own; no
/// scavengers, medium difficulty, power level 1 and bases level 1.
pub fn skirmish_plan(map_name: &str, players: u8) -> (r: SkirmishPlan)
    ensures
        r.map_name@ == map_name@,
        r.max_players == skirmish_players(players),
        r.slots@.len() == r.max_players,
        r.scavengers == 0,
        r.difficulty@ == TEST_DIFFICULTY@,
        r.power_level == 1,
        r.bases == 1,
        r.slots@[0] == (SkirmishSlot { team: 0, ai: None, difficulty: None }),
        forall|i: int| 1 <= i < r.slots@.len() ==> (#[trigger] r.slots@[i]).team == i && (r.slots@[i].ai
            matches Some(a) && a@ == TEST_AI_SCRIPT@) && (r.slots@[i].difficulty matches Some(d) && d@
            == TEST_DIFFICULTY@),
{
    let players = if players < MIN_SKIRMISH_PLAYERS {
        MIN_SKIRMISH_PLAYERS
    } else {
        players
    };
    let mut slots: Vec<SkirmishSlot> = Vec::new();
    slots.push(SkirmishSlot { team: 0, ai: None, difficulty: None });
    let mut i: u8 = 1;
    while i < players
        invariant
            1 <= i <= players,
            slots@.len() == i,
            slots@[0] == (SkirmishSlot { team: 0, ai: None, difficulty: None }),
            forall|k: int| 1 <= k < slots@.len() ==> (#[trigger] slots@[k]).team == k && (slots@[k].ai
                matches Some(a) && a@ == TEST_AI_SCRIPT@) && (slots@[k].difficulty matches Some(d) && d@
                == TEST_DIFFICULTY@),
        decreases players - i,
    {
        slots.push(SkirmishSlot { team: i, ai: Some(TEST_AI_SCRIPT), difficulty: Some(TEST_DIFFICULTY) });
        i = i + 1;
    }
    SkirmishPlan {
        map_name: crate::text::owned(map_name),
        max_players: players,
        scavengers: 0,
        difficulty: TEST_DIFFICULTY,
        power_level: 1,
        bases: 1,
        slots,
    }
}

/// Why a test launch stops before it touches the disk.
#[derive(Debug, Clone, Copy, PartialEq, Eq, Structural)]
pub enum LaunchBlock {
    NoMap,
    NoInstallDir,
    AlreadyRunning,
}

impl LaunchBlock {
    /// The line logged for it.
    pub fn message(self) -> (r: &'static str)
        ensures
            r@ == match self {
                LaunchBlock::NoMap => "No map loaded"@,
                LaunchBlock::NoInstallDir => "No game install directory set"@,
                LaunchBlock::AlreadyRunning => "Test game is already running"@,
            },
    {
        match self {
            LaunchBlock::NoMap => "No map loaded",
            LaunchBlock::NoInstallDir => "No game install directory set",
            LaunchBlock::AlreadyRunning => "Test game is already running",
        }
    }

    /// Whether it is logged as a warning; the others are plain messages.
    pub fn is_warning(self) -> (r: bool)
        ensures
            r == (self == LaunchBlock::AlreadyRunning),
    {
        match self {
            LaunchBlock::AlreadyRunning => true,
            _ => false,
        }
    }
}

/// The first reason, in the order a launch checks them, that a test game
/// cannot start: no map open, no game directory, a test game running.
pub fn launch_block(has_document: bool, has_install_dir: bool, test_running: bool) -> (r: Option<LaunchBlock>)
    ensures
        r == (if !has_document {
            Some(LaunchBlock::NoMap)
        } else if !has_install_dir {
            Some(LaunchBlock::NoInstallDir)
        } else if test_running {
            Some(LaunchBlock::AlreadyRunning)
        } else {
            None
        }),
{
    if !has_document {
        Some(LaunchBlock::NoMap)
    } else if !has_install_dir {
        Some(LaunchBlock::NoInstallDir)
    } else if test_running {
        Some(LaunchBlock::AlreadyRunning)
    } else {
        None
    }
}

} // verus!
