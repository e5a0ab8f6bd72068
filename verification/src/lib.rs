//! Editing logic of a Warzone 2100 map editor: the map document and its
//! undoable commands, wall and stamp tools, droid-template validation, the
//! help browser's content and search, balance analysis and assorted helpers.
pub mod balance;
pub mod balance_panel;
pub mod designer;
pub mod file_index;
pub mod gateway_tool;
pub mod help;
pub mod help_search;
pub mod history;
pub mod keyed_table;
pub mod label_tool;
pub mod loader_cache;
pub mod logger;
pub mod map_model;
pub mod object_edit;
pub mod page_atlas;
pub mod property_edit;
pub mod render_diag;
pub mod seq_ops;
pub mod stats;
pub mod stats_bridge;
pub mod stats_mapper;
pub mod stamp_command;
pub mod stamp_tool;
pub mod stamp_transform;
pub mod testing;
pub mod text;
pub mod wall_render;
pub mod wall_tool;
pub mod water;

use vstd::prelude::*;

verus! {

/// XOR-fold a 64-bit seed to 32 bits so the upper half still influences it.
pub fn fold_seed_u32(seed: u64) -> (r: u32)
    ensures
        r == ((seed ^ (seed >> 32u64)) & 0xFFFF_FFFFu64),
{
    let v: u64 = (seed ^ (seed >> 32)) & 0xFFFF_FFFF;
    assert(v <= 0xFFFF_FFFFu64) by (bit_vector)
        requires v == (seed ^ (seed >> 32u64)) & 0xFFFF_FFFFu64;
    v as u32
}

} // verus!
