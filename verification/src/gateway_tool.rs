//! Gateway creation and deletion with undo/redo, and the drag tool.
use vstd::prelude::*;

use crate::history::EditCommand;
use crate::map_model::{Gateway, MapModel, WorldPos, WzMap, TILE_UNITS};
use crate::seq_ops::{insert_clamped, pop_last, remove_at, replace_at};

verus! {

/// Command: add a gateway.
#[derive(Debug)]
pub struct AddGatewayCommand {
    pub gateway: Gateway,
}

impl AddGatewayCommand {
    pub open spec fn apply(&self, m: MapModel) -> MapModel {
        MapModel { gateways: m.gateways.push(self.gateway), ..m }
    }

    pub open spec fn revert(&self, m: MapModel) -> MapModel {
        MapModel { gateways: pop_last(m.gateways), ..m }
    }

    /// Append the gateway.
    pub fn execute(&self, map: &mut WzMap)
        ensures
            final(map)@ == self.apply(old(map)@),
    {
        map.map_data.gateways.push(self.gateway);
        assert(map@ =~= self.apply(old(map)@));
    }

    /// Remove the last gateway.
    pub fn undo(&self, map: &mut WzMap)
        ensures
            final(map)@ == self.revert(old(map)@),
    {
        map.map_data.gateways.pop();
        assert(map@ =~= self.revert(old(map)@));
    }
}

/// Command: delete gateway `index`, keeping a copy for undo.
#[derive(Debug)]
pub struct DeleteGatewayCommand {
    pub index: usize,
    pub saved: Gateway,
}

impl DeleteGatewayCommand {
    pub open spec fn apply(&self, m: MapModel) -> MapModel {
        MapModel { gateways: remove_at(m.gateways, self.index as int), ..m }
    }

    pub open spec fn revert(&self, m: MapModel) -> MapModel {
        MapModel { gateways: insert_clamped(m.gateways, self.index as int, self.saved), ..m }
    }

    /// The saved copy is the gateway at `index`.
    pub open spec fn matches(&self, m: MapModel) -> bool {
        self.index < m.gateways.len() && m.gateways[self.index as int] == self.saved
    }

    /// Remove gateway `index` when it exists.
    pub fn execute(&self, map: &mut WzMap)
        ensures
            final(map)@ == self.apply(old(map)@),
    {
        if self.index < map.map_data.gateways.len() {
            map.map_data.gateways.remove(self.index);
        }
        assert(map@ =~= self.apply(old(map)@));
    }

    /// Re-insert the saved gateway at its index, clamped to the list length.
    pub fn undo(&self, map: &mut WzMap)
        ensures
            final(map)@ == self.revert(old(map)@),
    {
        let idx = if self.index < map.map_data.gateways.len() {
            self.index
        } else {
            map.map_data.gateways.len()
        };
        map.map_data.gateways.insert(idx, self.saved);
        assert(map@ =~= self.revert(old(map)@));
    }
}

/// Command: overwrite gateway `index` (an edit from the property panel);
/// `before` is written back on undo.
#[derive(Debug)]
pub struct ReplaceGatewayCommand {
    pub index: usize,
    pub before: Gateway,
    pub after: Gateway,
}

impl ReplaceGatewayCommand {
    pub open spec fn apply(&self, m: MapModel) -> MapModel {
        MapModel { gateways: replace_at(m.gateways, self.index as int, self.after), ..m }
    }

    pub open spec fn revert(&self, m: MapModel) -> MapModel {
        MapModel { gateways: replace_at(m.gateways, self.index as int, self.before), ..m }
    }

    /// `before` is what the map holds at `index` (or the index is stale).
    pub open spec fn matches(&self, m: MapModel) -> bool {
        0 <= self.index < m.gateways.len() ==> m.gateways[self.index as int] == self.before
    }

    /// Write `after` over gateway `index` when it exists.
    pub fn execute(&self, map: &mut WzMap)
        ensures
            final(map)@ == self.apply(old(map)@),
    {
        if self.index < map.map_data.gateways.len() {
            map.map_data.gateways.set(self.index, self.after);
        }
        assert(map@ =~= self.apply(old(map)@));
    }

    /// Write `before` back over gateway `index` when it exists.
    pub fn undo(&self, map: &mut WzMap)
        ensures
            final(map)@ == self.revert(old(map)@),
    {
        if self.index < map.map_data.gateways.len() {
            map.map_data.gateways.set(self.index, self.before);
        }
        assert(map@ =~= self.revert(old(map)@));
    }
}

pub open spec fn min_u32(a: u32, b: u32) -> u32 {
    if a < b {
        a
    } else {
        b
    }
}

pub open spec fn max_u32(a: u32, b: u32) -> u32 {
    if a < b {
        b
    } else {
        a
    }
}

/// The gateway spanned by two tile corners, each side clamped to 255 since
/// endpoints are stored as bytes.
pub open spec fn gateway_between(a: (u32, u32), b: (u32, u32)) -> Gateway {
    Gateway {
        x1: min_u32(min_u32(a.0, b.0), 255) as u8,
        y1: min_u32(min_u32(a.1, b.1), 255) as u8,
        x2: min_u32(max_u32(a.0, b.0), 255) as u8,
        y2: min_u32(max_u32(a.1, b.1), 255) as u8,
    }
}

fn world_pos_to_tile(pos: WorldPos) -> (r: (u32, u32))
    ensures
        r == ((pos.x / TILE_UNITS) as u32, (pos.y / TILE_UNITS) as u32),
{
    (pos.x / TILE_UNITS, pos.y / TILE_UNITS)
}

/// Drag-rectangle gateway placement. Owns the in-flight start tile.
#[derive(Debug, Default)]
pub struct GatewayTool {
    pub drag_start: Option<(u32, u32)>,
}

impl GatewayTool {
    /// In-flight drag start.
    pub fn drag_start(&self) -> (r: Option<(u32, u32)>)
        ensures
            r == self.drag_start,
    {
        self.drag_start
    }

    /// Press: the drag starts at the pressed tile.
    pub fn on_mouse_press(&mut self, pos: WorldPos)
        ensures
            final(self).drag_start == Some(((pos.x / TILE_UNITS) as u32, (pos.y / TILE_UNITS) as u32)),
    {
        self.drag_start = Some(world_pos_to_tile(pos));
    }

    /// Release: add the gateway spanning the drag start and the released tile,
    /// and return the applied command. The drag start is cleared either way.
    pub fn on_mouse_release(&mut self, map: &mut WzMap, pos: Option<WorldPos>) -> (r: Option<EditCommand>)
        ensures
            final(self).drag_start is None,
            r is None <==> (old(self).drag_start is None || pos is None),
            r is None ==> final(map)@ == old(map)@,
            r matches Some(cmd) ==> {
                &&& cmd matches EditCommand::AddGateway(c)
                &&& c.gateway == gateway_between(
                    old(self).drag_start->0,
                    ((pos->0.x / TILE_UNITS) as u32, (pos->0.y / TILE_UNITS) as u32),
                )
                &&& final(map)@ == c.apply(old(map)@)
            },
    {
        let start = self.drag_start.take();
        let (sx, sy) = match start {
            Some(s) => s,
            None => return None,
        };
        let end_pos = match pos {
            Some(p) => p,
            None => return None,
        };
        let (tx, ty) = world_pos_to_tile(end_pos);
        let lo_x = if sx < tx { sx } else { tx };
        let lo_y = if sy < ty { sy } else { ty };
        let hi_x = if sx < tx { tx } else { sx };
        let hi_y = if sy < ty { ty } else { sy };
        let gw = Gateway {
            x1: (if lo_x < 255 { lo_x } else { 255 }) as u8,
            y1: (if lo_y < 255 { lo_y } else { 255 }) as u8,
            x2: (if hi_x < 255 { hi_x } else { 255 }) as u8,
            y2: (if hi_y < 255 { hi_y } else { 255 }) as u8,
        };
        let cmd = AddGatewayCommand { gateway: gw };
        cmd.execute(map);
        Some(EditCommand::AddGateway(cmd))
    }

    /// Deactivation cancels any in-flight drag.
    pub fn on_deactivated(&mut self) -> (r: Option<EditCommand>)
        ensures
            r is None,
            final(self).drag_start is None,
    {
        self.drag_start = None;
        None
    }
}

} // verus!
