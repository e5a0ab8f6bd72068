//! Property-panel edits: a snapshot of the selected object taken when a
//! gesture starts, the single undo command a finished gesture becomes, and
//! the panel's small value helpers.
use vstd::prelude::*;
use vstd::std_specs::cmp::PartialEqSpec;

use crate::gateway_tool::ReplaceGatewayCommand;
use crate::history::{lemma_undo_inverts_execute, EditCommand};
use crate::label_tool::MoveLabelCommand;
use crate::map_model::{Droid, Feature, Gateway, MapModel, ScriptLabel, Structure, WorldPos, WzMap};
use crate::object_edit::{ObjectValue, ReplaceObjectCommand};
use crate::text::{owned, push_i64};

verus! {

/// Player number of the scavenger faction.
pub const PLAYER_SCAVENGERS: i8 = -1;

/// Direction units of a quarter turn.
pub const DIRECTION_QUARTER: u16 = 16384;

/// One selected item, by its index in the map's list of that kind.
#[derive(Debug, Clone, Copy, PartialEq, Eq)]
pub enum SelectedObject {
    Structure(usize),
    Droid(usize),
    Feature(usize),
    Label(usize),
    Gateway(usize),
}

/// A saved copy of whichever object the panel is editing.
#[derive(Debug)]
pub enum PropertyValue {
    Structure(Structure),
    Droid(Droid),
    Feature(Feature),
    Label(ScriptLabel),
    Gateway(Gateway),
}

impl Clone for PropertyValue {
    fn clone(&self) -> (r: Self)
        ensures
            r == *self,
    {
        match self {
            PropertyValue::Structure(s) => PropertyValue::Structure(s.clone()),
            PropertyValue::Droid(d) => PropertyValue::Droid(d.clone()),
            PropertyValue::Feature(f) => PropertyValue::Feature(f.clone()),
            PropertyValue::Label(l) => PropertyValue::Label(l.clone()),
            PropertyValue::Gateway(g) => PropertyValue::Gateway(*g),
        }
    }
}

/// Index of the selected item within its list.
pub open spec fn target_index(target: SelectedObject) -> usize {
    match target {
        SelectedObject::Structure(i) => i,
        SelectedObject::Droid(i) => i,
        SelectedObject::Feature(i) => i,
        SelectedObject::Label(i) => i,
        SelectedObject::Gateway(i) => i,
    }
}

/// The selected item's current value, `None` when its index is stale.
pub open spec fn spec_snapshot(m: MapModel, target: SelectedObject) -> Option<PropertyValue> {
    match target {
        SelectedObject::Structure(i) => if i < m.structures.len() {
            Some(PropertyValue::Structure(m.structures[i as int]))
        } else {
            None
        },
        SelectedObject::Droid(i) => if i < m.droids.len() {
            Some(PropertyValue::Droid(m.droids[i as int]))
        } else {
            None
        },
        SelectedObject::Feature(i) => if i < m.features.len() {
            Some(PropertyValue::Feature(m.features[i as int]))
        } else {
            None
        },
        SelectedObject::Label(i) => if i < m.labels.len() {
            Some(PropertyValue::Label(m.labels[i as int].1))
        } else {
            None
        },
        SelectedObject::Gateway(i) => if i < m.gateways.len() {
            Some(PropertyValue::Gateway(m.gateways[i as int]))
        } else {
            None
        },
    }
}

/// Copy the selected object out of the map.
pub fn snapshot(map: &WzMap, target: SelectedObject) -> (r: Option<PropertyValue>)
    ensures
        r == spec_snapshot(map@, target),
{
    match target {
        SelectedObject::Structure(i) => if i < map.structures.len() {
            Some(PropertyValue::Structure(map.structures[i].clone()))
        } else {
            None
        },
        SelectedObject::Droid(i) => if i < map.droids.len() {
            Some(PropertyValue::Droid(map.droids[i].clone()))
        } else {
            None
        },
        SelectedObject::Feature(i) => if i < map.features.len() {
            Some(PropertyValue::Feature(map.features[i].clone()))
        } else {
            None
        },
        SelectedObject::Label(i) => if i < map.labels.len() {
            Some(PropertyValue::Label(map.labels[i].1.clone()))
        } else {
            None
        },
        SelectedObject::Gateway(i) => if i < map.map_data.gateways.len() {
            Some(PropertyValue::Gateway(map.map_data.gateways[i]))
        } else {
            None
        },
    }
}

/// The undo command of a finished edit: the object kind's replace command
/// at the target's index, or `None` when the two snapshots differ in kind.
pub open spec fn spec_replace_command(target: SelectedObject, before: PropertyValue, after: PropertyValue) -> Option<
    EditCommand,
> {
    let index = target_index(target);
    match (before, after) {
        (PropertyValue::Structure(b), PropertyValue::Structure(a)) => Some(
            EditCommand::ReplaceObject(
                ReplaceObjectCommand { index, before: ObjectValue::Structure(b), after: ObjectValue::Structure(a) },
            ),
        ),
        (PropertyValue::Droid(b), PropertyValue::Droid(a)) => Some(
            EditCommand::ReplaceObject(
                ReplaceObjectCommand { index, before: ObjectValue::Droid(b), after: ObjectValue::Droid(a) },
            ),
        ),
        (PropertyValue::Feature(b), PropertyValue::Feature(a)) => Some(
            EditCommand::ReplaceObject(
                ReplaceObjectCommand { index, before: ObjectValue::Feature(b), after: ObjectValue::Feature(a) },
            ),
        ),
        (PropertyValue::Label(b), PropertyValue::Label(a)) => Some(
            EditCommand::MoveLabel(MoveLabelCommand { index, old_label: b, new_label: a }),
        ),
        (PropertyValue::Gateway(b), PropertyValue::Gateway(a)) => Some(
            EditCommand::ReplaceGateway(ReplaceGatewayCommand { index, before: b, after: a }),
        ),
        _ => None,
    }
}

/// Build the undo command for a completed edit. Returns `None` if the two
/// snapshots are of different kinds, which cannot happen for a single target.
pub fn replace_command(target: SelectedObject, before: PropertyValue, after: PropertyValue) -> (r: Option<
    EditCommand,
>)
    ensures
        r == spec_replace_command(target, before, after),
{
    let index = match target {
        SelectedObject::Structure(i) => i,
        SelectedObject::Droid(i) => i,
        SelectedObject::Feature(i) => i,
        SelectedObject::Label(i) => i,
        SelectedObject::Gateway(i) => i,
    };
    match (before, after) {
        (PropertyValue::Structure(b), PropertyValue::Structure(a)) => Some(
            EditCommand::ReplaceObject(ReplaceObjectCommand::structure(index, b, a)),
        ),
        (PropertyValue::Droid(b), PropertyValue::Droid(a)) => Some(
            EditCommand::ReplaceObject(ReplaceObjectCommand::droid(index, b, a)),
        ),
        (PropertyValue::Feature(b), PropertyValue::Feature(a)) => Some(
            EditCommand::ReplaceObject(ReplaceObjectCommand::feature(index, b, a)),
        ),
        (PropertyValue::Label(b), PropertyValue::Label(a)) => Some(
            EditCommand::MoveLabel(MoveLabelCommand { index, old_label: b, new_label: a }),
        ),
        (PropertyValue::Gateway(b), PropertyValue::Gateway(a)) => Some(
            EditCommand::ReplaceGateway(ReplaceGatewayCommand { index, before: b, after: a }),
        ),
        _ => None,
    }
}

/// Both values are of the same object kind.
pub open spec fn same_kind(a: PropertyValue, b: PropertyValue) -> bool {
    match (a, b) {
        (PropertyValue::Structure(_), PropertyValue::Structure(_)) => true,
        (PropertyValue::Droid(_), PropertyValue::Droid(_)) => true,
        (PropertyValue::Feature(_), PropertyValue::Feature(_)) => true,
        (PropertyValue::Label(_), PropertyValue::Label(_)) => true,
        (PropertyValue::Gateway(_), PropertyValue::Gateway(_)) => true,
        _ => false,
    }
}

/// One gesture, one undo step: the command built from the snapshot taken
/// when an edit of the selected object began, and any new value of the same
/// kind, when undone after it was executed gives back the map the edit
/// started from.
pub proof fn lemma_edit_gesture_undo_restores(m: MapModel, target: SelectedObject, after: PropertyValue)
    requires
        spec_snapshot(m, target) matches Some(before) && same_kind(before, after),
    ensures
        spec_replace_command(target, spec_snapshot(m, target)->0, after) matches Some(c) && c.revert(c.apply(m))
            == m,
{
    let before = spec_snapshot(m, target)->0;
    let c = spec_replace_command(target, before, after)->0;
    assert(c.matches(m));
    lemma_undo_inverts_execute(c, m);
}

/// Snap a direction to the nearest quarter-turn step (0 to 3).
pub fn direction_to_step(dir: u16) -> (r: u8)
    ensures
        r == ((dir as int + 8192) / 16384) % 4,
{
    (((dir as u32 + DIRECTION_QUARTER as u32 / 2) / DIRECTION_QUARTER as u32) % 4) as u8
}

pub open spec fn spec_player_label(p: i8) -> Seq<char> {
    if p == PLAYER_SCAVENGERS {
        "Scavenger"@
    } else {
        "Player "@ + crate::text::signed_decimal(p as int)
    }
}

/// Name of a player in the panel's pickers.
pub fn player_label(p: i8) -> (r: String)
    ensures
        r@ == spec_player_label(p),
{
    if p == PLAYER_SCAVENGERS {
        owned("Scavenger")
    } else {
        let mut s = owned("Player ");
        push_i64(&mut s, p as i64);
        s
    }
}

/// Fold one object's value into the value shared by a selection: the first
/// value is taken; once two values disagree `varies` latches and the shared
/// value is cleared.
pub fn merge_common<T: Copy + PartialEq + PartialEqSpec>(common: &mut Option<T>, varies: &mut bool, value: T)
    requires
        T::obeys_eq_spec(),
    ensures
        *old(varies) ==> *final(common) == *old(common) && *final(varies),
        !*old(varies) ==> match *old(common) {
            Some(v) => if v.eq_spec(&value) {
                *final(common) == *old(common) && !*final(varies)
            } else {
                *final(common) is None && *final(varies)
            },
            None => *final(common) == Some(value) && !*final(varies),
        },
{
    if *varies {
        return;
    }
    match *common {
        Some(v) => {
            if !(v == value) {
                *varies = true;
                *common = None;
            }
        },
        None => {
            *common = Some(value);
        },
    }
}

/// Whether anything changed this frame across the panel's widgets, and
/// whether the user is still mid-gesture.
#[derive(Debug, Default)]
pub struct EditActivity {
    pub changed: bool,
    pub active: bool,
}

impl EditActivity {
    /// Fold in one widget: whether it changed, and whether it is being
    /// dragged or has keyboard focus. Returns whether it changed.
    pub fn note(&mut self, changed: bool, dragged_or_focused: bool) -> (r: bool)
        ensures
            r == changed,
            final(self).changed == (old(self).changed || changed),
            final(self).active == (old(self).active || dragged_or_focused),
    {
        self.active = self.active || dragged_or_focused;
        self.changed = self.changed || changed;
        changed
    }

    /// Fold in a widget that reports only whether it changed.
    pub fn note_changed(&mut self, changed: bool)
        ensures
            final(self).changed == (old(self).changed || changed),
            final(self).active == old(self).active,
    {
        self.changed = self.changed || changed;
    }
}


/// `k` is the first structure standing exactly at `p`.
pub open spec fn first_structure_at(s: Seq<Structure>, p: WorldPos, k: int) -> bool {
    &&& 0 <= k < s.len() && s[k].position == p
    &&& forall|j: int| 0 <= j < k ==> (#[trigger] s[j]).position != p
}

/// `k` is the first droid standing exactly at `p`.
pub open spec fn first_droid_at(s: Seq<Droid>, p: WorldPos, k: int) -> bool {
    &&& 0 <= k < s.len() && s[k].position == p
    &&& forall|j: int| 0 <= j < k ==> (#[trigger] s[j]).position != p
}

/// `k` is the first feature standing exactly at `p`.
pub open spec fn first_feature_at(s: Seq<Feature>, p: WorldPos, k: int) -> bool {
    &&& 0 <= k < s.len() && s[k].position == p
    &&& forall|j: int| 0 <= j < k ==> (#[trigger] s[j]).position != p
}

/// The object a problem report points at: the first structure at exactly
/// `(x, y)`, else the first droid there, else the first feature there.
pub fn find_object_at(map: &WzMap, x: u32, y: u32) -> (r: Option<SelectedObject>)
    ensures
        ({
            let p = WorldPos { x, y };
            let m = map@;
            match r {
                Some(SelectedObject::Structure(i)) => first_structure_at(m.structures, p, i as int),
                Some(SelectedObject::Droid(i)) => (forall|j: int| 0 <= j < m.structures.len() ==> (#[trigger] m.structures[j]).position != p)
                    && first_droid_at(m.droids, p, i as int),
                Some(SelectedObject::Feature(i)) => (forall|j: int| 0 <= j < m.structures.len() ==> (#[trigger] m.structures[j]).position != p)
                    && (forall|j: int| 0 <= j < m.droids.len() ==> (#[trigger] m.droids[j]).position != p)
                    && first_feature_at(m.features, p, i as int),
                Some(_) => false,
                None => (forall|j: int| 0 <= j < m.structures.len() ==> (#[trigger] m.structures[j]).position != p)
                    && (forall|j: int| 0 <= j < m.droids.len() ==> (#[trigger] m.droids[j]).position != p)
                    && (forall|j: int| 0 <= j < m.features.len() ==> (#[trigger] m.features[j]).position != p),
            }
        }),
{
    let p = WorldPos { x, y };
    let mut i: usize = 0;
    while i < map.structures.len()
        invariant
            i <= map.structures@.len(),
            p == (WorldPos { x, y }),
            forall|j: int| 0 <= j < i ==> (#[trigger] map.structures@[j]).position != p,
        decreases map.structures@.len() - i,
    {
        if map.structures[i].position.x == x && map.structures[i].position.y == y {
            return Some(SelectedObject::Structure(i));
        }
        i = i + 1;
    }
    let mut i: usize = 0;
    while i < map.droids.len()
        invariant
            i <= map.droids@.len(),
            p == (WorldPos { x, y }),
            forall|j: int| 0 <= j < i ==> (#[trigger] map.droids@[j]).position != p,
            forall|j: int| 0 <= j < map.structures@.len() ==> (#[trigger] map.structures@[j]).position != p,
        decreases map.droids@.len() - i,
    {
        if map.droids[i].position.x == x && map.droids[i].position.y == y {
            return Some(SelectedObject::Droid(i));
        }
        i = i + 1;
    }
    let mut i: usize = 0;
    while i < map.features.len()
        invariant
            i <= map.features@.len(),
            p == (WorldPos { x, y }),
            forall|j: int| 0 <= j < i ==> (#[trigger] map.features@[j]).position != p,
            forall|j: int| 0 <= j < map.structures@.len() ==> (#[trigger] map.structures@[j]).position != p,
            forall|j: int| 0 <= j < map.droids@.len() ==> (#[trigger] map.droids@[j]).position != p,
        decreases map.features@.len() - i,
    {
        if map.features[i].position.x == x && map.features[i].position.y == y {
            return Some(SelectedObject::Feature(i));
        }
        i = i + 1;
    }
    None
}

/// `common` and `varies` after folding in `value` (see [`merge_common`]).
pub open spec fn merged<T>(common: Option<T>, varies: bool, value: T) -> (Option<T>, bool) {
    if varies {
        (common, varies)
    } else {
        match common {
            Some(v) => if v == value {
                (common, false)
            } else {
                (None, true)
            },
            None => (Some(value), false),
        }
    }
}

/// What the panel shows for a multi-selection: how many of each kind, how
/// many can take a player or a rotation, and the player and rotation step
/// they share (or that those vary).
#[derive(Debug, Clone, Copy, PartialEq, Eq)]
pub struct SelectionSummary {
    pub structures: usize,
    pub droids: usize,
    pub features: usize,
    pub player_targets: usize,
    pub rotation_targets: usize,
    pub common_player: Option<i8>,
    pub player_varies: bool,
    pub common_rotation: Option<u8>,
    pub rotation_varies: bool,
}

pub open spec fn spec_direction_step(dir: u16) -> u8 {
    (((dir as int + 8192) / 16384) % 4) as u8
}

/// The summary after one more selected item (stale indices and labels or
/// gateways count for nothing).
pub open spec fn summary_step(m: MapModel, acc: SelectionSummary, obj: SelectedObject) -> SelectionSummary {
    match obj {
        SelectedObject::Structure(i) => if i < m.structures.len() {
            let s = m.structures[i as int];
            let p = merged(acc.common_player, acc.player_varies, s.player);
            let r = merged(acc.common_rotation, acc.rotation_varies, spec_direction_step(s.direction));
            SelectionSummary {
                structures: (acc.structures + 1) as usize,
                player_targets: (acc.player_targets + 1) as usize,
                rotation_targets: (acc.rotation_targets + 1) as usize,
                common_player: p.0,
                player_varies: p.1,
                common_rotation: r.0,
                rotation_varies: r.1,
                ..acc
            }
        } else {
            acc
        },
        SelectedObject::Droid(i) => if i < m.droids.len() {
            let d = m.droids[i as int];
            let p = merged(acc.common_player, acc.player_varies, d.player);
            let r = merged(acc.common_rotation, acc.rotation_varies, spec_direction_step(d.direction));
            SelectionSummary {
                droids: (acc.droids + 1) as usize,
                player_targets: (acc.player_targets + 1) as usize,
                rotation_targets: (acc.rotation_targets + 1) as usize,
                common_player: p.0,
                player_varies: p.1,
                common_rotation: r.0,
                rotation_varies: r.1,
                ..acc
            }
        } else {
            acc
        },
        SelectedObject::Feature(i) => if i < m.features.len() {
            let f = m.features[i as int];
            let r = merged(acc.common_rotation, acc.rotation_varies, spec_direction_step(f.direction));
            let with_rot = SelectionSummary {
                features: (acc.features + 1) as usize,
                rotation_targets: (acc.rotation_targets + 1) as usize,
                common_rotation: r.0,
                rotation_varies: r.1,
                ..acc
            };
            match f.player {
                Some(fp) => {
                    let p = merged(acc.common_player, acc.player_varies, fp);
                    SelectionSummary {
                        player_targets: (acc.player_targets + 1) as usize,
                        common_player: p.0,
                        player_varies: p.1,
                        ..with_rot
                    }
                },
                None => with_rot,
            }
        } else {
            acc
        },
        _ => acc,
    }
}

pub open spec fn empty_summary() -> SelectionSummary {
    SelectionSummary {
        structures: 0,
        droids: 0,
        features: 0,
        player_targets: 0,
        rotation_targets: 0,
        common_player: None,
        player_varies: false,
        common_rotation: None,
        rotation_varies: false,
    }
}

/// The summary of the first `n` selected items.
pub open spec fn spec_summary(m: MapModel, sel: Seq<SelectedObject>, n: int) -> SelectionSummary
    decreases n,
{
    if n <= 0 {
        empty_summary()
    } else {
        summary_step(m, spec_summary(m, sel, n - 1), sel[n - 1])
    }
}

/// Summarise a multi-selection for the panel.
pub fn summarize_selection(map: &WzMap, selection: &[SelectedObject]) -> (r: SelectionSummary)
    ensures
        r == spec_summary(map@, selection@, selection@.len() as int),
{
    let mut acc = SelectionSummary {
        structures: 0,
        droids: 0,
        features: 0,
        player_targets: 0,
        rotation_targets: 0,
        common_player: None,
        player_varies: false,
        common_rotation: None,
        rotation_varies: false,
    };
    let mut i: usize = 0;
    while i < selection.len()
        invariant
            i <= selection@.len(),
            acc == spec_summary(map@, selection@, i as int),
            acc.structures <= i && acc.droids <= i && acc.features <= i && acc.player_targets <= i
                && acc.rotation_targets <= i,
        decreases selection@.len() - i,
    {
        match selection[i] {
            SelectedObject::Structure(k) => if k < map.structures.len() {
                let s = &map.structures[k];
                acc.structures = acc.structures + 1;
                acc.player_targets = acc.player_targets + 1;
                acc.rotation_targets = acc.rotation_targets + 1;
                merge_common(&mut acc.common_player, &mut acc.player_varies, s.player);
                merge_common(&mut acc.common_rotation, &mut acc.rotation_varies, direction_to_step(s.direction));
            },
            SelectedObject::Droid(k) => if k < map.droids.len() {
                let d = &map.droids[k];
                acc.droids = acc.droids + 1;
                acc.player_targets = acc.player_targets + 1;
                acc.rotation_targets = acc.rotation_targets + 1;
                merge_common(&mut acc.common_player, &mut acc.player_varies, d.player);
                merge_common(&mut acc.common_rotation, &mut acc.rotation_varies, direction_to_step(d.direction));
            },
            SelectedObject::Feature(k) => if k < map.features.len() {
                let f = &map.features[k];
                acc.features = acc.features + 1;
                acc.rotation_targets = acc.rotation_targets + 1;
                merge_common(&mut acc.common_rotation, &mut acc.rotation_varies, direction_to_step(f.direction));
                match f.player {
                    Some(p) => {
                        acc.player_targets = acc.player_targets + 1;
                        merge_common(&mut acc.common_player, &mut acc.player_varies, p);
                    },
                    None => {},
                }
            },
            _ => {},
        }
        i = i + 1;
    }
    acc
}

/// A structure after the panel's multi-edit: the new rotation step and
/// player, where chosen.
pub open spec fn edited_structure(s: Structure, step: Option<u8>, player: Option<i8>) -> Structure {
    Structure {
        direction: match step {
            Some(k) => (k * 16384) as u16,
            None => s.direction,
        },
        player: match player {
            Some(p) => p,
            None => s.player,
        },
        ..s
    }
}

pub open spec fn edited_droid(d: Droid, step: Option<u8>, player: Option<i8>) -> Droid {
    Droid {
        direction: match step {
            Some(k) => (k * 16384) as u16,
            None => d.direction,
        },
        player: match player {
            Some(p) => p,
            None => d.player,
        },
        ..d
    }
}

/// Features take a new player only when they have an owner already.
pub open spec fn edited_feature(f: Feature, step: Option<u8>, player: Option<i8>) -> Feature {
    Feature {
        direction: match step {
            Some(k) => (k * 16384) as u16,
            None => f.direction,
        },
        player: match (player, f.player) {
            (Some(p), Some(_)) => Some(p),
            _ => f.player,
        },
        ..f
    }
}

/// The command (if any) and map after editing one selected item of `m`.
pub open spec fn edit_one(m: MapModel, obj: SelectedObject, step: Option<u8>, player: Option<i8>) -> Option<EditCommand> {
    match obj {
        SelectedObject::Structure(i) => if i < m.structures.len() && (step is Some || player is Some) {
            let b = m.structures[i as int];
            Some(EditCommand::ReplaceObject(ReplaceObjectCommand {
                index: i,
                before: ObjectValue::Structure(b),
                after: ObjectValue::Structure(edited_structure(b, step, player)),
            }))
        } else {
            None
        },
        SelectedObject::Droid(i) => if i < m.droids.len() && (step is Some || player is Some) {
            let b = m.droids[i as int];
            Some(EditCommand::ReplaceObject(ReplaceObjectCommand {
                index: i,
                before: ObjectValue::Droid(b),
                after: ObjectValue::Droid(edited_droid(b, step, player)),
            }))
        } else {
            None
        },
        SelectedObject::Feature(i) => if i < m.features.len() && (step is Some || (player is Some
            && m.features[i as int].player is Some)) {
            let b = m.features[i as int];
            Some(EditCommand::ReplaceObject(ReplaceObjectCommand {
                index: i,
                before: ObjectValue::Feature(b),
                after: ObjectValue::Feature(edited_feature(b, step, player)),
            }))
        } else {
            None
        },
        _ => None,
    }
}

/// Commands recorded for the first `n` selected items, and the map they
/// leave.
pub open spec fn selection_edit(m: MapModel, sel: Seq<SelectedObject>, n: int, step: Option<u8>, player: Option<i8>) -> (Seq<EditCommand>, MapModel)
    decreases n,
{
    if n <= 0 {
        (Seq::empty(), m)
    } else {
        let (cmds, cur) = selection_edit(m, sel, n - 1, step, player);
        match edit_one(cur, sel[n - 1], step, player) {
            Some(c) => (cmds.push(c), c.apply(cur)),
            None => (cmds, cur),
        }
    }
}

/// The recorded commands replay the edit and match the maps they were
/// recorded against.
proof fn lemma_selection_edit_replays(m: MapModel, sel: Seq<SelectedObject>, n: int, step: Option<u8>, player: Option<i8>)
    requires
        0 <= n,
    ensures
        crate::history::apply_all(selection_edit(m, sel, n, step, player).0, m) == selection_edit(m, sel, n, step, player).1,
        crate::history::matches_all(selection_edit(m, sel, n, step, player).0, m),
    decreases n,
{
    if n > 0 {
        lemma_selection_edit_replays(m, sel, n - 1, step, player);
        let (cmds, cur) = selection_edit(m, sel, n - 1, step, player);
        match edit_one(cur, sel[n - 1], step, player) {
            Some(c) => {
                assert(cmds.push(c).drop_last() =~= cmds);
                assert(cmds.push(c).last() == c);
                match c {
                    EditCommand::ReplaceObject(r) => {
                        assert(r.matches(cur));
                    },
                    _ => {},
                }
                assert(c.matches(cur));
            },
            None => {},
        }
    }
}

/// Setting the rotation or player of a whole selection is one undo step:
/// undoing the recorded commands, last first, gives back the map the edit
/// started from.
pub proof fn lemma_selection_edit_undo_restores(m: MapModel, sel: Seq<SelectedObject>, step: Option<u8>, player: Option<i8>)
    ensures
        crate::history::revert_all(
            selection_edit(m, sel, sel.len() as int, step, player).0,
            selection_edit(m, sel, sel.len() as int, step, player).1,
        ) == m,
{
    lemma_selection_edit_replays(m, sel, sel.len() as int, step, player);
    crate::history::lemma_undo_inverts_execute_all(selection_edit(m, sel, sel.len() as int, step, player).0, m);
}

/// Apply a new rotation step and/or player to every selected object that
/// can take it, returning one replace command per object changed, in
/// selection order (the caller records them as one compound step).
pub fn apply_to_selection(map: &mut WzMap, selection: &[SelectedObject], step: Option<u8>, player: Option<i8>) -> (r: Vec<EditCommand>)
    requires
        step matches Some(k) ==> k < 4,
    ensures
        r@ == selection_edit(old(map)@, selection@, selection@.len() as int, step, player).0,
        final(map)@ == selection_edit(old(map)@, selection@, selection@.len() as int, step, player).1,
{
    let mut cmds: Vec<EditCommand> = Vec::new();
    let new_dir: Option<u16> = match step {
        Some(k) => Some(k as u16 * DIRECTION_QUARTER),
        None => None,
    };
    let mut i: usize = 0;
    while i < selection.len()
        invariant
            i <= selection@.len(),
            step matches Some(k) ==> k < 4,
            new_dir == (match step {
                Some(k) => Some((k * 16384) as u16),
                None => None::<u16>,
            }),
            (cmds@, map@) == selection_edit(old(map)@, selection@, i as int, step, player),
        decreases selection@.len() - i,
    {
        let ghost cur = map@;
        match selection[i] {
            SelectedObject::Structure(k) => if k < map.structures.len() && (step.is_some() || player.is_some()) {
                let before = map.structures[k].clone();
                let mut after = before.clone();
                match new_dir {
                    Some(d) => {
                        after.direction = d;
                    },
                    None => {},
                }
                match player {
                    Some(p) => {
                        after.player = p;
                    },
                    None => {},
                }
                let c = EditCommand::ReplaceObject(ReplaceObjectCommand::structure(k, before, after));
                c.execute(map);
                cmds.push(c);
            },
            SelectedObject::Droid(k) => if k < map.droids.len() && (step.is_some() || player.is_some()) {
                let before = map.droids[k].clone();
                let mut after = before.clone();
                match new_dir {
                    Some(d) => {
                        after.direction = d;
                    },
                    None => {},
                }
                match player {
                    Some(p) => {
                        after.player = p;
                    },
                    None => {},
                }
                let c = EditCommand::ReplaceObject(ReplaceObjectCommand::droid(k, before, after));
                c.execute(map);
                cmds.push(c);
            },
            SelectedObject::Feature(k) => if k < map.features.len() && (step.is_some() || (player.is_some()
                && map.features[k].player.is_some())) {
                let before = map.features[k].clone();
                let mut after = before.clone();
                match new_dir {
                    Some(d) => {
                        after.direction = d;
                    },
                    None => {},
                }
                match (player, after.player) {
                    (Some(p), Some(_)) => {
                        after.player = Some(p);
                    },
                    _ => {},
                }
                let c = EditCommand::ReplaceObject(ReplaceObjectCommand::feature(k, before, after));
                c.execute(map);
                cmds.push(c);
            },
            _ => {},
        }
        proof {
            assert(selection_edit(old(map)@, selection@, i as int + 1, step, player) == (match edit_one(
                cur,
                selection@[i as int],
                step,
                player,
            ) {
                Some(c) => (selection_edit(old(map)@, selection@, i as int, step, player).0.push(c), c.apply(cur)),
                None => selection_edit(old(map)@, selection@, i as int, step, player),
            }));
        }
        i = i + 1;
    }
    cmds
}

/// A panel edit that has not reached the undo history yet: the object and
/// its value when the gesture began. A drag reports a change every frame;
/// the gesture becomes a single undo entry once it ends.
#[derive(Debug)]
pub struct PropertyEdit {
    pub target: SelectedObject,
    pub before: PropertyValue,
}

/// End of a panel frame. A change starts a pending edit (unless one is
/// pending already) from the snapshot `before` taken at the frame's start;
/// once no widget is being dragged or focused, a pending edit is closed
/// and its replace command returned for the undo history (`None` when its
/// object is gone).
pub fn finish_frame(
    pending: &mut Option<PropertyEdit>,
    map: &WzMap,
    target: SelectedObject,
    before: Option<PropertyValue>,
    act: &EditActivity,
) -> (r: Option<EditCommand>)
    ensures
        ({
            let started: Option<(SelectedObject, PropertyValue)> = match *old(pending) {
                Some(e) => Some((e.target, e.before)),
                None => if act.changed && before is Some {
                    Some((target, before->0))
                } else {
                    None
                },
            };
            if act.active {
                &&& r is None
                &&& match started {
                    Some((t, b)) => *final(pending) == Some(PropertyEdit { target: t, before: b }),
                    None => *final(pending) is None,
                }
            } else {
                &&& *final(pending) is None
                &&& r == match started {
                    Some((t, b)) => match spec_snapshot(map@, t) {
                        Some(after) => spec_replace_command(t, b, after),
                        None => None,
                    },
                    None => None,
                }
            }
        }),
{
    if act.changed && pending.is_none() {
        match before {
            Some(b) => {
                *pending = Some(PropertyEdit { target, before: b });
            },
            None => {},
        }
    }
    if act.active {
        return None;
    }
    match pending.take() {
        Some(edit) => match snapshot(map, edit.target) {
            Some(after) => replace_command(edit.target, edit.before, after),
            None => None,
        },
        None => None,
    }
}

} // verus!
