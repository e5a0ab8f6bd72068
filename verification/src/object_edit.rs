//! Undoable commands that place, delete, move, rotate and overwrite objects.
use vstd::prelude::*;

use crate::map_model::{Droid, Feature, MapModel, Structure, WorldPos, WzMap};
use crate::seq_ops::{insert_clamped, pop_last, remove_at, replace_at};

verus! {

/// Which object list a command operates on.
#[derive(Debug, Clone, Copy, PartialEq, Eq)]
pub enum ObjectKind {
    Structure,
    Droid,
    Feature,
}

pub open spec fn structure_at_pos(s: Structure, p: WorldPos) -> Structure {
    Structure { position: p, ..s }
}

pub open spec fn droid_at_pos(d: Droid, p: WorldPos) -> Droid {
    Droid { position: p, ..d }
}

pub open spec fn feature_at_pos(f: Feature, p: WorldPos) -> Feature {
    Feature { position: p, ..f }
}

pub open spec fn structure_facing(s: Structure, dir: u16) -> Structure {
    Structure { direction: dir, ..s }
}

pub open spec fn droid_facing(d: Droid, dir: u16) -> Droid {
    Droid { direction: dir, ..d }
}

pub open spec fn feature_facing(f: Feature, dir: u16) -> Feature {
    Feature { direction: dir, ..f }
}

/// The map with object `index` of `kind` moved to `pos` (no change when the
/// index is out of range).
pub open spec fn model_set_pos(m: MapModel, kind: ObjectKind, index: int, pos: WorldPos) -> MapModel {
    match kind {
        ObjectKind::Structure => MapModel {
            structures: replace_at(m.structures, index, structure_at_pos(m.structures[index], pos)),
            ..m
        },
        ObjectKind::Droid => MapModel {
            droids: replace_at(m.droids, index, droid_at_pos(m.droids[index], pos)),
            ..m
        },
        ObjectKind::Feature => MapModel {
            features: replace_at(m.features, index, feature_at_pos(m.features[index], pos)),
            ..m
        },
    }
}

/// The map with object `index` of `kind` turned to `dir` (no change when the
/// index is out of range).
pub open spec fn model_set_direction(m: MapModel, kind: ObjectKind, index: int, dir: u16) -> MapModel {
    match kind {
        ObjectKind::Structure => MapModel {
            structures: replace_at(m.structures, index, structure_facing(m.structures[index], dir)),
            ..m
        },
        ObjectKind::Droid => MapModel {
            droids: replace_at(m.droids, index, droid_facing(m.droids[index], dir)),
            ..m
        },
        ObjectKind::Feature => MapModel {
            features: replace_at(m.features, index, feature_facing(m.features[index], dir)),
            ..m
        },
    }
}

/// Number of objects of `kind` on the map.
pub open spec fn kind_len(m: MapModel, kind: ObjectKind) -> int {
    match kind {
        ObjectKind::Structure => m.structures.len() as int,
        ObjectKind::Droid => m.droids.len() as int,
        ObjectKind::Feature => m.features.len() as int,
    }
}

/// Position of object `index` of `kind`.
pub open spec fn kind_pos(m: MapModel, kind: ObjectKind, index: int) -> WorldPos {
    match kind {
        ObjectKind::Structure => m.structures[index].position,
        ObjectKind::Droid => m.droids[index].position,
        ObjectKind::Feature => m.features[index].position,
    }
}

/// Direction of object `index` of `kind`.
pub open spec fn kind_direction(m: MapModel, kind: ObjectKind, index: int) -> u16 {
    match kind {
        ObjectKind::Structure => m.structures[index].direction,
        ObjectKind::Droid => m.droids[index].direction,
        ObjectKind::Feature => m.features[index].direction,
    }
}

fn set_object_pos(map: &mut WzMap, kind: ObjectKind, index: usize, pos: WorldPos)
    ensures
        final(map)@ == model_set_pos(old(map)@, kind, index as int, pos),
{
    match kind {
        ObjectKind::Structure => {
            if index < map.structures.len() {
                map.structures[index].position = pos;
            }
        },
        ObjectKind::Droid => {
            if index < map.droids.len() {
                map.droids[index].position = pos;
            }
        },
        ObjectKind::Feature => {
            if index < map.features.len() {
                map.features[index].position = pos;
            }
        },
    }
    assert(map@ =~= model_set_pos(old(map)@, kind, index as int, pos));
}

fn set_object_direction(map: &mut WzMap, kind: ObjectKind, index: usize, direction: u16)
    ensures
        final(map)@ == model_set_direction(old(map)@, kind, index as int, direction),
{
    match kind {
        ObjectKind::Structure => {
            if index < map.structures.len() {
                map.structures[index].direction = direction;
            }
        },
        ObjectKind::Droid => {
            if index < map.droids.len() {
                map.droids[index].direction = direction;
            }
        },
        ObjectKind::Feature => {
            if index < map.features.len() {
                map.features[index].direction = direction;
            }
        },
    }
    assert(map@ =~= model_set_direction(old(map)@, kind, index as int, direction));
}

/// Command: place a new structure on the map.
#[derive(Debug)]
pub struct PlaceStructureCommand {
    pub structure: Structure,
}

impl PlaceStructureCommand {
    pub open spec fn apply(&self, m: MapModel) -> MapModel {
        MapModel { structures: m.structures.push(self.structure), ..m }
    }

    pub open spec fn revert(&self, m: MapModel) -> MapModel {
        MapModel { structures: pop_last(m.structures), ..m }
    }

    /// Append the structure.
    pub fn execute(&self, map: &mut WzMap)
        ensures
            final(map)@ == self.apply(old(map)@),
    {
        map.structures.push(self.structure.clone());
        assert(map@ =~= self.apply(old(map)@));
    }

    /// Remove the last structure.
    pub fn undo(&self, map: &mut WzMap)
        ensures
            final(map)@ == self.revert(old(map)@),
    {
        map.structures.pop();
        assert(map@ =~= self.revert(old(map)@));
    }
}

/// Command: place a new droid on the map.
#[derive(Debug)]
pub struct PlaceDroidCommand {
    pub droid: Droid,
}

impl PlaceDroidCommand {
    pub open spec fn apply(&self, m: MapModel) -> MapModel {
        MapModel { droids: m.droids.push(self.droid), ..m }
    }

    pub open spec fn revert(&self, m: MapModel) -> MapModel {
        MapModel { droids: pop_last(m.droids), ..m }
    }

    /// Append the droid.
    pub fn execute(&self, map: &mut WzMap)
        ensures
            final(map)@ == self.apply(old(map)@),
    {
        map.droids.push(self.droid.clone());
        assert(map@ =~= self.apply(old(map)@));
    }

    /// Remove the last droid.
    pub fn undo(&self, map: &mut WzMap)
        ensures
            final(map)@ == self.revert(old(map)@),
    {
        map.droids.pop();
        assert(map@ =~= self.revert(old(map)@));
    }
}

/// Command: place a new feature on the map.
#[derive(Debug)]
pub struct PlaceFeatureCommand {
    pub feature: Feature,
}

impl PlaceFeatureCommand {
    pub open spec fn apply(&self, m: MapModel) -> MapModel {
        MapModel { features: m.features.push(self.feature), ..m }
    }

    pub open spec fn revert(&self, m: MapModel) -> MapModel {
        MapModel { features: pop_last(m.features), ..m }
    }

    /// Append the feature.
    pub fn execute(&self, map: &mut WzMap)
        ensures
            final(map)@ == self.apply(old(map)@),
    {
        map.features.push(self.feature.clone());
        assert(map@ =~= self.apply(old(map)@));
    }

    /// Remove the last feature.
    pub fn undo(&self, map: &mut WzMap)
        ensures
            final(map)@ == self.revert(old(map)@),
    {
        map.features.pop();
        assert(map@ =~= self.revert(old(map)@));
    }
}

/// Command: delete an object by kind and index, keeping a copy for undo.
#[derive(Debug)]
pub struct DeleteObjectCommand {
    pub kind: ObjectKind,
    pub index: usize,
    pub saved_structure: Option<Structure>,
    pub saved_droid: Option<Droid>,
    pub saved_feature: Option<Feature>,
}

impl DeleteObjectCommand {
    /// Delete structure `index`, remembering `obj`.
    pub fn structure(index: usize, obj: Structure) -> (r: Self)
        ensures
            r == (DeleteObjectCommand {
                kind: ObjectKind::Structure,
                index,
                saved_structure: Some(obj),
                saved_droid: None,
                saved_feature: None,
            }),
    {
        DeleteObjectCommand {
            kind: ObjectKind::Structure,
            index,
            saved_structure: Some(obj),
            saved_droid: None,
            saved_feature: None,
        }
    }

    /// Delete droid `index`, remembering `obj`.
    pub fn droid(index: usize, obj: Droid) -> (r: Self)
        ensures
            r == (DeleteObjectCommand {
                kind: ObjectKind::Droid,
                index,
                saved_structure: None,
                saved_droid: Some(obj),
                saved_feature: None,
            }),
    {
        DeleteObjectCommand {
            kind: ObjectKind::Droid,
            index,
            saved_structure: None,
            saved_droid: Some(obj),
            saved_feature: None,
        }
    }

    /// Delete feature `index`, remembering `obj`.
    pub fn feature(index: usize, obj: Feature) -> (r: Self)
        ensures
            r == (DeleteObjectCommand {
                kind: ObjectKind::Feature,
                index,
                saved_structure: None,
                saved_droid: None,
                saved_feature: Some(obj),
            }),
    {
        DeleteObjectCommand {
            kind: ObjectKind::Feature,
            index,
            saved_structure: None,
            saved_droid: None,
            saved_feature: Some(obj),
        }
    }

    pub open spec fn apply(&self, m: MapModel) -> MapModel {
        match self.kind {
            ObjectKind::Structure => MapModel { structures: remove_at(m.structures, self.index as int), ..m },
            ObjectKind::Droid => MapModel { droids: remove_at(m.droids, self.index as int), ..m },
            ObjectKind::Feature => MapModel { features: remove_at(m.features, self.index as int), ..m },
        }
    }

    pub open spec fn revert(&self, m: MapModel) -> MapModel {
        match self.kind {
            ObjectKind::Structure => match self.saved_structure {
                Some(o) => MapModel { structures: insert_clamped(m.structures, self.index as int, o), ..m },
                None => m,
            },
            ObjectKind::Droid => match self.saved_droid {
                Some(o) => MapModel { droids: insert_clamped(m.droids, self.index as int, o), ..m },
                None => m,
            },
            ObjectKind::Feature => match self.saved_feature {
                Some(o) => MapModel { features: insert_clamped(m.features, self.index as int, o), ..m },
                None => m,
            },
        }
    }

    /// The saved copy is the object currently at `index`, so undo puts back
    /// exactly what execute removed.
    pub open spec fn matches(&self, m: MapModel) -> bool {
        match self.kind {
            ObjectKind::Structure => self.index < m.structures.len() && self.saved_structure == Some(
                m.structures[self.index as int],
            ),
            ObjectKind::Droid => self.index < m.droids.len() && self.saved_droid == Some(
                m.droids[self.index as int],
            ),
            ObjectKind::Feature => self.index < m.features.len() && self.saved_feature == Some(
                m.features[self.index as int],
            ),
        }
    }

    /// Remove the object when the index is in range.
    pub fn execute(&self, map: &mut WzMap)
        ensures
            final(map)@ == self.apply(old(map)@),
    {
        match self.kind {
            ObjectKind::Structure => {
                if self.index < map.structures.len() {
                    map.structures.remove(self.index);
                }
            },
            ObjectKind::Droid => {
                if self.index < map.droids.len() {
                    map.droids.remove(self.index);
                }
            },
            ObjectKind::Feature => {
                if self.index < map.features.len() {
                    map.features.remove(self.index);
                }
            },
        }
        assert(map@ =~= self.apply(old(map)@));
    }

    /// Re-insert the saved object at its index, clamped to the list length.
    pub fn undo(&self, map: &mut WzMap)
        ensures
            final(map)@ == self.revert(old(map)@),
    {
        match self.kind {
            ObjectKind::Structure => {
                if let Some(obj) = &self.saved_structure {
                    let idx = if self.index < map.structures.len() {
                        self.index
                    } else {
                        map.structures.len()
                    };
                    map.structures.insert(idx, obj.clone());
                }
            },
            ObjectKind::Droid => {
                if let Some(obj) = &self.saved_droid {
                    let idx = if self.index < map.droids.len() {
                        self.index
                    } else {
                        map.droids.len()
                    };
                    map.droids.insert(idx, obj.clone());
                }
            },
            ObjectKind::Feature => {
                if let Some(obj) = &self.saved_feature {
                    let idx = if self.index < map.features.len() {
                        self.index
                    } else {
                        map.features.len()
                    };
                    map.features.insert(idx, obj.clone());
                }
            },
        }
        assert(map@ =~= self.revert(old(map)@));
    }
}

/// Command: move an object to a new position.
#[derive(Debug)]
pub struct MoveObjectCommand {
    pub kind: ObjectKind,
    pub index: usize,
    pub old_pos: WorldPos,
    pub new_pos: WorldPos,
}

impl MoveObjectCommand {
    pub open spec fn apply(&self, m: MapModel) -> MapModel {
        model_set_pos(m, self.kind, self.index as int, self.new_pos)
    }

    pub open spec fn revert(&self, m: MapModel) -> MapModel {
        model_set_pos(m, self.kind, self.index as int, self.old_pos)
    }

    /// `old_pos` is where the object currently stands (or the index is stale).
    pub open spec fn matches(&self, m: MapModel) -> bool {
        self.index < kind_len(m, self.kind) ==> kind_pos(m, self.kind, self.index as int) == self.old_pos
    }

    /// Move the object to `new_pos`.
    pub fn execute(&self, map: &mut WzMap)
        ensures
            final(map)@ == self.apply(old(map)@),
    {
        set_object_pos(map, self.kind, self.index, self.new_pos);
    }

    /// Move the object back to `old_pos`.
    pub fn undo(&self, map: &mut WzMap)
        ensures
            final(map)@ == self.revert(old(map)@),
    {
        set_object_pos(map, self.kind, self.index, self.old_pos);
    }
}

/// Command: rotate an object to a new direction.
#[derive(Debug)]
pub struct RotateObjectCommand {
    pub kind: ObjectKind,
    pub index: usize,
    pub old_direction: u16,
    pub new_direction: u16,
}

impl RotateObjectCommand {
    pub open spec fn apply(&self, m: MapModel) -> MapModel {
        model_set_direction(m, self.kind, self.index as int, self.new_direction)
    }

    pub open spec fn revert(&self, m: MapModel) -> MapModel {
        model_set_direction(m, self.kind, self.index as int, self.old_direction)
    }

    /// `old_direction` is the object's current direction (or the index is stale).
    pub open spec fn matches(&self, m: MapModel) -> bool {
        self.index < kind_len(m, self.kind) ==> kind_direction(m, self.kind, self.index as int)
            == self.old_direction
    }

    /// Turn the object to `new_direction`.
    pub fn execute(&self, map: &mut WzMap)
        ensures
            final(map)@ == self.apply(old(map)@),
    {
        set_object_direction(map, self.kind, self.index, self.new_direction);
    }

    /// Turn the object back to `old_direction`.
    pub fn undo(&self, map: &mut WzMap)
        ensures
            final(map)@ == self.revert(old(map)@),
    {
        set_object_direction(map, self.kind, self.index, self.old_direction);
    }
}

/// A saved copy of one object, the before or after state of a
/// [`ReplaceObjectCommand`].
#[derive(Debug)]
pub enum ObjectValue {
    Structure(Structure),
    Droid(Droid),
    Feature(Feature),
}

/// The map with object `index` overwritten by `value` in the list that
/// matches the value's kind (no change when the index is out of range).
pub open spec fn model_write_object(m: MapModel, index: int, value: ObjectValue) -> MapModel {
    match value {
        ObjectValue::Structure(v) => MapModel { structures: replace_at(m.structures, index, v), ..m },
        ObjectValue::Droid(v) => MapModel { droids: replace_at(m.droids, index, v), ..m },
        ObjectValue::Feature(v) => MapModel { features: replace_at(m.features, index, v), ..m },
    }
}

/// Whether the object at `index` in the list matching `value`'s kind is
/// exactly `value` (or the index is stale).
pub open spec fn model_holds_object(m: MapModel, index: int, value: ObjectValue) -> bool {
    match value {
        ObjectValue::Structure(v) => 0 <= index < m.structures.len() ==> m.structures[index] == v,
        ObjectValue::Droid(v) => 0 <= index < m.droids.len() ==> m.droids[index] == v,
        ObjectValue::Feature(v) => 0 <= index < m.features.len() ==> m.features[index] == v,
    }
}

fn write_object(map: &mut WzMap, index: usize, value: &ObjectValue)
    ensures
        final(map)@ == model_write_object(old(map)@, index as int, *value),
{
    match value {
        ObjectValue::Structure(v) => {
            if index < map.structures.len() {
                map.structures.set(index, v.clone());
            }
        },
        ObjectValue::Droid(v) => {
            if index < map.droids.len() {
                map.droids.set(index, v.clone());
            }
        },
        ObjectValue::Feature(v) => {
            if index < map.features.len() {
                map.features.set(index, v.clone());
            }
        },
    }
    assert(map@ =~= model_write_object(old(map)@, index as int, *value));
}

/// Command: overwrite an object with a saved copy of itself, so one gesture
/// that edits several fields is a single undo step.
#[derive(Debug)]
pub struct ReplaceObjectCommand {
    pub index: usize,
    pub before: ObjectValue,
    pub after: ObjectValue,
}

impl ReplaceObjectCommand {
    /// Replace structure `index`: `before` restored on undo, `after` written on execute.
    pub fn structure(index: usize, before: Structure, after: Structure) -> (r: Self)
        ensures
            r == (ReplaceObjectCommand {
                index,
                before: ObjectValue::Structure(before),
                after: ObjectValue::Structure(after),
            }),
    {
        ReplaceObjectCommand {
            index,
            before: ObjectValue::Structure(before),
            after: ObjectValue::Structure(after),
        }
    }

    /// Replace droid `index`.
    pub fn droid(index: usize, before: Droid, after: Droid) -> (r: Self)
        ensures
            r == (ReplaceObjectCommand {
                index,
                before: ObjectValue::Droid(before),
                after: ObjectValue::Droid(after),
            }),
    {
        ReplaceObjectCommand { index, before: ObjectValue::Droid(before), after: ObjectValue::Droid(after) }
    }

    /// Replace feature `index`.
    pub fn feature(index: usize, before: Feature, after: Feature) -> (r: Self)
        ensures
            r == (ReplaceObjectCommand {
                index,
                before: ObjectValue::Feature(before),
                after: ObjectValue::Feature(after),
            }),
    {
        ReplaceObjectCommand {
            index,
            before: ObjectValue::Feature(before),
            after: ObjectValue::Feature(after),
        }
    }

    pub open spec fn apply(&self, m: MapModel) -> MapModel {
        model_write_object(m, self.index as int, self.after)
    }

    pub open spec fn revert(&self, m: MapModel) -> MapModel {
        model_write_object(m, self.index as int, self.before)
    }

    /// Both snapshots are of the same kind and `before` is what the map holds.
    pub open spec fn matches(&self, m: MapModel) -> bool {
        &&& model_holds_object(m, self.index as int, self.before)
        &&& match (self.before, self.after) {
            (ObjectValue::Structure(_), ObjectValue::Structure(_)) => true,
            (ObjectValue::Droid(_), ObjectValue::Droid(_)) => true,
            (ObjectValue::Feature(_), ObjectValue::Feature(_)) => true,
            _ => false,
        }
    }

    /// Write `after` over the object.
    pub fn execute(&self, map: &mut WzMap)
        ensures
            final(map)@ == self.apply(old(map)@),
    {
        write_object(map, self.index, &self.after);
    }

    /// Write `before` back over the object.
    pub fn undo(&self, map: &mut WzMap)
        ensures
            final(map)@ == self.revert(old(map)@),
    {
        write_object(map, self.index, &self.before);
    }
}

} // verus!
