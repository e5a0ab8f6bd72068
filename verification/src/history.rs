//! Undo/redo: the set of reversible edit commands and the history stacks.
use vstd::prelude::*;

use crate::gateway_tool::{AddGatewayCommand, DeleteGatewayCommand, ReplaceGatewayCommand};
use crate::label_tool::{AddLabelCommand, DeleteLabelCommand, MoveLabelCommand};
use crate::map_model::{MapModel, WzMap};
use crate::object_edit::{
    DeleteObjectCommand, MoveObjectCommand, ObjectKind, ObjectValue, PlaceDroidCommand,
    PlaceFeatureCommand, PlaceStructureCommand, ReplaceObjectCommand, RotateObjectCommand,
};
use crate::seq_ops::{lemma_push_pop, lemma_remove_insert, lemma_replace_same, lemma_replace_twice};
use crate::stamp_command::StampCommand;

verus! {

/// A reversible edit operation.
pub enum EditCommand {
    PlaceStructure(PlaceStructureCommand),
    PlaceDroid(PlaceDroidCommand),
    PlaceFeature(PlaceFeatureCommand),
    DeleteObject(DeleteObjectCommand),
    MoveObject(MoveObjectCommand),
    RotateObject(RotateObjectCommand),
    ReplaceObject(ReplaceObjectCommand),
    AddLabel(AddLabelCommand),
    DeleteLabel(DeleteLabelCommand),
    MoveLabel(MoveLabelCommand),
    AddGateway(AddGatewayCommand),
    DeleteGateway(DeleteGatewayCommand),
    ReplaceGateway(ReplaceGatewayCommand),
    Stamp(StampCommand),
    Compound(CompoundCommand),
}

/// A group of commands replayed as one undo/redo step: executed in order,
/// undone in reverse order.
pub struct CompoundCommand {
    pub commands: Vec<EditCommand>,
}

impl CompoundCommand {
    /// Group `commands` into one step.
    pub fn new(commands: Vec<EditCommand>) -> (r: Self)
        ensures
            r.commands@ == commands@,
    {
        CompoundCommand { commands }
    }
}

impl EditCommand {
    /// The map after executing the command.
    pub open spec fn apply(&self, m: MapModel) -> MapModel
        decreases self,
    {
        match self {
            EditCommand::PlaceStructure(c) => c.apply(m),
            EditCommand::PlaceDroid(c) => c.apply(m),
            EditCommand::PlaceFeature(c) => c.apply(m),
            EditCommand::DeleteObject(c) => c.apply(m),
            EditCommand::MoveObject(c) => c.apply(m),
            EditCommand::RotateObject(c) => c.apply(m),
            EditCommand::ReplaceObject(c) => c.apply(m),
            EditCommand::AddLabel(c) => c.apply(m),
            EditCommand::DeleteLabel(c) => c.apply(m),
            EditCommand::MoveLabel(c) => c.apply(m),
            EditCommand::AddGateway(c) => c.apply(m),
            EditCommand::DeleteGateway(c) => c.apply(m),
            EditCommand::ReplaceGateway(c) => c.apply(m),
            EditCommand::Stamp(c) => c.apply(m),
            EditCommand::Compound(c) => apply_all(c.commands@, m),
        }
    }

    /// The map after undoing the command.
    pub open spec fn revert(&self, m: MapModel) -> MapModel
        decreases self,
    {
        match self {
            EditCommand::PlaceStructure(c) => c.revert(m),
            EditCommand::PlaceDroid(c) => c.revert(m),
            EditCommand::PlaceFeature(c) => c.revert(m),
            EditCommand::DeleteObject(c) => c.revert(m),
            EditCommand::MoveObject(c) => c.revert(m),
            EditCommand::RotateObject(c) => c.revert(m),
            EditCommand::ReplaceObject(c) => c.revert(m),
            EditCommand::AddLabel(c) => c.revert(m),
            EditCommand::DeleteLabel(c) => c.revert(m),
            EditCommand::MoveLabel(c) => c.revert(m),
            EditCommand::AddGateway(c) => c.revert(m),
            EditCommand::DeleteGateway(c) => c.revert(m),
            EditCommand::ReplaceGateway(c) => c.revert(m),
            EditCommand::Stamp(c) => c.revert(m),
            EditCommand::Compound(c) => revert_all(c.commands@, m),
        }
    }

    /// The command was built against `m`: what undo restores is what the
    /// map holds before execute.
    pub open spec fn matches(&self, m: MapModel) -> bool
        decreases self,
    {
        match self {
            EditCommand::PlaceStructure(_) => true,
            EditCommand::PlaceDroid(_) => true,
            EditCommand::PlaceFeature(_) => true,
            EditCommand::DeleteObject(c) => c.matches(m),
            EditCommand::MoveObject(c) => c.matches(m),
            EditCommand::RotateObject(c) => c.matches(m),
            EditCommand::ReplaceObject(c) => c.matches(m),
            EditCommand::AddLabel(c) => c.matches(m),
            EditCommand::DeleteLabel(c) => c.matches(m),
            EditCommand::MoveLabel(c) => c.matches(m),
            EditCommand::AddGateway(_) => true,
            EditCommand::DeleteGateway(c) => c.matches(m),
            EditCommand::ReplaceGateway(c) => c.matches(m),
            EditCommand::Stamp(c) => crate::stamp_command::stamp_matches(*c, m),
            EditCommand::Compound(c) => matches_all(c.commands@, m),
        }
    }

    /// Whether replaying the command requires rebuilding object instance
    /// buffers: object and stamp commands do; label and gateway commands
    /// do not, since those overlays are redrawn every frame; a compound does
    /// when any of its commands does.
    pub open spec fn dirties(&self) -> bool
        decreases self,
    {
        match self {
            EditCommand::Compound(c) => any_dirties(c.commands@),
            EditCommand::AddLabel(_) | EditCommand::DeleteLabel(_) | EditCommand::MoveLabel(_) => false,
            EditCommand::AddGateway(_) | EditCommand::DeleteGateway(_) | EditCommand::ReplaceGateway(_) => false,
            _ => true,
        }
    }

    /// Whether the command needs the terrain grid to be well formed.
    pub open spec fn needs_grid(&self) -> bool
        decreases self,
    {
        match self {
            EditCommand::Stamp(_) => true,
            EditCommand::Compound(c) => any_needs_grid(c.commands@),
            _ => false,
        }
    }
}

/// The map after executing `cmds` in order.
pub open spec fn apply_all(cmds: Seq<EditCommand>, m: MapModel) -> MapModel
    decreases cmds,
{
    if cmds.len() == 0 {
        m
    } else {
        cmds.last().apply(apply_all(cmds.drop_last(), m))
    }
}

/// The map after undoing `cmds`, last command first.
pub open spec fn revert_all(cmds: Seq<EditCommand>, m: MapModel) -> MapModel
    decreases cmds,
{
    if cmds.len() == 0 {
        m
    } else {
        revert_all(cmds.drop_last(), cmds.last().revert(m))
    }
}

/// Every command matches the map its predecessors leave.
pub open spec fn matches_all(cmds: Seq<EditCommand>, m: MapModel) -> bool
    decreases cmds,
{
    if cmds.len() == 0 {
        true
    } else {
        matches_all(cmds.drop_last(), m) && cmds.last().matches(apply_all(cmds.drop_last(), m))
    }
}

pub open spec fn any_dirties(cmds: Seq<EditCommand>) -> bool
    decreases cmds,
{
    if cmds.len() == 0 {
        false
    } else {
        any_dirties(cmds.drop_last()) || cmds.last().dirties()
    }
}

pub open spec fn any_needs_grid(cmds: Seq<EditCommand>) -> bool
    decreases cmds,
{
    if cmds.len() == 0 {
        false
    } else {
        any_needs_grid(cmds.drop_last()) || cmds.last().needs_grid()
    }
}

impl EditCommand {
    /// Apply the command to the map.
    #[verifier::loop_isolation(false)]
    pub fn execute(&self, map: &mut WzMap)
        requires
            self.needs_grid() ==> old(map)@.grid_ok(),
        ensures
            final(map)@ == self.apply(old(map)@),
        decreases self,
    {
        match self {
            EditCommand::PlaceStructure(c) => c.execute(map),
            EditCommand::PlaceDroid(c) => c.execute(map),
            EditCommand::PlaceFeature(c) => c.execute(map),
            EditCommand::DeleteObject(c) => c.execute(map),
            EditCommand::MoveObject(c) => c.execute(map),
            EditCommand::RotateObject(c) => c.execute(map),
            EditCommand::ReplaceObject(c) => c.execute(map),
            EditCommand::AddLabel(c) => c.execute(map),
            EditCommand::DeleteLabel(c) => c.execute(map),
            EditCommand::MoveLabel(c) => c.execute(map),
            EditCommand::AddGateway(c) => c.execute(map),
            EditCommand::DeleteGateway(c) => c.execute(map),
            EditCommand::ReplaceGateway(c) => c.execute(map),
            EditCommand::Stamp(c) => c.execute(map),
            EditCommand::Compound(c) => {
                let ghost start = map@;
                let mut i: usize = 0;
                while i < c.commands.len()
                    invariant
                        i <= c.commands@.len(),
                        map@ == apply_all(c.commands@.subrange(0, i as int), start),
                        any_needs_grid(c.commands@) ==> start.grid_ok(),
                    decreases c.commands@.len() - i,
                {
                    proof {
                        assert(c.commands@.subrange(0, i as int + 1).drop_last() =~= c.commands@.subrange(0, i as int));
                        lemma_needs_grid_member(c.commands@, i as int);
                        if any_needs_grid(c.commands@) {
                            lemma_grid_preserved_all(c.commands@.subrange(0, i as int), start);
                        }
                        assert(decreases_to!(*self => c.commands@[i as int]));
                    }
                    c.commands[i].execute(map);
                    i = i + 1;
                }
                assert(c.commands@.subrange(0, c.commands@.len() as int) =~= c.commands@);
            },
        }
    }

    /// Undo the command on the map.
    #[verifier::loop_isolation(false)]
    pub fn undo(&self, map: &mut WzMap)
        requires
            self.needs_grid() ==> old(map)@.grid_ok(),
        ensures
            final(map)@ == self.revert(old(map)@),
        decreases self,
    {
        match self {
            EditCommand::PlaceStructure(c) => c.undo(map),
            EditCommand::PlaceDroid(c) => c.undo(map),
            EditCommand::PlaceFeature(c) => c.undo(map),
            EditCommand::DeleteObject(c) => c.undo(map),
            EditCommand::MoveObject(c) => c.undo(map),
            EditCommand::RotateObject(c) => c.undo(map),
            EditCommand::ReplaceObject(c) => c.undo(map),
            EditCommand::AddLabel(c) => c.undo(map),
            EditCommand::DeleteLabel(c) => c.undo(map),
            EditCommand::MoveLabel(c) => c.undo(map),
            EditCommand::AddGateway(c) => c.undo(map),
            EditCommand::DeleteGateway(c) => c.undo(map),
            EditCommand::ReplaceGateway(c) => c.undo(map),
            EditCommand::Stamp(c) => c.undo(map),
            EditCommand::Compound(c) => {
                let ghost start = map@;
                let mut k = c.commands.len();
                assert(c.commands@.subrange(0, k as int) =~= c.commands@);
                while k > 0
                    invariant
                        k <= c.commands@.len(),
                        revert_all(c.commands@.subrange(0, k as int), map@) == revert_all(c.commands@, start),
                        any_needs_grid(c.commands@) ==> map@.grid_ok(),
                    decreases k,
                {
                    proof {
                        assert(c.commands@.subrange(0, k as int).drop_last() =~= c.commands@.subrange(0, k as int - 1));
                        lemma_needs_grid_member(c.commands@, k as int - 1);
                        if any_needs_grid(c.commands@) {
                            lemma_grid_preserved(c.commands@[k as int - 1], map@);
                        }
                        assert(decreases_to!(*self => c.commands@[k as int - 1]));
                    }
                    c.commands[k - 1].undo(map);
                    k = k - 1;
                }
                assert(c.commands@.subrange(0, 0) =~= Seq::<EditCommand>::empty());
            },
        }
    }

    /// Whether replaying the command requires rebuilding object buffers.
    #[verifier::loop_isolation(false)]
    pub fn dirties_objects(&self) -> (r: bool)
        ensures
            r == self.dirties(),
        decreases self,
    {
        match self {
            EditCommand::Compound(c) => {
                let mut i: usize = 0;
                while i < c.commands.len()
                    invariant
                        i <= c.commands@.len(),
                        !any_dirties(c.commands@.subrange(0, i as int)),
                    decreases c.commands@.len() - i,
                {
                    assert(c.commands@.subrange(0, i as int + 1).drop_last() =~= c.commands@.subrange(0, i as int));
                    proof {
                        assert(decreases_to!(*self => c.commands@[i as int]));
                    }
                    if c.commands[i].dirties_objects() {
                        proof {
                            lemma_any_dirties_member(c.commands@, i as int);
                        }
                        return true;
                    }
                    i = i + 1;
                }
                assert(c.commands@.subrange(0, c.commands@.len() as int) =~= c.commands@);
                false
            },
            EditCommand::AddLabel(_) | EditCommand::DeleteLabel(_) | EditCommand::MoveLabel(_) => false,
            EditCommand::AddGateway(_) | EditCommand::DeleteGateway(_) | EditCommand::ReplaceGateway(_) => false,
            _ => true,
        }
    }
}

proof fn lemma_any_dirties_member(cmds: Seq<EditCommand>, i: int)
    requires
        0 <= i < cmds.len(),
        cmds[i].dirties(),
    ensures
        any_dirties(cmds),
    decreases cmds,
{
    if i < cmds.len() - 1 {
        lemma_any_dirties_member(cmds.drop_last(), i);
    }
}

proof fn lemma_needs_grid_member(cmds: Seq<EditCommand>, i: int)
    requires
        0 <= i < cmds.len(),
    ensures
        cmds[i].needs_grid() ==> any_needs_grid(cmds),
    decreases cmds,
{
    if i < cmds.len() - 1 {
        lemma_needs_grid_member(cmds.drop_last(), i);
    }
}

/// Commands never change the grid's dimensions or tile count: executed or
/// undone on a well-formed grid, a command leaves a well-formed grid of the
/// same size.
pub proof fn lemma_grid_preserved(c: EditCommand, m: MapModel)
    requires
        m.grid_ok(),
    ensures
        c.apply(m).grid_ok(),
        c.revert(m).grid_ok(),
        c.apply(m).width == m.width,
        c.apply(m).height == m.height,
        c.revert(m).width == m.width,
        c.revert(m).height == m.height,
    decreases c,
{
    match c {
        EditCommand::Stamp(s) => {
            crate::stamp_command::lemma_write_tiles_len(m.tiles, m.width, m.height, s.tile_changes@, true);
            crate::stamp_command::lemma_write_tiles_len(m.tiles, m.width, m.height, s.tile_changes@, false);
        },
        EditCommand::Compound(cc) => {
            lemma_grid_preserved_all(cc.commands@, m);
            lemma_grid_preserved_revert_all(cc.commands@, m);
        },
        _ => {},
    }
}

proof fn lemma_grid_preserved_all(cmds: Seq<EditCommand>, m: MapModel)
    requires
        m.grid_ok(),
    ensures
        apply_all(cmds, m).grid_ok(),
        apply_all(cmds, m).width == m.width,
        apply_all(cmds, m).height == m.height,
    decreases cmds,
{
    if cmds.len() > 0 {
        lemma_grid_preserved_all(cmds.drop_last(), m);
        lemma_grid_preserved(cmds.last(), apply_all(cmds.drop_last(), m));
    }
}

proof fn lemma_grid_preserved_revert_all(cmds: Seq<EditCommand>, m: MapModel)
    requires
        m.grid_ok(),
    ensures
        revert_all(cmds, m).grid_ok(),
        revert_all(cmds, m).width == m.width,
        revert_all(cmds, m).height == m.height,
    decreases cmds,
{
    if cmds.len() > 0 {
        lemma_grid_preserved(cmds.last(), m);
        lemma_grid_preserved_revert_all(cmds.drop_last(), cmds.last().revert(m));
    }
}

/// Undo inverts execute: a command built against the map it is applied to
/// restores that map exactly when undone.
pub proof fn lemma_undo_inverts_execute(c: EditCommand, m: MapModel)
    requires
        c.matches(m),
    ensures
        c.revert(c.apply(m)) == m,
    decreases c,
{
    match c {
        EditCommand::PlaceStructure(p) => {
            lemma_push_pop(m.structures, p.structure);
            assert(c.revert(c.apply(m)) =~= m);
        },
        EditCommand::PlaceDroid(p) => {
            lemma_push_pop(m.droids, p.droid);
            assert(c.revert(c.apply(m)) =~= m);
        },
        EditCommand::PlaceFeature(p) => {
            lemma_push_pop(m.features, p.feature);
            assert(c.revert(c.apply(m)) =~= m);
        },
        EditCommand::DeleteObject(d) => {
            match d.kind {
                ObjectKind::Structure => lemma_remove_insert(m.structures, d.index as int),
                ObjectKind::Droid => lemma_remove_insert(m.droids, d.index as int),
                ObjectKind::Feature => lemma_remove_insert(m.features, d.index as int),
            }
            assert(c.revert(c.apply(m)) =~= m);
        },
        EditCommand::MoveObject(mv) => {
            let i = mv.index as int;
            match mv.kind {
                ObjectKind::Structure => {
                    if 0 <= i < m.structures.len() {
                        assert(m.structures.update(i, crate::object_edit::structure_at_pos(m.structures[i], mv.new_pos)).update(
                            i,
                            crate::object_edit::structure_at_pos(m.structures[i], mv.old_pos),
                        ) =~= m.structures);
                    }
                },
                ObjectKind::Droid => {
                    if 0 <= i < m.droids.len() {
                        assert(m.droids.update(i, crate::object_edit::droid_at_pos(m.droids[i], mv.new_pos)).update(
                            i,
                            crate::object_edit::droid_at_pos(m.droids[i], mv.old_pos),
                        ) =~= m.droids);
                    }
                },
                ObjectKind::Feature => {
                    if 0 <= i < m.features.len() {
                        assert(m.features.update(i, crate::object_edit::feature_at_pos(m.features[i], mv.new_pos)).update(
                            i,
                            crate::object_edit::feature_at_pos(m.features[i], mv.old_pos),
                        ) =~= m.features);
                    }
                },
            }
            assert(c.revert(c.apply(m)) =~= m);
        },
        EditCommand::RotateObject(rt) => {
            let i = rt.index as int;
            match rt.kind {
                ObjectKind::Structure => {
                    if 0 <= i < m.structures.len() {
                        assert(m.structures.update(i, crate::object_edit::structure_facing(m.structures[i], rt.new_direction)).update(
                            i,
                            crate::object_edit::structure_facing(m.structures[i], rt.old_direction),
                        ) =~= m.structures);
                    }
                },
                ObjectKind::Droid => {
                    if 0 <= i < m.droids.len() {
                        assert(m.droids.update(i, crate::object_edit::droid_facing(m.droids[i], rt.new_direction)).update(
                            i,
                            crate::object_edit::droid_facing(m.droids[i], rt.old_direction),
                        ) =~= m.droids);
                    }
                },
                ObjectKind::Feature => {
                    if 0 <= i < m.features.len() {
                        assert(m.features.update(i, crate::object_edit::feature_facing(m.features[i], rt.new_direction)).update(
                            i,
                            crate::object_edit::feature_facing(m.features[i], rt.old_direction),
                        ) =~= m.features);
                    }
                },
            }
            assert(c.revert(c.apply(m)) =~= m);
        },
        EditCommand::ReplaceObject(r) => {
            let i = r.index as int;
            match (r.before, r.after) {
                (ObjectValue::Structure(b), ObjectValue::Structure(a)) => {
                    lemma_replace_twice(m.structures, i, a, b);
                    lemma_replace_same(m.structures, i);
                },
                (ObjectValue::Droid(b), ObjectValue::Droid(a)) => {
                    lemma_replace_twice(m.droids, i, a, b);
                    lemma_replace_same(m.droids, i);
                },
                (ObjectValue::Feature(b), ObjectValue::Feature(a)) => {
                    lemma_replace_twice(m.features, i, a, b);
                    lemma_replace_same(m.features, i);
                },
                _ => {},
            }
            assert(c.revert(c.apply(m)) =~= m);
        },
        EditCommand::AddLabel(a) => {
            let pushed = m.labels.push((a.key, a.label));
            crate::label_tool::lemma_first_key_unique(pushed, a.key@, m.labels.len() as int);
            assert(pushed.remove(m.labels.len() as int) =~= m.labels);
            assert(c.revert(c.apply(m)) =~= m);
        },
        EditCommand::DeleteLabel(d) => {
            lemma_remove_insert(m.labels, d.index as int);
            assert(c.revert(c.apply(m)) =~= m);
        },
        EditCommand::MoveLabel(mv) => {
            let i = mv.index as int;
            if 0 <= i < m.labels.len() {
                assert(m.labels.update(i, (m.labels[i].0, mv.new_label)).update(i, (m.labels[i].0, mv.old_label))
                    =~= m.labels);
            }
            assert(c.revert(c.apply(m)) =~= m);
        },
        EditCommand::AddGateway(g) => {
            lemma_push_pop(m.gateways, g.gateway);
            assert(c.revert(c.apply(m)) =~= m);
        },
        EditCommand::DeleteGateway(d) => {
            lemma_remove_insert(m.gateways, d.index as int);
            assert(c.revert(c.apply(m)) =~= m);
        },
        EditCommand::ReplaceGateway(r) => {
            lemma_replace_twice(m.gateways, r.index as int, r.after, r.before);
            lemma_replace_same(m.gateways, r.index as int);
            assert(c.revert(c.apply(m)) =~= m);
        },
        EditCommand::Stamp(sc) => {
            crate::stamp_command::lemma_stamp_undo_restores(sc, m);
        },
        EditCommand::Compound(cc) => {
            lemma_undo_inverts_execute_all(cc.commands@, m);
        },
    }
}

/// Undoing a sequence of commands that each match the map their
/// predecessors leave restores the starting map.
pub proof fn lemma_undo_inverts_execute_all(cmds: Seq<EditCommand>, m: MapModel)
    requires
        matches_all(cmds, m),
    ensures
        revert_all(cmds, apply_all(cmds, m)) == m,
    decreases cmds,
{
    if cmds.len() > 0 {
        let prev = apply_all(cmds.drop_last(), m);
        lemma_undo_inverts_execute(cmds.last(), prev);
        lemma_undo_inverts_execute_all(cmds.drop_last(), m);
    }
}

/// Redo after undo replays the command onto the same map as the first execute.
pub proof fn lemma_redo_after_undo(c: EditCommand, m: MapModel)
    requires
        c.matches(m),
    ensures
        c.apply(c.revert(c.apply(m))) == c.apply(m),
{
    lemma_undo_inverts_execute(c, m);
}

/// The abstract content of an [`EditHistory`]: commands that can be undone
/// (most recent last) and commands that can be redone (most recent undo last).
pub struct HistoryModel {
    pub undo: Seq<EditCommand>,
    pub redo: Seq<EditCommand>,
}

/// Undo/redo history stacks.
pub struct EditHistory {
    undo_stack: Vec<EditCommand>,
    redo_stack: Vec<EditCommand>,
}

impl View for EditHistory {
    type V = HistoryModel;

    closed spec fn view(&self) -> HistoryModel {
        HistoryModel { undo: self.undo_stack@, redo: self.redo_stack@ }
    }
}

/// History and map after executing `c`: the command joins the undo stack
/// and the redo stack is cleared.
pub open spec fn history_after_execute(h: HistoryModel, c: EditCommand, m: MapModel) -> (HistoryModel, MapModel) {
    (HistoryModel { undo: h.undo.push(c), redo: Seq::empty() }, c.apply(m))
}

/// History and map after one undo: the most recent command is reverted and
/// moves to the redo stack; nothing happens when there is nothing to undo.
pub open spec fn history_after_undo(h: HistoryModel, m: MapModel) -> (HistoryModel, MapModel) {
    if h.undo.len() == 0 {
        (h, m)
    } else {
        (HistoryModel { undo: h.undo.drop_last(), redo: h.redo.push(h.undo.last()) }, h.undo.last().revert(m))
    }
}

/// History and map after one redo: the most recently undone command is
/// applied again and moves back to the undo stack.
pub open spec fn history_after_redo(h: HistoryModel, m: MapModel) -> (HistoryModel, MapModel) {
    if h.redo.len() == 0 {
        (h, m)
    } else {
        (HistoryModel { undo: h.undo.push(h.redo.last()), redo: h.redo.drop_last() }, h.redo.last().apply(m))
    }
}

impl EditHistory {
    /// An empty history.
    pub fn new() -> (r: Self)
        ensures
            r@.undo.len() == 0,
            r@.redo.len() == 0,
    {
        EditHistory { undo_stack: Vec::new(), redo_stack: Vec::new() }
    }

    /// Apply `cmd` to the map and record it.
    pub fn execute(&mut self, cmd: EditCommand, map: &mut WzMap)
        requires
            old(map)@.grid_ok(),
        ensures
            (final(self)@, final(map)@) == history_after_execute(old(self)@, cmd, old(map)@),
            final(map)@.grid_ok(),
            final(map)@.width == old(map)@.width,
            final(map)@.height == old(map)@.height,
    {
        proof {
            lemma_grid_preserved(cmd, map@);
        }
        cmd.execute(map);
        self.undo_stack.push(cmd);
        self.redo_stack.clear();
    }

    /// Undo the most recent command. Returns whether the replayed command
    /// dirties object instance buffers (false when there was nothing to undo).
    pub fn undo(&mut self, map: &mut WzMap) -> (r: bool)
        requires
            old(map)@.grid_ok(),
        ensures
            (final(self)@, final(map)@) == history_after_undo(old(self)@, old(map)@),
            r == (old(self)@.undo.len() > 0 && old(self)@.undo.last().dirties()),
            final(map)@.grid_ok(),
            final(map)@.width == old(map)@.width,
            final(map)@.height == old(map)@.height,
    {
        match self.undo_stack.pop() {
            Some(cmd) => {
                proof {
                    lemma_grid_preserved(cmd, map@);
                }
                cmd.undo(map);
                let d = cmd.dirties_objects();
                self.redo_stack.push(cmd);
                d
            },
            None => false,
        }
    }

    /// Redo the most recently undone command. Returns whether it dirties
    /// object instance buffers (false when there was nothing to redo).
    pub fn redo(&mut self, map: &mut WzMap) -> (r: bool)
        requires
            old(map)@.grid_ok(),
        ensures
            (final(self)@, final(map)@) == history_after_redo(old(self)@, old(map)@),
            r == (old(self)@.redo.len() > 0 && old(self)@.redo.last().dirties()),
            final(map)@.grid_ok(),
            final(map)@.width == old(map)@.width,
            final(map)@.height == old(map)@.height,
    {
        match self.redo_stack.pop() {
            Some(cmd) => {
                proof {
                    lemma_grid_preserved(cmd, map@);
                }
                cmd.execute(map);
                let d = cmd.dirties_objects();
                self.undo_stack.push(cmd);
                d
            },
            None => false,
        }
    }

    /// Record a command whose effect is already on the map.
    pub fn push_already_applied(&mut self, cmd: EditCommand)
        ensures
            final(self)@.undo == old(self)@.undo.push(cmd),
            final(self)@.redo.len() == 0,
    {
        self.undo_stack.push(cmd);
        self.redo_stack.clear();
    }
}

/// Executing a command through the history and then undoing restores both
/// the map and the undo stack, leaving the command ready to redo; redoing
/// then yields the same map as the first execute.
pub proof fn lemma_history_execute_undo_redo(h: HistoryModel, c: EditCommand, m: MapModel)
    requires
        c.matches(m),
    ensures
        ({
            let (h1, m1) = history_after_execute(h, c, m);
            let (h2, m2) = history_after_undo(h1, m1);
            let (h3, m3) = history_after_redo(h2, m2);
            &&& m2 == m
            &&& h2.undo == h.undo
            &&& h2.redo == seq![c]
            &&& m3 == m1
            &&& h3.undo == h1.undo
            &&& h3.redo.len() == 0
        }),
{
    lemma_undo_inverts_execute(c, m);
    let (h1, m1) = history_after_execute(h, c, m);
    assert(h1.undo.drop_last() =~= h.undo);
    let (h2, m2) = history_after_undo(h1, m1);
    assert(h2.redo =~= seq![c]);
    let (h3, m3) = history_after_redo(h2, m2);
    assert(h3.undo =~= h1.undo);
    assert(h3.redo =~= Seq::<EditCommand>::empty());
}


/// Executing `xs` then `ys` is executing `xs + ys`; the commands of the
/// concatenation match exactly when each part matches where it starts.
pub proof fn lemma_apply_all_concat(xs: Seq<EditCommand>, ys: Seq<EditCommand>, m: MapModel)
    ensures
        apply_all(xs + ys, m) == apply_all(ys, apply_all(xs, m)),
        matches_all(xs + ys, m) == (matches_all(xs, m) && matches_all(ys, apply_all(xs, m))),
    decreases ys.len(),
{
    if ys.len() == 0 {
        assert(xs + ys =~= xs);
    } else {
        assert((xs + ys).drop_last() =~= xs + ys.drop_last());
        assert((xs + ys).last() == ys.last());
        lemma_apply_all_concat(xs, ys.drop_last(), m);
    }
}

/// Appending one command to a replayed sequence.
pub proof fn lemma_apply_all_push(cmds: Seq<EditCommand>, c: EditCommand, m: MapModel)
    ensures
        apply_all(cmds.push(c), m) == c.apply(apply_all(cmds, m)),
        matches_all(cmds.push(c), m) == (matches_all(cmds, m) && c.matches(apply_all(cmds, m))),
{
    assert(cmds.push(c).drop_last() =~= cmds);
}

/// One undo step for the commands of a gesture: nothing when there are
/// none, the command itself when there is one, else a compound of them.
pub fn pack_commands_as_one(commands: Vec<EditCommand>) -> (r: Option<EditCommand>)
    ensures
        commands@.len() == 0 ==> r is None,
        commands@.len() == 1 ==> r == Some(commands@[0]),
        commands@.len() > 1 ==> (r matches Some(EditCommand::Compound(c)) && c.commands@ == commands@),
        forall|m: MapModel| (r matches Some(c) ==> c.apply(m) == #[trigger] apply_all(commands@, m)),
{
    let mut commands = commands;
    if commands.len() == 0 {
        None
    } else if commands.len() == 1 {
        let ghost s0 = commands@;
        let c = commands.pop().unwrap();
        proof {
            assert(s0.drop_last() =~= Seq::<EditCommand>::empty());
            assert forall|m: MapModel| c.apply(m) == #[trigger] apply_all(s0, m) by {
                reveal_with_fuel(apply_all, 2);
            }
        }
        Some(c)
    } else {
        Some(EditCommand::Compound(CompoundCommand::new(commands)))
    }
}

} // verus!
