//! Script label placement and the undoable label commands.
use vstd::prelude::*;

use crate::history::EditCommand;
use crate::map_model::{MapModel, ScriptLabel, WorldPos, WzMap, TILE_UNITS};
use crate::seq_ops::{insert_clamped, remove_at, replace_at};
use crate::text::{chars_has_prefix, chars_of, decimal, has_prefix, parse_i32, parse_i32_chars, push_chars, push_i64, push_u64, signed_decimal};

verus! {

/// Index of the first label whose key is `key`, or `-1` when there is none.
pub open spec fn first_key_index(labels: Seq<(String, ScriptLabel)>, key: Seq<char>) -> int {
    if exists|i: int| 0 <= i < labels.len() && is_first_key(labels, key, i) {
        choose|i: int| 0 <= i < labels.len() && is_first_key(labels, key, i)
    } else {
        -1
    }
}

pub open spec fn is_first_key(labels: Seq<(String, ScriptLabel)>, key: Seq<char>, i: int) -> bool {
    &&& labels[i].0@ == key
    &&& forall|j: int| 0 <= j < i ==> labels[j].0@ != key
}

/// No label carries `key`.
pub open spec fn key_absent(labels: Seq<(String, ScriptLabel)>, key: Seq<char>) -> bool {
    forall|j: int| 0 <= j < labels.len() ==> labels[j].0@ != key
}

pub proof fn lemma_first_key_unique(labels: Seq<(String, ScriptLabel)>, key: Seq<char>, i: int)
    requires
        0 <= i < labels.len(),
        is_first_key(labels, key, i),
    ensures
        first_key_index(labels, key) == i,
{
    let k = choose|k: int| 0 <= k < labels.len() && is_first_key(labels, key, k);
    if k < i {
        assert(labels[k].0@ != key);
    } else if k > i {
        assert(labels[i].0@ != key);
    }
}

/// Command: add a label under `key`.
pub struct AddLabelCommand {
    pub key: String,
    pub label: ScriptLabel,
}

impl AddLabelCommand {
    pub open spec fn apply(&self, m: MapModel) -> MapModel {
        MapModel { labels: m.labels.push((self.key, self.label)), ..m }
    }

    pub open spec fn revert(&self, m: MapModel) -> MapModel {
        MapModel { labels: remove_at(m.labels, first_key_index(m.labels, self.key@)), ..m }
    }

    /// No label of the map carries this command's key yet.
    pub open spec fn matches(&self, m: MapModel) -> bool {
        key_absent(m.labels, self.key@)
    }

    /// Append the label.
    pub fn execute(&self, map: &mut WzMap)
        ensures
            final(map)@ == self.apply(old(map)@),
    {
        map.labels.push((self.key.clone(), self.label.clone()));
        assert(map@ =~= self.apply(old(map)@));
    }

    /// Remove the first label carrying this key, if any.
    pub fn undo(&self, map: &mut WzMap)
        ensures
            final(map)@ == self.revert(old(map)@),
    {
        let mut i: usize = 0;
        while i < map.labels.len()
            invariant
                i <= map.labels@.len(),
                map@ == old(map)@,
                forall|j: int| 0 <= j < i ==> map.labels@[j].0@ != self.key@,
            decreases map.labels@.len() - i,
        {
            if map.labels[i].0 == self.key {
                proof {
                    lemma_first_key_unique(map.labels@, self.key@, i as int);
                }
                map.labels.remove(i);
                assert(map@ =~= self.revert(old(map)@));
                return;
            }
            i = i + 1;
        }
        assert(!(exists|k: int| 0 <= k < map.labels@.len() && is_first_key(map.labels@, self.key@, k)));
        assert(map@ =~= self.revert(old(map)@));
    }
}

/// Command: delete label `index`, keeping its key and value for undo.
pub struct DeleteLabelCommand {
    pub index: usize,
    pub saved_key: String,
    pub saved_label: ScriptLabel,
}

impl DeleteLabelCommand {
    pub open spec fn apply(&self, m: MapModel) -> MapModel {
        MapModel { labels: remove_at(m.labels, self.index as int), ..m }
    }

    pub open spec fn revert(&self, m: MapModel) -> MapModel {
        MapModel {
            labels: insert_clamped(m.labels, self.index as int, (self.saved_key, self.saved_label)),
            ..m
        }
    }

    /// The saved entry is the label at `index`.
    pub open spec fn matches(&self, m: MapModel) -> bool {
        self.index < m.labels.len() && m.labels[self.index as int] == (self.saved_key, self.saved_label)
    }

    /// Remove label `index` when it exists.
    pub fn execute(&self, map: &mut WzMap)
        ensures
            final(map)@ == self.apply(old(map)@),
    {
        if self.index < map.labels.len() {
            map.labels.remove(self.index);
        }
        assert(map@ =~= self.apply(old(map)@));
    }

    /// Re-insert the saved label at its index, clamped to the list length.
    pub fn undo(&self, map: &mut WzMap)
        ensures
            final(map)@ == self.revert(old(map)@),
    {
        let idx = if self.index < map.labels.len() {
            self.index
        } else {
            map.labels.len()
        };
        map.labels.insert(idx, (self.saved_key.clone(), self.saved_label.clone()));
        assert(map@ =~= self.revert(old(map)@));
    }
}

/// Command: replace the value of label `index`, keeping its key.
pub struct MoveLabelCommand {
    pub index: usize,
    pub old_label: ScriptLabel,
    pub new_label: ScriptLabel,
}

/// The labels with entry `index` given value `label` (key kept).
pub open spec fn relabel(labels: Seq<(String, ScriptLabel)>, index: int, label: ScriptLabel) -> Seq<
    (String, ScriptLabel),
> {
    replace_at(labels, index, (labels[index].0, label))
}

impl MoveLabelCommand {
    pub open spec fn apply(&self, m: MapModel) -> MapModel {
        MapModel { labels: relabel(m.labels, self.index as int, self.new_label), ..m }
    }

    pub open spec fn revert(&self, m: MapModel) -> MapModel {
        MapModel { labels: relabel(m.labels, self.index as int, self.old_label), ..m }
    }

    /// `old_label` is the current value at `index` (or the index is stale).
    pub open spec fn matches(&self, m: MapModel) -> bool {
        self.index < m.labels.len() ==> m.labels[self.index as int].1 == self.old_label
    }

    /// Write `new_label` into entry `index` when it exists.
    pub fn execute(&self, map: &mut WzMap)
        ensures
            final(map)@ == self.apply(old(map)@),
    {
        if self.index < map.labels.len() {
            map.labels[self.index].1 = self.new_label.clone();
        }
        assert(map@ =~= self.apply(old(map)@));
    }

    /// Write `old_label` back into entry `index` when it exists.
    pub fn undo(&self, map: &mut WzMap)
        ensures
            final(map)@ == self.revert(old(map)@),
    {
        if self.index < map.labels.len() {
            map.labels[self.index].1 = self.old_label.clone();
        }
        assert(map@ =~= self.revert(old(map)@));
    }
}

/// The number a key carries after `prefix`, when the rest parses as `i32`.
pub open spec fn key_number(key: Seq<char>, prefix: Seq<char>) -> Option<int> {
    if has_prefix(key, prefix) {
        parse_i32(key.subrange(prefix.len() as int, key.len() as int))
    } else {
        None
    }
}

/// Largest number carried by a key with `prefix`, or `-1` when none does.
pub open spec fn max_key_number(labels: Seq<(String, ScriptLabel)>, prefix: Seq<char>) -> int
    decreases labels.len(),
{
    if labels.len() == 0 {
        -1
    } else {
        let rest = max_key_number(labels.drop_last(), prefix);
        match key_number(labels.last().0@, prefix) {
            Some(n) => if n > rest {
                n
            } else {
                rest
            },
            None => rest,
        }
    }
}

proof fn lemma_max_key_number_range(labels: Seq<(String, ScriptLabel)>, prefix: Seq<char>)
    ensures
        -1 <= max_key_number(labels, prefix) <= i32::MAX,
    decreases labels.len(),
{
    if labels.len() > 0 {
        lemma_max_key_number_range(labels.drop_last(), prefix);
    }
}

/// Every key carrying a number after `prefix` carries at most the largest.
proof fn lemma_key_number_le_max(labels: Seq<(String, ScriptLabel)>, prefix: Seq<char>, i: int)
    requires
        0 <= i < labels.len(),
    ensures
        key_number(labels[i].0@, prefix) matches Some(n) ==> n <= max_key_number(labels, prefix),
    decreases labels.len(),
{
    if i < labels.len() - 1 {
        lemma_key_number_le_max(labels.drop_last(), prefix, i);
        assert(labels.drop_last()[i] == labels[i]);
    }
}

/// The key [`next_label_key`] makes is free: no label carries it yet.
pub proof fn lemma_next_label_key_is_fresh(labels: Seq<(String, ScriptLabel)>, prefix: Seq<char>)
    requires
        max_key_number(labels, prefix) < i32::MAX,
    ensures
        forall|i: int| 0 <= i < labels.len() ==> (#[trigger] labels[i]).0@ != prefix + signed_decimal(
            max_key_number(labels, prefix) + 1,
        ),
{
    let m = max_key_number(labels, prefix);
    lemma_max_key_number_range(labels, prefix);
    let key = prefix + signed_decimal(m + 1);
    crate::text::lemma_parse_decimal(m + 1);
    assert(key.subrange(0, prefix.len() as int) =~= prefix);
    assert(key.subrange(prefix.len() as int, key.len() as int) =~= signed_decimal(m + 1));
    assert(key_number(key, prefix) == Some(m + 1));
    assert forall|i: int| 0 <= i < labels.len() implies (#[trigger] labels[i]).0@ != key by {
        lemma_key_number_le_max(labels, prefix, i);
    }
}

/// The next free key for a label kind: `prefix` followed by one more than
/// the largest number already used after that prefix (`prefix0` when none).
pub fn next_label_key(labels: &[(String, ScriptLabel)], prefix: &str) -> (r: String)
    requires
        max_key_number(labels@, prefix@) < i32::MAX,
    ensures
        r@ == prefix@ + signed_decimal(max_key_number(labels@, prefix@) + 1),
{
    let pv = chars_of(prefix);
    let mut max_idx: i32 = -1;
    let mut i: usize = 0;
    while i < labels.len()
        invariant
            i <= labels@.len(),
            pv@ == prefix@,
            max_idx as int == max_key_number(labels@.subrange(0, i as int), prefix@),
        decreases labels@.len() - i,
    {
        let kv = chars_of(labels[i].0.as_str());
        let ghost sub = labels@.subrange(0, i as int + 1);
        assert(sub.drop_last() =~= labels@.subrange(0, i as int));
        assert(sub.last() == labels@[i as int]);
        if chars_has_prefix(kv.as_slice(), pv.as_slice()) {
            if let Some(n) = parse_i32_chars(kv.as_slice(), pv.len()) {
                if n > max_idx {
                    max_idx = n;
                }
            }
        }
        i = i + 1;
    }
    assert(labels@.subrange(0, labels@.len() as int) =~= labels@);
    let mut out = String::new();
    push_chars(&mut out, pv.as_slice());
    push_i64(&mut out, max_idx as i64 + 1);
    out
}

/// Tile under a world position.
pub open spec fn spec_world_to_tile(pos: WorldPos) -> (u32, u32) {
    ((pos.x / TILE_UNITS) as u32, (pos.y / TILE_UNITS) as u32)
}

fn world_pos_to_tile(pos: WorldPos) -> (r: (u32, u32))
    ensures
        r == spec_world_to_tile(pos),
{
    (pos.x / TILE_UNITS, pos.y / TILE_UNITS)
}

/// Click for point labels, drag for area labels.
#[derive(Debug, Default)]
pub struct ScriptLabelTool {
    /// True: drag-rectangle area labels; false: single-click point labels.
    pub place_area: bool,
    /// User-typed label name; empty falls back to `pos{N}` / `area{N}`.
    pub name: String,
    pub drag_start: Option<(u32, u32)>,
}

/// The default name of the `n`-th label of a kind: `base` then `n`.
pub open spec fn default_label_name(base: Seq<char>, n: nat) -> Seq<char> {
    base + decimal(n)
}

impl ScriptLabelTool {
    /// In-flight area-label drag start, for the rectangle preview.
    pub fn drag_start(&self) -> (r: Option<(u32, u32)>)
        ensures
            r == self.drag_start,
    {
        self.drag_start
    }

    /// Press: an area drag starts at the pressed tile.
    pub fn on_mouse_press(&mut self, pos: WorldPos)
        ensures
            final(self).place_area == old(self).place_area,
            final(self).name == old(self).name,
            final(self).drag_start == (if old(self).place_area {
                Some(spec_world_to_tile(pos))
            } else {
                old(self).drag_start
            }),
    {
        if self.place_area {
            self.drag_start = Some(world_pos_to_tile(pos));
        }
    }

    /// Release: add an area label over the dragged tile rectangle, or a point
    /// label at the centre of the released tile, and return the applied command.
    pub fn on_mouse_release(&mut self, map: &mut WzMap, pos: Option<WorldPos>) -> (r: Option<EditCommand>)
        requires
            old(self).place_area ==> (pos matches Some(p) ==> p.x < 0xFFFF_FF80 && p.y < 0xFFFF_FF80),
            old(self).place_area ==> (old(self).drag_start matches Some(s) ==> s.0 < 0x200_0000 && s.1 < 0x200_0000),
            old(self).place_area ==> max_key_number(old(map)@.labels, seq!['a', 'r', 'e', 'a', '_']) < i32::MAX,
            !old(self).place_area ==> max_key_number(old(map)@.labels, seq!['p', 'o', 's', 'i', 't', 'i', 'o', 'n', '_'])
                < i32::MAX,
        ensures
            final(self).place_area == old(self).place_area,
            old(self).place_area ==> final(self).drag_start is None,
            !old(self).place_area ==> final(self).drag_start == old(self).drag_start,
            r is None <==> (pos is None || (old(self).place_area && old(self).drag_start is None)),
            r is None ==> final(map)@ == old(map)@ && final(self).name == old(self).name,
            r matches Some(cmd) ==> {
                &&& cmd is AddLabel
                &&& final(map)@ == cmd.apply(old(map)@)
                &&& final(map)@.labels.len() == old(map)@.labels.len() + 1
                &&& cmd->AddLabel_0.key@ == if old(self).place_area {
                    seq!['a', 'r', 'e', 'a', '_'] + signed_decimal(
                        max_key_number(old(map)@.labels, seq!['a', 'r', 'e', 'a', '_']) + 1,
                    )
                } else {
                    seq!['p', 'o', 's', 'i', 't', 'i', 'o', 'n', '_'] + signed_decimal(
                        max_key_number(
                            old(map)@.labels,
                            seq!['p', 'o', 's', 'i', 't', 'i', 'o', 'n', '_'],
                        ) + 1,
                    )
                }
                &&& is_release_label(
                    cmd->AddLabel_0.label,
                    old(self).place_area,
                    old(self).drag_start,
                    pos->0,
                    if old(self).name@.len() == 0 {
                        default_label_name(
                            if old(self).place_area {
                                seq!['a', 'r', 'e', 'a']
                            } else {
                                seq!['p', 'o', 's']
                            },
                            old(map)@.labels.len(),
                        )
                    } else {
                        old(self).name@
                    },
                )
                &&& final(self).name@.len() == 0
            },
    {
        proof {
            reveal_strlit("area_");
            reveal_strlit("position_");
            assert("area_"@ =~= seq!['a', 'r', 'e', 'a', '_']);
            assert("position_"@ =~= seq!['p', 'o', 's', 'i', 't', 'i', 'o', 'n', '_']);
        }
        if self.place_area {
            let start = self.drag_start.take();
            let (sx, sy) = match start {
                Some(s) => s,
                None => return None,
            };
            let end_pos = match pos {
                Some(p) => p,
                None => return None,
            };
            let (tx, ty) = world_pos_to_tile(end_pos);
            let world_x1 = sx * TILE_UNITS;
            let world_y1 = sy * TILE_UNITS;
            let world_x2 = (tx + 1) * TILE_UNITS;
            let world_y2 = (ty + 1) * TILE_UNITS;
            let name = self.take_name_or(map.labels.len(), false);
            let key = next_label_key(map.labels.as_slice(), "area_");
            let label = ScriptLabel::new_area(name, world_x1, world_y1, world_x2, world_y2);
            let cmd = AddLabelCommand { key, label };
            cmd.execute(map);
            Some(EditCommand::AddLabel(cmd))
        } else {
            let end_pos = match pos {
                Some(p) => p,
                None => return None,
            };
            let (tx, ty) = world_pos_to_tile(end_pos);
            let world_x = tx * TILE_UNITS + TILE_UNITS / 2;
            let world_y = ty * TILE_UNITS + TILE_UNITS / 2;
            let name = self.take_name_or(map.labels.len(), true);
            let key = next_label_key(map.labels.as_slice(), "position_");
            let label = ScriptLabel::new_position(name, world_x, world_y);
            let cmd = AddLabelCommand { key, label };
            cmd.execute(map);
            Some(EditCommand::AddLabel(cmd))
        }
    }

    /// The user-typed name (leaving it empty), or `pos{n}` / `area{n}` when none was typed.
    fn take_name_or(&mut self, n: usize, point: bool) -> (r: String)
        ensures
            r@ == if old(self).name@.len() == 0 {
                default_label_name(
                    if point {
                        seq!['p', 'o', 's']
                    } else {
                        seq!['a', 'r', 'e', 'a']
                    },
                    n as nat,
                )
            } else {
                old(self).name@
            },
            final(self).name@.len() == 0,
            final(self).place_area == old(self).place_area,
            final(self).drag_start == old(self).drag_start,
    {
        if self.name.as_str().is_empty() {
            let mut s = String::new();
            if point {
                push_chars(&mut s, &['p', 'o', 's']);
            } else {
                push_chars(&mut s, &['a', 'r', 'e', 'a']);
            }
            push_u64(&mut s, n as u64);
            s
        } else {
            let mut out = String::new();
            std::mem::swap(&mut out, &mut self.name);
            out
        }
    }

    /// Deactivation cancels any in-flight drag.
    pub fn on_deactivated(&mut self) -> (r: Option<EditCommand>)
        ensures
            r is None,
            final(self).drag_start is None,
            final(self).place_area == old(self).place_area,
            final(self).name == old(self).name,
    {
        self.drag_start = None;
        None
    }
}

/// Whether `label` is what a release produces: the tile rectangle from the
/// drag start to the released tile (inclusive), or the centre of the released
/// tile, named `name`.
pub open spec fn is_release_label(label: ScriptLabel, area: bool, start: Option<(u32, u32)>, end: WorldPos, name: Seq<char>) -> bool {
    let t = spec_world_to_tile(end);
    if area {
        &&& label matches ScriptLabel::Area { label: l, pos1, pos2 }
        &&& l@ == name
        &&& pos1[0] == (start->0).0 * TILE_UNITS
        &&& pos1[1] == (start->0).1 * TILE_UNITS
        &&& pos2[0] == (t.0 + 1) * TILE_UNITS
        &&& pos2[1] == (t.1 + 1) * TILE_UNITS
    } else {
        &&& label matches ScriptLabel::Position { label: l, pos }
        &&& l@ == name
        &&& pos[0] == t.0 * TILE_UNITS + TILE_UNITS / 2
        &&& pos[1] == t.1 * TILE_UNITS + TILE_UNITS / 2
    }
}

} // verus!
