//! Reversible command for one stamp or scatter application: tile rewrites
//! plus appended objects.
use vstd::prelude::*;

use crate::map_model::{grid_index, lemma_tile_index_bound, tile_index, Droid, Feature, MapModel, MapTile, Structure, WzMap};
use crate::seq_ops::remove_at;

verus! {

/// One tile rewrite: `(x, y, old_texture, old_height, new_texture, new_height)`.
pub type TileChange = (u32, u32, u16, u16, u16, u16);

/// The tiles after applying `changes` in order, writing the new values
/// (`forward`) or the old ones; changes outside the grid are skipped.
pub open spec fn write_tiles(tiles: Seq<MapTile>, width: u32, height: u32, changes: Seq<TileChange>, forward: bool) -> Seq<MapTile>
    decreases changes.len(),
{
    if changes.len() == 0 {
        tiles
    } else {
        let t = write_tiles(tiles, width, height, changes.drop_last(), forward);
        let c = changes.last();
        if c.0 < width && c.1 < height {
            t.update(
                tile_index(width, c.0, c.1),
                if forward {
                    MapTile { texture: c.4, height: c.5 }
                } else {
                    MapTile { texture: c.2, height: c.3 }
                },
            )
        } else {
            t
        }
    }
}

/// `s` after removing the elements at `idx`, last index first; indices out
/// of range at their turn are skipped.
pub open spec fn remove_indices_rev<T>(s: Seq<T>, idx: Seq<usize>) -> Seq<T>
    decreases idx.len(),
{
    if idx.len() == 0 {
        s
    } else {
        remove_indices_rev(remove_at(s, idx.last() as int), idx.drop_last())
    }
}

pub proof fn lemma_write_tiles_len(tiles: Seq<MapTile>, width: u32, height: u32, changes: Seq<TileChange>, forward: bool)
    requires
        tiles.len() == width as int * height as int,
    ensures
        write_tiles(tiles, width, height, changes, forward).len() == tiles.len(),
    decreases changes.len(),
{
    if changes.len() > 0 {
        lemma_write_tiles_len(tiles, width, height, changes.drop_last(), forward);
        let c = changes.last();
        if c.0 < width && c.1 < height {
            lemma_tile_index_bound(width, height, c.0, c.1);
        }
    }
}

/// Reversible command for a single stamp or scatter application.
#[derive(Debug)]
pub struct StampCommand {
    pub tile_changes: Vec<TileChange>,
    /// Objects added by this stamp, replayed on redo.
    pub structures: Vec<Structure>,
    pub droids: Vec<Droid>,
    pub features: Vec<Feature>,
    /// Where the added objects landed, removed on undo.
    pub structure_indices: Vec<usize>,
    pub droid_indices: Vec<usize>,
    pub feature_indices: Vec<usize>,
}

impl StampCommand {
    pub open spec fn apply(&self, m: MapModel) -> MapModel {
        MapModel {
            tiles: write_tiles(m.tiles, m.width, m.height, self.tile_changes@, true),
            structures: m.structures + self.structures@,
            droids: m.droids + self.droids@,
            features: m.features + self.features@,
            ..m
        }
    }

    pub open spec fn revert(&self, m: MapModel) -> MapModel {
        MapModel {
            tiles: write_tiles(m.tiles, m.width, m.height, self.tile_changes@, false),
            structures: remove_indices_rev(m.structures, self.structure_indices@),
            droids: remove_indices_rev(m.droids, self.droid_indices@),
            features: remove_indices_rev(m.features, self.feature_indices@),
            ..m
        }
    }

    /// Write the new tile values, then append the stamped objects.
    pub fn execute(&self, map: &mut WzMap)
        requires
            old(map)@.grid_ok(),
        ensures
            final(map)@ == self.apply(old(map)@),
    {
        write_changes(map, &self.tile_changes, true);
        let mut i: usize = 0;
        while i < self.structures.len()
            invariant
                i <= self.structures@.len(),
                map@ == (MapModel {
                    tiles: map@.tiles,
                    structures: old(map)@.structures + self.structures@.subrange(0, i as int),
                    ..old(map)@
                }),
                map@.tiles == write_tiles(old(map)@.tiles, old(map)@.width, old(map)@.height, self.tile_changes@, true),
            decreases self.structures@.len() - i,
        {
            map.structures.push(self.structures[i].clone());
            assert(old(map)@.structures + self.structures@.subrange(0, i as int + 1) =~= (old(map)@.structures
                + self.structures@.subrange(0, i as int)).push(self.structures@[i as int]));
            i = i + 1;
        }
        assert(self.structures@.subrange(0, self.structures@.len() as int) =~= self.structures@);
        let ghost mid = map@;
        let mut i: usize = 0;
        while i < self.droids.len()
            invariant
                i <= self.droids@.len(),
                map@ == (MapModel { droids: old(map)@.droids + self.droids@.subrange(0, i as int), ..mid }),
            decreases self.droids@.len() - i,
        {
            map.droids.push(self.droids[i].clone());
            assert(old(map)@.droids + self.droids@.subrange(0, i as int + 1) =~= (old(map)@.droids
                + self.droids@.subrange(0, i as int)).push(self.droids@[i as int]));
            i = i + 1;
        }
        assert(self.droids@.subrange(0, self.droids@.len() as int) =~= self.droids@);
        let ghost mid2 = map@;
        let mut i: usize = 0;
        while i < self.features.len()
            invariant
                i <= self.features@.len(),
                map@ == (MapModel { features: old(map)@.features + self.features@.subrange(0, i as int), ..mid2 }),
            decreases self.features@.len() - i,
        {
            map.features.push(self.features[i].clone());
            assert(old(map)@.features + self.features@.subrange(0, i as int + 1) =~= (old(map)@.features
                + self.features@.subrange(0, i as int)).push(self.features@[i as int]));
            i = i + 1;
        }
        assert(self.features@.subrange(0, self.features@.len() as int) =~= self.features@);
        assert(map@ =~= self.apply(old(map)@));
    }

    /// Write the old tile values back, then remove the stamped objects at
    /// their recorded indices, last first.
    pub fn undo(&self, map: &mut WzMap)
        requires
            old(map)@.grid_ok(),
        ensures
            final(map)@ == self.revert(old(map)@),
    {
        write_changes(map, &self.tile_changes, false);
        let ghost m1 = map@;
        remove_rev(&mut map.features, &self.feature_indices);
        assert(map@ =~= MapModel { features: remove_indices_rev(m1.features, self.feature_indices@), ..m1 });
        let ghost m2 = map@;
        remove_rev(&mut map.droids, &self.droid_indices);
        assert(map@ =~= MapModel { droids: remove_indices_rev(m2.droids, self.droid_indices@), ..m2 });
        let ghost m3 = map@;
        remove_rev(&mut map.structures, &self.structure_indices);
        assert(map@ =~= MapModel { structures: remove_indices_rev(m3.structures, self.structure_indices@), ..m3 });
        assert(map@ =~= self.revert(old(map)@));
    }
}

fn write_changes(map: &mut WzMap, changes: &Vec<TileChange>, forward: bool)
    requires
        old(map)@.grid_ok(),
    ensures
        final(map)@ == (MapModel {
            tiles: write_tiles(old(map)@.tiles, old(map)@.width, old(map)@.height, changes@, forward),
            ..old(map)@
        }),
{
    let mut i: usize = 0;
    while i < changes.len()
        invariant
            i <= changes@.len(),
            map@ == (MapModel {
                tiles: write_tiles(old(map)@.tiles, old(map)@.width, old(map)@.height, changes@.subrange(0, i as int), forward),
                ..old(map)@
            }),
            map@.grid_ok(),
            old(map)@.grid_ok(),
        decreases changes@.len() - i,
    {
        let c = changes[i];
        let ghost pre = changes@.subrange(0, i as int);
        assert(changes@.subrange(0, i as int + 1).drop_last() =~= pre);
        proof {
            lemma_write_tiles_len(old(map)@.tiles, old(map)@.width, old(map)@.height, pre, forward);
        }
        if c.0 < map.map_data.width && c.1 < map.map_data.height {
            let _n = map.map_data.tiles.len();
            let idx = grid_index(map.map_data.width, map.map_data.height, c.0, c.1);
            let tile = if forward {
                MapTile { texture: c.4, height: c.5 }
            } else {
                MapTile { texture: c.2, height: c.3 }
            };
            map.map_data.tiles.set(idx, tile);
        }
        assert(map@ =~= MapModel {
            tiles: write_tiles(old(map)@.tiles, old(map)@.width, old(map)@.height, changes@.subrange(0, i as int + 1), forward),
            ..old(map)@
        });
        i = i + 1;
    }
    assert(changes@.subrange(0, changes@.len() as int) =~= changes@);
}

fn remove_rev<T>(v: &mut Vec<T>, idx: &Vec<usize>)
    ensures
        final(v)@ == remove_indices_rev(old(v)@, idx@),
{
    let mut k = idx.len();
    assert(idx@.subrange(0, k as int) =~= idx@);
    while k > 0
        invariant
            k <= idx@.len(),
            remove_indices_rev(v@, idx@.subrange(0, k as int)) == remove_indices_rev(old(v)@, idx@),
        decreases k,
    {
        let i = idx[k - 1];
        let ghost before = v@;
        assert(idx@.subrange(0, k as int).drop_last() =~= idx@.subrange(0, k as int - 1));
        if i < v.len() {
            v.remove(i);
        }
        assert(v@ == remove_at(before, i as int));
        k = k - 1;
    }
    assert(idx@.subrange(0, 0) =~= Seq::<usize>::empty());
}

/// Whether a stamp changed anything: a tile, or an added object.
pub fn stamp_command_non_empty(cmd: &StampCommand) -> (r: bool)
    ensures
        r == (cmd.tile_changes@.len() > 0 || cmd.structures@.len() > 0 || cmd.droids@.len() > 0
            || cmd.features@.len() > 0),
{
    cmd.tile_changes.len() > 0 || cmd.structures.len() > 0 || cmd.droids.len() > 0 || cmd.features.len() > 0
}

/// The value a change writes: the new one forward, the old one back.
pub open spec fn change_value(c: TileChange, forward: bool) -> MapTile {
    if forward {
        MapTile { texture: c.4, height: c.5 }
    } else {
        MapTile { texture: c.2, height: c.3 }
    }
}

/// No two changes address the same tile.
pub open spec fn changes_distinct(changes: Seq<TileChange>) -> bool {
    forall|i: int, j: int| 0 <= i < j < changes.len() ==> ((#[trigger] changes[i]).0, changes[i].1) != ((#[trigger] changes[j]).0, changes[j].1)
}

/// Each in-grid change records the tile the map holds as its old value.
pub open spec fn olds_match(tiles: Seq<MapTile>, width: u32, height: u32, changes: Seq<TileChange>) -> bool {
    forall|i: int| 0 <= i < changes.len() && (#[trigger] changes[i]).0 < width && changes[i].1 < height ==> tiles[tile_index(width, changes[i].0, changes[i].1)]
        == change_value(changes[i], false)
}

/// Indices `base`, `base + 1`, ... for `n` appended objects.
pub open spec fn appended_indices(idx: Seq<usize>, base: nat, n: nat) -> bool {
    idx.len() == n && forall|k: int| 0 <= k < n ==> #[trigger] idx[k] == base + k
}

/// A stamp recorded against map `m` (whose grid is well formed): its tile
/// changes address distinct tiles and remember what `m` holds there, and
/// its index lists name the slots its objects are appended to.
pub open spec fn stamp_matches(c: StampCommand, m: MapModel) -> bool {
    &&& m.grid_ok()
    &&& changes_distinct(c.tile_changes@)
    &&& olds_match(m.tiles, m.width, m.height, c.tile_changes@)
    &&& appended_indices(c.structure_indices@, m.structures.len(), c.structures@.len())
    &&& appended_indices(c.droid_indices@, m.droids.len(), c.droids@.len())
    &&& appended_indices(c.feature_indices@, m.features.len(), c.features@.len())
}

/// With distinct positions, a tile ends up with the value of the change at
/// its position, or keeps its value when no change addresses it.
proof fn lemma_write_tiles_at(tiles: Seq<MapTile>, width: u32, height: u32, changes: Seq<TileChange>, forward: bool, x: u32, y: u32)
    requires
        tiles.len() == width as int * height as int,
        changes_distinct(changes),
        x < width,
        y < height,
    ensures
        write_tiles(tiles, width, height, changes, forward)[tile_index(width, x, y)] == (if exists|k: int|
            0 <= k < changes.len() && (#[trigger] changes[k]).0 == x && changes[k].1 == y {
            change_value(changes[choose|k: int| 0 <= k < changes.len() && (#[trigger] changes[k]).0 == x && changes[k].1 == y], forward)
        } else {
            tiles[tile_index(width, x, y)]
        }),
    decreases changes.len(),
{
    if changes.len() > 0 {
        let prev = changes.drop_last();
        assert(changes_distinct(prev)) by {
            assert forall|i: int, j: int| 0 <= i < j < prev.len() implies ((#[trigger] prev[i]).0, prev[i].1) != ((#[trigger] prev[j]).0, prev[j].1) by {
                assert(prev[i] == changes[i] && prev[j] == changes[j]);
            }
        }
        lemma_write_tiles_at(tiles, width, height, prev, forward, x, y);
        lemma_write_tiles_len(tiles, width, height, prev, forward);
        lemma_tile_index_bound(width, height, x, y);
        let c = changes.last();
        let n = changes.len() - 1;
        if c.0 == x && c.1 == y {
            assert(changes[n].0 == x && changes[n].1 == y);
            let k = choose|k: int| 0 <= k < changes.len() && (#[trigger] changes[k]).0 == x && changes[k].1 == y;
            if k != n {
                assert(k < n);
                assert((changes[k].0, changes[k].1) != (changes[n].0, changes[n].1));
            }
            assert(!exists|k2: int| 0 <= k2 < prev.len() && (#[trigger] prev[k2]).0 == x && prev[k2].1 == y) by {
                if exists|k2: int| 0 <= k2 < prev.len() && (#[trigger] prev[k2]).0 == x && prev[k2].1 == y {
                    let k2 = choose|k2: int| 0 <= k2 < prev.len() && (#[trigger] prev[k2]).0 == x && prev[k2].1 == y;
                    assert(prev[k2] == changes[k2]);
                    assert((changes[k2].0, changes[k2].1) != (changes[n].0, changes[n].1));
                }
            }
        } else {
            if c.0 < width && c.1 < height {
                lemma_tile_index_bound(width, height, c.0, c.1);
                assert(tile_index(width, c.0, c.1) != tile_index(width, x, y)) by (nonlinear_arith)
                    requires
                        c.0 < width,
                        x < width,
                        (c.0, c.1) != (x, y),
                ;
            }
            if exists|k: int| 0 <= k < changes.len() && (#[trigger] changes[k]).0 == x && changes[k].1 == y {
                let k = choose|k: int| 0 <= k < changes.len() && (#[trigger] changes[k]).0 == x && changes[k].1 == y;
                assert(k < n);
                assert(prev[k] == changes[k]);
                let k2 = choose|k2: int| 0 <= k2 < prev.len() && (#[trigger] prev[k2]).0 == x && prev[k2].1 == y;
                assert(prev[k2] == changes[k2]);
                if k2 != k {
                    if k2 < k {
                        assert((changes[k2].0, changes[k2].1) != (changes[k].0, changes[k].1));
                    } else {
                        assert((changes[k].0, changes[k].1) != (changes[k2].0, changes[k2].1));
                    }
                }
            } else {
                assert(!exists|k2: int| 0 <= k2 < prev.len() && (#[trigger] prev[k2]).0 == x && prev[k2].1 == y) by {
                    if exists|k2: int| 0 <= k2 < prev.len() && (#[trigger] prev[k2]).0 == x && prev[k2].1 == y {
                        let k2 = choose|k2: int| 0 <= k2 < prev.len() && (#[trigger] prev[k2]).0 == x && prev[k2].1 == y;
                        assert(prev[k2] == changes[k2]);
                    }
                }
            }
        }
    }
}

/// Writing the old values back after the new ones restores the tiles.
proof fn lemma_write_tiles_round_trip(tiles: Seq<MapTile>, width: u32, height: u32, changes: Seq<TileChange>)
    requires
        tiles.len() == width as int * height as int,
        changes_distinct(changes),
        olds_match(tiles, width, height, changes),
    ensures
        write_tiles(write_tiles(tiles, width, height, changes, true), width, height, changes, false) == tiles,
{
    let fwd = write_tiles(tiles, width, height, changes, true);
    lemma_write_tiles_len(tiles, width, height, changes, true);
    let back = write_tiles(fwd, width, height, changes, false);
    lemma_write_tiles_len(fwd, width, height, changes, false);
    assert forall|i: int| 0 <= i < tiles.len() implies back[i] == tiles[i] by {
        assert(width > 0) by (nonlinear_arith)
            requires
                0 <= i < width as int * height as int,
        ;
        let yi = i / width as int;
        let xi = i % width as int;
        assert(0 <= yi < height && 0 <= xi < width && i == yi * width + xi) by (nonlinear_arith)
            requires
                0 <= i < width as int * height as int,
                yi == i / width as int,
                xi == i % width as int,
                width > 0,
        ;
        let y = yi as u32;
        let x = xi as u32;
        assert(i == tile_index(width, x, y));
        lemma_write_tiles_at(fwd, width, height, changes, false, x, y);
        lemma_write_tiles_at(tiles, width, height, changes, true, x, y);
        if exists|k: int| 0 <= k < changes.len() && (#[trigger] changes[k]).0 == x && changes[k].1 == y {
            let k = choose|k: int| 0 <= k < changes.len() && (#[trigger] changes[k]).0 == x && changes[k].1 == y;
            assert(changes[k].0 < width && changes[k].1 < height);
        }
    }
    assert(back =~= tiles);
}

/// Removing the appended slots, last first, gives back the list they were appended to.
proof fn lemma_remove_appended<T>(s: Seq<T>, added: Seq<T>, idx: Seq<usize>)
    requires
        appended_indices(idx, s.len(), added.len()),
    ensures
        remove_indices_rev(s + added, idx) == s,
    decreases idx.len(),
{
    if idx.len() == 0 {
        assert(s + added =~= s);
    } else {
        let n = idx.len() - 1;
        assert(idx.last() == s.len() + n);
        assert((s + added).remove(s.len() + n) =~= s + added.drop_last());
        assert(appended_indices(idx.drop_last(), s.len(), added.drop_last().len())) by {
            assert forall|k: int| 0 <= k < n implies #[trigger] idx.drop_last()[k] == s.len() + k by {
                assert(idx.drop_last()[k] == idx[k]);
            }
        }
        lemma_remove_appended(s, added.drop_last(), idx.drop_last());
    }
}

/// Undoing a stamp right after executing it on the map it was recorded
/// against restores that map: every tile written gets its old value back
/// and every object added is removed again.
pub proof fn lemma_stamp_undo_restores(c: StampCommand, m: MapModel)
    requires
        stamp_matches(c, m),
    ensures
        c.revert(c.apply(m)) == m,
{
    lemma_write_tiles_round_trip(m.tiles, m.width, m.height, c.tile_changes@);
    lemma_remove_appended(m.structures, c.structures@, c.structure_indices@);
    lemma_remove_appended(m.droids, c.droids@, c.droid_indices@);
    lemma_remove_appended(m.features, c.features@, c.feature_indices@);
    assert(c.revert(c.apply(m)) =~= m);
}

} // verus!
