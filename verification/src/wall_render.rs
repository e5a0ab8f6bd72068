//! How placed walls are drawn: a per-frame index from tile to the wall
//! family standing there, and the shape of a wall read off that index.
use vstd::prelude::*;

use crate::designer::opt_view;
use crate::map_model::Structure;
use crate::stats::{find_key, spec_get, StatsDatabase};
use crate::text::{owned, str_eq};
use crate::wall_tool::{
    base_wall_for_corner, spec_base_wall_for_corner, spec_wall_shape_for_mask, wall_shape_for_mask, WallShape,
    MASK_DOWN, MASK_LEFT, MASK_RIGHT, MASK_UP,
};

verus! {

/// The wall connector standing on a tile: its family's base stat, and
/// whether it only joins walls (a tower, hardpoint or gate) rather than
/// being a wall itself.
#[derive(Debug)]
pub struct WallTileEntry {
    pub tile: (u32, u32),
    pub stat_name: String,
    pub combines_only: bool,
}

/// Tile of a structure: its position divided by the tile size.
pub open spec fn structure_tile(s: Structure) -> (u32, u32) {
    ((s.position.x / 128) as u32, (s.position.y / 128) as u32)
}

/// What a structure records in the wall index: nothing unless its stats
/// make it a wall, a corner wall or a wall-combining structure. A corner
/// wall is filed under its family's base wall stat.
pub open spec fn wall_entry(s: Structure, db: StatsDatabase) -> Option<(Seq<char>, bool)> {
    match spec_get(db.structures@, s.name@) {
        Some(st) => {
            let ty = opt_view(st.structure_type);
            let is_wall = ty == Some("WALL"@);
            let is_corner = ty == Some("CORNER WALL"@);
            if !is_wall && !is_corner && !st.combines_with_wall {
                None
            } else {
                let name = if is_corner {
                    match spec_base_wall_for_corner(s.name@) {
                        Some(b) => b,
                        None => s.name@,
                    }
                } else {
                    s.name@
                };
                Some((name, !is_wall && !is_corner))
            }
        },
        None => None,
    }
}

/// The wall index after the first `n` structures: each tile maps to the
/// last wall connector on it.
pub open spec fn wall_index(s: Seq<Structure>, db: StatsDatabase, n: int) -> Map<(u32, u32), (Seq<char>, bool)>
    decreases n,
{
    if n <= 0 {
        Map::empty()
    } else {
        let m = wall_index(s, db, n - 1);
        match wall_entry(s[n - 1], db) {
            Some(e) => m.insert(structure_tile(s[n - 1]), e),
            None => m,
        }
    }
}

/// The index as a map from tile to (family stat, combines only).
pub open spec fn index_view(v: Seq<WallTileEntry>) -> Map<(u32, u32), (Seq<char>, bool)> {
    Map::new(
        |t: (u32, u32)| exists|i: int| 0 <= i < v.len() && v[i].tile == t,
        |t: (u32, u32)| {
            let i = choose|i: int| 0 <= i < v.len() && v[i].tile == t;
            (v[i].stat_name@, v[i].combines_only)
        },
    )
}

/// No tile appears twice.
pub open spec fn tiles_unique(v: Seq<WallTileEntry>) -> bool {
    forall|i: int, j: int| 0 <= i < v.len() && 0 <= j < v.len() && i != j ==> v[i].tile != v[j].tile
}

fn put_entry(v: &mut Vec<WallTileEntry>, e: WallTileEntry)
    requires
        tiles_unique(old(v)@),
    ensures
        tiles_unique(final(v)@),
        index_view(final(v)@) == index_view(old(v)@).insert(e.tile, (e.stat_name@, e.combines_only)),
{
    let ghost ov = v@;
    let ghost ev = (e.stat_name@, e.combines_only);
    let ghost eg = e;
    let t = e.tile;
    let mut i: usize = 0;
    while i < v.len()
        invariant
            v@ == ov,
            ov == old(v)@,
            tiles_unique(ov),
            eg == e,
            t == e.tile,
            ev == (e.stat_name@, e.combines_only),
            i <= v@.len(),
            forall|j: int| 0 <= j < i ==> v@[j].tile != t,
        decreases v@.len() - i,
    {
        if v[i].tile.0 == t.0 && v[i].tile.1 == t.1 {
            v.set(i, e);
            proof {
                let nv = v@;
                assert(ov[i as int].tile == t);
                assert(nv =~= ov.update(i as int, eg));
                assert(nv[i as int].tile == t);
                assert forall|a: int, b: int| 0 <= a < nv.len() && 0 <= b < nv.len() && a != b implies nv[a].tile
                    != nv[b].tile by {
                    assert(ov[a].tile != ov[b].tile);
                    if a == i {
                        assert(nv[b] == ov[b]);
                    } else if b == i {
                        assert(nv[a] == ov[a]);
                    } else {
                        assert(nv[a] == ov[a] && nv[b] == ov[b]);
                    }
                }
                assert forall|k: (u32, u32)| #![trigger index_view(nv).dom().contains(k)]
                    index_view(nv).dom().contains(k) <==> index_view(ov).insert(t, ev).dom().contains(k) by {
                    if exists|j: int| 0 <= j < ov.len() && ov[j].tile == k {
                        let j = choose|j: int| 0 <= j < ov.len() && ov[j].tile == k;
                        assert(nv[j].tile == k);
                    }
                    if k == t {
                        assert(nv[i as int].tile == k);
                    }
                }
                assert forall|k: (u32, u32)| #[trigger] index_view(nv).dom().contains(k) implies index_view(nv)[k]
                    == index_view(ov).insert(t, ev)[k] by {
                    let j = choose|j: int| 0 <= j < nv.len() && nv[j].tile == k;
                    if k != t {
                        assert(j != i);
                        assert(ov[j].tile == k);
                        let j2 = choose|j2: int| 0 <= j2 < ov.len() && ov[j2].tile == k;
                        assert(j2 == j);
                    } else {
                        assert(j == i);
                    }
                }
                assert(index_view(nv) =~= index_view(ov).insert(t, ev));
            }
            return;
        }
        i = i + 1;
    }
    v.push(e);
    proof {
        let nv = v@;
        assert forall|a: int, b: int| 0 <= a < nv.len() && 0 <= b < nv.len() && a != b implies nv[a].tile
            != nv[b].tile by {
            if a < ov.len() && b < ov.len() {
                assert(ov[a].tile != ov[b].tile);
            }
        }
        assert forall|k: (u32, u32)| #![trigger index_view(nv).dom().contains(k)]
            index_view(nv).dom().contains(k) <==> index_view(ov).insert(t, ev).dom().contains(k) by {
            if exists|j: int| 0 <= j < ov.len() && ov[j].tile == k {
                let j = choose|j: int| 0 <= j < ov.len() && ov[j].tile == k;
                assert(nv[j].tile == k);
            }
            if k == t {
                assert(nv[ov.len() as int].tile == k);
            }
        }
        assert forall|k: (u32, u32)| #[trigger] index_view(nv).dom().contains(k) implies index_view(nv)[k]
            == index_view(ov).insert(t, ev)[k] by {
            let j = choose|j: int| 0 <= j < nv.len() && nv[j].tile == k;
            if k != t {
                assert(j < ov.len());
                assert(ov[j].tile == k);
                let j2 = choose|j2: int| 0 <= j2 < ov.len() && ov[j2].tile == k;
                assert(j2 == j);
            } else {
                assert(j == ov.len());
            }
        }
        assert(index_view(nv) =~= index_view(ov).insert(t, ev));
    }
}

/// Map each tile to the wall connector on it, rebuilt once per frame so
/// the renderer reads neighbours without rescanning the structures.
/// Nothing is indexed without stats.
pub fn build_wall_tile_index(structures: &Vec<Structure>, stats: Option<&StatsDatabase>) -> (r: Vec<WallTileEntry>)
    ensures
        tiles_unique(r@),
        index_view(r@) == match stats {
            Some(db) => wall_index(structures@, *db, structures@.len() as int),
            None => Map::empty(),
        },
{
    let mut out: Vec<WallTileEntry> = Vec::new();
    proof {
        assert(index_view(out@) =~= Map::<(u32, u32), (Seq<char>, bool)>::empty());
    }
    let db = match stats {
        Some(db) => db,
        None => return out,
    };
    proof {
        reveal_strlit("WALL");
        reveal_strlit("CORNER WALL");
    }
    let mut i: usize = 0;
    while i < structures.len()
        invariant
            i <= structures@.len(),
            tiles_unique(out@),
            index_view(out@) == wall_index(structures@, *db, i as int),
        decreases structures@.len() - i,
    {
        let s = &structures[i];
        match find_key(&db.structures, s.name.as_str()) {
            Some(k) => {
                let st = &db.structures[k];
                let (is_wall, is_corner) = match &st.structure_type {
                    Some(ty) => (str_eq(ty.as_str(), "WALL"), str_eq(ty.as_str(), "CORNER WALL")),
                    None => (false, false),
                };
                if is_wall || is_corner || st.combines_with_wall {
                    let name = if is_corner {
                        match base_wall_for_corner(s.name.as_str()) {
                            Some(b) => owned(b),
                            None => s.name.clone(),
                        }
                    } else {
                        s.name.clone()
                    };
                    let px = s.position.x;
                    let py = s.position.y;
                    let tile = (px >> 7, py >> 7);
                    assert(px >> 7 == px / 128) by (bit_vector);
                    assert(py >> 7 == py / 128) by (bit_vector);
                    put_entry(&mut out, WallTileEntry { tile, stat_name: name, combines_only: !is_wall && !is_corner });
                }
            },
            None => {},
        }
        i = i + 1;
    }
    out
}

/// A neighbour counts when it is a connector of the same family or one
/// that joins any wall.
pub open spec fn neighbour_bit(index: Map<(u32, u32), (Seq<char>, bool)>, stat: Seq<char>, t: int, u: int, bit: u8) -> u8 {
    if 0 <= t <= u32::MAX && 0 <= u <= u32::MAX && index.dom().contains((t as u32, u as u32)) && (index[(t as u32, u as u32)].1
        || index[(t as u32, u as u32)].0 == stat) {
        bit
    } else {
        0
    }
}

/// Four-neighbour mask of a wall tile read off the index.
pub open spec fn index_mask(index: Map<(u32, u32), (Seq<char>, bool)>, stat: Seq<char>, tile: (u32, u32)) -> u8 {
    neighbour_bit(index, stat, tile.0 - 1, tile.1 as int, 1) | neighbour_bit(index, stat, tile.0 + 1, tile.1 as int, 2)
        | neighbour_bit(index, stat, tile.0 as int, tile.1 - 1, 4) | neighbour_bit(index, stat, tile.0 as int, tile.1 + 1, 8)
}

fn index_lookup(index: &Vec<WallTileEntry>, t: (u32, u32)) -> (r: Option<usize>)
    requires
        tiles_unique(index@),
    ensures
        match r {
            Some(i) => i < index@.len() && index@[i as int].tile == t && index_view(index@).dom().contains(t)
                && index_view(index@)[t] == (index@[i as int].stat_name@, index@[i as int].combines_only),
            None => !index_view(index@).dom().contains(t),
        },
{
    let mut i: usize = 0;
    while i < index.len()
        invariant
            i <= index@.len(),
            tiles_unique(index@),
            forall|j: int| 0 <= j < i ==> index@[j].tile != t,
        decreases index@.len() - i,
    {
        if index[i].tile.0 == t.0 && index[i].tile.1 == t.1 {
            proof {
                let j = choose|j: int| 0 <= j < index@.len() && index@[j].tile == t;
                assert(j == i as int);
            }
            return Some(i);
        }
        i = i + 1;
    }
    None
}

fn neighbour_bit_exec(index: &Vec<WallTileEntry>, stat_name: &str, t: Option<u32>, u: Option<u32>, bit: u8, Ghost(ti): Ghost<int>, Ghost(ui): Ghost<int>) -> (r: u8)
    requires
        tiles_unique(index@),
        t == (if 0 <= ti <= u32::MAX { Some(ti as u32) } else { None::<u32> }),
        u == (if 0 <= ui <= u32::MAX { Some(ui as u32) } else { None::<u32> }),
    ensures
        r == neighbour_bit(index_view(index@), stat_name@, ti, ui, bit),
{
    match (t, u) {
        (Some(x), Some(y)) => match index_lookup(index, (x, y)) {
            Some(i) => if index[i].combines_only || str_eq(index[i].stat_name.as_str(), stat_name) {
                bit
            } else {
                0
            },
            None => 0,
        },
        _ => 0,
    }
}

/// Shape of the wall at `tile`: its four neighbours on the index that are
/// connectors of the same family, or of any wall-joining kind, give the
/// mask that picks the wall variant and rotation.
pub fn wall_shape_from_index(index: &Vec<WallTileEntry>, stat_name: &str, tile: (u32, u32)) -> (r: WallShape)
    requires
        tiles_unique(index@),
    ensures
        r == spec_wall_shape_for_mask(index_mask(index_view(index@), stat_name@, tile)),
{
    let left = neighbour_bit_exec(index, stat_name, tile.0.checked_sub(1), Some(tile.1), MASK_LEFT, Ghost(tile.0 - 1), Ghost(tile.1 as int));
    let right = neighbour_bit_exec(index, stat_name, tile.0.checked_add(1), Some(tile.1), MASK_RIGHT, Ghost(tile.0 + 1), Ghost(tile.1 as int));
    let up = neighbour_bit_exec(index, stat_name, Some(tile.0), tile.1.checked_sub(1), MASK_UP, Ghost(tile.0 as int), Ghost(tile.1 - 1));
    let down = neighbour_bit_exec(index, stat_name, Some(tile.0), tile.1.checked_add(1), MASK_DOWN, Ghost(tile.0 as int), Ghost(tile.1 + 1));
    wall_shape_for_mask(left | right | up | down)
}

} // verus!
