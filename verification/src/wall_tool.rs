//! Wall placement: the wall families and their paired corner stats, the
//! shape (straight, cross, T or L) and rotation of a wall tile from its
//! four neighbours, the tiles a drag stroke crosses, and the stroke that
//! paints walls and reshapes their neighbours as undoable commands.
use vstd::prelude::*;
use crate::text::{str_eq, owned, lex_lt, str_lt, lemma_lex_total, lemma_lex_trans, lemma_lex_asym};
use crate::stats::{StructureStats, keys_unique, has_key, contains_key};
use crate::designer::opt_view;
use crate::history::{CompoundCommand, lemma_undo_inverts_execute};
use crate::map_model::{MapModel, Structure, WorldPos, WzMap, TILE_UNITS};
use crate::stats::{StatsDatabase, spec_get, find_key};
use crate::history::{EditCommand, apply_all, matches_all, lemma_apply_all_push, lemma_apply_all_concat};
use crate::object_edit::{DeleteObjectCommand, ObjectKind, PlaceStructureCommand};

verus! {

/// A selectable wall family, identified by its wall-type stat id.
#[derive(Debug)]
pub struct WallFamily {
    pub label: String,
    pub base: String,
}

impl Clone for WallFamily {
    fn clone(&self) -> (r: Self)
        ensures
            r == *self,
    {
        WallFamily { label: self.label.clone(), base: self.base.clone() }
    }
}

/// Labels and base stats of the built-in wall families, in menu order.
pub open spec fn spec_default_families() -> Seq<(Seq<char>, Seq<char>)> {
    seq![
        ("Hardcrete Mk1"@, "A0HardcreteMk1Wall"@),
        ("Collective"@, "CollectiveWall"@),
        ("NEXUS"@, "NEXUSWall"@),
        ("BaBa"@, "A0BaBaHorizontalWall"@),
        ("Tank Trap"@, "A0TankTrap"@),
    ]
}

/// The built-in wall families as (label, base stat) pairs, in menu order.
pub fn default_families() -> (r: Vec<(&'static str, &'static str)>)
    ensures
        r@.len() == spec_default_families().len(),
        forall|i: int|
            0 <= i < r@.len() ==> (r@[i].0@, r@[i].1@) == #[trigger] spec_default_families()[i],
{
    let r = vec![
        ("Hardcrete Mk1", "A0HardcreteMk1Wall"),
        ("Collective", "CollectiveWall"),
        ("NEXUS", "NEXUSWall"),
        ("BaBa", "A0BaBaHorizontalWall"),
        ("Tank Trap", "A0TankTrap"),
    ];
    r
}

/// The corner-wall stat paired with a base wall stat, with the extra
/// rotation that aligns the corner model with the wall-direction table.
pub open spec fn spec_corner_wall_for(base: Seq<char>) -> Option<(Seq<char>, u16)> {
    if base == "A0HardcreteMk1Wall"@ {
        Some(("A0HardcreteMk1CWall"@, 0u16))
    } else if base == "CollectiveWall"@ {
        Some(("CollectiveCWall"@, 0u16))
    } else if base == "NEXUSWall"@ {
        Some(("NEXUSCWall"@, 0u16))
    } else if base == "A0BaBaHorizontalWall"@ {
        Some(("A0BabaCornerWall"@, 0xC000u16))
    } else if base == "A0TankTrap"@ {
        Some(("TankTrapC"@, 0u16))
    } else {
        None
    }
}

/// The base wall stat a corner-wall stat belongs to.
pub open spec fn spec_base_wall_for_corner(corner: Seq<char>) -> Option<Seq<char>> {
    if corner == "A0HardcreteMk1CWall"@ {
        Some("A0HardcreteMk1Wall"@)
    } else if corner == "CollectiveCWall"@ {
        Some("CollectiveWall"@)
    } else if corner == "NEXUSCWall"@ {
        Some("NEXUSWall"@)
    } else if corner == "A0BabaCornerWall"@ {
        Some("A0BaBaHorizontalWall"@)
    } else if corner == "TankTrapC"@ {
        Some("A0TankTrap"@)
    } else {
        None
    }
}

/// Families whose corner stat is a cross-shaped model.
pub open spec fn spec_family_has_cross_corner(base: Seq<char>) -> bool {
    base == "A0HardcreteMk1Wall"@ || base == "CollectiveWall"@ || base == "NEXUSWall"@
}

/// Corner stats whose model is cross-shaped.
pub open spec fn spec_corner_stat_is_cross_pie(corner: Seq<char>) -> bool {
    corner == "A0HardcreteMk1CWall"@ || corner == "CollectiveCWall"@ || corner == "NEXUSCWall"@
}

/// The corner-wall stat paired with `base`, and its rotation offset.
pub fn corner_wall_for(base: &str) -> (r: Option<(&'static str, u16)>)
    ensures
        match r {
            Some((c, off)) => spec_corner_wall_for(base@) == Some((c@, off)),
            None => spec_corner_wall_for(base@) is None,
        },
{
    if str_eq(base, "A0HardcreteMk1Wall") {
        Some(("A0HardcreteMk1CWall", 0))
    } else if str_eq(base, "CollectiveWall") {
        Some(("CollectiveCWall", 0))
    } else if str_eq(base, "NEXUSWall") {
        Some(("NEXUSCWall", 0))
    } else if str_eq(base, "A0BaBaHorizontalWall") {
        Some(("A0BabaCornerWall", 0xC000))
    } else if str_eq(base, "A0TankTrap") {
        Some(("TankTrapC", 0))
    } else {
        None
    }
}

/// The base wall stat that a corner-wall stat pairs with.
pub fn base_wall_for_corner(corner: &str) -> (r: Option<&'static str>)
    ensures
        match r {
            Some(b) => spec_base_wall_for_corner(corner@) == Some(b@),
            None => spec_base_wall_for_corner(corner@) is None,
        },
{
    if str_eq(corner, "A0HardcreteMk1CWall") {
        Some("A0HardcreteMk1Wall")
    } else if str_eq(corner, "CollectiveCWall") {
        Some("CollectiveWall")
    } else if str_eq(corner, "NEXUSCWall") {
        Some("NEXUSWall")
    } else if str_eq(corner, "A0BabaCornerWall") {
        Some("A0BaBaHorizontalWall")
    } else if str_eq(corner, "TankTrapC") {
        Some("A0TankTrap")
    } else {
        None
    }
}

/// Whether the family's corner stat is a cross-shaped model, usable as an
/// intentional corner.
pub fn family_has_cross_corner(base: &str) -> (r: bool)
    ensures
        r == spec_family_has_cross_corner(base@),
{
    str_eq(base, "A0HardcreteMk1Wall") || str_eq(base, "CollectiveWall") || str_eq(base, "NEXUSWall")
}

/// Whether `corner` is a corner stat with a cross-shaped model.
pub fn corner_stat_is_cross_pie(corner: &str) -> (r: bool)
    ensures
        r == spec_corner_stat_is_cross_pie(corner@),
{
    str_eq(corner, "A0HardcreteMk1CWall") || str_eq(corner, "CollectiveCWall") || str_eq(
        corner,
        "NEXUSCWall",
    )
}

proof fn lemma_wall_stat_literals()
    ensures
        "A0HardcreteMk1Wall"@.len() == 18,
        "CollectiveWall"@.len() == 14,
        "NEXUSWall"@.len() == 9,
        "A0BaBaHorizontalWall"@.len() == 20,
        "A0TankTrap"@.len() == 10,
        "A0HardcreteMk1CWall"@.len() == 19,
        "CollectiveCWall"@.len() == 15,
        "NEXUSCWall"@.len() == 10,
        "A0BabaCornerWall"@.len() == 16,
        "TankTrapC"@.len() == 9,
        "A0TankTrap"@[0] == 'A',
        "NEXUSCWall"@[0] == 'N',
        "NEXUSWall"@[0] == 'N',
        "TankTrapC"@[0] == 'T',
{
    reveal_strlit("A0HardcreteMk1Wall");
    reveal_strlit("CollectiveWall");
    reveal_strlit("NEXUSWall");
    reveal_strlit("A0BaBaHorizontalWall");
    reveal_strlit("A0TankTrap");
    reveal_strlit("A0HardcreteMk1CWall");
    reveal_strlit("CollectiveCWall");
    reveal_strlit("NEXUSCWall");
    reveal_strlit("A0BabaCornerWall");
    reveal_strlit("TankTrapC");
}

/// Looking up the corner of a family and then the family of that corner
/// gives the family back, and the reverse lookup round-trips too.
pub proof fn lemma_corner_pairs_round_trip(base: Seq<char>, corner: Seq<char>)
    ensures
        spec_corner_wall_for(base) matches Some((c, _)) ==> spec_base_wall_for_corner(c) == Some(
            base,
        ),
        spec_base_wall_for_corner(corner) matches Some(b) ==> (spec_corner_wall_for(b) matches Some(
            (c, _),
        ) && c == corner),
{
    lemma_wall_stat_literals();
}

/// A family with a cross-shaped corner has a paired corner stat, and that
/// stat is one of the cross-shaped corners.
pub proof fn lemma_cross_corner_families(base: Seq<char>)
    requires
        spec_family_has_cross_corner(base),
    ensures
        spec_corner_wall_for(base) matches Some((c, off)) && spec_corner_stat_is_cross_pie(c)
            && off == 0,
{
    lemma_wall_stat_literals();
}

/// Every built-in family has a paired corner stat.
pub proof fn lemma_default_families_have_corners()
    ensures
        forall|i: int|
            0 <= i < spec_default_families().len() ==> #[trigger] spec_corner_wall_for(
                spec_default_families()[i].1,
            ) is Some,
{
    lemma_wall_stat_literals();
}

/// Neighbour-mask bits.
pub const MASK_LEFT: u8 = 1;
pub const MASK_RIGHT: u8 = 2;
pub const MASK_UP: u8 = 4;
pub const MASK_DOWN: u8 = 8;

/// Wall variants, as indices into a wall stat's model list.
pub const WALL_TYPE_STRAIGHT: u8 = 0;
pub const WALL_TYPE_CROSS: u8 = 1;
pub const WALL_TYPE_T: u8 = 2;
pub const WALL_TYPE_L_CORNER: u8 = 3;

/// Shape chosen for a wall tile: which variant model, and what rotation.
#[derive(Debug, Clone, Copy, PartialEq, Eq, Structural)]
pub struct WallShape {
    /// Variant (0 straight, 1 cross, 2 T, 3 L).
    pub wall_type: u8,
    /// Rotation in direction units (0, 0x4000, 0x8000 or 0xC000).
    pub direction: u16,
}

/// Wall variant for each of the 16 neighbour masks (the game's table).
pub open spec fn wall_type_table() -> Seq<u8> {
    seq![0u8, 0, 0, 0, 0, 3, 3, 2, 0, 3, 3, 2, 0, 2, 2, 1]
}

/// Wall rotation in degrees for each of the 16 neighbour masks.
pub open spec fn wall_dir_deg_table() -> Seq<u16> {
    seq![0u16, 0, 180, 0, 270, 0, 270, 0, 90, 90, 180, 180, 270, 90, 270, 0]
}

/// Direction units of a quarter-turn angle; any other angle maps to 0.
pub open spec fn spec_deg_to_direction(deg: u16) -> u16 {
    if deg == 90 {
        0x4000
    } else if deg == 180 {
        0x8000
    } else if deg == 270 {
        0xC000
    } else {
        0
    }
}

pub open spec fn spec_wall_shape_for_mask(mask: u8) -> WallShape {
    let i = (mask & 0x0F) as int;
    WallShape {
        wall_type: wall_type_table()[i],
        direction: spec_deg_to_direction(wall_dir_deg_table()[i]),
    }
}

/// Direction units of a quarter-turn angle in degrees.
pub fn deg_to_direction(deg: u16) -> (r: u16)
    ensures
        r == spec_deg_to_direction(deg),
{
    match deg {
        90 => 0x4000,
        180 => 0x8000,
        270 => 0xC000,
        _ => 0,
    }
}

/// Variant and rotation of a wall tile from its four-neighbour mask (only
/// the low four bits count).
pub fn wall_shape_for_mask(mask: u8) -> (r: WallShape)
    ensures
        r == spec_wall_shape_for_mask(mask),
{
    let dirs: [u16; 16] = [0, 0, 180, 0, 270, 0, 270, 0, 90, 90, 180, 180, 270, 90, 270, 0];
    let types: [u8; 16] = [0, 0, 0, 0, 0, 3, 3, 2, 0, 3, 3, 2, 0, 2, 2, 1];
    let m: u8 = mask & 0x0F;
    assert(m < 16) by (bit_vector)
        requires
            m == mask & 0x0F,
    ;
    let idx = m as usize;
    assert(dirs@ =~= wall_dir_deg_table());
    assert(types@ =~= wall_type_table());
    WallShape { wall_type: types[idx], direction: deg_to_direction(dirs[idx]) }
}

/// Whether bit `b` (0 to 3) of the low nibble `i` is set.
pub open spec fn nibble_bit(i: int, b: int) -> bool {
    (i / pow2_small(b)) % 2 == 1
}

pub open spec fn pow2_small(b: int) -> int {
    if b == 0 {
        1
    } else if b == 1 {
        2
    } else if b == 2 {
        4
    } else {
        8
    }
}

/// The wall variant follows from which neighbours are present: all four
/// give a cross, three a T, one horizontal and one vertical neighbour an L
/// corner, and anything else a straight piece.
pub proof fn lemma_wall_type_by_neighbours(mask: u8)
    ensures
        ({
            let i = (mask & 0x0F) as int;
            let left = nibble_bit(i, 0);
            let right = nibble_bit(i, 1);
            let up = nibble_bit(i, 2);
            let down = nibble_bit(i, 3);
            let n = (if left { 1int } else { 0 }) + (if right { 1int } else { 0 }) + (if up {
                1int
            } else {
                0
            }) + (if down { 1int } else { 0 });
            let t = spec_wall_shape_for_mask(mask).wall_type;
            &&& (n == 4 <==> t == WALL_TYPE_CROSS)
            &&& (n == 3 <==> t == WALL_TYPE_T)
            &&& ((n == 2 && left != right) <==> t == WALL_TYPE_L_CORNER)
            &&& ((n <= 1 || (n == 2 && left == right)) <==> t == WALL_TYPE_STRAIGHT)
        }),
{
    let m = mask & 0x0F;
    assert(m < 16) by (bit_vector)
        requires
            m == mask & 0x0F,
    ;
    let i = m as int;
    assert(0 <= i < 16);
    if i == 0 {
    } else if i == 1 {
    } else if i == 2 {
    } else if i == 3 {
    } else if i == 4 {
    } else if i == 5 {
    } else if i == 6 {
    } else if i == 7 {
    } else if i == 8 {
    } else if i == 9 {
    } else if i == 10 {
    } else if i == 11 {
    } else if i == 12 {
    } else if i == 13 {
    } else if i == 14 {
    } else {
    }
}

/// The stat id and rotation a freshly shaped wall tile is saved with.
pub open spec fn spec_pick_stat_and_dir(family: WallFamily, shape: WallShape, cross_corners: bool) -> (
    Seq<char>,
    u16,
) {
    if cross_corners && shape.wall_type == WALL_TYPE_L_CORNER && spec_family_has_cross_corner(
        family.base@,
    ) && spec_corner_wall_for(family.base@) is Some {
        ((spec_corner_wall_for(family.base@)->0).0, 0u16)
    } else {
        (family.base@, shape.direction)
    }
}

/// Stat id and rotation to save for a shaped wall tile: the family's base
/// stat with the shape's rotation, except that with `cross_corners` an L
/// corner of a family with a cross-shaped corner is saved as that corner
/// stat, unrotated.
pub fn pick_stat_and_dir(family: &WallFamily, shape: WallShape, cross_corners: bool) -> (r: (String, u16))
    ensures
        (r.0@, r.1) == spec_pick_stat_and_dir(*family, shape, cross_corners),
{
    if cross_corners && shape.wall_type == WALL_TYPE_L_CORNER && family_has_cross_corner(
        family.base.as_str(),
    ) {
        match corner_wall_for(family.base.as_str()) {
            Some((corner_stat, _)) => {
                return (owned(corner_stat), 0);
            },
            None => {},
        }
    }
    (family.base.clone(), shape.direction)
}

/// The corner-stat rewrite applied when loading: a corner stat becomes its
/// base stat unless its family's corner is a cross.
pub open spec fn migrated_name(name: Seq<char>) -> Option<Seq<char>> {
    match spec_base_wall_for_corner(name) {
        Some(b) => if spec_family_has_cross_corner(b) {
            None
        } else {
            Some(b)
        },
        None => None,
    }
}

/// Number of the first `n` structures that the load-time rewrite changes.
pub open spec fn migrated_count(s: Seq<Structure>, n: int) -> nat
    decreases n,
{
    if n <= 0 {
        0
    } else {
        migrated_count(s, n - 1) + if migrated_name(s[n - 1].name@) is Some {
            1nat
        } else {
            0nat
        }
    }
}

/// Rename legacy corner-wall structures to their base wall stat, except the
/// cross-shaped corners, which are meant as corners. Returns how many were
/// renamed.
pub fn migrate_corner_walls_to_base(structures: &mut Vec<Structure>) -> (n: usize)
    ensures
        final(structures)@.len() == old(structures)@.len(),
        forall|i: int|
            0 <= i < old(structures)@.len() ==> {
                let o = #[trigger] old(structures)@[i];
                let s = final(structures)@[i];
                &&& s.name@ == (match migrated_name(o.name@) {
                    Some(b) => b,
                    None => o.name@,
                })
                &&& s.position == o.position
                &&& s.direction == o.direction
                &&& s.player == o.player
                &&& s.modules == o.modules
                &&& s.id == o.id
            },
        n == migrated_count(old(structures)@, old(structures)@.len() as int),
{
    let mut n: usize = 0;
    let mut i: usize = 0;
    let len = structures.len();
    while i < len
        invariant
            len == old(structures)@.len(),
            structures@.len() == len,
            i <= len,
            n == migrated_count(old(structures)@, i as int),
            n <= i,
            forall|j: int|
                i <= j < len ==> #[trigger] structures@[j] == old(structures)@[j],
            forall|j: int|
                0 <= j < i ==> {
                    let o = #[trigger] old(structures)@[j];
                    let s = structures@[j];
                    &&& s.name@ == (match migrated_name(o.name@) {
                        Some(b) => b,
                        None => o.name@,
                    })
                    &&& s.position == o.position
                    &&& s.direction == o.direction
                    &&& s.player == o.player
                    &&& s.modules == o.modules
                    &&& s.id == o.id
                },
        decreases len - i,
    {
        let found = base_wall_for_corner(structures[i].name.as_str());
        match found {
            Some(base) => {
                if !family_has_cross_corner(base) {
                    structures[i].name = owned(base);
                    n = n + 1;
                }
            },
            None => {},
        }
        i = i + 1;
    }
    n
}

/// `tile` moved by `(dx, dy)`, or `None` when a coordinate goes negative;
/// coordinates past `u32::MAX` wrap.
pub open spec fn spec_offset_tile(tile: (u32, u32), dx: i32, dy: i32) -> Option<(u32, u32)> {
    let nx = tile.0 as int + dx as int;
    let ny = tile.1 as int + dy as int;
    if nx < 0 || ny < 0 {
        None
    } else {
        Some((nx as u32, ny as u32))
    }
}

/// `tile` moved by `(dx, dy)`, or `None` when a coordinate goes negative.
pub fn offset_tile(tile: (u32, u32), dx: i32, dy: i32) -> (r: Option<(u32, u32)>)
    ensures
        r == spec_offset_tile(tile, dx, dy),
{
    let nx: i64 = (tile.0 as i64) + dx as i64;
    let ny: i64 = (tile.1 as i64) + dy as i64;
    if nx < 0 || ny < 0 {
        return None;
    }
    Some((nx as u32, ny as u32))
}

/// Distance along one axis.
pub open spec fn axis_dist(a: u32, b: u32) -> int {
    if a <= b {
        b - a
    } else {
        a - b
    }
}

/// Unit step from `a` toward `b` (`-1` when they are equal).
pub open spec fn axis_step(a: u32, b: u32) -> int {
    if a < b {
        1
    } else {
        -1
    }
}

/// The line-drawing error at point `p` of the line from `a` to `b`: the
/// next step goes along x exactly when twice this exceeds `-dy`.
pub open spec fn line_error(a: (u32, u32), b: (u32, u32), p: (u32, u32)) -> int {
    let dx = axis_dist(a.0, b.0);
    let dy = axis_dist(a.1, b.1);
    let kx = axis_dist(a.0, p.0);
    let ky = axis_dist(a.1, p.1);
    dx * (1 + ky) - dy * (1 + kx)
}

/// One step of the line from `a` to `b`: a unit move along x toward `b`
/// when the error says so, else a unit move along y toward `b`.
pub open spec fn line_step(a: (u32, u32), b: (u32, u32), p: (u32, u32), q: (u32, u32)) -> bool {
    let dy = axis_dist(a.1, b.1);
    if 2 * line_error(a, b, p) > -dy {
        q.0 as int == p.0 as int + axis_step(a.0, b.0) && q.1 == p.1
    } else {
        q.0 == p.0 && q.1 as int == p.1 as int + axis_step(a.1, b.1)
    }
}

/// `p` lies in the bounding box of `a` and `b` and is `k` unit steps from `a`.
pub open spec fn line_point(a: (u32, u32), b: (u32, u32), p: (u32, u32), k: int) -> bool {
    &&& axis_dist(a.0, p.0) + axis_dist(p.0, b.0) == axis_dist(a.0, b.0)
    &&& axis_dist(a.1, p.1) + axis_dist(p.1, b.1) == axis_dist(a.1, b.1)
    &&& axis_dist(a.0, p.0) + axis_dist(a.1, p.1) == k
}

/// `p` is the four-connected line from `a` to `b`: it starts at `a`, ends
/// at `b`, takes one unit step per tile, each step chosen by the line error.
pub open spec fn is_line(a: (u32, u32), b: (u32, u32), p: Seq<(u32, u32)>) -> bool {
    &&& p.len() == axis_dist(a.0, b.0) + axis_dist(a.1, b.1) + 1
    &&& p[0] == a
    &&& p.last() == b
    &&& forall|k: int| 0 <= k < p.len() ==> line_point(a, b, #[trigger] p[k], k)
    &&& forall|k: int| 0 <= k < p.len() - 1 ==> line_step(a, b, #[trigger] p[k], p[k + 1])
}

proof fn lemma_x_done_error(dx: int, dy: int, ky: int)
    requires
        dx >= 0,
        0 <= ky < dy,
    ensures
        dx * (1 + ky) - dy * (1 + dx) <= -dy,
{
    assert(dx * (1 + ky) <= dx * dy) by (nonlinear_arith)
        requires
            dx >= 0,
            1 + ky <= dy,
    ;
    assert(dy * (1 + dx) == dy + dx * dy) by (nonlinear_arith);
}

proof fn lemma_y_done_error(dx: int, dy: int, kx: int)
    requires
        dy >= 0,
        0 <= kx < dx,
    ensures
        dx * (1 + dy) - dy * (1 + kx) >= dx,
{
    assert(dy * (1 + kx) <= dy * dx) by (nonlinear_arith)
        requires
            dy >= 0,
            1 + kx <= dx,
    ;
    assert(dx * (1 + dy) == dx + dx * dy) by (nonlinear_arith);
    assert(dy * dx == dx * dy) by (nonlinear_arith);
}

/// The tiles on the line from `a` to `b`, one axis at a time, so that
/// consecutive tiles share an edge and diagonal motion leaves no gaps.
pub fn bresenham_4_connected(a: (u32, u32), b: (u32, u32)) -> (r: Vec<(u32, u32)>)
    ensures
        is_line(a, b, r@),
{
    let mut out: Vec<(u32, u32)> = Vec::new();
    let mut x: i64 = a.0 as i64;
    let mut y: i64 = a.1 as i64;
    let x1: i64 = b.0 as i64;
    let y1: i64 = b.1 as i64;
    let dx: i64 = if x1 >= x { x1 - x } else { x - x1 };
    let dy: i64 = if y1 >= y { y1 - y } else { y - y1 };
    let sx: i64 = if x < x1 { 1 } else { -1 };
    let sy: i64 = if y < y1 { 1 } else { -1 };
    let mut err: i64 = dx - dy;
    let ghost mut kx: int = 0;
    let ghost mut ky: int = 0;
    assert(dx * (1 + 0int) - dy * (1 + 0int) == dx - dy) by (nonlinear_arith);
    out.push((x as u32, y as u32));
    while x != x1 || y != y1
        invariant
            dx == axis_dist(a.0, b.0),
            dy == axis_dist(a.1, b.1),
            sx == axis_step(a.0, b.0),
            sy == axis_step(a.1, b.1),
            x1 == b.0,
            y1 == b.1,
            0 <= kx <= dx,
            0 <= ky <= dy,
            x == a.0 + sx * kx,
            y == a.1 + sy * ky,
            (x == x1) == (kx == dx),
            (y == y1) == (ky == dy),
            err == dx * (1 + ky) - dy * (1 + kx),
            -2 * dy <= err <= dx,
            out@.len() == kx + ky + 1,
            out@[0] == a,
            out@.last() == (x as u32, y as u32),
            forall|k: int| 0 <= k < out@.len() ==> line_point(a, b, #[trigger] out@[k], k),
            forall|k: int|
                0 <= k < out@.len() - 1 ==> line_step(a, b, #[trigger] out@[k], out@[k + 1]),
        decreases dx - kx + dy - ky,
    {
        let ghost p = (x as u32, y as u32);
        proof {
            if kx == dx && ky < dy {
                lemma_x_done_error(dx as int, dy as int, ky);
            }
            if ky == dy && kx < dx {
                lemma_y_done_error(dx as int, dy as int, kx);
            }
            assert(axis_dist(a.0, p.0) == kx);
            assert(axis_dist(a.1, p.1) == ky);
            assert(line_error(a, b, p) == err);
        }
        let e2 = err * 2;
        if e2 > -dy {
            assert(dy * (1 + (kx + 1)) == dy * (1 + kx) + dy) by (nonlinear_arith);
            err -= dy;
            x += sx;
            proof {
                kx = kx + 1;
            }
        } else if e2 < dx {
            assert(dx * (1 + (ky + 1)) == dx * (1 + ky) + dx) by (nonlinear_arith);
            err += dx;
            y += sy;
            proof {
                ky = ky + 1;
            }
        }
        let ghost old_out = out@;
        out.push((x as u32, y as u32));
        proof {
            let q = (x as u32, y as u32);
            assert(line_step(a, b, p, q));
            assert(line_point(a, b, q, out@.len() - 1));
            assert forall|k: int| 0 <= k < out@.len() - 1 implies line_step(
                a,
                b,
                #[trigger] out@[k],
                out@[k + 1],
            ) by {
                if k < out@.len() - 2 {
                    assert(out@[k] == old_out[k]);
                    assert(out@[k + 1] == old_out[k + 1]);
                } else {
                    assert(out@[k] == p);
                }
            }
            assert forall|k: int| 0 <= k < out@.len() implies line_point(a, b, #[trigger] out@[k], k) by {
                if k < out@.len() - 1 {
                    assert(out@[k] == old_out[k]);
                }
            }
        }
    }
    out
}


/// Tile holding a structure's centre.
pub open spec fn spec_center_tile(s: Structure) -> (u32, u32) {
    (s.position.x >> 7u32, s.position.y >> 7u32)
}

fn structure_center_tile(s: &Structure) -> (r: (u32, u32))
    ensures
        r == spec_center_tile(*s),
{
    (s.position.x >> 7, s.position.y >> 7)
}

/// Footprint (width, breadth) in tiles from the structure's stats; 1x1 when
/// the stat or a dimension is missing.
pub open spec fn spec_footprint(s: Structure, db: StatsDatabase) -> (u32, u32) {
    match spec_get(db.structures@, s.name@) {
        Some(st) => (
            match st.width {
                Some(w) => w,
                None => 1u32,
            },
            match st.breadth {
                Some(b) => b,
                None => 1u32,
            },
        ),
        None => (1u32, 1u32),
    }
}

/// Whether the structure's footprint, turned to its nearest quarter turn,
/// includes `tile`.
pub open spec fn spec_covers_tile(s: Structure, db: StatsDatabase, tile: (u32, u32)) -> bool {
    let fp = spec_footprint(s, db);
    let snap = s.direction.wrapping_add(0x2000u16) & 0xC000u16;
    let sx = if snap == 0x4000 || snap == 0xC000 {
        fp.1
    } else {
        fp.0
    };
    let sz = if snap == 0x4000 || snap == 0xC000 {
        fp.0
    } else {
        fp.1
    };
    let c = spec_center_tile(s);
    let ox = c.0.saturating_sub(sx / 2);
    let oz = c.1.saturating_sub(sz / 2);
    tile.0 >= ox && tile.0 < ox + sx && tile.1 >= oz && tile.1 < oz + sz
}

/// Whether the structure's footprint includes `tile`.
pub fn structure_covers_tile(s: &Structure, db: &StatsDatabase, tile: (u32, u32)) -> (r: bool)
    ensures
        r == spec_covers_tile(*s, *db, tile),
{
    let (w, b) = match find_key(&db.structures, s.name.as_str()) {
        Some(i) => (
            match db.structures[i].width {
                Some(w) => w,
                None => 1,
            },
            match db.structures[i].breadth {
                Some(b) => b,
                None => 1,
            },
        ),
        None => (1, 1),
    };
    let snap_dir = s.direction.wrapping_add(0x2000) & 0xC000;
    let (sx, sz) = if snap_dir == 0x4000 || snap_dir == 0xC000 {
        (b, w)
    } else {
        (w, b)
    };
    let cx = s.position.x >> 7;
    let cz = s.position.y >> 7;
    let ox = cx.saturating_sub(sx / 2);
    let oz = cz.saturating_sub(sz / 2);
    tile.0 >= ox && (tile.0 as u64) < ox as u64 + sx as u64 && tile.1 >= oz && (tile.1 as u64)
        < oz as u64 + sz as u64
}

/// World position of a tile's centre.
pub open spec fn spec_tile_center_world(tile: (u32, u32)) -> WorldPos {
    WorldPos { x: (tile.0 * 128 + 64) as u32, y: (tile.1 * 128 + 64) as u32 }
}

fn tile_center_world(tile: (u32, u32)) -> (r: WorldPos)
    requires
        tile.0 * 128 + 64 <= u32::MAX,
        tile.1 * 128 + 64 <= u32::MAX,
    ensures
        r == spec_tile_center_world(tile),
{
    WorldPos { x: tile.0 * TILE_UNITS + TILE_UNITS / 2, y: tile.1 * TILE_UNITS + TILE_UNITS / 2 }
}

/// `name` joins up with walls of `family`: the family's own wall or corner
/// stat, or any stat that combines with walls.
pub open spec fn spec_is_wall_connector(name: Seq<char>, db: StatsDatabase, family: WallFamily) -> bool {
    ||| name == family.base@
    ||| (spec_corner_wall_for(family.base@) matches Some((c, _)) && name == c)
    ||| (spec_get(db.structures@, name) matches Some(st) && st.combines_with_wall)
}

fn is_wall_connector(name: &str, db: &StatsDatabase, family: &WallFamily) -> (r: bool)
    ensures
        r == spec_is_wall_connector(name@, *db, *family),
{
    if str_eq(name, family.base.as_str()) {
        return true;
    }
    match corner_wall_for(family.base.as_str()) {
        Some((corner, _)) => {
            if str_eq(name, corner) {
                return true;
            }
        },
        None => {},
    }
    match find_key(&db.structures, name) {
        Some(i) => db.structures[i].combines_with_wall,
        None => false,
    }
}

/// Some structure on `tile` joins up with walls of `family`.
pub open spec fn spec_has_connector(
    structures: Seq<Structure>,
    db: StatsDatabase,
    family: WallFamily,
    tile: (u32, u32),
) -> bool {
    exists|i: int|
        0 <= i < structures.len() && spec_covers_tile(#[trigger] structures[i], db, tile)
            && spec_is_wall_connector(structures[i].name@, db, family)
}

fn tile_has_wall_connector(map: &WzMap, db: &StatsDatabase, family: &WallFamily, tile: (u32, u32)) -> (r: bool)
    ensures
        r == spec_has_connector(map@.structures, *db, *family, tile),
{
    let mut i: usize = 0;
    while i < map.structures.len()
        invariant
            i <= map@.structures.len(),
            forall|j: int|
                0 <= j < i ==> !(spec_covers_tile(#[trigger] map@.structures[j], *db, tile)
                    && spec_is_wall_connector(map@.structures[j].name@, *db, *family)),
        decreases map@.structures.len() - i,
    {
        let s = &map.structures[i];
        if structure_covers_tile(s, db, tile) && is_wall_connector(s.name.as_str(), db, family) {
            return true;
        }
        i = i + 1;
    }
    false
}

/// The neighbour of `tile` at `(dx, dy)` exists and joins up with walls.
pub open spec fn neighbor_connects(
    m: MapModel,
    db: StatsDatabase,
    family: WallFamily,
    tile: (u32, u32),
    dx: i32,
    dy: i32,
) -> bool {
    match spec_offset_tile(tile, dx, dy) {
        Some(nt) => spec_has_connector(m.structures, db, family, nt),
        None => false,
    }
}

/// Four-neighbour mask of `tile`: left, right, up and down bits set where a
/// wall of the family, or a structure that joins walls, stands.
#[verifier::opaque]
pub open spec fn spec_neighbor_mask(m: MapModel, db: StatsDatabase, family: WallFamily, tile: (u32, u32)) -> u8 {
    (if neighbor_connects(m, db, family, tile, -1i32, 0i32) {
        MASK_LEFT
    } else {
        0u8
    }) | (if neighbor_connects(m, db, family, tile, 1i32, 0i32) {
        MASK_RIGHT
    } else {
        0u8
    }) | (if neighbor_connects(m, db, family, tile, 0i32, -1i32) {
        MASK_UP
    } else {
        0u8
    }) | (if neighbor_connects(m, db, family, tile, 0i32, 1i32) {
        MASK_DOWN
    } else {
        0u8
    })
}

fn neighbor_has_connector(
    map: &WzMap,
    db: &StatsDatabase,
    family: &WallFamily,
    tile: (u32, u32),
    dx: i32,
    dy: i32,
) -> (r: bool)
    ensures
        r == neighbor_connects(map@, *db, *family, tile, dx, dy),
{
    match offset_tile(tile, dx, dy) {
        Some(nt) => tile_has_wall_connector(map, db, family, nt),
        None => false,
    }
}

/// Neighbour mask of `tile` on the current map.
pub fn compute_neighbor_mask(map: &WzMap, db: &StatsDatabase, family: &WallFamily, tile: (u32, u32)) -> (r: u8)
    ensures
        r == spec_neighbor_mask(map@, *db, *family, tile),
{
    proof {
        reveal(spec_neighbor_mask);
    }
    let left = neighbor_has_connector(map, db, family, tile, -1, 0);
    let right = neighbor_has_connector(map, db, family, tile, 1, 0);
    let up = neighbor_has_connector(map, db, family, tile, 0, -1);
    let down = neighbor_has_connector(map, db, family, tile, 0, 1);
    (if left {
        MASK_LEFT
    } else {
        0u8
    }) | (if right {
        MASK_RIGHT
    } else {
        0u8
    }) | (if up {
        MASK_UP
    } else {
        0u8
    }) | (if down {
        MASK_DOWN
    } else {
        0u8
    })
}

/// A structure whose stats combine with walls (a tower, hardpoint or gate)
/// joins the walls of every family: when one covers a neighbour of `tile`,
/// that side's bit of the neighbour mask is set.
pub proof fn lemma_wall_joining_structures_set_the_mask(
    m: MapModel,
    db: StatsDatabase,
    family: WallFamily,
    tile: (u32, u32),
    j: int,
)
    requires
        0 <= j < m.structures.len(),
        spec_get(db.structures@, m.structures[j].name@) matches Some(st) && st.combines_with_wall,
    ensures
        tile.0 > 0 && spec_covers_tile(m.structures[j], db, ((tile.0 - 1) as u32, tile.1)) ==> spec_neighbor_mask(
            m,
            db,
            family,
            tile,
        ) & MASK_LEFT == MASK_LEFT,
        tile.0 < u32::MAX && spec_covers_tile(m.structures[j], db, ((tile.0 + 1) as u32, tile.1))
            ==> spec_neighbor_mask(m, db, family, tile) & MASK_RIGHT == MASK_RIGHT,
        tile.1 > 0 && spec_covers_tile(m.structures[j], db, (tile.0, (tile.1 - 1) as u32)) ==> spec_neighbor_mask(
            m,
            db,
            family,
            tile,
        ) & MASK_UP == MASK_UP,
        tile.1 < u32::MAX && spec_covers_tile(m.structures[j], db, (tile.0, (tile.1 + 1) as u32))
            ==> spec_neighbor_mask(m, db, family, tile) & MASK_DOWN == MASK_DOWN,
{
    reveal(spec_neighbor_mask);
    let s = m.structures[j];
    assert(spec_is_wall_connector(s.name@, db, family));
    let l = neighbor_connects(m, db, family, tile, -1i32, 0i32);
    let r = neighbor_connects(m, db, family, tile, 1i32, 0i32);
    let u = neighbor_connects(m, db, family, tile, 0i32, -1i32);
    let d = neighbor_connects(m, db, family, tile, 0i32, 1i32);
    if tile.0 > 0 && spec_covers_tile(s, db, ((tile.0 - 1) as u32, tile.1)) {
        assert(spec_offset_tile(tile, -1i32, 0i32) == Some(((tile.0 - 1) as u32, tile.1)));
        assert(l);
    }
    if tile.0 < u32::MAX && spec_covers_tile(s, db, ((tile.0 + 1) as u32, tile.1)) {
        assert(spec_offset_tile(tile, 1i32, 0i32) == Some(((tile.0 + 1) as u32, tile.1)));
        assert(r);
    }
    if tile.1 > 0 && spec_covers_tile(s, db, (tile.0, (tile.1 - 1) as u32)) {
        assert(spec_offset_tile(tile, 0i32, -1i32) == Some((tile.0, (tile.1 - 1) as u32)));
        assert(u);
    }
    if tile.1 < u32::MAX && spec_covers_tile(s, db, (tile.0, (tile.1 + 1) as u32)) {
        assert(spec_offset_tile(tile, 0i32, 1i32) == Some((tile.0, (tile.1 + 1) as u32)));
        assert(d);
    }
    let a: u8 = if l { 1u8 } else { 0u8 };
    let b: u8 = if r { 2u8 } else { 0u8 };
    let c: u8 = if u { 4u8 } else { 0u8 };
    let e: u8 = if d { 8u8 } else { 0u8 };
    assert(spec_neighbor_mask(m, db, family, tile) == a | b | c | e);
    assert((a == 1u8 || a == 0u8) && (b == 2u8 || b == 0u8) && (c == 4u8 || c == 0u8) && (e == 8u8 || e == 0u8) ==> {
        &&& (a == 1u8 ==> (a | b | c | e) & 1u8 == 1u8)
        &&& (b == 2u8 ==> (a | b | c | e) & 2u8 == 2u8)
        &&& (c == 4u8 ==> (a | b | c | e) & 4u8 == 4u8)
        &&& (e == 8u8 ==> (a | b | c | e) & 8u8 == 8u8)
    }) by (bit_vector);
}

/// A side whose neighbour holds nothing that joins walls (no wall or
/// corner of the family, no structure whose stats combine with walls)
/// keeps its bit of the neighbour mask clear.
pub proof fn lemma_mask_bit_needs_a_joining_neighbour(
    m: MapModel,
    db: StatsDatabase,
    family: WallFamily,
    tile: (u32, u32),
    nt: (u32, u32),
    bit: u8,
)
    requires
        (bit == MASK_LEFT && tile.0 > 0 && nt == ((tile.0 - 1) as u32, tile.1)) || (bit == MASK_RIGHT && tile.0
            < u32::MAX && nt == ((tile.0 + 1) as u32, tile.1)) || (bit == MASK_UP && tile.1 > 0 && nt == (
        tile.0,
        (tile.1 - 1) as u32,
        )) || (bit == MASK_DOWN && tile.1 < u32::MAX && nt == (tile.0, (tile.1 + 1) as u32)),
        forall|j: int|
            0 <= j < m.structures.len() && spec_covers_tile(#[trigger] m.structures[j], db, nt) ==> {
                &&& m.structures[j].name@ != family.base@
                &&& !(spec_corner_wall_for(family.base@) matches Some((c, _)) && m.structures[j].name@ == c)
                &&& !(spec_get(db.structures@, m.structures[j].name@) matches Some(st) && st.combines_with_wall)
            },
    ensures
        spec_neighbor_mask(m, db, family, tile) & bit == 0,
{
    reveal(spec_neighbor_mask);
    let l = neighbor_connects(m, db, family, tile, -1i32, 0i32);
    let r = neighbor_connects(m, db, family, tile, 1i32, 0i32);
    let u = neighbor_connects(m, db, family, tile, 0i32, -1i32);
    let d = neighbor_connects(m, db, family, tile, 0i32, 1i32);
    assert(!spec_has_connector(m.structures, db, family, nt));
    if bit == MASK_LEFT {
        assert(spec_offset_tile(tile, -1i32, 0i32) == Some(nt));
        assert(!l);
    } else if bit == MASK_RIGHT {
        assert(spec_offset_tile(tile, 1i32, 0i32) == Some(nt));
        assert(!r);
    } else if bit == MASK_UP {
        assert(spec_offset_tile(tile, 0i32, -1i32) == Some(nt));
        assert(!u);
    } else {
        assert(spec_offset_tile(tile, 0i32, 1i32) == Some(nt));
        assert(!d);
    }
    let a: u8 = if l { 1u8 } else { 0u8 };
    let b: u8 = if r { 2u8 } else { 0u8 };
    let c: u8 = if u { 4u8 } else { 0u8 };
    let e: u8 = if d { 8u8 } else { 0u8 };
    assert(spec_neighbor_mask(m, db, family, tile) == a | b | c | e);
    assert((a == 1u8 || a == 0u8) && (b == 2u8 || b == 0u8) && (c == 4u8 || c == 0u8) && (e == 8u8 || e == 0u8) ==> {
        &&& (a == 0u8 ==> (a | b | c | e) & 1u8 == 0u8)
        &&& (b == 0u8 ==> (a | b | c | e) & 2u8 == 0u8)
        &&& (c == 0u8 ==> (a | b | c | e) & 4u8 == 0u8)
        &&& (e == 0u8 ==> (a | b | c | e) & 8u8 == 0u8)
    }) by (bit_vector);
}

/// Some structure already covers `tile`, so no new wall may go there.
pub open spec fn spec_has_blocker(structures: Seq<Structure>, db: StatsDatabase, tile: (u32, u32)) -> bool {
    exists|i: int| 0 <= i < structures.len() && spec_covers_tile(#[trigger] structures[i], db, tile)
}

fn tile_has_blocker(map: &WzMap, db: &StatsDatabase, tile: (u32, u32)) -> (r: bool)
    ensures
        r == spec_has_blocker(map@.structures, *db, tile),
{
    let mut i: usize = 0;
    while i < map.structures.len()
        invariant
            i <= map@.structures.len(),
            forall|j: int| 0 <= j < i ==> !spec_covers_tile(#[trigger] map@.structures[j], *db, tile),
        decreases map@.structures.len() - i,
    {
        if structure_covers_tile(&map.structures[i], db, tile) {
            return true;
        }
        i = i + 1;
    }
    false
}

/// `s` is a wall (or corner) of `family` centred on `tile`.
pub open spec fn is_family_wall_at(s: Structure, family: WallFamily, tile: (u32, u32)) -> bool {
    spec_center_tile(s) == tile && (s.name@ == family.base@ || (spec_corner_wall_for(family.base@) matches Some((c, _)) && s.name@ == c))
}

/// First position at or after `i` of a wall of `family` centred on `tile`.
pub open spec fn first_family_wall(s: Seq<Structure>, family: WallFamily, tile: (u32, u32), i: int) -> Option<int>
    decreases s.len() - i,
{
    if i < 0 || i >= s.len() {
        None
    } else if is_family_wall_at(s[i], family, tile) {
        Some(i)
    } else {
        first_family_wall(s, family, tile, i + 1)
    }
}

fn find_family_structure_at(map: &WzMap, family: &WallFamily, tile: (u32, u32)) -> (r: Option<usize>)
    ensures
        match r {
            Some(i) => first_family_wall(map@.structures, *family, tile, 0) == Some(i as int) && i
                < map@.structures.len(),
            None => first_family_wall(map@.structures, *family, tile, 0) is None,
        },
{
    let corner = corner_wall_for(family.base.as_str());
    let mut i: usize = 0;
    while i < map.structures.len()
        invariant
            i <= map@.structures.len(),
            first_family_wall(map@.structures, *family, tile, 0) == first_family_wall(
                map@.structures,
                *family,
                tile,
                i as int,
            ),
            match corner {
                Some((c, off)) => spec_corner_wall_for(family.base@) == Some((c@, off)),
                None => spec_corner_wall_for(family.base@) is None,
            },
        decreases map@.structures.len() - i,
    {
        let s = &map.structures[i];
        let ct = structure_center_tile(s);
        if ct.0 == tile.0 && ct.1 == tile.1 {
            let is_family = str_eq(s.name.as_str(), family.base.as_str()) || match corner {
                Some((c, _)) => str_eq(s.name.as_str(), c),
                None => false,
            };
            if is_family {
                return Some(i);
            }
        }
        i = i + 1;
    }
    None
}

/// `c` places a structure with these fields.
pub open spec fn is_place_cmd(
    c: EditCommand,
    name: Seq<char>,
    pos: WorldPos,
    dir: u16,
    player: i8,
    id: Option<u32>,
) -> bool {
    c matches EditCommand::PlaceStructure(p) && p.structure.name@ == name && p.structure.position
        == pos && p.structure.direction == dir && p.structure.player == player
        && p.structure.modules == 0 && p.structure.id == id
}

/// `c` deletes structure `idx`, remembering `s`.
pub open spec fn is_delete_cmd(c: EditCommand, idx: int, s: Structure) -> bool {
    c matches EditCommand::DeleteObject(d) && d.kind == ObjectKind::Structure && d.index == idx
        && d.saved_structure == Some(s) && d.saved_droid is None && d.saved_feature is None
}

/// `cmds` replace structure `idx` of `m` by a wall named `name` facing `dir`,
/// at the same place, for the same player and with the same id.
pub open spec fn is_swap(cmds: Seq<EditCommand>, m: MapModel, idx: int, name: Seq<char>, dir: u16) -> bool {
    let s = m.structures[idx];
    &&& cmds.len() == 2
    &&& is_delete_cmd(cmds[0], idx, s)
    &&& is_place_cmd(cmds[1], name, s.position, dir, s.player, s.id)
}

/// `added` was executed on `before`, in order, leaving `after`, and each
/// command matches the map it was executed on, so undoing them in reverse
/// order restores `before`.
#[verifier::opaque]
pub open spec fn replays(added: Seq<EditCommand>, before: MapModel, after: MapModel) -> bool {
    apply_all(added, before) == after && matches_all(added, before)
}

proof fn lemma_replays_concat(xs: Seq<EditCommand>, ys: Seq<EditCommand>, a: MapModel, b: MapModel, c: MapModel)
    requires
        replays(xs, a, b),
        replays(ys, b, c),
    ensures
        replays(xs + ys, a, c),
{
    reveal(replays);
    lemma_apply_all_concat(xs, ys, a);
}

/// Running no commands leaves the map as it is.
proof fn lemma_replays_empty(m: MapModel)
    ensures
        replays(Seq::<EditCommand>::empty(), m, m),
{
    reveal(replays);
}

/// Executes the command and records it.
fn run_and_record(cmds: &mut Vec<EditCommand>, map: &mut WzMap, c: EditCommand)
    requires
        c is PlaceStructure || c is DeleteObject,
        c.matches(old(map)@),
    ensures
        final(cmds)@ == old(cmds)@.push(c),
        final(map)@.width == old(map)@.width,
        final(map)@.height == old(map)@.height,
        replays(seq![c], old(map)@, final(map)@),
{
    c.execute(map);
    cmds.push(c);
    proof {
        reveal(replays);
        lemma_apply_all_push(Seq::<EditCommand>::empty(), c, old(map)@);
        assert(seq![c] =~= Seq::<EditCommand>::empty().push(c));
    }
}

/// In-progress drag: last tile painted, tiles already handled and the
/// commands executed so far.
pub struct WallStrokeState {
    pub last_tile: Option<(u32, u32)>,
    pub touched: Vec<(u32, u32)>,
    pub commands: Vec<EditCommand>,
}

impl WallStrokeState {
    /// An idle stroke.
    pub fn new() -> (r: Self)
        ensures
            r.last_tile is None,
            r.touched@.len() == 0,
            r.commands@.len() == 0,
    {
        WallStrokeState { last_tile: None, touched: Vec::new(), commands: Vec::new() }
    }

    /// Forget the stroke.
    pub fn reset(&mut self)
        ensures
            final(self).last_tile is None,
            final(self).touched@.len() == 0,
            final(self).commands@.len() == 0,
    {
        self.last_tile = None;
        self.touched = Vec::new();
        self.commands = Vec::new();
    }

    /// Hand out the recorded commands and forget the stroke.
    pub fn take_commands(&mut self) -> (r: Vec<EditCommand>)
        ensures
            r@ == old(self).commands@,
            final(self).last_tile is None,
            final(self).touched@.len() == 0,
            final(self).commands@.len() == 0,
    {
        self.last_tile = None;
        self.touched = Vec::new();
        let mut out: Vec<EditCommand> = Vec::new();
        std::mem::swap(&mut out, &mut self.commands);
        out
    }
}

fn touched_contains(touched: &Vec<(u32, u32)>, tile: (u32, u32)) -> (r: bool)
    ensures
        r == touched@.contains(tile),
{
    let mut i: usize = 0;
    while i < touched.len()
        invariant
            i <= touched@.len(),
            forall|j: int| 0 <= j < i ==> touched@[j] != tile,
        decreases touched@.len() - i,
    {
        if touched[i].0 == tile.0 && touched[i].1 == tile.1 {
            assert(touched@[i as int] == tile);
            return true;
        }
        i = i + 1;
    }
    false
}

/// Replace structure `idx` by a family wall with a new stat and rotation,
/// as a delete followed by a place.
fn swap_family_wall(
    cmds: &mut Vec<EditCommand>,
    map: &mut WzMap,
    idx: usize,
    new_name: String,
    new_dir: u16,
)
    requires
        idx < old(map)@.structures.len(),
    ensures
        final(cmds)@.subrange(0, old(cmds)@.len() as int) == old(cmds)@,
        final(cmds)@.len() == old(cmds)@.len() + 2,
        is_swap(final(cmds)@.subrange(old(cmds)@.len() as int, final(cmds)@.len() as int), old(map)@, idx as int, new_name@, new_dir),
        final(map)@.width == old(map)@.width,
        final(map)@.height == old(map)@.height,
        replays(final(cmds)@.subrange(old(cmds)@.len() as int, final(cmds)@.len() as int), old(map)@, final(map)@),
{
    let ghost c0 = cmds@;
    let ghost m0 = map@;
    let saved = map.structures[idx].clone();
    let replacement = Structure {
        name: new_name,
        position: saved.position,
        direction: new_dir,
        player: saved.player,
        modules: 0,
        id: saved.id,
    };
    let del = EditCommand::DeleteObject(DeleteObjectCommand::structure(idx, saved));
    let ghost d = del;
    run_and_record(cmds, map, del);
    let ghost m1 = map@;
    let place = EditCommand::PlaceStructure(PlaceStructureCommand { structure: replacement });
    let ghost p = place;
    run_and_record(cmds, map, place);
    proof {
        lemma_replays_concat(seq![d], seq![p], m0, m1, map@);
        assert(seq![d] + seq![p] =~= cmds@.subrange(c0.len() as int, cmds@.len() as int));
        assert(cmds@.subrange(0, c0.len() as int) =~= c0);
    }
}


/// Commands refreshing the neighbour of `center` at `(dx, dy)`: when that
/// tile is on the map and holds a wall of the family whose saved stat or
/// rotation no longer fits its neighbours, the wall is swapped for one that
/// does; otherwise nothing.
#[verifier::opaque]
pub open spec fn refresh_one_spec(
    m: MapModel,
    db: StatsDatabase,
    family: WallFamily,
    cross_corners: bool,
    center: (u32, u32),
    dx: i32,
    dy: i32,
    added: Seq<EditCommand>,
) -> bool {
    match spec_offset_tile(center, dx, dy) {
        Some(nt) => if nt.0 < m.width && nt.1 < m.height {
            match first_family_wall(m.structures, family, nt, 0) {
                Some(idx) => {
                    let pk = spec_pick_stat_and_dir(
                        family,
                        spec_wall_shape_for_mask(spec_neighbor_mask(m, db, family, nt)),
                        cross_corners,
                    );
                    if m.structures[idx].name@ == pk.0 && m.structures[idx].direction == pk.1 {
                        added.len() == 0
                    } else {
                        is_swap(added, m, idx, pk.0, pk.1)
                    }
                },
                None => added.len() == 0,
            }
        } else {
            added.len() == 0
        },
        None => added.len() == 0,
    }
}

/// The neighbours of `center` are refreshed left, right, up, down in turn,
/// each against the map the previous ones left.
#[verifier::opaque]
pub open spec fn refresh_all_spec(
    m: MapModel,
    db: StatsDatabase,
    family: WallFamily,
    cross_corners: bool,
    center: (u32, u32),
    added: Seq<EditCommand>,
) -> bool {
    exists|i1: int, i2: int, i3: int|
        #![trigger added.subrange(0, i1), added.subrange(i1, i2), added.subrange(i2, i3)]
        0 <= i1 <= i2 <= i3 <= added.len() && {
            let a1 = added.subrange(0, i1);
            let a2 = added.subrange(i1, i2);
            let a3 = added.subrange(i2, i3);
            let a4 = added.subrange(i3, added.len() as int);
            let m1 = apply_all(a1, m);
            let m2 = apply_all(a2, m1);
            let m3 = apply_all(a3, m2);
            &&& refresh_one_spec(m, db, family, cross_corners, center, -1i32, 0i32, a1)
            &&& refresh_one_spec(m1, db, family, cross_corners, center, 1i32, 0i32, a2)
            &&& refresh_one_spec(m2, db, family, cross_corners, center, 0i32, -1i32, a3)
            &&& refresh_one_spec(m3, db, family, cross_corners, center, 0i32, 1i32, a4)
        }
}

/// Map dimensions for which every tile centre fits in world units.
pub open spec fn world_fits(m: MapModel) -> bool {
    m.width < 0x200_0000 && m.height < 0x200_0000
}

fn refresh_one(
    cmds: &mut Vec<EditCommand>,
    family: &WallFamily,
    center: (u32, u32),
    dx: i32,
    dy: i32,
    db: &StatsDatabase,
    map: &mut WzMap,
    cross_corners: bool,
)
    ensures
        final(cmds)@.subrange(0, old(cmds)@.len() as int) == old(cmds)@,
        old(cmds)@.len() <= final(cmds)@.len(),
        final(map)@.width == old(map)@.width,
        final(map)@.height == old(map)@.height,
        ({
            let added = final(cmds)@.subrange(old(cmds)@.len() as int, final(cmds)@.len() as int);
            &&& replays(added, old(map)@, final(map)@)
            &&& refresh_one_spec(old(map)@, *db, *family, cross_corners, center, dx, dy, added)
        }),
{
    let ghost c0 = cmds@;
    proof {
        reveal(refresh_one_spec);
        assert(cmds@.subrange(0, c0.len() as int) =~= c0);
        assert(cmds@.subrange(c0.len() as int, c0.len() as int) =~= Seq::<EditCommand>::empty());
        lemma_replays_empty(map@);
    }
    let nt = match offset_tile(center, dx, dy) {
        Some(nt) => nt,
        None => {
            return;
        },
    };
    if !(nt.0 < map.map_data.width && nt.1 < map.map_data.height) {
        return;
    }
    let idx = match find_family_structure_at(map, family, nt) {
        Some(idx) => idx,
        None => {
            return;
        },
    };
    proof {
        reveal(refresh_one_spec);
    }
    let mask = compute_neighbor_mask(map, db, family, nt);
    let shape = wall_shape_for_mask(mask);
    let (new_name, new_dir) = pick_stat_and_dir(family, shape, cross_corners);
    if str_eq(map.structures[idx].name.as_str(), new_name.as_str()) && map.structures[idx].direction
        == new_dir {
        return;
    }
    swap_family_wall(cmds, map, idx, new_name, new_dir);
}

fn refresh_neighbors(
    cmds: &mut Vec<EditCommand>,
    family: &WallFamily,
    center: (u32, u32),
    db: &StatsDatabase,
    map: &mut WzMap,
    cross_corners: bool,
)
    ensures
        final(cmds)@.subrange(0, old(cmds)@.len() as int) == old(cmds)@,
        old(cmds)@.len() <= final(cmds)@.len(),
        final(map)@.width == old(map)@.width,
        final(map)@.height == old(map)@.height,
        ({
            let added = final(cmds)@.subrange(old(cmds)@.len() as int, final(cmds)@.len() as int);
            &&& replays(added, old(map)@, final(map)@)
            &&& refresh_all_spec(old(map)@, *db, *family, cross_corners, center, added)
        }),
{
    let ghost c0 = cmds@;
    let ghost m0 = map@;
    refresh_one(cmds, family, center, -1, 0, db, map, cross_corners);
    let ghost c1 = cmds@;
    let ghost m1 = map@;
    refresh_one(cmds, family, center, 1, 0, db, map, cross_corners);
    let ghost c2 = cmds@;
    let ghost m2 = map@;
    refresh_one(cmds, family, center, 0, -1, db, map, cross_corners);
    let ghost c3 = cmds@;
    let ghost m3 = map@;
    refresh_one(cmds, family, center, 0, 1, db, map, cross_corners);
    proof {
        let n0 = c0.len() as int;
        let n1 = c1.len() as int;
        let n2 = c2.len() as int;
        let n3 = c3.len() as int;
        let n4 = cmds@.len() as int;
        let added = cmds@.subrange(n0, n4);
        assert(c1.subrange(0, n0) == c0);
        assert(c2.subrange(0, n1) == c1);
        assert(c3.subrange(0, n2) == c2);
        assert(cmds@.subrange(0, n3) == c3);
        let a1 = c1.subrange(n0, n1);
        let a2 = c2.subrange(n1, n2);
        let a3 = c3.subrange(n2, n3);
        let a4 = cmds@.subrange(n3, n4);
        assert(added.subrange(0, n1 - n0) =~= a1);
        assert(added.subrange(n1 - n0, n2 - n0) =~= a2);
        assert(added.subrange(n2 - n0, n3 - n0) =~= a3);
        assert(added.subrange(n3 - n0, added.len() as int) =~= a4);
        assert(cmds@.subrange(0, n0) =~= c0);
        lemma_replays_concat(a1, a2, m0, m1, m2);
        lemma_replays_concat(a1 + a2, a3, m0, m2, m3);
        lemma_replays_concat(a1 + a2 + a3, a4, m0, m3, map@);
        assert(a1 + a2 + a3 + a4 =~= added);
        assert(refresh_all_spec(m0, *db, *family, cross_corners, center, added)) by {
            reveal(refresh_all_spec);
            reveal(replays);
            let i1 = n1 - n0;
            let i2 = n2 - n0;
            let i3 = n3 - n0;
            assert(added.subrange(0, i1) == a1);
            assert(added.subrange(i1, i2) == a2);
            assert(added.subrange(i2, i3) == a3);
        }
    }
}

/// What placing a wall on `tile` does first: a family wall already there
/// is swapped when its stat or rotation no longer fits (else left alone);
/// a free tile gets a new wall at its centre; a tile covered by another
/// structure is left alone.
#[verifier::opaque]
pub open spec fn place_head_spec(
    m: MapModel,
    db: StatsDatabase,
    family: WallFamily,
    cross_corners: bool,
    tile: (u32, u32),
    player: i8,
    head: Seq<EditCommand>,
) -> bool {
    let pk = spec_pick_stat_and_dir(
        family,
        spec_wall_shape_for_mask(spec_neighbor_mask(m, db, family, tile)),
        cross_corners,
    );
    match first_family_wall(m.structures, family, tile, 0) {
        Some(idx) => if m.structures[idx].name@ == pk.0 && m.structures[idx].direction == pk.1 {
            head.len() == 0
        } else {
            is_swap(head, m, idx, pk.0, pk.1)
        },
        None => if spec_has_blocker(m.structures, db, tile) {
            head.len() == 0
        } else {
            head.len() == 1 && is_place_cmd(head[0], pk.0, spec_tile_center_world(tile), pk.1, player, None)
        },
    }
}

/// A tile covered by a structure other than a wall of the family.
pub open spec fn blocked_tile(m: MapModel, db: StatsDatabase, family: WallFamily, tile: (u32, u32)) -> bool {
    first_family_wall(m.structures, family, tile, 0) is None && spec_has_blocker(m.structures, db, tile)
}

/// The commands of placing a wall on `tile`: nothing for a tile off the
/// map, already handled in this stroke, or blocked; otherwise the tile's
/// own placement or swap followed by the refresh of its neighbours.
#[verifier::opaque]
pub open spec fn place_tile_spec(
    m: MapModel,
    touched: Seq<(u32, u32)>,
    db: StatsDatabase,
    family: WallFamily,
    cross_corners: bool,
    tile: (u32, u32),
    player: i8,
    added: Seq<EditCommand>,
) -> bool {
    if !(tile.0 < m.width && tile.1 < m.height) || touched.contains(tile) || blocked_tile(m, db, family, tile) {
        added.len() == 0
    } else {
        exists|h: int|
            #![trigger added.subrange(0, h)]
            0 <= h <= added.len() && place_head_spec(m, db, family, cross_corners, tile, player, added.subrange(0, h))
                && refresh_all_spec(
                apply_all(added.subrange(0, h), m),
                db,
                family,
                cross_corners,
                tile,
                added.subrange(h, added.len() as int),
            )
    }
}

/// Tiles a stroke has handled after visiting `tile`.
pub open spec fn touched_after(m: MapModel, touched: Seq<(u32, u32)>, tile: (u32, u32)) -> Seq<(u32, u32)> {
    if !(tile.0 < m.width && tile.1 < m.height) || touched.contains(tile) {
        touched
    } else {
        touched.push(tile)
    }
}

fn place_wall_tile(
    state: &mut WallStrokeState,
    family: &WallFamily,
    tile: (u32, u32),
    db: &StatsDatabase,
    map: &mut WzMap,
    player: i8,
    cross_corners: bool,
)
    requires
        world_fits(old(map)@),
    ensures
        final(state).last_tile == old(state).last_tile,
        final(state).touched@ == touched_after(old(map)@, old(state).touched@, tile),
        final(state).commands@.subrange(0, old(state).commands@.len() as int) == old(state).commands@,
        old(state).commands@.len() <= final(state).commands@.len(),
        ({
            let added = final(state).commands@.subrange(
                old(state).commands@.len() as int,
                final(state).commands@.len() as int,
            );
            &&& replays(added, old(map)@, final(map)@)
            &&& place_tile_spec(old(map)@, old(state).touched@, *db, *family, cross_corners, tile, player, added)
        }),
        final(map)@.width == old(map)@.width,
        final(map)@.height == old(map)@.height,
{
    let ghost c0 = state.commands@;
    let ghost m0 = map@;
    proof {
        reveal(place_tile_spec);
        lemma_replays_empty(m0);
        assert(state.commands@.subrange(0, c0.len() as int) =~= c0);
        assert(state.commands@.subrange(c0.len() as int, c0.len() as int) =~= Seq::<EditCommand>::empty());
    }
    if !(tile.0 < map.map_data.width && tile.1 < map.map_data.height) {
        return;
    }
    if touched_contains(&state.touched, tile) {
        return;
    }
    state.touched.push(tile);
    let mask = compute_neighbor_mask(map, db, family, tile);
    let shape = wall_shape_for_mask(mask);
    let (new_name, new_dir) = pick_stat_and_dir(family, shape, cross_corners);
    match find_family_structure_at(map, family, tile) {
        Some(idx) => {
            if !(str_eq(map.structures[idx].name.as_str(), new_name.as_str())
                && map.structures[idx].direction == new_dir) {
                swap_family_wall(&mut state.commands, map, idx, new_name, new_dir);
            } else {
                proof {
                    assert(state.commands@.subrange(c0.len() as int, state.commands@.len() as int)
                        =~= Seq::<EditCommand>::empty());
                    lemma_replays_empty(m0);
                }
            }
        },
        None => {
            if tile_has_blocker(map, db, tile) {
                return;
            }
            let structure = Structure {
                name: new_name,
                position: tile_center_world(tile),
                direction: new_dir,
                player,
                modules: 0,
                id: None,
            };
            let c = EditCommand::PlaceStructure(PlaceStructureCommand { structure });
            let ghost gc = c;
            run_and_record(&mut state.commands, map, c);
            proof {
                assert(state.commands@.subrange(c0.len() as int, state.commands@.len() as int)
                    =~= seq![gc]);
                assert(state.commands@.subrange(0, c0.len() as int) =~= c0);
            }
        },
    }
    proof {
        assert(replays(state.commands@.subrange(c0.len() as int, state.commands@.len() as int), m0, map@));
        assert(state.commands@.subrange(0, c0.len() as int) == c0);
    }
    let ghost c1 = state.commands@;
    let ghost m1 = map@;
    refresh_neighbors(&mut state.commands, family, tile, db, map, cross_corners);
    proof {
        let n0 = c0.len() as int;
        let n1 = c1.len() as int;
        let n2 = state.commands@.len() as int;
        let added = state.commands@.subrange(n0, n2);
        let head = c1.subrange(n0, n1);
        let tail = state.commands@.subrange(n1, n2);
        assert(c1.subrange(0, n0) =~= c0);
        assert(state.commands@.subrange(0, n1) == c1);
        assert(state.commands@.subrange(0, n0) =~= c0);
        assert(added.subrange(0, n1 - n0) =~= head);
        assert(added.subrange(n1 - n0, added.len() as int) =~= tail);
        assert(head + tail =~= added);
        lemma_replays_concat(head, tail, m0, m1, map@);
        assert(place_head_spec(m0, *db, *family, cross_corners, tile, player, head)) by {
            reveal(place_head_spec);
        }
        assert(place_tile_spec(m0, old(state).touched@, *db, *family, cross_corners, tile, player, added)) by {
            reveal(replays);
        }
    }
}


/// Tiles a stroke visits when extended to `next`: the line from the last
/// tile, or just `next` at the start of a stroke.
pub open spec fn stroke_path_ok(last: Option<(u32, u32)>, next: (u32, u32), path: Seq<(u32, u32)>) -> bool {
    match last {
        Some(prev) => is_line(prev, next, path),
        None => path == seq![next],
    }
}

/// Tiles a stroke has handled after visiting every tile of `path` in turn.
pub open spec fn touched_along(m: MapModel, touched: Seq<(u32, u32)>, path: Seq<(u32, u32)>) -> Seq<(u32, u32)>
    decreases path.len(),
{
    if path.len() == 0 {
        touched
    } else {
        touched_after(m, touched_along(m, touched, path.drop_last()), path.last())
    }
}

/// The commands of painting along `path`: the placement of each tile in
/// turn ([`place_tile_spec`]), each on the map the earlier ones left and
/// with the tiles the stroke has handled so far.
#[verifier::opaque]
pub open spec fn paint_path_spec(
    m: MapModel,
    touched: Seq<(u32, u32)>,
    db: StatsDatabase,
    family: WallFamily,
    cross_corners: bool,
    path: Seq<(u32, u32)>,
    player: i8,
    added: Seq<EditCommand>,
) -> bool
    decreases path.len(),
{
    if path.len() == 0 {
        added.len() == 0
    } else {
        exists|h: int|
            #![trigger added.subrange(0, h)]
            0 <= h <= added.len() && paint_path_spec(
                m,
                touched,
                db,
                family,
                cross_corners,
                path.drop_last(),
                player,
                added.subrange(0, h),
            ) && place_tile_spec(
                apply_all(added.subrange(0, h), m),
                touched_along(m, touched, path.drop_last()),
                db,
                family,
                cross_corners,
                path.last(),
                player,
                added.subrange(h, added.len() as int),
            )
    }
}

proof fn lemma_touched_after(m: MapModel, tb: Seq<(u32, u32)>, tile: (u32, u32), n: int)
    requires
        0 <= n <= tb.len(),
    ensures
        tile.0 < m.width && tile.1 < m.height ==> touched_after(m, tb, tile).contains(tile),
        forall|t: (u32, u32)| tb.contains(t) ==> touched_after(m, tb, tile).contains(t),
        touched_after(m, tb, tile).subrange(0, n) == tb.subrange(0, n),
        tb.len() <= touched_after(m, tb, tile).len(),
{
    let r = touched_after(m, tb, tile);
    if r != tb {
        assert(r[tb.len() as int] == tile);
        assert forall|t: (u32, u32)| tb.contains(t) implies r.contains(t) by {
            let j = choose|j: int| 0 <= j < tb.len() && tb[j] == t;
            assert(r[j] == t);
        }
        assert(r.subrange(0, n) =~= tb.subrange(0, n));
    }
}

/// Commands appended in two steps replay as one run.
proof fn lemma_commands_extend(c0: Seq<EditCommand>, cb: Seq<EditCommand>, cn: Seq<EditCommand>, m0: MapModel, mb: MapModel, m1: MapModel)
    requires
        c0.len() <= cb.len() <= cn.len(),
        cb.subrange(0, c0.len() as int) == c0,
        cn.subrange(0, cb.len() as int) == cb,
        replays(cb.subrange(c0.len() as int, cb.len() as int), m0, mb),
        replays(cn.subrange(cb.len() as int, cn.len() as int), mb, m1),
    ensures
        cn.subrange(0, c0.len() as int) == c0,
        replays(cn.subrange(c0.len() as int, cn.len() as int), m0, m1),
{
    let n0 = c0.len() as int;
    let nb = cb.len() as int;
    let n1 = cn.len() as int;
    assert(cn.subrange(0, n0) =~= c0);
    let xs = cb.subrange(n0, nb);
    let ys = cn.subrange(nb, n1);
    assert(xs + ys =~= cn.subrange(n0, n1));
    lemma_replays_concat(xs, ys, m0, mb, m1);
}

/// Extend a stroke to `next`, painting every tile crossed on the way (one
/// axis at a time, so diagonal motion leaves no gaps).
#[verifier::rlimit(80)]
#[verifier::spinoff_prover]
pub fn extend_stroke(
    state: &mut WallStrokeState,
    family: &WallFamily,
    next: (u32, u32),
    db: &StatsDatabase,
    map: &mut WzMap,
    player: i8,
    cross_corners: bool,
)
    requires
        world_fits(old(map)@),
    ensures
        final(state).last_tile == Some(next),
        final(state).commands@.subrange(0, old(state).commands@.len() as int) == old(state).commands@,
        old(state).commands@.len() <= final(state).commands@.len(),
        replays(
            final(state).commands@.subrange(old(state).commands@.len() as int, final(state).commands@.len() as int),
            old(map)@,
            final(map)@,
        ),
        final(map)@.width == old(map)@.width,
        final(map)@.height == old(map)@.height,
        final(state).touched@.subrange(0, old(state).touched@.len() as int) == old(state).touched@,
        old(state).touched@.len() <= final(state).touched@.len(),
        exists|path: Seq<(u32, u32)>|
            #![trigger stroke_path_ok(old(state).last_tile, next, path)]
            stroke_path_ok(old(state).last_tile, next, path) && (forall|k: int|
                0 <= k < path.len() && path[k].0 < old(map)@.width && path[k].1 < old(map)@.height
                    ==> final(state).touched@.contains(#[trigger] path[k]))
                && final(state).touched@ == touched_along(old(map)@, old(state).touched@, path)
                && paint_path_spec(
                old(map)@,
                old(state).touched@,
                *db,
                *family,
                cross_corners,
                path,
                player,
                final(state).commands@.subrange(old(state).commands@.len() as int, final(state).commands@.len() as int),
            ),
{
    let path = match state.last_tile {
        Some(prev) => bresenham_4_connected(prev, next),
        None => {
            let v = vec![next];
            assert(v@ =~= seq![next]);
            v
        },
    };
    let ghost c0 = state.commands@;
    let ghost t0 = state.touched@;
    let ghost m0 = map@;
    proof {
        assert(state.commands@.subrange(0, c0.len() as int) =~= c0);
        assert(state.commands@.subrange(c0.len() as int, c0.len() as int) =~= Seq::<EditCommand>::empty());
        assert(state.touched@.subrange(0, t0.len() as int) =~= t0);
        lemma_replays_empty(m0);
        assert(path@.take(0) =~= Seq::<(u32, u32)>::empty());
        reveal(paint_path_spec);
    }
    let mut i: usize = 0;
    while i < path.len()
        invariant
            i <= path@.len(),
            stroke_path_ok(old(state).last_tile, next, path@),
            world_fits(map@),
            map@.width == m0.width,
            map@.height == m0.height,
            c0.len() <= state.commands@.len(),
            state.commands@.subrange(0, c0.len() as int) == c0,
            replays(state.commands@.subrange(c0.len() as int, state.commands@.len() as int), m0, map@),
            t0.len() <= state.touched@.len(),
            state.touched@.subrange(0, t0.len() as int) == t0,
            forall|k: int|
                0 <= k < i && path@[k].0 < m0.width && path@[k].1 < m0.height
                    ==> state.touched@.contains(#[trigger] path@[k]),
            state.touched@ == touched_along(m0, t0, path@.take(i as int)),
            paint_path_spec(
                m0,
                t0,
                *db,
                *family,
                cross_corners,
                path@.take(i as int),
                player,
                state.commands@.subrange(c0.len() as int, state.commands@.len() as int),
            ),
        decreases path@.len() - i,
    {
        let ghost cb = state.commands@;
        let ghost tb = state.touched@;
        let ghost mb = map@;
        place_wall_tile(state, family, path[i], db, map, player, cross_corners);
        proof {
            lemma_commands_extend(c0, cb, state.commands@, m0, mb, map@);
            lemma_touched_after(mb, tb, path@[i as int], t0.len() as int);
            assert(state.touched@.subrange(0, t0.len() as int) =~= t0);
            assert forall|k: int|
                0 <= k < i + 1 && path@[k].0 < m0.width && path@[k].1 < m0.height
                    implies state.touched@.contains(#[trigger] path@[k]) by {
                if k < i {
                    assert(tb.contains(path@[k]));
                }
            }
            let pre = path@.take(i as int);
            let cur = path@.take(i as int + 1);
            assert(cur.drop_last() =~= pre);
            assert(cur.last() == path@[i as int]);
            assert(state.touched@ == touched_along(m0, t0, cur));
            let n0 = c0.len() as int;
            let nb = cb.len() as int;
            let added = state.commands@.subrange(n0, state.commands@.len() as int);
            assert(added.subrange(0, nb - n0) =~= cb.subrange(n0, nb));
            assert(added.subrange(nb - n0, added.len() as int) =~= state.commands@.subrange(
                nb,
                state.commands@.len() as int,
            ));
            let h = nb - n0;
            let tail = added.subrange(h, added.len() as int);
            assert(paint_path_spec(m0, t0, *db, *family, cross_corners, pre, player, added.subrange(0, h)));
            assert(apply_all(added.subrange(0, h), m0) == mb) by {
                reveal(replays);
            }
            assert(touched_along(m0, t0, cur.drop_last()) == tb);
            assert(place_tile_spec(mb, tb, *db, *family, cross_corners, cur.last(), player, tail));
            assert(paint_path_spec(m0, t0, *db, *family, cross_corners, cur, player, added)) by {
                reveal(paint_path_spec);
            }
        }
        i = i + 1;
    }
    proof {
        assert(path@.take(path@.len() as int) =~= path@);
    }
    state.last_tile = Some(next);
}


/// Ids of the built-in families' base stats.
pub open spec fn is_default_base(id: Seq<char>) -> bool {
    exists|i: int| 0 <= i < spec_default_families().len() && #[trigger] spec_default_families()[i].1 == id
}

/// A wall stat other than the built-in families' ones.
pub open spec fn is_extra_wall(st: StructureStats) -> bool {
    opt_view(st.structure_type) == Some("WALL"@) && !is_default_base(st.id@)
}

/// The built-in families whose base stat is loaded, in menu order.
pub open spec fn present_defaults(db: StatsDatabase) -> Seq<(Seq<char>, Seq<char>)> {
    spec_default_families().filter(|p: (Seq<char>, Seq<char>)| has_key(db.structures@, p.1))
}

pub open spec fn text_views(v: Seq<String>) -> Seq<Seq<char>> {
    v.map_values(|s: String| s@)
}

/// Strictly increasing in lexicographic order.
pub open spec fn sorted_strict(s: Seq<Seq<char>>) -> bool {
    forall|i: int, j: int| 0 <= i < j < s.len() ==> lex_lt(#[trigger] s[i], #[trigger] s[j])
}

fn is_default_base_exec(id: &str) -> (r: bool)
    ensures
        r == is_default_base(id@),
{
    let defaults = default_families();
    let mut i: usize = 0;
    while i < defaults.len()
        invariant
            defaults@.len() == spec_default_families().len(),
            forall|k: int|
                0 <= k < defaults@.len() ==> (defaults@[k].0@, defaults@[k].1@)
                    == #[trigger] spec_default_families()[k],
            i <= defaults@.len(),
            forall|k: int| 0 <= k < i ==> spec_default_families()[k].1 != id@,
        decreases defaults@.len() - i,
    {
        if str_eq(defaults[i].1, id) {
            assert(spec_default_families()[i as int].1 == id@);
            return true;
        }
        i = i + 1;
    }
    false
}

fn sorted_position(v: &Vec<String>, x: &String) -> (j: usize)
    requires
        !text_views(v@).contains(x@),
    ensures
        j <= v@.len(),
        forall|k: int| 0 <= k < j ==> lex_lt(#[trigger] v@[k]@, x@),
        j < v@.len() ==> lex_lt(x@, v@[j as int]@),
{
    let mut j: usize = 0;
    while j < v.len()
        invariant
            j <= v@.len(),
            !text_views(v@).contains(x@),
            forall|k: int| 0 <= k < j ==> lex_lt(#[trigger] v@[k]@, x@),
        decreases v@.len() - j,
    {
        if str_lt(x.as_str(), v[j].as_str()) {
            return j;
        }
        proof {
            assert(text_views(v@)[j as int] == v@[j as int]@);
            lemma_lex_total(v@[j as int]@, x@);
        }
        j = j + 1;
    }
    j
}

fn insert_sorted(v: &mut Vec<String>, x: String)
    requires
        sorted_strict(text_views(old(v)@)),
        !text_views(old(v)@).contains(x@),
    ensures
        sorted_strict(text_views(final(v)@)),
        forall|t: Seq<char>| text_views(final(v)@).contains(t) <==> (text_views(old(v)@).contains(t) || t == x@),
{
    let j = sorted_position(v, &x);
    let ghost xv = x@;
    let ghost old_views = text_views(v@);
    v.insert(j, x);
    proof {
        let nv = text_views(v@);
        assert(nv =~= old_views.insert(j as int, xv));
        assert forall|a: int, b: int| 0 <= a < b < nv.len() implies lex_lt(#[trigger] nv[a], #[trigger] nv[b]) by {
            if b < j {
                assert(nv[a] == old_views[a]);
                assert(nv[b] == old_views[b]);
            } else if b == j {
                assert(nv[a] == old_v_at(old_views, a));
            } else if a == j {
                assert(nv[b] == old_views[b - 1]);
                if b - 1 > j {
                    assert(lex_lt(old_views[j as int], old_views[b - 1]));
                    lemma_lex_trans(xv, old_views[j as int], old_views[b - 1]);
                }
            } else if a < j {
                assert(nv[a] == old_views[a]);
                assert(nv[b] == old_views[b - 1]);
                if a < b - 1 {
                    assert(lex_lt(old_views[a], old_views[b - 1]));
                } else {
                    assert(false);
                }
            } else {
                assert(nv[a] == old_views[a - 1]);
                assert(nv[b] == old_views[b - 1]);
            }
        }
        assert forall|t: Seq<char>| nv.contains(t) <==> (old_views.contains(t) || t == xv) by {
            if nv.contains(t) {
                let k = choose|k: int| 0 <= k < nv.len() && nv[k] == t;
                if k < j {
                    assert(old_views[k] == t);
                } else if k > j {
                    assert(old_views[k - 1] == t);
                }
            }
            if old_views.contains(t) {
                let k = choose|k: int| 0 <= k < old_views.len() && old_views[k] == t;
                if k < j {
                    assert(nv[k] == t);
                } else {
                    assert(nv[k + 1] == t);
                }
            }
            if t == xv {
                assert(nv[j as int] == t);
            }
        }
    }
}

pub open spec fn old_v_at(s: Seq<Seq<char>>, i: int) -> Seq<char> {
    s[i]
}

/// Whether the stat is of type `WALL`.
fn is_wall_type(st: &StructureStats) -> (r: bool)
    ensures
        r == (opt_view(st.structure_type) == Some("WALL"@)),
{
    match &st.structure_type {
        Some(t) => str_eq(t.as_str(), "WALL"),
        None => false,
    }
}

/// The wall families offered by the tool: the built-in ones whose stat is
/// loaded, in menu order, then every other wall stat under its own id,
/// sorted by id.
pub fn enumerate_families(db: &StatsDatabase) -> (r: Vec<WallFamily>)
    requires
        keys_unique(db.structures@),
    ensures
        ({
            let pd = present_defaults(*db);
            let extras = r@.skip(pd.len() as int).map_values(|f: WallFamily| f.base@);
            &&& pd.len() <= r@.len()
            &&& forall|i: int| 0 <= i < pd.len() ==> (#[trigger] r@[i].label@, r@[i].base@) == pd[i]
            &&& forall|i: int| pd.len() <= i < r@.len() ==> (#[trigger] r@[i]).label@ == r@[i].base@
            &&& sorted_strict(extras)
            &&& forall|t: Seq<char>|
                extras.contains(t) <==> exists|k: int|
                    0 <= k < db.structures@.len() && #[trigger] db.structures@[k].id@ == t
                        && is_extra_wall(db.structures@[k])
        }),
{
    let mut out: Vec<WallFamily> = Vec::new();
    let defaults = default_families();
    let ghost pred = |p: (Seq<char>, Seq<char>)| has_key(db.structures@, p.1);
    let mut i: usize = 0;
    while i < defaults.len()
        invariant
            defaults@.len() == spec_default_families().len(),
            forall|k: int|
                0 <= k < defaults@.len() ==> (defaults@[k].0@, defaults@[k].1@)
                    == #[trigger] spec_default_families()[k],
            i <= defaults@.len(),
            pred == (|p: (Seq<char>, Seq<char>)| has_key(db.structures@, p.1)),
            out@.len() == spec_default_families().take(i as int).filter(pred).len(),
            forall|k: int|
                0 <= k < out@.len() ==> (#[trigger] out@[k].label@, out@[k].base@)
                    == spec_default_families().take(i as int).filter(pred)[k],
        decreases defaults@.len() - i,
    {
        let (label, base) = defaults[i];
        proof {
            assert(spec_default_families().take(i as int + 1) =~= spec_default_families().take(
                i as int,
            ).push(spec_default_families()[i as int]));
            spec_default_families().take(i as int).lemma_filter_push(spec_default_families()[i as int], pred);
        }
        let ghost before = out@;
        let ghost fam = spec_default_families();
        if contains_key(&db.structures, base) {
            out.push(WallFamily { label: owned(label), base: owned(base) });
            proof {
                assert(fam.take(i as int + 1).filter(pred) == fam.take(i as int).filter(pred).push(fam[i as int]));
                assert forall|k: int| 0 <= k < out@.len() implies (#[trigger] out@[k].label@, out@[k].base@)
                    == fam.take(i as int + 1).filter(pred)[k] by {
                    if k < before.len() {
                        assert(out@[k] == before[k]);
                        assert((before[k].label@, before[k].base@) == fam.take(i as int).filter(pred)[k]);
                        assert(fam.take(i as int + 1).filter(pred)[k] == fam.take(i as int).filter(pred)[k]);
                    } else {
                        assert(k == before.len());
                        assert(out@[k].label@ == label@);
                        assert(out@[k].base@ == base@);
                        assert(label@ == defaults@[i as int].0@);
                        assert((defaults@[i as int].0@, defaults@[i as int].1@) == fam[i as int]);
                        assert(fam.take(i as int + 1).filter(pred)[k] == fam[i as int]);
                    }
                }
            }
        } else {
            proof {
                assert(fam.take(i as int + 1).filter(pred) == fam.take(i as int).filter(pred));
            }
        }
        i = i + 1;
    }
    proof {
        assert(spec_default_families().take(defaults@.len() as int) =~= spec_default_families());
    }
    let n_defaults = out.len();
    let mut extras: Vec<String> = Vec::new();
    let mut k: usize = 0;
    while k < db.structures.len()
        invariant
            k <= db.structures@.len(),
            keys_unique(db.structures@),
            sorted_strict(text_views(extras@)),
            forall|t: Seq<char>|
                text_views(extras@).contains(t) <==> exists|j: int|
                    0 <= j < k && #[trigger] db.structures@[j].id@ == t && is_extra_wall(db.structures@[j]),
        decreases db.structures@.len() - k,
    {
        let st = &db.structures[k];
        if is_wall_type(st) && !is_default_base_exec(st.id.as_str()) {
            proof {
                if text_views(extras@).contains(st.id@) {
                    let j = choose|j: int|
                        0 <= j < k && #[trigger] db.structures@[j].id@ == st.id@ && is_extra_wall(db.structures@[j]);
                    assert(db.structures@[j].id@ != db.structures@[k as int].id@);
                }
            }
            insert_sorted(&mut extras, st.id.clone());
        }
        proof {
            assert forall|t: Seq<char>|
                text_views(extras@).contains(t) <==> exists|j: int|
                    0 <= j < k + 1 && #[trigger] db.structures@[j].id@ == t && is_extra_wall(db.structures@[j]) by {
                if t == db.structures@[k as int].id@ && is_extra_wall(db.structures@[k as int]) {
                    assert(db.structures@[k as int].id@ == t);
                }
            }
        }
        k = k + 1;
    }
    let ghost ev = text_views(extras@);
    let ghost pd = present_defaults(*db);
    proof {
        assert(pd =~= spec_default_families().filter(pred));
    }
    let mut e: usize = 0;
    while e < extras.len()
        invariant
            e <= extras@.len(),
            ev == text_views(extras@),
            n_defaults == pd.len(),
            out@.len() == n_defaults + e,
            forall|q: int| 0 <= q < n_defaults ==> (#[trigger] out@[q].label@, out@[q].base@) == pd[q],
            forall|q: int| 0 <= q < e ==> (#[trigger] out@[n_defaults + q]).base@ == ev[q],
            forall|q: int| 0 <= q < e ==> (#[trigger] out@[n_defaults + q]).label@ == ev[q],
        decreases extras@.len() - e,
    {
        let id = &extras[e];
        let ghost before = out@;
        out.push(WallFamily { label: id.clone(), base: id.clone() });
        proof {
            assert(out@[n_defaults + e as int].base@ == ev[e as int]);
            assert forall|q: int| 0 <= q < n_defaults implies (#[trigger] out@[q].label@, out@[q].base@) == pd[q] by {
                assert(out@[q] == before[q]);
            }
            assert forall|q: int| 0 <= q < e + 1 implies (#[trigger] out@[n_defaults + q]).base@ == ev[q]
                && out@[n_defaults + q].label@ == ev[q] by {
                if q < e {
                    assert(out@[n_defaults + q] == before[n_defaults + q]);
                }
            }
        }
        e = e + 1;
    }
    proof {
        let ex = out@.skip(n_defaults as int).map_values(|f: WallFamily| f.base@);
        assert forall|q: int| 0 <= q < ex.len() implies ex[q] == ev[q] by {
            assert(out@.skip(n_defaults as int)[q] == out@[n_defaults + q]);
        }
        assert(ex =~= ev);
        assert forall|i: int| n_defaults <= i < out@.len() implies (#[trigger] out@[i]).label@ == out@[i].base@ by {
            assert(out@[n_defaults + (i - n_defaults)] == out@[i]);
        }
    }
    out
}


/// Tile under a world position.
pub open spec fn spec_world_pos_to_tile(pos: WorldPos) -> (u32, u32) {
    ((pos.x / 128) as u32, (pos.y / 128) as u32)
}

fn world_pos_to_tile(pos: WorldPos) -> (r: (u32, u32))
    ensures
        r == spec_world_pos_to_tile(pos),
{
    (pos.x / TILE_UNITS, pos.y / TILE_UNITS)
}

/// A wall stat the tool offers under its own id, beyond the built-in
/// families.
pub open spec fn extra_wall_id(db: StatsDatabase, t: Seq<char>) -> bool {
    exists|k: int| 0 <= k < db.structures@.len() && #[trigger] db.structures@[k].id@ == t && is_extra_wall(db.structures@[k])
}

/// `t` is the first extra wall id in lexicographic order.
pub open spec fn least_extra_wall(db: StatsDatabase, t: Seq<char>) -> bool {
    extra_wall_id(db, t) && forall|u: Seq<char>| #[trigger] extra_wall_id(db, u) ==> u == t || lex_lt(t, u)
}

/// The first family the tool offers, as (label, base stat): the first
/// built-in family whose stat is loaded, else the first other wall stat by
/// id, under its own id; `None` when there is none.
pub open spec fn first_family(db: StatsDatabase) -> Option<(Seq<char>, Seq<char>)> {
    let pd = present_defaults(db);
    if pd.len() > 0 {
        Some(pd[0])
    } else if exists|t: Seq<char>| extra_wall_id(db, t) {
        let t = choose|t: Seq<char>| least_extra_wall(db, t);
        Some((t, t))
    } else {
        None
    }
}

/// An optional family is the given (label, base stat), or both are absent.
pub open spec fn family_is(f: Option<WallFamily>, p: Option<(Seq<char>, Seq<char>)>) -> bool {
    match p {
        Some(p) => f matches Some(f) && f.label@ == p.0 && f.base@ == p.1,
        None => f is None,
    }
}

/// The families listed by `enumerate_families` start with `first_family`.
proof fn lemma_first_family(db: StatsDatabase, r: Seq<WallFamily>)
    requires
        ({
            let pd = present_defaults(db);
            let extras = r.skip(pd.len() as int).map_values(|f: WallFamily| f.base@);
            &&& pd.len() <= r.len()
            &&& forall|i: int| 0 <= i < pd.len() ==> (#[trigger] r[i].label@, r[i].base@) == pd[i]
            &&& forall|i: int| pd.len() <= i < r.len() ==> (#[trigger] r[i]).label@ == r[i].base@
            &&& sorted_strict(extras)
            &&& forall|t: Seq<char>|
                extras.contains(t) <==> exists|k: int|
                    0 <= k < db.structures@.len() && #[trigger] db.structures@[k].id@ == t
                        && is_extra_wall(db.structures@[k])
        }),
    ensures
        r.len() == 0 ==> first_family(db) is None,
        r.len() > 0 ==> first_family(db) == Some((r[0].label@, r[0].base@)),
{
    let pd = present_defaults(db);
    let extras = r.skip(pd.len() as int).map_values(|f: WallFamily| f.base@);
    if pd.len() == 0 {
        assert(extras =~= r.map_values(|f: WallFamily| f.base@));
        if r.len() == 0 {
            assert forall|t: Seq<char>| !extra_wall_id(db, t) by {
                if extra_wall_id(db, t) {
                    let k = choose|k: int| 0 <= k < db.structures@.len() && #[trigger] db.structures@[k].id@ == t
                        && is_extra_wall(db.structures@[k]);
                    assert(db.structures@[k].id@ == t);
                    assert(extras.contains(t));
                }
            }
        } else {
            let t0 = extras[0];
            assert(extras.contains(t0));
            assert(extra_wall_id(db, t0));
            assert forall|u: Seq<char>| #[trigger] extra_wall_id(db, u) implies u == t0 || lex_lt(t0, u) by {
                let k = choose|k: int| 0 <= k < db.structures@.len() && #[trigger] db.structures@[k].id@ == u
                    && is_extra_wall(db.structures@[k]);
                assert(db.structures@[k].id@ == u);
                assert(extras.contains(u));
                let j = choose|j: int| 0 <= j < extras.len() && extras[j] == u;
                if j > 0 {
                    assert(lex_lt(extras[0], extras[j]));
                }
            }
            assert(least_extra_wall(db, t0));
            let t = choose|t: Seq<char>| least_extra_wall(db, t);
            assert(least_extra_wall(db, t));
            lemma_lex_asym(t, t0);
            assert(t == t0);
            assert(r[0].label@ == r[0].base@);
        }
    }
}

/// The wall-placement tool: chosen family, cross-corner option, the stroke
/// in progress and the tile under the cursor.
pub struct WallTool {
    family: Option<WallFamily>,
    cross_corners: bool,
    stroke: WallStrokeState,
    hover_tile: Option<(u32, u32)>,
    stroke_start: Ghost<MapModel>,
}

impl WallTool {
    pub closed spec fn spec_family(&self) -> Option<WallFamily> {
        self.family
    }

    pub closed spec fn spec_cross_corners(&self) -> bool {
        self.cross_corners
    }

    pub closed spec fn spec_hover_tile(&self) -> Option<(u32, u32)> {
        self.hover_tile
    }

    /// The map as it was when the current stroke began.
    pub closed spec fn stroke_start(&self) -> MapModel {
        self.stroke_start@
    }

    /// Commands recorded by the current stroke.
    pub closed spec fn stroke_commands(&self) -> Seq<EditCommand> {
        self.stroke.commands@
    }

    /// No stroke is under way: no tile painted yet and none touched.
    pub closed spec fn stroke_idle(&self) -> bool {
        self.stroke.last_tile is None && self.stroke.touched@.len() == 0
    }

    /// Tile the stroke last painted, `None` before its first.
    pub closed spec fn stroke_last_tile(&self) -> Option<(u32, u32)> {
        self.stroke.last_tile
    }

    /// Tiles the stroke has handled, in the order it reached them.
    pub closed spec fn stroke_touched(&self) -> Seq<(u32, u32)> {
        self.stroke.touched@
    }

    /// The stroke's commands, executed on the stroke's starting map, gave `m`.
    pub open spec fn stroke_replays(&self, m: MapModel) -> bool {
        replays(self.stroke_commands(), self.stroke_start(), m)
    }

    /// A tool with no family chosen and no stroke.
    pub fn new() -> (r: Self)
        ensures
            r.spec_family() is None,
            !r.spec_cross_corners(),
            r.spec_hover_tile() is None,
            r.stroke_commands().len() == 0,
            r.stroke_idle(),
    {
        WallTool {
            family: None,
            cross_corners: false,
            stroke: WallStrokeState::new(),
            hover_tile: None,
            stroke_start: Ghost(MapModel {
                width: 0,
                height: 0,
                tiles: Seq::empty(),
                gateways: Seq::empty(),
                structures: Seq::empty(),
                droids: Seq::empty(),
                features: Seq::empty(),
                labels: Seq::empty(),
            }),
        }
    }

    /// The chosen wall family.
    pub fn family(&self) -> (r: Option<&WallFamily>)
        ensures
            match r {
                Some(f) => self.spec_family() == Some(*f),
                None => self.spec_family() is None,
            },
    {
        match &self.family {
            Some(f) => Some(f),
            None => None,
        }
    }

    /// Whether new L corners are saved under the cross-shaped corner stat.
    pub fn cross_corners(&self) -> (r: bool)
        ensures
            r == self.spec_cross_corners(),
    {
        self.cross_corners
    }

    /// Tile under the cursor, for the placement preview.
    pub fn hover_tile(&self) -> (r: Option<(u32, u32)>)
        ensures
            r == self.spec_hover_tile(),
    {
        self.hover_tile
    }

    /// Choose the family; the cross-corner option is switched off for a
    /// family without a cross-shaped corner.
    pub fn select_family(&mut self, family: WallFamily)
        ensures
            final(self).spec_family() == Some(family),
            final(self).spec_cross_corners() == (old(self).spec_cross_corners()
                && spec_family_has_cross_corner(family.base@)),
            final(self).spec_hover_tile() == old(self).spec_hover_tile(),
            final(self).stroke_commands() == old(self).stroke_commands(),
            final(self).stroke_start() == old(self).stroke_start(),
    {
        if !family_has_cross_corner(family.base.as_str()) {
            self.cross_corners = false;
        }
        self.family = Some(family);
    }

    /// Turn the cross-corner option on or off; it stays off unless the
    /// chosen family has a cross-shaped corner.
    pub fn set_cross_corners(&mut self, on: bool)
        ensures
            final(self).spec_cross_corners() == (on && (old(self).spec_family() matches Some(f)
                && spec_family_has_cross_corner(f.base@))),
            final(self).spec_family() == old(self).spec_family(),
            final(self).spec_hover_tile() == old(self).spec_hover_tile(),
            final(self).stroke_commands() == old(self).stroke_commands(),
            final(self).stroke_start() == old(self).stroke_start(),
    {
        let supported = match &self.family {
            Some(f) => family_has_cross_corner(f.base.as_str()),
            None => false,
        };
        self.cross_corners = on && supported;
    }

    /// Without a chosen family, choose the first the tool offers.
    fn ensure_family(&mut self, db: &StatsDatabase)
        requires
            keys_unique(db.structures@),
        ensures
            final(self).cross_corners == old(self).cross_corners,
            final(self).stroke == old(self).stroke,
            final(self).hover_tile == old(self).hover_tile,
            final(self).stroke_start == old(self).stroke_start,
            old(self).family is Some ==> final(self).family == old(self).family,
            old(self).family is None ==> family_is(final(self).family, first_family(*db)),
    {
        if self.family.is_none() {
            let mut families = enumerate_families(db);
            proof {
                lemma_first_family(*db, families@);
            }
            if families.len() > 0 {
                self.family = Some(families.remove(0));
            }
        }
    }

    /// Move the hover tile; true when it changed (the preview needs redrawing).
    fn set_hover(&mut self, tile: Option<(u32, u32)>) -> (dirty: bool)
        ensures
            final(self).hover_tile == tile,
            dirty == (old(self).hover_tile != tile),
            final(self).family == old(self).family,
            final(self).cross_corners == old(self).cross_corners,
            final(self).stroke == old(self).stroke,
            final(self).stroke_start == old(self).stroke_start,
    {
        let changed = match (self.hover_tile, tile) {
            (Some(a), Some(b)) => !(a.0 == b.0 && a.1 == b.1),
            (None, None) => false,
            _ => true,
        };
        if changed {
            self.hover_tile = tile;
        }
        changed
    }

    /// Paint the wall stroke up to `tile`; true when objects changed. Does
    /// nothing until stats are loaded and a family is available.
    fn paint_at(&mut self, map: &mut WzMap, db: Option<&StatsDatabase>, player: i8, tile: (u32, u32)) -> (dirty: bool)
        requires
            old(self).stroke_replays(old(map)@),
            world_fits(old(map)@),
            db matches Some(d) ==> keys_unique(d.structures@),
        ensures
            final(self).stroke_replays(final(map)@),
            final(self).stroke_start() == old(self).stroke_start(),
            final(map)@.width == old(map)@.width,
            final(map)@.height == old(map)@.height,
            final(self).hover_tile == old(self).hover_tile,
            final(self).cross_corners == old(self).cross_corners,
            db is None ==> *final(self) == *old(self),
            db matches Some(d) ==> {
                &&& old(self).family is Some ==> final(self).family == old(self).family
                &&& old(self).family is None ==> family_is(final(self).family, first_family(*d))
            },
            dirty == (db is Some && final(self).family is Some),
            !dirty ==> final(map)@ == old(map)@ && final(self).stroke == old(self).stroke,
            dirty ==> {
                &&& final(self).stroke.last_tile == Some(tile)
                &&& old(self).stroke.commands@.len() <= final(self).stroke.commands@.len()
                &&& final(self).stroke.commands@.subrange(0, old(self).stroke.commands@.len() as int)
                    == old(self).stroke.commands@
                &&& exists|path: Seq<(u32, u32)>|
                    #![trigger stroke_path_ok(old(self).stroke.last_tile, tile, path)]
                    stroke_path_ok(old(self).stroke.last_tile, tile, path)
                        && final(self).stroke.touched@ == touched_along(old(map)@, old(self).stroke.touched@, path)
                        && paint_path_spec(
                        old(map)@,
                        old(self).stroke.touched@,
                        *db->0,
                        final(self).family->0,
                        old(self).cross_corners,
                        path,
                        player,
                        final(self).stroke.commands@.subrange(
                            old(self).stroke.commands@.len() as int,
                            final(self).stroke.commands@.len() as int,
                        ),
                    )
            },
    {
        let stats = match db {
            Some(d) => d,
            None => {
                return false;
            },
        };
        self.ensure_family(stats);
        let family = match &self.family {
            Some(f) => f.clone(),
            None => {
                return false;
            },
        };
        let ghost c0 = self.stroke.commands@;
        let ghost m0 = map@;
        extend_stroke(&mut self.stroke, &family, tile, stats, map, player, self.cross_corners);
        proof {
            let n0 = c0.len() as int;
            let xs = c0;
            let ys = self.stroke.commands@.subrange(n0, self.stroke.commands@.len() as int);
            assert(self.stroke.commands@.subrange(0, n0) == c0);
            assert(xs + ys =~= self.stroke.commands@);
            lemma_replays_concat(xs, ys, self.stroke_start@, m0, map@);
        }
        true
    }

    /// Start a stroke at the pressed tile: with stats loaded and a family
    /// chosen (the first one offered when none was), paint a wall there and
    /// re-shape its neighbours; otherwise change nothing on the map.
    pub fn on_mouse_press(&mut self, map: &mut WzMap, db: Option<&StatsDatabase>, player: i8, pos: WorldPos) -> (dirty: bool)
        requires
            world_fits(old(map)@),
            db matches Some(d) ==> keys_unique(d.structures@),
        ensures
            final(self).stroke_start() == old(map)@,
            final(self).stroke_replays(final(map)@),
            final(map)@.width == old(map)@.width,
            final(map)@.height == old(map)@.height,
            final(self).spec_cross_corners() == old(self).spec_cross_corners(),
            final(self).spec_hover_tile() == old(self).spec_hover_tile(),
            db is None ==> final(self).spec_family() == old(self).spec_family(),
            db matches Some(d) ==> {
                &&& old(self).spec_family() is Some ==> final(self).spec_family() == old(self).spec_family()
                &&& old(self).spec_family() is None ==> family_is(final(self).spec_family(), first_family(*d))
            },
            dirty == (db is Some && final(self).spec_family() is Some),
            !dirty ==> final(map)@ == old(map)@ && final(self).stroke_commands().len() == 0
                && final(self).stroke_idle(),
            dirty ==> {
                &&& final(self).stroke_last_tile() == Some(spec_world_pos_to_tile(pos))
                &&& final(self).stroke_touched() == touched_along(
                    old(map)@,
                    Seq::empty(),
                    seq![spec_world_pos_to_tile(pos)],
                )
                &&& paint_path_spec(
                    old(map)@,
                    Seq::empty(),
                    *db->0,
                    final(self).spec_family()->0,
                    old(self).spec_cross_corners(),
                    seq![spec_world_pos_to_tile(pos)],
                    player,
                    final(self).stroke_commands(),
                )
            },
    {
        self.stroke.reset();
        self.stroke_start = Ghost(map@);
        proof {
            assert(self.stroke.commands@ =~= Seq::<EditCommand>::empty());
            lemma_replays_empty(map@);
        }
        let tile = world_pos_to_tile(pos);
        let ghost before = *self;
        let dirty = self.paint_at(map, db, player, tile);
        proof {
            assert(before.stroke.commands@.len() == 0);
            assert(self.stroke.commands@.subrange(0, self.stroke.commands@.len() as int) =~= self.stroke.commands@);
            assert(before.stroke.touched@ =~= Seq::<(u32, u32)>::empty());
        }
        dirty
    }

    /// Continue the stroke to the tile under the cursor.
    pub fn on_mouse_drag(&mut self, map: &mut WzMap, db: Option<&StatsDatabase>, player: i8, pos: WorldPos) -> (dirty: bool)
        requires
            old(self).stroke_replays(old(map)@),
            world_fits(old(map)@),
            db matches Some(d) ==> keys_unique(d.structures@),
        ensures
            final(self).stroke_start() == old(self).stroke_start(),
            final(self).stroke_replays(final(map)@),
            final(self).spec_hover_tile() == Some(spec_world_pos_to_tile(pos)),
            final(map)@.width == old(map)@.width,
            final(map)@.height == old(map)@.height,
            final(self).spec_cross_corners() == old(self).spec_cross_corners(),
            db is None ==> final(self).spec_family() == old(self).spec_family(),
            db matches Some(d) ==> {
                &&& old(self).spec_family() is Some ==> final(self).spec_family() == old(self).spec_family()
                &&& old(self).spec_family() is None ==> family_is(final(self).spec_family(), first_family(*d))
            },
            dirty == (old(self).spec_hover_tile() != Some(spec_world_pos_to_tile(pos)) || (db is Some
                && final(self).spec_family() is Some)),
            !(db is Some && final(self).spec_family() is Some) ==> {
                &&& final(map)@ == old(map)@
                &&& final(self).stroke_commands() == old(self).stroke_commands()
                &&& final(self).stroke_last_tile() == old(self).stroke_last_tile()
                &&& final(self).stroke_touched() == old(self).stroke_touched()
            },
            db is Some && final(self).spec_family() is Some ==> {
                &&& final(self).stroke_last_tile() == Some(spec_world_pos_to_tile(pos))
                &&& old(self).stroke_commands().len() <= final(self).stroke_commands().len()
                &&& final(self).stroke_commands().subrange(0, old(self).stroke_commands().len() as int)
                    == old(self).stroke_commands()
                &&& exists|path: Seq<(u32, u32)>|
                    #![trigger stroke_path_ok(old(self).stroke_last_tile(), spec_world_pos_to_tile(pos), path)]
                    stroke_path_ok(old(self).stroke_last_tile(), spec_world_pos_to_tile(pos), path)
                        && final(self).stroke_touched() == touched_along(old(map)@, old(self).stroke_touched(), path)
                        && paint_path_spec(
                        old(map)@,
                        old(self).stroke_touched(),
                        *db->0,
                        final(self).spec_family()->0,
                        old(self).spec_cross_corners(),
                        path,
                        player,
                        final(self).stroke_commands().subrange(
                            old(self).stroke_commands().len() as int,
                            final(self).stroke_commands().len() as int,
                        ),
                    )
            },
    {
        let tile = world_pos_to_tile(pos);
        let moved = self.set_hover(Some(tile));
        let painted = self.paint_at(map, db, player, tile);
        moved || painted
    }

    /// Track the tile under the cursor; true when it changed.
    pub fn on_mouse_hover(&mut self, pos: Option<WorldPos>) -> (dirty: bool)
        ensures
            final(self).spec_hover_tile() == (match pos {
                Some(p) => Some(spec_world_pos_to_tile(p)),
                None => None,
            }),
            dirty == (old(self).spec_hover_tile() != final(self).spec_hover_tile()),
            final(self).stroke_commands() == old(self).stroke_commands(),
            final(self).stroke_start() == old(self).stroke_start(),
    {
        let tile = match pos {
            Some(p) => Some(world_pos_to_tile(p)),
            None => None,
        };
        self.set_hover(tile)
    }

    fn flush(&mut self) -> (r: Option<EditCommand>)
        ensures
            final(self).stroke_commands().len() == 0,
            final(self).stroke_start() == old(self).stroke_start(),
            final(self).hover_tile == old(self).hover_tile,
            old(self).stroke_commands().len() == 0 <==> r is None,
            r matches Some(c) ==> (c matches EditCommand::Compound(cc) && cc.commands@ == old(
                self,
            ).stroke_commands()),
    {
        let commands = self.stroke.take_commands();
        if commands.len() == 0 {
            None
        } else {
            Some(EditCommand::Compound(CompoundCommand::new(commands)))
        }
    }

    /// End the stroke: the whole stroke as one undoable command, or `None`
    /// when it changed nothing. Executed on the map the stroke started
    /// from, the command gives the map the stroke left.
    pub fn on_mouse_release(&mut self) -> (r: Option<EditCommand>)
        ensures
            final(self).stroke_commands().len() == 0,
            final(self).spec_hover_tile() == old(self).spec_hover_tile(),
            final(self).stroke_start() == old(self).stroke_start(),
            old(self).stroke_commands().len() == 0 <==> r is None,
            forall|m: MapModel|
                old(self).stroke_replays(m) ==> (r matches Some(c) ==> replays(seq![c], old(self).stroke_start(), m)),
    {
        let r = self.flush();
        proof {
            if r is Some {
                let c = r->0;
                assert forall|m: MapModel| old(self).stroke_replays(m) implies replays(seq![c], old(self).stroke_start(), m) by {
                    reveal(replays);
                    lemma_apply_all_push(Seq::<EditCommand>::empty(), c, old(self).stroke_start());
                    assert(seq![c] =~= Seq::<EditCommand>::empty().push(c));
                }
            }
        }
        r
    }

    /// Leaving the tool ends the stroke as a release does and clears the
    /// hover tile.
    pub fn on_deactivated(&mut self) -> (r: Option<EditCommand>)
        ensures
            final(self).stroke_commands().len() == 0,
            final(self).spec_hover_tile() is None,
            old(self).stroke_commands().len() == 0 <==> r is None,
            forall|m: MapModel|
                old(self).stroke_replays(m) ==> (r matches Some(c) ==> replays(seq![c], old(self).stroke_start(), m)),
    {
        self.set_hover(None);
        let ghost mid = *self;
        assert(mid.stroke_commands() == old(self).stroke_commands());
        assert(mid.stroke_start() == old(self).stroke_start());
        let r = self.on_mouse_release();
        proof {
            assert forall|m: MapModel| old(self).stroke_replays(m) implies (r matches Some(c) ==> replays(
                seq![c],
                old(self).stroke_start(),
                m,
            )) by {
                assert(mid.stroke_replays(m));
            }
        }
        r
    }
}

/// Undoing the command a stroke ends with restores the map the stroke
/// started from.
pub proof fn lemma_stroke_undo_restores(c: EditCommand, start: MapModel, m: MapModel)
    requires
        replays(seq![c], start, m),
    ensures
        c.revert(m) == start,
{
    reveal(replays);
    lemma_apply_all_push(Seq::<EditCommand>::empty(), c, start);
    assert(seq![c].drop_last() =~= Seq::<EditCommand>::empty());
    lemma_undo_inverts_execute(c, start);
}

} // verus!
