//! Rotation and mirroring of stamp patterns: object directions, tile
//! positions inside the pattern grid and object offsets in world units.
//! Flips are applied first, then clockwise quarter turns.
use vstd::prelude::*;

verus! {

/// A captured pattern tile, relative to the pattern origin.
#[derive(Debug, Clone, Copy, PartialEq, Eq)]
pub struct StampTile {
    pub dx: u32,
    pub dy: u32,
    pub texture: u16,
    pub height: u16,
}

/// A captured object, offset from the pattern origin in world units.
#[derive(Debug)]
pub enum StampObject {
    Structure { name: String, offset_x: i32, offset_y: i32, direction: u16, player: i8, modules: u8 },
    Droid { name: String, offset_x: i32, offset_y: i32, direction: u16, player: i8 },
    Feature { name: String, offset_x: i32, offset_y: i32, direction: u16, player: Option<i8> },
}

impl StampObject {
    pub open spec fn spec_offset_dir(&self) -> (i32, i32, u16) {
        match self {
            StampObject::Structure { offset_x, offset_y, direction, .. } => (*offset_x, *offset_y, *direction),
            StampObject::Droid { offset_x, offset_y, direction, .. } => (*offset_x, *offset_y, *direction),
            StampObject::Feature { offset_x, offset_y, direction, .. } => (*offset_x, *offset_y, *direction),
        }
    }

    /// Offset and direction of the object.
    pub fn offset_dir(&self) -> (r: (i32, i32, u16))
        ensures
            r == self.spec_offset_dir(),
    {
        match self {
            StampObject::Structure { offset_x, offset_y, direction, .. } => (*offset_x, *offset_y, *direction),
            StampObject::Droid { offset_x, offset_y, direction, .. } => (*offset_x, *offset_y, *direction),
            StampObject::Feature { offset_x, offset_y, direction, .. } => (*offset_x, *offset_y, *direction),
        }
    }

    /// The same object moved to a new offset and direction.
    pub open spec fn spec_moved(&self, ox: i32, oy: i32, dir: u16) -> Self {
        match self {
            StampObject::Structure { name, player, modules, .. } => StampObject::Structure {
                name: *name,
                offset_x: ox,
                offset_y: oy,
                direction: dir,
                player: *player,
                modules: *modules,
            },
            StampObject::Droid { name, player, .. } => StampObject::Droid {
                name: *name,
                offset_x: ox,
                offset_y: oy,
                direction: dir,
                player: *player,
            },
            StampObject::Feature { name, player, .. } => StampObject::Feature {
                name: *name,
                offset_x: ox,
                offset_y: oy,
                direction: dir,
                player: *player,
            },
        }
    }
}

/// A captured rectangular pattern.
#[derive(Debug)]
pub struct StampPattern {
    pub width: u32,
    pub height: u32,
    pub tiles: Vec<StampTile>,
    pub objects: Vec<StampObject>,
}

impl StampPattern {
    /// Every tile lies inside the pattern rectangle.
    pub open spec fn tiles_inside(&self) -> bool {
        forall|i: int| 0 <= i < self.tiles@.len() ==> (#[trigger] self.tiles@[i]).dx < self.width && self.tiles@[i].dy < self.height
    }
}

/// Direction after `rot_steps` clockwise quarter turns.
pub open spec fn spec_rotate_direction(direction: u16, rot_steps: u8) -> u16 {
    ((direction as int + rot_steps as int * 0x4000) % 0x10000) as u16
}

/// Direction mirrored left/right.
pub open spec fn spec_flip_direction_x(direction: u16) -> u16 {
    ((0x10000 - direction as int) % 0x10000) as u16
}

/// Direction mirrored top/bottom.
pub open spec fn spec_flip_direction_y(direction: u16) -> u16 {
    ((0x18000 - direction as int) % 0x10000) as u16
}

/// Rotate an object direction by `rot_steps` clockwise quarter turns.
pub fn rotate_direction(direction: u16, rot_steps: u8) -> (r: u16)
    ensures
        r == spec_rotate_direction(direction, rot_steps),
{
    let offset: u32 = (rot_steps as u32) * 0x4000;
    let sum: u32 = (direction as u32).wrapping_add(offset);
    assert(sum == direction as u32 + offset);
    let masked: u32 = sum & 0xFFFF;
    assert(masked == sum % 0x10000) by (bit_vector)
        requires
            masked == sum & 0xFFFF,
    ;
    masked as u16
}

/// Mirror an object direction left/right.
pub fn flip_direction_x(direction: u16) -> (r: u16)
    ensures
        r == spec_flip_direction_x(direction),
{
    let diff: u32 = 0x1_0000u32.wrapping_sub(direction as u32);
    assert(diff == 0x10000 - direction as int);
    let masked: u32 = diff & 0xFFFF;
    assert(masked == diff % 0x10000) by (bit_vector)
        requires
            masked == diff & 0xFFFF,
    ;
    masked as u16
}

/// Mirror an object direction top/bottom.
pub fn flip_direction_y(direction: u16) -> (r: u16)
    ensures
        r == spec_flip_direction_y(direction),
{
    let d: u32 = direction as u32;
    let diff: u32 = 0x8000u32.wrapping_sub(d);
    let masked: u32 = diff & 0xFFFF;
    assert(d <= 0xFFFF);
    assert(masked == (0x18000 - d) % 0x10000) by (bit_vector)
        requires
            d <= 0xFFFF,
            diff == 0x8000u32.wrapping_sub(d),
            masked == diff & 0xFFFF,
    ;
    masked as u16
}

/// Mirroring twice gives back the starting direction.
pub proof fn lemma_flips_involutive(d: u16)
    ensures
        spec_flip_direction_x(spec_flip_direction_x(d)) == d,
        spec_flip_direction_y(spec_flip_direction_y(d)) == d,
{
}

/// Quarter turns add up, and four of them are a full turn.
pub proof fn lemma_rotations_compose(d: u16, a: u8, b: u8)
    requires
        a as int + b as int <= 255,
    ensures
        spec_rotate_direction(spec_rotate_direction(d, a), b) == spec_rotate_direction(d, (a + b) as u8),
        spec_rotate_direction(d, 4) == d,
        spec_rotate_direction(d, 0) == d,
{
    let x = d as int + a as int * 0x4000;
    assert((x % 0x10000 + b as int * 0x4000) % 0x10000 == (x + b as int * 0x4000) % 0x10000) by (nonlinear_arith);
}

/// Position of a (flipped) tile after `rot_steps` clockwise quarter turns of
/// a `w` x `h` pattern.
pub open spec fn spec_rotate_tile_pos(dx: u32, dy: u32, w: u32, h: u32, rot_steps: u8) -> (u32, u32) {
    let r = rot_steps % 4;
    if r == 0 {
        (dx, dy)
    } else if r == 1 {
        ((h - 1 - dy) as u32, dx)
    } else if r == 2 {
        ((w - 1 - dx) as u32, (h - 1 - dy) as u32)
    } else {
        (dy, (w - 1 - dx) as u32)
    }
}

/// The coordinates a quarter-turn count needs inside the grid.
pub open spec fn tile_pos_in_range(dx: u32, dy: u32, w: u32, h: u32, rot_steps: u8) -> bool {
    let r = rot_steps % 4;
    &&& (r == 1 || r == 2) ==> dy < h
    &&& (r == 2 || r == 3) ==> dx < w
}

/// Rotate a tile position inside the pattern grid.
pub fn rotate_tile_pos(dx: u32, dy: u32, w: u32, h: u32, rot_steps: u8) -> (r: (u32, u32))
    requires
        tile_pos_in_range(dx, dy, w, h, rot_steps),
    ensures
        r == spec_rotate_tile_pos(dx, dy, w, h, rot_steps),
{
    let q = rot_steps % 4;
    if q == 0 {
        (dx, dy)
    } else if q == 1 {
        (h - 1 - dy, dx)
    } else if q == 2 {
        (w - 1 - dx, h - 1 - dy)
    } else {
        (dy, w - 1 - dx)
    }
}

/// A tile inside a `w` x `h` grid lands inside the rotated grid, whose
/// sides swap on odd quarter turns.
pub proof fn lemma_rotate_tile_pos_inside(dx: u32, dy: u32, w: u32, h: u32, rot_steps: u8)
    requires
        dx < w,
        dy < h,
    ensures
        ({
            let p = spec_rotate_tile_pos(dx, dy, w, h, rot_steps);
            if rot_steps % 2 == 1 {
                p.0 < h && p.1 < w
            } else {
                p.0 < w && p.1 < h
            }
        }),
{
}

/// Four clockwise quarter turns bring every tile back where it was.
pub proof fn lemma_four_quarter_turns(dx: u32, dy: u32, w: u32, h: u32)
    requires
        dx < w,
        dy < h,
    ensures
        ({
            let p1 = spec_rotate_tile_pos(dx, dy, w, h, 1);
            let p2 = spec_rotate_tile_pos(p1.0, p1.1, h, w, 1);
            let p3 = spec_rotate_tile_pos(p2.0, p2.1, w, h, 1);
            let p4 = spec_rotate_tile_pos(p3.0, p3.1, h, w, 1);
            p4 == (dx, dy)
        }),
{
}

/// Object offset after flips (about the pattern extent), then rotation.
pub open spec fn spec_transform_object_offset(
    ox: i32,
    oy: i32,
    extent_x: i32,
    extent_y: i32,
    rot_steps: u8,
    flip_x: bool,
    flip_y: bool,
) -> (int, int) {
    let x = if flip_x {
        extent_x - ox
    } else {
        ox as int
    };
    let y = if flip_y {
        extent_y - oy
    } else {
        oy as int
    };
    let r = rot_steps % 4;
    if r == 0 {
        (x, y)
    } else if r == 1 {
        (extent_y - y, x)
    } else if r == 2 {
        (extent_x - x, extent_y - y)
    } else {
        (y, extent_x - x)
    }
}

/// An object at the centre of a pattern tile stays at the centre of that
/// tile's image: offsets and tiles are flipped and turned alike, whatever
/// the flips and the number of quarter turns.
pub proof fn lemma_object_follows_its_tile(
    dx: u32,
    dy: u32,
    w: u32,
    h: u32,
    ox: i32,
    oy: i32,
    extent_x: i32,
    extent_y: i32,
    rot_steps: u8,
    flip_x: bool,
    flip_y: bool,
)
    requires
        dx < w,
        dy < h,
        extent_x == w * 128,
        extent_y == h * 128,
        ox == dx * 128 + 64,
        oy == dy * 128 + 64,
    ensures
        ({
            let fx: u32 = if flip_x { (w - 1 - dx) as u32 } else { dx };
            let fy: u32 = if flip_y { (h - 1 - dy) as u32 } else { dy };
            let t = spec_rotate_tile_pos(fx, fy, w, h, rot_steps);
            spec_transform_object_offset(ox, oy, extent_x, extent_y, rot_steps, flip_x, flip_y) == (
                t.0 * 128 + 64,
                t.1 * 128 + 64,
            )
        }),
{
}

/// Without flips, a half turn of an object offset is two quarter turns,
/// the second about the swapped extents, and three quarters are a half
/// turn and one quarter more.
pub proof fn lemma_offset_turns_compose(ox: i32, oy: i32, extent_x: i32, extent_y: i32)
    requires
        ({
            let q = spec_transform_object_offset(ox, oy, extent_x, extent_y, 1, false, false);
            let hf = spec_transform_object_offset(ox, oy, extent_x, extent_y, 2, false, false);
            fits_i32(q.0) && fits_i32(q.1) && fits_i32(hf.0) && fits_i32(hf.1)
        }),
    ensures
        ({
            let q = spec_transform_object_offset(ox, oy, extent_x, extent_y, 1, false, false);
            let hf = spec_transform_object_offset(ox, oy, extent_x, extent_y, 2, false, false);
            &&& spec_transform_object_offset(ox, oy, extent_x, extent_y, 0, false, false) == (ox as int, oy as int)
            &&& spec_transform_object_offset(ox, oy, extent_x, extent_y, 4, false, false) == (ox as int, oy as int)
            &&& hf == spec_transform_object_offset(q.0 as i32, q.1 as i32, extent_y, extent_x, 1, false, false)
            &&& spec_transform_object_offset(ox, oy, extent_x, extent_y, 3, false, false)
                == spec_transform_object_offset(hf.0 as i32, hf.1 as i32, extent_x, extent_y, 1, false, false)
        }),
{
}

pub open spec fn fits_i32(v: int) -> bool {
    i32::MIN <= v <= i32::MAX
}

/// Every intermediate value of the offset transform fits in `i32`.
pub open spec fn offset_transform_fits(
    ox: i32,
    oy: i32,
    extent_x: i32,
    extent_y: i32,
    rot_steps: u8,
    flip_x: bool,
    flip_y: bool,
) -> bool {
    let x = if flip_x {
        extent_x - ox
    } else {
        ox as int
    };
    let y = if flip_y {
        extent_y - oy
    } else {
        oy as int
    };
    let r = rot_steps % 4;
    &&& fits_i32(x)
    &&& fits_i32(y)
    &&& (r == 1 || r == 2) ==> fits_i32(extent_y - y)
    &&& (r == 2 || r == 3) ==> fits_i32(extent_x - x)
}

/// Transform an object's offset from the pattern origin: flips first, then
/// clockwise quarter turns.
pub fn transform_object_offset(
    ox: i32,
    oy: i32,
    extent_x: i32,
    extent_y: i32,
    rot_steps: u8,
    flip_x: bool,
    flip_y: bool,
) -> (r: (i32, i32))
    requires
        offset_transform_fits(ox, oy, extent_x, extent_y, rot_steps, flip_x, flip_y),
    ensures
        (r.0 as int, r.1 as int) == spec_transform_object_offset(
            ox,
            oy,
            extent_x,
            extent_y,
            rot_steps,
            flip_x,
            flip_y,
        ),
{
    let mut x = ox;
    let mut y = oy;
    if flip_x {
        x = extent_x - x;
    }
    if flip_y {
        y = extent_y - y;
    }
    let q = rot_steps % 4;
    if q == 0 {
        (x, y)
    } else if q == 1 {
        (extent_y - y, x)
    } else if q == 2 {
        (extent_x - x, extent_y - y)
    } else {
        (y, extent_x - x)
    }
}

pub open spec fn spec_transform_object_direction(dir: u16, rot_steps: u8, flip_x: bool, flip_y: bool) -> u16 {
    let d1 = if flip_x {
        spec_flip_direction_x(dir)
    } else {
        dir
    };
    let d2 = if flip_y {
        spec_flip_direction_y(d1)
    } else {
        d1
    };
    spec_rotate_direction(d2, rot_steps)
}

/// Transform an object direction: flips first, then rotation.
pub fn transform_object_direction(dir: u16, rot_steps: u8, flip_x: bool, flip_y: bool) -> (r: u16)
    ensures
        r == spec_transform_object_direction(dir, rot_steps, flip_x, flip_y),
{
    let mut d = dir;
    if flip_x {
        d = flip_direction_x(d);
    }
    if flip_y {
        d = flip_direction_y(d);
    }
    rotate_direction(d, rot_steps)
}

/// Pattern extent along an axis in world units.
pub open spec fn extent_of(n: u32) -> i32 {
    #[verifier::truncate] ((n * 128) as i32)
}

/// Tile of a pattern after the transform: flipped, then rotated; its
/// height kept.
pub open spec fn transformed_tile_pos(t: StampTile, w: u32, h: u32, rot_steps: u8, flip_x: bool, flip_y: bool) -> (u32, u32) {
    let dx = if flip_x {
        (w - 1 - t.dx) as u32
    } else {
        t.dx
    };
    let dy = if flip_y {
        (h - 1 - t.dy) as u32
    } else {
        t.dy
    };
    spec_rotate_tile_pos(dx, dy, w, h, rot_steps)
}

/// Rotate and mirror a pattern: flips first, then `rot_steps` clockwise
/// quarter turns. Tiles move inside the grid (whose sides swap on odd
/// turns) and keep their height; their texture orientation is given by
/// `retexture`. Objects move about the pattern extent and turn with it.
pub fn transform_pattern<F: Fn(u16) -> u16>(
    pattern: &StampPattern,
    rot_steps: u8,
    flip_x: bool,
    flip_y: bool,
    retexture: &F,
) -> (r: StampPattern)
    requires
        pattern.tiles_inside(),
        pattern.width * 128 <= u32::MAX,
        pattern.height * 128 <= u32::MAX,
        forall|t: u16| call_requires(*retexture, (t,)),
        forall|i: int|
            0 <= i < pattern.objects@.len() ==> {
                let (ox, oy, _) = #[trigger] pattern.objects@[i].spec_offset_dir();
                offset_transform_fits(
                    ox,
                    oy,
                    extent_of(pattern.width),
                    extent_of(pattern.height),
                    rot_steps,
                    flip_x,
                    flip_y,
                )
            },
    ensures
        (r.width, r.height) == (if rot_steps % 2 == 1 {
            (pattern.height, pattern.width)
        } else {
            (pattern.width, pattern.height)
        }),
        r.tiles@.len() == pattern.tiles@.len(),
        forall|i: int|
            0 <= i < r.tiles@.len() ==> {
                let t = pattern.tiles@[i];
                let n = #[trigger] r.tiles@[i];
                &&& (n.dx, n.dy) == transformed_tile_pos(t, pattern.width, pattern.height, rot_steps, flip_x, flip_y)
                &&& n.height == t.height
                &&& call_ensures(*retexture, (t.texture,), n.texture)
            },
        r.tiles_inside(),
        r.objects@.len() == pattern.objects@.len(),
        forall|i: int|
            0 <= i < r.objects@.len() ==> {
                let o = pattern.objects@[i];
                let (ox, oy, dir) = o.spec_offset_dir();
                let off = spec_transform_object_offset(
                    ox,
                    oy,
                    extent_of(pattern.width),
                    extent_of(pattern.height),
                    rot_steps,
                    flip_x,
                    flip_y,
                );
                #[trigger] r.objects@[i] == o.spec_moved(
                    off.0 as i32,
                    off.1 as i32,
                    spec_transform_object_direction(dir, rot_steps, flip_x, flip_y),
                )
            },
{
    let w = pattern.width;
    let h = pattern.height;
    let extent_x = #[verifier::truncate] ((w * 128) as i32);
    let extent_y = #[verifier::truncate] ((h * 128) as i32);
    let mut new_tiles: Vec<StampTile> = Vec::new();
    let mut i: usize = 0;
    while i < pattern.tiles.len()
        invariant
            i <= pattern.tiles@.len(),
            w == pattern.width,
            h == pattern.height,
            pattern.tiles_inside(),
            forall|t: u16| call_requires(*retexture, (t,)),
            new_tiles@.len() == i,
            forall|k: int|
                0 <= k < i ==> {
                    let t = pattern.tiles@[k];
                    let n = #[trigger] new_tiles@[k];
                    &&& (n.dx, n.dy) == transformed_tile_pos(t, w, h, rot_steps, flip_x, flip_y)
                    &&& n.height == t.height
                    &&& call_ensures(*retexture, (t.texture,), n.texture)
                },
        decreases pattern.tiles@.len() - i,
    {
        let tile = pattern.tiles[i];
        assert(pattern.tiles@[i as int].dx < w && pattern.tiles@[i as int].dy < h);
        let mut dx = tile.dx;
        let mut dy = tile.dy;
        if flip_x {
            dx = w - 1 - dx;
        }
        if flip_y {
            dy = h - 1 - dy;
        }
        let (new_dx, new_dy) = rotate_tile_pos(dx, dy, w, h, rot_steps);
        let new_texture = retexture(tile.texture);
        new_tiles.push(StampTile { dx: new_dx, dy: new_dy, texture: new_texture, height: tile.height });
        i = i + 1;
    }
    let mut new_objects: Vec<StampObject> = Vec::new();
    let mut j: usize = 0;
    while j < pattern.objects.len()
        invariant
            j <= pattern.objects@.len(),
            extent_x == extent_of(pattern.width),
            extent_y == extent_of(pattern.height),
            forall|k: int|
                0 <= k < pattern.objects@.len() ==> {
                    let (ox, oy, _) = #[trigger] pattern.objects@[k].spec_offset_dir();
                    offset_transform_fits(ox, oy, extent_x, extent_y, rot_steps, flip_x, flip_y)
                },
            new_objects@.len() == j,
            forall|k: int|
                0 <= k < j ==> {
                    let o = pattern.objects@[k];
                    let (ox, oy, dir) = o.spec_offset_dir();
                    let off = spec_transform_object_offset(
                        ox,
                        oy,
                        extent_x,
                        extent_y,
                        rot_steps,
                        flip_x,
                        flip_y,
                    );
                    #[trigger] new_objects@[k] == o.spec_moved(
                        off.0 as i32,
                        off.1 as i32,
                        spec_transform_object_direction(dir, rot_steps, flip_x, flip_y),
                    )
                },
        decreases pattern.objects@.len() - j,
    {
        let obj = &pattern.objects[j];
        let (ox, oy, dir) = obj.offset_dir();
        assert(pattern.objects@[j as int].spec_offset_dir() == (ox, oy, dir));
        let (new_ox, new_oy) = transform_object_offset(ox, oy, extent_x, extent_y, rot_steps, flip_x, flip_y);
        let new_dir = transform_object_direction(dir, rot_steps, flip_x, flip_y);
        let new_obj = match obj {
            StampObject::Structure { name, player, modules, .. } => StampObject::Structure {
                name: name.clone(),
                offset_x: new_ox,
                offset_y: new_oy,
                direction: new_dir,
                player: *player,
                modules: *modules,
            },
            StampObject::Droid { name, player, .. } => StampObject::Droid {
                name: name.clone(),
                offset_x: new_ox,
                offset_y: new_oy,
                direction: new_dir,
                player: *player,
            },
            StampObject::Feature { name, player, .. } => StampObject::Feature {
                name: name.clone(),
                offset_x: new_ox,
                offset_y: new_oy,
                direction: new_dir,
                player: *player,
            },
        };
        new_objects.push(new_obj);
        j = j + 1;
    }
    let (new_w, new_h) = if rot_steps % 2 == 1 {
        (h, w)
    } else {
        (w, h)
    };
    let r = StampPattern { width: new_w, height: new_h, tiles: new_tiles, objects: new_objects };
    proof {
        assert forall|k: int| 0 <= k < r.tiles@.len() implies (#[trigger] r.tiles@[k]).dx < r.width && r.tiles@[k].dy
            < r.height by {
            let t = pattern.tiles@[k];
            let fdx = if flip_x {
                (w - 1 - t.dx) as u32
            } else {
                t.dx
            };
            let fdy = if flip_y {
                (h - 1 - t.dy) as u32
            } else {
                t.dy
            };
            lemma_rotate_tile_pos_inside(fdx, fdy, w, h, rot_steps);
        }
    }
    r
}


/// `r` is `p` turned one clockwise quarter, as `transform_pattern` with one
/// step and no flips gives it (tile textures aside), from a pattern whose
/// object offsets that call accepts.
pub open spec fn turned_once(p: StampPattern, r: StampPattern) -> bool {
    &&& r.width == p.height
    &&& r.height == p.width
    &&& r.tiles@.len() == p.tiles@.len()
    &&& forall|i: int|
        0 <= i < r.tiles@.len() ==> {
            let t = p.tiles@[i];
            let n = #[trigger] r.tiles@[i];
            &&& (n.dx, n.dy) == transformed_tile_pos(t, p.width, p.height, 1, false, false)
            &&& n.height == t.height
        }
    &&& r.objects@.len() == p.objects@.len()
    &&& forall|i: int|
        0 <= i < r.objects@.len() ==> {
            let o = p.objects@[i];
            let (ox, oy, dir) = o.spec_offset_dir();
            let off = spec_transform_object_offset(ox, oy, extent_of(p.width), extent_of(p.height), 1, false, false);
            &&& offset_transform_fits(ox, oy, extent_of(p.width), extent_of(p.height), 1, false, false)
            &&& #[trigger] r.objects@[i] == o.spec_moved(off.0 as i32, off.1 as i32, spec_transform_object_direction(dir, 1, false, false))
        }
}

proof fn lemma_moved_twice(o: StampObject, a: (i32, i32, u16), b: (i32, i32, u16))
    ensures
        o.spec_moved(a.0, a.1, a.2).spec_moved(b.0, b.1, b.2) == o.spec_moved(b.0, b.1, b.2),
        o.spec_moved(a.0, a.1, a.2).spec_offset_dir() == a,
        o.spec_moved(o.spec_offset_dir().0, o.spec_offset_dir().1, o.spec_offset_dir().2) == o,
{
}

/// One object turned four quarters comes back to its offset and direction.
proof fn lemma_object_four_turns(o: StampObject, ex: i32, ey: i32)
    requires
        ({
            let (ox, oy, _) = o.spec_offset_dir();
            &&& fits_i32(ex - ox)
            &&& fits_i32(ey - oy)
        }),
    ensures
        ({
            let (ox, oy, d) = o.spec_offset_dir();
            let o1 = spec_transform_object_offset(ox, oy, ex, ey, 1, false, false);
            let o2 = spec_transform_object_offset(o1.0 as i32, o1.1 as i32, ey, ex, 1, false, false);
            let o3 = spec_transform_object_offset(o2.0 as i32, o2.1 as i32, ex, ey, 1, false, false);
            let o4 = spec_transform_object_offset(o3.0 as i32, o3.1 as i32, ey, ex, 1, false, false);
            let d1 = spec_transform_object_direction(d, 1, false, false);
            let d2 = spec_transform_object_direction(d1, 1, false, false);
            let d3 = spec_transform_object_direction(d2, 1, false, false);
            let d4 = spec_transform_object_direction(d3, 1, false, false);
            &&& (o4.0 as i32, o4.1 as i32) == (ox, oy)
            &&& d4 == d
        }),
{
    let (ox, oy, d) = o.spec_offset_dir();
    lemma_rotations_compose(d, 1, 1);
    lemma_rotations_compose(spec_rotate_direction(d, 2), 1, 1);
    lemma_rotations_compose(d, 2, 2);
}

/// Four clockwise quarter turns give the pattern back: its size, every
/// tile's position and height, and every object (offset, direction, name,
/// player and the rest) as they were. Tile textures are not covered: their
/// turning is the caller's `retexture` function.
pub proof fn lemma_pattern_four_quarter_turns(
    p0: StampPattern,
    p1: StampPattern,
    p2: StampPattern,
    p3: StampPattern,
    p4: StampPattern,
)
    requires
        p0.tiles_inside(),
        turned_once(p0, p1),
        turned_once(p1, p2),
        turned_once(p2, p3),
        turned_once(p3, p4),
    ensures
        p4.width == p0.width,
        p4.height == p0.height,
        p4.tiles@.len() == p0.tiles@.len(),
        forall|i: int|
            0 <= i < p4.tiles@.len() ==> (#[trigger] p4.tiles@[i]).dx == p0.tiles@[i].dx && p4.tiles@[i].dy
                == p0.tiles@[i].dy && p4.tiles@[i].height == p0.tiles@[i].height,
        p4.objects@ == p0.objects@,
{
    assert forall|i: int| 0 <= i < p4.tiles@.len() implies (#[trigger] p4.tiles@[i]).dx == p0.tiles@[i].dx
        && p4.tiles@[i].dy == p0.tiles@[i].dy && p4.tiles@[i].height == p0.tiles@[i].height by {
        let t0 = p0.tiles@[i];
        assert(p1.tiles@[i] == p1.tiles@[i]);
        assert(p2.tiles@[i] == p2.tiles@[i]);
        assert(p3.tiles@[i] == p3.tiles@[i]);
        lemma_four_quarter_turns(t0.dx, t0.dy, p0.width, p0.height);
    }
    assert forall|i: int| 0 <= i < p4.objects@.len() implies #[trigger] p4.objects@[i] == p0.objects@[i] by {
        let o0 = p0.objects@[i];
        let o1 = p1.objects@[i];
        let o2 = p2.objects@[i];
        let o3 = p3.objects@[i];
        let o4 = p4.objects@[i];
        let ex = extent_of(p0.width);
        let ey = extent_of(p0.height);
        lemma_object_four_turns(o0, ex, ey);
        let (ox, oy, d) = o0.spec_offset_dir();
        let a1 = spec_transform_object_offset(ox, oy, ex, ey, 1, false, false);
        let b1 = (a1.0 as i32, a1.1 as i32, spec_transform_object_direction(d, 1, false, false));
        lemma_moved_twice(o0, b1, b1);
        assert(o1.spec_offset_dir() == b1);
        let a2 = spec_transform_object_offset(b1.0, b1.1, ey, ex, 1, false, false);
        let b2 = (a2.0 as i32, a2.1 as i32, spec_transform_object_direction(b1.2, 1, false, false));
        lemma_moved_twice(o0, b1, b2);
        assert(o2 == o0.spec_moved(b2.0, b2.1, b2.2));
        lemma_moved_twice(o0, b2, b2);
        let a3 = spec_transform_object_offset(b2.0, b2.1, ex, ey, 1, false, false);
        let b3 = (a3.0 as i32, a3.1 as i32, spec_transform_object_direction(b2.2, 1, false, false));
        lemma_moved_twice(o0, b2, b3);
        assert(o3 == o0.spec_moved(b3.0, b3.1, b3.2));
        lemma_moved_twice(o0, b3, b3);
        let a4 = spec_transform_object_offset(b3.0, b3.1, ey, ex, 1, false, false);
        let b4 = (a4.0 as i32, a4.1 as i32, spec_transform_object_direction(b3.2, 1, false, false));
        lemma_moved_twice(o0, b3, b4);
        assert(o4 == o0.spec_moved(b4.0, b4.1, b4.2));
        lemma_moved_twice(o0, b4, b4);
        assert(b4 == (ox, oy, d));
    }
    assert(p4.objects@ =~= p0.objects@);
}

} // verus!
