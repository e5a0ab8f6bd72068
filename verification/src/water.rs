//! Water tiles and the riverbed the game digs under them. At load the game
//! digs every interior water vertex hundreds of units down (its
//! `generateRiverbed`), with a jitter drawn from its Mersenne Twister
//! (standard MT19937); both are reproduced here so that the viewport shows
//! the same riverbed as the game for the same map.
use vstd::prelude::*;
use vstd::arithmetic::div_mod::{lemma_fundamental_div_mod, lemma_fundamental_div_mod_converse};
use crate::map_model::{MapData, MapTile, TerrainType, TerrainTypeData};
use crate::page_atlas::lemma_row_below;
use crate::render_diag::texture_number;

verus! {

/// Size of the generator state.
pub const MT_N: usize = 624;

/// State word `i` of a freshly seeded generator.
pub open spec fn mt_init_word(seed: u32, i: nat) -> u32
    decreases i,
{
    if i == 0 {
        seed
    } else {
        let prev = mt_init_word(seed, (i - 1) as nat);
        (0x6C07_8965u32).wrapping_mul(prev ^ (prev >> 30u32)).wrapping_add(i as u32)
    }
}

/// The state of a freshly seeded generator.
pub open spec fn mt_init(seed: u32) -> Seq<u32> {
    Seq::new(624, |i: int| mt_init_word(seed, i as nat))
}

/// Regenerate word `i` in place, from the words as they stand.
pub open spec fn twist_step(s: Seq<u32>, i: int) -> Seq<u32> {
    let v = (s[i] & 0x8000_0000u32) | (s[(i + 1) % 624] & 0x7FFF_FFFFu32);
    s.update(i, s[(i + 397) % 624] ^ (v >> 1u32) ^ ((v & 1u32) * 0x9908_B0DFu32) as u32)
}

/// The state after regenerating words `0..k` in order.
pub open spec fn twist_upto(s: Seq<u32>, k: int) -> Seq<u32>
    decreases k,
{
    if k <= 0 {
        s
    } else {
        twist_step(twist_upto(s, k - 1), k - 1)
    }
}

/// Output tempering of a state word.
pub open spec fn temper(x: u32) -> u32 {
    let y1 = x ^ (x >> 11u32);
    let y2 = y1 ^ ((y1 << 7u32) & 0x9D2C_5680u32);
    let y3 = y2 ^ ((y2 << 15u32) & 0xEFC6_0000u32);
    y3 ^ (y3 >> 18u32)
}

/// MT19937 random number generator.
pub struct MersenneTwister {
    state: Vec<u32>,
    offset: usize,
}

impl MersenneTwister {
    /// The state has its 624 words and the offset stays within them.
    pub closed spec fn wf(&self) -> bool {
        self.state@.len() == 624 && self.offset <= 624
    }

    /// The generator's state words.
    pub closed spec fn spec_state(&self) -> Seq<u32> {
        self.state@
    }

    /// How many words of the current state have been handed out.
    pub closed spec fn spec_offset(&self) -> nat {
        self.offset as nat
    }

    /// A generator seeded with `seed`.
    pub fn new(seed: u32) -> (r: Self)
        ensures
            r.wf(),
            r.spec_state() == mt_init(seed),
            r.spec_offset() == 624,
    {
        let mut state: Vec<u32> = Vec::new();
        state.push(seed);
        let mut i: usize = 1;
        while i < MT_N
            invariant
                1 <= i <= 624,
                state@.len() == i,
                forall|k: int| 0 <= k < i ==> #[trigger] state@[k] == mt_init_word(seed, k as nat),
            decreases 624 - i,
        {
            let prev = state[i - 1];
            let next = 0x6C07_8965u32.wrapping_mul(prev ^ (prev >> 30)).wrapping_add(i as u32);
            state.push(next);
            i = i + 1;
        }
        let r = MersenneTwister { state, offset: MT_N };
        assert(r.state@ =~= mt_init(seed));
        r
    }

    /// Regenerate the whole state and start handing out from its first word.
    pub fn generate(&mut self)
        requires
            old(self).wf(),
        ensures
            final(self).wf(),
            final(self).spec_state() == twist_upto(old(self).spec_state(), 624),
            final(self).spec_offset() == 0,
    {
        self.offset = 0;
        let mut i: usize = 0;
        while i < MT_N
            invariant
                i <= 624,
                self.state@.len() == 624,
                self.offset == 0,
                self.state@ == twist_upto(old(self).spec_state(), i as int),
            decreases 624 - i,
        {
            let v = (self.state[i] & 0x8000_0000) | (self.state[(i + 1) % MT_N] & 0x7FFF_FFFF);
            let low: u32 = v & 1;
            assert(low <= 1) by (bit_vector)
                requires
                    low == v & 1u32,
            ;
            let w = self.state[(i + 397) % MT_N] ^ (v >> 1) ^ (low * 0x9908_B0DF);
            self.state.set(i, w);
            i = i + 1;
        }
    }

    /// The next random word.
    pub fn u32(&mut self) -> (r: u32)
        requires
            old(self).wf(),
        ensures
            final(self).wf(),
            ({
                let s = if old(self).spec_offset() == 624 {
                    twist_upto(old(self).spec_state(), 624)
                } else {
                    old(self).spec_state()
                };
                let o = if old(self).spec_offset() == 624 {
                    0
                } else {
                    old(self).spec_offset()
                };
                &&& r == temper(s[o as int])
                &&& final(self).spec_state() == s
                &&& final(self).spec_offset() == o + 1
            }),
    {
        if self.offset == MT_N {
            self.generate();
        }
        let mut ret = self.state[self.offset];
        self.offset = self.offset + 1;
        ret = ret ^ (ret >> 11);
        ret = ret ^ ((ret << 7) & 0x9D2C_5680);
        ret = ret ^ ((ret << 15) & 0xEFC6_0000);
        ret = ret ^ (ret >> 18);
        ret
    }
}

/// Tile `(x, y)` of a `w` x `h` grid is water by the terrain-type table.
pub open spec fn water_tile(tiles: Seq<MapTile>, w: int, h: int, types: Seq<TerrainType>, x: int, y: int) -> bool {
    &&& 0 <= x < w
    &&& 0 <= y < h
    &&& texture_number(tiles[y * w + x].texture) < types.len()
    &&& types[texture_number(tiles[y * w + x].texture) as int] == TerrainType::Water
}

/// Vertex `(x, y)` (the top-left corner of tile `(x, y)`) is an interior
/// vertex whose four surrounding tiles are all water; only these are dug.
pub open spec fn water_vertex(tiles: Seq<MapTile>, w: int, h: int, types: Seq<TerrainType>, x: int, y: int) -> bool {
    &&& 1 <= x <= w - 1
    &&& 1 <= y <= h - 1
    &&& water_tile(tiles, w, h, types, x, y)
    &&& water_tile(tiles, w, h, types, x - 1, y)
    &&& water_tile(tiles, w, h, types, x, y - 1)
    &&& water_tile(tiles, w, h, types, x - 1, y - 1)
}

/// A map whose tile list fills its grid, small enough to index.
pub open spec fn map_ok(map: MapData) -> bool {
    &&& map.tiles@.len() == map.width as int * map.height as int
    &&& (map.width as int + 1) * (map.height as int + 1) <= usize::MAX
}

/// Whether tile `(tx, ty)` is water; a tile off the map, or whose texture
/// has no terrain type, is not.
pub fn is_water_tile(map: &MapData, terrain_types: &TerrainTypeData, tx: u32, ty: u32) -> (r: bool)
    requires
        map_ok(*map),
    ensures
        r == water_tile(map.tiles@, map.width as int, map.height as int, terrain_types.terrain_types@, tx as int, ty as int),
{
    proof {
        assert(map.width as int * map.height as int <= usize::MAX) by (nonlinear_arith)
            requires
                (map.width as int + 1) * (map.height as int + 1) <= usize::MAX,
        ;
    }
    match map.tile(tx, ty) {
        Some(t) => {
            let n = (t.texture & 0x01FF) as usize;
            if n < terrain_types.terrain_types.len() {
                match terrain_types.terrain_types[n] {
                    TerrainType::Water => true,
                    _ => false,
                }
            } else {
                false
            }
        },
        None => false,
    }
}

/// Whether vertex `(x, y)` is an interior vertex surrounded by water.
fn is_water_vertex(map: &MapData, terrain_types: &TerrainTypeData, x: u32, y: u32) -> (r: bool)
    requires
        map_ok(*map),
        x < map.width,
        y < map.height,
    ensures
        r == water_vertex(map.tiles@, map.width as int, map.height as int, terrain_types.terrain_types@, x as int, y as int),
{
    if x < 1 || y < 1 || x > map.width - 1 || y > map.height - 1 {
        return false;
    }
    is_water_tile(map, terrain_types, x, y) && is_water_tile(map, terrain_types, x - 1, y)
        && is_water_tile(map, terrain_types, x, y - 1) && is_water_tile(map, terrain_types, x - 1, y - 1)
}

/// `a - b`, or 0 when `b` is the larger.
pub open spec fn sat_sub(a: int, b: int) -> int {
    if a > b { a - b } else { 0 }
}

/// Every value of a riverbed grid lies in `0..=100`.
pub open spec fn grid_in_range(s: Seq<i32>) -> bool {
    forall|i: int| 0 <= i < s.len() ==> 0 <= #[trigger] s[i] <= 100
}

/// One cell of a smoothing pass over a grid `w` wide: a cell with a positive
/// value takes the floor of the mean of its four neighbours as they stand
/// (cells before it already smoothed), and the pass's running maximum
/// follows it.
pub open spec fn smooth_cell(st: (Seq<i32>, i32), w: int, i: int) -> (Seq<i32>, i32) {
    let s = st.0;
    if s[i] > 0 {
        let v = ((s[i - 1] + s[i - w] + s[i + w] + s[i + 1]) / 4) as i32;
        (s.update(i, v), if st.1 < v { v } else { st.1 })
    } else {
        st
    }
}

/// Row `y` smoothed from column 1 up to, not including, `x_end`.
pub open spec fn smooth_row(st: (Seq<i32>, i32), w: int, y: int, x_end: int) -> (Seq<i32>, i32)
    decreases x_end,
{
    if x_end <= 1 {
        st
    } else {
        smooth_cell(smooth_row(st, w, y, x_end - 1), w, y * w + x_end - 1)
    }
}

/// Rows 1 up to, not including, `y_end` smoothed, each over columns 1 to
/// `w - 3`.
pub open spec fn smooth_rows(st: (Seq<i32>, i32), w: int, y_end: int) -> (Seq<i32>, i32)
    decreases y_end,
{
    if y_end <= 1 {
        st
    } else {
        smooth_row(smooth_rows(st, w, y_end - 1), w, y_end - 1, sat_sub(w, 2))
    }
}

/// One in-place smoothing pass over a `w` x `h` grid, and the largest value
/// it wrote (at least 1). The band of two columns and rows at the right and
/// bottom is skipped, as the game skips it.
pub open spec fn smoothing_pass(s: Seq<i32>, w: int, h: int) -> (Seq<i32>, i32) {
    smooth_rows((s, 1i32), w, sat_sub(h, 2))
}

proof fn lemma_cell_inside(w: int, h: int, y: int, x: int)
    requires
        1 <= y < h - 2,
        1 <= x < w - 2,
    ensures
        0 <= y * w + x - w,
        y * w + x + w + 1 < w * h,
{
    assert(w <= y * w) by (nonlinear_arith)
        requires
            1 <= y,
            3 <= w,
    ;
    assert(y * w + w <= (h - 2) * w) by (nonlinear_arith)
        requires
            y + 1 <= h - 2,
            3 <= w,
    ;
    assert((h - 2) * w + w <= w * h) by (nonlinear_arith)
        requires
            3 <= w,
            3 <= h,
    ;
}

/// One smoothing pass, in place; returns the pass's maximum.
fn smooth_grid(idx: &mut Vec<i32>, w: usize, h: usize) -> (m: i32)
    requires
        old(idx)@.len() == w * h,
        w * h <= usize::MAX,
        grid_in_range(old(idx)@),
    ensures
        (final(idx)@, m) == smoothing_pass(old(idx)@, w as int, h as int),
        final(idx)@.len() == old(idx)@.len(),
        grid_in_range(final(idx)@),
        1 <= m <= 100,
{
    let ghost start = idx@;
    let mut m: i32 = 1;
    let ye: usize = if h > 2 { h - 2 } else { 0 };
    let xe: usize = if w > 2 { w - 2 } else { 0 };
    let mut y: usize = 1;
    while y < ye
        invariant
            1 <= y,
            y == 1 || y <= ye,
            ye as int == sat_sub(h as int, 2),
            xe as int == sat_sub(w as int, 2),
            idx@.len() == w * h,
            w * h <= usize::MAX,
            grid_in_range(idx@),
            1 <= m <= 100,
            smooth_rows((start, 1i32), w as int, y as int) == (idx@, m),
        decreases ye - y,
    {
        let ghost row_start = (idx@, m);
        let mut x: usize = 1;
        while x < xe
            invariant
                1 <= y < ye,
                1 <= x,
                x == 1 || x <= xe,
                ye as int == sat_sub(h as int, 2),
                xe as int == sat_sub(w as int, 2),
                idx@.len() == w * h,
                w * h <= usize::MAX,
                grid_in_range(idx@),
                1 <= m <= 100,
                smooth_row(row_start, w as int, y as int, x as int) == (idx@, m),
            decreases xe - x,
        {
            proof {
                lemma_cell_inside(w as int, h as int, y as int, x as int);
            }
            let i = y * w + x;
            let ghost before = (idx@, m);
            if idx[i] > 0 {
                let sum: u32 = idx[i - 1] as u32 + idx[i - w] as u32 + idx[i + w] as u32 + idx[i + 1] as u32;
                let v = (sum / 4) as i32;
                idx.set(i, v);
                if m < v {
                    m = v;
                }
            }
            proof {
                assert((idx@, m) == smooth_cell(before, w as int, i as int));
            }
            x = x + 1;
        }
        proof {
            if xe <= 1 {
                assert(x == 1);
            }
            assert(smooth_rows((start, 1i32), w as int, y as int + 1) == smooth_row(row_start, w as int, y as int, xe as int));
        }
        y = y + 1;
    }
    proof {
        if ye <= 1 {
            assert(y == 1);
        }
    }
    m
}

/// Smoothing passes, `done` of them already run: another pass runs unless
/// the last one's maximum was at most 90 or twenty passes have run. Gives
/// the grid and the last pass's maximum.
pub open spec fn settle(s: Seq<i32>, w: int, h: int, done: nat) -> (Seq<i32>, i32)
    decreases 20 - done,
{
    let (s2, m) = smoothing_pass(s, w, h);
    if m <= 90 || done + 1 >= 20 {
        (s2, m)
    } else {
        settle(s2, w, h, done + 1)
    }
}

/// The starting grid: 100 at every water vertex, 0 elsewhere.
pub open spec fn initial_grid(tiles: Seq<MapTile>, w: int, h: int, types: Seq<TerrainType>) -> Seq<i32> {
    Seq::new((w * h) as nat, |i: int| if water_vertex(tiles, w, h, types, i % w, i / w) { 100i32 } else { 0i32 })
}

/// A generator seeded with `seed` after handing out `n` words: its state and
/// offset.
pub open spec fn mt_after(seed: u32, n: nat) -> (Seq<u32>, nat)
    decreases n,
{
    if n == 0 {
        (mt_init(seed), 624)
    } else {
        let (s, o) = mt_after(seed, (n - 1) as nat);
        if o == 624 {
            (twist_upto(s, 624), 1)
        } else {
            (s, o + 1)
        }
    }
}

/// Word `n` (from 0) handed out by a generator seeded with `seed`.
pub open spec fn mt_word(seed: u32, n: nat) -> u32 {
    let (s, o) = mt_after(seed, n);
    if o == 624 {
        temper(twist_upto(s, 624)[0])
    } else {
        temper(s[o as int])
    }
}

/// Water vertices among the first `k` tiles in row-major order: how many
/// words the dig has drawn before tile `k`.
pub open spec fn water_before(tiles: Seq<MapTile>, w: int, h: int, types: Seq<TerrainType>, k: int) -> nat
    decreases k,
{
    if k <= 0 {
        0
    } else {
        water_before(tiles, w, h, types, k - 1) + if water_vertex(tiles, w, h, types, (k - 1) % w, (k - 1) / w) {
            1nat
        } else {
            0nat
        }
    }
}

/// Division rounding toward zero, as integer division does in the game.
pub open spec fn trunc_div(a: int, b: int) -> int {
    if a >= 0 { a / b } else { -((-a) / b) }
}

/// Depth dug at a water vertex with smoothed value `v`, when the smoothing
/// ended at maximum `m` and the jitter word is `word`: 500 at the deepest
/// point, rising toward 100 at the shore.
pub open spec fn dig_depth(v: i32, m: i32, word: u32) -> int {
    let vc = if v < 1 { 1 } else if v > m { m as int } else { v as int };
    let jitter = (word as int) % ((m as int) / 6 + 1);
    500 - trunc_div(401 * (m - vc - jitter), m as int)
}

/// The riverbed of a `w` x `h` map: for each vertex of the `(w + 1)` x
/// `(h + 1)` grid, row-major, how deep the game digs it; 0 where it does not.
pub open spec fn riverbed(tiles: Seq<MapTile>, w: int, h: int, types: Seq<TerrainType>) -> Seq<i32> {
    let (g, m) = settle(initial_grid(tiles, w, h, types), w, h, 0);
    Seq::new(((w + 1) * (h + 1)) as nat, |k: int| {
        let x = k % (w + 1);
        let y = k / (w + 1);
        if x < w && y < h && water_vertex(tiles, w, h, types, x, y) {
            dig_depth(g[y * w + x], m, mt_word(12345, water_before(tiles, w, h, types, y * w + x))) as i32
        } else {
            0i32
        }
    })
}

/// Depth dug at one water vertex; see [`dig_depth`].
fn dig_at(v: i32, m: i32, word: u32) -> (r: i32)
    requires
        0 <= v <= 100,
        1 <= m <= 100,
    ensures
        r as int == dig_depth(v, m, word),
{
    let vc: i32 = if v < 1 {
        1
    } else if v > m {
        m
    } else {
        v
    };
    let jitter = (word % (m as u32 / 6 + 1)) as i32;
    let l: i32 = 401 * (m - vc - jitter);
    let d: i32 = if l >= 0 {
        (l as u32 / m as u32) as i32
    } else {
        -(((-l) as u32 / m as u32) as i32)
    };
    500 - d
}

/// Smoothing passes until the maximum falls to 90 or twenty passes have
/// run; returns the last pass's maximum.
fn settle_grid(idx: &mut Vec<i32>, w: usize, h: usize) -> (m: i32)
    requires
        old(idx)@.len() == w * h,
        w * h <= usize::MAX,
        grid_in_range(old(idx)@),
    ensures
        (final(idx)@, m) == settle(old(idx)@, w as int, h as int, 0),
        final(idx)@.len() == old(idx)@.len(),
        grid_in_range(final(idx)@),
        1 <= m <= 100,
{
    let ghost start = idx@;
    let mut passes: usize = 0;
    let mut max_idx: i32 = 1;
    loop
        invariant_except_break
            passes < 20,
            settle(start, w as int, h as int, 0) == settle(idx@, w as int, h as int, passes as nat),
        invariant
            idx@.len() == w * h,
            w * h <= usize::MAX,
            grid_in_range(idx@),
            1 <= max_idx <= 100,
        ensures
            settle(start, w as int, h as int, 0) == (idx@, max_idx),
        decreases 20 - passes,
    {
        max_idx = smooth_grid(idx, w, h);
        passes = passes + 1;
        if max_idx <= 90 || passes >= 20 {
            break;
        }
    }
    max_idx
}

/// The starting grid, and whether the map has any water vertex at all.
fn water_grid(map: &MapData, terrain_types: &TerrainTypeData) -> (r: (Vec<i32>, bool))
    requires
        map_ok(*map),
    ensures
        r.0@ == initial_grid(map.tiles@, map.width as int, map.height as int, terrain_types.terrain_types@),
        r.1 == exists|i: int| 0 <= i < map.width * map.height && #[trigger] water_vertex(
            map.tiles@, map.width as int, map.height as int, terrain_types.terrain_types@, i % (map.width as int),
            i / (map.width as int)),
{
    let ghost (tiles, wi, hi, types) = (map.tiles@, map.width as int, map.height as int, terrain_types.terrain_types@);
    proof {
        assert(wi * hi <= usize::MAX) by (nonlinear_arith)
            requires
                (wi + 1) * (hi + 1) <= usize::MAX,
                wi >= 0,
                hi >= 0,
        ;
    }
    let w = map.width as usize;
    let n = w * map.height as usize;
    let mut grid: Vec<i32> = Vec::new();
    let mut any = false;
    let mut i: usize = 0;
    while i < n
        invariant
            i <= n,
            n == wi * hi,
            w == wi,
            map_ok(*map),
            tiles == map.tiles@ && wi == map.width && hi == map.height && types == terrain_types.terrain_types@,
            grid@.len() == i,
            forall|k: int| 0 <= k < i ==> #[trigger] grid@[k] == initial_grid(tiles, wi, hi, types)[k],
            any == exists|k: int| 0 <= k < i && #[trigger] water_vertex(tiles, wi, hi, types, k % wi, k / wi),
        decreases n - i,
    {
        let x = i % w;
        let y = i / w;
        proof {
            lemma_row_below(i as int, wi, hi);
        }
        let wv = is_water_vertex(map, terrain_types, x as u32, y as u32);
        grid.push(if wv { 100i32 } else { 0i32 });
        any = any || wv;
        i = i + 1;
    }
    proof {
        assert(grid@ =~= initial_grid(tiles, wi, hi, types));
    }
    (grid, any)
}

/// The riverbed with only the tiles before `i` (row-major) dug.
pub open spec fn dug_before(tiles: Seq<MapTile>, w: int, h: int, types: Seq<TerrainType>, g: Seq<i32>, m: i32, i: int) -> Seq<i32> {
    Seq::new(((w + 1) * (h + 1)) as nat, |k: int| {
        let x = k % (w + 1);
        let y = k / (w + 1);
        if x < w && y < h && y * w + x < i && water_vertex(tiles, w, h, types, x, y) {
            dig_depth(g[y * w + x], m, mt_word(12345, water_before(tiles, w, h, types, y * w + x))) as i32
        } else {
            0i32
        }
    })
}

/// Tile `(x, y)` of a grid `w` wide is tile `y * w + x`, and back.
proof fn lemma_tile_coords(w: int, h: int, x: int, y: int)
    requires
        0 <= x < w,
        0 <= y < h,
    ensures
        0 <= y * w + x < w * h,
        (y * w + x) % w == x,
        (y * w + x) / w == y,
        0 <= y * (w + 1) + x < (w + 1) * (h + 1),
        (y * (w + 1) + x) % (w + 1) == x,
        (y * (w + 1) + x) / (w + 1) == y,
{
    lemma_fundamental_div_mod_converse(y * w + x, w, y, x);
    lemma_fundamental_div_mod_converse(y * (w + 1) + x, w + 1, y, x);
    assert(0 <= y * w) by (nonlinear_arith)
        requires
            0 <= y,
            0 <= w,
    ;
    assert(y * w + x < w * h) by (nonlinear_arith)
        requires
            0 <= x < w,
            0 <= y < h,
    ;
    assert(0 <= y * (w + 1)) by (nonlinear_arith)
        requires
            0 <= y,
            0 <= w,
    ;
    assert(y * (w + 1) + x < (w + 1) * (h + 1)) by (nonlinear_arith)
        requires
            0 <= x < w,
            0 <= y < h,
    ;
}

/// How deep the game digs each vertex of the `(width + 1)` x `(height + 1)`
/// vertex grid, row-major: 0 except at interior vertices whose four tiles
/// are water. Water vertices start at 100 and are smoothed toward the shore;
/// the smoothed value, with a jitter from the game's generator seeded 12345,
/// sets a depth between about 100 at the shore and 500 mid-lake.
pub fn riverbed_depths(map: &MapData, terrain_types: &TerrainTypeData) -> (r: Vec<i32>)
    requires
        map_ok(*map),
    ensures
        r@ == riverbed(map.tiles@, map.width as int, map.height as int, terrain_types.terrain_types@),
{
    let ghost (tiles, wi, hi, types) = (map.tiles@, map.width as int, map.height as int, terrain_types.terrain_types@);
    let w = map.width as usize;
    let h = map.height as usize;
    proof {
        assert(hi + 1 <= (wi + 1) * (hi + 1)) by (nonlinear_arith)
            requires
                wi >= 0,
                hi >= 0,
        ;
        assert(wi + 1 <= (wi + 1) * (hi + 1)) by (nonlinear_arith)
            requires
                wi >= 0,
                hi >= 0,
        ;
    }
    let vw = w + 1;
    let total = vw * (h + 1);
    let mut out: Vec<i32> = Vec::new();
    let mut k: usize = 0;
    while k < total
        invariant
            k <= total,
            out@.len() == k,
            forall|j: int| 0 <= j < k ==> #[trigger] out@[j] == 0i32,
        decreases total - k,
    {
        out.push(0);
        k = k + 1;
    }
    proof {
        assert(wi * hi <= usize::MAX) by (nonlinear_arith)
            requires
                (wi + 1) * (hi + 1) <= usize::MAX,
                wi >= 0,
                hi >= 0,
        ;
        assert(out@ =~= dug_before(tiles, wi, hi, types, Seq::empty(), 1, 0));
    }
    let (mut idx, any_water) = water_grid(map, terrain_types);
    if !any_water {
        proof {
            let want = riverbed(tiles, wi, hi, types);
            assert forall|j: int| 0 <= j < want.len() implies want[j] == 0i32 by {
                let x = j % (wi + 1);
                let y = j / (wi + 1);
                if x < wi && y < hi && water_vertex(tiles, wi, hi, types, x, y) {
                    vstd::arithmetic::div_mod::lemma_mod_pos_bound(j, wi + 1);
                    vstd::arithmetic::div_mod::lemma_div_pos_is_pos(j, wi + 1);
                    lemma_tile_coords(wi, hi, x, y);
                    assert(water_vertex(tiles, wi, hi, types, (y * wi + x) % wi, (y * wi + x) / wi));
                }
            }
            assert(out@ =~= want);
        }
        return out;
    }
    let max_idx = settle_grid(&mut idx, w, h);
    let ghost g = idx@;
    let mut mt = MersenneTwister::new(12345);
    let n = w * h;
    let mut i: usize = 0;
    while i < n
        invariant
            i <= n,
            n == wi * hi,
            w == wi,
            vw == wi + 1,
            total == (wi + 1) * (hi + 1),
            map_ok(*map),
            tiles == map.tiles@ && wi == map.width && hi == map.height && types == terrain_types.terrain_types@,
            idx@ == g,
            g.len() == n,
            grid_in_range(g),
            1 <= max_idx <= 100,
            mt.wf(),
            (mt.spec_state(), mt.spec_offset()) == mt_after(12345, water_before(tiles, wi, hi, types, i as int)),
            out@ == dug_before(tiles, wi, hi, types, g, max_idx, i as int),
        decreases n - i,
    {
        assert(w > 0) by {
            if w == 0 {
                assert(wi * hi == 0) by (nonlinear_arith)
                    requires
                        wi == 0,
                ;
            }
        }
        let x = i % w;
        let y = i / w;
        proof {
            lemma_row_below(i as int, wi, hi);
            lemma_tile_coords(wi, hi, x as int, y as int);
            lemma_fundamental_div_mod(i as int, wi);
        }
        if is_water_vertex(map, terrain_types, x as u32, y as u32) {
            let word = mt.u32();
            let d = dig_at(idx[i], max_idx, word);
            out.set(y * vw + x, d);
        }
        proof {
            let next = dug_before(tiles, wi, hi, types, g, max_idx, i as int + 1);
            assert forall|j: int| 0 <= j < next.len() implies out@[j] == next[j] by {
                let xj = j % (wi + 1);
                let yj = j / (wi + 1);
                vstd::arithmetic::div_mod::lemma_mod_pos_bound(j, wi + 1);
                vstd::arithmetic::div_mod::lemma_div_pos_is_pos(j, wi + 1);
                if xj < wi && yj < hi {
                    lemma_tile_coords(wi, hi, xj, yj);
                    lemma_fundamental_div_mod(j, wi + 1);
                    if yj * wi + xj == i {
                        lemma_fundamental_div_mod_converse(i as int, wi, yj, xj);
                        assert(j == y * vw + x);
                    } else {
                        assert(j != y * vw + x);
                    }
                } else {
                    if j == y * vw + x {
                        assert(false);
                    }
                }
            }
            assert(out@ =~= next);
        }
        i = i + 1;
    }
    proof {
        let want = riverbed(tiles, wi, hi, types);
        assert forall|j: int| 0 <= j < want.len() implies out@[j] == want[j] by {
            let xj = j % (wi + 1);
            let yj = j / (wi + 1);
            vstd::arithmetic::div_mod::lemma_mod_pos_bound(j, wi + 1);
            vstd::arithmetic::div_mod::lemma_div_pos_is_pos(j, wi + 1);
            if xj < wi && yj < hi {
                lemma_tile_coords(wi, hi, xj, yj);
            }
        }
        assert(out@ =~= want);
    }
    out
}

/// A smoothing pass's running maximum only grows.
proof fn lemma_smooth_row_max(st: (Seq<i32>, i32), w: int, y: int, x_end: int)
    ensures
        smooth_row(st, w, y, x_end).1 >= st.1,
    decreases x_end,
{
    if x_end > 1 {
        lemma_smooth_row_max(st, w, y, x_end - 1);
    }
}

proof fn lemma_smooth_rows_max(st: (Seq<i32>, i32), w: int, y_end: int)
    ensures
        smooth_rows(st, w, y_end).1 >= st.1,
    decreases y_end,
{
    if y_end > 1 {
        lemma_smooth_rows_max(st, w, y_end - 1);
        lemma_smooth_row_max(smooth_rows(st, w, y_end - 1), w, y_end - 1, sat_sub(w, 2));
    }
}

/// The maximum the smoothing ends with is at least 1.
proof fn lemma_settle_max(s: Seq<i32>, w: int, h: int, done: nat)
    ensures
        settle(s, w, h, done).1 >= 1,
    decreases 20 - done,
{
    lemma_smooth_rows_max((s, 1i32), w, sat_sub(h, 2));
    let (s2, m) = smoothing_pass(s, w, h);
    if !(m <= 90 || done + 1 >= 20) {
        lemma_settle_max(s2, w, h, done + 1);
    }
}

/// Every dug depth lies between 100 and 566 world units, whatever the
/// smoothed value and the jitter.
proof fn lemma_dig_depth_bounds(v: i32, m: i32, word: u32)
    requires
        m >= 1,
    ensures
        100 <= dig_depth(v, m, word) <= 566,
{
    let vc = if v < 1 { 1 } else if v > m { m as int } else { v as int };
    let jitter = (word as int) % ((m as int) / 6 + 1);
    vstd::arithmetic::div_mod::lemma_mod_pos_bound(word as int, (m as int) / 6 + 1);
    let t = m - vc - jitter;
    let mi = m as int;
    if t >= 0 {
        let a = 401 * t;
        let q = a / mi;
        lemma_fundamental_div_mod(a, mi);
        vstd::arithmetic::div_mod::lemma_mod_pos_bound(a, mi);
        assert(q <= 400) by (nonlinear_arith)
            requires
                a == mi * q + a % mi,
                0 <= a % mi,
                a == 401 * t,
                t <= mi - 1,
                mi >= 1,
        ;
        assert(q >= 0) by {
            vstd::arithmetic::div_mod::lemma_div_pos_is_pos(a, mi);
        }
    } else {
        let a = -401 * t;
        let q = a / mi;
        lemma_fundamental_div_mod(a, mi);
        vstd::arithmetic::div_mod::lemma_mod_pos_bound(a, mi);
        assert(6 * (mi / 6) <= mi) by {
            lemma_fundamental_div_mod(mi, 6);
        }
        assert(q <= 66) by (nonlinear_arith)
            requires
                a == mi * q + a % mi,
                0 <= a % mi,
                a == -401 * t,
                -t <= mi / 6,
                6 * (mi / 6) <= mi,
                mi >= 1,
        ;
        assert(q >= 0) by {
            vstd::arithmetic::div_mod::lemma_div_pos_is_pos(a, mi);
        }
    }
}

/// Only interior vertices surrounded by water are dug, and each dug vertex
/// lies between 100 and 566 world units down.
pub proof fn lemma_riverbed_digs_only_water(tiles: Seq<MapTile>, w: int, h: int, types: Seq<TerrainType>, k: int)
    requires
        w >= 0,
        h >= 0,
        0 <= k < (w + 1) * (h + 1),
    ensures
        riverbed(tiles, w, h, types)[k] == 0 || {
            &&& water_vertex(tiles, w, h, types, k % (w + 1), k / (w + 1))
            &&& 100 <= riverbed(tiles, w, h, types)[k] <= 566
        },
{
    let (g, m) = settle(initial_grid(tiles, w, h, types), w, h, 0);
    lemma_settle_max(initial_grid(tiles, w, h, types), w, h, 0);
    let x = k % (w + 1);
    let y = k / (w + 1);
    if x < w && y < h && water_vertex(tiles, w, h, types, x, y) {
        lemma_dig_depth_bounds(g[y * w + x], m, mt_word(12345, water_before(tiles, w, h, types, y * w + x)));
    }
}

} // verus!
