//! The editable map document: terrain tiles, gateways, placed objects and
//! script labels, with a mathematical view used by every edit command.
use vstd::prelude::*;

verus! {

/// World units per tile edge.
pub const TILE_UNITS: u32 = 128;

/// A position in world units.
#[derive(Debug, Clone, Copy, PartialEq, Eq)]
pub struct WorldPos {
    pub x: u32,
    pub y: u32,
}

/// A placed structure.
#[derive(Debug)]
pub struct Structure {
    pub name: String,
    pub position: WorldPos,
    pub direction: u16,
    pub player: i8,
    pub modules: u8,
    pub id: Option<u32>,
}

/// A placed droid.
#[derive(Debug)]
pub struct Droid {
    pub name: String,
    pub position: WorldPos,
    pub direction: u16,
    pub player: i8,
    pub id: Option<u32>,
}

/// A placed feature (trees, oil resources, ...).
#[derive(Debug)]
pub struct Feature {
    pub name: String,
    pub position: WorldPos,
    pub direction: u16,
    pub id: Option<u32>,
    pub player: Option<i8>,
}

impl Clone for Structure {
    fn clone(&self) -> (r: Self)
        ensures
            r == *self,
    {
        Structure {
            name: self.name.clone(),
            position: self.position,
            direction: self.direction,
            player: self.player,
            modules: self.modules,
            id: self.id,
        }
    }
}

impl Clone for Droid {
    fn clone(&self) -> (r: Self)
        ensures
            r == *self,
    {
        Droid {
            name: self.name.clone(),
            position: self.position,
            direction: self.direction,
            player: self.player,
            id: self.id,
        }
    }
}

impl Clone for Feature {
    fn clone(&self) -> (r: Self)
        ensures
            r == *self,
    {
        Feature {
            name: self.name.clone(),
            position: self.position,
            direction: self.direction,
            id: self.id,
            player: self.player,
        }
    }
}

/// A named script label: a single point or a rectangle, in world units.
#[derive(Debug)]
pub enum ScriptLabel {
    Position { label: String, pos: [u32; 2] },
    Area { label: String, pos1: [u32; 2], pos2: [u32; 2] },
}

impl Clone for ScriptLabel {
    fn clone(&self) -> (r: Self)
        ensures
            r == *self,
    {
        match self {
            ScriptLabel::Position { label, pos } => ScriptLabel::Position {
                label: label.clone(),
                pos: *pos,
            },
            ScriptLabel::Area { label, pos1, pos2 } => ScriptLabel::Area {
                label: label.clone(),
                pos1: *pos1,
                pos2: *pos2,
            },
        }
    }
}

impl ScriptLabel {
    /// A point label at `(x, y)`.
    pub fn new_position(label: String, x: u32, y: u32) -> (r: Self)
        ensures
            r == (ScriptLabel::Position { label, pos: [x, y] }),
    {
        ScriptLabel::Position { label, pos: [x, y] }
    }

    /// A rectangle label spanning `(x1, y1)` to `(x2, y2)`.
    pub fn new_area(label: String, x1: u32, y1: u32, x2: u32, y2: u32) -> (r: Self)
        ensures
            r == (ScriptLabel::Area { label, pos1: [x1, y1], pos2: [x2, y2] }),
    {
        ScriptLabel::Area { label, pos1: [x1, y1], pos2: [x2, y2] }
    }

    pub open spec fn spec_center(&self) -> WorldPos {
        match self {
            ScriptLabel::Position { pos, .. } => WorldPos { x: pos[0], y: pos[1] },
            ScriptLabel::Area { pos1, pos2, .. } => WorldPos {
                x: ((pos1[0] + pos2[0]) / 2) as u32,
                y: ((pos1[1] + pos2[1]) / 2) as u32,
            },
        }
    }

    /// The label's anchor: the point itself, or the midpoint of the rectangle.
    pub fn center(&self) -> (r: WorldPos)
        ensures
            r == self.spec_center(),
    {
        match self {
            ScriptLabel::Position { pos, .. } => WorldPos { x: pos[0], y: pos[1] },
            ScriptLabel::Area { pos1, pos2, .. } => {
                let x = ((pos1[0] as u64 + pos2[0] as u64) / 2) as u32;
                let y = ((pos1[1] as u64 + pos2[1] as u64) / 2) as u32;
                WorldPos { x, y }
            },
        }
    }
}

/// A gateway rectangle in tile coordinates.
#[derive(Debug, Clone, Copy, PartialEq, Eq)]
pub struct Gateway {
    pub x1: u8,
    pub y1: u8,
    pub x2: u8,
    pub y2: u8,
}

/// One terrain tile: height and packed texture word.
#[derive(Debug, Clone, Copy, PartialEq, Eq)]
pub struct MapTile {
    pub height: u16,
    pub texture: u16,
}

/// What a tile texture is made of, from the tileset's terrain-type table;
/// the game keys footprints, tracks and water on it.
#[derive(Debug, Clone, Copy, PartialEq, Eq, Structural)]
pub enum TerrainType {
    Sand,
    SandyBrush,
    BakedEarth,
    GreenMud,
    RedBrush,
    PinkRock,
    Road,
    Water,
    CliffFace,
    Rubble,
    SheetIce,
    Slush,
}

/// A tileset's terrain-type table: the terrain type of each texture number.
#[derive(Debug)]
pub struct TerrainTypeData {
    pub terrain_types: Vec<TerrainType>,
}

/// Terrain grid plus gateways. Tiles are stored row-major.
#[derive(Debug)]
pub struct MapData {
    pub width: u32,
    pub height: u32,
    pub tiles: Vec<MapTile>,
    pub gateways: Vec<Gateway>,
}

/// A whole map document.
#[derive(Debug)]
pub struct WzMap {
    pub map_data: MapData,
    pub structures: Vec<Structure>,
    pub droids: Vec<Droid>,
    pub features: Vec<Feature>,
    pub labels: Vec<(String, ScriptLabel)>,
}

/// The mathematical content of a [`WzMap`].
#[verifier::ext_equal]
pub struct MapModel {
    pub width: u32,
    pub height: u32,
    pub tiles: Seq<MapTile>,
    pub gateways: Seq<Gateway>,
    pub structures: Seq<Structure>,
    pub droids: Seq<Droid>,
    pub features: Seq<Feature>,
    pub labels: Seq<(String, ScriptLabel)>,
}

impl View for WzMap {
    type V = MapModel;

    open spec fn view(&self) -> MapModel {
        MapModel {
            width: self.map_data.width,
            height: self.map_data.height,
            tiles: self.map_data.tiles@,
            gateways: self.map_data.gateways@,
            structures: self.structures@,
            droids: self.droids@,
            features: self.features@,
            labels: self.labels@,
        }
    }
}

/// Row-major index of tile `(x, y)` in a grid `width` tiles wide.
pub open spec fn tile_index(width: u32, x: u32, y: u32) -> int {
    y as int * width as int + x as int
}

impl MapModel {
    /// The tile grid has exactly `width * height` tiles.
    pub open spec fn grid_ok(self) -> bool {
        self.tiles.len() == self.width as int * self.height as int
    }

    /// Whether `(x, y)` addresses a tile of the grid.
    pub open spec fn in_grid(self, x: u32, y: u32) -> bool {
        x < self.width && y < self.height
    }
}

impl MapData {
    /// An all-zero `width x height` grid with no gateways.
    pub fn new(width: u32, height: u32) -> (r: Self)
        requires
            width as int * height as int <= usize::MAX,
        ensures
            r.width == width,
            r.height == height,
            r.tiles@.len() == width as int * height as int,
            forall|i: int| 0 <= i < r.tiles@.len() ==> r.tiles@[i] == (MapTile { height: 0, texture: 0 }),
            r.gateways@.len() == 0,
    {
        let n: usize = (width as u64 * height as u64) as usize;
        let mut tiles: Vec<MapTile> = Vec::new();
        let mut i: usize = 0;
        while i < n
            invariant
                i <= n,
                tiles@.len() == i,
                forall|j: int| 0 <= j < i ==> tiles@[j] == (MapTile { height: 0, texture: 0 }),
            decreases n - i,
        {
            tiles.push(MapTile { height: 0, texture: 0 });
            i = i + 1;
        }
        MapData { width, height, tiles, gateways: Vec::new() }
    }

    /// Tile at `(x, y)`, or `None` outside the grid.
    pub fn tile(&self, x: u32, y: u32) -> (r: Option<MapTile>)
        requires
            self.tiles@.len() == self.width as int * self.height as int,
        ensures
            r == (if x < self.width && y < self.height {
                Some(self.tiles@[tile_index(self.width, x, y)])
            } else {
                None
            }),
    {
        if x < self.width && y < self.height {
            let _n = self.tiles.len();
            let i = grid_index(self.width, self.height, x, y);
            Some(self.tiles[i])
        } else {
            None
        }
    }
}

/// Every in-grid tile index lies inside the row-major grid.
pub proof fn lemma_tile_index_bound(width: u32, height: u32, x: u32, y: u32)
    requires
        x < width,
        y < height,
    ensures
        0 <= tile_index(width, x, y) < width as int * height as int,
        0 <= (y as int) * (width as int) <= 0xFFFF_FFFF * 0xFFFF_FFFF,
{
    assert((y as int) * (width as int) + (x as int) < (width as int) * (height as int)) by (nonlinear_arith)
        requires
            x < width,
            y < height,
    ;
    assert(0 <= (y as int) * (width as int)) by (nonlinear_arith);
    assert((y as int) * (width as int) <= 0xFFFF_FFFF * 0xFFFF_FFFF) by (nonlinear_arith)
        requires
            y <= 0xFFFF_FFFF,
            width <= 0xFFFF_FFFF,
    ;
}

/// Row-major index of an in-grid tile, computed without overflow.
pub fn grid_index(width: u32, height: u32, x: u32, y: u32) -> (r: usize)
    requires
        x < width,
        y < height,
        width as int * height as int <= usize::MAX,
    ensures
        r as int == tile_index(width, x, y),
        r < width as int * height as int,
{
    proof {
        lemma_tile_index_bound(width, height, x, y);
    }
    let row: u64 = y as u64 * width as u64;
    (row + x as u64) as usize
}

impl WzMap {
    /// An empty `width x height` map.
    pub fn new(width: u32, height: u32) -> (r: Self)
        requires
            width as int * height as int <= usize::MAX,
        ensures
            r@.width == width,
            r@.height == height,
            r@.grid_ok(),
            forall|i: int| 0 <= i < r@.tiles.len() ==> r@.tiles[i] == (MapTile { height: 0, texture: 0 }),
            r@.gateways.len() == 0,
            r@.structures.len() == 0,
            r@.droids.len() == 0,
            r@.features.len() == 0,
            r@.labels.len() == 0,
    {
        WzMap {
            map_data: MapData::new(width, height),
            structures: Vec::new(),
            droids: Vec::new(),
            features: Vec::new(),
            labels: Vec::new(),
        }
    }
}

} // verus!
