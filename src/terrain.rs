use vstd::prelude::*;

verus! {

/// Kind of a single tile of the world.
#[derive(Clone, Copy, Debug, PartialEq, Eq, Structural)]
pub enum TerrainType {
    Air,
    Tunnel,
    Soil,
    SoilDense,
    Solid,
    Surface,
}

impl TerrainType {
    /// Agents and water may stand on these tiles.
    pub open spec fn passable_spec(self) -> bool {
        self == TerrainType::Air || self == TerrainType::Tunnel || self == TerrainType::Surface
    }

    /// Workers may dig these tiles.
    pub open spec fn diggable_spec(self) -> bool {
        self == TerrainType::Soil || self == TerrainType::SoilDense
    }

    /// Open space: air or a dug tunnel.
    pub open spec fn open_spec(self) -> bool {
        self == TerrainType::Air || self == TerrainType::Tunnel
    }

    pub fn is_passable_kind(self) -> (r: bool)
        ensures
            r == self.passable_spec(),
    {
        matches!(self, TerrainType::Air | TerrainType::Tunnel | TerrainType::Surface)
    }

    pub fn is_diggable_kind(self) -> (r: bool)
        ensures
            r == self.diggable_spec(),
    {
        matches!(self, TerrainType::Soil | TerrainType::SoilDense)
    }

    pub fn is_open_kind(self) -> (r: bool)
        ensures
            r == self.open_spec(),
    {
        matches!(self, TerrainType::Air | TerrainType::Tunnel)
    }
}

/// Row-major offset of an in-bounds cell lies inside a `w * h` grid.
pub proof fn lemma_cell_offset(x: int, y: int, w: int, h: int)
    requires
        0 <= x < w,
        0 <= y < h,
    ensures
        0 <= y * w + x < w * h,
{
    assert(y * w + x < w * h) by (nonlinear_arith)
        requires
            0 <= x < w,
            0 <= y < h,
    ;
    assert(0 <= y * w) by (nonlinear_arith)
        requires
            0 <= y,
            0 <= w,
    ;
}

/// A rectangular grid of tiles, stored row by row.
pub struct Terrain {
    pub width: usize,
    pub height: usize,
    pub tiles: Vec<TerrainType>,
}

impl Terrain {
    /// Tiles fill the grid, and every coordinate fits an `i32`.
    pub open spec fn wf(&self) -> bool {
        &&& self.tiles@.len() == self.width * self.height
        &&& self.width <= i32::MAX
        &&& self.height <= i32::MAX
    }

    pub open spec fn in_bounds(&self, x: int, y: int) -> bool {
        0 <= x < self.width && 0 <= y < self.height
    }

    pub open spec fn tile(&self, x: int, y: int) -> Option<TerrainType> {
        if self.in_bounds(x, y) {
            Some(self.tiles@[y * self.width + x])
        } else {
            None
        }
    }

    pub open spec fn passable(&self, x: int, y: int) -> bool {
        match self.tile(x, y) {
            Some(t) => t.passable_spec(),
            None => false,
        }
    }

    pub open spec fn diggable(&self, x: int, y: int) -> bool {
        match self.tile(x, y) {
            Some(t) => t.diggable_spec(),
            None => false,
        }
    }

    pub open spec fn is_open(&self, x: int, y: int) -> bool {
        match self.tile(x, y) {
            Some(t) => t.open_spec(),
            None => false,
        }
    }

    /// A grid of the given size, every tile of the given kind.
    pub fn filled(width: usize, height: usize, kind: TerrainType) -> (r: Terrain)
        requires
            width * height <= usize::MAX,
            width <= i32::MAX,
            height <= i32::MAX,
        ensures
            r.wf(),
            r.width == width,
            r.height == height,
            forall|x: int, y: int| r.in_bounds(x, y) ==> r.tile(x, y) == Some(kind),
    {
        let n: usize = width * height;
        let tiles = vec![kind; n];
        let r = Terrain { width, height, tiles };
        assert forall|x: int, y: int| r.in_bounds(x, y) implies r.tile(x, y) == Some(kind) by {
            lemma_cell_offset(x, y, width as int, height as int);
        }
        r
    }

    fn offset(&self, x: i32, y: i32) -> (r: Option<usize>)
        requires
            self.wf(),
        ensures
            r.is_some() == self.in_bounds(x as int, y as int),
            r.is_some() ==> r.unwrap() == y * self.width + x,
            r.is_some() ==> r.unwrap() < self.tiles@.len(),
    {
        let n = self.tiles.len();
        if x < 0 || y < 0 || x as usize >= self.width || y as usize >= self.height {
            return None;
        }
        proof {
            lemma_cell_offset(x as int, y as int, self.width as int, self.height as int);
        }
        Some(y as usize * self.width + x as usize)
    }

    /// The tile at (x, y), or `None` outside the grid.
    pub fn get(&self, x: i32, y: i32) -> (r: Option<TerrainType>)
        requires
            self.wf(),
        ensures
            r == self.tile(x as int, y as int),
    {
        match self.offset(x, y) {
            Some(i) => Some(self.tiles[i]),
            None => None,
        }
    }

    /// Replaces the tile at (x, y); writes outside the grid are ignored.
    pub fn set(&mut self, x: i32, y: i32, kind: TerrainType)
        requires
            old(self).wf(),
        ensures
            final(self).wf(),
            final(self).width == old(self).width,
            final(self).height == old(self).height,
            forall|a: int, b: int|
                #![trigger final(self).tile(a, b)]
                final(self).tile(a, b) == if a == x && b == y && old(self).in_bounds(a, b) {
                    Some(kind)
                } else {
                    old(self).tile(a, b)
                },
    {
        match self.offset(x, y) {
            Some(i) => {
                self.tiles.set(i, kind);
                proof {
                    assert forall|a: int, b: int| #![trigger self.tile(a, b)]
                        self.in_bounds(a, b) && !(a == x && b == y) implies self.tiles@[b
                        * self.width + a] == old(self).tiles@[b * self.width + a] by {
                        lemma_cell_offset(a, b, self.width as int, self.height as int);
                        if b * self.width + a == y * self.width + x {
                            lemma_offset_injective(a, b, x as int, y as int, self.width as int);
                        }
                    }
                }
            },
            None => {},
        }
    }

    pub fn is_passable(&self, x: i32, y: i32) -> (r: bool)
        requires
            self.wf(),
        ensures
            r == self.passable(x as int, y as int),
    {
        match self.get(x, y) {
            Some(t) => t.is_passable_kind(),
            None => false,
        }
    }

    pub fn is_diggable(&self, x: i32, y: i32) -> (r: bool)
        requires
            self.wf(),
        ensures
            r == self.diggable(x as int, y as int),
    {
        match self.get(x, y) {
            Some(t) => t.is_diggable_kind(),
            None => false,
        }
    }

    /// Air or tunnel at (x, y).
    pub fn is_open_at(&self, x: i32, y: i32) -> (r: bool)
        requires
            self.wf(),
        ensures
            r == self.is_open(x as int, y as int),
    {
        match self.get(x, y) {
            Some(t) => t.is_open_kind(),
            None => false,
        }
    }
}

/// Distinct in-bounds cells have distinct row-major offsets.
pub proof fn lemma_offset_injective(a: int, b: int, x: int, y: int, w: int)
    requires
        0 <= a < w,
        0 <= x < w,
        0 <= b,
        0 <= y,
        b * w + a == y * w + x,
    ensures
        a == x && b == y,
{
    if b < y {
        assert(b * w + a < y * w + x) by (nonlinear_arith)
            requires
                b < y,
                0 <= a < w,
                0 <= x,
        ;
    } else if b > y {
        assert(b * w + a > y * w + x) by (nonlinear_arith)
            requires
                b > y,
                0 <= x < w,
                0 <= a,
        ;
    }
}

} // verus!
