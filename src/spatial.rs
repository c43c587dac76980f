use vstd::prelude::*;

verus! {

/// An indexed agent: its handle, position and colony.
pub type SpatialEntry = (u64, i32, i32, u8);

/// Bucket grid over agent positions, rebuilt every tick.
pub struct SpatialGrid {
    pub cells: Vec<Vec<SpatialEntry>>,
    pub width: usize,
    pub height: usize,
    pub cell_size: i32,
}

impl SpatialGrid {
    pub open spec fn wf(&self) -> bool {
        &&& self.cells@.len() == self.width * self.height
        &&& self.cell_size > 0
    }

    /// Bucket coordinate of a tile coordinate.
    pub open spec fn cell_coord(&self, v: int) -> int {
        v / (self.cell_size as int)
    }

    /// The bucket that a point with non-negative coordinates falls in, if inside.
    pub open spec fn bucket_of(&self, x: int, y: int) -> int {
        (self.cell_coord(y as int)) * self.width + self.cell_coord(x as int)
    }

    pub open spec fn covers(&self, x: int, y: int) -> bool {
        &&& 0 <= x
        &&& 0 <= y
        &&& self.cell_coord(x as int)  < self.width
        &&& self.cell_coord(y as int)  < self.height
    }

    /// `e` is stored in the bucket of its own position.
    pub open spec fn holds(&self, e: SpatialEntry) -> bool {
        &&& self.covers(e.1 as int, e.2 as int)
        &&& self.cells@[self.bucket_of(e.1 as int, e.2 as int)]@.contains(e)
    }

    /// A grid for a world of the given size, with buckets of `cell_size` tiles.
    pub fn new(world_width: usize, world_height: usize, cell_size: i32) -> (r: SpatialGrid)
        requires
            cell_size > 0,
            world_width <= i32::MAX,
            world_height <= i32::MAX,
            ((world_width as int) / (cell_size as int) + 1) * ((world_height as int) / (cell_size as int) + 1) <= usize::MAX,
        ensures
            r.wf(),
            r.cell_size == cell_size,
            r.width == (world_width as int) / (cell_size as int) + 1,
            r.height == (world_height as int) / (cell_size as int) + 1,
            forall|e: SpatialEntry| !r.holds(e),
    {
        let width: usize = world_width / (cell_size as usize) + 1;
        let height: usize = world_height / (cell_size as usize) + 1;
        let n: usize = width * height;
        let mut cells: Vec<Vec<SpatialEntry>> = Vec::new();
        let mut i: usize = 0;
        while i < n
            invariant
                i <= n,
                cells@.len() == i,
                forall|j: int| 0 <= j < i ==> (#[trigger] cells@[j])@.len() == 0,
            decreases n - i,
        {
            cells.push(Vec::new());
            i = i + 1;
        }
        let r = SpatialGrid { cells, width, height, cell_size };
        proof {
            assert forall|e: SpatialEntry| !r.holds(e) by {
                if r.covers(e.1 as int, e.2 as int) {
                    lemma_bucket_in_range(&r, e.1 as int, e.2 as int);
                    assert(r.cells@[r.bucket_of(e.1 as int, e.2 as int)]@.len() == 0);
                }
            }
        }
        r
    }

    /// Empties every bucket.
    pub fn clear(&mut self)
        requires
            old(self).wf(),
        ensures
            final(self).wf(),
            final(self).width == old(self).width,
            final(self).height == old(self).height,
            final(self).cell_size == old(self).cell_size,
            forall|e: SpatialEntry| !final(self).holds(e),
    {
        let n = self.cells.len();
        let mut i: usize = 0;
        while i < n
            invariant
                self.wf(),
                self.width == old(self).width,
                self.height == old(self).height,
                self.cell_size == old(self).cell_size,
                n == self.cells@.len(),
                i <= n,
                forall|j: int| 0 <= j < i ==> (#[trigger] self.cells@[j])@.len() == 0,
            decreases n - i,
        {
            self.cells.set(i, Vec::new());
            i = i + 1;
        }
        proof {
            assert forall|e: SpatialEntry| !self.holds(e) by {
                if self.covers(e.1 as int, e.2 as int) {
                    lemma_bucket_in_range(self, e.1 as int, e.2 as int);
                    assert(self.cells@[self.bucket_of(e.1 as int, e.2 as int)]@.len() == 0);
                }
            }
        }
    }

    fn bucket(&self, x: i32, y: i32) -> (r: Option<usize>)
        requires
            self.wf(),
        ensures
            r.is_some() == self.covers(x as int, y as int),
            r.is_some() ==> r.unwrap() == self.bucket_of(x as int, y as int),
            r.is_some() ==> r.unwrap() < self.cells@.len(),
    {
        let n = self.cells.len();
        if x < 0 || y < 0 {
            return None;
        }
        let cx = (x / self.cell_size) as usize;
        let cy = (y / self.cell_size) as usize;
        if cx >= self.width || cy >= self.height {
            return None;
        }
        proof {
            crate::terrain::lemma_cell_offset(cx as int, cy as int, self.width as int, self.height as int);
        }
        Some(cy * self.width + cx)
    }

    /// Files an agent under the bucket of its position; points outside are ignored.
    pub fn insert(&mut self, entity: u64, x: i32, y: i32, colony_id: u8)
        requires
            old(self).wf(),
        ensures
            final(self).wf(),
            final(self).width == old(self).width,
            final(self).height == old(self).height,
            final(self).cell_size == old(self).cell_size,
            old(self).covers(x as int, y as int) ==> final(self).holds((entity, x, y, colony_id)),
            forall|e: SpatialEntry| old(self).holds(e) ==> final(self).holds(e),
    {
        match self.bucket(x, y) {
            Some(i) => {
                let ghost before = self.cells@;
                self.cells[i].push((entity, x, y, colony_id));
                proof {
                    let last = self.cells@[i as int]@.len() - 1;
                    assert(self.cells@[i as int]@[last] == (entity, x, y, colony_id));
                    assert forall|e: SpatialEntry| old(self).holds(e) implies #[trigger] self.holds(e) by {
                        let b = self.bucket_of(e.1 as int, e.2 as int);
                        lemma_bucket_in_range(self, e.1 as int, e.2 as int);
                        let k = choose|k: int| 0 <= k < before[b]@.len() && before[b]@[k] == e;
                        if b == i {
                            assert(self.cells@[b]@[k] == e);
                        } else {
                            assert(self.cells@[b] == before[b]);
                        }
                    }
                }
            },
            None => {},
        }
    }

    /// `e` is filed in a bucket of the 3x3 block around the bucket of (x, y).
    pub open spec fn in_block(&self, e: SpatialEntry, x: int, y: int) -> bool {
        exists|bx: int, by: int|
            -1 <= bx - self.cell_coord(x) <= 1 && -1 <= by - self.cell_coord(y) <= 1 && 0 <= bx < self.width && 0 <= by
                < self.height && (#[trigger] self.cells@[by * self.width + bx])@.contains(e)
    }

    /// Contents of bucket (bx, by), or nothing outside the grid.
    pub open spec fn bucket_at(&self, bx: int, by: int) -> Seq<SpatialEntry> {
        if 0 <= bx < self.width && 0 <= by < self.height {
            self.cells@[by * self.width + bx]@
        } else {
            Seq::empty()
        }
    }

    /// The first `k` buckets of the 3x3 block around bucket (cx, cy), row by row
    /// from the top left, one after the other.
    pub open spec fn block_upto(&self, cx: int, cy: int, k: int) -> Seq<SpatialEntry>
        decreases k,
    {
        if k <= 0 {
            Seq::empty()
        } else {
            self.block_upto(cx, cy, k - 1) + self.bucket_at(cx + (k - 1) % 3 - 1, cy + (k - 1) / 3 - 1)
        }
    }

    /// Every agent filed in the 3x3 block of buckets around the bucket of (x, y).
    pub fn query_nearby(&self, x: i32, y: i32) -> (r: Vec<SpatialEntry>)
        requires
            self.wf(),
        ensures
            forall|e: SpatialEntry|
                self.holds(e) && self.covers(x as int, y as int)
                && -1 <= self.cell_coord(e.1 as int) - self.cell_coord(x as int) <= 1
                && -1 <= self.cell_coord(e.2 as int) - self.cell_coord(y as int) <= 1
                ==> r@.contains(e),
        forall|i: int| 0 <= i < r@.len() ==> self.in_block(#[trigger] r@[i], x as int, y as int),
        x >= 0 && y >= 0 ==> r@ == self.block_upto(self.cell_coord(x as int), self.cell_coord(y as int), 9),
        x < 0 || y < 0 ==> r@.len() == 0,
    {
        let mut results: Vec<SpatialEntry> = Vec::new();
        if x < 0 || y < 0 {
            return results;
        }
        let cx = (x / self.cell_size) as i64;
        let cy = (y / self.cell_size) as i64;
        let n = self.cells.len();
        let mut dy: i64 = -1;
        while dy <= 1
            invariant
                self.wf(),
                -1 <= dy <= 2,
                0 <= x, 0 <= y,
                cx == self.cell_coord(x as int),
                cy == self.cell_coord(y as int),
                n == self.cells@.len(),
                forall|e: SpatialEntry|
                    self.holds(e) && -1 <= self.cell_coord(e.1 as int) - cx <= 1
                    && -1 <= self.cell_coord(e.2 as int) - cy < dy
                    ==> results@.contains(e),
                forall|i: int| 0 <= i < results@.len() ==> self.in_block(#[trigger] results@[i], x as int, y as int),
                results@ == self.block_upto(cx as int, cy as int, (dy + 1) * 3),
            decreases 2 - dy,
        {
            let mut dx: i64 = -1;
            while dx <= 1
                invariant
                    self.wf(),
                    -1 <= dy <= 1,
                    -1 <= dx <= 2,
                    0 <= x, 0 <= y,
                    cx == self.cell_coord(x as int),
                    cy == self.cell_coord(y as int),
                    n == self.cells@.len(),
                    forall|e: SpatialEntry|
                        self.holds(e) && -1 <= self.cell_coord(e.1 as int) - cx <= 1
                        && -1 <= self.cell_coord(e.2 as int) - cy < dy
                        ==> results@.contains(e),
                    forall|e: SpatialEntry|
                        self.holds(e) && -1 <= self.cell_coord(e.1 as int) - cx < dx
                        && self.cell_coord(e.2 as int) - cy == dy
                        ==> results@.contains(e),
                    forall|i: int| 0 <= i < results@.len() ==> self.in_block(#[trigger] results@[i], x as int, y as int),
                    results@ == self.block_upto(cx as int, cy as int, (dy + 1) * 3 + dx + 1),
                decreases 2 - dx,
            {
                let nx = cx + dx;
                let ny = cy + dy;
                let ghost kk = (dy + 1) * 3 + dx + 1;
                let ghost start = results@;
                proof {
                    vstd::arithmetic::div_mod::lemma_fundamental_div_mod_converse(kk, 3, dy + 1, dx + 1);
                    assert(self.block_upto(cx as int, cy as int, kk + 1) == start + self.bucket_at(nx as int, ny as int));
                }
                if nx >= 0 && ny >= 0 && (nx as usize) < self.width && (ny as usize) < self.height {
                    proof {
                        crate::terrain::lemma_cell_offset(nx as int, ny as int, self.width as int, self.height as int);
                    }
                    let idx = ny as usize * self.width + nx as usize;
                    let ghost before = results@;
                    let bucket = &self.cells[idx];
                    let mut k: usize = 0;
                    while k < bucket.len()
                        invariant
                            k <= bucket@.len(),
                            results@.len() == before.len() + k,
                            forall|j: int| 0 <= j < before.len() ==> results@[j] == before[j],
                            forall|j: int| 0 <= j < k ==> results@[before.len() + j] == bucket@[j],
                            forall|i: int| 0 <= i < before.len() ==> self.in_block(#[trigger] before[i], x as int, y as int),
                            bucket == self.cells@[ny * self.width + nx],
                            -1 <= nx - cx <= 1 && -1 <= ny - cy <= 1 && 0 <= nx < self.width && 0 <= ny < self.height,
                            cx == self.cell_coord(x as int),
                            cy == self.cell_coord(y as int),
                            forall|i: int| 0 <= i < results@.len() ==> self.in_block(#[trigger] results@[i], x as int, y as int),
                        decreases bucket@.len() - k,
                    {
                        results.push(bucket[k]);
                        proof {
                            let e = bucket@[k as int];
                            assert(bucket@.contains(e));
                            assert(self.in_block(e, x as int, y as int));
                        }
                        k = k + 1;
                    }
                    proof {
                        assert forall|e: SpatialEntry| before.contains(e) implies results@.contains(e) by {
                            let j = choose|j: int| 0 <= j < before.len() && before[j] == e;
                            assert(results@[j] == e);
                        }
                        assert forall|e: SpatialEntry|
                            self.holds(e) && self.cell_coord(e.1 as int) - cx == dx
                            && self.cell_coord(e.2 as int) - cy == dy
                            implies results@.contains(e) by {
                            assert(self.bucket_of(e.1 as int, e.2 as int) == idx);
                            let j = choose|j: int| 0 <= j < bucket@.len() && bucket@[j] == e;
                            assert(results@[before.len() + j] == e);
                        }
                    }
                    proof {
                        assert(results@ =~= start + bucket@);
                    }
                } else {
                    proof {
                        assert forall|e: SpatialEntry|
                            self.holds(e) && self.cell_coord(e.1 as int) - cx == dx
                            && self.cell_coord(e.2 as int) - cy == dy
                            implies false by {
                        }
                        assert(results@ =~= start + self.bucket_at(nx as int, ny as int));
                    }
                }
                dx = dx + 1;
            }
            dy = dy + 1;
        }
        results
    }
}

/// The bucket of a covered point is one of the grid's buckets.
pub proof fn lemma_bucket_in_range(g: &SpatialGrid, x: int, y: int)
    requires
        g.wf(),
        g.covers(x, y),
    ensures
        0 <= g.bucket_of(x, y) < g.cells@.len(),
{
    vstd::arithmetic::div_mod::lemma_div_pos_is_pos(x, g.cell_size as int);
    vstd::arithmetic::div_mod::lemma_div_pos_is_pos(y, g.cell_size as int);
    crate::terrain::lemma_cell_offset(g.cell_coord(x), g.cell_coord(y), g.width as int, g.height as int);
}

/// Points at most one apart fall in buckets at most one apart.
pub proof fn lemma_near_buckets(a: int, b: int, s: int)
    requires
        0 <= a,
        0 <= b,
        -1 <= a - b <= 1,
        s > 0,
    ensures
        -1 <= a / s - b / s <= 1,
{
    if a <= b {
        vstd::arithmetic::div_mod::lemma_div_is_ordered(a, b, s);
        vstd::arithmetic::div_mod::lemma_div_is_ordered(b, a + s, s);
        vstd::arithmetic::div_mod::lemma_div_plus_one(a, s);
    } else {
        vstd::arithmetic::div_mod::lemma_div_is_ordered(b, a, s);
        vstd::arithmetic::div_mod::lemma_div_is_ordered(a, b + s, s);
        vstd::arithmetic::div_mod::lemma_div_plus_one(b, s);
    }
}

} // verus!
