use vstd::prelude::*;

use crate::agent::{Agent, AntState};
use crate::config::{SimConfig, WaterConfig};
use crate::random::random_i32;
use crate::random::random_u32;
use crate::random::random_u8;
use crate::terrain::{lemma_cell_offset, lemma_offset_injective, Terrain};
use crate::world::{lemma_apply_listed, lemma_listed_index, AgentStore};

verus! {

/// State of the water in one tile.
#[derive(Clone, Copy, Debug, PartialEq, Eq)]
pub struct WaterCell {
    pub depth: u8,
    pub pressure: u8,
    pub flow_dir: (i8, i8),
    pub stagnant: u16,
}

/// Depth from which water blocks movement.
pub const IMPASSABLE_DEPTH: u8 = 6;

/// Depth from which water is dangerous to agents.
pub const DANGEROUS_DEPTH: u8 = 4;

pub open spec fn dry_cell() -> WaterCell {
    WaterCell { depth: 0, pressure: 0, flow_dir: (0, 0), stagnant: 0 }
}

impl WaterCell {
    /// A cell without water.
    pub fn dry() -> (r: WaterCell)
        ensures
            r == dry_cell(),
    {
        WaterCell { depth: 0, pressure: 0, flow_dir: (0, 0), stagnant: 0 }
    }

    pub fn is_passable(&self) -> (r: bool)
        ensures
            r == (self.depth < IMPASSABLE_DEPTH),
    {
        self.depth < IMPASSABLE_DEPTH
    }

    pub fn is_dangerous(&self) -> (r: bool)
        ensures
            r == (self.depth >= DANGEROUS_DEPTH),
    {
        self.depth >= DANGEROUS_DEPTH
    }

    /// Fraction of normal speed left to an agent in this water, in percent.
    pub fn movement_penalty(&self) -> (r: u8)
        ensures
            r == (if self.depth <= 1 {
                100u8
            } else if self.depth == 2 {
                90
            } else if self.depth == 3 {
                75
            } else if self.depth == 4 {
                50
            } else if self.depth == 5 {
                30
            } else {
                0
            }),
    {
        match self.depth {
            0..=1 => 100,
            2 => 90,
            3 => 75,
            4 => 50,
            5 => 30,
            _ => 0,
        }
    }
}

impl Default for WaterCell {
    fn default() -> (r: WaterCell)
        ensures
            r == dry_cell(),
    {
        WaterCell::dry()
    }
}

/// Sum of the depths of a sequence of cells.
pub open spec fn total_depth(s: Seq<WaterCell>) -> int
    decreases s.len(),
{
    if s.len() == 0 {
        0
    } else {
        total_depth(s.drop_last()) + s.last().depth
    }
}

/// Replacing one cell changes the total by the change of its depth.
pub proof fn lemma_total_depth_update(s: Seq<WaterCell>, i: int, c: WaterCell)
    requires
        0 <= i < s.len(),
    ensures
        total_depth(s.update(i, c)) == total_depth(s) - s[i].depth + c.depth,
    decreases s.len(),
{
    let t = s.update(i, c);
    if i == s.len() - 1 {
        assert(t.drop_last() =~= s.drop_last());
    } else {
        lemma_total_depth_update(s.drop_last(), i, c);
        assert(t.drop_last() =~= s.drop_last().update(i, c));
    }
}

/// The water of a grid as plain values: its size, depth bound and cells.
pub struct WaterState {
    pub width: int,
    pub height: int,
    pub max_depth: u8,
    pub cells: Seq<WaterCell>,
}

impl WaterState {
    pub open spec fn in_bounds(&self, x: int, y: int) -> bool {
        0 <= x < self.width && 0 <= y < self.height
    }

    pub open spec fn idx(&self, x: int, y: int) -> int {
        y * self.width + x
    }

    /// The cell at (x, y); outside the grid, a dry cell.
    pub open spec fn cell_at(&self, x: int, y: int) -> WaterCell {
        if self.in_bounds(x, y) {
            self.cells[self.idx(x, y)]
        } else {
            dry_cell()
        }
    }

    pub open spec fn depth_at(&self, x: int, y: int) -> u8 {
        self.cell_at(x, y).depth
    }

    /// Whether one cell can pass `amount` to another: both in the grid and distinct,
    /// enough water at the source and room at the target.
    pub open spec fn can_transfer(&self, fx: int, fy: int, tx: int, ty: int, amount: u8) -> bool {
        &&& self.in_bounds(fx, fy)
        &&& self.in_bounds(tx, ty)
        &&& !(fx == tx && fy == ty)
        &&& self.depth_at(fx, fy) >= amount
        &&& self.depth_at(tx, ty) + amount <= self.max_depth
    }

    /// Whether water at (x, y) may move to its `k`-th neighbour: the neighbour is
    /// passable and, downward, has room; sideways, is lower in both pressure and
    /// depth; upward, has room and lies more than two below in pressure.
    pub open spec fn flow_eligible(&self, terrain: &Terrain, x: int, y: int, k: int) -> bool {
        let (dx, dy) = flow_offset(k);
        let c = self.cell_at(x, y);
        let n = self.cell_at(x + dx, y + dy);
        &&& terrain.passable(x + dx, y + dy)
        &&& if k < 3 {
            n.depth < self.max_depth
        } else if k < 5 {
            n.pressure < c.pressure && n.depth < c.depth
        } else {
            c.pressure > n.pressure + 2 && n.depth < self.max_depth
        }
    }

    /// Offset of the first eligible neighbour from the `k`-th on.
    pub open spec fn first_flow(&self, terrain: &Terrain, x: int, y: int, k: int) -> Option<(int, int)>
        decreases 6 - k,
    {
        if k < 0 || k >= 6 {
            None
        } else if self.flow_eligible(terrain, x, y, k) {
            Some(flow_offset(k))
        } else {
            self.first_flow(terrain, x, y, k + 1)
        }
    }

    /// The state after (x, y), when wet, passes one unit to the neighbour that
    /// `first_flow` picks, if the transfer is possible.
    pub open spec fn flow_step(&self, terrain: &Terrain, x: int, y: int) -> WaterState {
        if self.depth_at(x, y) > 0 {
            match self.first_flow(terrain, x, y, 0) {
                Some(d) => if self.can_transfer(x, y, x + d.0, y + d.1, 1) {
                    WaterState {
                        cells: self.cells.update(
                            self.idx(x, y),
                            transfer_source(self.cell_at(x, y), 1, d.0, d.1),
                        ).update(self.idx(x + d.0, y + d.1), transfer_target(self.cell_at(x + d.0, y + d.1), 1)),
                        ..*self
                    }
                } else {
                    *self
                },
                None => *self,
            }
        } else {
            *self
        }
    }

    /// The state after the cells of the given parity among the first `n` in
    /// row-major order each take their flow step, in that order.
    pub open spec fn flow_pass_upto(&self, terrain: &Terrain, parity: int, n: int) -> WaterState
        decreases n,
    {
        if n <= 0 || self.width <= 0 {
            *self
        } else {
            let prev = self.flow_pass_upto(terrain, parity, n - 1);
            let x = (n - 1) % self.width;
            let y = (n - 1) / self.width;
            if (x + y) % 2 == parity {
                prev.flow_step(terrain, x, y)
            } else {
                prev
            }
        }
    }

    /// One checkerboard pass over the whole grid.
    pub open spec fn flow_pass(&self, terrain: &Terrain, parity: int) -> WaterState {
        self.flow_pass_upto(terrain, parity, self.width * self.height)
    }
}

/// Grid of water cells, stored row by row.
pub struct WaterGrid {
    pub width: usize,
    pub height: usize,
    pub max_depth: u8,
    pub cells: Vec<WaterCell>,
}

impl WaterGrid {
    /// The grid's water as plain values.
    pub open spec fn state(&self) -> WaterState {
        WaterState { width: self.width as int, height: self.height as int, max_depth: self.max_depth, cells: self.cells@ }
    }

    /// Cells fill the grid, coordinates fit an `i32`, no depth exceeds the maximum.
    pub open spec fn wf(&self) -> bool {
        &&& self.cells@.len() == self.width * self.height
        &&& self.width <= i32::MAX
        &&& self.height <= i32::MAX
        &&& forall|i: int| 0 <= i < self.cells@.len() ==> #[trigger] self.cells@[i].depth <= self.max_depth
    }

    pub open spec fn in_bounds(&self, x: int, y: int) -> bool {
        self.state().in_bounds(x, y)
    }

    pub open spec fn idx(&self, x: int, y: int) -> int {
        self.state().idx(x, y)
    }

    /// The cell at (x, y); outside the grid, a dry cell.
    pub open spec fn cell_at(&self, x: int, y: int) -> WaterCell {
        self.state().cell_at(x, y)
    }

    pub open spec fn depth_at(&self, x: int, y: int) -> u8 {
        self.state().depth_at(x, y)
    }

    /// Sum of all depths in the grid.
    pub open spec fn total(&self) -> int {
        total_depth(self.cells@)
    }

    /// Same size and bound as `other`.
    pub open spec fn same_shape(&self, other: &WaterGrid) -> bool {
        &&& self.width == other.width
        &&& self.height == other.height
        &&& self.max_depth == other.max_depth
    }

    /// A dry grid.
    pub fn new(width: usize, height: usize, max_depth: u8) -> (r: WaterGrid)
        requires
            width * height <= usize::MAX,
            width <= i32::MAX,
            height <= i32::MAX,
        ensures
            r.wf(),
            r.width == width,
            r.height == height,
            r.max_depth == max_depth,
            forall|x: int, y: int| #[trigger] r.cell_at(x, y) == dry_cell(),
            r.total() == 0,
    {
        let n: usize = width * height;
        let cells = vec![WaterCell::dry(); n];
        let r = WaterGrid { width, height, max_depth, cells };
        proof {
            lemma_dry_total(r.cells@);
            assert forall|x: int, y: int| #[trigger] r.cell_at(x, y) == dry_cell() by {
                if r.in_bounds(x, y) {
                    lemma_cell_offset(x, y, width as int, height as int);
                }
            }
        }
        r
    }

    fn index(&self, x: i32, y: i32) -> (r: Option<usize>)
        requires
            self.wf(),
        ensures
            r.is_some() == self.in_bounds(x as int, y as int),
            r.is_some() ==> r.unwrap() == self.idx(x as int, y as int),
            r.is_some() ==> r.unwrap() < self.cells@.len(),
    {
        let n = self.cells.len();
        if x < 0 || y < 0 || x as usize >= self.width || y as usize >= self.height {
            return None;
        }
        proof {
            lemma_cell_offset(x as int, y as int, self.width as int, self.height as int);
        }
        Some(y as usize * self.width + x as usize)
    }

    /// The cell at (x, y); a dry cell outside the grid.
    pub fn get(&self, x: i32, y: i32) -> (r: WaterCell)
        requires
            self.wf(),
        ensures
            r == self.cell_at(x as int, y as int),
    {
        match self.index(x, y) {
            Some(i) => self.cells[i],
            None => WaterCell::dry(),
        }
    }

    /// Mutable access to the cell at (x, y), or `None` outside the grid.
    pub fn get_mut(&mut self, x: i32, y: i32) -> (r: Option<&mut WaterCell>)
        requires
            old(self).wf(),
        ensures
            r.is_some() == old(self).in_bounds(x as int, y as int),
            match r {
                Some(c) => {
                    &&& *c == old(self).cell_at(x as int, y as int)
                    &&& final(self).cells@ == old(self).cells@.update(
                        old(self).idx(x as int, y as int),
                        *final(c),
                    )
                    &&& final(self).same_shape(old(self))
                },
                None => *final(self) == *old(self),
            },
    {
        match self.index(x, y) {
            Some(i) => Some(&mut self.cells[i]),
            None => None,
        }
    }

    pub fn depth(&self, x: i32, y: i32) -> (r: u8)
        requires
            self.wf(),
        ensures
            r == self.depth_at(x as int, y as int),
    {
        self.get(x, y).depth
    }
}

/// `c` after `amount` more water: capped at `max`, no longer stagnant.
pub open spec fn with_added(c: WaterCell, amount: u8, max: u8) -> WaterCell {
    WaterCell {
        depth: if c.depth + amount < max {
            (c.depth + amount) as u8
        } else {
            max
        },
        stagnant: 0,
        ..c
    }
}

/// `c` after losing `amount` water, never below dry.
pub open spec fn with_removed(c: WaterCell, amount: u8) -> WaterCell {
    WaterCell {
        depth: if c.depth >= amount {
            (c.depth - amount) as u8
        } else {
            0
        },
        ..c
    }
}

/// The source cell of a transfer: lighter, recording the offset to the target (cast
/// to `i8`), no longer stagnant.
pub open spec fn transfer_source(c: WaterCell, amount: u8, dx: int, dy: int) -> WaterCell {
    WaterCell {
        depth: (c.depth - amount) as u8,
        flow_dir: (dx as i8, dy as i8),
        stagnant: 0,
        ..c
    }
}

/// The target cell of a transfer: heavier, no longer stagnant.
pub open spec fn transfer_target(c: WaterCell, amount: u8) -> WaterCell {
    WaterCell { depth: (c.depth + amount) as u8, stagnant: 0, ..c }
}

impl WaterGrid {
    /// Whether `transfer` moves water: two distinct cells of the grid, enough water
    /// at the source and room at the target.
    pub open spec fn can_transfer(&self, fx: int, fy: int, tx: int, ty: int, amount: u8) -> bool {
        self.state().can_transfer(fx, fy, tx, ty, amount)
    }

    /// Adds water at (x, y), capped at the maximum depth; ignored outside the grid.
    pub fn add_water(&mut self, x: i32, y: i32, amount: u8)
        requires
            old(self).wf(),
        ensures
            final(self).wf(),
            final(self).same_shape(old(self)),
            final(self).cells@ == if old(self).in_bounds(x as int, y as int) {
                old(self).cells@.update(
                    old(self).idx(x as int, y as int),
                    with_added(old(self).cell_at(x as int, y as int), amount, old(self).max_depth),
                )
            } else {
                old(self).cells@
            },
    {
        let max = self.max_depth;
        match self.index(x, y) {
            Some(i) => {
                let mut c = self.cells[i];
                let sum: u16 = c.depth as u16 + amount as u16;
                c.depth = if sum < max as u16 {
                    sum as u8
                } else {
                    max
                };
                c.stagnant = 0;
                self.cells.set(i, c);
            },
            None => {},
        }
    }

    /// Removes water at (x, y), never below dry; ignored outside the grid.
    pub fn remove_water(&mut self, x: i32, y: i32, amount: u8)
        requires
            old(self).wf(),
        ensures
            final(self).wf(),
            final(self).same_shape(old(self)),
            final(self).cells@ == if old(self).in_bounds(x as int, y as int) {
                old(self).cells@.update(
                    old(self).idx(x as int, y as int),
                    with_removed(old(self).cell_at(x as int, y as int), amount),
                )
            } else {
                old(self).cells@
            },
    {
        match self.index(x, y) {
            Some(i) => {
                let mut c = self.cells[i];
                c.depth = if c.depth >= amount {
                    c.depth - amount
                } else {
                    0
                };
                self.cells.set(i, c);
            },
            None => {},
        }
    }

    /// Moves `amount` water from one cell to another when both are in the grid, the
    /// source holds enough and the target has room; otherwise nothing changes. The
    /// source records the direction of the flow.
    pub fn transfer(&mut self, from_x: i32, from_y: i32, to_x: i32, to_y: i32, amount: u8)
        requires
            old(self).wf(),
        ensures
            final(self).wf(),
            final(self).same_shape(old(self)),
            final(self).total() == old(self).total(),
            final(self).cells@ == if old(self).can_transfer(
                from_x as int,
                from_y as int,
                to_x as int,
                to_y as int,
                amount,
            ) {
                old(self).cells@.update(
                    old(self).idx(from_x as int, from_y as int),
                    transfer_source(
                        old(self).cell_at(from_x as int, from_y as int),
                        amount,
                        to_x - from_x,
                        to_y - from_y,
                    ),
                ).update(
                    old(self).idx(to_x as int, to_y as int),
                    transfer_target(old(self).cell_at(to_x as int, to_y as int), amount),
                )
            } else {
                old(self).cells@
            },
    {
        let fi = match self.index(from_x, from_y) {
            Some(i) => i,
            None => return ,
        };
        let ti = match self.index(to_x, to_y) {
            Some(i) => i,
            None => return ,
        };
        if fi == ti {
            proof {
                lemma_offset_injective(
                    from_x as int,
                    from_y as int,
                    to_x as int,
                    to_y as int,
                    self.width as int,
                );
            }
            return ;
        }
        let src = self.cells[fi];
        let dst = self.cells[ti];
        if src.depth < amount || dst.depth as u16 + amount as u16 > self.max_depth as u16 {
            return ;
        }
        let sx: i8 = (to_x - from_x) as i8;
        let sy: i8 = (to_y - from_y) as i8;
        let new_src = WaterCell { depth: src.depth - amount, flow_dir: (sx, sy), stagnant: 0, ..src };
        let new_dst = WaterCell { depth: dst.depth + amount, stagnant: 0, ..dst };
        proof {
            let s0 = self.cells@;
            lemma_total_depth_update(s0, fi as int, new_src);
            lemma_total_depth_update(s0.update(fi as int, new_src), ti as int, new_dst);
        }
        self.cells.set(fi, new_src);
        self.cells.set(ti, new_dst);
    }
}

/// Offset of the `k`-th neighbour that water tries, in order: down, down-left,
/// down-right, left, right, up.
pub open spec fn flow_offset(k: int) -> (int, int) {
    if k == 0 {
        (0, 1)
    } else if k == 1 {
        (-1, 1)
    } else if k == 2 {
        (1, 1)
    } else if k == 3 {
        (-1, 0)
    } else if k == 4 {
        (1, 0)
    } else {
        (0, -1)
    }
}

fn flow_offset_exec(k: usize) -> (r: (i32, i32))
    ensures
        (r.0 as int, r.1 as int) == flow_offset(k as int),
{
    match k {
        0 => (0, 1),
        1 => (-1, 1),
        2 => (1, 1),
        3 => (-1, 0),
        4 => (1, 0),
        _ => (0, -1),
    }
}

impl WaterGrid {
    /// Depth of the connected column of water that ends at (x, y): its own depth and,
    /// while the cell above is wet and passable, the column above it.
    pub open spec fn column(&self, terrain: &Terrain, x: int, y: int) -> int
        decreases y,
    {
        self.depth_at(x, y) + if y > 0 && self.depth_at(x, y - 1) > 0 && terrain.passable(x, y - 1) {
            self.column(terrain, x, y - 1)
        } else {
            0
        }
    }

    /// Pressure of (x, y): zero when dry, else its column capped at the maximum depth.
    pub open spec fn pressure_target(&self, terrain: &Terrain, x: int, y: int) -> u8 {
        if self.depth_at(x, y) == 0 {
            0
        } else if self.column(terrain, x, y) < self.max_depth {
            self.column(terrain, x, y) as u8
        } else {
            self.max_depth
        }
    }

    /// Whether water at (x, y) may move to its `k`-th neighbour: the neighbour is
    /// passable and, downward, has room; sideways, is lower in both pressure and
    /// depth; upward, has room and lies more than two below in pressure.
    pub open spec fn flow_eligible(&self, terrain: &Terrain, x: int, y: int, k: int) -> bool {
        self.state().flow_eligible(terrain, x, y, k)
    }

    /// Offset of the first eligible neighbour from the `k`-th on.
    pub open spec fn first_flow(&self, terrain: &Terrain, x: int, y: int, k: int) -> Option<(int, int)> {
        self.state().first_flow(terrain, x, y, k)
    }

    /// Pressure of (x, y) as `pressure_target` defines it.
    pub fn column_pressure(&self, terrain: &Terrain, x: i32, y: i32) -> (r: u8)
        requires
            self.wf(),
            terrain.wf(),
        ensures
            r == self.pressure_target(terrain, x as int, y as int),
    {
        let depth = self.depth(x, y);
        if depth == 0 {
            return 0;
        }
        let mut pressure: u8 = depth;
        let ghost mut sum: int = depth as int;
        let mut check_y: i32 = y;
        while check_y > 0
            invariant
                self.wf(),
                terrain.wf(),
                check_y <= y,
                self.column(terrain, x as int, y as int) == sum + self.column(terrain, x as int, check_y as int) - self.depth_at(x as int, check_y as int),
                pressure == if sum < 255 {
                    sum
                } else {
                    255
                },
                sum >= 0,
            ensures
                self.column(terrain, x as int, y as int) == sum,
                pressure == if sum < 255 {
                    sum
                } else {
                    255
                },
            decreases check_y,
        {
            let above = self.depth(x, check_y - 1);
            if above == 0 || !terrain.is_passable(x, check_y - 1) {
                break;
            }
            proof {
                sum = sum + above;
            }
            pressure = if pressure as u16 + above as u16 >= 255 {
                255
            } else {
                pressure + above
            };
            check_y = check_y - 1;
        }
        let max = self.max_depth;
        if pressure < max {
            pressure
        } else {
            max
        }
    }

    /// Offset of the neighbour that water at (x, y) moves to, as `first_flow` defines it.
    pub fn flow_target(&self, terrain: &Terrain, x: i32, y: i32) -> (r: Option<(i32, i32)>)
        requires
            self.wf(),
            terrain.wf(),
        ensures
            match r {
                Some((dx, dy)) => {
                    &&& self.first_flow(terrain, x as int, y as int, 0) == Some((dx as int, dy as int))
                    &&& -1 <= dx <= 1
                    &&& -1 <= dy <= 1
                },
                None => self.first_flow(terrain, x as int, y as int, 0) is None,
            },
    {
        let c = self.get(x, y);
        let mut k: usize = 0;
        while k < 6
            invariant
                self.wf(),
                terrain.wf(),
                k <= 6,
                c == self.cell_at(x as int, y as int),
                self.first_flow(terrain, x as int, y as int, 0) == self.first_flow(terrain, x as int, y as int, k as int),
            decreases 6 - k,
        {
            let (dx, dy) = flow_offset_exec(k);
            let nx = x as i64 + dx as i64;
            let ny = y as i64 + dy as i64;
            if nx >= i32::MIN as i64 && nx <= i32::MAX as i64 && ny >= i32::MIN as i64 && ny <= i32::MAX as i64 {
                let nx = nx as i32;
                let ny = ny as i32;
                if terrain.is_passable(nx, ny) {
                    let n = self.get(nx, ny);
                    let flows = if k < 3 {
                        n.depth < self.max_depth
                    } else if k < 5 {
                        n.pressure < c.pressure && n.depth < c.depth
                    } else {
                        c.pressure as u16 > n.pressure as u16 + 2 && n.depth < self.max_depth
                    };
                    if flows {
                        return Some((dx, dy));
                    }
                }
            } else {
                assert(!terrain.passable(nx as int, ny as int));
            }
            k = k + 1;
        }
        None
    }
}

/// Recomputes the pressure of every cell from the columns of water above it.
pub fn calculate_pressure(water: &mut WaterGrid, terrain: &Terrain)
    requires
        old(water).wf(),
        terrain.wf(),
    ensures
        final(water).wf(),
        final(water).same_shape(old(water)),
        forall|x: int, y: int|
            old(water).in_bounds(x, y) ==> #[trigger] final(water).cell_at(x, y) == (WaterCell {
                pressure: old(water).pressure_target(terrain, x, y),
                ..old(water).cell_at(x, y)
            }),
{
    let w = water.width as i32;
    let h = water.height as i32;
    let mut pressures: Vec<u8> = Vec::new();
    let mut y: i32 = 0;
    while y < h
        invariant
            water.wf(),
            terrain.wf(),
            w == water.width,
            h == water.height,
            0 <= y <= h,
            pressures@.len() == y * w,
            forall|a: int, b: int|
                0 <= a < w && 0 <= b < y ==> #[trigger] pressures@[b * w + a] == water.pressure_target(terrain, a, b),
        decreases h - y,
    {
        let mut x: i32 = 0;
        while x < w
            invariant
                water.wf(),
                terrain.wf(),
                w == water.width,
                h == water.height,
                0 <= y < h,
                0 <= x <= w,
                pressures@.len() == y * w + x,
                forall|a: int, b: int|
                    0 <= a < w && 0 <= b < y ==> #[trigger] pressures@[b * w + a] == water.pressure_target(terrain, a, b),
                forall|a: int| 0 <= a < x ==> #[trigger] pressures@[y * w + a] == water.pressure_target(terrain, a, y as int),
            decreases w - x,
        {
            let p = water.column_pressure(terrain, x, y);
            let ghost before = pressures@;
            pressures.push(p);
            proof {
                assert forall|a: int, b: int|
                    0 <= a < w && 0 <= b < y implies #[trigger] pressures@[b * w + a] == water.pressure_target(terrain, a, b) by {
                    lemma_row_before(a, b, y as int, w as int);
                    assert(pressures@[b * w + a] == before[b * w + a]);
                }
            }
            x = x + 1;
        }
        proof {
            assert((y + 1) * w == y * w + w) by (nonlinear_arith);
            assert forall|a: int, b: int|
                0 <= a < w && 0 <= b < y + 1 implies #[trigger] pressures@[b * w + a] == water.pressure_target(terrain, a, b) by {
                if b == y {
                } else {
                }
            }
        }
        y = y + 1;
    }
    let ghost start = *water;
    let n = water.cells.len();
    proof {
        assert(h * w == w * h) by (nonlinear_arith);
    }
    let mut i: usize = 0;
    while i < n
        invariant
            n == water.cells@.len(),
            n == start.cells@.len(),
            start.wf(),
            water.same_shape(&start),
            pressures@.len() == n,
            0 <= i <= n,
            forall|j: int| 0 <= j < i ==> #[trigger] water.cells@[j] == (WaterCell { pressure: pressures@[j], ..start.cells@[j] }),
            forall|j: int| i <= j < n ==> #[trigger] water.cells@[j] == start.cells@[j],
        decreases n - i,
    {
        let mut c = water.cells[i];
        c.pressure = pressures[i];
        water.cells.set(i, c);
        i = i + 1;
    }
    proof {
        assert forall|j: int| 0 <= j < water.cells@.len() implies #[trigger] water.cells@[j].depth <= water.max_depth by {
            assert(start.cells@[j].depth <= start.max_depth);
        }
        assert forall|x: int, y: int| start.in_bounds(x, y) implies #[trigger] water.cell_at(x, y) == (WaterCell {
            pressure: start.pressure_target(terrain, x, y),
            ..start.cell_at(x, y)
        }) by {
            lemma_cell_offset(x, y, w as int, h as int);
        }
    }
}

/// Flow out of one cell: a wet cell moves one unit of water to the neighbour that
/// `first_flow` picks, when the transfer is possible; otherwise nothing changes.
pub fn flow_cell(water: &mut WaterGrid, terrain: &Terrain, x: i32, y: i32)
    requires
        old(water).wf(),
        terrain.wf(),
    ensures
        final(water).wf(),
        final(water).same_shape(old(water)),
        final(water).total() == old(water).total(),
        final(water).state() == old(water).state().flow_step(terrain, x as int, y as int),
        final(water).cells@ == if old(water).depth_at(x as int, y as int) > 0 {
            match old(water).first_flow(terrain, x as int, y as int, 0) {
                Some(d) => if old(water).can_transfer(x as int, y as int, x + d.0, y + d.1, 1) {
                    old(water).cells@.update(
                        old(water).idx(x as int, y as int),
                        transfer_source(old(water).cell_at(x as int, y as int), 1, d.0, d.1),
                    ).update(
                        old(water).idx(x + d.0, y + d.1),
                        transfer_target(old(water).cell_at(x + d.0, y + d.1), 1),
                    )
                } else {
                    old(water).cells@
                },
                None => old(water).cells@,
            }
        } else {
            old(water).cells@
        },
{
    let cell = water.get(x, y);
    if cell.depth > 0 {
        match water.flow_target(terrain, x, y) {
            Some((dx, dy)) => {
                let nx: i64 = x as i64 + dx as i64;
                let ny: i64 = y as i64 + dy as i64;
                if nx >= i32::MIN as i64 && nx <= i32::MAX as i64 && ny >= i32::MIN as i64 && ny <= i32::MAX as i64 {
                    water.transfer(x, y, nx as i32, ny as i32, 1);
                } else {
                    proof {
                        assert(!old(water).in_bounds(x + dx, y + dy));
                    }
                }
            },
            None => {},
        }
    }
}

/// One flow step: in two checkerboard passes, each wet cell moves one unit of
/// water to the first neighbour that `first_flow` picks. Total depth is kept.
pub fn water_flow_system(water: &mut WaterGrid, terrain: &Terrain)
    requires
        old(water).wf(),
        terrain.wf(),
    ensures
        final(water).wf(),
        final(water).same_shape(old(water)),
        final(water).total() == old(water).total(),
        final(water).state() == old(water).state().flow_pass(terrain, 0).flow_pass(terrain, 1),
{
    let ghost start = *water;
    let n = water.cells.len();
    let w = water.width;
    let mut pass: usize = 0;
    while pass < 2
        invariant
            water.wf(),
            terrain.wf(),
            water.same_shape(&start),
            water.total() == start.total(),
            n == water.cells@.len(),
            w == water.width,
            pass <= 2,
            pass == 0 ==> water.state() == start.state(),
            pass == 1 ==> water.state() == start.state().flow_pass(terrain, 0),
            pass == 2 ==> water.state() == start.state().flow_pass(terrain, 0).flow_pass(terrain, 1),
        decreases 2 - pass,
    {
        let ghost pass_start = water.state();
        let mut i: usize = 0;
        while i < n
            invariant
                water.wf(),
                terrain.wf(),
                water.same_shape(&start),
                water.total() == start.total(),
                n == water.cells@.len(),
                n == water.width * water.height,
                w == water.width,
                pass < 2,
                0 <= i <= n,
                pass_start.width == water.width,
                pass_start.height == water.height,
                water.state() == pass_start.flow_pass_upto(terrain, pass as int, i as int),
            decreases n - i,
        {
            proof {
                assert(w > 0) by (nonlinear_arith)
                    requires
                        i < n,
                        n == w * water.height,
                        w >= 0,
                        water.height >= 0,
                ;
                vstd::arithmetic::div_mod::lemma_fundamental_div_mod(i as int, w as int);
                vstd::arithmetic::div_mod::lemma_mod_pos_bound(i as int, w as int);
                vstd::arithmetic::div_mod::lemma_div_pos_is_pos(i as int, w as int);
                assert((i as int) / (w as int) < water.height) by (nonlinear_arith)
                    requires
                        i < w * water.height,
                        i == w * (i / w) + i % w,
                        0 <= i % w,
                        w > 0,
                ;
            }
            let x = i % w;
            let y = i / w;
            if (x + y) % 2 == pass {
                flow_cell(water, terrain, x as i32, y as i32);
            }
            i = i + 1;
        }
        proof {
            assert(pass_start.flow_pass(terrain, pass as int) == pass_start.flow_pass_upto(terrain, pass as int, n as int));
        }
        pass = pass + 1;
    }
}

/// Ticks an agent survives at a dangerous depth before it drowns.
pub open spec fn drown_threshold(depth: u8, cfg: WaterConfig) -> u32 {
    if depth == 7 {
        cfg.drown_threshold_7
    } else if depth == 6 {
        cfg.drown_threshold_6
    } else if depth == 5 {
        cfg.drown_threshold_5
    } else if depth == 4 {
        cfg.drown_threshold_4
    } else {
        999
    }
}

/// One tick of submersion for an agent standing in water of the given depth: at a
/// dangerous depth its counter grows and it is marked dead once the counter reaches
/// the depth's threshold; in safer water the counter is dropped.
pub open spec fn drown_step(a: Agent, depth: u8, cfg: WaterConfig) -> Agent {
    if depth >= cfg.dangerous_threshold {
        let n: u32 = match a.drowning {
            Some(t) => if t < u32::MAX {
                (t + 1) as u32
            } else {
                t
            },
            None => 1,
        };
        if n >= drown_threshold(depth, cfg) {
            Agent { drowning: Some(n), dead: true, ..a }
        } else {
            Agent { drowning: Some(n), ..a }
        }
    } else {
        Agent { drowning: None, ..a }
    }
}

/// `a` after `n` consecutive ticks at the given depth.
pub open spec fn submerged_for(a: Agent, depth: u8, cfg: WaterConfig, n: nat) -> Agent
    decreases n,
{
    if n == 0 {
        a
    } else {
        drown_step(submerged_for(a, depth, cfg, (n - 1) as nat), depth, cfg)
    }
}

/// Agents in dangerous water flee upward from this depth on.
pub open spec fn flee_flood_step(a: Agent, depth: u8, cfg: WaterConfig) -> Agent {
    if depth >= cfg.flee_flood_depth && a.state != AntState::Fleeing && a.state != AntState::Returning {
        a.with_state(AntState::Returning)
    } else {
        a
    }
}

pub fn drown_update(a: Agent, depth: u8, cfg: &WaterConfig) -> (r: Agent)
    ensures
        r == drown_step(a, depth, *cfg),
{
    if depth >= cfg.dangerous_threshold {
        let n: u32 = match a.drowning {
            Some(t) => if t < u32::MAX {
                t + 1
            } else {
                t
            },
            None => 1,
        };
        let threshold = match depth {
            7 => cfg.drown_threshold_7,
            6 => cfg.drown_threshold_6,
            5 => cfg.drown_threshold_5,
            4 => cfg.drown_threshold_4,
            _ => 999,
        };
        if n >= threshold {
            Agent { drowning: Some(n), dead: true, ..a }
        } else {
            Agent { drowning: Some(n), ..a }
        }
    } else {
        Agent { drowning: None, ..a }
    }
}

/// An agent kept at depth 7 survives one tick fewer than the depth's threshold and
/// is marked dead on the tick its counter reaches it.
pub proof fn lemma_drowning_at_depth_seven(a: Agent, cfg: WaterConfig)
    requires
        a.drowning is None,
        !a.dead,
        cfg.dangerous_threshold <= 7,
        1 <= cfg.drown_threshold_7 < u32::MAX,
    ensures
        forall|n: nat| n < cfg.drown_threshold_7 ==> !(#[trigger] submerged_for(a, 7, cfg, n)).dead,
        submerged_for(a, 7, cfg, cfg.drown_threshold_7 as nat).dead,
{
    let t = cfg.drown_threshold_7;
    assert forall|n: nat| n < t implies !(#[trigger] submerged_for(a, 7, cfg, n)).dead by {
        lemma_submerged_count(a, cfg, n);
    }
    lemma_submerged_count(a, cfg, (t - 1) as nat);
}

proof fn lemma_submerged_count(a: Agent, cfg: WaterConfig, n: nat)
    requires
        a.drowning is None,
        !a.dead,
        cfg.dangerous_threshold <= 7,
        1 <= cfg.drown_threshold_7 < u32::MAX,
        n < cfg.drown_threshold_7,
    ensures
        !submerged_for(a, 7, cfg, n).dead,
        submerged_for(a, 7, cfg, n).drowning == if n == 0 {
            None
        } else {
            Some(n as u32)
        },
    decreases n,
{
    if n > 0 {
        lemma_submerged_count(a, cfg, (n - 1) as nat);
    }
}

/// Each agent takes one tick of submersion at the depth of its own tile.
pub fn drowning_system(store: &mut AgentStore, water: &WaterGrid, config: &SimConfig)
    requires
        water.wf(),
    ensures
        final(store)@.dom() == old(store)@.dom(),
        forall|k: u64|
            old(store)@.contains_key(k) ==> #[trigger] final(store)@[k] == drown_step(
                old(store)@[k],
                water.depth_at(old(store)@[k].x as int, old(store)@[k].y as int),
                config.water,
            ),
{
    let ids = store.ids();
    let mut updates: Vec<(u64, Agent)> = Vec::new();
    let mut i: usize = 0;
    while i < ids.len()
        invariant
            store@ == old(store)@,
            water.wf(),
            0 <= i <= ids@.len(),
            ids@.no_duplicates(),
            forall|j: int| 0 <= j < ids@.len() ==> store@.contains_key(#[trigger] ids@[j]),
            updates@.len() == i,
            forall|j: int| 0 <= j < i ==> (#[trigger] updates@[j]) == (ids@[j], drown_step(
                store@[ids@[j]],
                water.depth_at(store@[ids@[j]].x as int, store@[ids@[j]].y as int),
                config.water,
            )),
        decreases ids@.len() - i,
    {
        let id = ids[i];
        let a = store.get(id).unwrap();
        let d = water.depth(a.x, a.y);
        updates.push((id, drown_update(a, d, &config.water)));
        i = i + 1;
    }
    store.apply(&updates);
    proof {
        let m = old(store)@;
        lemma_apply_listed(m, ids@, updates@);
        assert forall|k: u64| m.contains_key(k) implies #[trigger] store@[k] == drown_step(
            m[k],
            water.depth_at(m[k].x as int, m[k].y as int),
            config.water,
        ) by {
            let j = lemma_listed_index(ids@, k);
            assert(updates@[j].0 == ids@[j]);
        }
    }
}

/// Agents in water at or above the flee depth switch to climbing out, unless
/// already fleeing or returning.
pub fn flee_flood_system(store: &mut AgentStore, water: &WaterGrid, config: &SimConfig)
    requires
        water.wf(),
    ensures
        final(store)@.dom() == old(store)@.dom(),
        forall|k: u64|
            old(store)@.contains_key(k) ==> #[trigger] final(store)@[k] == flee_flood_step(
                old(store)@[k],
                water.depth_at(old(store)@[k].x as int, old(store)@[k].y as int),
                config.water,
            ),
{
    let ids = store.ids();
    let mut updates: Vec<(u64, Agent)> = Vec::new();
    let mut i: usize = 0;
    while i < ids.len()
        invariant
            store@ == old(store)@,
            water.wf(),
            0 <= i <= ids@.len(),
            ids@.no_duplicates(),
            forall|j: int| 0 <= j < ids@.len() ==> store@.contains_key(#[trigger] ids@[j]),
            updates@.len() == i,
            forall|j: int| 0 <= j < i ==> (#[trigger] updates@[j]) == (ids@[j], flee_flood_step(
                store@[ids@[j]],
                water.depth_at(store@[ids@[j]].x as int, store@[ids@[j]].y as int),
                config.water,
            )),
        decreases ids@.len() - i,
    {
        let id = ids[i];
        let a = store.get(id).unwrap();
        let d = water.depth(a.x, a.y);
        let na = if d >= config.water.flee_flood_depth && a.state != AntState::Fleeing
            && a.state != AntState::Returning {
            Agent { state: AntState::Returning, ..a }
        } else {
            a
        };
        updates.push((id, na));
        i = i + 1;
    }
    store.apply(&updates);
    proof {
        let m = old(store)@;
        lemma_apply_listed(m, ids@, updates@);
        assert forall|k: u64| m.contains_key(k) implies #[trigger] store@[k] == flee_flood_step(
            m[k],
            water.depth_at(m[k].x as int, m[k].y as int),
            config.water,
        ) by {
            let j = lemma_listed_index(ids@, k);
            assert(updates@[j].0 == ids@[j]);
        }
    }
}

impl WaterGrid {
    /// Whether (x, y) lies under open air: the top row, or a passable dry tile above.
    pub open spec fn exposed(&self, terrain: &Terrain, x: int, y: int) -> bool {
        y == 0 || (terrain.passable(x, y - 1) && self.depth_at(x, y - 1) == 0)
    }

    /// Cell (x, y) after one evaporation step: shallow exposed water grows stale, and
    /// once stale for longer than the configured ticks loses one unit.
    pub open spec fn evaporated(&self, terrain: &Terrain, cfg: WaterConfig, x: int, y: int) -> WaterCell {
        let c = self.cell_at(x, y);
        if c.depth > 0 && c.depth <= cfg.evaporation_max_depth && self.exposed(terrain, x, y) {
            let s: u16 = if c.stagnant < u16::MAX {
                (c.stagnant + 1) as u16
            } else {
                c.stagnant
            };
            if s > cfg.stagnant_evaporation_ticks {
                WaterCell { depth: (c.depth - 1) as u8, stagnant: 0, ..c }
            } else {
                WaterCell { stagnant: s, ..c }
            }
        } else {
            c
        }
    }
}

/// Evaporation over the whole grid, every cell judged from the grid as it was.
#[verifier::rlimit(40)]
pub fn evaporation_system(water: &mut WaterGrid, terrain: &Terrain, config: &SimConfig)
    requires
        old(water).wf(),
        terrain.wf(),
    ensures
        final(water).wf(),
        final(water).same_shape(old(water)),
        forall|x: int, y: int|
            old(water).in_bounds(x, y) ==> #[trigger] final(water).cell_at(x, y) == old(water).evaporated(
                terrain,
                config.water,
                x,
                y,
            ),
{
    let ghost start = *water;
    let w = water.width as i32;
    let h = water.height as i32;
    let mut row: i32 = h;
    while row > 0
        invariant
            water.wf(),
            terrain.wf(),
            water.same_shape(&start),
            w == water.width,
            h == water.height,
            0 <= row <= h,
            forall|a: int, b: int|
                start.in_bounds(a, b) ==> #[trigger] water.cell_at(a, b) == if b >= row {
                    start.evaporated(terrain, config.water, a, b)
                } else {
                    start.cell_at(a, b)
                },
        decreases row,
    {
        let y = row - 1;
        let mut x: i32 = 0;
        while x < w
            invariant
                water.wf(),
                terrain.wf(),
                water.same_shape(&start),
                w == water.width,
                h == water.height,
                0 <= y < h,
                row == y + 1,
                0 <= x <= w,
                forall|a: int, b: int|
                    start.in_bounds(a, b) ==> #[trigger] water.cell_at(a, b) == if b > y || (b == y && a < x) {
                        start.evaporated(terrain, config.water, a, b)
                    } else {
                        start.cell_at(a, b)
                    },
            decreases w - x,
        {
            let c = water.get(x, y);
            let ghost at_start = *water;
            proof {
                assert(c == start.cell_at(x as int, y as int));
                if y > 0 {
                    assert(water.cell_at(x as int, y - 1) == start.cell_at(x as int, y - 1));
                }
            }
            let max_d = config.water.evaporation_max_depth;
            if c.depth > 0 && c.depth <= max_d {
                let exposed = y == 0 || (terrain.is_passable(x, y - 1) && water.depth(x, y - 1) == 0);
                if exposed {
                    let s: u16 = if c.stagnant < u16::MAX {
                        c.stagnant + 1
                    } else {
                        c.stagnant
                    };
                    let nc = if s > config.water.stagnant_evaporation_ticks {
                        WaterCell { depth: c.depth - 1, stagnant: 0, ..c }
                    } else {
                        WaterCell { stagnant: s, ..c }
                    };
                    let i = water.index(x, y).unwrap();
                    let ghost before = *water;
                    water.cells.set(i, nc);
                    proof {
                        assert forall|a: int, b: int| before.in_bounds(a, b) && !(a == x && b == y)
                            implies #[trigger] water.cell_at(a, b) == before.cell_at(a, b) by {
                            lemma_cell_offset(a, b, w as int, h as int);
                            if b * w + a == y * w + x {
                                lemma_offset_injective(a, b, x as int, y as int, w as int);
                            }
                        }
                        assert forall|j: int| 0 <= j < water.cells@.len() implies #[trigger] water.cells@[j].depth <= water.max_depth by {
                            assert(before.cells@[j].depth <= before.max_depth);
                        }
                        assert(water.cell_at(x as int, y as int) == nc);
                    }
                }
            }
            proof {
                assert forall|a: int, b: int|
                    start.in_bounds(a, b) implies #[trigger] water.cell_at(a, b) == if b > y || (b == y && a < x + 1) {
                        start.evaporated(terrain, config.water, a, b)
                    } else {
                        start.cell_at(a, b)
                    } by {
                    if !(a == x && b == y) {
                        assert(water.cell_at(a, b) == at_start.cell_at(a, b));
                    }
                }
            }
            x = x + 1;
        }
        row = row - 1;
    }
}

/// A rain shower: units added per watered column each tick, ticks left, and the
/// share of columns watered, in thousandths.
#[derive(Clone, Copy, Debug)]
pub struct RainEvent {
    pub intensity: u8,
    pub duration: u32,
    pub coverage: u32,
}

/// First impassable row of column x, scanning from the top.
pub fn surface_of(terrain: &Terrain, x: i32) -> (r: Option<i32>)
    requires
        terrain.wf(),
    ensures
        match r {
            Some(y) => 0 <= y < terrain.height && !terrain.passable(x as int, y as int) && forall|b: int|
                0 <= b < y ==> #[trigger] terrain.passable(x as int, b),
            None => forall|b: int| 0 <= b < terrain.height ==> #[trigger] terrain.passable(x as int, b),
        },
{
    let h = terrain.height as i32;
    let mut y: i32 = 0;
    while y < h
        invariant
            terrain.wf(),
            h == terrain.height,
            0 <= y <= h,
            forall|b: int| 0 <= b < y ==> #[trigger] terrain.passable(x as int, b),
        decreases h - y,
    {
        if !terrain.is_passable(x, y) {
            return Some(y);
        }
        y = y + 1;
    }
    None
}

/// Rains on column x: `intensity` units on the tile just above its first impassable
/// tile, when that tile is not the top row.
pub fn rain_on_column(water: &mut WaterGrid, terrain: &Terrain, x: i32, intensity: u8)
    requires
        old(water).wf(),
        terrain.wf(),
    ensures
        final(water).wf(),
        final(water).same_shape(old(water)),
        final(water).cells@ == match surface_of_spec(terrain, x as int) {
            Some(y) => if y > 0 && old(water).in_bounds(x as int, y - 1) {
                old(water).cells@.update(
                    old(water).idx(x as int, y - 1),
                    with_added(old(water).cell_at(x as int, y - 1), intensity, old(water).max_depth),
                )
            } else {
                old(water).cells@
            },
            None => old(water).cells@,
        },
{
    match surface_of(terrain, x) {
        Some(y) => {
            proof {
                lemma_surface_unique(terrain, x as int, y as int);
            }
            if y > 0 {
                water.add_water(x, y - 1, intensity);
            }
        },
        None => {
            proof {
                if surface_of_spec(terrain, x as int) is Some {
                    let y = surface_of_spec(terrain, x as int).unwrap();
                    assert(terrain.passable(x as int, y));
                }
            }
        },
    }
}

/// The first impassable row of column x, from the top.
pub open spec fn surface_of_spec(terrain: &Terrain, x: int) -> Option<int> {
    if exists|y: int| 0 <= y < terrain.height && !terrain.passable(x, y) && forall|b: int|
        0 <= b < y ==> #[trigger] terrain.passable(x, b) {
        Some(choose|y: int| 0 <= y < terrain.height && !terrain.passable(x, y) && forall|b: int|
            0 <= b < y ==> #[trigger] terrain.passable(x, b))
    } else {
        None
    }
}

proof fn lemma_surface_unique(terrain: &Terrain, x: int, y: int)
    requires
        0 <= y < terrain.height,
        !terrain.passable(x, y),
        forall|b: int| 0 <= b < y ==> #[trigger] terrain.passable(x, b),
    ensures
        surface_of_spec(terrain, x) == Some(y),
{
    let c = choose|c: int| 0 <= c < terrain.height && !terrain.passable(x, c) && forall|b: int|
        0 <= b < c ==> #[trigger] terrain.passable(x, b);
    if c < y {
        assert(terrain.passable(x, c));
    } else if c > y {
        assert(terrain.passable(x, y));
    }
}

impl WaterGrid {
    /// Rain with these column rolls (thousandths) falls on (a, b): b is the tile just
    /// above the first impassable tile of column a, and a's roll is below the coverage.
    pub open spec fn rains_on(&self, terrain: &Terrain, rolls: Seq<u32>, coverage: u32, a: int, b: int) -> bool {
        &&& self.in_bounds(a, b)
        &&& 0 <= a < rolls.len()
        &&& rolls[a] < coverage
        &&& surface_of_spec(terrain, a) == Some(b + 1)
    }
}

/// Replacing one in-grid cell changes the cell there and no other.
pub proof fn lemma_single_update(before: &WaterGrid, after: &WaterGrid, x: int, y: int, c: WaterCell)
    requires
        before.wf(),
        after.same_shape(before),
        before.in_bounds(x, y),
        after.cells@ == before.cells@.update(before.idx(x, y), c),
    ensures
        forall|a: int, b: int|
            #[trigger] after.cell_at(a, b) == if a == x && b == y {
                c
            } else {
                before.cell_at(a, b)
            },
{
    assert forall|a: int, b: int|
        #[trigger] after.cell_at(a, b) == if a == x && b == y {
            c
        } else {
            before.cell_at(a, b)
        } by {
        lemma_cell_offset(x, y, before.width as int, before.height as int);
        if before.in_bounds(a, b) {
            lemma_cell_offset(a, b, before.width as int, before.height as int);
            if b * before.width + a == y * before.width + x {
                lemma_offset_injective(a, b, x, y, before.width as int);
            }
        }
    }
}

/// One tick of a shower, with one roll out of 1000 per column: every column whose
/// roll is below the coverage gets `intensity` units on the tile just above its
/// first impassable tile; nothing else changes.
pub fn rain_columns(water: &mut WaterGrid, terrain: &Terrain, intensity: u8, coverage: u32, rolls: &Vec<u32>)
    requires
        old(water).wf(),
        terrain.wf(),
    ensures
        final(water).wf(),
        final(water).same_shape(old(water)),
        forall|a: int, b: int|
            #[trigger] final(water).cell_at(a, b) == if old(water).rains_on(terrain, rolls@, coverage, a, b) {
                with_added(old(water).cell_at(a, b), intensity, old(water).max_depth)
            } else {
                old(water).cell_at(a, b)
            },
{
    let ghost start = *water;
    let w = water.width as i32;
    let h = water.height as i32;
    let mut x: i32 = 0;
    while x < w
        invariant
            water.wf(),
            terrain.wf(),
            water.same_shape(&start),
            start.wf(),
            w == water.width,
            h == water.height,
            0 <= x <= w,
            forall|a: int, b: int|
                #[trigger] water.cell_at(a, b) == if a < x && start.rains_on(terrain, rolls@, coverage, a, b) {
                    with_added(start.cell_at(a, b), intensity, start.max_depth)
                } else {
                    start.cell_at(a, b)
                },
        decreases w - x,
    {
        let ghost before = *water;
        if (x as usize) < rolls.len() && rolls[x as usize] < coverage {
            rain_on_column(water, terrain, x, intensity);
            proof {
                match surface_of_spec(terrain, x as int) {
                    Some(y) => {
                        if y > 0 && before.in_bounds(x as int, y - 1) {
                            lemma_single_update(&before, &*water, x as int, y - 1, with_added(before.cell_at(x as int, y - 1), intensity, before.max_depth));
                        } else {
                            assert(water.cells@ == before.cells@);
                        }
                    },
                    None => {
                        assert(water.cells@ == before.cells@);
                    },
                }
            }
        }
        proof {
            assert forall|a: int, b: int|
                #[trigger] water.cell_at(a, b) == if a < x + 1 && start.rains_on(terrain, rolls@, coverage, a, b) {
                    with_added(start.cell_at(a, b), intensity, start.max_depth)
                } else {
                    start.cell_at(a, b)
                } by {
                if a != x {
                    assert(before.cell_at(a, b) == water.cell_at(a, b));
                } else {
                    assert(before.cell_at(x as int, b) == start.cell_at(x as int, b));
                }
            }
        }
        x = x + 1;
    }
    proof {
        assert forall|a: int, b: int| #[trigger] start.rains_on(terrain, rolls@, coverage, a, b) implies a < x by {}
    }
}

/// `after` is `before` with shower `e` falling on the columns whose roll is below
/// its coverage, one roll per column.
pub open spec fn showered(before: &WaterGrid, after: &WaterGrid, terrain: &Terrain, e: RainEvent, rolls: Seq<u32>) -> bool {
    &&& rolls.len() == before.width
    &&& forall|a: int, b: int|
        #[trigger] after.cell_at(a, b) == if before.rains_on(terrain, rolls, e.coverage, a, b) {
            with_added(before.cell_at(a, b), e.intensity, before.max_depth)
        } else {
            before.cell_at(a, b)
        }
}

/// One tick of rain with `active` the shower of this tick: an ongoing shower stays
/// the active one; with none, the water is unchanged and none remains; with one,
/// it falls for some column rolls and then counts down, ending at zero.
pub open spec fn rained(
    before: &WaterGrid,
    after: &WaterGrid,
    terrain: &Terrain,
    ongoing: Option<RainEvent>,
    active: Option<RainEvent>,
    next: Option<RainEvent>,
) -> bool {
    &&& ongoing is Some ==> active == ongoing
    &&& match active {
        None => after.cells@ == before.cells@ && next is None,
        Some(e) => (exists|rolls: Seq<u32>| #[trigger] showered(before, after, terrain, e, rolls)) && next == if e.duration
            <= 1 {
            None
        } else {
            Some(RainEvent { duration: (e.duration - 1) as u32, ..e })
        },
    }
}

/// Rain for one tick. With no shower under way one starts with a chance of one in
/// `rain_chance`, with random intensity, duration and coverage in the configured
/// ranges. A shower waters each column with a chance of its coverage, then counts
/// down, and ends when no ticks are left.
pub fn rain_system(water: &mut WaterGrid, terrain: &Terrain, event: &mut Option<RainEvent>, config: &SimConfig)
    requires
        old(water).wf(),
        terrain.wf(),
    ensures
        final(water).wf(),
        final(water).same_shape(old(water)),
        match *final(event) {
            Some(e) => e.duration > 0,
            None => true,
        },
        *old(event) matches Some(e) ==> match *final(event) {
            Some(f) => f.duration == e.duration - 1 && f.intensity == e.intensity && f.coverage == e.coverage,
            None => e.duration <= 1,
        },
        exists|active: Option<RainEvent>|
            #[trigger] rained(&*old(water), &*final(water), terrain, *old(event), active, *final(event)),
{
    let cfg = &config.water;
    if event.is_none() && cfg.rain_chance > 0 && random_u32(0, cfg.rain_chance - 1) == 0 {
        let intensity = if cfg.rain_intensity_min <= cfg.rain_intensity_max {
            random_u8(cfg.rain_intensity_min, cfg.rain_intensity_max)
        } else {
            cfg.rain_intensity_min
        };
        let duration = if cfg.rain_duration_min < cfg.rain_duration_max {
            random_u32(cfg.rain_duration_min, cfg.rain_duration_max - 1)
        } else {
            cfg.rain_duration_min
        };
        let coverage = if cfg.rain_coverage_min <= cfg.rain_coverage_max {
            random_u32(cfg.rain_coverage_min, cfg.rain_coverage_max)
        } else {
            cfg.rain_coverage_min
        };
        *event = Some(RainEvent { intensity, duration, coverage });
    }
    let ghost active = *event;
    match *event {
        Some(rain) => {
            let w = water.width;
            let mut rolls: Vec<u32> = Vec::new();
            let mut i: usize = 0;
            while i < w
                invariant
                    0 <= i <= w,
                    rolls@.len() == i,
                decreases w - i,
            {
                rolls.push(random_u32(0, 999));
                i = i + 1;
            }
            rain_columns(water, terrain, rain.intensity, rain.coverage, &rolls);
            if rain.duration <= 1 {
                *event = None;
            } else {
                *event = Some(RainEvent { duration: rain.duration - 1, ..rain });
            }
            proof {
                assert(showered(&*old(water), &*water, terrain, rain, rolls@));
                assert(rained(&*old(water), &*water, terrain, *old(event), active, *event));
            }
        },
        None => {
            proof {
                assert(rained(&*old(water), &*water, terrain, *old(event), active, *event));
            }
        },
    }
}

/// Puts up to `count` pockets of water, three to seven units each, into passable
/// tiles of the lower half of the world.
pub fn spawn_water_sources(water: &mut WaterGrid, terrain: &Terrain, count: usize)
    requires
        old(water).wf(),
        terrain.wf(),
    ensures
        final(water).wf(),
        final(water).same_shape(old(water)),
{
    if water.width == 0 || water.height == 0 {
        return ;
    }
    let w = water.width as i32;
    let h = water.height as i32;
    let max_attempts: usize = if count <= usize::MAX / 20 {
        count * 20
    } else {
        usize::MAX
    };
    let mut spawned: usize = 0;
    let mut attempts: usize = 0;
    while spawned < count && attempts < max_attempts
        invariant
            water.wf(),
            terrain.wf(),
            water.same_shape(old(water)),
            w == water.width,
            h == water.height,
            w > 0,
            h > 0,
        decreases max_attempts - attempts,
    {
        attempts = attempts + 1;
        let x = random_i32(0, w - 1);
        let y = random_i32(h / 2, h - 1);
        if terrain.is_passable(x, y) {
            let amount = random_u8(3, 7);
            water.add_water(x, y, amount);
            spawned = spawned + 1;
        }
    }
}

/// Cells of earlier rows come before row `y` in row-major order.
pub proof fn lemma_row_before(a: int, b: int, y: int, w: int)
    requires
        0 <= a < w,
        0 <= b < y,
    ensures
        0 <= b * w + a < y * w,
{
    assert(b * w + a < y * w) by (nonlinear_arith)
        requires
            0 <= a < w,
            0 <= b < y,
    ;
    assert(0 <= b * w) by (nonlinear_arith)
        requires
            0 <= b,
            0 <= w,
    ;
}

proof fn lemma_dry_total(s: Seq<WaterCell>)
    requires
        forall|i: int| 0 <= i < s.len() ==> s[i] == dry_cell(),
    ensures
        total_depth(s) == 0,
    decreases s.len(),
{
    if s.len() > 0 {
        lemma_dry_total(s.drop_last());
    }
}

} // verus!
