use vstd::prelude::*;

use crate::agent::{Agent, AntState};
use crate::colony::ColonyState;
use crate::config::UNIT;
use crate::world::AgentStore;
use crate::random::random_u64;
use crate::terrain::{lemma_cell_offset, Terrain};

verus! {

/// Strongest scent a cell can hold (1.0 in fixed point).
pub const MAX_PHEROMONE: u32 = 1_000_000_000;

/// Per-tick decay of each channel, in units of `UNIT`.
pub const DECAY_FOOD: u32 = 20_000_000;
pub const DECAY_HOME: u32 = 5_000_000;
pub const DECAY_DANGER: u32 = 50_000_000;

/// Values below this are negligible: decay and diffusion zero them.
pub const SNAP_TO_ZERO: u32 = 1_000_000;

/// Base deposits before the adaptive scaling.
pub const DEPOSIT_FOOD_BASE: u32 = 50_000_000;
pub const DEPOSIT_HOME_BASE: u32 = 30_000_000;
pub const DEPOSIT_DANGER_BASE: u32 = 100_000_000;

/// Share of a cell's scent that spreads to its neighbours each tick.
pub const DIFFUSION_RATE: u32 = 50_000_000;

/// Manhattan radius around the nest where home scent is laid.
pub const HOME_DEPOSIT_RADIUS: i32 = 30;

/// Manhattan radius around the nest where digging ants lay home scent.
pub const DIG_DEPOSIT_RADIUS: i32 = 20;

/// Weights of the spread toward side and corner neighbours (about 1 and 1/sqrt 2).
pub const CARDINAL_WEIGHT: u64 = 1000;
pub const DIAGONAL_WEIGHT: u64 = 707;
pub const TOTAL_WEIGHT: u64 = 6828;

/// Scent channels.
#[derive(Clone, Copy, Debug, PartialEq, Eq, Structural)]
pub enum PheromoneType {
    Food,
    Home,
    Danger,
}

pub open spec fn channel(t: PheromoneType) -> int {
    match t {
        PheromoneType::Food => 0,
        PheromoneType::Home => 1,
        PheromoneType::Danger => 2,
    }
}

/// Decay rate of the channel at offset `k` of a colony's three slots.
pub open spec fn decay_rate(k: int) -> u32 {
    if k == 0 {
        DECAY_FOOD
    } else if k == 1 {
        DECAY_HOME
    } else {
        DECAY_DANGER
    }
}

/// `v` after one tick of decay at rate `rate`, zeroed when negligible.
pub open spec fn decayed(v: u32, rate: u32) -> u32 {
    let d = v - v * rate / (UNIT as int);
    if d < SNAP_TO_ZERO {
        0
    } else {
        d as u32
    }
}

/// Increment that an adaptive deposit of `base` adds to a cell holding `current`.
pub open spec fn adaptive_increment(current: u32, base: u32) -> int {
    let e = base * (MAX_PHEROMONE - current) / (MAX_PHEROMONE as int);
    if current + e < MAX_PHEROMONE {
        e
    } else {
        MAX_PHEROMONE - current
    }
}

/// Offset of the `k`-th of the eight neighbours: sides first, then corners.
pub open spec fn neighbour_offset(k: int) -> (int, int) {
    if k == 0 {
        (0, -1)
    } else if k == 1 {
        (0, 1)
    } else if k == 2 {
        (-1, 0)
    } else if k == 3 {
        (1, 0)
    } else if k == 4 {
        (-1, -1)
    } else if k == 5 {
        (1, -1)
    } else if k == 6 {
        (-1, 1)
    } else {
        (1, 1)
    }
}

pub fn neighbour_offset_exec(k: usize) -> (r: (i32, i32))
    ensures
        (r.0 as int, r.1 as int) == neighbour_offset(k as int),
        -1 <= r.0 <= 1,
        -1 <= r.1 <= 1,
{
    match k {
        0 => (0, -1),
        1 => (0, 1),
        2 => (-1, 0),
        3 => (1, 0),
        4 => (-1, -1),
        5 => (1, -1),
        6 => (-1, 1),
        _ => (1, 1),
    }
}

/// Sum of a sequence of intensities.
pub open spec fn total_scent(s: Seq<u32>) -> int
    decreases s.len(),
{
    if s.len() == 0 {
        0
    } else {
        total_scent(s.drop_last()) + s.last()
    }
}

proof fn lemma_total_scent_zero(s: Seq<u32>)
    requires
        forall|i: int| 0 <= i < s.len() ==> s[i] == 0,
    ensures
        total_scent(s) == 0,
    decreases s.len(),
{
    if s.len() > 0 {
        lemma_total_scent_zero(s.drop_last());
    }
}

/// Per-tile, per-colony, per-channel scent intensities, with a scratch buffer for diffusion.
pub struct PheromoneGrid {
    pub width: usize,
    pub height: usize,
    pub data: Vec<u32>,
    pub buffer: Vec<u32>,
    pub max_colonies: usize,
}

impl PheromoneGrid {
    /// Storage fits the grid and every intensity lies in `[0, MAX_PHEROMONE]`.
    pub open spec fn wf(&self) -> bool {
        &&& self.max_colonies > 0
        &&& self.data@.len() == self.width * self.height * self.max_colonies * 3
        &&& self.buffer@.len() == self.data@.len()
        &&& self.width <= i32::MAX
        &&& self.height <= i32::MAX
        &&& self.max_colonies <= 256
        &&& forall|i: int| 0 <= i < self.data@.len() ==> #[trigger] self.data@[i] <= MAX_PHEROMONE
    }

    pub open spec fn in_bounds(&self, x: int, y: int) -> bool {
        0 <= x < self.width && 0 <= y < self.height
    }

    /// Colony ids beyond the capacity share the last slot.
    pub open spec fn slot(&self, colony: int) -> int {
        if colony < self.max_colonies {
            colony
        } else {
            self.max_colonies - 1
        }
    }

    pub open spec fn idx(&self, x: int, y: int, colony: int, t: PheromoneType) -> int {
        ((y * self.width + x) * self.max_colonies + self.slot(colony)) * 3 + channel(t)
    }

    /// Intensity at (x, y) for a colony and channel; zero outside the grid.
    pub open spec fn value(&self, x: int, y: int, colony: int, t: PheromoneType) -> u32 {
        if self.in_bounds(x, y) {
            self.data@[self.idx(x, y, colony, t)]
        } else {
            0
        }
    }

    pub open spec fn total(&self) -> int {
        total_scent(self.data@)
    }

    pub open spec fn same_shape(&self, other: &PheromoneGrid) -> bool {
        &&& self.width == other.width
        &&& self.height == other.height
        &&& self.max_colonies == other.max_colonies
        &&& self.data@.len() == other.data@.len()
    }

    /// An empty field for `max_colonies` colonies.
    pub fn new(width: usize, height: usize, max_colonies: usize) -> (r: PheromoneGrid)
        requires
            width * height * max_colonies * 3 <= usize::MAX,
            width <= i32::MAX,
            height <= i32::MAX,
            0 < max_colonies <= 256,
        ensures
            r.wf(),
            r.width == width,
            r.height == height,
            r.max_colonies == max_colonies,
            r.total() == 0,
            forall|i: int| 0 <= i < r.data@.len() ==> r.data@[i] == 0,
    {
        proof {
            assert(width * height <= width * height * max_colonies * 3) by (nonlinear_arith)
                requires
                    max_colonies >= 1,
            ;
            assert(width * height * max_colonies <= width * height * max_colonies * 3) by (nonlinear_arith)
                requires
                    max_colonies >= 1,
            ;
        }
        let size: usize = width * height * max_colonies * 3;
        let data = vec![0u32; size];
        let buffer = vec![0u32; size];
        let r = PheromoneGrid { width, height, data, buffer, max_colonies };
        proof {
            lemma_total_scent_zero(r.data@);
        }
        r
    }

    fn index(&self, x: i32, y: i32, colony: u8, ptype: PheromoneType) -> (r: Option<usize>)
        requires
            self.wf(),
        ensures
            r.is_some() == self.in_bounds(x as int, y as int),
            r.is_some() ==> r.unwrap() == self.idx(x as int, y as int, colony as int, ptype),
            r.is_some() ==> r.unwrap() < self.data@.len(),
    {
        let n = self.data.len();
        if x < 0 || y < 0 || x as usize >= self.width || y as usize >= self.height {
            return None;
        }
        let slot: usize = if (colony as usize) < self.max_colonies {
            colony as usize
        } else {
            self.max_colonies - 1
        };
        let t: usize = match ptype {
            PheromoneType::Food => 0,
            PheromoneType::Home => 1,
            PheromoneType::Danger => 2,
        };
        proof {
            lemma_slot_offset(x as int, y as int, slot as int, t as int, self.width as int, self.height as int, self.max_colonies as int);
        }
        Some(((y as usize * self.width + x as usize) * self.max_colonies + slot) * 3 + t)
    }

    /// Intensity at (x, y); zero outside the grid.
    pub fn get(&self, x: i32, y: i32, colony: u8, ptype: PheromoneType) -> (r: u32)
        requires
            self.wf(),
        ensures
            r == self.value(x as int, y as int, colony as int, ptype),
            r <= MAX_PHEROMONE,
    {
        match self.index(x, y, colony, ptype) {
            Some(i) => self.data[i],
            None => 0,
        }
    }

    /// Adds `amount`, capped at the maximum; ignored outside the grid.
    pub fn deposit(&mut self, x: i32, y: i32, colony: u8, ptype: PheromoneType, amount: u32)
        requires
            old(self).wf(),
        ensures
            final(self).wf(),
            final(self).same_shape(old(self)),
            final(self).data@ == if old(self).in_bounds(x as int, y as int) {
                old(self).data@.update(
                    old(self).idx(x as int, y as int, colony as int, ptype),
                    if old(self).value(x as int, y as int, colony as int, ptype) + amount < MAX_PHEROMONE {
                        (old(self).value(x as int, y as int, colony as int, ptype) + amount) as u32
                    } else {
                        MAX_PHEROMONE
                    },
                )
            } else {
                old(self).data@
            },
    {
        match self.index(x, y, colony, ptype) {
            Some(i) => {
                let sum: u64 = self.data[i] as u64 + amount as u64;
                let v: u32 = if sum < MAX_PHEROMONE as u64 {
                    sum as u32
                } else {
                    MAX_PHEROMONE
                };
                self.data.set(i, v);
            },
            None => {},
        }
    }

    /// Adds `base * (1 - current / max)`, so that deposits shrink as the cell fills
    /// and never take it past the maximum; ignored outside the grid.
    pub fn deposit_adaptive(&mut self, x: i32, y: i32, colony: u8, ptype: PheromoneType, base_amount: u32)
        requires
            old(self).wf(),
        ensures
            final(self).wf(),
            final(self).same_shape(old(self)),
            final(self).data@ == if old(self).in_bounds(x as int, y as int) {
                old(self).data@.update(
                    old(self).idx(x as int, y as int, colony as int, ptype),
                    (old(self).value(x as int, y as int, colony as int, ptype) + adaptive_increment(
                        old(self).value(x as int, y as int, colony as int, ptype),
                        base_amount,
                    )) as u32,
                )
            } else {
                old(self).data@
            },
            forall|j: int| 0 <= j < old(self).data@.len() ==> #[trigger] final(self).data@[j] >= old(self).data@[j],
            forall|j: int|
                0 <= j < old(self).data@.len() && j % 3 != channel(ptype) ==> #[trigger] final(self).data@[j]
                    == old(self).data@[j],
    {
        match self.index(x, y, colony, ptype) {
            Some(i) => {
                let current = self.data[i];
                let v = adaptive_deposit_value(current, base_amount);
                self.data.set(i, v);
                proof {
                    lemma_idx_channel(self, x as int, y as int, colony as int, ptype);
                }
            },
            None => {},
        }
    }

    /// One tick of decay on every intensity, each channel at its own rate.
    pub fn decay_all(&mut self)
        requires
            old(self).wf(),
        ensures
            final(self).wf(),
            final(self).same_shape(old(self)),
            forall|i: int|
                0 <= i < old(self).data@.len() ==> #[trigger] final(self).data@[i] == decayed(
                    old(self).data@[i],
                    decay_rate(i % 3),
                ),
    {
        let n = self.data.len();
        let mut i: usize = 0;
        while i < n
            invariant
                n == self.data@.len(),
                self.wf(),
                self.same_shape(old(self)),
                0 <= i <= n,
                forall|j: int| 0 <= j < i ==> #[trigger] self.data@[j] == decayed(old(self).data@[j], decay_rate(j % 3)),
                forall|j: int| i <= j < n ==> #[trigger] self.data@[j] == old(self).data@[j],
            decreases n - i,
        {
            let v = self.data[i];
            let rate: u32 = if i % 3 == 0 {
                DECAY_FOOD
            } else if i % 3 == 1 {
                DECAY_HOME
            } else {
                DECAY_DANGER
            };
            proof {
                assert(v * rate <= v * 1_000_000_000) by (nonlinear_arith)
                    requires
                        rate <= 1_000_000_000,
                        v >= 0,
                ;
                assert(v * 1_000_000_000 <= 0xFFFF_FFFFu64 * 1_000_000_000) by (nonlinear_arith)
                    requires
                        v <= 0xFFFF_FFFFu64,
                ;
                assert((v * rate) / 1_000_000_000 <= v) by (nonlinear_arith)
                    requires
                        v * rate <= v * 1_000_000_000,
                        v >= 0,
                ;
            }
            let loss: u64 = v as u64 * rate as u64 / UNIT as u64;
            let d: u32 = (v as u64 - loss) as u32;
            let nv: u32 = if d < SNAP_TO_ZERO {
                0
            } else {
                d
            };
            self.data.set(i, nv);
            i = i + 1;
        }
    }
}

fn channel_of(k: usize) -> (r: PheromoneType)
    requires
        k < 3,
    ensures
        channel(r) == k,
        r == channel_from(k as int),
{
    if k == 0 {
        PheromoneType::Food
    } else if k == 1 {
        PheromoneType::Home
    } else {
        PheromoneType::Danger
    }
}

/// Weight of the spread toward the `k`-th neighbour: sides first, then corners.
pub open spec fn spread_weight(k: int) -> int {
    if k < 4 {
        CARDINAL_WEIGHT as int
    } else {
        DIAGONAL_WEIGHT as int
    }
}

/// Share of a value `v` that diffusion sends toward the `k`-th neighbour: the
/// diffusion rate's part of `v`, weighted; a negligible value sends nothing.
pub open spec fn share(v: u32, k: int) -> int {
    if v < SNAP_TO_ZERO {
        0
    } else {
        (v * DIFFUSION_RATE / (UNIT as int)) * spread_weight(k) / (TOTAL_WEIGHT as int)
    }
}

fn share_exec(v: u32, k: usize) -> (r: u64)
    ensures
        r == share(v, k as int),
        r <= 100_000_000,
{
    if v < SNAP_TO_ZERO {
        return 0;
    }
    proof {
        assert(v * 50_000_000 <= 0xFFFF_FFFFu64 * 50_000_000) by (nonlinear_arith)
            requires
                v <= 0xFFFF_FFFFu64,
        ;
        assert((v * 50_000_000) / 1_000_000_000 <= 0xFFFF_FFFFu64 / 20 + 1) by (nonlinear_arith)
            requires
                v <= 0xFFFF_FFFFu64,
        ;
    }
    let spread: u64 = v as u64 * DIFFUSION_RATE as u64 / UNIT as u64;
    let weight: u64 = if k < 4 {
        CARDINAL_WEIGHT
    } else {
        DIAGONAL_WEIGHT
    };
    proof {
        assert(spread * weight <= (0xFFFF_FFFFu64 / 20 + 1) * 1000) by (nonlinear_arith)
            requires
                spread <= 0xFFFF_FFFFu64 / 20 + 1,
                weight <= 1000,
        ;
        assert(spread * weight / 6828 <= 100_000_000) by (nonlinear_arith)
            requires
                spread * weight <= (0xFFFF_FFFFu64 / 20 + 1) * 1000,
        ;
    }
    spread * weight / TOTAL_WEIGHT
}

impl PheromoneGrid {
    /// What (x, y) sends to its first `k` neighbours that lie in the grid.
    pub open spec fn sent(&self, x: int, y: int, colony: int, t: PheromoneType, k: int) -> int
        decreases k,
    {
        if k <= 0 {
            0
        } else {
            self.sent(x, y, colony, t, k - 1) + if self.in_bounds(
                x + neighbour_offset(k - 1).0,
                y + neighbour_offset(k - 1).1,
            ) {
                share(self.value(x, y, colony, t), k - 1)
            } else {
                0
            }
        }
    }

    /// What (x, y) receives from its first `k` neighbours.
    pub open spec fn received(&self, x: int, y: int, colony: int, t: PheromoneType, k: int) -> int
        decreases k,
    {
        if k <= 0 {
            0
        } else {
            self.received(x, y, colony, t, k - 1) + share(self.neighbour_value(x, y, colony, t, k - 1), k - 1)
        }
    }

    /// Value of (x, y) after one diffusion pass, from this field only: what it keeps
    /// (all but what it sends into the grid; nothing when negligible) plus what its
    /// neighbours send it, capped at the maximum.
    pub open spec fn diffused(&self, x: int, y: int, colony: int, t: PheromoneType) -> u32 {
        let v = self.value(x, y, colony, t);
        let keep = if v < SNAP_TO_ZERO {
            0
        } else if self.sent(x, y, colony, t, 8) <= v {
            v - self.sent(x, y, colony, t, 8)
        } else {
            0
        };
        let total = keep + self.received(x, y, colony, t, 8);
        if total < MAX_PHEROMONE {
            total as u32
        } else {
            MAX_PHEROMONE
        }
    }

    /// Coordinates of the flat offset `j`: position, colony slot and channel.
    pub open spec fn coords(&self, j: int) -> (int, int, int, int) {
        let r = j / 3;
        let cell = r / (self.max_colonies as int);
        (cell % (self.width as int), cell / (self.width as int), r % (self.max_colonies as int), j % 3)
    }

    /// The new value of one slot.
    fn diffused_value(&self, x: i32, y: i32, colony: u8, ptype: PheromoneType) -> (r: u32)
        requires
            self.wf(),
        ensures
            r == self.diffused(x as int, y as int, colony as int, ptype),
            r <= MAX_PHEROMONE,
    {
        let v = self.get(x, y, colony, ptype);
        let mut sent: u64 = 0;
        let mut received: u64 = 0;
        let mut k: usize = 0;
        while k < 8
            invariant
                self.wf(),
                0 <= k <= 8,
                v == self.value(x as int, y as int, colony as int, ptype),
                sent == self.sent(x as int, y as int, colony as int, ptype, k as int),
                received == self.received(x as int, y as int, colony as int, ptype, k as int),
                sent <= k * 100_000_000,
                received <= k * 100_000_000,
            decreases 8 - k,
        {
            let (dx, dy) = neighbour_offset_exec(k);
            let nx: i64 = x as i64 + dx as i64;
            let ny: i64 = y as i64 + dy as i64;
            if nx >= 0 && ny >= 0 && nx < self.width as i64 && ny < self.height as i64 {
                sent = sent + share_exec(v, k);
            }
            let n = self.get_offset(x, y, dx, dy, colony, ptype);
            received = received + share_exec(n, k);
            k = k + 1;
        }
        let keep: u64 = if v < SNAP_TO_ZERO {
            0
        } else if sent <= v as u64 {
            v as u64 - sent
        } else {
            0
        };
        let total = keep + received;
        if total < MAX_PHEROMONE as u64 {
            total as u32
        } else {
            MAX_PHEROMONE
        }
    }

    /// One diffusion pass, computed entirely from the field before it into the
    /// scratch buffer, which then becomes the field. Every non-negligible value
    /// sends a fixed share to each neighbour in the grid, weighted 1 to the sides
    /// and 0.707 to the corners, and keeps the rest; negligible values vanish.
    pub fn diffuse(&mut self)
        requires
            old(self).wf(),
        ensures
            final(self).wf(),
            final(self).same_shape(old(self)),
            forall|x: int, y: int, c: int, t: PheromoneType|
                old(self).in_bounds(x, y) && 0 <= c < old(self).max_colonies ==> #[trigger] final(self).value(x, y, c, t)
                    == old(self).diffused(x, y, c, t),
    {
        let n = self.data.len();
        let w = self.width;
        let mc = self.max_colonies;
        let mut j: usize = 0;
        while j < n
            invariant
                self.wf(),
                self.same_shape(old(self)),
                self.data@ == old(self).data@,
                n == self.data@.len(),
                w == self.width,
                mc == self.max_colonies,
                0 <= j <= n,
                forall|i: int| 0 <= i < j ==> #[trigger] self.buffer@[i] == old(self).diffused(
                    old(self).coords(i).0,
                    old(self).coords(i).1,
                    old(self).coords(i).2,
                    channel_from(old(self).coords(i).3),
                ),
                forall|i: int| 0 <= i < j ==> #[trigger] self.buffer@[i] <= MAX_PHEROMONE,
            decreases n - j,
        {
            proof {
                lemma_coords_in_range(self, j as int);
            }
            let t = j % 3;
            let r = j / 3;
            let c = r % mc;
            let cell = r / mc;
            let x = cell % w;
            let y = cell / w;
            let v = self.diffused_value(x as i32, y as i32, c as u8, channel_of(t));
            proof {
                lemma_same_field(self, old(self), x as int, y as int, c as int, channel_from(t as int));
            }
            self.buffer.set(j, v);
            j = j + 1;
        }
        std::mem::swap(&mut self.data, &mut self.buffer);
        proof {
            assert forall|x: int, y: int, c: int, t: PheromoneType|
                old(self).in_bounds(x, y) && 0 <= c < old(self).max_colonies implies #[trigger] self.value(x, y, c, t)
                    == old(self).diffused(x, y, c, t) by {
                let i = old(self).idx(x, y, c, t);
                lemma_slot_offset(x, y, c, channel(t), w as int, old(self).height as int, mc as int);
                lemma_coords_of_idx(old(self), x, y, c, t);
            }
        }
    }
}

/// The channel with the given offset in a colony's three slots.
pub open spec fn channel_from(k: int) -> PheromoneType {
    if k == 0 {
        PheromoneType::Food
    } else if k == 1 {
        PheromoneType::Home
    } else {
        PheromoneType::Danger
    }
}

/// Diffusion results depend on the field's values and shape only.
proof fn lemma_same_field(a: &PheromoneGrid, b: &PheromoneGrid, x: int, y: int, c: int, t: PheromoneType)
    requires
        a.data@ == b.data@,
        a.width == b.width,
        a.height == b.height,
        a.max_colonies == b.max_colonies,
    ensures
        a.diffused(x, y, c, t) == b.diffused(x, y, c, t),
{
    lemma_same_sums(a, b, x, y, c, t, 8);
}

proof fn lemma_same_sums(a: &PheromoneGrid, b: &PheromoneGrid, x: int, y: int, c: int, t: PheromoneType, k: int)
    requires
        a.data@ == b.data@,
        a.width == b.width,
        a.height == b.height,
        a.max_colonies == b.max_colonies,
    ensures
        a.sent(x, y, c, t, k) == b.sent(x, y, c, t, k),
        a.received(x, y, c, t, k) == b.received(x, y, c, t, k),
    decreases k,
{
    if k > 0 {
        lemma_same_sums(a, b, x, y, c, t, k - 1);
    }
}

/// The coordinates of an offset inside the field are in range.
proof fn lemma_coords_in_range(g: &PheromoneGrid, j: int)
    requires
        g.wf(),
        0 <= j < g.data@.len(),
    ensures
        g.width > 0,
        ({
            let (x, y, c, t) = g.coords(j);
            &&& 0 <= x < g.width
            &&& 0 <= y < g.height
            &&& 0 <= c < g.max_colonies
            &&& 0 <= t < 3
        }),
{
    let w = g.width as int;
    let h = g.height as int;
    let m = g.max_colonies as int;
    let r = j / 3;
    let cell = r / m;
    assert(w > 0) by (nonlinear_arith)
        requires
            0 <= j < w * h * m * 3,
            w >= 0,
            h >= 0,
            m > 0,
    ;
    vstd::arithmetic::div_mod::lemma_fundamental_div_mod(j, 3);
    vstd::arithmetic::div_mod::lemma_fundamental_div_mod(r, m);
    vstd::arithmetic::div_mod::lemma_fundamental_div_mod(cell, w);
    vstd::arithmetic::div_mod::lemma_mod_pos_bound(j, 3);
    vstd::arithmetic::div_mod::lemma_mod_pos_bound(r, m);
    vstd::arithmetic::div_mod::lemma_mod_pos_bound(cell, w);
    vstd::arithmetic::div_mod::lemma_div_pos_is_pos(j, 3);
    vstd::arithmetic::div_mod::lemma_div_pos_is_pos(r, m);
    vstd::arithmetic::div_mod::lemma_div_pos_is_pos(cell, w);
    assert(cell / w < h) by (nonlinear_arith)
        requires
            j < w * h * m * 3,
            j == 3 * r + j % 3,
            r == m * cell + r % m,
            cell == w * (cell / w) + cell % w,
            0 <= j % 3,
            0 <= r % m,
            0 <= cell % w,
            w > 0,
            m > 0,
            cell / w >= 0,
    ;
}

/// Decomposing the offset of a slot gives back its coordinates.
proof fn lemma_coords_of_idx(g: &PheromoneGrid, x: int, y: int, c: int, t: PheromoneType)
    requires
        g.wf(),
        g.in_bounds(x, y),
        0 <= c < g.max_colonies,
    ensures
        g.coords(g.idx(x, y, c, t)) == (x, y, c, channel(t)),
        channel_from(channel(t)) == t,
{
    let w = g.width as int;
    let m = g.max_colonies as int;
    let cell = y * w + x;
    let r = cell * m + c;
    let j = r * 3 + channel(t);
    assert(g.slot(c) == c);
    vstd::arithmetic::div_mod::lemma_fundamental_div_mod_converse(j, 3, r, channel(t));
    vstd::arithmetic::div_mod::lemma_fundamental_div_mod_converse(r, m, cell, c);
    vstd::arithmetic::div_mod::lemma_fundamental_div_mod_converse(cell, w, y, x);
}

/// Neighbours weaker than this are not followed by the weighted choice (0.01).
pub const GRADIENT_THRESHOLD: u32 = 10_000_000;

impl PheromoneGrid {
    /// Intensity at the `k`-th neighbour of (x, y).
    pub open spec fn neighbour_value(&self, x: int, y: int, colony: int, t: PheromoneType, k: int) -> u32 {
        self.value(x + neighbour_offset(k).0, y + neighbour_offset(k).1, colony, t)
    }

    /// Weight of the `k`-th neighbour in the weighted choice: its square when above
    /// the threshold, else nothing.
    pub open spec fn choice_weight(&self, x: int, y: int, colony: int, t: PheromoneType, k: int) -> int {
        let s = self.neighbour_value(x, y, colony, t, k);
        if s > GRADIENT_THRESHOLD {
            s * s
        } else {
            0
        }
    }

    /// Sum of the weights of the first `k` neighbours.
    pub open spec fn weight_prefix(&self, x: int, y: int, colony: int, t: PheromoneType, k: int) -> int
        decreases k,
    {
        if k <= 0 {
            0
        } else {
            self.weight_prefix(x, y, colony, t, k - 1) + self.choice_weight(x, y, colony, t, k - 1)
        }
    }

    /// `r` is the strongest neighbour, if stronger than (x, y) itself; among equals
    /// the first in neighbour order.
    pub open spec fn gradient_choice(&self, x: int, y: int, colony: int, t: PheromoneType, r: Option<(i32, i32)>) -> bool {
        &&& r is None ==> forall|k: int|
            0 <= k < 8 ==> #[trigger] self.neighbour_value(x, y, colony, t, k) <= self.value(x, y, colony, t)
        &&& r matches Some(d) ==> exists|k: int|
            0 <= k < 8 && #[trigger] neighbour_offset(k) == (d.0 as int, d.1 as int)
            && self.neighbour_value(x, y, colony, t, k) > self.value(x, y, colony, t)
            && (forall|j: int| 0 <= j < 8 ==> self.neighbour_value(x, y, colony, t, j) <= self.neighbour_value(x, y, colony, t, k))
            && (forall|j: int| 0 <= j < k ==> self.neighbour_value(x, y, colony, t, j) < self.neighbour_value(x, y, colony, t, k))
    }

    /// Intensity at (x + dx, y + dy); zero outside the grid.
    pub fn get_offset(&self, x: i32, y: i32, dx: i32, dy: i32, colony: u8, ptype: PheromoneType) -> (r: u32)
        requires
            self.wf(),
            -1 <= dx <= 1,
            -1 <= dy <= 1,
        ensures
            r == self.value(x + dx, y + dy, colony as int, ptype),
            r <= MAX_PHEROMONE,
    {
        let nx: i64 = x as i64 + dx as i64;
        let ny: i64 = y as i64 + dy as i64;
        if nx < 0 || ny < 0 || nx > i32::MAX as i64 || ny > i32::MAX as i64 {
            return 0;
        }
        self.get(nx as i32, ny as i32, colony, ptype)
    }

    /// The strongest neighbour, if stronger than (x, y) itself; among equals the
    /// first in neighbour order, so ties keep the agent where it is.
    pub fn get_gradient(&self, x: i32, y: i32, colony: u8, ptype: PheromoneType) -> (r: Option<(i32, i32)>)
        requires
            self.wf(),
        ensures
            self.gradient_choice(x as int, y as int, colony as int, ptype, r),
    {
        let own = self.get(x, y, colony, ptype);
        let mut best: Option<(i32, i32)> = None;
        let ghost mut best_k: int = -1;
        let mut best_strength = own;
        let mut k: usize = 0;
        while k < 8
            invariant
                self.wf(),
                0 <= k <= 8,
                own == self.value(x as int, y as int, colony as int, ptype),
                best is None ==> best_k == -1 && best_strength == own,
                best matches Some(d) ==> 0 <= best_k < k && neighbour_offset(best_k) == (d.0 as int, d.1 as int)
                    && best_strength == self.neighbour_value(x as int, y as int, colony as int, ptype, best_k)
                    && best_strength > own
                    && (forall|j: int| 0 <= j < best_k ==> self.neighbour_value(x as int, y as int, colony as int, ptype, j)
                        < best_strength),
                forall|j: int| 0 <= j < k ==> #[trigger] self.neighbour_value(x as int, y as int, colony as int, ptype, j)
                    <= best_strength,
            decreases 8 - k,
        {
            let (dx, dy) = neighbour_offset_exec(k);
            let strength = self.get_offset(x, y, dx, dy, colony, ptype);
            if strength > best_strength {
                best_strength = strength;
                best = Some((dx, dy));
                proof {
                    best_k = k as int;
                }
            }
            k = k + 1;
        }
        proof {
            if best is Some {
                assert(self.neighbour_value(x as int, y as int, colony as int, ptype, best_k) > own);
            }
        }
        best
    }

    /// The neighbour that the weighted choice picks for `roll`: with no neighbour
    /// above the threshold, none; else the one whose share of the running weight
    /// total covers `roll`, or the last eligible one when `roll` is past the total.
    pub open spec fn weighted_pick(&self, x: int, y: int, colony: int, t: PheromoneType, roll: int) -> Option<(int, int)> {
        let total = self.weight_prefix(x, y, colony, t, 8);
        if total == 0 {
            None
        } else if roll < total {
            Some(neighbour_offset(choose|k: int|
                0 <= k < 8 && #[trigger] self.weight_prefix(x, y, colony, t, k) <= roll < self.weight_prefix(x, y, colony, t, k + 1)))
        } else {
            Some(neighbour_offset(choose|k: int|
                0 <= k < 8 && #[trigger] self.choice_weight(x, y, colony, t, k) > 0
                && forall|j: int| k < j < 8 ==> self.choice_weight(x, y, colony, t, j) == 0))
        }
    }

    /// The weighted choice for a given `roll`, as `weighted_pick` defines it.
    pub fn pick_weighted(&self, x: i32, y: i32, colony: u8, ptype: PheromoneType, roll: u64) -> (r: Option<(i32, i32)>)
        requires
            self.wf(),
        ensures
            match r {
                Some(d) => self.weighted_pick(x as int, y as int, colony as int, ptype, roll as int)
                    == Some((d.0 as int, d.1 as int)),
                None => self.weighted_pick(x as int, y as int, colony as int, ptype, roll as int) is None,
            },
    {
        let ghost gx = x as int;
        let ghost gy = y as int;
        let ghost gc = colony as int;
        let mut cum: u64 = 0;
        let mut found: Option<(i32, i32)> = None;
        let ghost mut found_k: int = -1;
        let mut last: Option<(i32, i32)> = None;
        let ghost mut last_k: int = -1;
        let mut k: usize = 0;
        while k < 8
            invariant
                self.wf(),
                0 <= k <= 8,
                gx == x as int,
                gy == y as int,
                gc == colony as int,
                cum == self.weight_prefix(gx, gy, gc, ptype, k as int),
                cum <= k * 1_000_000_000_000_000_000,
                found is None ==> cum <= roll,
                found matches Some(d) ==> 0 <= found_k < k && neighbour_offset(found_k) == (d.0 as int, d.1 as int)
                    && self.weight_prefix(gx, gy, gc, ptype, found_k) <= roll < self.weight_prefix(gx, gy, gc, ptype, found_k + 1),
                last is None ==> last_k == -1 && cum == 0,
                last matches Some(d) ==> 0 <= last_k < k && neighbour_offset(last_k) == (d.0 as int, d.1 as int)
                    && self.choice_weight(gx, gy, gc, ptype, last_k) > 0,
                forall|j: int| last_k < j < k ==> #[trigger] self.choice_weight(gx, gy, gc, ptype, j) == 0,
            decreases 8 - k,
        {
            let (dx, dy) = neighbour_offset_exec(k);
            let s = self.get_offset(x, y, dx, dy, colony, ptype);
            assert(s == self.neighbour_value(gx, gy, gc, ptype, k as int));
            if s > GRADIENT_THRESHOLD {
                proof {
                    assert(s * s <= 1_000_000_000 * 1_000_000_000) by (nonlinear_arith)
                        requires
                            s <= 1_000_000_000,
                    ;
                }
                let wgt: u64 = s as u64 * s as u64;
                let before = cum;
                cum = cum + wgt;
                if found.is_none() && roll < cum {
                    found = Some((dx, dy));
                    proof {
                        found_k = k as int;
                    }
                }
                last = Some((dx, dy));
                proof {
                    last_k = k as int;
                    assert(s * s > 0) by (nonlinear_arith)
                        requires
                            s > 10_000_000,
                    ;
                }
            }
            k = k + 1;
        }
        proof {
            let total = self.weight_prefix(gx, gy, gc, ptype, 8);
            if last is Some {
                lemma_prefix_monotone(self, gx, gy, gc, ptype, 0, last_k);
                lemma_prefix_monotone(self, gx, gy, gc, ptype, last_k + 1, 8);
            }
            if total != 0 {
                assert(last is Some);
                if roll < total {
                    assert(found is Some);
                    assert(0 <= found_k < 8 && self.weight_prefix(gx, gy, gc, ptype, found_k) <= roll < self.weight_prefix(gx, gy, gc, ptype, found_k + 1));
                    let c = choose|k: int| 0 <= k < 8 && #[trigger] self.weight_prefix(gx, gy, gc, ptype, k) <= roll < self.weight_prefix(gx, gy, gc, ptype, k + 1);
                    lemma_prefix_unique(self, gx, gy, gc, ptype, roll as int, c, found_k);
                } else {
                    if found is Some {
                        lemma_prefix_monotone(self, gx, gy, gc, ptype, found_k + 1, 8);
                    }
                    assert(found is None);
                    let c = choose|k: int| 0 <= k < 8 && #[trigger] self.choice_weight(gx, gy, gc, ptype, k) > 0
                        && forall|j: int| k < j < 8 ==> self.choice_weight(gx, gy, gc, ptype, j) == 0;
                    assert(0 <= last_k < 8 && self.choice_weight(gx, gy, gc, ptype, last_k) > 0
                        && forall|j: int| last_k < j < 8 ==> self.choice_weight(gx, gy, gc, ptype, j) == 0);
                    if c < last_k {
                        assert(self.choice_weight(gx, gy, gc, ptype, last_k) == 0);
                    } else if c > last_k {
                        assert(self.choice_weight(gx, gy, gc, ptype, c) == 0);
                    }
                }
            }
        }
        if found.is_some() {
            found
        } else {
            last
        }
    }

    /// Weighted-random choice among the neighbours above the threshold, each picked
    /// with probability proportional to the square of its strength.
    pub fn get_gradient_weighted(&self, x: i32, y: i32, colony: u8, ptype: PheromoneType) -> (r: Option<(i32, i32)>)
        requires
            self.wf(),
        ensures
            r is None <==> self.weight_prefix(x as int, y as int, colony as int, ptype, 8) == 0,
            r matches Some(d) ==> exists|roll: int|
                0 <= roll < self.weight_prefix(x as int, y as int, colony as int, ptype, 8)
                && #[trigger] self.weighted_pick(x as int, y as int, colony as int, ptype, roll) == Some((d.0 as int, d.1 as int)),
    {
        let ghost gx = x as int;
        let ghost gy = y as int;
        let ghost gc = colony as int;
        let mut total: u64 = 0;
        let mut k: usize = 0;
        while k < 8
            invariant
                self.wf(),
                0 <= k <= 8,
                gx == x as int,
                gy == y as int,
                gc == colony as int,
                total == self.weight_prefix(gx, gy, gc, ptype, k as int),
                total <= k * 1_000_000_000_000_000_000,
            decreases 8 - k,
        {
            let (dx, dy) = neighbour_offset_exec(k);
            let s = self.get_offset(x, y, dx, dy, colony, ptype);
            assert(s == self.neighbour_value(gx, gy, gc, ptype, k as int));
            if s > GRADIENT_THRESHOLD {
                proof {
                    assert(s * s <= 1_000_000_000 * 1_000_000_000) by (nonlinear_arith)
                        requires
                            s <= 1_000_000_000,
                    ;
                }
                total = total + s as u64 * s as u64;
            }
            k = k + 1;
        }
        if total == 0 {
            let r = self.pick_weighted(x, y, colony, ptype, 0);
            return r;
        }
        let roll = random_u64(0, total - 1);
        self.pick_weighted(x, y, colony, ptype, roll)
    }
}

/// Running weight totals never decrease.
proof fn lemma_prefix_monotone(g: &PheromoneGrid, x: int, y: int, c: int, t: PheromoneType, a: int, b: int)
    requires
        0 <= a <= b,
    ensures
        g.weight_prefix(x, y, c, t, a) <= g.weight_prefix(x, y, c, t, b),
    decreases b - a,
{
    if a < b {
        lemma_prefix_monotone(g, x, y, c, t, a, b - 1);
        let s = g.neighbour_value(x, y, c, t, b - 1);
        assert(s * s >= 0) by (nonlinear_arith);
    }
}

/// At most one neighbour's share of the running total covers a given roll.
proof fn lemma_prefix_unique(g: &PheromoneGrid, x: int, y: int, c: int, t: PheromoneType, roll: int, a: int, b: int)
    requires
        0 <= a < 8,
        0 <= b < 8,
        g.weight_prefix(x, y, c, t, a) <= roll < g.weight_prefix(x, y, c, t, a + 1),
        g.weight_prefix(x, y, c, t, b) <= roll < g.weight_prefix(x, y, c, t, b + 1),
    ensures
        a == b,
{
    if a < b {
        lemma_prefix_monotone(g, x, y, c, t, a + 1, b);
    } else if b < a {
        lemma_prefix_monotone(g, x, y, c, t, b + 1, a);
    }
}

/// Repeated adaptive deposits on one cell: the cell never passes the maximum, and
/// each increment is no larger than the one before; it is strictly smaller once
/// the previous increment, scaled by the base, reaches one maximum.
pub proof fn lemma_adaptive_deposit_diminishing(current: u32, base: u32)
    requires
        current <= MAX_PHEROMONE,
        base <= MAX_PHEROMONE,
    ensures
        current + adaptive_increment(current, base) <= MAX_PHEROMONE,
        0 <= adaptive_increment(current, base),
        adaptive_increment((current + adaptive_increment(current, base)) as u32, base)
            <= adaptive_increment(current, base),
        base * adaptive_increment(current, base) >= MAX_PHEROMONE ==> adaptive_increment(
            (current + adaptive_increment(current, base)) as u32,
            base,
        ) < adaptive_increment(current, base),
{
    let m: int = MAX_PHEROMONE as int;
    let b: int = base as int;
    let c: int = current as int;
    let e = b * (m - c) / m;
    assert(0 <= b * (m - c)) by (nonlinear_arith)
        requires
            0 <= b,
            c <= m,
    ;
    assert(b * (m - c) <= m * (m - c)) by (nonlinear_arith)
        requires
            b <= m,
            c <= m,
    ;
    assert(e <= m - c) by (nonlinear_arith)
        requires
            e == b * (m - c) / m,
            b * (m - c) <= m * (m - c),
            m > 0,
            c <= m,
    ;
    assert(e >= 0) by (nonlinear_arith)
        requires
            e == b * (m - c) / m,
            b * (m - c) >= 0,
            m > 0,
    ;
    let inc = adaptive_increment(current, base);
    assert(inc == e);
    let c2: int = c + inc;
    let e2 = b * (m - c2) / m;
    assert(b * (m - c2) == b * (m - c) - b * inc) by (nonlinear_arith)
        requires
            c2 == c + inc,
    ;
    assert(0 <= b * inc) by (nonlinear_arith)
        requires
            0 <= b,
            0 <= inc,
    ;
    assert(e2 <= e) by (nonlinear_arith)
        requires
            e2 == b * (m - c2) / m,
            e == b * (m - c) / m,
            b * (m - c2) <= b * (m - c),
            m > 0,
    ;
    assert(b * (m - c2) >= 0) by (nonlinear_arith)
        requires
            0 <= b,
            c2 <= m,
    ;
    assert(b * (m - c2) <= m * (m - c2)) by (nonlinear_arith)
        requires
            b <= m,
            c2 <= m,
    ;
    assert(e2 >= 0) by (nonlinear_arith)
        requires
            e2 == b * (m - c2) / m,
            b * (m - c2) >= 0,
            m > 0,
    ;
    assert(e2 <= m - c2) by (nonlinear_arith)
        requires
            e2 == b * (m - c2) / m,
            b * (m - c2) <= m * (m - c2),
            m > 0,
            c2 <= m,
    ;
    assert(adaptive_increment(c2 as u32, base) == e2);
    if b * inc >= m {
        assert(e2 < e) by (nonlinear_arith)
            requires
                e2 == b * (m - c2) / m,
                e == b * (m - c) / m,
                b * (m - c2) + m <= b * (m - c),
                m > 0,
        ;
    }
}

/// New value of a cell holding `current` after an adaptive deposit of `base`.
pub fn adaptive_deposit_value(current: u32, base: u32) -> (r: u32)
    requires
        current <= MAX_PHEROMONE,
    ensures
        r == current + adaptive_increment(current, base),
        current <= r <= MAX_PHEROMONE,
{
    let room: u64 = (MAX_PHEROMONE - current) as u64;
    proof {
        assert(base * room <= 0xFFFF_FFFFu64 * 1_000_000_000) by (nonlinear_arith)
            requires
                base <= 0xFFFF_FFFFu64,
                room <= 1_000_000_000,
        ;
    }
    let effective: u64 = base as u64 * room / MAX_PHEROMONE as u64;
    if current as u64 + effective < MAX_PHEROMONE as u64 {
        (current as u64 + effective) as u32
    } else {
        MAX_PHEROMONE
    }
}

/// Every intensity of a field, which each of `new`, `decay_all`, `diffuse`,
/// `deposit` and `deposit_adaptive` leaves well formed, lies in `[0, MAX_PHEROMONE]`,
/// inside the grid and outside it.
pub proof fn lemma_intensity_in_range(g: &PheromoneGrid, x: int, y: int, colony: int, t: PheromoneType)
    requires
        g.wf(),
        0 <= colony,
    ensures
        0 <= g.value(x, y, colony, t) <= MAX_PHEROMONE,
{
    if g.in_bounds(x, y) {
        let s = g.slot(colony);
        lemma_slot_offset(x, y, s, channel(t), g.width as int, g.height as int, g.max_colonies as int);
    }
}

/// The offset of a value tells its channel.
pub proof fn lemma_idx_channel(g: &PheromoneGrid, x: int, y: int, colony: int, t: PheromoneType)
    ensures
        g.idx(x, y, colony, t) % 3 == channel(t),
{
    let q = (y * g.width + x) * g.max_colonies + g.slot(colony);
    vstd::arithmetic::div_mod::lemma_mod_multiples_vanish(q, channel(t), 3);
    vstd::arithmetic::div_mod::lemma_small_mod(channel(t) as nat, 3);
    assert(q * 3 + channel(t) == 3 * q + channel(t));
}

/// Offset of a slot of an in-bounds cell lies inside the field.
pub proof fn lemma_slot_offset(x: int, y: int, s: int, t: int, w: int, h: int, m: int)
    requires
        0 <= x < w,
        0 <= y < h,
        0 <= s < m,
        0 <= t < 3,
    ensures
        0 <= y * w <= y * w + x < w * h,
        0 <= (y * w + x) * m <= (y * w + x) * m + s < w * h * m,
        w * h <= w * h * m * 3,
        w * h * m <= w * h * m * 3,
        0 <= ((y * w + x) * m + s) * 3 + t < w * h * m * 3,
{
    lemma_cell_offset(x, y, w, h);
    let c = y * w + x;
    assert(0 <= c * m + s < w * h * m) by (nonlinear_arith)
        requires
            0 <= c < w * h,
            0 <= s < m,
    ;
    assert(0 <= c * m) by (nonlinear_arith)
        requires
            0 <= c,
            0 <= m,
    ;
    assert(w * h <= w * h * m * 3) by (nonlinear_arith)
        requires
            m >= 1,
            0 <= w * h,
    ;
    assert(w * h * m <= w * h * m * 3) by (nonlinear_arith)
        requires
            m >= 1,
            0 <= w * h,
    ;
}

/// Movement along the weighted scent choice, kept only when the tile it leads to is
/// passable.
pub fn follow_pheromone(
    pheromones: &PheromoneGrid,
    x: i32,
    y: i32,
    colony: u8,
    ptype: PheromoneType,
    terrain: &Terrain,
) -> (r: Option<(i32, i32)>)
    requires
        pheromones.wf(),
        terrain.wf(),
    ensures
        pheromones.weight_prefix(x as int, y as int, colony as int, ptype, 8) == 0 ==> r is None,
        r matches Some(d) ==> d != (0i32, 0i32) && -1 <= d.0 <= 1 && -1 <= d.1 <= 1,
        r matches Some(d) ==> terrain.passable(x + d.0, y + d.1) && exists|roll: int|
            0 <= roll < pheromones.weight_prefix(x as int, y as int, colony as int, ptype, 8)
            && #[trigger] pheromones.weighted_pick(x as int, y as int, colony as int, ptype, roll) == Some(
                (d.0 as int, d.1 as int),
            ),
{
    match pheromones.get_gradient_weighted(x, y, colony, ptype) {
        Some((dx, dy)) => {
            proof {
                let roll = choose|roll: int|
                    0 <= roll < pheromones.weight_prefix(x as int, y as int, colony as int, ptype, 8)
                    && #[trigger] pheromones.weighted_pick(x as int, y as int, colony as int, ptype, roll) == Some(
                        (dx as int, dy as int),
                    );
                lemma_pick_is_neighbour(pheromones, x as int, y as int, colony as int, ptype, roll);
            }
            let nx: i64 = x as i64 + dx as i64;
            let ny: i64 = y as i64 + dy as i64;
            if nx < 0 || ny < 0 || nx > i32::MAX as i64 || ny > i32::MAX as i64 {
                return None;
            }
            if terrain.is_passable(nx as i32, ny as i32) {
                Some((dx, dy))
            } else {
                None
            }
        },
        None => None,
    }
}

/// The weighted choice is always one of the eight neighbour offsets.
proof fn lemma_pick_is_neighbour(g: &PheromoneGrid, x: int, y: int, c: int, t: PheromoneType, roll: int)
    requires
        0 <= roll < g.weight_prefix(x, y, c, t, 8),
    ensures
        g.weighted_pick(x, y, c, t, roll) matches Some(d) ==> -1 <= d.0 <= 1 && -1 <= d.1 <= 1 && d != (0int, 0int),
{
    let k = choose|k: int| 0 <= k < 8 && #[trigger] g.weight_prefix(x, y, c, t, k) <= roll < g.weight_prefix(x, y, c, t, k + 1);
}

/// Base deposit scaled by closeness to the nest: `base * (1 - dist / radius)`, and
/// nothing at or beyond the radius.
pub open spec fn proximity_deposit(dist: int, radius: int, base: int) -> int {
    if 0 <= dist < radius {
        base * (radius - dist) / radius
    } else {
        0
    }
}

pub fn proximity_amount(dist: i64, radius: i32, base: u32) -> (r: u32)
    requires
        radius > 0,
    ensures
        r == proximity_deposit(dist as int, radius as int, base as int),
{
    if dist < 0 || dist >= radius as i64 {
        return 0;
    }
    proof {
        assert(base * (radius - dist) <= base * radius) by (nonlinear_arith)
            requires
                0 <= dist < radius,
                base >= 0,
        ;
        assert(base * (radius - dist) / (radius as int) <= base) by (nonlinear_arith)
            requires
                base * (radius - dist) <= base * radius,
                radius > 0,
                base >= 0,
        ;
        assert(0 <= base * (radius - dist)) by (nonlinear_arith)
            requires
                0 <= dist < radius,
                base >= 0,
        ;
        assert(base * radius <= 0xFFFF_FFFFu64 * 0x7FFF_FFFFu64) by (nonlinear_arith)
            requires
                base <= 0xFFFF_FFFFu64,
                radius <= 0x7FFF_FFFFu64,
        ;
    }
    (base as u64 * (radius as i64 - dist) as u64 / radius as u64) as u32
}

impl PheromoneGrid {
    /// `data`, shaped as this field, after an adaptive deposit of `base` at (x, y);
    /// unchanged outside the grid.
    pub open spec fn adaptive_at(&self, data: Seq<u32>, x: int, y: int, c: int, t: PheromoneType, base: u32) -> Seq<u32> {
        if self.in_bounds(x, y) {
            let i = self.idx(x, y, c, t);
            data.update(i, (data[i] + adaptive_increment(data[i], base)) as u32)
        } else {
            data
        }
    }

    /// Scent one agent lays: food scent when carrying; home scent near the nest when
    /// wandering or returning, and half as much within a smaller radius when digging.
    pub open spec fn agent_deposit(&self, data: Seq<u32>, a: Agent, colonies: Seq<ColonyState>) -> Seq<u32> {
        let c = a.colony_id as int;
        let dist = if c < colonies.len() {
            crate::food::manhattan(a.x as int, a.y as int, colonies[c].home_x as int, colonies[c].home_y as int)
        } else {
            0
        };
        if a.state == AntState::Carrying {
            self.adaptive_at(data, a.x as int, a.y as int, c, PheromoneType::Food, DEPOSIT_FOOD_BASE)
        } else if (a.state == AntState::Wandering || a.state == AntState::Returning) && c < colonies.len()
            && proximity_deposit(dist, HOME_DEPOSIT_RADIUS as int, DEPOSIT_HOME_BASE as int) > 0 {
            self.adaptive_at(
                data,
                a.x as int,
                a.y as int,
                c,
                PheromoneType::Home,
                proximity_deposit(dist, HOME_DEPOSIT_RADIUS as int, DEPOSIT_HOME_BASE as int) as u32,
            )
        } else if a.state == AntState::Digging && c < colonies.len() && proximity_deposit(
            dist,
            DIG_DEPOSIT_RADIUS as int,
            (DEPOSIT_HOME_BASE / 2) as int,
        ) > 0 {
            self.adaptive_at(
                data,
                a.x as int,
                a.y as int,
                c,
                PheromoneType::Home,
                proximity_deposit(dist, DIG_DEPOSIT_RADIUS as int, (DEPOSIT_HOME_BASE / 2) as int) as u32,
            )
        } else {
            data
        }
    }

    /// `data` after the agents of `s` lay their scent in turn.
    pub open spec fn deposited(&self, data: Seq<u32>, s: Seq<Agent>, colonies: Seq<ColonyState>) -> Seq<u32>
        decreases s.len(),
    {
        if s.len() == 0 {
            data
        } else {
            self.agent_deposit(self.deposited(data, s.drop_last(), colonies), s.last(), colonies)
        }
    }
}

/// Agents lay scent as they go: carriers lay food scent; wanderers and returners
/// lay home scent near their nest, stronger the closer; diggers lay half as much
/// home scent within a smaller radius. All deposits are adaptive.
pub fn pheromone_deposit_system(store: &AgentStore, pheromones: &mut PheromoneGrid, colonies: &Vec<ColonyState>)
    requires
        old(pheromones).wf(),
    ensures
        final(pheromones).wf(),
        final(pheromones).same_shape(old(pheromones)),
        forall|i: int| 0 <= i < old(pheromones).data@.len() ==> #[trigger] final(pheromones).data@[i] >= old(pheromones).data@[i],
        forall|i: int|
            0 <= i < old(pheromones).data@.len() && i % 3 == 2 ==> #[trigger] final(pheromones).data@[i]
                == old(pheromones).data@[i],
        exists|ids: Seq<u64>|
            ids.no_duplicates() && #[trigger] ids.to_set() == store@.dom() && final(pheromones).data@ == old(
                pheromones,
            ).deposited(old(pheromones).data@, ids.map_values(|k: u64| store@[k]), colonies@),
{
    let ids = store.ids();
    let ghost agents = ids@.map_values(|k: u64| store@[k]);
    let mut i: usize = 0;
    while i < ids.len()
        invariant
            0 <= i <= ids@.len(),
            forall|j: int| 0 <= j < ids@.len() ==> store@.contains_key(#[trigger] ids@[j]),
            pheromones.wf(),
            pheromones.same_shape(old(pheromones)),
            forall|j: int| 0 <= j < old(pheromones).data@.len() ==> #[trigger] pheromones.data@[j] >= old(pheromones).data@[j],
            forall|j: int|
                0 <= j < old(pheromones).data@.len() && j % 3 == 2 ==> #[trigger] pheromones.data@[j] == old(pheromones).data@[j],
            agents == ids@.map_values(|k: u64| store@[k]),
            pheromones.data@ == old(pheromones).deposited(old(pheromones).data@, agents.take(i as int), colonies@),
        decreases ids@.len() - i,
    {
        let a = store.get(ids[i]).unwrap();
        let c = a.colony_id as usize;
        let ghost before = pheromones.data@;
        proof {
            assert(agents[i as int] == a);
            assert(agents.take(i as int + 1).drop_last() =~= agents.take(i as int));
        }
        match a.state {
            AntState::Carrying => {
                pheromones.deposit_adaptive(a.x, a.y, a.colony_id, PheromoneType::Food, DEPOSIT_FOOD_BASE);
            },
            AntState::Wandering | AntState::Returning => {
                if c < colonies.len() {
                    let dist = crate::food::manhattan_distance(a.x, a.y, colonies[c].home_x, colonies[c].home_y);
                    let amount = proximity_amount(dist, HOME_DEPOSIT_RADIUS, DEPOSIT_HOME_BASE);
                    if amount > 0 {
                        pheromones.deposit_adaptive(a.x, a.y, a.colony_id, PheromoneType::Home, amount);
                    }
                }
            },
            AntState::Digging => {
                if c < colonies.len() {
                    let dist = crate::food::manhattan_distance(a.x, a.y, colonies[c].home_x, colonies[c].home_y);
                    let amount = proximity_amount(dist, DIG_DEPOSIT_RADIUS, DEPOSIT_HOME_BASE / 2);
                    if amount > 0 {
                        pheromones.deposit_adaptive(a.x, a.y, a.colony_id, PheromoneType::Home, amount);
                    }
                }
            },
            _ => {},
        }
        proof {
            assert(pheromones.data@ == old(pheromones).agent_deposit(before, a, colonies@));
        }
        i = i + 1;
    }
    proof {
        assert(agents.take(ids@.len() as int) =~= agents);
    }
}

/// Decay of the whole field for one tick.
pub fn pheromone_decay_system(pheromones: &mut PheromoneGrid)
    requires
        old(pheromones).wf(),
    ensures
        final(pheromones).wf(),
        final(pheromones).same_shape(old(pheromones)),
        forall|i: int|
            0 <= i < old(pheromones).data@.len() ==> #[trigger] final(pheromones).data@[i] == decayed(
                old(pheromones).data@[i],
                decay_rate(i % 3),
            ),
{
    pheromones.decay_all();
}

} // verus!
