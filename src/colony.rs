use vstd::prelude::*;

use crate::agent::{Agent, AntRole};
use crate::world::AgentStore;

verus! {

/// One colony's shared record.
#[derive(Clone, Copy, Debug)]
pub struct ColonyState {
    pub id: u8,
    pub food_stored: u32,
    /// Thousandths of a food unit earned but not yet stored.
    pub food_fraction: u32,
    pub queen_alive: bool,
    pub home_x: i32,
    pub home_y: i32,
}

impl ColonyState {
    pub fn new(id: u8, home_x: i32, home_y: i32, initial_food: u32) -> (r: ColonyState)
        ensures
            r.id == id,
            r.home_x == home_x,
            r.home_y == home_y,
            r.food_stored == initial_food,
            r.food_fraction == 0,
            r.queen_alive,
    {
        ColonyState { id, food_stored: initial_food, food_fraction: 0, queen_alive: true, home_x, home_y }
    }
}

/// Head count of a colony by role.
#[derive(Clone, Copy, Debug, Default)]
pub struct PopulationCount {
    pub queens: u16,
    pub workers: u16,
    pub soldiers: u16,
    pub eggs: u16,
    pub larvae: u16,
}

impl PopulationCount {
    pub fn total(&self) -> (r: u16)
        requires
            self.queens + self.workers + self.soldiers + self.eggs + self.larvae <= u16::MAX,
        ensures
            r == self.queens + self.workers + self.soldiers + self.eggs + self.larvae,
    {
        self.queens + self.workers + self.soldiers + self.eggs + self.larvae
    }
}

/// Number of agents of `s` with the given colony and role.
pub open spec fn role_count(s: Seq<Agent>, colony: u8, role: AntRole) -> int
    decreases s.len(),
{
    if s.len() == 0 {
        0
    } else {
        role_count(s.drop_last(), colony, role) + if s.last().colony_id == colony && s.last().role == role {
            1int
        } else {
            0
        }
    }
}

pub open spec fn capped_count(n: int) -> u16 {
    if n > u16::MAX {
        u16::MAX
    } else {
        n as u16
    }
}

fn bump(v: u16) -> (r: u16)
    ensures
        r == capped_count(v + 1),
{
    if v < u16::MAX {
        v + 1
    } else {
        v
    }
}

impl ColonyState {
    /// Head count of this colony by role, each count capped at `u16::MAX`, over
    /// the agents listed in some order of the store's keys.
    pub fn population_summary(&self, store: &AgentStore) -> (r: PopulationCount)
        ensures
            exists|ids: Seq<u64>| {
                let s = ids.map_values(|k: u64| store@[k]);
                &&& #[trigger] ids.to_set() == store@.dom()
                &&& ids.no_duplicates()
                &&& r.queens == capped_count(role_count(s, self.id, AntRole::Queen))
                &&& r.workers == capped_count(role_count(s, self.id, AntRole::Worker))
                &&& r.soldiers == capped_count(role_count(s, self.id, AntRole::Soldier))
                &&& r.eggs == capped_count(role_count(s, self.id, AntRole::Egg))
                &&& r.larvae == capped_count(role_count(s, self.id, AntRole::Larvae))
            },
    {
        let ids = store.ids();
        let ghost s = ids@.map_values(|k: u64| store@[k]);
        let mut count = PopulationCount { queens: 0, workers: 0, soldiers: 0, eggs: 0, larvae: 0 };
        let mut i: usize = 0;
        while i < ids.len()
            invariant
                0 <= i <= ids@.len(),
                s == ids@.map_values(|k: u64| store@[k]),
                forall|j: int| 0 <= j < ids@.len() ==> store@.contains_key(#[trigger] ids@[j]),
                count.queens == capped_count(role_count(s.take(i as int), self.id, AntRole::Queen)),
                count.workers == capped_count(role_count(s.take(i as int), self.id, AntRole::Worker)),
                count.soldiers == capped_count(role_count(s.take(i as int), self.id, AntRole::Soldier)),
                count.eggs == capped_count(role_count(s.take(i as int), self.id, AntRole::Egg)),
                count.larvae == capped_count(role_count(s.take(i as int), self.id, AntRole::Larvae)),
            decreases ids@.len() - i,
        {
            let a = store.get(ids[i]).unwrap();
            proof {
                assert(s[i as int] == a);
                assert(s.take(i as int + 1).drop_last() =~= s.take(i as int));
                lemma_role_count_nonneg(s.take(i as int), self.id);
            }
            if a.colony_id == self.id {
                match a.role {
                    AntRole::Queen => count.queens = bump(count.queens),
                    AntRole::Worker => count.workers = bump(count.workers),
                    AntRole::Soldier => count.soldiers = bump(count.soldiers),
                    AntRole::Egg => count.eggs = bump(count.eggs),
                    AntRole::Larvae => count.larvae = bump(count.larvae),
                }
            }
            i = i + 1;
        }
        proof {
            assert(s.take(ids@.len() as int) =~= s);
        }
        count
    }
}

proof fn lemma_role_count_nonneg(s: Seq<Agent>, colony: u8)
    ensures
        forall|role: AntRole| #[trigger] role_count(s, colony, role) >= 0,
    decreases s.len(),
{
    if s.len() > 0 {
        lemma_role_count_nonneg(s.drop_last(), colony);
        assert forall|role: AntRole| #[trigger] role_count(s, colony, role) >= 0 by {
            assert(role_count(s.drop_last(), colony, role) >= 0);
        }
    }
}

} // verus!
