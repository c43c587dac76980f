use vstd::prelude::*;

use crate::agent::Agent;

verus! {

#[verifier::external_type_specification]
#[verifier::external_body]
pub struct ExWorld(hecs::World);

/// The agents that a `hecs::World` holds, keyed by the bits of their entity handles.
pub uninterp spec fn agents_in(w: hecs::World) -> Map<u64, Agent>;

/// The store of all agents, each one entity of an ECS world holding one `Agent`.
/// Only the methods below touch the world, so every entity holds exactly that one
/// component.
pub struct AgentStore {
    world: hecs::World,
}

impl View for AgentStore {
    type V = Map<u64, Agent>;

    closed spec fn view(&self) -> Map<u64, Agent> {
        agents_in(self.world)
    }
}

/// `m` after writing each update of `u` in turn.
pub open spec fn apply_updates(m: Map<u64, Agent>, u: Seq<(u64, Agent)>) -> Map<u64, Agent>
    decreases u.len(),
{
    if u.len() == 0 {
        m
    } else {
        let p = u.last();
        let prev = apply_updates(m, u.drop_last());
        if prev.contains_key(p.0) {
            prev.insert(p.0, p.1)
        } else {
            prev
        }
    }
}

/// Writing updates keeps the keys.
pub proof fn lemma_apply_dom(m: Map<u64, Agent>, u: Seq<(u64, Agent)>)
    ensures
        apply_updates(m, u).dom() == m.dom(),
    decreases u.len(),
{
    if u.len() > 0 {
        lemma_apply_dom(m, u.drop_last());
        let prev = apply_updates(m, u.drop_last());
        if prev.contains_key(u.last().0) {
            assert(prev.insert(u.last().0, u.last().1).dom() =~= prev.dom());
        }
    }
}

/// Updates with distinct keys: each key of the map takes its own update.
pub proof fn lemma_apply_distinct(m: Map<u64, Agent>, u: Seq<(u64, Agent)>, j: int)
    requires
        0 <= j < u.len(),
        m.contains_key(u[j].0),
        forall|a: int, b: int| 0 <= a < b < u.len() ==> u[a].0 != u[b].0,
    ensures
        apply_updates(m, u)[u[j].0] == u[j].1,
    decreases u.len(),
{
    lemma_apply_dom(m, u.drop_last());
    if j < u.len() - 1 {
        let v = u.drop_last();
        assert(v[j] == u[j]);
        lemma_apply_distinct(m, v, j);
        assert(u[j].0 != u[u.len() - 1].0);
    }
}

/// Updates, one per listed key in list order, over a duplicate-free listing of the
/// keys: every key ends with its own update.
pub proof fn lemma_apply_listed(m: Map<u64, Agent>, ids: Seq<u64>, u: Seq<(u64, Agent)>)
    requires
        ids.no_duplicates(),
        u.len() == ids.len(),
        forall|j: int| 0 <= j < u.len() ==> (#[trigger] u[j]).0 == ids[j],
        forall|j: int| 0 <= j < ids.len() ==> m.contains_key(#[trigger] ids[j]),
    ensures
        apply_updates(m, u).dom() == m.dom(),
        forall|j: int| 0 <= j < u.len() ==> apply_updates(m, u)[#[trigger] ids[j]] == u[j].1,
{
    lemma_apply_dom(m, u);
    assert forall|j: int| 0 <= j < u.len() implies apply_updates(m, u)[#[trigger] ids[j]] == u[j].1 by {
        assert forall|a: int, b: int| 0 <= a < b < u.len() implies u[a].0 != u[b].0 by {
            assert(u[a].0 == ids[a] && u[b].0 == ids[b]);
        }
        lemma_apply_distinct(m, u, j);
    }
}

/// Index of a key in a listing that holds it.
pub proof fn lemma_listed_index(ids: Seq<u64>, k: u64) -> (j: int)
    requires
        ids.contains(k),
    ensures
        0 <= j < ids.len(),
        ids[j] == k,
{
    choose|j: int| 0 <= j < ids.len() && ids[j] == k
}

impl AgentStore {
    /// Relies on `hecs::World::new`: a new world holds no entity.
    #[verifier::external_body]
    fn empty_world() -> (r: AgentStore)
        ensures
            forall|k: u64| !agents_in(r.world).contains_key(k),
    {
        AgentStore { world: hecs::World::new() }
    }

    /// Relies on `hecs::World::spawn`: the new entity takes a slot that no live
    /// entity holds, so its handle bits differ from those of every live entity, and
    /// it holds exactly the given component. hecs panics only when every one of the
    /// 2^32 slots is live at once, which the bound on live agents rules out.
    #[verifier::external_body]
    fn spawn_entity(&mut self, agent: Agent) -> (id: u64)
        requires
            old(self)@.len() < u32::MAX,
        ensures
            !agents_in(old(self).world).contains_key(id),
            agents_in(final(self).world) == agents_in(old(self).world).insert(id, agent),
    {
        self.world.spawn((agent,)).to_bits().get()
    }

    /// Relies on `hecs::World::get`: the component of a live entity, an error for a
    /// handle that names no live entity.
    #[verifier::external_body]
    fn lookup(&self, id: u64) -> (r: Option<Agent>)
        ensures
            r == if agents_in(self.world).contains_key(id) {
                Some(agents_in(self.world)[id])
            } else {
                None
            },
    {
        match hecs::Entity::from_bits(id) {
            Some(e) => self.world.get::<&Agent>(e).ok().map(|a| *a),
            None => None,
        }
    }

    /// Relies on `hecs::World::insert_one`: replaces the component of a live entity,
    /// and fails without change for a handle that names no live entity.
    #[verifier::external_body]
    fn replace(&mut self, id: u64, agent: Agent)
        ensures
            agents_in(final(self).world) == if agents_in(old(self).world).contains_key(id) {
                agents_in(old(self).world).insert(id, agent)
            } else {
                agents_in(old(self).world)
            },
    {
        if let Some(e) = hecs::Entity::from_bits(id) {
            let _ = self.world.insert_one(e, agent);
        }
    }

    /// Relies on `hecs::World::despawn`: removes a live entity; a handle that names
    /// none changes nothing.
    #[verifier::external_body]
    fn remove_entity(&mut self, id: u64)
        ensures
            agents_in(final(self).world) == agents_in(old(self).world).remove(id),
    {
        if let Some(e) = hecs::Entity::from_bits(id) {
            let _ = self.world.despawn(e);
        }
    }

    /// Relies on `hecs::World::query`: visits every entity holding an `Agent` once.
    #[verifier::external_body]
    fn handles(&self) -> (r: Vec<u64>)
        ensures
            r@.no_duplicates(),
            r@.to_set() == agents_in(self.world).dom(),
            forall|i: int| 0 <= i < r@.len() ==> agents_in(self.world).contains_key(#[trigger] r@[i]),
            forall|k: u64| agents_in(self.world).contains_key(k) ==> r@.contains(k),
    {
        self.world.query::<&Agent>().iter().map(|(e, _)| e.to_bits().get()).collect()
    }

    /// Writes each update in turn; updates naming no agent are skipped.
    pub fn apply(&mut self, updates: &Vec<(u64, Agent)>)
        ensures
            final(self)@ == apply_updates(old(self)@, updates@),
    {
        let mut i: usize = 0;
        while i < updates.len()
            invariant
                0 <= i <= updates@.len(),
                self@ == apply_updates(old(self)@, updates@.take(i as int)),
            decreases updates@.len() - i,
        {
            let (id, a) = updates[i];
            self.replace(id, a);
            proof {
                assert(updates@.take(i as int + 1).drop_last() =~= updates@.take(i as int));
            }
            i = i + 1;
        }
        proof {
            assert(updates@.take(i as int) =~= updates@);
        }
    }

    /// A store without agents.
    pub fn new() -> (r: AgentStore)
        ensures
            r@.dom() == Set::<u64>::empty(),
    {
        let r = AgentStore::empty_world();
        proof {
            assert(r@.dom() =~= Set::<u64>::empty());
        }
        r
    }

    /// Adds an agent under a fresh handle, or returns `None` when the store is full.
    pub fn spawn(&mut self, agent: Agent) -> (r: Option<u64>)
        ensures
            match r {
                Some(id) => !old(self)@.contains_key(id) && final(self)@ == old(self)@.insert(id, agent)
                    && final(self)@.len() == old(self)@.len() + 1,
                None => final(self)@ == old(self)@ && old(self)@.len() >= u32::MAX - 1,
            },
    {
        if self.len() < (u32::MAX - 1) as usize {
            let id = self.spawn_entity(agent);
            proof {
                vstd::set::axiom_set_insert_len(old(self)@.dom(), id);
                assert(self@.dom() =~= old(self)@.dom().insert(id));
            }
            Some(id)
        } else {
            None
        }
    }

    /// The agent under a handle, if any.
    pub fn get(&self, id: u64) -> (r: Option<Agent>)
        ensures
            r == if self@.contains_key(id) {
                Some(self@[id])
            } else {
                None
            },
    {
        self.lookup(id)
    }

    /// Replaces the agent under a handle; a handle of no agent changes nothing.
    pub fn set(&mut self, id: u64, agent: Agent)
        ensures
            final(self)@ == if old(self)@.contains_key(id) {
                old(self)@.insert(id, agent)
            } else {
                old(self)@
            },
    {
        self.replace(id, agent)
    }

    /// Removes the agent under a handle, if any.
    pub fn despawn(&mut self, id: u64)
        ensures
            final(self)@ == old(self)@.remove(id),
    {
        self.remove_entity(id)
    }

    /// Every handle, once each.
    pub fn ids(&self) -> (r: Vec<u64>)
        ensures
            r@.no_duplicates(),
            r@.to_set() == self@.dom(),
            forall|i: int| 0 <= i < r@.len() ==> self@.contains_key(#[trigger] r@[i]),
            forall|k: u64| self@.contains_key(k) ==> r@.contains(k),
    {
        self.handles()
    }

    /// Number of agents.
    pub fn len(&self) -> (r: usize)
        ensures
            r == self@.len(),
            self@.dom().finite(),
    {
        let ids = self.handles();
        proof {
            vstd::seq_lib::seq_to_set_is_finite(ids@);
            lemma_ids_len(self@, ids@);
        }
        ids.len()
    }
}

/// A duplicate-free listing of a map's keys has as many entries as the map.
pub proof fn lemma_ids_len(m: Map<u64, Agent>, s: Seq<u64>)
    requires
        s.no_duplicates(),
        forall|i: int| 0 <= i < s.len() ==> m.contains_key(#[trigger] s[i]),
        forall|k: u64| m.contains_key(k) ==> s.contains(k),
    ensures
        m.dom().finite() ==> s.len() == m.len(),
{
    if m.dom().finite() {
        s.unique_seq_to_set();
        assert(s.to_set() =~= m.dom()) by {
            assert forall|k: u64| s.to_set().contains(k) implies m.dom().contains(k) by {
                let i = choose|i: int| 0 <= i < s.len() && s[i] == k;
            }
        }
    }
}

} // verus!
