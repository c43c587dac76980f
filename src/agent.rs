use vstd::prelude::*;

verus! {

/// What an agent is.
#[derive(Clone, Copy, Debug, PartialEq, Eq, Structural)]
pub enum AntRole {
    Queen,
    Worker,
    Soldier,
    Egg,
    Larvae,
}

/// What an agent is doing.
#[derive(Clone, Copy, Debug, PartialEq, Eq, Structural)]
pub enum AntState {
    Idle,
    Wandering,
    Digging,
    Returning,
    Carrying,
    Fighting,
    Fleeing,
    Following,
}

/// Age of an agent and the age at which its current stage ends.
#[derive(Clone, Copy, Debug, PartialEq, Eq, Structural)]
pub struct Age {
    pub ticks: u32,
    pub max_ticks: u32,
}

/// Combat statistics, attached on the first hit taken.
#[derive(Clone, Copy, Debug, PartialEq, Eq, Structural)]
pub struct Fighter {
    pub strength: u8,
    pub health: u8,
}

/// One simulated ant. Optional parts are present only while they apply.
#[derive(Clone, Copy, Debug, PartialEq, Eq)]
pub struct Agent {
    pub x: i32,
    pub y: i32,
    pub colony_id: u8,
    pub role: AntRole,
    pub state: AntState,
    pub age: Option<Age>,
    pub fighter: Option<Fighter>,
    /// Amount of food carried, if any.
    pub carrying: Option<u8>,
    /// Consecutive ticks spent in dangerous water, if any.
    pub drowning: Option<u32>,
    /// Marked for removal at the end of the tick.
    pub dead: bool,
}

/// State a freshly spawned agent of the given role starts in.
pub open spec fn initial_state(role: AntRole) -> AntState {
    match role {
        AntRole::Worker | AntRole::Soldier => AntState::Wandering,
        _ => AntState::Idle,
    }
}

impl Agent {
    /// A new agent of a colony at (x, y), with nothing attached.
    pub fn new(x: i32, y: i32, colony_id: u8, role: AntRole) -> (r: Agent)
        ensures
            r.x == x,
            r.y == y,
            r.colony_id == colony_id,
            r.role == role,
            r.state == initial_state(role),
            r.age is None,
            r.fighter is None,
            r.carrying is None,
            r.drowning is None,
            !r.dead,
    {
        let state = match role {
            AntRole::Worker | AntRole::Soldier => AntState::Wandering,
            _ => AntState::Idle,
        };
        Agent {
            x,
            y,
            colony_id,
            role,
            state,
            age: None,
            fighter: None,
            carrying: None,
            drowning: None,
            dead: false,
        }
    }

    pub open spec fn with_state(self, s: AntState) -> Agent {
        Agent { state: s, ..self }
    }

    pub open spec fn with_position(self, x: i32, y: i32) -> Agent {
        Agent { x, y, ..self }
    }

    pub open spec fn marked_dead(self) -> Agent {
        Agent { dead: true, ..self }
    }
}

} // verus!
