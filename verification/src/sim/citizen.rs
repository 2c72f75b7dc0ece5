//! Citizens: an agent with a home, a job, and a commute it actually walks a tile at a
//! time. What a citizen is doing is a closed list of states.
use vstd::prelude::*;

verus! {

/// Where a citizen is in the day.
#[derive(Clone, Copy, Debug, PartialEq, Eq, Structural)]
pub enum CitizenState {
    AtHome,
    ToWork,
    AtWork,
    ToHome,
    /// Not "between jobs": a citizen with a home but no work, which is exactly the condition
    /// the cases are sampled from.
    Unemployed,
}

/// The words a state is shown as.
pub open spec fn state_name(state: CitizenState) -> Seq<char> {
    match state {
        CitizenState::AtHome => "at home"@,
        CitizenState::ToWork => "commuting to work"@,
        CitizenState::AtWork => "at work"@,
        CitizenState::ToHome => "commuting home"@,
        CitizenState::Unemployed => "out of work"@,
    }
}

impl CitizenState {
    pub fn name(self) -> (r: &'static str)
        ensures
            r@ == state_name(self),
    {
        match self {
            CitizenState::AtHome => "at home",
            CitizenState::ToWork => "commuting to work",
            CitizenState::AtWork => "at work",
            CitizenState::ToHome => "commuting home",
            CitizenState::Unemployed => "out of work",
        }
    }

    /// Whether the citizen is on the road between home and work.
    pub fn is_commuting(self) -> (r: bool)
        ensures
            r == (self is ToWork || self is ToHome),
    {
        matches!(self, CitizenState::ToWork | CitizenState::ToHome)
    }
}

/// A citizen: a home, perhaps work, and the route it is walking.
#[derive(Clone, Debug)]
pub struct Citizen {
    pub id: u32,
    pub home: Option<u32>,
    pub work: Option<u32>,
    /// The build task this citizen has taken, by id.
    pub task: Option<u32>,
    pub state: CitizenState,
    /// Tiles to walk, first to last.
    pub path: Vec<u32>,
    /// Index of the tile the agent is standing on.
    pub path_cursor: usize,
    /// How much of the step toward the next tile is walked, in quarters of a step: an
    /// agent walks on to the next tile once it has four.
    pub step_quarters: u32,
    pub born_tick: u64,
    /// Set once the citizen has been through a settlement pass, so nobody is handed a job
    /// in the tick they were created.
    pub ready: bool,
}

/// The tile at position `k` of a route, if there is one.
pub open spec fn tile_at(path: Seq<u32>, k: int) -> Option<u32> {
    if 0 <= k < path.len() {
        Some(path[k])
    } else {
        None
    }
}

impl Citizen {
    /// A new resident of `home`, out of work, with no task, going nowhere, not yet settled.
    pub fn new(id: u32, home: u32, tick: u64) -> (r: Self)
        ensures
            r.id == id,
            r.home == Some(home),
            r.work is None,
            r.task is None,
            r.state == CitizenState::Unemployed,
            r.path@.len() == 0,
            r.path_cursor == 0,
            r.step_quarters == 0,
            r.born_tick == tick,
            !r.ready,
    {
        Citizen {
            id,
            home: Some(home),
            work: None,
            task: None,
            state: CitizenState::Unemployed,
            path: Vec::new(),
            path_cursor: 0,
            step_quarters: 0,
            born_tick: tick,
            ready: false,
        }
    }

    /// The tile the agent is standing on, if it is on the map.
    pub fn current_tile(&self) -> (r: Option<u32>)
        ensures
            r == tile_at(self.path@, self.path_cursor as int),
    {
        if self.path_cursor < self.path.len() {
            Some(self.path[self.path_cursor])
        } else {
            None
        }
    }

    /// The tile being approached, if there is one.
    pub fn next_tile(&self) -> (r: Option<u32>)
        requires
            self.path_cursor < usize::MAX,
        ensures
            r == tile_at(self.path@, self.path_cursor + 1),
    {
        let next = self.path_cursor + 1;
        if next < self.path.len() {
            Some(self.path[next])
        } else {
            None
        }
    }
}

} // verus!
