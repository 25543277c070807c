use vstd::prelude::*;

verus! {

/// Stable identifier of an agent.
pub type AgentId = u64;

/// What an agent is seeking or consuming.
#[derive(Debug, Clone, Copy, PartialEq, Eq, Structural)]
pub enum TargetKind {
    /// Ground food, to eat.
    Food,
    /// Water.
    Water,
    /// A sleep spot.
    Sleep,
    /// A co-located construction site.
    ConstructionSite,
    /// Another agent (social partner, combat opponent or settlement member).
    Agent(AgentId),
    /// Ground food, to carry (not eat).
    GatherFood,
}

/// Per-agent behaviour state machine.
#[derive(Debug, Clone, Copy, PartialEq, Eq, Structural)]
pub enum AgentState {
    Idle,
    Seeking { target: TargetKind },
    Consuming { target: TargetKind },
}

impl AgentState {
    /// The target of a seeking or consuming agent.
    pub open spec fn target_spec(self) -> Option<TargetKind> {
        match self {
            AgentState::Idle => None,
            AgentState::Seeking { target } => Some(target),
            AgentState::Consuming { target } => Some(target),
        }
    }

    /// The target of a seeking or consuming agent; `None` when idle.
    pub fn target(&self) -> (r: Option<TargetKind>)
        ensures
            r == self.target_spec(),
    {
        match self {
            AgentState::Idle => None,
            AgentState::Seeking { target } => Some(*target),
            AgentState::Consuming { target } => Some(*target),
        }
    }

    /// Whether the state is `Idle`.
    pub fn is_idle(&self) -> (b: bool)
        ensures
            b == (*self == AgentState::Idle),
    {
        match self {
            AgentState::Idle => true,
            _ => false,
        }
    }
}

} // verus!
