use vstd::prelude::*;

use crate::agent::AgentId;
use crate::decision::DecisionReason;
use crate::settlement::EventId;

verus! {

/// Decays, encodes and reinforces agents' memories.
#[derive(Debug, Clone, Copy)]
pub struct MemorySystem;

impl MemorySystem {
    /// A new instance; it holds no state.
    pub fn new() -> (s: MemorySystem) {
        MemorySystem
    }

    /// Name under which the system is scheduled.
    pub fn name(&self) -> (n: &'static str)
        ensures
            n@ == "MemorySystem"@,
    {
        "MemorySystem"
    }

    /// Scheduling priority.
    pub fn priority(&self) -> (p: u32)
        ensures
            p == 136,
    {
        136
    }

    /// Ticks between runs.
    pub fn tick_interval(&self) -> (t: u64)
        ensures
            t == 1,
    {
        1
    }
}


/// Ticks after which a memory no longer weighs on decisions.
pub const MAX_RECENCY_TICKS: u64 = 4380;

/// A recorded causal event, with the fields memory encoding reads.
#[derive(Debug, Clone, Copy)]
pub enum CausalEvent {
    AgentDecision { id: EventId, agent: AgentId, reason: DecisionReason },
    ConstructionStarted { id: EventId, parent: Option<EventId> },
    ConstructionCompleted { id: EventId, parent: Option<EventId> },
    SocialInteractionStarted { id: EventId, agents: (AgentId, AgentId) },
    SocialInteractionCompleted { id: EventId, agents: (AgentId, AgentId) },
    CombatStarted { id: EventId, attacker: AgentId, defender: AgentId },
    CombatCompleted { id: EventId, attacker: AgentId, defender: AgentId },
    /// An event without an actor: a building placement, a stamp, an
    /// influence change or a memory recall.
    Ambient { id: EventId },
}

/// The id of an event.
pub open spec fn event_id_spec(e: CausalEvent) -> EventId {
    match e {
        CausalEvent::AgentDecision { id, .. } => id,
        CausalEvent::ConstructionStarted { id, .. } => id,
        CausalEvent::ConstructionCompleted { id, .. } => id,
        CausalEvent::SocialInteractionStarted { id, .. } => id,
        CausalEvent::SocialInteractionCompleted { id, .. } => id,
        CausalEvent::CombatStarted { id, .. } => id,
        CausalEvent::CombatCompleted { id, .. } => id,
        CausalEvent::Ambient { id } => id,
    }
}

/// The id of an event.
pub fn event_id(e: &CausalEvent) -> (id: EventId)
    ensures
        id == event_id_spec(*e),
{
    match e {
        CausalEvent::AgentDecision { id, .. } => *id,
        CausalEvent::ConstructionStarted { id, .. } => *id,
        CausalEvent::ConstructionCompleted { id, .. } => *id,
        CausalEvent::SocialInteractionStarted { id, .. } => *id,
        CausalEvent::SocialInteractionCompleted { id, .. } => *id,
        CausalEvent::CombatStarted { id, .. } => *id,
        CausalEvent::CombatCompleted { id, .. } => *id,
        CausalEvent::Ambient { id } => *id,
    }
}

/// The first logged event with id `id`, if the log still holds one.
pub open spec fn lookup_spec(log: Seq<CausalEvent>, id: EventId) -> Option<CausalEvent>
    decreases log.len(),
{
    if log.len() == 0 {
        None
    } else if event_id_spec(log[0]) == id {
        Some(log[0])
    } else {
        lookup_spec(log.drop_first(), id)
    }
}

/// Lookup law: the event found is the first of the log with that id, and
/// nothing is found exactly when no logged event has it.
pub proof fn lemma_lookup_first(log: Seq<CausalEvent>, id: EventId)
    ensures
        lookup_spec(log, id) is None <==> forall|i: int| 0 <= i < log.len() ==> event_id_spec(#[trigger] log[i]) != id,
        lookup_spec(log, id) matches Some(ev) ==> exists|i: int| 0 <= i < log.len() && #[trigger] log[i] == ev
            && event_id_spec(ev) == id && forall|j: int| 0 <= j < i ==> event_id_spec(#[trigger] log[j]) != id,
    decreases log.len(),
{
    if log.len() > 0 {
        let t = log.drop_first();
        lemma_lookup_first(t, id);
        assert forall|i: int| 0 <= i < t.len() implies #[trigger] t[i] == log[i + 1] by {}
        if event_id_spec(log[0]) != id {
            if lookup_spec(t, id) is Some {
                let ev = lookup_spec(t, id)->0;
                let i = choose|i: int| 0 <= i < t.len() && #[trigger] t[i] == ev
                    && event_id_spec(ev) == id && forall|j: int| 0 <= j < i ==> event_id_spec(#[trigger] t[j]) != id;
                assert(log[i + 1] == ev);
                assert forall|j: int| 0 <= j < i + 1 implies event_id_spec(#[trigger] log[j]) != id by {
                    if j > 0 {
                        assert(log[j] == t[j - 1]);
                    }
                }
            } else {
                assert forall|i: int| 0 <= i < log.len() implies event_id_spec(#[trigger] log[i]) != id by {
                    if i > 0 {
                        assert(log[i] == t[i - 1]);
                    }
                }
            }
        } else {
            assert(log[0] == log[0]);
        }
    }
}

/// The first logged event with id `id`, if the log still holds one.
pub fn lookup(log: &Vec<CausalEvent>, id: EventId) -> (e: Option<CausalEvent>)
    ensures
        e == lookup_spec(log@, id),
        e is None <==> forall|i: int| 0 <= i < log@.len() ==> event_id_spec(#[trigger] log@[i]) != id,
        e matches Some(ev) ==> exists|i: int| 0 <= i < log@.len() && #[trigger] log@[i] == ev
            && event_id_spec(ev) == id && forall|j: int| 0 <= j < i ==> event_id_spec(#[trigger] log@[j]) != id,
{
    proof {
        lemma_lookup_first(log@, id);
    }
    let mut i: usize = 0;
    assert(log@.subrange(0, log@.len() as int) =~= log@);
    while i < log.len()
        invariant
            0 <= i <= log@.len(),
            lookup_spec(log@.subrange(i as int, log@.len() as int), id) == lookup_spec(log@, id),
            lookup_spec(log@, id) is None <==> forall|i: int| 0 <= i < log@.len() ==> event_id_spec(#[trigger] log@[i]) != id,
            lookup_spec(log@, id) is Some ==> exists|i: int| 0 <= i < log@.len() && #[trigger] log@[i] == lookup_spec(log@, id)->0
                && event_id_spec(lookup_spec(log@, id)->0) == id && forall|j: int| 0 <= j < i ==> event_id_spec(#[trigger] log@[j]) != id,
        decreases log@.len() - i,
    {
        let ghost rest = log@.subrange(i as int, log@.len() as int);
        proof {
            assert(rest.drop_first() =~= log@.subrange(i + 1, log@.len() as int));
            assert(rest[0] == log@[i as int]);
        }
        if event_id(&log[i]) == id {
            return Some(log[i]);
        }
        i = i + 1;
    }
    proof {
        assert(log@.subrange(i as int, log@.len() as int) =~= Seq::<CausalEvent>::empty());
    }
    None
}

/// The kinds of memory an event leaves; each has its own salience and
/// valence.
#[derive(Debug, Clone, Copy, PartialEq, Eq, Structural)]
pub enum MemoryClass {
    HungerBreach,
    ThirstBreach,
    FatigueBreach,
    ConstructionDecision,
    SocialDecision,
    ConstructionStarted,
    ConstructionCompleted,
    SocialStarted,
    SocialCompleted,
    CombatStarted,
    CombatCompleted,
}

/// The memory an event leaves and the agents who remember it, if any.
/// Decisions are remembered by their agent (not those driven by memory,
/// combat or settlement, which would recurse); a construction start by the
/// agent of the decision it came from, a completion by the agent two steps
/// up (completion, start, decision), as long as the log still holds them;
/// social interactions by both agents; a combat start by the attacker and
/// its end by both parties. Events without an actor leave none.
pub open spec fn classify_spec(e: CausalEvent, log: Seq<CausalEvent>) -> Option<(MemoryClass, Seq<AgentId>)> {
    match e {
        CausalEvent::AgentDecision { agent, reason, .. } => match reason {
            DecisionReason::HungerThresholdBreach => Some((MemoryClass::HungerBreach, seq![agent])),
            DecisionReason::ThirstThresholdBreach => Some((MemoryClass::ThirstBreach, seq![agent])),
            DecisionReason::FatigueThresholdBreach => Some((MemoryClass::FatigueBreach, seq![agent])),
            DecisionReason::ConstructionReason => Some((MemoryClass::ConstructionDecision, seq![agent])),
            DecisionReason::SocialReason => Some((MemoryClass::SocialDecision, seq![agent])),
            _ => None,
        },
        CausalEvent::ConstructionStarted { parent, .. } => match parent {
            Some(p) => match lookup_spec(log, p) {
                Some(CausalEvent::AgentDecision { agent, .. }) => Some((MemoryClass::ConstructionStarted, seq![agent])),
                _ => None,
            },
            None => None,
        },
        CausalEvent::ConstructionCompleted { parent, .. } => match parent {
            Some(p) => match lookup_spec(log, p) {
                Some(CausalEvent::ConstructionStarted { parent: gp, .. }) => match gp {
                    Some(g) => match lookup_spec(log, g) {
                        Some(CausalEvent::AgentDecision { agent, .. }) => Some((MemoryClass::ConstructionCompleted, seq![agent])),
                        _ => None,
                    },
                    None => None,
                },
                _ => None,
            },
            None => None,
        },
        CausalEvent::SocialInteractionStarted { agents, .. } => Some((MemoryClass::SocialStarted, seq![agents.0, agents.1])),
        CausalEvent::SocialInteractionCompleted { agents, .. } => Some((MemoryClass::SocialCompleted, seq![agents.0, agents.1])),
        CausalEvent::CombatStarted { attacker, .. } => Some((MemoryClass::CombatStarted, seq![attacker])),
        CausalEvent::CombatCompleted { attacker, defender, .. } => Some((MemoryClass::CombatCompleted, seq![attacker, defender])),
        CausalEvent::Ambient { .. } => None,
    }
}

/// The class of a classification, if any.
pub open spec fn class_of(r: Option<(MemoryClass, Vec<AgentId>)>) -> Option<MemoryClass> {
    match r {
        Some((c, _)) => Some(c),
        None => None,
    }
}

/// The agents of a classification (none without one).
pub open spec fn actors_of(r: Option<(MemoryClass, Vec<AgentId>)>) -> Seq<AgentId> {
    match r {
        Some((_, a)) => a@,
        None => seq![],
    }
}

/// The memory an event leaves and who remembers it (see [`classify_spec`]).
pub fn classify_event(e: &CausalEvent, log: &Vec<CausalEvent>) -> (r: Option<(MemoryClass, Vec<AgentId>)>)
    ensures
        match classify_spec(*e, log@) {
            Some((class, actors)) => r is Some && r.unwrap().0 == class && r.unwrap().1@ == actors,
            None => r is None,
        },
        e is Ambient ==> r is None,
        r is Some ==> 1 <= actors_of(r).len() <= 2,
        match *e {
            CausalEvent::AgentDecision { agent, reason, .. } => {
                &&& (r is Some <==> (reason == DecisionReason::HungerThresholdBreach || reason == DecisionReason::ThirstThresholdBreach
                    || reason == DecisionReason::FatigueThresholdBreach || reason == DecisionReason::ConstructionReason
                    || reason == DecisionReason::SocialReason))
                &&& r is Some ==> actors_of(r) == seq![agent]
                &&& reason == DecisionReason::HungerThresholdBreach ==> class_of(r) == Some(MemoryClass::HungerBreach)
                &&& reason == DecisionReason::ThirstThresholdBreach ==> class_of(r) == Some(MemoryClass::ThirstBreach)
                &&& reason == DecisionReason::FatigueThresholdBreach ==> class_of(r) == Some(MemoryClass::FatigueBreach)
                &&& reason == DecisionReason::ConstructionReason ==> class_of(r) == Some(MemoryClass::ConstructionDecision)
                &&& reason == DecisionReason::SocialReason ==> class_of(r) == Some(MemoryClass::SocialDecision)
            },
            CausalEvent::ConstructionStarted { parent, .. } => r is Some ==> {
                &&& class_of(r) == Some(MemoryClass::ConstructionStarted)
                &&& parent is Some
                &&& lookup_spec(log@, parent->0) matches Some(CausalEvent::AgentDecision { agent, .. })
                &&& actors_of(r) == seq![lookup_spec(log@, parent->0)->0->AgentDecision_agent]
            },
            CausalEvent::ConstructionCompleted { .. } => r is Some ==> class_of(r) == Some(MemoryClass::ConstructionCompleted),
            CausalEvent::SocialInteractionStarted { agents, .. } =>
                class_of(r) == Some(MemoryClass::SocialStarted) && actors_of(r) == seq![agents.0, agents.1],
            CausalEvent::SocialInteractionCompleted { agents, .. } =>
                class_of(r) == Some(MemoryClass::SocialCompleted) && actors_of(r) == seq![agents.0, agents.1],
            CausalEvent::CombatStarted { attacker, .. } =>
                class_of(r) == Some(MemoryClass::CombatStarted) && actors_of(r) == seq![attacker],
            CausalEvent::CombatCompleted { attacker, defender, .. } =>
                class_of(r) == Some(MemoryClass::CombatCompleted) && actors_of(r) == seq![attacker, defender],
            CausalEvent::Ambient { .. } => r is None,
        },
{
    match e {
        CausalEvent::AgentDecision { agent, reason, .. } => match reason {
            DecisionReason::HungerThresholdBreach => Some((MemoryClass::HungerBreach, vec![*agent])),
            DecisionReason::ThirstThresholdBreach => Some((MemoryClass::ThirstBreach, vec![*agent])),
            DecisionReason::FatigueThresholdBreach => Some((MemoryClass::FatigueBreach, vec![*agent])),
            DecisionReason::ConstructionReason => Some((MemoryClass::ConstructionDecision, vec![*agent])),
            DecisionReason::SocialReason => Some((MemoryClass::SocialDecision, vec![*agent])),
            _ => None,
        },
        CausalEvent::ConstructionStarted { parent, .. } => match parent {
            Some(p) => match lookup(log, *p) {
                Some(CausalEvent::AgentDecision { agent, .. }) => Some((MemoryClass::ConstructionStarted, vec![agent])),
                _ => None,
            },
            None => None,
        },
        CausalEvent::ConstructionCompleted { parent, .. } => match parent {
            Some(p) => match lookup(log, *p) {
                Some(CausalEvent::ConstructionStarted { parent: gp, .. }) => match gp {
                    Some(g) => match lookup(log, g) {
                        Some(CausalEvent::AgentDecision { agent, .. }) => Some((MemoryClass::ConstructionCompleted, vec![agent])),
                        _ => None,
                    },
                    None => None,
                },
                _ => None,
            },
            None => None,
        },
        CausalEvent::SocialInteractionStarted { agents, .. } => Some((MemoryClass::SocialStarted, vec![agents.0, agents.1])),
        CausalEvent::SocialInteractionCompleted { agents, .. } => Some((MemoryClass::SocialCompleted, vec![agents.0, agents.1])),
        CausalEvent::CombatStarted { attacker, .. } => Some((MemoryClass::CombatStarted, vec![*attacker])),
        CausalEvent::CombatCompleted { attacker, defender, .. } => Some((MemoryClass::CombatCompleted, vec![*attacker, *defender])),
        CausalEvent::Ambient { .. } => None,
    }
}

} // verus!
