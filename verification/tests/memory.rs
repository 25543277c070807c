use sim_systems::decision::DecisionReason;
use sim_systems::memory::{classify_event, CausalEvent, MemoryClass};

fn decision(id: u64, agent: u64, reason: DecisionReason) -> CausalEvent {
    CausalEvent::AgentDecision { id, agent, reason }
}

#[test]
fn classify_event_returns_correct_mapping_for_each_actor_variant() {
    let log: Vec<CausalEvent> = Vec::new();
    let cases = [
        (DecisionReason::HungerThresholdBreach, MemoryClass::HungerBreach),
        (DecisionReason::ThirstThresholdBreach, MemoryClass::ThirstBreach),
        (DecisionReason::FatigueThresholdBreach, MemoryClass::FatigueBreach),
        (DecisionReason::ConstructionReason, MemoryClass::ConstructionDecision),
        (DecisionReason::SocialReason, MemoryClass::SocialDecision),
    ];
    for (reason, class) in cases {
        assert_eq!(classify_event(&decision(1, 7, reason), &log), Some((class, vec![7])));
    }
    let started = CausalEvent::SocialInteractionStarted { id: 1, agents: (3, 5) };
    assert_eq!(classify_event(&started, &log), Some((MemoryClass::SocialStarted, vec![3, 5])));
    let completed = CausalEvent::SocialInteractionCompleted { id: 1, agents: (3, 5) };
    assert_eq!(classify_event(&completed, &log), Some((MemoryClass::SocialCompleted, vec![3, 5])));
    let combat_start = CausalEvent::CombatStarted { id: 2, attacker: 4, defender: 6 };
    assert_eq!(classify_event(&combat_start, &log), Some((MemoryClass::CombatStarted, vec![4])));
    let combat_end = CausalEvent::CombatCompleted { id: 3, attacker: 4, defender: 6 };
    assert_eq!(classify_event(&combat_end, &log), Some((MemoryClass::CombatCompleted, vec![4, 6])));
}

#[test]
fn classify_event_returns_none_for_non_actor_and_anti_recursion() {
    let log: Vec<CausalEvent> = Vec::new();
    assert_eq!(classify_event(&CausalEvent::Ambient { id: 1 }, &log), None);
    assert_eq!(classify_event(&decision(1, 7, DecisionReason::MemoryReason), &log), None);
    assert_eq!(classify_event(&decision(1, 7, DecisionReason::CombatReason), &log), None);
}

#[test]
fn classify_construction_started_walks_parent() {
    let log = vec![decision(10, 7, DecisionReason::ConstructionReason)];
    let started = CausalEvent::ConstructionStarted { id: 11, parent: Some(10) };
    assert_eq!(classify_event(&started, &log), Some((MemoryClass::ConstructionStarted, vec![7])));
}

#[test]
fn classify_construction_completed_two_hop_walk() {
    let log = vec![
        decision(10, 7, DecisionReason::ConstructionReason),
        CausalEvent::ConstructionStarted { id: 11, parent: Some(10) },
    ];
    let completed = CausalEvent::ConstructionCompleted { id: 12, parent: Some(11) };
    assert_eq!(classify_event(&completed, &log), Some((MemoryClass::ConstructionCompleted, vec![7])));
    // One hop straight to the decision is not enough.
    let direct = CausalEvent::ConstructionCompleted { id: 13, parent: Some(10) };
    assert_eq!(classify_event(&direct, &log), None);
}

#[test]
fn classify_construction_with_evicted_parent_returns_none() {
    let log: Vec<CausalEvent> = Vec::new();
    let started = CausalEvent::ConstructionStarted { id: 11, parent: Some(10) };
    assert_eq!(classify_event(&started, &log), None);
    let orphan = CausalEvent::ConstructionStarted { id: 11, parent: None };
    assert_eq!(classify_event(&orphan, &log), None);
    let log2 = vec![CausalEvent::ConstructionStarted { id: 11, parent: Some(10) }];
    let completed = CausalEvent::ConstructionCompleted { id: 12, parent: Some(11) };
    assert_eq!(classify_event(&completed, &log2), None);
}
