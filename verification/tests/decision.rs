use sim_systems::agent::{AgentState, TargetKind};
use sim_systems::decision::{
    consuming_step, idle_outcome, idle_state, natural_cascade, seeking_step, BiasOutcome, DecisionReason, DriveFlags, IdleOutcome,
    Inventory, NeedRelief, SeekContext,
};
use sim_systems::geometry::Position;
use sim_systems::tiles::ResourceTiles;

fn flags(hunger: bool, thirst: bool) -> DriveFlags {
    DriveFlags { hunger, thirst, fatigue: false, site_here: false, lonely: false, combat_bias: false }
}

fn idle_decision(f: DriveFlags) -> IdleOutcome {
    let natural = natural_cascade(f, None, None);
    idle_outcome(1, natural, false, BiasOutcome::Natural, None, true, None)
}

fn quiet_context() -> SeekContext {
    SeekContext {
        migrant_marker: false,
        is_member: false,
        target_alive: false,
        hunger: false,
        thirst: false,
        fatigue: false,
        site_here: false,
        handshake: false,
    }
}

#[test]
fn idle_to_seeking_on_hunger_breach() {
    // Hunger 60 is above the threshold of 50.
    match idle_decision(flags(true, false)) {
        IdleOutcome::Seek { target, .. } => assert_eq!(target, TargetKind::Food),
        other => panic!("expected a seek, got {:?}", other),
    }
}

#[test]
fn idle_to_seeking_on_thirst_when_hunger_below() {
    match idle_decision(flags(false, true)) {
        IdleOutcome::Seek { target, .. } => assert_eq!(target, TargetKind::Water),
        other => panic!("expected a seek, got {:?}", other),
    }
}

#[test]
fn idle_stays_idle_when_both_below() {
    assert_eq!(idle_decision(flags(false, false)), IdleOutcome::Stay);
    assert_eq!(idle_state(idle_decision(flags(false, false))), AgentState::Idle);
    assert_eq!(idle_state(idle_decision(flags(true, false))), AgentState::Seeking { target: TargetKind::Food });
}

#[test]
fn breach_emits_agent_decision_event() {
    match idle_decision(flags(true, false)) {
        IdleOutcome::Seek { reason, social, migrant, .. } => {
            assert_eq!(reason, DecisionReason::HungerThresholdBreach);
            assert!(!social);
            assert!(!migrant);
        }
        other => panic!("expected a seek, got {:?}", other),
    }
}

#[test]
fn seeking_transitions_to_consuming_on_food_tile() {
    let mut res = ResourceTiles::new();
    res.food_tiles.insert((5, 7), 3);
    let step = seeking_step(9, TargetKind::Food, &Position::new(5, 7), &res, quiet_context());
    assert_eq!(step.state, AgentState::Consuming { target: TargetKind::Food });
    // The counter is only decremented by the consuming step.
    assert_eq!(res.food_tiles.get((5, 7)), Some(3));
}

#[test]
fn seeking_keeps_going_off_the_food_tile() {
    let mut res = ResourceTiles::new();
    res.food_tiles.insert((5, 7), 3);
    let step = seeking_step(9, TargetKind::Food, &Position::new(4, 7), &res, quiet_context());
    assert_eq!(step.state, AgentState::Seeking { target: TargetKind::Food });
}

#[test]
fn consuming_decrements_food_and_hunger_then_idles() {
    let mut res = ResourceTiles::new();
    res.food_tiles.insert((2, 2), 2);
    let mut inv: Option<Inventory> = None;
    let step = consuming_step(TargetKind::Food, &Position::new(2, 2), &mut res, &mut inv);
    assert_eq!(step.state, AgentState::Idle);
    assert_eq!(step.relief, NeedRelief::Hunger);
    assert_eq!(res.food_tiles.get((2, 2)), Some(1));
}

#[test]
fn consuming_removes_tile_when_counter_hits_zero() {
    let mut res = ResourceTiles::new();
    res.water_tiles.insert((1, 1), 1);
    let mut inv: Option<Inventory> = None;
    let step = consuming_step(TargetKind::Water, &Position::new(1, 1), &mut res, &mut inv);
    assert_eq!(step.relief, NeedRelief::Thirst);
    assert!(!res.water_tiles.contains_key((1, 1)));
}

#[test]
fn combat_pair_starts_once() {
    let a = idle_outcome(3, Some((TargetKind::Agent(8), DecisionReason::CombatReason)), true, BiasOutcome::Natural, None, true, None);
    let b = idle_outcome(8, Some((TargetKind::Agent(3), DecisionReason::CombatReason)), true, BiasOutcome::Natural, None, true, None);
    match (a, b) {
        (
            IdleOutcome::Combat { starts_combat: sa, pair: pa, .. },
            IdleOutcome::Combat { starts_combat: sb, pair: pb, .. },
        ) => {
            assert!(sa);
            assert!(!sb);
            assert_eq!(pa, (3, 8));
            assert_eq!(pb, (3, 8));
        }
        other => panic!("expected combat, got {:?}", other),
    }
}

#[test]
fn gather_picks_up_up_to_room() {
    let mut res = ResourceTiles::new();
    res.food_tiles.insert((4, 4), 5);
    let mut inv = Some(Inventory { food: 1, other: 0, capacity: 3 });
    let step = consuming_step(TargetKind::GatherFood, &Position::new(4, 4), &mut res, &mut inv);
    assert_eq!(step.relief, NeedRelief::Nothing);
    assert_eq!(inv.unwrap().food, 3);
    assert_eq!(res.food_tiles.get((4, 4)), Some(3));
}

use sim_systems::decision::{decision_event, natural_decision_parent, TileLogEntry};

#[test]
fn decision_events_follow_the_latest_influence_or_social_decision() {
    let e = decision_event(9, None, 4, (4, 4), DecisionReason::HungerThresholdBreach, 12);
    assert_eq!(e.position, (4, 4));
    assert_eq!(e.reason, DecisionReason::HungerThresholdBreach);
    assert_eq!((e.id, e.agent, e.tick, e.parent), (9, 4, 12, None));
    let log = vec![
        TileLogEntry::InfluenceChanged { id: 3 },
        TileLogEntry::Decision { id: 5, agent: 7, reason: DecisionReason::SocialReason },
        TileLogEntry::Decision { id: 6, agent: 4, reason: DecisionReason::SocialReason },
        TileLogEntry::Other,
    ];
    assert_eq!(natural_decision_parent(&log, DecisionReason::SocialReason, 4), Some(5));
    assert_eq!(natural_decision_parent(&log, DecisionReason::HungerThresholdBreach, 4), Some(3));
    assert_eq!(natural_decision_parent(&vec![TileLogEntry::Other], DecisionReason::SocialReason, 4), None);
}

use sim_systems::decision::idle_decision_step;

#[test]
fn breach_records_the_decision_on_the_agents_tile() {
    let natural = natural_cascade(flags(true, false), None, None);
    let log = vec![TileLogEntry::InfluenceChanged { id: 2 }];
    let (state, event) = idle_decision_step(7, &Position::new(4, 4), 32, natural, false, BiasOutcome::Natural, None, true, None, 10, 0, &log, 3);
    assert_eq!(state, AgentState::Seeking { target: TargetKind::Food });
    let (index, e) = event.expect("a decision is recorded");
    assert_eq!(index, 4 * 32 + 4);
    assert_eq!(e.position, (4, 4));
    assert_eq!(e.reason, DecisionReason::HungerThresholdBreach);
    assert_eq!((e.id, e.parent, e.agent, e.tick), (10, Some(2), 7, 3));
    let (idle, none) = idle_decision_step(7, &Position::new(4, 4), 32, None, false, BiasOutcome::Natural, None, true, None, 10, 0, &log, 3);
    assert_eq!(idle, AgentState::Idle);
    assert!(none.is_none());
}
