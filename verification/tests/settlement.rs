use sim_systems::settlement::{
    SettlementEvent, SettlementRules, SettlementSystem, SettlementTable, BIRTH_COOLDOWN_TICKS,
};

/// A table whose fresh agent ids come after those of the agents below.
fn fresh_table() -> SettlementTable {
    let mut t = SettlementTable::new();
    t.next_agent_id = 100;
    t
}

fn rules() -> SettlementRules {
    SettlementRules { proximity_radius: 3, formation_agent_threshold: 3, formation_building_threshold: 1, max_pop: 50 }
}

fn run(
    sys: &mut SettlementSystem,
    table: &mut SettlementTable,
    agents: &Vec<(u64, (u32, u32))>,
    buildings: &Vec<(u64, (u32, u32))>,
    tick: u64,
) -> Vec<SettlementEvent> {
    let mut events = Vec::new();
    sys.tick(table, agents, buildings, &Vec::new(), &Vec::new(), 32, 32, tick, &mut events);
    events
}

#[test]
fn empty_world_tick_is_no_op() {
    let mut sys = SettlementSystem::new(rules());
    let mut table = fresh_table();
    let events = run(&mut sys, &mut table, &Vec::new(), &Vec::new(), 0);
    assert!(table.settlements.is_empty());
    assert!(events.is_empty());
}

#[test]
fn tick_run_count_increments_each_tick() {
    let mut sys = SettlementSystem::new(rules());
    let mut table = fresh_table();
    for t in 0..5 {
        run(&mut sys, &mut table, &Vec::new(), &Vec::new(), t);
    }
    assert_eq!(sys.tick_run_count(), 5);
}

#[test]
fn zero_sized_grid_only_counts_the_run() {
    let mut sys = SettlementSystem::new(rules());
    let mut table = fresh_table();
    let agents = vec![(1, (5, 5)), (2, (5, 6)), (3, (6, 5))];
    let buildings = vec![(10, (5, 5))];
    let mut events = Vec::new();
    sys.tick(&mut table, &agents, &buildings, &Vec::new(), &Vec::new(), 0, 32, 0, &mut events);
    assert_eq!(sys.tick_run_count(), 1);
    assert!(table.settlements.is_empty());
    assert!(events.is_empty());
}

#[test]
fn cluster_with_a_building_forms_a_settlement() {
    let mut sys = SettlementSystem::new(rules());
    let mut table = fresh_table();
    let agents = vec![(3, (5, 5)), (1, (5, 6)), (2, (6, 5)), (9, (30, 30))];
    let buildings = vec![(10, (5, 5))];
    let events = run(&mut sys, &mut table, &agents, &buildings, 7);
    assert_eq!(table.settlements.len(), 1);
    let s = &table.settlements[0];
    assert_eq!(s.id, 1);
    assert_eq!(s.formation_tile, (5, 5));
    assert_eq!(s.current, 3);
    assert_eq!(s.founded_at, 7);
    assert_eq!(s.member_buildings, vec![10]);
    match &events[0] {
        SettlementEvent::Formed { settlement, founding_members, tile, .. } => {
            assert_eq!(*settlement, 1);
            assert_eq!(*founding_members, vec![1, 2, 3]);
            assert_eq!(*tile, (5, 5));
        }
        other => panic!("expected a formation, got {:?}", other),
    }
}

#[test]
fn too_few_agents_form_nothing() {
    let mut sys = SettlementSystem::new(rules());
    let mut table = fresh_table();
    let agents = vec![(1, (5, 5)), (2, (5, 6))];
    let buildings = vec![(10, (5, 5))];
    run(&mut sys, &mut table, &agents, &buildings, 0);
    assert!(table.settlements.is_empty());
}

#[test]
fn birth_waits_for_the_cooldown() {
    let mut sys = SettlementSystem::new(rules());
    let mut table = fresh_table();
    let agents = vec![(1, (5, 5)), (2, (5, 6)), (3, (6, 5))];
    let buildings = vec![(10, (5, 5))];
    run(&mut sys, &mut table, &agents, &buildings, 0);
    let early = run(&mut sys, &mut table, &agents, &buildings, BIRTH_COOLDOWN_TICKS - 1);
    assert!(early.iter().all(|e| !matches!(e, SettlementEvent::Born { .. })));
    let due = run(&mut sys, &mut table, &agents, &buildings, BIRTH_COOLDOWN_TICKS);
    let born: Vec<&SettlementEvent> = due.iter().filter(|e| matches!(e, SettlementEvent::Born { .. })).collect();
    assert_eq!(born.len(), 1);
    match born[0] {
        SettlementEvent::Born { settlement, tile, agent, parent, .. } => {
            assert_eq!(*settlement, 1);
            assert_eq!(*agent, 100);
            // Parented to the formation event, the first event issued.
            assert_eq!(*parent, 1);
            // Next to the lowest-id member.
            assert_eq!(*tile, (5, 5));
        }
        _ => unreachable!(),
    }
    let s = &table.settlements[0];
    assert_eq!(s.current, 4);
    assert_eq!(s.total_births, 1);
    assert_eq!(s.birth_last_tick, BIRTH_COOLDOWN_TICKS);
    assert_eq!(s.community_history.len(), 2);
    assert!(s.member_agents.contains(&100));
}

#[test]
fn settlement_without_people_or_buildings_dissolves() {
    let mut sys = SettlementSystem::new(rules());
    let mut table = fresh_table();
    let agents = vec![(1, (5, 5)), (2, (5, 6)), (3, (6, 5))];
    let buildings = vec![(10, (5, 5))];
    run(&mut sys, &mut table, &agents, &buildings, 0);
    assert_eq!(table.settlements.len(), 1);
    let events = run(&mut sys, &mut table, &Vec::new(), &Vec::new(), 1);
    assert!(table.settlements.is_empty());
    match &events[0] {
        SettlementEvent::Dissolved { settlement, final_population, .. } => {
            assert_eq!(*settlement, 1);
            assert_eq!(*final_population, 3);
        }
        other => panic!("expected a dissolution, got {:?}", other),
    }
}

#[test]
fn new_buildings_are_routed_once() {
    let mut sys = SettlementSystem::new(rules());
    let mut table = fresh_table();
    let agents = vec![(1, (5, 5)), (2, (5, 6)), (3, (6, 5))];
    let mut buildings = vec![(10, (5, 5))];
    run(&mut sys, &mut table, &agents, &buildings, 0);
    buildings.push((11, (6, 6)));
    run(&mut sys, &mut table, &agents, &buildings, 1);
    run(&mut sys, &mut table, &agents, &buildings, 2);
    let s = &table.settlements[0];
    assert_eq!(s.community_history.iter().filter(|e| **e == 11).count(), 1);
}
