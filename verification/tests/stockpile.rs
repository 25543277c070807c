use sim_systems::settlement::{Settlement, SettlementTable};
use sim_systems::stockpile::{
    consume_from, deposit_into, Carrier, Diner, StockpileConsumeSystem, StockpileDepositSystem,
};

fn settlement(id: u64, tile: (u32, u32), members: Vec<u64>, stock: u64) -> Settlement {
    Settlement {
        id,
        formation_tile: tile,
        formation_event: 1,
        founded_at: 0,
        birth_last_tick: 0,
        last_known_population: None,
        current: members.len() as u32,
        member_agents: members,
        member_buildings: vec![],
        total_births: 0,
        community_history: vec![],
        stockpile_food: stock,
    }
}

fn table(settlements: Vec<Settlement>) -> SettlementTable {
    let next = settlements.iter().map(|s| s.id).max().unwrap_or(0) + 1;
    SettlementTable { settlements, next_settlement_id: next, next_event_id: 1, next_agent_id: 1 }
}

#[test]
fn deposit_drains_members_near_home() {
    let mut s = settlement(1, (10, 10), vec![1, 2, 3], 4);
    let mut carriers = vec![
        Carrier { agent: 1, tile: (11, 10), food: 5 },
        Carrier { agent: 2, tile: (20, 20), food: 7 },
        Carrier { agent: 4, tile: (10, 10), food: 9 },
    ];
    deposit_into(&mut s, &mut carriers, 3);
    assert_eq!(s.stockpile_food, 9);
    assert_eq!(carriers[0].food, 0);
    assert_eq!(carriers[1].food, 7);
    assert_eq!(carriers[2].food, 9);
}

#[test]
fn deposit_tick_conserves_food() {
    let mut t = table(vec![settlement(1, (5, 5), vec![1], 0), settlement(2, (20, 20), vec![2, 3], 10)]);
    let mut carriers = vec![
        Carrier { agent: 1, tile: (5, 6), food: 3 },
        Carrier { agent: 2, tile: (21, 21), food: 4 },
        Carrier { agent: 3, tile: (0, 0), food: 6 },
    ];
    let before: u64 = 10 + 3 + 4 + 6;
    StockpileDepositSystem::new().tick(&mut t, &mut carriers, 3);
    let after: u64 = t.settlements.iter().map(|s| s.stockpile_food).sum::<u64>()
        + carriers.iter().map(|c| c.food as u64).sum::<u64>();
    assert_eq!(before, after);
    assert_eq!(t.settlements[0].stockpile_food, 3);
    assert_eq!(t.settlements[1].stockpile_food, 14);
    assert_eq!(carriers[2].food, 6);
}

#[test]
fn consume_relieves_lowest_ids_first_while_stock_lasts() {
    let mut s = settlement(1, (10, 10), vec![7, 3, 5], 2);
    let mut diners = vec![
        Diner { agent: 7, tile: (10, 10), eating_ground: false, meals_wanted: 1 },
        Diner { agent: 3, tile: (10, 11), eating_ground: false, meals_wanted: 2 },
        Diner { agent: 5, tile: (9, 9), eating_ground: false, meals_wanted: 1 },
    ];
    let relieved = consume_from(&mut s, &mut diners, 3);
    assert_eq!(relieved, vec![3, 5]);
    assert_eq!(s.stockpile_food, 0);
    assert_eq!(diners[0].meals_wanted, 1);
    assert_eq!(diners[1].meals_wanted, 1);
    assert_eq!(diners[2].meals_wanted, 0);
}

#[test]
fn consume_skips_ground_eaters_and_the_sated() {
    let mut s = settlement(1, (10, 10), vec![1, 2, 3], 5);
    let mut diners = vec![
        Diner { agent: 1, tile: (10, 10), eating_ground: true, meals_wanted: 3 },
        Diner { agent: 2, tile: (10, 10), eating_ground: false, meals_wanted: 0 },
        Diner { agent: 3, tile: (30, 30), eating_ground: false, meals_wanted: 3 },
    ];
    let relieved = consume_from(&mut s, &mut diners, 3);
    assert!(relieved.is_empty());
    assert_eq!(s.stockpile_food, 5);
}

#[test]
fn consume_tick_balances_reserve_and_meals() {
    let mut t = table(vec![settlement(1, (5, 5), vec![1, 2], 1), settlement(2, (6, 6), vec![2], 3)]);
    let mut diners = vec![
        Diner { agent: 1, tile: (5, 5), eating_ground: false, meals_wanted: 2 },
        Diner { agent: 2, tile: (6, 6), eating_ground: false, meals_wanted: 2 },
    ];
    let reliefs = StockpileConsumeSystem::new().tick(&mut t, &mut diners, 3);
    // Settlement 1 has one meal: agent 1 gets it; settlement 2 feeds agent 2.
    assert_eq!(reliefs, vec![1, 2]);
    assert_eq!(t.settlements[0].stockpile_food, 0);
    assert_eq!(t.settlements[1].stockpile_food, 2);
    assert_eq!(diners[0].meals_wanted, 1);
    assert_eq!(diners[1].meals_wanted, 1);
}

#[test]
fn consume_tick_with_separate_members_relieves_each_once() {
    let mut t = table(vec![settlement(1, (5, 5), vec![4, 2], 1), settlement(2, (20, 20), vec![3, 1], 5)]);
    let mut diners = vec![
        Diner { agent: 1, tile: (21, 20), eating_ground: false, meals_wanted: 1 },
        Diner { agent: 2, tile: (5, 5), eating_ground: false, meals_wanted: 2 },
        Diner { agent: 3, tile: (20, 20), eating_ground: false, meals_wanted: 0 },
        Diner { agent: 4, tile: (6, 5), eating_ground: false, meals_wanted: 1 },
    ];
    let reliefs = StockpileConsumeSystem::new().tick(&mut t, &mut diners, 3);
    assert_eq!(reliefs, vec![2, 1]);
    assert_eq!(t.settlements[0].stockpile_food, 0);
    assert_eq!(t.settlements[1].stockpile_food, 4);
    let wanted: Vec<u32> = diners.iter().map(|d| d.meals_wanted).collect();
    assert_eq!(wanted, vec![0, 1, 0, 1]);
}

#[test]
fn deposit_tick_with_separate_members_adds_each_members_food() {
    let mut t = table(vec![settlement(1, (5, 5), vec![1, 4], 2), settlement(2, (20, 20), vec![2], 0)]);
    let mut carriers = vec![
        Carrier { agent: 1, tile: (5, 5), food: 3 },
        Carrier { agent: 2, tile: (19, 20), food: 8 },
        Carrier { agent: 4, tile: (7, 7), food: 1 },
        Carrier { agent: 5, tile: (5, 5), food: 9 },
    ];
    StockpileDepositSystem::new().tick(&mut t, &mut carriers, 3);
    assert_eq!(t.settlements[0].stockpile_food, 6);
    assert_eq!(t.settlements[1].stockpile_food, 8);
    let food: Vec<u32> = carriers.iter().map(|c| c.food).collect();
    assert_eq!(food, vec![0, 0, 0, 9]);
}
