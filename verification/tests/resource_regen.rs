use sim_systems::agent::{AgentState, TargetKind};
use sim_systems::geometry::Position;
use sim_systems::resource_regen::{ResourceRegenSystem, SeekRepair, StaleSeekTargetSystem, FOOD_REGEN_AMOUNT};
use sim_systems::tiles::{ResourceTiles, RESOURCE_SOURCE_INFINITE};

#[test]
fn refills_a_removed_tile_from_zero() {
    let mut res = ResourceTiles::new();
    res.food_source_max.insert((3, 3), 80);
    assert!(!res.food_tiles.contains_key((3, 3)));
    let mut sys = ResourceRegenSystem::new();
    sys.tick(&mut res);
    assert_eq!(res.food_tiles.get((3, 3)), Some(FOOD_REGEN_AMOUNT));
}

#[test]
fn caps_at_max() {
    let mut res = ResourceTiles::new();
    res.food_source_max.insert((4, 4), 5);
    res.food_tiles.insert((4, 4), 5);
    let mut sys = ResourceRegenSystem::new();
    for _ in 0..10 {
        sys.tick(&mut res);
    }
    assert_eq!(res.food_tiles.get((4, 4)), Some(5));
}

#[test]
fn never_touches_sentinel() {
    let mut res = ResourceTiles::new();
    res.food_source_max.insert((2, 2), 80);
    res.food_tiles.insert((2, 2), RESOURCE_SOURCE_INFINITE);
    let mut sys = ResourceRegenSystem::new();
    sys.tick(&mut res);
    assert_eq!(res.food_tiles.get((2, 2)), Some(RESOURCE_SOURCE_INFINITE));
}

#[test]
fn empty_registry_is_noop() {
    let mut res = ResourceTiles::new();
    res.food_tiles.insert((1, 1), 7);
    let mut sys = ResourceRegenSystem::new();
    sys.tick(&mut res);
    assert_eq!(res.food_tiles.get((1, 1)), Some(7));
}

#[test]
fn regen_climbs_one_unit_per_run_to_the_ceiling() {
    let mut res = ResourceTiles::new();
    res.water_source_max.insert((0, 0), 3);
    res.water_tiles.insert((0, 0), 1);
    let mut sys = ResourceRegenSystem::new();
    sys.tick(&mut res);
    assert_eq!(res.water_tiles.get((0, 0)), Some(2));
    sys.tick(&mut res);
    sys.tick(&mut res);
    assert_eq!(res.water_tiles.get((0, 0)), Some(3));
    assert_eq!(res.water_source_max.get((0, 0)), Some(3));
}

fn seeking_food_at(x: u32, y: u32, seek: (u32, u32)) -> Vec<(AgentState, Position, Option<(u32, u32)>)> {
    vec![(AgentState::Seeking { target: TargetKind::Food }, Position::new(x, y), Some(seek))]
}

#[test]
fn stale_seek_reroutes_to_present_tile() {
    let mut res = ResourceTiles::new();
    res.food_tiles.insert((8, 5), 80);
    res.food_source_max.insert((8, 5), 80);
    let mut sys = StaleSeekTargetSystem::new();
    let out = sys.tick(&res, &seeking_food_at(5, 5, (5, 5)));
    assert_eq!(out, vec![SeekRepair::Reroute((8, 5))]);
}

#[test]
fn stale_seek_exits_to_idle_when_no_source_remains() {
    let mut res = ResourceTiles::new();
    res.food_source_max.insert((5, 5), 80);
    let mut sys = StaleSeekTargetSystem::new();
    let out = sys.tick(&res, &seeking_food_at(5, 5, (5, 5)));
    assert_eq!(out, vec![SeekRepair::ToIdle]);
}

#[test]
fn stale_seek_noop_when_target_present() {
    let mut res = ResourceTiles::new();
    res.food_tiles.insert((9, 9), 80);
    res.food_source_max.insert((9, 9), 80);
    let mut sys = StaleSeekTargetSystem::new();
    let out = sys.tick(&res, &seeking_food_at(5, 5, (9, 9)));
    assert_eq!(out, vec![SeekRepair::Keep]);
}

#[test]
fn stale_seek_noop_on_sentinel_target() {
    let mut res = ResourceTiles::new();
    res.food_tiles.insert((9, 9), RESOURCE_SOURCE_INFINITE);
    res.food_source_max.insert((9, 9), 80);
    let mut sys = StaleSeekTargetSystem::new();
    let out = sys.tick(&res, &seeking_food_at(5, 5, (9, 9)));
    assert_eq!(out, vec![SeekRepair::Keep]);
}

#[test]
fn stale_seek_is_noop_without_scarcity() {
    let mut res = ResourceTiles::new();
    res.food_tiles.insert((8, 5), 80);
    let mut sys = StaleSeekTargetSystem::new();
    let out = sys.tick(&res, &seeking_food_at(5, 5, (5, 5)));
    assert_eq!(out, vec![SeekRepair::Keep]);
}
