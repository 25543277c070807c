use sim_systems::construction::{
    building_site_is_available, choose_early_structure_plan, find_build_site, next_building_id,
    settlement_construction_snapshot, ConstructionSnapshot, PassableMap, SiteBuilding,
};
use sim_systems::economy::{
    construction_build_ticks, gathering_target_resource, job_assignment_job_index, legacy_construction_build_ticks,
    resource_type_to_rule_tag, EarlyStructurePlan, GatherAction, JobAssignmentRuntimeSystem, ResourceRegenSystem,
    ResourceType,
};
use sim_systems::influence_runtime::{furniture_registry_id, shelter_structure_signature, InfluenceRuntimeSystem, ShelterBuilding};
use sim_systems::shelter::{
    count_ring_walls, fire_pit_plan, ring_tiles, shelter_walls_present, wall_ring_plans, Footprint, ShelterLayout,
};

fn open_map(w: u32, h: u32) -> PassableMap {
    PassableMap { width: w, height: h, passable: vec![true; (w * h) as usize] }
}

#[test]
fn construction_build_ticks_reads_from_registry() {
    assert_eq!(construction_build_ticks("shelter", Some(90)), 90);
    assert_eq!(construction_build_ticks("shelter", None), 60);
}

#[test]
fn legacy_fallback_when_registry_missing() {
    assert_eq!(legacy_construction_build_ticks("stockpile"), Some(36));
    assert_eq!(legacy_construction_build_ticks("shelter"), Some(60));
    assert_eq!(legacy_construction_build_ticks("campfire"), Some(24));
    assert_eq!(legacy_construction_build_ticks("tower"), None);
    assert_eq!(construction_build_ticks("tower", None), 50);
}

#[test]
fn job_indices_follow_assignment_order() {
    assert_eq!(job_assignment_job_index("gatherer"), Some(0));
    assert_eq!(job_assignment_job_index("lumberjack"), Some(1));
    assert_eq!(job_assignment_job_index("builder"), Some(2));
    assert_eq!(job_assignment_job_index("miner"), Some(3));
    assert_eq!(job_assignment_job_index("none"), None);
}

#[test]
fn plan_building_types_and_resource_tags() {
    assert_eq!(EarlyStructurePlan::Stockpile.building_type(), "stockpile");
    assert_eq!(EarlyStructurePlan::Campfire.building_type(), "campfire");
    assert_eq!(EarlyStructurePlan::Shelter.building_type(), "shelter");
    assert_eq!(resource_type_to_rule_tag(ResourceType::Wood), "wood_harvesting");
    assert_eq!(gathering_target_resource(GatherAction::GatherHerbs), Some((ResourceType::Food, "food")));
    assert_eq!(gathering_target_resource(GatherAction::Other), None);
    assert_eq!(furniture_registry_id("campfire"), Some("fire_pit"));
    assert_eq!(furniture_registry_id("shelter"), None);
}

#[test]
fn economy_systems_keep_their_cadence() {
    let r = ResourceRegenSystem::new(5, 0);
    assert_eq!(r.tick_interval(), 1);
    assert_eq!(r.name(), "resource_regen_system");
    let j = JobAssignmentRuntimeSystem::new(8, 30);
    assert_eq!(j.priority(), 8);
    assert_eq!(j.tick_interval(), 30);
    assert_eq!(j.name(), "job_assignment_system");
}

fn snapshot() -> ConstructionSnapshot {
    ConstructionSnapshot {
        has_stockpile: false,
        has_campfire: false,
        has_incomplete_site: false,
        complete_shelter_count: 0,
        has_incomplete_shelter: false,
    }
}

#[test]
fn early_plan_order() {
    assert_eq!(choose_early_structure_plan(snapshot(), 4, 6, true, true, true), Some(EarlyStructurePlan::Stockpile));
    let mut s = snapshot();
    s.has_stockpile = true;
    assert_eq!(choose_early_structure_plan(s, 4, 6, true, true, true), Some(EarlyStructurePlan::Campfire));
    s.has_campfire = true;
    assert_eq!(choose_early_structure_plan(s, 4, 6, true, true, true), Some(EarlyStructurePlan::Shelter));
    s.complete_shelter_count = 1;
    assert_eq!(choose_early_structure_plan(s, 4, 6, true, true, true), None);
    s.has_incomplete_site = true;
    assert_eq!(choose_early_structure_plan(snapshot_with_site(), 4, 6, true, true, true), None);
}

fn snapshot_with_site() -> ConstructionSnapshot {
    let mut s = snapshot();
    s.has_incomplete_site = true;
    s
}

#[test]
fn construction_snapshot_reads_buildings() {
    let bs = vec![
        SiteBuilding { settlement: 1, building_type: "stockpile".to_string(), is_complete: true },
        SiteBuilding { settlement: 1, building_type: "shelter".to_string(), is_complete: false },
        SiteBuilding { settlement: 2, building_type: "campfire".to_string(), is_complete: true },
    ];
    let s = settlement_construction_snapshot(&bs, 1, false, false);
    assert!(s.has_stockpile);
    assert!(!s.has_campfire);
    assert!(s.has_incomplete_site);
    assert!(s.has_incomplete_shelter);
    assert_eq!(s.complete_shelter_count, 0);
    let planned = settlement_construction_snapshot(&bs, 2, true, false);
    assert!(planned.has_incomplete_shelter);
    assert_eq!(planned.complete_shelter_count, 1);
}

#[test]
fn next_building_id_is_one_past_the_largest() {
    assert_eq!(next_building_id(&vec![]), 1);
    assert_eq!(next_building_id(&vec![4, 9, 2]), 10);
}

#[test]
fn build_site_search_takes_the_first_free_ring_tile() {
    let map = open_map(16, 16);
    // Nothing in the way: the top-left corner of the first ring.
    assert_eq!(find_build_site(&map, &vec![], 8, 8, 3, 1, 1), Some((7, 7)));
    // A building covering the whole first ring pushes the site outwards.
    let blocker = Footprint { x: 6, y: 6, width: 5, height: 5 };
    let site = find_build_site(&map, &vec![blocker], 8, 8, 3, 1, 1);
    assert_eq!(site, None);
    let small = Footprint { x: 7, y: 7, width: 1, height: 1 };
    assert_eq!(find_build_site(&map, &vec![small], 8, 8, 3, 1, 1), Some((9, 7)));
}

#[test]
fn site_availability_checks_bounds_and_spacing() {
    let map = open_map(8, 8);
    assert!(building_site_is_available(&map, &vec![], 0, 0, 2, 2));
    assert!(!building_site_is_available(&map, &vec![], 7, 7, 2, 2));
    let b = Footprint { x: 3, y: 3, width: 1, height: 1 };
    assert!(!building_site_is_available(&map, &vec![b], 4, 4, 1, 1));
    assert!(building_site_is_available(&map, &vec![b], 5, 5, 1, 1));
}

fn layout() -> ShelterLayout {
    ShelterLayout { wall_radius: 2, door_dx: 0, door_dy: 2 }
}

#[test]
fn ring_has_perimeter_less_door_in_row_major_order() {
    let tiles = ring_tiles(layout(), 10, 10, 32, 32);
    assert_eq!(tiles.len(), 15);
    assert_eq!(tiles[0], (8, 8));
    assert_eq!(tiles[4], (12, 8));
    assert!(!tiles.contains(&(10, 12)));
    // Clipped at the grid edge.
    assert_eq!(ring_tiles(layout(), 0, 0, 32, 32).len(), 4);
}

#[test]
fn wall_counting_and_plans() {
    let w = 32u32;
    let mut walls = vec![false; (w * w) as usize];
    assert_eq!(count_ring_walls(layout(), 10, 10, w, w, &walls), 0);
    for (x, y) in ring_tiles(layout(), 10, 10, w, w) {
        walls[(y as u32 * w + x as u32) as usize] = true;
    }
    assert_eq!(count_ring_walls(layout(), 10, 10, w, w, &walls), 15);
    assert!(shelter_walls_present(layout(), 10, 10, w, w, &walls));
    walls[(8 * w + 8) as usize] = false;
    assert!(!shelter_walls_present(layout(), 10, 10, w, w, &walls));
    let mut next = 100u64;
    let blocker = Footprint { x: 9, y: 8, width: 1, height: 1 };
    let plans = wall_ring_plans(layout(), 10, 10, w, w, &walls, &vec![blocker], &mut next);
    assert_eq!(plans.len(), 1);
    assert_eq!((plans[0].x, plans[0].y, plans[0].id), (8, 8, 100));
    assert_eq!(next, 101);
    let furniture = vec![false; (w * w) as usize];
    let pit = fire_pit_plan(10, 10, w, w, &furniture, &mut next).unwrap();
    assert_eq!((pit.id, pit.x, pit.y), (101, 10, 10));
    assert!(fire_pit_plan(-1, 10, w, w, &furniture, &mut next).is_none());
    assert_eq!(next, 102);
}

#[test]
fn shelter_signature_changes_with_shelters_only() {
    let a = ShelterBuilding { id: 1, is_complete: true, is_shelter: true, x: 3, y: 4 };
    let b = ShelterBuilding { id: 2, is_complete: false, is_shelter: true, x: 9, y: 9 };
    let sig = shelter_structure_signature(&vec![a, b]);
    assert_eq!(sig, 1 + 3 + (4u64 << 16));
    let moved = ShelterBuilding { x: 5, ..a };
    assert_ne!(shelter_structure_signature(&vec![moved, b]), sig);
    assert_eq!(shelter_structure_signature(&vec![]), 0);
    let negative = ShelterBuilding { id: 1, is_complete: true, is_shelter: true, x: -1, y: 0 };
    assert_eq!(shelter_structure_signature(&vec![negative]), 0);
    let mut sys = InfluenceRuntimeSystem::new(40, 0);
    assert!(sys.observe_signature(sig));
    assert!(!sys.observe_signature(sig));
    assert!(sys.observe_signature(sig + 1));
    assert_eq!(sys.tick_interval(), 1);
}

#[test]
fn full_ring_has_the_required_wall_count() {
    for r in 1..5 {
        let l = ShelterLayout { wall_radius: r, door_dx: 0, door_dy: r };
        let tiles = ring_tiles(l, 20, 20, 64, 64);
        assert_eq!(tiles.len() as i32, 8 * r - 1);
    }
    let no_door = ShelterLayout { wall_radius: 3, door_dx: 0, door_dy: 0 };
    assert_eq!(ring_tiles(no_door, 20, 20, 64, 64).len(), 24);
}

use sim_systems::construction::{pending_site_targets, shelter_to_finalize, PlacedBuilding, PlanSite};
use sim_systems::shelter::{blueprint_furniture_plans, blueprint_tiles_on_grid, blueprint_wall_plans};

#[test]
fn blueprint_plans_skip_off_grid_covered_and_built_tiles() {
    let w = 16u32;
    let mut walls = vec![false; (w * w) as usize];
    walls[(5 * w + 6) as usize] = true;
    let offsets = vec![(-1, -1), (0, -1), (1, -1), (-20, 0)];
    let blocker = Footprint { x: 4, y: 4, width: 1, height: 1 };
    let mut next = 7u64;
    let plans = blueprint_wall_plans(&offsets, 5, 5, w, w, &walls, &vec![blocker], &mut next);
    // (4, 4) is covered, (6, 4) is free, (5, 4) is free, (-15, 5) is off the grid.
    let tiles: Vec<(i32, i32, u64)> = plans.iter().map(|p| (p.x, p.y, p.id)).collect();
    assert_eq!(tiles, vec![(5, 4, 7), (6, 4, 8)]);
    assert_eq!(next, 9);
    let mut furniture = vec![false; (w * w) as usize];
    furniture[(5 * w + 5) as usize] = true;
    let pits = blueprint_furniture_plans(&vec![(0, 0), (1, 0)], 5, 5, w, w, &furniture, &mut next);
    assert_eq!(pits.len(), 1);
    assert_eq!((pits[0].x, pits[0].y, pits[0].id), (6, 5, 9));
    assert_eq!(blueprint_tiles_on_grid(&vec![(0, 0), (-9, 0), (20, 20), (10, 10)], 5, 5, w, w), vec![(5, 5), (15, 15)]);
}

#[test]
fn pending_sites_list_buildings_then_plans() {
    let buildings = vec![
        PlacedBuilding { settlement: 1, x: 2, y: 2, is_complete: true },
        PlacedBuilding { settlement: 2, x: 3, y: 3, is_complete: false },
    ];
    let walls = vec![PlanSite { settlement: 1, x: 4, y: 4 }];
    let furniture = vec![PlanSite { settlement: 1, x: 5, y: 5 }];
    assert_eq!(pending_site_targets(&buildings, &walls, &furniture), vec![(2, (3, 3)), (1, (4, 4)), (1, (5, 5))]);
}

#[test]
fn nearly_built_shelter_is_finalized() {
    let l = ShelterLayout { wall_radius: 2, door_dx: 0, door_dy: 2 };
    let w = 32u32;
    let mut walls = vec![false; (w * w) as usize];
    let ring = ring_tiles(l, 10, 10, w, w);
    for (x, y) in ring.iter().skip(2) {
        walls[(*y as u32 * w + *x as u32) as usize] = true;
    }
    let bs = vec![
        SiteBuilding { settlement: 2, building_type: "shelter".to_string(), is_complete: false },
        SiteBuilding { settlement: 1, building_type: "shelter".to_string(), is_complete: true },
        SiteBuilding { settlement: 1, building_type: "shelter".to_string(), is_complete: false },
    ];
    assert_eq!(shelter_to_finalize(l, Some((10, 10)), w, w, &walls, &bs, 1), Some(2));
    assert_eq!(shelter_to_finalize(l, None, w, w, &walls, &bs, 1), None);
    walls[(ring[2].1 as u32 * w + ring[2].0 as u32) as usize] = false;
    assert_eq!(shelter_to_finalize(l, Some((10, 10)), w, w, &walls, &bs, 1), None);
}

use sim_systems::influence_runtime::{default_falloff_for_channel, preferred_structure_material_tag, ChannelId, FalloffType};

#[test]
fn falloffs_and_preferred_material() {
    assert_eq!(default_falloff_for_channel(ChannelId::Food), FalloffType::Gaussian);
    assert_eq!(default_falloff_for_channel(ChannelId::Disease), FalloffType::Exponential);
    assert_eq!(default_falloff_for_channel(ChannelId::Warmth), FalloffType::Linear);
    assert_eq!(preferred_structure_material_tag(Some(true)), "stone");
    assert_eq!(preferred_structure_material_tag(Some(false)), "wood");
    assert_eq!(preferred_structure_material_tag(None), "wood");
}
