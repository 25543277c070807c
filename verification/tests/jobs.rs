use sim_systems::construction::{
    builders_to_retask, choose_early_structure_plan, cleanup_plans, find_build_site, settlement_construction_snapshot,
    shelter_settlements, PassableMap, PlanRecord, ShelterRecord, SiteBuilding, WorkAction, WorkerView,
};
use sim_systems::economy::EarlyStructurePlan;
use sim_systems::shelter::Footprint;
use sim_systems::economy::JobAssignmentRuntimeSystem;
use sim_systems::jobs::{
    assigned_job_index, job_census, job_name, rebalance_candidate, rebalance_pair, CurrentAction, JobHolder,
};
use sim_systems::needs::GrowthStage;

fn holder(stage: GrowthStage, occupation: &str, job: &str) -> JobHolder {
    JobHolder { stage, occupation: occupation.to_string(), job: job.to_string() }
}

#[test]
fn census_counts_jobs_and_forces_the_young() {
    let hs = vec![
        holder(GrowthStage::Infant, "", "gatherer"),
        holder(GrowthStage::Child, "", "none"),
        holder(GrowthStage::Adult, "", "none"),
        holder(GrowthStage::Adult, "smith", "miner"),
        holder(GrowthStage::Elder, "laborer", "builder"),
        holder(GrowthStage::Teen, "", "gatherer"),
        holder(GrowthStage::Toddler, "", "none"),
    ];
    let c = job_census(&hs);
    assert_eq!(c.alive, 4);
    assert_eq!(c.counts, vec![1, 0, 1, 1]);
    assert_eq!(c.unassigned, vec![2]);
    assert_eq!(c.set_none, vec![0]);
    assert_eq!(c.set_gatherer, vec![1]);
}

#[test]
fn assignment_rules() {
    assert_eq!(assigned_job_index(GrowthStage::Teen, 3), 0);
    assert_eq!(assigned_job_index(GrowthStage::Adult, 3), 3);
    assert_eq!(assigned_job_index(GrowthStage::Adult, 7), 0);
    assert_eq!(assigned_job_index(GrowthStage::Adult, -1), 0);
    assert_eq!(assigned_job_index(GrowthStage::Elder, 2), 0);
    assert_eq!(assigned_job_index(GrowthStage::Adult, 2), 2);
    assert_eq!(job_name(1), "lumberjack");
    assert_eq!(rebalance_pair(0, 2), Some((0, 2)));
    assert_eq!(rebalance_pair(1, 1), None);
    assert_eq!(rebalance_pair(-1, 2), None);
    assert_eq!(rebalance_pair(0, 4), None);
}

#[test]
fn rebalance_takes_the_first_idle_holder_of_the_surplus_job() {
    let jobs = vec![
        ("gatherer".to_string(), CurrentAction::Busy),
        ("miner".to_string(), CurrentAction::Rest),
        ("gatherer".to_string(), CurrentAction::Wander),
    ];
    assert_eq!(rebalance_candidate(&jobs, 0), Some(2));
    assert_eq!(rebalance_candidate(&jobs, 1), None);
}

#[test]
fn first_run_resets_only_once() {
    let hs = vec![
        holder(GrowthStage::Adult, "", "miner"),
        holder(GrowthStage::Adult, "smith", "miner"),
        holder(GrowthStage::Child, "", "gatherer"),
        holder(GrowthStage::Teen, "none", "builder"),
    ];
    let mut sys = JobAssignmentRuntimeSystem::new(10, 1);
    assert_eq!(sys.first_run_resets(&hs), vec![0, 3]);
    assert!(sys.first_run_resets(&hs).is_empty());
}

#[test]
fn stale_plans_are_dropped_and_claims_released() {
    let mut plans = vec![
        PlanRecord { id: 1, settlement: 1, claimed_by: Some(5), created_tick: 0 },
        PlanRecord { id: 2, settlement: 1, claimed_by: Some(6), created_tick: 900 },
        PlanRecord { id: 3, settlement: 2, claimed_by: None, created_tick: 0 },
        PlanRecord { id: 4, settlement: 3, claimed_by: None, created_tick: 0 },
        PlanRecord { id: 5, settlement: 3, claimed_by: None, created_tick: 990 },
    ];
    // Agent 5 is alive but stuck (its plan re-opens now); agent 6 is gone
    // (its plan is 100 ticks old: kept); settlement 2 is protected; plan 4
    // is unclaimed and stale.
    cleanup_plans(&mut plans, &vec![5], &vec![2], 1000, 100);
    let ids: Vec<u64> = plans.iter().map(|p| p.id).collect();
    assert_eq!(ids, vec![1, 2, 3, 5]);
    assert_eq!(plans[0].claimed_by, None);
    assert_eq!(plans[0].created_tick, 1000);
    assert_eq!(plans[1].claimed_by, None);
    let mut plans3 = vec![PlanRecord { id: 8, settlement: 1, claimed_by: Some(6), created_tick: 0 }];
    cleanup_plans(&mut plans3, &vec![5], &vec![], 1000, 100);
    assert!(plans3.is_empty());
    let mut plans2 = vec![PlanRecord { id: 1, settlement: 1, claimed_by: Some(5), created_tick: 0 }];
    cleanup_plans(&mut plans2, &vec![5], &vec![1], 1000, 100);
    assert_eq!(plans2[0].claimed_by, None);
    assert_eq!(plans2[0].created_tick, 1000);
}

#[test]
fn shelter_settlements_are_listed_once() {
    let bs = vec![
        ShelterRecord { settlement: 4, is_shelter: true, is_complete: true },
        ShelterRecord { settlement: 4, is_shelter: true, is_complete: false },
        ShelterRecord { settlement: 7, is_shelter: false, is_complete: false },
        ShelterRecord { settlement: 9, is_shelter: true, is_complete: true },
    ];
    let mut any = shelter_settlements(&bs, false);
    any.sort();
    assert_eq!(any, vec![4, 9]);
    assert_eq!(shelter_settlements(&bs, true), vec![4]);
}

fn worker(settlement: u64, job: &str, occupation: &str, action: WorkAction, target: Option<(i32, i32)>) -> WorkerView {
    WorkerView {
        adult_alive: true,
        settlement: Some(settlement),
        job: job.to_string(),
        occupation: occupation.to_string(),
        action,
        target,
    }
}

#[test]
fn pending_sites_get_one_builder_each() {
    let workers = vec![
        worker(1, "gatherer", "", WorkAction::Other, None),
        worker(1, "builder", "", WorkAction::Other, None),
        worker(2, "builder", "", WorkAction::Build, Some((4, 4))),
        worker(3, "miner", "smith", WorkAction::Other, None),
        worker(3, "gatherer", "laborer", WorkAction::Other, None),
    ];
    let sites = vec![(3, (9, 9)), (1, (0, 0)), (2, (4, 4)), (1, (1, 1))];
    assert_eq!(builders_to_retask(&workers, &sites), vec![(1, 1), (3, 4)]);
}

#[test]
fn job_assignment_runtime_system_places_campfire_site_and_promotes_builder() {
    // A settlement at (9, 9) on an 18 x 18 map whose only building is a
    // finished stockpile; three adult gatherers; campfires are affordable.
    let buildings = vec![SiteBuilding { settlement: 1, building_type: "stockpile".to_string(), is_complete: true }];
    let snapshot = settlement_construction_snapshot(&buildings, 1, false, false);
    let plan = choose_early_structure_plan(snapshot, 3, 6, true, true, true);
    assert_eq!(plan, Some(EarlyStructurePlan::Campfire));
    let map = PassableMap { width: 18, height: 18, passable: vec![true; 18 * 18] };
    let stockpile = Footprint { x: 9, y: 9, width: 1, height: 1 };
    let site = find_build_site(&map, &vec![stockpile], 9, 9, 5, 1, 1).expect("a campfire site");
    assert!((site.0 - 9).abs().max((site.1 - 9).abs()) >= 2);
    let workers: Vec<WorkerView> = (0..3)
        .map(|i| WorkerView {
            adult_alive: true,
            settlement: Some(1),
            job: "gatherer".to_string(),
            occupation: String::new(),
            action: WorkAction::Other,
            target: Some((9 + i, 10)),
        })
        .collect();
    let retask = builders_to_retask(&workers, &vec![(1, site)]);
    assert_eq!(retask, vec![(1, 0)]);
}

use sim_systems::construction::{plan_early_site, ConstructionSnapshot, EarlySiteInputs};
use sim_systems::shelter::ShelterLayout;

#[test]
fn early_site_for_a_shelter_is_centred_on_its_ring() {
    let inputs = EarlySiteInputs {
        snapshot: ConstructionSnapshot {
            has_stockpile: true,
            has_campfire: true,
            has_incomplete_site: false,
            complete_shelter_count: 0,
            has_incomplete_shelter: false,
        },
        alive_adults: 4,
        shelter_capacity: 6,
        can_place_stockpile: true,
        can_place_campfire: true,
        can_place_shelter: true,
        origin: (10, 10),
        search_radius: 6,
        stockpile_size: (1, 1),
        campfire_size: (1, 1),
    };
    let layout = ShelterLayout { wall_radius: 2, door_dx: 0, door_dy: 2 };
    let map = PassableMap { width: 32, height: 32, passable: vec![true; 32 * 32] };
    let site = plan_early_site(inputs, layout, &map, &vec![], &vec![3, 8]).expect("a shelter site");
    assert_eq!(site.plan, EarlyStructurePlan::Shelter);
    assert_eq!((site.width, site.height), (5, 5));
    assert_eq!(site.site, (9, 9));
    assert_eq!(site.shelter_centre, Some((11, 11)));
    assert_eq!(site.building_id, 9);
    let mut none = inputs;
    none.snapshot.has_incomplete_site = true;
    assert!(plan_early_site(none, layout, &map, &vec![], &vec![]).is_none());
}

use sim_systems::construction::{alive_adult_count, has_passable_neighbor, AdultRecord};

#[test]
fn passable_neighbours_and_adult_counts() {
    let mut map = PassableMap { width: 3, height: 3, passable: vec![false; 9] };
    assert!(!has_passable_neighbor(&map, 1, 1));
    map.passable[2 * 3 + 1] = true;
    assert!(has_passable_neighbor(&map, 1, 1));
    assert!(!has_passable_neighbor(&map, 0, 0));
    assert!(has_passable_neighbor(&map, 1, 3));
    let records = vec![
        AdultRecord { alive: true, adult: true, settlement: Some(1) },
        AdultRecord { alive: false, adult: true, settlement: Some(1) },
        AdultRecord { alive: true, adult: false, settlement: Some(1) },
        AdultRecord { alive: true, adult: true, settlement: Some(2) },
        AdultRecord { alive: true, adult: true, settlement: Some(1) },
    ];
    assert_eq!(alive_adult_count(&records, 1), 2);
    assert_eq!(alive_adult_count(&records, 3), 0);
}

use sim_systems::construction::early_construction_round;

#[test]
fn construction_round_places_a_campfire_and_promotes_one_builder() {
    let inputs = EarlySiteInputs {
        snapshot: ConstructionSnapshot {
            has_stockpile: true,
            has_campfire: false,
            has_incomplete_site: false,
            complete_shelter_count: 0,
            has_incomplete_shelter: false,
        },
        alive_adults: 3,
        shelter_capacity: 6,
        can_place_stockpile: true,
        can_place_campfire: true,
        can_place_shelter: true,
        origin: (9, 9),
        search_radius: 5,
        stockpile_size: (1, 1),
        campfire_size: (1, 1),
    };
    let layout = ShelterLayout { wall_radius: 2, door_dx: 0, door_dy: 2 };
    let map = PassableMap { width: 18, height: 18, passable: vec![true; 18 * 18] };
    let stockpile = Footprint { x: 9, y: 9, width: 1, height: 1 };
    let workers: Vec<WorkerView> = (0..3)
        .map(|i| WorkerView {
            adult_alive: true,
            settlement: Some(1),
            job: "gatherer".to_string(),
            occupation: String::new(),
            action: WorkAction::Other,
            target: Some((9 + i, 10)),
        })
        .collect();
    let (site, retask) = early_construction_round(1, inputs, layout, &map, &vec![stockpile], &vec![1], &workers, &vec![]);
    let site = site.expect("a campfire site");
    assert_eq!(site.plan, EarlyStructurePlan::Campfire);
    assert_eq!(site.building_id, 2);
    assert_eq!(retask, vec![(1, 0)]);
}

use sim_systems::jobs::{assign_one, rebalance_step};

#[test]
fn assignment_and_rebalance_steps() {
    let mut counts = vec![1, 0, 0, 0];
    assert_eq!(assign_one(&mut counts, GrowthStage::Adult, 1), 1);
    assert_eq!(assign_one(&mut counts, GrowthStage::Elder, 2), 0);
    assert_eq!(counts, vec![2, 1, 0, 0]);
    let jobs = vec![("gatherer".to_string(), CurrentAction::Busy), ("gatherer".to_string(), CurrentAction::Idle)];
    assert_eq!(rebalance_step(0, 6, 0, 3, &jobs), Some((1, 3)));
    assert_eq!(rebalance_step(1, 6, 0, 3, &jobs), None);
    assert_eq!(rebalance_step(0, 4, 0, 3, &jobs), None);
    assert_eq!(rebalance_step(0, 6, 0, 0, &jobs), None);
    assert_eq!(rebalance_step(0, 6, 2, 3, &jobs), None);
}
