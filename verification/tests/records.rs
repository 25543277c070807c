use sim_systems::needs::{child_stage_code, need_event_key, upper_needs_job_code, GrowthStage, NeedType, NeedsRuntimeSystem};
use sim_systems::psychology::{
    coping_strategy_cooldown_ticks, coping_strategy_from_index, mental_break_duration_ticks, mental_break_type_from_code,
    CopingStrategyId, MentalBreakType, PersonalityMaturationRuntimeSystem, TraitDirection,
};
use sim_systems::record::{
    band_lifecycle_dossier_stub_tags, band_lifecycle_event_family, chronicle_dossier_stub_tags, chronicle_event_family,
    chronicle_events_can_cluster, chronicle_template_keys, should_summarize_chronicle, ChronicleEventCause,
    ChronicleEventKey, ChronicleEventType, ChronicleRuntimeSystem,
};

#[test]
fn band_lifecycle_tags_and_family() {
    assert_eq!(band_lifecycle_dossier_stub_tags("CHRONICLE_BAND_SPLIT"), vec!["band", "social", "split"]);
    assert_eq!(band_lifecycle_dossier_stub_tags("CHRONICLE_LONER_JOINED"), vec!["band", "social", "recruitment"]);
    assert_eq!(band_lifecycle_dossier_stub_tags("OTHER"), vec!["band", "social", "lifecycle"]);
    assert_eq!(band_lifecycle_event_family("CHRONICLE_LONER_JOINED"), "band.lifecycle.joined");
    assert_eq!(band_lifecycle_event_family("OTHER"), "band.lifecycle.unknown");
}

#[test]
fn chronicle_templates_tags_and_families() {
    let keys = chronicle_template_keys(ChronicleEventType::InfluenceAvoidance, ChronicleEventCause::Danger, false);
    assert_eq!(keys, ("CHRONICLE_TITLE_ESCAPE_DANGER", "CHRONICLE_SUMMARY_ESCAPE_DANGER", "CHRONICLE_DOSSIER_STUB_ESCAPE_DANGER"));
    let group = chronicle_template_keys(ChronicleEventType::InfluenceAvoidance, ChronicleEventCause::Social, true);
    assert_eq!(group.0, "CHRONICLE_TITLE_SOCIAL_GATHERING");
    assert_eq!(
        chronicle_dossier_stub_tags(ChronicleEventType::ShelterSeeking, ChronicleEventCause::Warmth, false),
        vec!["warmth", "shelter", "survival"]
    );
    assert_eq!(
        chronicle_dossier_stub_tags(ChronicleEventType::BandLifecycle, ChronicleEventCause::Food, false),
        vec!["food", "attraction", "survival"]
    );
    assert_eq!(
        chronicle_event_family(ChronicleEventType::InfluenceAttraction, ChronicleEventCause::Warmth, false).as_deref(),
        Some("influence.shelter_seeking")
    );
    assert_eq!(chronicle_event_family(ChronicleEventType::BandLifecycle, ChronicleEventCause::Danger, false), None);
}

#[test]
fn clustering_and_summary_cadence() {
    let a = ChronicleEventKey { tick: 10, event_type: ChronicleEventType::ShelterSeeking, cause: ChronicleEventCause::Warmth };
    let b = ChronicleEventKey { tick: 15, ..a };
    assert!(chronicle_events_can_cluster(Some(a), b, 5));
    assert!(!chronicle_events_can_cluster(Some(a), b, 4));
    assert!(!chronicle_events_can_cluster(None, b, 5));
    let band = ChronicleEventKey { event_type: ChronicleEventType::BandLifecycle, ..b };
    assert!(!chronicle_events_can_cluster(Some(ChronicleEventKey { event_type: ChronicleEventType::BandLifecycle, ..a }), band, 100));
    assert!(should_summarize_chronicle(120, 0, 120));
    assert!(!should_summarize_chronicle(119, 0, 120));
    assert!(!should_summarize_chronicle(5, 10, 1));
    let mut sys = ChronicleRuntimeSystem::new(90, 0);
    assert!(sys.note_summary(200, 120));
    assert!(!sys.note_summary(250, 120));
    assert!(sys.note_summary(320, 120));
}

#[test]
fn need_keys_and_codes() {
    assert_eq!(need_event_key(NeedType::SelfActualization), "self_actualization");
    assert_eq!(need_event_key(NeedType::Comfort), "comfort");
    assert_eq!(child_stage_code(GrowthStage::Teen), Some(3));
    assert_eq!(child_stage_code(GrowthStage::Adult), None);
    assert_eq!(upper_needs_job_code("miner"), 1);
    assert_eq!(upper_needs_job_code("lumberjack"), 2);
    assert_eq!(upper_needs_job_code("none"), 0);
    assert_eq!(NeedsRuntimeSystem::new(3, 0).tick_interval(), 1);
}

#[test]
fn psychology_tables() {
    assert_eq!(mental_break_type_from_code(2), MentalBreakType::Panic);
    assert_eq!(mental_break_type_from_code(4), MentalBreakType::Shutdown);
    assert_eq!(mental_break_duration_ticks(MentalBreakType::Rage), 20);
    assert_eq!(mental_break_duration_ticks(MentalBreakType::Shutdown), 30);
    assert_eq!(coping_strategy_from_index(0), Some(CopingStrategyId::StrategicPlanning));
    assert_eq!(coping_strategy_from_index(14), Some(CopingStrategyId::ProblemSolving));
    assert_eq!(coping_strategy_from_index(15), None);
    assert_eq!(coping_strategy_from_index(-1), None);
    assert_eq!(coping_strategy_cooldown_ticks(CopingStrategyId::SubstanceUse), 120);
    assert_eq!(coping_strategy_cooldown_ticks(CopingStrategyId::Humor), 36);
    assert!(TraitDirection::High.passes(true, false));
    assert!(!TraitDirection::Low.passes(true, false));
    let m = PersonalityMaturationRuntimeSystem::new(60, 12);
    assert_eq!(m.tick_interval(), 12);
    assert_eq!(m.name(), "personality_maturation_system");
}

use sim_systems::record::{
    flags_held, population_census, push_bounded, threshold_flags, STATS_RECORDER_MAX_HISTORY,
    STAT_THRESHOLD_FLAG_HUNGER_LOW, STAT_THRESHOLD_FLAG_STRESS_HIGH,
};

#[test]
fn census_counts_living_agents_by_job() {
    let agents = vec![
        (true, Some("gatherer".to_string())),
        (true, Some("miner".to_string())),
        (false, Some("miner".to_string())),
        (true, None),
        (true, Some("bard".to_string())),
        (true, Some("gatherer".to_string())),
    ];
    let c = population_census(&agents);
    assert_eq!(c.pop, 5);
    assert_eq!(c.gatherers, 2);
    assert_eq!(c.miners, 1);
    assert_eq!(c.builders, 0);
    assert_eq!(c.none_job, 2);
}

#[test]
fn history_keeps_the_newest_entries() {
    let mut h: Vec<u32> = (0..200).collect();
    push_bounded(&mut h, 200, STATS_RECORDER_MAX_HISTORY);
    assert_eq!(h.len(), 200);
    assert_eq!(h[0], 1);
    assert_eq!(h[199], 200);
    let mut short = vec![1, 2];
    push_bounded(&mut short, 3, 5);
    assert_eq!(short, vec![1, 2, 3]);
    let mut none: Vec<u32> = vec![7];
    push_bounded(&mut none, 8, 0);
    assert!(none.is_empty());
}

#[test]
fn threshold_flag_bits() {
    assert_eq!(threshold_flags(true, false), STAT_THRESHOLD_FLAG_HUNGER_LOW);
    assert_eq!(threshold_flags(true, true), STAT_THRESHOLD_FLAG_HUNGER_LOW | STAT_THRESHOLD_FLAG_STRESS_HIGH);
    assert_eq!(threshold_flags(false, false), 0);
    assert_eq!(flags_held(3), (true, true));
    assert_eq!(flags_held(2), (false, true));
}

use sim_systems::record::{bucket_index, social_gathering_clusters, ChronicleEventRecord};

fn social(tick: u64, entity: u64, x: i32, y: i32) -> ChronicleEventRecord {
    ChronicleEventRecord {
        key: ChronicleEventKey { tick, event_type: ChronicleEventType::GatheringFormation, cause: ChronicleEventCause::Social },
        entity,
        tile_x: x,
        tile_y: y,
    }
}

#[test]
fn social_group_cluster_requires_multiple_entities() {
    let mut lone = social(20, 1, 1, 1);
    lone.key.cause = ChronicleEventCause::Food;
    let events = vec![
        social(12, 2, 1, 2),
        social(10, 1, 0, 0),
        lone,
        social(14, 3, 2, 1),
        social(30, 1, 40, 40),
    ];
    // Bucket side 8: the first, second and fourth events share bucket (0, 0).
    let (order, kept) = social_gathering_clusters(&events, 8, 5, 2);
    assert_eq!(order, vec![1, 0, 3, 4]);
    // The run 1, 0, 3 has three entities; the far, later event forms a run
    // alone.
    assert_eq!(kept, vec![(0, 3)]);
    let (_, none) = social_gathering_clusters(&events, 8, 5, 4);
    assert!(none.is_empty());
}

#[test]
fn buckets_floor_negative_coordinates() {
    assert_eq!(bucket_index(7, 8), 0);
    assert_eq!(bucket_index(8, 8), 1);
    assert_eq!(bucket_index(-1, 8), -1);
    assert_eq!(bucket_index(-8, 8), -1);
    assert_eq!(bucket_index(-9, 8), -2);
    assert_eq!(bucket_index(i32::MIN, 1), i32::MIN as i64);
}

use sim_systems::record::chronicle_clusters;

fn event(tick: u64, entity: u64, x: i32, y: i32, t: ChronicleEventType, c: ChronicleEventCause) -> ChronicleEventRecord {
    ChronicleEventRecord { key: ChronicleEventKey { tick, event_type: t, cause: c }, entity, tile_x: x, tile_y: y }
}

#[test]
fn danger_cluster_generates_escape_summary() {
    // Two danger escapes by one entity close in time form one run; a third
    // long after starts another. Social events of a gathering are left out.
    let avoid = ChronicleEventType::InfluenceAvoidance;
    let danger = ChronicleEventCause::Danger;
    let events = vec![
        event(10, 5, 3, 3, avoid, danger),
        social(11, 1, 0, 0),
        event(12, 5, 3, 4, avoid, danger),
        social(12, 2, 1, 1),
        event(90, 5, 3, 5, avoid, danger),
        event(11, 4, 9, 9, ChronicleEventType::ShelterSeeking, ChronicleEventCause::Warmth),
    ];
    let c = chronicle_clusters(&events, 8, 5, 2);
    assert_eq!(c.social_order, vec![1, 3]);
    assert_eq!(c.gatherings, vec![(0, 2)]);
    assert_eq!(c.entity_order, vec![5, 0, 2, 4]);
    assert_eq!(c.entity_runs, vec![(0, 1), (1, 3), (3, 4)]);
    let keys = chronicle_template_keys(avoid, danger, false);
    assert_eq!(keys.1, "CHRONICLE_SUMMARY_ESCAPE_DANGER");
}

use sim_systems::psychology::{MentalBreakRuntimeSystem, TraitRuntimeSystem, TraitViolationRuntimeSystem};
use sim_systems::record::{cluster_entry_frame, gathering_entry_frame, PopulationSnapshot, StatsRecorderRuntimeSystem};

#[test]
fn danger_cluster_entry_frame() {
    let avoid = ChronicleEventType::InfluenceAvoidance;
    let danger = ChronicleEventCause::Danger;
    let events = vec![event(10, 9, 5, 7, avoid, danger), event(20, 9, 6, 7, avoid, danger)];
    let f = cluster_entry_frame(&events, &vec![0, 1], (0, 2), 0);
    assert_eq!(f.capsule_key, "CHRONICLE_SUMMARY_ESCAPE_DANGER");
    assert_eq!(f.dossier_key, "CHRONICLE_DOSSIER_STUB_ESCAPE_DANGER");
    assert_eq!(f.entity, Some(9));
    assert_eq!(f.count, 2);
    assert_eq!(f.tile, (6, 7));
    assert_eq!((f.start_tick, f.end_tick), (10, 20));
    assert_eq!(f.family.as_deref(), Some("influence.danger_avoidance"));
}

#[test]
fn gathering_entry_frame_counts_entities() {
    let events = vec![social(200, 1, 10, 10), social(205, 2, 11, 10), social(210, 3, 10, 11)];
    let (order, kept) = social_gathering_clusters(&events, 8, 10, 2);
    assert_eq!(kept, vec![(0, 3)]);
    let f = gathering_entry_frame(&events, &order, kept[0], 0);
    assert_eq!(f.entity, None);
    assert_eq!(f.count, 3);
    assert_eq!(f.capsule_key, "CHRONICLE_SUMMARY_SOCIAL_GATHERING");
    assert_eq!(f.dossier_key, "CHRONICLE_DOSSIER_STUB_SOCIAL_GATHERING");
    assert_eq!(f.event_type, ChronicleEventType::GatheringFormation);
}

#[test]
fn stats_recorder_records_and_raises_the_peak() {
    let sys = StatsRecorderRuntimeSystem::new(90, 1);
    let agents = vec![(true, Some("miner".to_string())), (true, None), (false, Some("miner".to_string()))];
    let mut history: Vec<PopulationSnapshot> = Vec::new();
    let mut peak = 1usize;
    let snap = sys.record(&agents, 40, &mut history, &mut peak);
    assert_eq!(snap.tick, 40);
    assert_eq!(snap.census.pop, 2);
    assert_eq!(snap.census.miners + snap.census.none_job, 2);
    assert_eq!(peak, 2);
    assert_eq!(history.len(), 1);
    for t in 0..250 {
        sys.record(&agents, t, &mut history, &mut peak);
    }
    assert_eq!(history.len(), 200);
    assert_eq!(history[199].tick, 249);
}

#[test]
fn mental_breaks_count_down_and_start() {
    let sys = MentalBreakRuntimeSystem::new(1, 5);
    let c = sys.count_down(12);
    assert_eq!((c.remaining, c.ended), (7, false));
    let end = sys.count_down(5);
    assert_eq!((end.remaining, end.ended), (0, true));
    assert_eq!(sys.start_break(2, 3), (MentalBreakType::Panic, 4, 16));
    assert_eq!(sys.start_break(9, u32::MAX), (MentalBreakType::Shutdown, u32::MAX, 30));
    assert_eq!(TraitViolationRuntimeSystem::new(3, 0).name(), "trait_violation_system");
    assert_eq!(TraitRuntimeSystem::new(4, 7).tick_interval(), 7);
}

use sim_systems::psychology::{resolve_active_traits, TraitOutcome};

fn outcome(id: &str, met: bool, incompatibles: &[&str]) -> TraitOutcome {
    TraitOutcome { id: id.to_string(), met, incompatibles: incompatibles.iter().map(|s| s.to_string()).collect() }
}

#[test]
fn first_activated_trait_blocks_its_incompatibles() {
    let defs = vec![
        outcome("brave", true, &["coward"]),
        outcome("coward", true, &["brave"]),
        outcome("kind", true, &[]),
        outcome("greedy", false, &[]),
    ];
    let current = vec!["scarred".to_string(), "greedy".to_string(), "kind".to_string(), "blessed".to_string()];
    let active = resolve_active_traits(&defs, &current);
    assert_eq!(active, vec!["brave", "kind", "scarred", "blessed"]);
}

#[test]
fn without_definitions_traits_stay_as_they_are() {
    let current = vec!["scarred".to_string(), "blessed".to_string()];
    assert_eq!(resolve_active_traits(&vec![], &current), current);
}

use sim_systems::psychology::ViolationTally;

#[test]
fn violation_tally_counts_dates_and_decays() {
    let t = ViolationTally { repeats: 3, last_violation_tick: 900 };
    assert!(TraitViolationRuntimeSystem::is_habit(t, 1000));
    assert!(!TraitViolationRuntimeSystem::is_habit(t, 1080));
    assert!(!TraitViolationRuntimeSystem::is_habit(ViolationTally { repeats: 2, last_violation_tick: 900 }, 950));
    let (counted, decayed) = TraitViolationRuntimeSystem::advance_tally(t, true, 1000);
    assert_eq!(counted, ViolationTally { repeats: 4, last_violation_tick: 1000 });
    assert!(!decayed);
    let (faded, decayed) = TraitViolationRuntimeSystem::advance_tally(t, false, 900 + 4381);
    assert_eq!(faded, ViolationTally { repeats: 2, last_violation_tick: 900 });
    assert!(decayed);
    let (kept, decayed) = TraitViolationRuntimeSystem::advance_tally(t, false, 900 + 4380);
    assert_eq!(kept, t);
    assert!(!decayed);
    let (floor, _) = TraitViolationRuntimeSystem::advance_tally(ViolationTally { repeats: 0, last_violation_tick: 0 }, false, 10_000);
    assert_eq!(floor.repeats, 0);
}
