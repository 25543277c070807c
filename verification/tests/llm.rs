use sim_systems::effects::PairwiseInteractionSystem;
use sim_systems::llm::{
    cache_field_stale, is_judgment_event, is_qualifying_event, label_for_event_type, lookback_ticks, plan_request,
    stress_state_code, CacheField, LlmCandidate, LlmPromptVariant, LlmRequestRuntimeSystem, LlmRequestType,
    NarrativeCacheView, RecentEventInfo, SimEventType, StressState,
};

fn full_cache(tick: u64) -> NarrativeCacheView {
    NarrativeCacheView {
        has_personality_desc: true,
        has_last_event_narrative: true,
        has_last_inner_monologue: true,
        cache_tick: tick,
        cache_ttl_ticks: 100,
    }
}

fn candidate(pending: bool, has_result: bool, cache: Option<NarrativeCacheView>, event: Option<RecentEventInfo>) -> LlmCandidate {
    LlmCandidate { pending, has_result, cache, last_request_tick: 0, cooldown_ticks: 50, recent_event: event }
}

#[test]
fn auto_request_plan_requires_a_recent_event() {
    assert!(plan_request(None, None, 10, false).is_none());
    let plan = plan_request(None, None, 10, true).expect("prefill plans a personality");
    assert_eq!(plan.variant, LlmPromptVariant::Personality);
}

#[test]
fn judgment_event_plans_a_judgment_with_its_details() {
    let cache = full_cache(0);
    let event = RecentEventInfo {
        event_type: SimEventType::NeedCritical,
        cause: "hunger".to_string(),
        target_name: Some("Ana".to_string()),
    };
    let plan = plan_request(Some(&cache), Some(&event), 10, false).unwrap();
    assert_eq!(plan.request_type, LlmRequestType::Layer3Judgment);
    assert_eq!(plan.variant, LlmPromptVariant::Judgment);
    assert_eq!(plan.recent_event_type.as_deref(), Some("need_critical"));
    assert_eq!(plan.recent_event_cause.as_deref(), Some("hunger"));
    assert_eq!(plan.recent_target_name.as_deref(), Some("Ana"));
}

#[test]
fn empty_cause_is_dropped_and_fresh_cache_plans_nothing() {
    let cache = full_cache(0);
    let event = RecentEventInfo { event_type: SimEventType::Birth, cause: String::new(), target_name: None };
    assert!(plan_request(Some(&cache), Some(&event), 10, false).is_none());
    let stale = plan_request(Some(&cache), Some(&event), 100, false).unwrap();
    assert_eq!(stale.variant, LlmPromptVariant::Personality);
    let mut partial = full_cache(0);
    partial.has_last_event_narrative = false;
    let narrative = plan_request(Some(&partial), Some(&event), 10, false).unwrap();
    assert_eq!(narrative.variant, LlmPromptVariant::Narrative);
    assert_eq!(narrative.recent_event_type.as_deref(), Some("birth"));
    assert!(narrative.recent_event_cause.is_none());
}

#[test]
fn request_system_generates_immediate_fallback_when_llm_is_unavailable() {
    let sys = LlmRequestRuntimeSystem::new(20, 1);
    let candidates = vec![candidate(false, false, None, None), candidate(false, false, None, None)];
    let chosen = sys.select_requests(&candidates, 5, false);
    let indices: Vec<usize> = chosen.iter().map(|(i, _)| *i).collect();
    assert_eq!(indices, vec![0, 1]);
}

#[test]
fn request_system_allows_initial_request_before_cooldown_has_elapsed() {
    let sys = LlmRequestRuntimeSystem::new(20, 1);
    let event = RecentEventInfo { event_type: SimEventType::ActionChanged, cause: "work".to_string(), target_name: None };
    let candidates = vec![candidate(false, false, None, Some(event))];
    let chosen = sys.select_requests(&candidates, 5, true);
    assert_eq!(chosen.len(), 1);
}

#[test]
fn queue_strategy_takes_only_the_first_and_skips_pending_and_cooling() {
    let sys = LlmRequestRuntimeSystem::new(20, 1);
    let ev = |t: SimEventType| Some(RecentEventInfo { event_type: t, cause: String::new(), target_name: None });
    let candidates = vec![
        candidate(true, false, None, ev(SimEventType::Death)),
        candidate(false, true, None, ev(SimEventType::Death)),
        candidate(false, false, None, ev(SimEventType::Death)),
        candidate(false, false, None, ev(SimEventType::Birth)),
    ];
    let chosen = sys.select_requests(&candidates, 10, true);
    assert_eq!(chosen.len(), 1);
    assert_eq!(chosen[0].0, 2);
}

#[test]
fn event_classification() {
    assert!(is_qualifying_event(&SimEventType::Death));
    assert!(!is_qualifying_event(&SimEventType::MoodChanged));
    assert!(!is_qualifying_event(&SimEventType::Custom("x".to_string())));
    assert!(is_judgment_event(&SimEventType::MentalBreakStart));
    assert!(!is_judgment_event(&SimEventType::MentalBreakEnd));
    assert_eq!(label_for_event_type(&SimEventType::Custom("x".to_string())), "custom");
    assert_eq!(label_for_event_type(&SimEventType::SocialCooperation), "social_cooperation");
    assert_eq!(stress_state_code(StressState::Calm), 0);
    assert_eq!(stress_state_code(StressState::Collapse), 4);
}

#[test]
fn cache_staleness_and_lookback() {
    let c = full_cache(10);
    assert!(!cache_field_stale(Some(&c), 109, CacheField::PersonalityDesc));
    assert!(cache_field_stale(Some(&c), 110, CacheField::PersonalityDesc));
    assert!(cache_field_stale(None, 0, CacheField::LastInnerMonologue));
    assert_eq!(lookback_ticks(10), 60);
    assert_eq!(lookback_ticks(90), 90);
}

#[test]
fn cadenced_systems_clamp_zero_interval() {
    let s = LlmRequestRuntimeSystem::new(7, 0);
    assert_eq!(s.tick_interval(), 1);
    assert_eq!(s.priority(), 7);
    assert_eq!(s.name(), "llm_request_system");
    let p = PairwiseInteractionSystem::new(3, 4);
    assert_eq!(p.tick_interval(), 4);
    assert_eq!(p.name(), "pairwise_interaction_system");
}

use sim_systems::llm::{cache_after_narrative, narrative_slot, request_expired, LlmTimeoutRuntimeSystem};

#[test]
fn timeout_system_replaces_pending_with_fallback_result() {
    // A request submitted at tick 0 with a 100-tick timeout expires after
    // tick 100; the fallback narrative then fills the inner monologue.
    assert!(!request_expired(100, 0, 100));
    assert!(request_expired(101, 0, 100));
    let sys = LlmTimeoutRuntimeSystem::new(30, 1);
    assert_eq!(sys.expired_requests(&vec![(0, 100), (50, 100), (0, 10)], 101), vec![0, 2]);
    let slot = narrative_slot(LlmPromptVariant::Narrative, false);
    assert_eq!(slot, Some(CacheField::LastInnerMonologue));
    let cache = cache_after_narrative(Some(NarrativeCacheView {
        has_personality_desc: false,
        has_last_event_narrative: false,
        has_last_inner_monologue: false,
        cache_tick: 0,
        cache_ttl_ticks: 50,
    }), true, slot, 900, 200).unwrap();
    assert!(cache.has_last_inner_monologue);
    assert!(!cache.has_last_event_narrative);
    assert_eq!(cache.cache_tick, 900);
    assert_eq!(cache.cache_ttl_ticks, 50);
}

#[test]
fn response_fills_the_slot_its_request_named() {
    assert_eq!(narrative_slot(LlmPromptVariant::Personality, true), Some(CacheField::PersonalityDesc));
    assert_eq!(narrative_slot(LlmPromptVariant::Narrative, true), Some(CacheField::LastEventNarrative));
    assert_eq!(narrative_slot(LlmPromptVariant::Judgment, true), None);
    let fresh = cache_after_narrative(None, true, Some(CacheField::PersonalityDesc), 10, 200).unwrap();
    assert!(fresh.has_personality_desc);
    assert_eq!(fresh.cache_ttl_ticks, 200);
    assert!(!cache_field_stale(Some(&fresh), 209, CacheField::PersonalityDesc));
    assert_eq!(cache_after_narrative(None, false, None, 10, 200), None);
}

#[test]
fn response_system_applies_result_and_updates_personality_cache() {
    let slot = narrative_slot(LlmPromptVariant::Personality, false);
    assert_eq!(slot, Some(CacheField::PersonalityDesc));
    let before = NarrativeCacheView {
        has_personality_desc: false,
        has_last_event_narrative: false,
        has_last_inner_monologue: false,
        cache_tick: 0,
        cache_ttl_ticks: 300,
    };
    let after = cache_after_narrative(Some(before), true, slot, 500, 300).unwrap();
    assert!(after.has_personality_desc);
    assert!(!after.has_last_inner_monologue);
    assert_eq!(after.cache_tick, 500);
}

use sim_systems::llm::{after_response, after_submission, PendingRequest, RequestPlan, SubmitOutcome};

fn personality_plan() -> RequestPlan {
    RequestPlan {
        request_type: LlmRequestType::Layer4Narrative,
        variant: LlmPromptVariant::Personality,
        recent_event_type: None,
        recent_event_cause: None,
        recent_target_name: None,
    }
}

#[test]
fn request_system_generates_immediate_fallback_when_llm_is_unavailable_update() {
    let c = candidate(false, false, None, None);
    let u = after_submission(&c, &personality_plan(), false, SubmitOutcome::Failed, true, 600, 120, 300);
    assert!(u.stored_result && u.has_result);
    assert!(u.pending.is_none());
    assert_eq!(u.last_request_tick, 600);
    let cache = u.cache.unwrap();
    assert!(cache.has_personality_desc);
    assert_eq!(cache.cache_tick, 600);
}

#[test]
fn submission_outcomes_decide_the_next_state() {
    let c = candidate(false, false, None, None);
    let plan = personality_plan();
    let queued = after_submission(&c, &plan, true, SubmitOutcome::Queued { request_id: 44 }, true, 50, 120, 300);
    assert_eq!(
        queued.pending,
        Some(PendingRequest { request_id: 44, request_type: LlmRequestType::Layer4Narrative, submitted_tick: 50, timeout_ticks: 120 })
    );
    assert!(!queued.stored_result);
    assert_eq!(queued.last_request_tick, 50);
    let full = after_submission(&c, &plan, true, SubmitOutcome::QueueFull, true, 50, 120, 300);
    assert!(full.pending.is_none() && !full.stored_result);
    assert_eq!(full.last_request_tick, 0);
    let gone = after_submission(&c, &plan, true, SubmitOutcome::Unavailable, false, 50, 120, 300);
    assert!(gone.stored_result);
    assert_eq!(gone.cache, None);
    assert_eq!(gone.last_request_tick, 50);
    let answered = after_response(&c, LlmPromptVariant::Narrative, true, true, 70, 300);
    assert!(answered.pending.is_none() && answered.has_result);
    assert!(answered.cache.unwrap().has_last_event_narrative);
    assert_eq!(answered.last_request_tick, 0);
}
