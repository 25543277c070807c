use sim_systems::decision::AgentDecisionSystem;
use sim_systems::influence_systems::{
    AgentInfluenceSampleSystem, BuildingStampSystem, InfluenceUpdateSystem, InfluenceVisualizationSystem,
};
use sim_systems::llm::{llm_submission_strategy, LlmSubmissionStrategy};
use sim_systems::memory::MemorySystem;
use sim_systems::needs::{HungerDecaySystem, SleepDecaySystem, SocialDecaySystem, ThirstDecaySystem};
use sim_systems::resource_regen::{ResourceRegenSystem, StaleSeekTargetSystem, REGEN_INTERVAL, STALE_SEEK_PRIORITY};
use sim_systems::settlement::{SettlementRules, SettlementSystem};
use sim_systems::stockpile::{StockpileConsumeSystem, StockpileDepositSystem};

#[test]
fn agent_decision_metadata() {
    let s = AgentDecisionSystem::new();
    assert_eq!(s.name(), "AgentDecisionSystem");
    assert_eq!(s.priority(), 125);
    assert_eq!(s.tick_interval(), 1);
}

#[test]
fn agent_sample_metadata() {
    let s = AgentInfluenceSampleSystem::new();
    assert_eq!(s.name(), "AgentInfluenceSampleSystem");
    assert_eq!(s.priority(), 110);
    assert_eq!(s.tick_interval(), 1);
}

#[test]
fn building_stamp_metadata() {
    let s = BuildingStampSystem::new();
    assert_eq!(s.name(), "BuildingStampSystem");
    assert_eq!(s.priority(), 90);
    assert_eq!(s.tick_interval(), 1);
}

#[test]
fn update_metadata() {
    let s = InfluenceUpdateSystem::new();
    assert_eq!(s.name(), "InfluenceUpdateSystem");
    assert_eq!(s.priority(), 100);
    assert_eq!(s.tick_interval(), 1);
}

#[test]
fn visualization_metadata() {
    let s = InfluenceVisualizationSystem::new();
    assert_eq!(s.name(), "InfluenceVisualizationSystem");
    assert_eq!(s.priority(), 1000);
    assert_eq!(s.tick_interval(), 6);
}

#[test]
fn available_runtime_uses_queue_submission_strategy() {
    assert_eq!(llm_submission_strategy(true), LlmSubmissionStrategy::Queue);
    assert_eq!(llm_submission_strategy(false), LlmSubmissionStrategy::Fallback);
}

#[test]
fn priority_is_136_interval_is_1() {
    let s = MemorySystem::new();
    assert_eq!(s.priority(), 136);
    assert_eq!(s.tick_interval(), 1);
    assert_eq!(s.name(), "MemorySystem");
}

#[test]
fn priority_is_130_interval_is_1() {
    let s = HungerDecaySystem::new();
    assert_eq!(s.priority(), 130);
    assert_eq!(s.tick_interval(), 1);
    assert_eq!(s.name(), "HungerDecaySystem");
}

#[test]
fn priority_is_132_interval_is_1() {
    let s = SleepDecaySystem::new();
    assert_eq!(s.priority(), 132);
    assert_eq!(s.tick_interval(), 1);
    assert_eq!(s.name(), "SleepDecaySystem");
}

#[test]
fn priority_is_135_interval_is_1() {
    let s = SocialDecaySystem::new();
    assert_eq!(s.priority(), 135);
    assert_eq!(s.tick_interval(), 1);
    assert_eq!(s.name(), "SocialDecaySystem");
}

#[test]
fn priority_is_131_interval_is_1() {
    let s = ThirstDecaySystem::new();
    assert_eq!(s.priority(), 131);
    assert_eq!(s.tick_interval(), 1);
    assert_eq!(s.name(), "ThirstDecaySystem");
}

#[test]
fn mod_metadata() {
    let s = ResourceRegenSystem::new();
    assert_eq!(s.name(), "ResourceRegenSystem");
    assert_eq!(s.priority(), 140);
    assert_eq!(s.tick_interval(), REGEN_INTERVAL);
}

#[test]
fn interval_exceeds_one() {
    let interval = REGEN_INTERVAL;
    assert!(interval > 1);
}

#[test]
fn stale_seek_metadata() {
    let s = StaleSeekTargetSystem::new();
    assert_eq!(s.name(), "StaleSeekTargetSystem");
    assert_eq!(s.priority(), STALE_SEEK_PRIORITY);
    assert_eq!(s.tick_interval(), 1);
}

#[test]
fn settlement_system_metadata() {
    let rules = SettlementRules { proximity_radius: 3, formation_agent_threshold: 3, formation_building_threshold: 1, max_pop: 50 };
    let s = SettlementSystem::new(rules);
    assert_eq!(s.name(), "SettlementSystem");
    assert_eq!(s.priority(), 138);
    assert_eq!(s.tick_interval(), 1);
}

#[test]
fn stockpile_consume_metadata() {
    let s = StockpileConsumeSystem::new();
    assert_eq!(s.name(), "StockpileConsumeSystem");
    assert_eq!(s.priority(), 142);
    assert_eq!(s.tick_interval(), 5);
}

#[test]
fn stockpile_deposit_metadata() {
    let s = StockpileDepositSystem::new();
    assert_eq!(s.name(), "StockpileDepositSystem");
    assert_eq!(s.priority(), 141);
    assert_eq!(s.tick_interval(), 10);
}
