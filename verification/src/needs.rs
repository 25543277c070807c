use vstd::prelude::*;

use crate::cadence::{at_least_one, clamp_interval, Cadence};
use crate::text::str_eq;

verus! {

/// Decays and restores the physiological needs of agents.
#[derive(Debug, Clone, Copy)]
pub struct NeedsRuntimeSystem {
    priority: u32,
    tick_interval: u64,
}

impl View for NeedsRuntimeSystem {
    type V = Cadence;

    closed spec fn view(&self) -> Cadence {
        Cadence { priority: self.priority, tick_interval: self.tick_interval }
    }
}

impl NeedsRuntimeSystem {
    /// A system scheduled at `priority`, every `tick_interval` ticks (at least one).
    pub fn new(priority: u32, tick_interval: u64) -> (s: NeedsRuntimeSystem)
        ensures
            s@ == (Cadence { priority, tick_interval: at_least_one(tick_interval) }),
    {
        NeedsRuntimeSystem { priority, tick_interval: clamp_interval(tick_interval) }
    }

    /// Name under which the system is scheduled.
    pub fn name(&self) -> (n: &'static str)
        ensures
            n@ == "needs_system"@,
    {
        "needs_system"
    }

    /// Ticks between runs.
    pub fn tick_interval(&self) -> (t: u64)
        ensures
            t == self@.tick_interval,
    {
        self.tick_interval
    }

    /// Scheduling priority.
    pub fn priority(&self) -> (p: u32)
        ensures
            p == self@.priority,
    {
        self.priority
    }
}

/// Processes stress for agents below adulthood.
#[derive(Debug, Clone, Copy)]
pub struct ChildStressProcessorRuntimeSystem {
    priority: u32,
    tick_interval: u64,
}

impl View for ChildStressProcessorRuntimeSystem {
    type V = Cadence;

    closed spec fn view(&self) -> Cadence {
        Cadence { priority: self.priority, tick_interval: self.tick_interval }
    }
}

impl ChildStressProcessorRuntimeSystem {
    /// A system scheduled at `priority`, every `tick_interval` ticks (at least one).
    pub fn new(priority: u32, tick_interval: u64) -> (s: ChildStressProcessorRuntimeSystem)
        ensures
            s@ == (Cadence { priority, tick_interval: at_least_one(tick_interval) }),
    {
        ChildStressProcessorRuntimeSystem { priority, tick_interval: clamp_interval(tick_interval) }
    }

    /// Name under which the system is scheduled.
    pub fn name(&self) -> (n: &'static str)
        ensures
            n@ == "child_stress_processor"@,
    {
        "child_stress_processor"
    }

    /// Ticks between runs.
    pub fn tick_interval(&self) -> (t: u64)
        ensures
            t == self@.tick_interval,
    {
        self.tick_interval
    }

    /// Scheduling priority.
    pub fn priority(&self) -> (p: u32)
        ensures
            p == self@.priority,
    {
        self.priority
    }
}

/// Updates the higher needs (belonging, recognition, meaning and the like).
#[derive(Debug, Clone, Copy)]
pub struct UpperNeedsRuntimeSystem {
    priority: u32,
    tick_interval: u64,
}

impl View for UpperNeedsRuntimeSystem {
    type V = Cadence;

    closed spec fn view(&self) -> Cadence {
        Cadence { priority: self.priority, tick_interval: self.tick_interval }
    }
}

impl UpperNeedsRuntimeSystem {
    /// A system scheduled at `priority`, every `tick_interval` ticks (at least one).
    pub fn new(priority: u32, tick_interval: u64) -> (s: UpperNeedsRuntimeSystem)
        ensures
            s@ == (Cadence { priority, tick_interval: at_least_one(tick_interval) }),
    {
        UpperNeedsRuntimeSystem { priority, tick_interval: clamp_interval(tick_interval) }
    }

    /// Name under which the system is scheduled.
    pub fn name(&self) -> (n: &'static str)
        ensures
            n@ == "upper_needs_system"@,
    {
        "upper_needs_system"
    }

    /// Ticks between runs.
    pub fn tick_interval(&self) -> (t: u64)
        ensures
            t == self@.tick_interval,
    {
        self.tick_interval
    }

    /// Scheduling priority.
    pub fn priority(&self) -> (p: u32)
        ensures
            p == self@.priority,
    {
        self.priority
    }
}

/// Advances every agent's hunger by one tick.
#[derive(Debug, Clone, Copy)]
pub struct HungerDecaySystem;

impl HungerDecaySystem {
    /// A new instance; it holds no state.
    pub fn new() -> (s: HungerDecaySystem) {
        HungerDecaySystem
    }

    /// Name under which the system is scheduled.
    pub fn name(&self) -> (n: &'static str)
        ensures
            n@ == "HungerDecaySystem"@,
    {
        "HungerDecaySystem"
    }

    /// Scheduling priority.
    pub fn priority(&self) -> (p: u32)
        ensures
            p == 130,
    {
        130
    }

    /// Ticks between runs.
    pub fn tick_interval(&self) -> (t: u64)
        ensures
            t == 1,
    {
        1
    }
}

/// Advances every agent's thirst by one tick.
#[derive(Debug, Clone, Copy)]
pub struct ThirstDecaySystem;

impl ThirstDecaySystem {
    /// A new instance; it holds no state.
    pub fn new() -> (s: ThirstDecaySystem) {
        ThirstDecaySystem
    }

    /// Name under which the system is scheduled.
    pub fn name(&self) -> (n: &'static str)
        ensures
            n@ == "ThirstDecaySystem"@,
    {
        "ThirstDecaySystem"
    }

    /// Scheduling priority.
    pub fn priority(&self) -> (p: u32)
        ensures
            p == 131,
    {
        131
    }

    /// Ticks between runs.
    pub fn tick_interval(&self) -> (t: u64)
        ensures
            t == 1,
    {
        1
    }
}

/// Advances every agent's sleep pressure by one tick.
#[derive(Debug, Clone, Copy)]
pub struct SleepDecaySystem;

impl SleepDecaySystem {
    /// A new instance; it holds no state.
    pub fn new() -> (s: SleepDecaySystem) {
        SleepDecaySystem
    }

    /// Name under which the system is scheduled.
    pub fn name(&self) -> (n: &'static str)
        ensures
            n@ == "SleepDecaySystem"@,
    {
        "SleepDecaySystem"
    }

    /// Scheduling priority.
    pub fn priority(&self) -> (p: u32)
        ensures
            p == 132,
    {
        132
    }

    /// Ticks between runs.
    pub fn tick_interval(&self) -> (t: u64)
        ensures
            t == 1,
    {
        1
    }
}

/// Advances every agent's social need by one tick.
#[derive(Debug, Clone, Copy)]
pub struct SocialDecaySystem;

impl SocialDecaySystem {
    /// A new instance; it holds no state.
    pub fn new() -> (s: SocialDecaySystem) {
        SocialDecaySystem
    }

    /// Name under which the system is scheduled.
    pub fn name(&self) -> (n: &'static str)
        ensures
            n@ == "SocialDecaySystem"@,
    {
        "SocialDecaySystem"
    }

    /// Scheduling priority.
    pub fn priority(&self) -> (p: u32)
        ensures
            p == 135,
    {
        135
    }

    /// Ticks between runs.
    pub fn tick_interval(&self) -> (t: u64)
        ensures
            t == 1,
    {
        1
    }
}

/// The needs an agent has.
#[derive(Debug, Clone, Copy, PartialEq, Eq, Structural)]
pub enum NeedType {
    Hunger,
    Thirst,
    Sleep,
    Warmth,
    Safety,
    Belonging,
    Intimacy,
    Recognition,
    Autonomy,
    Competence,
    SelfActualization,
    Meaning,
    Transcendence,
    Comfort,
}

/// The key under which transitions of a need are reported.
pub open spec fn need_event_key_spec(need_type: NeedType) -> Seq<char> {
    match need_type {
        NeedType::Hunger => "hunger"@,
        NeedType::Thirst => "thirst"@,
        NeedType::Sleep => "sleep"@,
        NeedType::Warmth => "warmth"@,
        NeedType::Safety => "safety"@,
        NeedType::Belonging => "belonging"@,
        NeedType::Intimacy => "intimacy"@,
        NeedType::Recognition => "recognition"@,
        NeedType::Autonomy => "autonomy"@,
        NeedType::Competence => "competence"@,
        NeedType::SelfActualization => "self_actualization"@,
        NeedType::Meaning => "meaning"@,
        NeedType::Transcendence => "transcendence"@,
        NeedType::Comfort => "comfort"@,
    }
}

/// The key under which transitions of a need are reported: the need's name
/// in snake case.
pub fn need_event_key(need_type: NeedType) -> (k: &'static str)
    ensures
        k@ == need_event_key_spec(need_type),
{
    match need_type {
        NeedType::Hunger => "hunger",
        NeedType::Thirst => "thirst",
        NeedType::Sleep => "sleep",
        NeedType::Warmth => "warmth",
        NeedType::Safety => "safety",
        NeedType::Belonging => "belonging",
        NeedType::Intimacy => "intimacy",
        NeedType::Recognition => "recognition",
        NeedType::Autonomy => "autonomy",
        NeedType::Competence => "competence",
        NeedType::SelfActualization => "self_actualization",
        NeedType::Meaning => "meaning",
        NeedType::Transcendence => "transcendence",
        NeedType::Comfort => "comfort",
    }
}

/// Life stages.
#[derive(Debug, Clone, Copy, PartialEq, Eq, Structural)]
pub enum GrowthStage {
    Infant,
    Toddler,
    Child,
    Teen,
    Adult,
    Elder,
}

/// The code of a stage below adulthood: infant 0, toddler 1, child 2,
/// teen 3; none for adults and elders.
pub fn child_stage_code(stage: GrowthStage) -> (c: Option<i32>)
    ensures
        c == match stage {
            GrowthStage::Infant => Some(0i32),
            GrowthStage::Toddler => Some(1i32),
            GrowthStage::Child => Some(2i32),
            GrowthStage::Teen => Some(3i32),
            _ => None,
        },
{
    match stage {
        GrowthStage::Infant => Some(0),
        GrowthStage::Toddler => Some(1),
        GrowthStage::Child => Some(2),
        GrowthStage::Teen => Some(3),
        _ => None,
    }
}

/// The job group used by the higher needs: 1 for builders and miners, 2
/// for gatherers and lumberjacks, 0 for any other job.
pub open spec fn upper_needs_job_code_spec(job: Seq<char>) -> i32 {
    if job == "builder"@ || job == "miner"@ {
        1
    } else if job == "gatherer"@ || job == "lumberjack"@ {
        2
    } else {
        0
    }
}

/// The job group used by the higher needs.
pub fn upper_needs_job_code(job: &str) -> (c: i32)
    ensures
        c == upper_needs_job_code_spec(job@),
{
    if str_eq(job, "builder") || str_eq(job, "miner") {
        1
    } else if str_eq(job, "gatherer") || str_eq(job, "lumberjack") {
        2
    } else {
        0
    }
}

} // verus!
