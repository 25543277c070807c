use vstd::prelude::*;

use crate::cadence::{at_least_one, clamp_interval, Cadence};

verus! {

/// Drains the shared effect queue and applies the queued effects.
#[derive(Debug, Clone, Copy)]
pub struct EffectApplySystem {
    priority: u32,
    tick_interval: u64,
}

impl View for EffectApplySystem {
    type V = Cadence;

    closed spec fn view(&self) -> Cadence {
        Cadence { priority: self.priority, tick_interval: self.tick_interval }
    }
}

impl EffectApplySystem {
    /// A system scheduled at `priority`, every `tick_interval` ticks.
    pub fn new(priority: u32, tick_interval: u64) -> (s: EffectApplySystem)
        ensures
            s@ == (Cadence { priority, tick_interval: tick_interval }),
    {
        EffectApplySystem { priority, tick_interval: tick_interval }
    }

    /// Name under which the system is scheduled.
    pub fn name(&self) -> (n: &'static str)
        ensures
            n@ == "effect_apply_system"@,
    {
        "effect_apply_system"
    }

    /// Ticks between runs.
    pub fn tick_interval(&self) -> (t: u64)
        ensures
            t == self@.tick_interval,
    {
        self.tick_interval
    }

    /// Scheduling priority.
    pub fn priority(&self) -> (p: u32)
        ensures
            p == self@.priority,
    {
        self.priority
    }
}

/// Processes bleeding, infection and vital injuries.
#[derive(Debug, Clone, Copy)]
pub struct HealthRuntimeSystem {
    priority: u32,
    tick_interval: u64,
}

impl View for HealthRuntimeSystem {
    type V = Cadence;

    closed spec fn view(&self) -> Cadence {
        Cadence { priority: self.priority, tick_interval: self.tick_interval }
    }
}

impl HealthRuntimeSystem {
    /// A system scheduled at `priority`, every `tick_interval` ticks.
    pub fn new(priority: u32, tick_interval: u64) -> (s: HealthRuntimeSystem)
        ensures
            s@ == (Cadence { priority, tick_interval: tick_interval }),
    {
        HealthRuntimeSystem { priority, tick_interval: tick_interval }
    }

    /// Name under which the system is scheduled.
    pub fn name(&self) -> (n: &'static str)
        ensures
            n@ == "health_runtime_system"@,
    {
        "health_runtime_system"
    }

    /// Ticks between runs.
    pub fn tick_interval(&self) -> (t: u64)
        ensures
            t == self@.tick_interval,
    {
        self.tick_interval
    }

    /// Scheduling priority.
    pub fn priority(&self) -> (p: u32)
        ensures
            p == self@.priority,
    {
        self.priority
    }
}

/// Advances knowledge that agents are learning.
#[derive(Debug, Clone, Copy)]
pub struct KnowledgeLearningRuntimeSystem {
    priority: u32,
    tick_interval: u64,
}

impl View for KnowledgeLearningRuntimeSystem {
    type V = Cadence;

    closed spec fn view(&self) -> Cadence {
        Cadence { priority: self.priority, tick_interval: self.tick_interval }
    }
}

impl KnowledgeLearningRuntimeSystem {
    /// A system scheduled at `priority`, every `tick_interval` ticks.
    pub fn new(priority: u32, tick_interval: u64) -> (s: KnowledgeLearningRuntimeSystem)
        ensures
            s@ == (Cadence { priority, tick_interval: tick_interval }),
    {
        KnowledgeLearningRuntimeSystem { priority, tick_interval: tick_interval }
    }

    /// Name under which the system is scheduled.
    pub fn name(&self) -> (n: &'static str)
        ensures
            n@ == "knowledge_learning_system"@,
    {
        "knowledge_learning_system"
    }

    /// Ticks between runs.
    pub fn tick_interval(&self) -> (t: u64)
        ensures
            t == self@.tick_interval,
    {
        self.tick_interval
    }

    /// Scheduling priority.
    pub fn priority(&self) -> (p: u32)
        ensures
            p == self@.priority,
    {
        self.priority
    }
}

/// Resolves interactions between pairs of nearby agents.
#[derive(Debug, Clone, Copy)]
pub struct PairwiseInteractionSystem {
    priority: u32,
    tick_interval: u64,
}

impl View for PairwiseInteractionSystem {
    type V = Cadence;

    closed spec fn view(&self) -> Cadence {
        Cadence { priority: self.priority, tick_interval: self.tick_interval }
    }
}

impl PairwiseInteractionSystem {
    /// A system scheduled at `priority`, every `tick_interval` ticks (at least one).
    pub fn new(priority: u32, tick_interval: u64) -> (s: PairwiseInteractionSystem)
        ensures
            s@ == (Cadence { priority, tick_interval: at_least_one(tick_interval) }),
    {
        PairwiseInteractionSystem { priority, tick_interval: clamp_interval(tick_interval) }
    }

    /// Name under which the system is scheduled.
    pub fn name(&self) -> (n: &'static str)
        ensures
            n@ == "pairwise_interaction_system"@,
    {
        "pairwise_interaction_system"
    }

    /// Ticks between runs.
    pub fn tick_interval(&self) -> (t: u64)
        ensures
            t == self@.tick_interval,
    {
        self.tick_interval
    }

    /// Scheduling priority.
    pub fn priority(&self) -> (p: u32)
        ensures
            p == self@.priority,
    {
        self.priority
    }
}

} // verus!
