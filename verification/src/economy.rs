use vstd::prelude::*;

use crate::cadence::{at_least_one, clamp_interval, Cadence};
use crate::text::str_eq;

verus! {

/// Regrows the resource deposits of map tiles toward their maxima.
#[derive(Debug, Clone, Copy)]
pub struct ResourceRegenSystem {
    priority: u32,
    tick_interval: u64,
}

impl View for ResourceRegenSystem {
    type V = Cadence;

    closed spec fn view(&self) -> Cadence {
        Cadence { priority: self.priority, tick_interval: self.tick_interval }
    }
}

impl ResourceRegenSystem {
    /// A system scheduled at `priority`, every `tick_interval` ticks (at least one).
    pub fn new(priority: u32, tick_interval: u64) -> (s: ResourceRegenSystem)
        ensures
            s@ == (Cadence { priority, tick_interval: at_least_one(tick_interval) }),
    {
        ResourceRegenSystem { priority, tick_interval: clamp_interval(tick_interval) }
    }

    /// Name under which the system is scheduled.
    pub fn name(&self) -> (n: &'static str)
        ensures
            n@ == "resource_regen_system"@,
    {
        "resource_regen_system"
    }

    /// Ticks between runs.
    pub fn tick_interval(&self) -> (t: u64)
        ensures
            t == self@.tick_interval,
    {
        self.tick_interval
    }

    /// Scheduling priority.
    pub fn priority(&self) -> (p: u32)
        ensures
            p == self@.priority,
    {
        self.priority
    }
}

/// Assigns and rebalances jobs across the population.
#[derive(Debug, Clone, Copy)]
pub struct JobAssignmentRuntimeSystem {
    priority: u32,
    tick_interval: u64,
    first_run: bool,
}

impl View for JobAssignmentRuntimeSystem {
    type V = Cadence;

    closed spec fn view(&self) -> Cadence {
        Cadence { priority: self.priority, tick_interval: self.tick_interval }
    }
}

impl JobAssignmentRuntimeSystem {
    /// Whether the system has not run yet.
    pub closed spec fn first_run_spec(&self) -> bool {
        self.first_run
    }

    /// A system scheduled at `priority`, every `tick_interval` ticks (at least one).
    pub fn new(priority: u32, tick_interval: u64) -> (s: JobAssignmentRuntimeSystem)
        ensures
            s@ == (Cadence { priority, tick_interval: at_least_one(tick_interval) }),
            s.first_run_spec() == true,
    {
        JobAssignmentRuntimeSystem { priority, tick_interval: clamp_interval(tick_interval), first_run: true }
    }

    /// Name under which the system is scheduled.
    pub fn name(&self) -> (n: &'static str)
        ensures
            n@ == "job_assignment_system"@,
    {
        "job_assignment_system"
    }

    /// Ticks between runs.
    pub fn tick_interval(&self) -> (t: u64)
        ensures
            t == self@.tick_interval,
    {
        self.tick_interval
    }

    /// Scheduling priority.
    pub fn priority(&self) -> (p: u32)
        ensures
            p == self@.priority,
    {
        self.priority
    }
}

/// Updates how satisfied agents are with their jobs.
#[derive(Debug, Clone, Copy)]
pub struct JobSatisfactionRuntimeSystem {
    priority: u32,
    tick_interval: u64,
}

impl View for JobSatisfactionRuntimeSystem {
    type V = Cadence;

    closed spec fn view(&self) -> Cadence {
        Cadence { priority: self.priority, tick_interval: self.tick_interval }
    }
}

impl JobSatisfactionRuntimeSystem {
    /// A system scheduled at `priority`, every `tick_interval` ticks (at least one).
    pub fn new(priority: u32, tick_interval: u64) -> (s: JobSatisfactionRuntimeSystem)
        ensures
            s@ == (Cadence { priority, tick_interval: at_least_one(tick_interval) }),
    {
        JobSatisfactionRuntimeSystem { priority, tick_interval: clamp_interval(tick_interval) }
    }

    /// Name under which the system is scheduled.
    pub fn name(&self) -> (n: &'static str)
        ensures
            n@ == "job_satisfaction_system"@,
    {
        "job_satisfaction_system"
    }

    /// Ticks between runs.
    pub fn tick_interval(&self) -> (t: u64)
        ensures
            t == self@.tick_interval,
    {
        self.tick_interval
    }

    /// Scheduling priority.
    pub fn priority(&self) -> (p: u32)
        ensures
            p == self@.priority,
    {
        self.priority
    }
}

/// Moves gathered resources from tiles into settlement stockpiles.
#[derive(Debug, Clone, Copy)]
pub struct GatheringRuntimeSystem {
    priority: u32,
    tick_interval: u64,
}

impl View for GatheringRuntimeSystem {
    type V = Cadence;

    closed spec fn view(&self) -> Cadence {
        Cadence { priority: self.priority, tick_interval: self.tick_interval }
    }
}

impl GatheringRuntimeSystem {
    /// A system scheduled at `priority`, every `tick_interval` ticks (at least one).
    pub fn new(priority: u32, tick_interval: u64) -> (s: GatheringRuntimeSystem)
        ensures
            s@ == (Cadence { priority, tick_interval: at_least_one(tick_interval) }),
    {
        GatheringRuntimeSystem { priority, tick_interval: clamp_interval(tick_interval) }
    }

    /// Name under which the system is scheduled.
    pub fn name(&self) -> (n: &'static str)
        ensures
            n@ == "gathering_system"@,
    {
        "gathering_system"
    }

    /// Ticks between runs.
    pub fn tick_interval(&self) -> (t: u64)
        ensures
            t == self@.tick_interval,
    {
        self.tick_interval
    }

    /// Scheduling priority.
    pub fn priority(&self) -> (p: u32)
        ensures
            p == self@.priority,
    {
        self.priority
    }
}

/// Advances construction of building sites.
#[derive(Debug, Clone, Copy)]
pub struct ConstructionRuntimeSystem {
    priority: u32,
    tick_interval: u64,
}

impl View for ConstructionRuntimeSystem {
    type V = Cadence;

    closed spec fn view(&self) -> Cadence {
        Cadence { priority: self.priority, tick_interval: self.tick_interval }
    }
}

impl ConstructionRuntimeSystem {
    /// A system scheduled at `priority`, every `tick_interval` ticks (at least one).
    pub fn new(priority: u32, tick_interval: u64) -> (s: ConstructionRuntimeSystem)
        ensures
            s@ == (Cadence { priority, tick_interval: at_least_one(tick_interval) }),
    {
        ConstructionRuntimeSystem { priority, tick_interval: clamp_interval(tick_interval) }
    }

    /// Name under which the system is scheduled.
    pub fn name(&self) -> (n: &'static str)
        ensures
            n@ == "construction_system"@,
    {
        "construction_system"
    }

    /// Ticks between runs.
    pub fn tick_interval(&self) -> (t: u64)
        ensures
            t == self@.tick_interval,
    {
        self.tick_interval
    }

    /// Scheduling priority.
    pub fn priority(&self) -> (p: u32)
        ensures
            p == self@.priority,
    {
        self.priority
    }
}

/// Applies the passive aura effects of completed buildings.
#[derive(Debug, Clone, Copy)]
pub struct BuildingEffectRuntimeSystem {
    priority: u32,
    tick_interval: u64,
}

impl View for BuildingEffectRuntimeSystem {
    type V = Cadence;

    closed spec fn view(&self) -> Cadence {
        Cadence { priority: self.priority, tick_interval: self.tick_interval }
    }
}

impl BuildingEffectRuntimeSystem {
    /// A system scheduled at `priority`, every `tick_interval` ticks (at least one).
    pub fn new(priority: u32, tick_interval: u64) -> (s: BuildingEffectRuntimeSystem)
        ensures
            s@ == (Cadence { priority, tick_interval: at_least_one(tick_interval) }),
    {
        BuildingEffectRuntimeSystem { priority, tick_interval: clamp_interval(tick_interval) }
    }

    /// Name under which the system is scheduled.
    pub fn name(&self) -> (n: &'static str)
        ensures
            n@ == "building_effect_system"@,
    {
        "building_effect_system"
    }

    /// Ticks between runs.
    pub fn tick_interval(&self) -> (t: u64)
        ensures
            t == self@.tick_interval,
    {
        self.tick_interval
    }

    /// Scheduling priority.
    pub fn priority(&self) -> (p: u32)
        ensures
            p == self@.priority,
    {
        self.priority
    }
}

/// Kinds of map resource.
#[derive(Debug, Clone, Copy, PartialEq, Eq, Structural)]
pub enum ResourceType {
    Food,
    Wood,
    Stone,
}

/// The world-rule tag that scales the regrowth of a resource kind.
pub fn resource_type_to_rule_tag(resource_type: ResourceType) -> (tag: &'static str)
    ensures
        tag@ == match resource_type {
            ResourceType::Food => "surface_foraging"@,
            ResourceType::Wood => "wood_harvesting"@,
            ResourceType::Stone => "stone_mining"@,
        },
{
    match resource_type {
        ResourceType::Food => "surface_foraging",
        ResourceType::Wood => "wood_harvesting",
        ResourceType::Stone => "stone_mining",
    }
}

/// Actions that may gather a resource.
#[derive(Debug, Clone, Copy, PartialEq, Eq, Structural)]
pub enum GatherAction {
    Forage,
    GatherHerbs,
    GatherWood,
    GatherStone,
    /// Any action that gathers nothing.
    Other,
}

/// The resource an action gathers, with the stockpile it fills.
pub fn gathering_target_resource(action: GatherAction) -> (r: Option<(ResourceType, &'static str)>)
    ensures
        match action {
            GatherAction::Forage | GatherAction::GatherHerbs => r is Some && r.unwrap().0 == ResourceType::Food && r.unwrap().1@ == "food"@,
            GatherAction::GatherWood => r is Some && r.unwrap().0 == ResourceType::Wood && r.unwrap().1@ == "wood"@,
            GatherAction::GatherStone => r is Some && r.unwrap().0 == ResourceType::Stone && r.unwrap().1@ == "stone"@,
            GatherAction::Other => r is None,
        },
{
    match action {
        GatherAction::Forage | GatherAction::GatherHerbs => Some((ResourceType::Food, "food")),
        GatherAction::GatherWood => Some((ResourceType::Wood, "wood")),
        GatherAction::GatherStone => Some((ResourceType::Stone, "stone")),
        GatherAction::Other => None,
    }
}

/// The building type of a stockpile.
pub const BUILDING_TYPE_STOCKPILE: &'static str = "stockpile";

/// The building type of a campfire.
pub const BUILDING_TYPE_CAMPFIRE: &'static str = "campfire";

/// The building type of a shelter.
pub const BUILDING_TYPE_SHELTER: &'static str = "shelter";

/// The structures a young settlement plans first.
#[derive(Debug, Clone, Copy, PartialEq, Eq, Structural)]
pub enum EarlyStructurePlan {
    Stockpile,
    Campfire,
    Shelter,
}

impl EarlyStructurePlan {
    /// The building type the plan places.
    pub fn building_type(self) -> (t: &'static str)
        ensures
            t@ == match self {
                EarlyStructurePlan::Stockpile => "stockpile"@,
                EarlyStructurePlan::Campfire => "campfire"@,
                EarlyStructurePlan::Shelter => "shelter"@,
            },
    {
        match self {
            EarlyStructurePlan::Stockpile => BUILDING_TYPE_STOCKPILE,
            EarlyStructurePlan::Campfire => BUILDING_TYPE_CAMPFIRE,
            EarlyStructurePlan::Shelter => BUILDING_TYPE_SHELTER,
        }
    }
}

/// Position of a job in the assignment order gatherer, lumberjack,
/// builder, miner.
pub open spec fn job_index_spec(job: Seq<char>) -> Option<usize> {
    if job == "gatherer"@ {
        Some(0usize)
    } else if job == "lumberjack"@ {
        Some(1usize)
    } else if job == "builder"@ {
        Some(2usize)
    } else if job == "miner"@ {
        Some(3usize)
    } else {
        None
    }
}

/// The index of `job` in the assignment order, if it is one of the four
/// assignable jobs.
pub fn job_assignment_job_index(job: &str) -> (r: Option<usize>)
    ensures
        r == job_index_spec(job@),
        job@ == "gatherer"@ ==> r == Some(0usize),
        job@ == "lumberjack"@ ==> r == Some(1usize),
        job@ == "builder"@ ==> r == Some(2usize),
        job@ == "miner"@ ==> r == Some(3usize),
        r is None <==> !(job@ == "gatherer"@ || job@ == "lumberjack"@ || job@ == "builder"@ || job@ == "miner"@),
{
    proof {
        reveal_strlit("gatherer");
        reveal_strlit("lumberjack");
        reveal_strlit("builder");
        reveal_strlit("miner");
        assert("gatherer"@.len() == 8 && "lumberjack"@.len() == 10 && "builder"@.len() == 7 && "miner"@.len() == 5);
        assert("gatherer"@ != "lumberjack"@ && "gatherer"@ != "builder"@ && "gatherer"@ != "miner"@);
        assert("lumberjack"@ != "builder"@ && "lumberjack"@ != "miner"@);
        assert("builder"@[0] == 'b' && "miner"@[0] == 'm');
        assert("builder"@ != "miner"@);
    }
    if str_eq(job, "gatherer") {
        Some(0)
    } else if str_eq(job, "lumberjack") {
        Some(1)
    } else if str_eq(job, "builder") {
        Some(2)
    } else if str_eq(job, "miner") {
        Some(3)
    } else {
        None
    }
}

/// Build ticks used when neither the data registry nor the built-in table
/// knows a building type.
pub const CONSTRUCTION_BUILD_TICKS_DEFAULT: i32 = 50;

/// Built-in build ticks of the early building types.
pub open spec fn legacy_build_ticks_spec(building_type: Seq<char>) -> Option<i32> {
    if building_type == "stockpile"@ {
        Some(36i32)
    } else if building_type == "shelter"@ {
        Some(60i32)
    } else if building_type == "campfire"@ {
        Some(24i32)
    } else {
        None
    }
}

/// Built-in build ticks: stockpile 36, shelter 60, campfire 24.
pub fn legacy_construction_build_ticks(building_type: &str) -> (r: Option<i32>)
    ensures
        r == legacy_build_ticks_spec(building_type@),
{
    if str_eq(building_type, BUILDING_TYPE_STOCKPILE) {
        Some(36)
    } else if str_eq(building_type, BUILDING_TYPE_SHELTER) {
        Some(60)
    } else if str_eq(building_type, BUILDING_TYPE_CAMPFIRE) {
        Some(24)
    } else {
        None
    }
}

/// Build ticks of a building type: the registry's value when it has one,
/// else the built-in value, else the default.
pub fn construction_build_ticks(building_type: &str, registry_ticks: Option<i32>) -> (r: i32)
    ensures
        r == match registry_ticks {
            Some(t) => t,
            None => match legacy_build_ticks_spec(building_type@) {
                Some(t) => t,
                None => CONSTRUCTION_BUILD_TICKS_DEFAULT,
            },
        },
{
    match registry_ticks {
        Some(t) => t,
        None => match legacy_construction_build_ticks(building_type) {
            Some(t) => t,
            None => CONSTRUCTION_BUILD_TICKS_DEFAULT,
        },
    }
}


impl JobAssignmentRuntimeSystem {
    /// Whether this is the first run; afterwards it no longer is.
    pub fn take_first_run(&mut self) -> (first: bool)
        ensures
            first == old(self).first_run_spec(),
            !final(self).first_run_spec(),
            final(self)@ == old(self)@,
    {
        let first = self.first_run;
        self.first_run = false;
        first
    }
}

} // verus!
