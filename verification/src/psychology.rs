use vstd::prelude::*;

use crate::cadence::{at_least_one, clamp_interval, Cadence};

verus! {

/// Accumulates and relieves stress.
#[derive(Debug, Clone, Copy)]
pub struct StressRuntimeSystem {
    priority: u32,
    tick_interval: u64,
}

impl View for StressRuntimeSystem {
    type V = Cadence;

    closed spec fn view(&self) -> Cadence {
        Cadence { priority: self.priority, tick_interval: self.tick_interval }
    }
}

impl StressRuntimeSystem {
    /// A system scheduled at `priority`, every `tick_interval` ticks (at least one).
    pub fn new(priority: u32, tick_interval: u64) -> (s: StressRuntimeSystem)
        ensures
            s@ == (Cadence { priority, tick_interval: at_least_one(tick_interval) }),
    {
        StressRuntimeSystem { priority, tick_interval: clamp_interval(tick_interval) }
    }

    /// Name under which the system is scheduled.
    pub fn name(&self) -> (n: &'static str)
        ensures
            n@ == "stress_system"@,
    {
        "stress_system"
    }

    /// Ticks between runs.
    pub fn tick_interval(&self) -> (t: u64)
        ensures
            t == self@.tick_interval,
    {
        self.tick_interval
    }

    /// Scheduling priority.
    pub fn priority(&self) -> (p: u32)
        ensures
            p == self@.priority,
    {
        self.priority
    }
}

/// Starts and ends mental breaks under extreme stress.
#[derive(Debug, Clone, Copy)]
pub struct MentalBreakRuntimeSystem {
    priority: u32,
    tick_interval: u64,
}

impl View for MentalBreakRuntimeSystem {
    type V = Cadence;

    closed spec fn view(&self) -> Cadence {
        Cadence { priority: self.priority, tick_interval: self.tick_interval }
    }
}

impl MentalBreakRuntimeSystem {
    /// A system scheduled at `priority`, every `tick_interval` ticks (at least one).
    pub fn new(priority: u32, tick_interval: u64) -> (s: MentalBreakRuntimeSystem)
        ensures
            s@ == (Cadence { priority, tick_interval: at_least_one(tick_interval) }),
    {
        MentalBreakRuntimeSystem { priority, tick_interval: clamp_interval(tick_interval) }
    }

    /// Name under which the system is scheduled.
    pub fn name(&self) -> (n: &'static str)
        ensures
            n@ == "mental_break_system"@,
    {
        "mental_break_system"
    }

    /// Ticks between runs.
    pub fn tick_interval(&self) -> (t: u64)
        ensures
            t == self@.tick_interval,
    {
        self.tick_interval
    }

    /// Scheduling priority.
    pub fn priority(&self) -> (p: u32)
        ensures
            p == self@.priority,
    {
        self.priority
    }
}

/// Applies the lasting emotional shifts of trauma scars.
#[derive(Debug, Clone, Copy)]
pub struct TraumaScarRuntimeSystem {
    priority: u32,
    tick_interval: u64,
}

impl View for TraumaScarRuntimeSystem {
    type V = Cadence;

    closed spec fn view(&self) -> Cadence {
        Cadence { priority: self.priority, tick_interval: self.tick_interval }
    }
}

impl TraumaScarRuntimeSystem {
    /// A system scheduled at `priority`, every `tick_interval` ticks (at least one).
    pub fn new(priority: u32, tick_interval: u64) -> (s: TraumaScarRuntimeSystem)
        ensures
            s@ == (Cadence { priority, tick_interval: at_least_one(tick_interval) }),
    {
        TraumaScarRuntimeSystem { priority, tick_interval: clamp_interval(tick_interval) }
    }

    /// Name under which the system is scheduled.
    pub fn name(&self) -> (n: &'static str)
        ensures
            n@ == "trauma_scar_system"@,
    {
        "trauma_scar_system"
    }

    /// Ticks between runs.
    pub fn tick_interval(&self) -> (t: u64)
        ensures
            t == self@.tick_interval,
    {
        self.tick_interval
    }

    /// Scheduling priority.
    pub fn priority(&self) -> (p: u32)
        ensures
            p == self@.priority,
    {
        self.priority
    }
}

/// Updates agents' emotions.
#[derive(Debug, Clone, Copy)]
pub struct EmotionRuntimeSystem {
    priority: u32,
    tick_interval: u64,
}

impl View for EmotionRuntimeSystem {
    type V = Cadence;

    closed spec fn view(&self) -> Cadence {
        Cadence { priority: self.priority, tick_interval: self.tick_interval }
    }
}

impl EmotionRuntimeSystem {
    /// A system scheduled at `priority`, every `tick_interval` ticks (at least one).
    pub fn new(priority: u32, tick_interval: u64) -> (s: EmotionRuntimeSystem)
        ensures
            s@ == (Cadence { priority, tick_interval: at_least_one(tick_interval) }),
    {
        EmotionRuntimeSystem { priority, tick_interval: clamp_interval(tick_interval) }
    }

    /// Name under which the system is scheduled.
    pub fn name(&self) -> (n: &'static str)
        ensures
            n@ == "emotion_system"@,
    {
        "emotion_system"
    }

    /// Ticks between runs.
    pub fn tick_interval(&self) -> (t: u64)
        ensures
            t == self@.tick_interval,
    {
        self.tick_interval
    }

    /// Scheduling priority.
    pub fn priority(&self) -> (p: u32)
        ensures
            p == self@.priority,
    {
        self.priority
    }
}

/// Updates agents' morale.
#[derive(Debug, Clone, Copy)]
pub struct MoraleRuntimeSystem {
    priority: u32,
    tick_interval: u64,
}

impl View for MoraleRuntimeSystem {
    type V = Cadence;

    closed spec fn view(&self) -> Cadence {
        Cadence { priority: self.priority, tick_interval: self.tick_interval }
    }
}

impl MoraleRuntimeSystem {
    /// A system scheduled at `priority`, every `tick_interval` ticks (at least one).
    pub fn new(priority: u32, tick_interval: u64) -> (s: MoraleRuntimeSystem)
        ensures
            s@ == (Cadence { priority, tick_interval: at_least_one(tick_interval) }),
    {
        MoraleRuntimeSystem { priority, tick_interval: clamp_interval(tick_interval) }
    }

    /// Name under which the system is scheduled.
    pub fn name(&self) -> (n: &'static str)
        ensures
            n@ == "morale_system"@,
    {
        "morale_system"
    }

    /// Ticks between runs.
    pub fn tick_interval(&self) -> (t: u64)
        ensures
            t == self@.tick_interval,
    {
        self.tick_interval
    }

    /// Scheduling priority.
    pub fn priority(&self) -> (p: u32)
        ensures
            p == self@.priority,
    {
        self.priority
    }
}

/// Spreads emotions between nearby agents.
#[derive(Debug, Clone, Copy)]
pub struct ContagionRuntimeSystem {
    priority: u32,
    tick_interval: u64,
}

impl View for ContagionRuntimeSystem {
    type V = Cadence;

    closed spec fn view(&self) -> Cadence {
        Cadence { priority: self.priority, tick_interval: self.tick_interval }
    }
}

impl ContagionRuntimeSystem {
    /// A system scheduled at `priority`, every `tick_interval` ticks (at least one).
    pub fn new(priority: u32, tick_interval: u64) -> (s: ContagionRuntimeSystem)
        ensures
            s@ == (Cadence { priority, tick_interval: at_least_one(tick_interval) }),
    {
        ContagionRuntimeSystem { priority, tick_interval: clamp_interval(tick_interval) }
    }

    /// Name under which the system is scheduled.
    pub fn name(&self) -> (n: &'static str)
        ensures
            n@ == "contagion_system"@,
    {
        "contagion_system"
    }

    /// Ticks between runs.
    pub fn tick_interval(&self) -> (t: u64)
        ensures
            t == self@.tick_interval,
    {
        self.tick_interval
    }

    /// Scheduling priority.
    pub fn priority(&self) -> (p: u32)
        ensures
            p == self@.priority,
    {
        self.priority
    }
}

/// Chooses and applies coping strategies.
#[derive(Debug, Clone, Copy)]
pub struct CopingRuntimeSystem {
    priority: u32,
    tick_interval: u64,
}

impl View for CopingRuntimeSystem {
    type V = Cadence;

    closed spec fn view(&self) -> Cadence {
        Cadence { priority: self.priority, tick_interval: self.tick_interval }
    }
}

impl CopingRuntimeSystem {
    /// A system scheduled at `priority`, every `tick_interval` ticks (at least one).
    pub fn new(priority: u32, tick_interval: u64) -> (s: CopingRuntimeSystem)
        ensures
            s@ == (Cadence { priority, tick_interval: at_least_one(tick_interval) }),
    {
        CopingRuntimeSystem { priority, tick_interval: clamp_interval(tick_interval) }
    }

    /// Name under which the system is scheduled.
    pub fn name(&self) -> (n: &'static str)
        ensures
            n@ == "coping_system"@,
    {
        "coping_system"
    }

    /// Ticks between runs.
    pub fn tick_interval(&self) -> (t: u64)
        ensures
            t == self@.tick_interval,
    {
        self.tick_interval
    }

    /// Scheduling priority.
    pub fn priority(&self) -> (p: u32)
        ensures
            p == self@.priority,
    {
        self.priority
    }
}

/// Matures personality facets year by year.
#[derive(Debug, Clone, Copy)]
pub struct PersonalityMaturationRuntimeSystem {
    priority: u32,
    tick_interval: u64,
    last_year: i32,
}

impl View for PersonalityMaturationRuntimeSystem {
    type V = Cadence;

    closed spec fn view(&self) -> Cadence {
        Cadence { priority: self.priority, tick_interval: self.tick_interval }
    }
}

impl PersonalityMaturationRuntimeSystem {
    /// The last year processed; -1 before the first.
    pub closed spec fn last_year_spec(&self) -> i32 {
        self.last_year
    }

    /// A system scheduled at `priority`, every `tick_interval` ticks (at least one).
    pub fn new(priority: u32, tick_interval: u64) -> (s: PersonalityMaturationRuntimeSystem)
        ensures
            s@ == (Cadence { priority, tick_interval: at_least_one(tick_interval) }),
            s.last_year_spec() == -1i32,
    {
        PersonalityMaturationRuntimeSystem { priority, tick_interval: clamp_interval(tick_interval), last_year: -1i32 }
    }

    /// Name under which the system is scheduled.
    pub fn name(&self) -> (n: &'static str)
        ensures
            n@ == "personality_maturation_system"@,
    {
        "personality_maturation_system"
    }

    /// Ticks between runs.
    pub fn tick_interval(&self) -> (t: u64)
        ensures
            t == self@.tick_interval,
    {
        self.tick_interval
    }

    /// Scheduling priority.
    pub fn priority(&self) -> (p: u32)
        ensures
            p == self@.priority,
    {
        self.priority
    }
}

/// Kinds of mental break.
#[derive(Debug, Clone, Copy, PartialEq, Eq, Structural)]
pub enum MentalBreakType {
    OutrageViolence,
    Panic,
    Rage,
    Purge,
    Shutdown,
}

/// The break a code selects: 1 outrage, 2 panic, 3 rage, 5 purge, any
/// other code a shutdown.
pub fn mental_break_type_from_code(code: i32) -> (k: MentalBreakType)
    ensures
        k == (if code == 1 {
            MentalBreakType::OutrageViolence
        } else if code == 2 {
            MentalBreakType::Panic
        } else if code == 3 {
            MentalBreakType::Rage
        } else if code == 5 {
            MentalBreakType::Purge
        } else {
            MentalBreakType::Shutdown
        }),
{
    match code {
        1 => MentalBreakType::OutrageViolence,
        2 => MentalBreakType::Panic,
        3 => MentalBreakType::Rage,
        5 => MentalBreakType::Purge,
        _ => MentalBreakType::Shutdown,
    }
}

/// How long a break lasts, in ticks.
pub fn mental_break_duration_ticks(kind: MentalBreakType) -> (t: u32)
    ensures
        t == match kind {
            MentalBreakType::OutrageViolence => 24u32,
            MentalBreakType::Panic => 16u32,
            MentalBreakType::Rage => 20u32,
            MentalBreakType::Purge => 18u32,
            MentalBreakType::Shutdown => 30u32,
        },
{
    match kind {
        MentalBreakType::OutrageViolence => 24,
        MentalBreakType::Panic => 16,
        MentalBreakType::Rage => 20,
        MentalBreakType::Purge => 18,
        MentalBreakType::Shutdown => 30,
    }
}

/// Coping strategies.
#[derive(Debug, Clone, Copy, PartialEq, Eq, Structural)]
pub enum CopingStrategyId {
    StrategicPlanning,
    InstrumentalSupport,
    EmotionalSupport,
    PositiveReframing,
    Denial,
    Acceptance,
    Humor,
    ReligiousCoping,
    Venting,
    ActiveDistraction,
    BehavioralDisengagement,
    SelfBlame,
    SubstanceUse,
    Rumination,
    ProblemSolving,
}

/// Number of coping strategies.
pub const COPING_STRATEGY_COUNT: i32 = 15;

/// The strategy at position `i` of the fixed strategy order.
pub open spec fn coping_strategy_at(i: int) -> CopingStrategyId {
    if i == 0 {
        CopingStrategyId::StrategicPlanning
    } else if i == 1 {
        CopingStrategyId::InstrumentalSupport
    } else if i == 2 {
        CopingStrategyId::EmotionalSupport
    } else if i == 3 {
        CopingStrategyId::PositiveReframing
    } else if i == 4 {
        CopingStrategyId::Denial
    } else if i == 5 {
        CopingStrategyId::Acceptance
    } else if i == 6 {
        CopingStrategyId::Humor
    } else if i == 7 {
        CopingStrategyId::ReligiousCoping
    } else if i == 8 {
        CopingStrategyId::Venting
    } else if i == 9 {
        CopingStrategyId::ActiveDistraction
    } else if i == 10 {
        CopingStrategyId::BehavioralDisengagement
    } else if i == 11 {
        CopingStrategyId::SelfBlame
    } else if i == 12 {
        CopingStrategyId::SubstanceUse
    } else if i == 13 {
        CopingStrategyId::Rumination
    } else {
        CopingStrategyId::ProblemSolving
    }
}

/// The strategy at `index` in the fixed order, if the index is in range.
pub fn coping_strategy_from_index(index: i32) -> (s: Option<CopingStrategyId>)
    ensures
        s == (if 0 <= index < COPING_STRATEGY_COUNT { Some(coping_strategy_at(index as int)) } else { None }),
{
    match index {
        0 => Some(CopingStrategyId::StrategicPlanning),
        1 => Some(CopingStrategyId::InstrumentalSupport),
        2 => Some(CopingStrategyId::EmotionalSupport),
        3 => Some(CopingStrategyId::PositiveReframing),
        4 => Some(CopingStrategyId::Denial),
        5 => Some(CopingStrategyId::Acceptance),
        6 => Some(CopingStrategyId::Humor),
        7 => Some(CopingStrategyId::ReligiousCoping),
        8 => Some(CopingStrategyId::Venting),
        9 => Some(CopingStrategyId::ActiveDistraction),
        10 => Some(CopingStrategyId::BehavioralDisengagement),
        11 => Some(CopingStrategyId::SelfBlame),
        12 => Some(CopingStrategyId::SubstanceUse),
        13 => Some(CopingStrategyId::Rumination),
        14 => Some(CopingStrategyId::ProblemSolving),
        _ => None,
    }
}

/// Ticks before a strategy can be used again: denial 96, substance use
/// 120, rumination and behavioral disengagement 72, any other 36.
pub fn coping_strategy_cooldown_ticks(strategy: CopingStrategyId) -> (t: u32)
    ensures
        t == match strategy {
            CopingStrategyId::Denial => 96u32,
            CopingStrategyId::SubstanceUse => 120u32,
            CopingStrategyId::Rumination => 72u32,
            CopingStrategyId::BehavioralDisengagement => 72u32,
            _ => 36u32,
        },
{
    match strategy {
        CopingStrategyId::Denial => 96,
        CopingStrategyId::SubstanceUse => 120,
        CopingStrategyId::Rumination => 72,
        CopingStrategyId::BehavioralDisengagement => 72,
        _ => 36,
    }
}

/// Direction of a trait condition's threshold comparison.
#[derive(Debug, Clone, Copy, PartialEq, Eq, Structural)]
pub enum TraitDirection {
    /// The value must be at or above the threshold.
    High,
    /// The value must be at or below the threshold.
    Low,
}

impl TraitDirection {
    /// Whether a value passes the condition, given whether it is at or
    /// above the threshold and whether it is at or below it.
    pub fn passes(self, at_or_above: bool, at_or_below: bool) -> (b: bool)
        ensures
            b == match self {
                TraitDirection::High => at_or_above,
                TraitDirection::Low => at_or_below,
            },
    {
        match self {
            TraitDirection::High => at_or_above,
            TraitDirection::Low => at_or_below,
        }
    }
}


/// The schedule of trait-violation stress: acting against one's traits. The per-agent violation history, with its floating-point weights, is kept by the caller.
#[derive(Debug, Clone, Copy)]
pub struct TraitViolationRuntimeSystem {
    priority: u32,
    tick_interval: u64,
}

impl View for TraitViolationRuntimeSystem {
    type V = Cadence;

    closed spec fn view(&self) -> Cadence {
        Cadence { priority: self.priority, tick_interval: self.tick_interval }
    }
}

impl TraitViolationRuntimeSystem {
    /// A system scheduled at `priority`, every `tick_interval` ticks (at least one).
    pub fn new(priority: u32, tick_interval: u64) -> (s: TraitViolationRuntimeSystem)
        ensures
            s@ == (Cadence { priority, tick_interval: at_least_one(tick_interval) }),
    {
        TraitViolationRuntimeSystem { priority, tick_interval: clamp_interval(tick_interval) }
    }

    /// Name under which the system is scheduled.
    pub fn name(&self) -> (n: &'static str)
        ensures
            n@ == "trait_violation_system"@,
    {
        "trait_violation_system"
    }

    /// Ticks between runs.
    pub fn tick_interval(&self) -> (t: u64)
        ensures
            t == self@.tick_interval,
    {
        self.tick_interval
    }

    /// Scheduling priority.
    pub fn priority(&self) -> (p: u32)
        ensures
            p == self@.priority,
    {
        self.priority
    }

    /// Whether a violation at `tick` is a habit: at least three were
    /// counted before, the last less than 180 ticks ago.
    pub fn is_habit(tally: ViolationTally, tick: u64) -> (b: bool)
        ensures
            b == (tally.repeats >= 3 && ticks_after(tick, tally.last_violation_tick) < 180),
    {
        let since: u64 = if tick >= tally.last_violation_tick { tick - tally.last_violation_tick } else { 0 };
        tally.repeats >= 3 && since < 180
    }

    /// The tally after one run at `tick`: a counted violation adds one
    /// (saturating) and dates the last violation to `tick`; then, when more
    /// than [`TRAIT_VIOLATION_HISTORY_DECAY_TICKS`] ticks have passed since
    /// the last violation (the span taken as an `i32`, wrapping as the
    /// runtime does), one repeat is forgotten (saturating). Returns the
    /// tally and whether it decayed.
    pub fn advance_tally(tally: ViolationTally, violated: bool, tick: u64) -> (r: (ViolationTally, bool))
        ensures
            ({
                let counted = if violated {
                    ViolationTally {
                        repeats: if tally.repeats == u32::MAX { u32::MAX } else { (tally.repeats + 1) as u32 },
                        last_violation_tick: tick,
                    }
                } else {
                    tally
                };
                let since = ticks_after(tick, counted.last_violation_tick) as i32;
                &&& r.1 == (since > TRAIT_VIOLATION_HISTORY_DECAY_TICKS)
                &&& r.0.last_violation_tick == counted.last_violation_tick
                &&& r.0.repeats == if r.1 && counted.repeats > 0 { (counted.repeats - 1) as u32 } else { counted.repeats }
            }),
    {
        let mut t = tally;
        if violated {
            t.repeats = if t.repeats == u32::MAX { u32::MAX } else { t.repeats + 1 };
            t.last_violation_tick = tick;
        }
        let span: u64 = if tick >= t.last_violation_tick { tick - t.last_violation_tick } else { 0 };
        let since: i32 = span as i32;
        let decayed = since > TRAIT_VIOLATION_HISTORY_DECAY_TICKS;
        if decayed && t.repeats > 0 {
            t.repeats = t.repeats - 1;
        }
        (t, decayed)
    }
}

/// Ticks without a violation after which one repeat is forgotten.
pub const TRAIT_VIOLATION_HISTORY_DECAY_TICKS: i32 = 4380;

/// The integer part of an agent's violation history: violations counted,
/// and the tick of the last one.
#[derive(Debug, Clone, Copy, PartialEq, Eq, Structural)]
pub struct ViolationTally {
    pub repeats: u32,
    pub last_violation_tick: u64,
}

/// Ticks from `earlier` to `now`, zero when `now` is not later.
pub open spec fn ticks_after(now: u64, earlier: u64) -> u64 {
    if now >= earlier { (now - earlier) as u64 } else { 0 }
}

/// The schedule of binary trait evaluation. The trait definitions, whose thresholds are floating point, are kept by the caller.
#[derive(Debug, Clone, Copy)]
pub struct TraitRuntimeSystem {
    priority: u32,
    tick_interval: u64,
}

impl View for TraitRuntimeSystem {
    type V = Cadence;

    closed spec fn view(&self) -> Cadence {
        Cadence { priority: self.priority, tick_interval: self.tick_interval }
    }
}

impl TraitRuntimeSystem {
    /// A system scheduled at `priority`, every `tick_interval` ticks (at least one).
    pub fn new(priority: u32, tick_interval: u64) -> (s: TraitRuntimeSystem)
        ensures
            s@ == (Cadence { priority, tick_interval: at_least_one(tick_interval) }),
    {
        TraitRuntimeSystem { priority, tick_interval: clamp_interval(tick_interval) }
    }

    /// Name under which the system is scheduled.
    pub fn name(&self) -> (n: &'static str)
        ensures
            n@ == "trait_system"@,
    {
        "trait_system"
    }

    /// Ticks between runs.
    pub fn tick_interval(&self) -> (t: u64)
        ensures
            t == self@.tick_interval,
    {
        self.tick_interval
    }

    /// Scheduling priority.
    pub fn priority(&self) -> (p: u32)
        ensures
            p == self@.priority,
    {
        self.priority
    }
}


/// One trait definition as judged for one agent: its id, whether all its
/// conditions held, and the ids it cannot be active together with.
#[derive(Debug, Clone)]
pub struct TraitOutcome {
    pub id: String,
    pub met: bool,
    pub incompatibles: Vec<String>,
}

/// The ids of `texts`.
pub open spec fn texts(v: Seq<String>) -> Seq<Seq<char>> {
    v.map_values(|t: String| t@)
}

/// Whether one of `incompatibles` is among `active`.
pub open spec fn blocked_by(incompatibles: Seq<String>, active: Seq<Seq<char>>) -> bool {
    exists|j: int| 0 <= j < incompatibles.len() && active.contains(#[trigger] incompatibles[j]@)
}

/// The ids activated by the definitions, in order: a met definition is
/// activated unless one of its incompatibles was activated before it.
pub open spec fn activated_ids(defs: Seq<TraitOutcome>) -> Seq<Seq<char>>
    decreases defs.len(),
{
    if defs.len() == 0 {
        seq![]
    } else {
        let prev = activated_ids(defs.drop_last());
        let d = defs.last();
        if d.met && !blocked_by(d.incompatibles@, prev) { prev.push(d.id@) } else { prev }
    }
}

/// Whether `id` is the id of one of the definitions.
pub open spec fn defined_id(defs: Seq<TraitOutcome>, id: Seq<char>) -> bool {
    exists|j: int| 0 <= j < defs.len() && #[trigger] defs[j].id@ == id
}

/// The currently active traits that no definition covers and that were not
/// activated again, in order.
pub open spec fn kept_traits(current: Seq<String>, defs: Seq<TraitOutcome>, active: Seq<Seq<char>>) -> Seq<Seq<char>>
    decreases current.len(),
{
    if current.len() == 0 {
        seq![]
    } else {
        let prev = kept_traits(current.drop_last(), defs, active);
        let e = current.last()@;
        if !defined_id(defs, e) && !active.contains(e) { prev.push(e) } else { prev }
    }
}

/// Whether `t` is among `v`.
fn contains_text(v: &Vec<String>, t: &String) -> (b: bool)
    ensures
        b == texts(v@).contains(t@),
{
    let mut i: usize = 0;
    while i < v.len()
        invariant
            0 <= i <= v@.len(),
            forall|j: int| 0 <= j < i ==> v@[j]@ != t@,
        decreases v@.len() - i,
    {
        if crate::text::str_eq(v[i].as_str(), t.as_str()) {
            assert(texts(v@)[i as int] == t@);
            return true;
        }
        i = i + 1;
    }
    proof {
        if texts(v@).contains(t@) {
            let j = choose|j: int| 0 <= j < texts(v@).len() && texts(v@)[j] == t@;
            assert(v@[j]@ == t@);
        }
    }
    false
}

/// Whether one of `incompatibles` is among `active`.
fn any_blocked(incompatibles: &Vec<String>, active: &Vec<String>) -> (b: bool)
    ensures
        b == blocked_by(incompatibles@, texts(active@)),
{
    let mut i: usize = 0;
    while i < incompatibles.len()
        invariant
            0 <= i <= incompatibles@.len(),
            forall|j: int| 0 <= j < i ==> !texts(active@).contains(#[trigger] incompatibles@[j]@),
        decreases incompatibles@.len() - i,
    {
        if contains_text(active, &incompatibles[i]) {
            return true;
        }
        i = i + 1;
    }
    false
}

/// Whether `id` is the id of one of the definitions.
fn is_defined(defs: &Vec<TraitOutcome>, id: &String) -> (b: bool)
    ensures
        b == defined_id(defs@, id@),
{
    let mut i: usize = 0;
    while i < defs.len()
        invariant
            0 <= i <= defs@.len(),
            forall|j: int| 0 <= j < i ==> #[trigger] defs@[j].id@ != id@,
        decreases defs@.len() - i,
    {
        if crate::text::str_eq(defs[i].id.as_str(), id.as_str()) {
            return true;
        }
        i = i + 1;
    }
    false
}

/// The traits active after one evaluation of an agent: the definitions
/// whose conditions held, in order, each unless an incompatible trait was
/// activated before it; then the agent's current traits that no definition
/// covers and that were not activated again, in their order.
pub fn resolve_active_traits(defs: &Vec<TraitOutcome>, current: &Vec<String>) -> (r: Vec<String>)
    ensures
        texts(r@) == activated_ids(defs@) + kept_traits(current@, defs@, activated_ids(defs@)),
{
    let mut active: Vec<String> = Vec::new();
    let mut i: usize = 0;
    while i < defs.len()
        invariant
            0 <= i <= defs@.len(),
            texts(active@) == activated_ids(defs@.subrange(0, i as int)),
        decreases defs@.len() - i,
    {
        let d = &defs[i];
        proof {
            assert(defs@.subrange(0, i + 1).drop_last() =~= defs@.subrange(0, i as int));
            assert(defs@.subrange(0, i + 1).last() == defs@[i as int]);
        }
        if d.met && !any_blocked(&d.incompatibles, &active) {
            let id = d.id.clone();
            let ghost before = active@;
            active.push(id);
            proof {
                assert(texts(active@) =~= texts(before).push(d.id@));
            }
        }
        i = i + 1;
    }
    proof {
        assert(defs@.subrange(0, defs@.len() as int) =~= defs@);
    }
    let ghost act = texts(active@);
    let mut out: Vec<String> = active.clone();
    proof {
        assert(texts(out@) =~= act);
    }
    let mut k: usize = 0;
    while k < current.len()
        invariant
            0 <= k <= current@.len(),
            act == activated_ids(defs@),
            texts(active@) == act,
            texts(out@) == act + kept_traits(current@.subrange(0, k as int), defs@, act),
        decreases current@.len() - k,
    {
        let e = &current[k];
        proof {
            assert(current@.subrange(0, k + 1).drop_last() =~= current@.subrange(0, k as int));
            assert(current@.subrange(0, k + 1).last() == current@[k as int]);
        }
        if !is_defined(defs, e) && !contains_text(&active, e) {
            let ghost before = out@;
            out.push(e.clone());
            proof {
                assert(texts(out@) =~= texts(before).push(e@));
            }
        }
        k = k + 1;
    }
    proof {
        assert(current@.subrange(0, current@.len() as int) =~= current@);
    }
    out
}

/// An ongoing break after one run of the system: its remaining ticks, and
/// whether it ended (the agent is then shaken).
#[derive(Debug, Clone, Copy, PartialEq, Eq, Structural)]
pub struct BreakCountdown {
    pub remaining: u32,
    pub ended: bool,
}

/// Ticks an agent stays shaken after a break ends.
pub const SHAKEN_TICKS: u32 = 48;

impl MentalBreakRuntimeSystem {
    /// Count an ongoing break down by the system's interval (capped at
    /// `u32::MAX`): it ends, with nothing remaining, once no more than the
    /// interval remains.
    pub fn count_down(&self, remaining: u32) -> (r: BreakCountdown)
        ensures
            ({
                let dec: int = if self@.tick_interval > u32::MAX { u32::MAX as int } else { self@.tick_interval as int };
                r == (if remaining > dec {
                    BreakCountdown { remaining: (remaining - dec) as u32, ended: false }
                } else {
                    BreakCountdown { remaining: 0, ended: true }
                })
            }),
    {
        let dec: u32 = if self.tick_interval > 0xffff_ffffu64 { 0xffff_ffffu32 } else { self.tick_interval as u32 };
        if remaining > dec {
            BreakCountdown { remaining: remaining - dec, ended: false }
        } else {
            BreakCountdown { remaining: 0, ended: true }
        }
    }

    /// A break starting from its type code: its kind, the agent's break
    /// count one higher (saturating), and its full duration.
    pub fn start_break(&self, code: i32, break_count: u32) -> (r: (MentalBreakType, u32, u32))
        ensures
            r.0 == (if code == 1 {
                MentalBreakType::OutrageViolence
            } else if code == 2 {
                MentalBreakType::Panic
            } else if code == 3 {
                MentalBreakType::Rage
            } else if code == 5 {
                MentalBreakType::Purge
            } else {
                MentalBreakType::Shutdown
            }),
            r.1 == (if break_count == u32::MAX { u32::MAX } else { (break_count + 1) as u32 }),
            r.2 == match r.0 {
                MentalBreakType::OutrageViolence => 24u32,
                MentalBreakType::Panic => 16u32,
                MentalBreakType::Rage => 20u32,
                MentalBreakType::Purge => 18u32,
                MentalBreakType::Shutdown => 30u32,
            },
    {
        let kind = mental_break_type_from_code(code);
        (kind, break_count.saturating_add(1), mental_break_duration_ticks(kind))
    }
}

} // verus!
