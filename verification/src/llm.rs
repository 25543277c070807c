use vstd::prelude::*;

use crate::cadence::{at_least_one, clamp_interval, Cadence};

verus! {

/// Plans narrative requests for agents and submits them.
#[derive(Debug, Clone, Copy)]
pub struct LlmRequestRuntimeSystem {
    priority: u32,
    tick_interval: u64,
}

impl View for LlmRequestRuntimeSystem {
    type V = Cadence;

    closed spec fn view(&self) -> Cadence {
        Cadence { priority: self.priority, tick_interval: self.tick_interval }
    }
}

impl LlmRequestRuntimeSystem {
    /// A system scheduled at `priority`, every `tick_interval` ticks (at least one).
    pub fn new(priority: u32, tick_interval: u64) -> (s: LlmRequestRuntimeSystem)
        ensures
            s@ == (Cadence { priority, tick_interval: at_least_one(tick_interval) }),
    {
        LlmRequestRuntimeSystem { priority, tick_interval: clamp_interval(tick_interval) }
    }

    /// Name under which the system is scheduled.
    pub fn name(&self) -> (n: &'static str)
        ensures
            n@ == "llm_request_system"@,
    {
        "llm_request_system"
    }

    /// Ticks between runs.
    pub fn tick_interval(&self) -> (t: u64)
        ensures
            t == self@.tick_interval,
    {
        self.tick_interval
    }

    /// Scheduling priority.
    pub fn priority(&self) -> (p: u32)
        ensures
            p == self@.priority,
    {
        self.priority
    }
}

/// Applies the narrative responses that have arrived.
#[derive(Debug, Clone, Copy)]
pub struct LlmResponseRuntimeSystem {
    priority: u32,
    tick_interval: u64,
}

impl View for LlmResponseRuntimeSystem {
    type V = Cadence;

    closed spec fn view(&self) -> Cadence {
        Cadence { priority: self.priority, tick_interval: self.tick_interval }
    }
}

impl LlmResponseRuntimeSystem {
    /// A system scheduled at `priority`, every `tick_interval` ticks (at least one).
    pub fn new(priority: u32, tick_interval: u64) -> (s: LlmResponseRuntimeSystem)
        ensures
            s@ == (Cadence { priority, tick_interval: at_least_one(tick_interval) }),
    {
        LlmResponseRuntimeSystem { priority, tick_interval: clamp_interval(tick_interval) }
    }

    /// Name under which the system is scheduled.
    pub fn name(&self) -> (n: &'static str)
        ensures
            n@ == "llm_response_system"@,
    {
        "llm_response_system"
    }

    /// Ticks between runs.
    pub fn tick_interval(&self) -> (t: u64)
        ensures
            t == self@.tick_interval,
    {
        self.tick_interval
    }

    /// Scheduling priority.
    pub fn priority(&self) -> (p: u32)
        ensures
            p == self@.priority,
    {
        self.priority
    }
}

/// Falls back for narrative requests that took too long.
#[derive(Debug, Clone, Copy)]
pub struct LlmTimeoutRuntimeSystem {
    priority: u32,
    tick_interval: u64,
}

impl View for LlmTimeoutRuntimeSystem {
    type V = Cadence;

    closed spec fn view(&self) -> Cadence {
        Cadence { priority: self.priority, tick_interval: self.tick_interval }
    }
}

impl LlmTimeoutRuntimeSystem {
    /// A system scheduled at `priority`, every `tick_interval` ticks (at least one).
    pub fn new(priority: u32, tick_interval: u64) -> (s: LlmTimeoutRuntimeSystem)
        ensures
            s@ == (Cadence { priority, tick_interval: at_least_one(tick_interval) }),
    {
        LlmTimeoutRuntimeSystem { priority, tick_interval: clamp_interval(tick_interval) }
    }

    /// Name under which the system is scheduled.
    pub fn name(&self) -> (n: &'static str)
        ensures
            n@ == "llm_timeout_system"@,
    {
        "llm_timeout_system"
    }

    /// Ticks between runs.
    pub fn tick_interval(&self) -> (t: u64)
        ensures
            t == self@.tick_interval,
    {
        self.tick_interval
    }

    /// Scheduling priority.
    pub fn priority(&self) -> (p: u32)
        ensures
            p == self@.priority,
    {
        self.priority
    }
}


/// How requests are handled this tick.
#[derive(Debug, Clone, Copy, PartialEq, Eq, Structural)]
pub enum LlmSubmissionStrategy {
    /// Queue one request for the model.
    Queue,
    /// Answer every request with fallback content.
    Fallback,
}

/// Queue when a model is available, else fall back.
pub fn llm_submission_strategy(llm_available: bool) -> (s: LlmSubmissionStrategy)
    ensures
        s == (if llm_available { LlmSubmissionStrategy::Queue } else { LlmSubmissionStrategy::Fallback }),
{
    if llm_available {
        LlmSubmissionStrategy::Queue
    } else {
        LlmSubmissionStrategy::Fallback
    }
}

/// Kinds of simulation event.
#[derive(Debug)]
pub enum SimEventType {
    NeedCritical,
    NeedSatisfied,
    EmotionShift,
    MoodChanged,
    StressEscalated,
    MentalBreakStart,
    MentalBreakEnd,
    RelationshipFormed,
    RelationshipBroken,
    SocialConflict,
    SocialCooperation,
    ActionChanged,
    TaskCompleted,
    Birth,
    Death,
    AgeTransition,
    FirstOccurrence,
    Custom(String),
}

/// Events worth a narrative: all but emotion shifts, mood changes and
/// custom events.
pub open spec fn is_qualifying_spec(e: SimEventType) -> bool {
    match e {
        SimEventType::EmotionShift | SimEventType::MoodChanged | SimEventType::Custom(_) => false,
        _ => true,
    }
}

/// Whether an event is worth a narrative.
pub fn is_qualifying_event(event_type: &SimEventType) -> (b: bool)
    ensures
        b == is_qualifying_spec(*event_type),
        !b <==> (*event_type == SimEventType::EmotionShift || *event_type == SimEventType::MoodChanged
            || *event_type is Custom),
        is_judgment_spec(*event_type) ==> b,
{
    match event_type {
        SimEventType::EmotionShift | SimEventType::MoodChanged | SimEventType::Custom(_) => false,
        _ => true,
    }
}

/// Events that call for a judgment: action changes, critical or
/// satisfied needs, escalated stress and the start of a mental break.
pub open spec fn is_judgment_spec(e: SimEventType) -> bool {
    match e {
        SimEventType::ActionChanged | SimEventType::NeedCritical | SimEventType::NeedSatisfied
        | SimEventType::StressEscalated | SimEventType::MentalBreakStart => true,
        _ => false,
    }
}

/// Whether an event calls for a judgment.
pub fn is_judgment_event(event_type: &SimEventType) -> (b: bool)
    ensures
        b == is_judgment_spec(*event_type),
        b <==> (*event_type == SimEventType::ActionChanged || *event_type == SimEventType::NeedCritical
            || *event_type == SimEventType::NeedSatisfied || *event_type == SimEventType::StressEscalated
            || *event_type == SimEventType::MentalBreakStart),
{
    match event_type {
        SimEventType::ActionChanged | SimEventType::NeedCritical | SimEventType::NeedSatisfied
        | SimEventType::StressEscalated | SimEventType::MentalBreakStart => true,
        _ => false,
    }
}

/// The snake-case label of an event type.
pub open spec fn label_spec(e: SimEventType) -> Seq<char> {
    match e {
        SimEventType::NeedCritical => "need_critical"@,
        SimEventType::NeedSatisfied => "need_satisfied"@,
        SimEventType::EmotionShift => "emotion_shift"@,
        SimEventType::MoodChanged => "mood_changed"@,
        SimEventType::StressEscalated => "stress_escalated"@,
        SimEventType::MentalBreakStart => "mental_break_start"@,
        SimEventType::MentalBreakEnd => "mental_break_end"@,
        SimEventType::RelationshipFormed => "relationship_formed"@,
        SimEventType::RelationshipBroken => "relationship_broken"@,
        SimEventType::SocialConflict => "social_conflict"@,
        SimEventType::SocialCooperation => "social_cooperation"@,
        SimEventType::ActionChanged => "action_changed"@,
        SimEventType::TaskCompleted => "task_completed"@,
        SimEventType::Birth => "birth"@,
        SimEventType::Death => "death"@,
        SimEventType::AgeTransition => "age_transition"@,
        SimEventType::FirstOccurrence => "first_occurrence"@,
        SimEventType::Custom(_) => "custom"@,
    }
}

/// The snake-case label of an event type.
pub fn label_for_event_type(event_type: &SimEventType) -> (l: &'static str)
    ensures
        l@ == label_spec(*event_type),
{
    match event_type {
        SimEventType::NeedCritical => "need_critical",
        SimEventType::NeedSatisfied => "need_satisfied",
        SimEventType::EmotionShift => "emotion_shift",
        SimEventType::MoodChanged => "mood_changed",
        SimEventType::StressEscalated => "stress_escalated",
        SimEventType::MentalBreakStart => "mental_break_start",
        SimEventType::MentalBreakEnd => "mental_break_end",
        SimEventType::RelationshipFormed => "relationship_formed",
        SimEventType::RelationshipBroken => "relationship_broken",
        SimEventType::SocialConflict => "social_conflict",
        SimEventType::SocialCooperation => "social_cooperation",
        SimEventType::ActionChanged => "action_changed",
        SimEventType::TaskCompleted => "task_completed",
        SimEventType::Birth => "birth",
        SimEventType::Death => "death",
        SimEventType::AgeTransition => "age_transition",
        SimEventType::FirstOccurrence => "first_occurrence",
        SimEventType::Custom(_) => "custom",
    }
}

/// Stress states, from calm to collapse.
#[derive(Debug, Clone, Copy, PartialEq, Eq, Structural)]
pub enum StressState {
    Calm,
    Alert,
    Resistance,
    Exhaustion,
    Collapse,
}

/// The code of a stress state: calm 0 up to collapse 4.
pub fn stress_state_code(state: StressState) -> (c: u8)
    ensures
        c == match state {
            StressState::Calm => 0u8,
            StressState::Alert => 1u8,
            StressState::Resistance => 2u8,
            StressState::Exhaustion => 3u8,
            StressState::Collapse => 4u8,
        },
{
    match state {
        StressState::Calm => 0,
        StressState::Alert => 1,
        StressState::Resistance => 2,
        StressState::Exhaustion => 3,
        StressState::Collapse => 4,
    }
}

/// What an agent's narrative cache holds, and since when.
#[derive(Debug, Clone, Copy, PartialEq, Eq, Structural)]
pub struct NarrativeCacheView {
    pub has_personality_desc: bool,
    pub has_last_event_narrative: bool,
    pub has_last_inner_monologue: bool,
    pub cache_tick: u64,
    pub cache_ttl_ticks: u32,
}

/// The cache holds some text.
pub open spec fn cache_has_text(c: NarrativeCacheView) -> bool {
    c.has_personality_desc || c.has_last_event_narrative || c.has_last_inner_monologue
}

/// Whether the cache holds some text.
pub fn cache_has_any_text(cache: &NarrativeCacheView) -> (b: bool)
    ensures
        b == cache_has_text(*cache),
{
    cache.has_personality_desc || cache.has_last_event_narrative || cache.has_last_inner_monologue
}

/// The fields of a narrative cache.
#[derive(Debug, Clone, Copy, PartialEq, Eq, Structural)]
pub enum CacheField {
    PersonalityDesc,
    LastEventNarrative,
    LastInnerMonologue,
}

/// Whether the cache holds the field.
pub open spec fn has_field(c: NarrativeCacheView, f: CacheField) -> bool {
    match f {
        CacheField::PersonalityDesc => c.has_personality_desc,
        CacheField::LastEventNarrative => c.has_last_event_narrative,
        CacheField::LastInnerMonologue => c.has_last_inner_monologue,
    }
}

/// `a - b`, or 0 below zero.
pub open spec fn sat_sub_u64(a: u64, b: u64) -> u64 {
    if a >= b { (a - b) as u64 } else { 0u64 }
}

/// A cached field is stale when there is no cache, the field is missing,
/// or the cache is at least its time-to-live old.
pub open spec fn stale_spec(cache: Option<NarrativeCacheView>, tick: u64, f: CacheField) -> bool {
    match cache {
        Some(c) => !has_field(c, f) || sat_sub_u64(tick, c.cache_tick) >= c.cache_ttl_ticks,
        None => true,
    }
}

/// Whether a cached field is stale at `tick`.
pub fn cache_field_stale(cache: Option<&NarrativeCacheView>, tick: u64, f: CacheField) -> (b: bool)
    ensures
        b == stale_spec(match cache { Some(c) => Some(*c), None => None }, tick, f),
        cache is None ==> b,
        cache matches Some(c) ==> (b <==> ({
            let present = match f {
                CacheField::PersonalityDesc => c.has_personality_desc,
                CacheField::LastEventNarrative => c.has_last_event_narrative,
                CacheField::LastInnerMonologue => c.has_last_inner_monologue,
            };
            !present || (if tick >= c.cache_tick { tick - c.cache_tick } else { 0 }) >= c.cache_ttl_ticks
        })),
{
    match cache {
        Some(c) => {
            let present = match f {
                CacheField::PersonalityDesc => c.has_personality_desc,
                CacheField::LastEventNarrative => c.has_last_event_narrative,
                CacheField::LastInnerMonologue => c.has_last_inner_monologue,
            };
            !present || tick.saturating_sub(c.cache_tick) >= c.cache_ttl_ticks as u64
        },
        None => true,
    }
}

/// The latest qualifying event of an agent: its type, cause and the name
/// of its target, if known.
#[derive(Debug)]
pub struct RecentEventInfo {
    pub event_type: SimEventType,
    pub cause: String,
    pub target_name: Option<String>,
}

/// Layers of narrative request.
#[derive(Debug, Clone, Copy, PartialEq, Eq, Structural)]
pub enum LlmRequestType {
    Layer3Judgment,
    Layer4Narrative,
}

/// Prompt variants.
#[derive(Debug, Clone, Copy, PartialEq, Eq, Structural)]
pub enum LlmPromptVariant {
    Personality,
    Judgment,
    Narrative,
}

/// A planned request.
#[derive(Debug)]
pub struct RequestPlan {
    pub request_type: LlmRequestType,
    pub variant: LlmPromptVariant,
    pub recent_event_type: Option<String>,
    pub recent_event_cause: Option<String>,
    pub recent_target_name: Option<String>,
}

/// Which request an agent needs.
#[derive(Debug, Clone, Copy, PartialEq, Eq, Structural)]
pub enum PlanKind {
    /// A description of its personality.
    Personality,
    /// A judgment of its recent event.
    Judgment,
    /// A narrative of its recent event.
    EventNarrative,
    /// An inner monologue.
    Monologue,
}

/// The request an agent needs, if any. Without a recent event nothing is
/// planned unless prefilling is allowed. A stale personality comes first;
/// then a judgment event, then a stale event narrative (both only with an
/// event); then a stale monologue.
pub open spec fn plan_kind_spec(
    cache: Option<NarrativeCacheView>,
    event: Option<SimEventType>,
    tick: u64,
    allow_prefill_without_event: bool,
) -> Option<PlanKind> {
    if event is None && !allow_prefill_without_event {
        None
    } else if stale_spec(cache, tick, CacheField::PersonalityDesc) {
        Some(PlanKind::Personality)
    } else if event is Some && is_judgment_spec(event.unwrap()) {
        Some(PlanKind::Judgment)
    } else if event is Some && stale_spec(cache, tick, CacheField::LastEventNarrative) {
        Some(PlanKind::EventNarrative)
    } else if stale_spec(cache, tick, CacheField::LastInnerMonologue) {
        Some(PlanKind::Monologue)
    } else {
        None
    }
}

/// The view of an optional string.
pub open spec fn opt_str(o: Option<String>) -> Option<Seq<char>> {
    match o {
        Some(s) => Some(s@),
        None => None,
    }
}

/// The plan carries what its kind calls for: the request layer and prompt,
/// and, for a plan about the recent event, the event's label, its cause
/// (none when empty) and its target's name.
pub open spec fn plan_matches(p: RequestPlan, kind: PlanKind, event: Option<&RecentEventInfo>) -> bool {
    match kind {
        PlanKind::Personality | PlanKind::Monologue => {
            &&& p.request_type == LlmRequestType::Layer4Narrative
            &&& p.variant == (if kind == PlanKind::Personality { LlmPromptVariant::Personality } else { LlmPromptVariant::Narrative })
            &&& p.recent_event_type is None && p.recent_event_cause is None && p.recent_target_name is None
        },
        PlanKind::Judgment | PlanKind::EventNarrative => {
            let e = event.unwrap();
            &&& p.request_type == (if kind == PlanKind::Judgment { LlmRequestType::Layer3Judgment } else { LlmRequestType::Layer4Narrative })
            &&& p.variant == (if kind == PlanKind::Judgment { LlmPromptVariant::Judgment } else { LlmPromptVariant::Narrative })
            &&& opt_str(p.recent_event_type) == Some(label_spec(e.event_type))
            &&& opt_str(p.recent_event_cause) == (if e.cause@.len() == 0 { None } else { Some(e.cause@) })
            &&& opt_str(p.recent_target_name) == opt_str(e.target_name)
        },
    }
}

/// The event type of an optional recent event.
pub open spec fn event_type_of(event: Option<&RecentEventInfo>) -> Option<SimEventType> {
    match event {
        Some(e) => Some(e.event_type),
        None => None,
    }
}

/// The view of an optional cache.
pub open spec fn cache_of(cache: Option<&NarrativeCacheView>) -> Option<NarrativeCacheView> {
    match cache {
        Some(c) => Some(*c),
        None => None,
    }
}

/// A plan about the recent event.
fn event_plan(request_type: LlmRequestType, variant: LlmPromptVariant, e: &RecentEventInfo) -> (p: RequestPlan)
    ensures
        p.request_type == request_type && p.variant == variant,
        opt_str(p.recent_event_type) == Some(label_spec(e.event_type)),
        opt_str(p.recent_event_cause) == (if e.cause@.len() == 0 { None } else { Some(e.cause@) }),
        opt_str(p.recent_target_name) == opt_str(e.target_name),
{
    let label = label_for_event_type(&e.event_type).to_owned();
    let cause = if e.cause.as_str().is_empty() { None } else { Some(e.cause.clone()) };
    let target = match &e.target_name {
        Some(n) => Some(n.clone()),
        None => None,
    };
    RequestPlan { request_type, variant, recent_event_type: Some(label), recent_event_cause: cause, recent_target_name: target }
}

/// A plan that carries no event.
fn bare_plan(variant: LlmPromptVariant) -> (p: RequestPlan)
    ensures
        p.request_type == LlmRequestType::Layer4Narrative && p.variant == variant,
        p.recent_event_type is None && p.recent_event_cause is None && p.recent_target_name is None,
{
    RequestPlan {
        request_type: LlmRequestType::Layer4Narrative,
        variant,
        recent_event_type: None,
        recent_event_cause: None,
        recent_target_name: None,
    }
}

/// The request an agent needs at `tick`, if any (see [`plan_kind_spec`]).
pub fn plan_request(
    cache: Option<&NarrativeCacheView>,
    recent_event: Option<&RecentEventInfo>,
    tick: u64,
    allow_prefill_without_event: bool,
) -> (plan: Option<RequestPlan>)
    ensures
        match plan_kind_spec(cache_of(cache), event_type_of(recent_event), tick, allow_prefill_without_event) {
            Some(kind) => plan is Some && plan_matches(plan.unwrap(), kind, recent_event),
            None => plan is None,
        },
        recent_event is None && !allow_prefill_without_event ==> plan is None,
        (recent_event is Some || allow_prefill_without_event) && stale_spec(cache_of(cache), tick, CacheField::PersonalityDesc)
            ==> (plan matches Some(p) && p.variant == LlmPromptVariant::Personality),
        plan matches Some(p) ==> (p.variant == LlmPromptVariant::Personality
            <==> stale_spec(cache_of(cache), tick, CacheField::PersonalityDesc)),
        plan matches Some(p) ==> (p.variant == LlmPromptVariant::Judgment ==> p.request_type == LlmRequestType::Layer3Judgment),
        plan matches Some(p) && p.variant == LlmPromptVariant::Judgment ==> (recent_event matches Some(e)
            && is_judgment_spec(e.event_type)),
        plan matches Some(p) && p.recent_event_type is Some ==> recent_event is Some,
        plan matches Some(p) && p.variant == LlmPromptVariant::Narrative && p.recent_event_type is Some
            ==> stale_spec(cache_of(cache), tick, CacheField::LastEventNarrative),
        plan matches Some(p) && p.variant == LlmPromptVariant::Narrative && p.recent_event_type is None
            ==> stale_spec(cache_of(cache), tick, CacheField::LastInnerMonologue),
        (recent_event is Some || allow_prefill_without_event) && stale_spec(cache_of(cache), tick, CacheField::LastInnerMonologue)
            ==> plan is Some,
{
    if recent_event.is_none() && !allow_prefill_without_event {
        return None;
    }
    if cache_field_stale(cache, tick, CacheField::PersonalityDesc) {
        return Some(bare_plan(LlmPromptVariant::Personality));
    }
    match recent_event {
        Some(e) => {
            if is_judgment_event(&e.event_type) {
                return Some(event_plan(LlmRequestType::Layer3Judgment, LlmPromptVariant::Judgment, e));
            }
            if cache_field_stale(cache, tick, CacheField::LastEventNarrative) {
                return Some(event_plan(LlmRequestType::Layer4Narrative, LlmPromptVariant::Narrative, e));
            }
        },
        None => {},
    }
    if cache_field_stale(cache, tick, CacheField::LastInnerMonologue) {
        return Some(bare_plan(LlmPromptVariant::Narrative));
    }
    None
}


/// An agent able to request narratives, as the request system sees it:
/// whether a request is pending, whether it has a result, its cache, when
/// it last requested, its cooldown, and its latest qualifying event within
/// the lookback window.
#[derive(Debug)]
pub struct LlmCandidate {
    pub pending: bool,
    pub has_result: bool,
    pub cache: Option<NarrativeCacheView>,
    pub last_request_tick: u64,
    pub cooldown_ticks: u32,
    pub recent_event: Option<RecentEventInfo>,
}

/// How far back to look for an agent's recent event: its cooldown, but at
/// least 60 ticks.
pub fn lookback_ticks(cooldown_ticks: u32) -> (t: u64)
    ensures
        t == (if cooldown_ticks >= 60 { cooldown_ticks as u64 } else { 60u64 }),
{
    if cooldown_ticks >= 60 { cooldown_ticks as u64 } else { 60 }
}

/// The agent is still cooling down: it has had a result or cached text and
/// its cooldown has not passed since its last request.
pub open spec fn cooling_down(c: LlmCandidate, tick: u64) -> bool {
    let enforce = c.has_result || (c.cache is Some && cache_has_text(c.cache.unwrap()));
    enforce && sat_sub_u64(tick, c.last_request_tick) < c.cooldown_ticks
}

/// The request the candidate gets at `tick`, if it gets one.
pub open spec fn candidate_plan(c: LlmCandidate, tick: u64, allow_prefill: bool) -> Option<PlanKind> {
    if c.pending || cooling_down(c, tick) {
        None
    } else {
        plan_kind_spec(c.cache, match c.recent_event { Some(e) => Some(e.event_type), None => None }, tick, allow_prefill)
    }
}

/// The optional recent event of a candidate, by reference.
pub open spec fn event_ref(c: &LlmCandidate) -> Option<&RecentEventInfo> {
    match &c.recent_event {
        Some(e) => Some(e),
        None => None,
    }
}

impl LlmRequestRuntimeSystem {
    /// Choose this tick's requests. With a model available only the first
    /// candidate (in order) that gets a request is chosen; without one,
    /// every such candidate is, prefilling agents without a recent event.
    /// Returns each chosen candidate's index with its plan, in order.
    pub fn select_requests(&self, candidates: &Vec<LlmCandidate>, tick: u64, llm_available: bool) -> (chosen: Vec<(usize, RequestPlan)>)
        ensures
            forall|k: int| 0 <= k < chosen@.len() ==> {
                let (i, p) = #[trigger] chosen@[k];
                &&& i < candidates@.len()
                &&& candidate_plan(candidates@[i as int], tick, !llm_available) is Some
                &&& plan_matches(p, candidate_plan(candidates@[i as int], tick, !llm_available).unwrap(), event_ref(&candidates@[i as int]))
            },
            forall|a: int, b: int| 0 <= a < b < chosen@.len() ==> #[trigger] chosen@[a].0 < #[trigger] chosen@[b].0,
            !llm_available ==> forall|i: int| 0 <= i < candidates@.len() && #[trigger] candidate_plan(candidates@[i], tick, true) is Some
                ==> exists|k: int| 0 <= k < chosen@.len() && chosen@[k].0 == i,
            llm_available ==> chosen@.len() <= 1,
            llm_available ==> forall|i: int| 0 <= i < candidates@.len() && #[trigger] candidate_plan(candidates@[i], tick, false) is Some
                ==> chosen@.len() == 1 && chosen@[0].0 <= i,
    {
        let strategy = llm_submission_strategy(llm_available);
        let allow_prefill = strategy == LlmSubmissionStrategy::Fallback;
        let mut chosen: Vec<(usize, RequestPlan)> = Vec::new();
        let mut i: usize = 0;
        while i < candidates.len()
            invariant
                0 <= i <= candidates@.len(),
                allow_prefill == !llm_available,
                forall|k: int| 0 <= k < chosen@.len() ==> {
                    let (j, p) = #[trigger] chosen@[k];
                    &&& j < i
                    &&& candidate_plan(candidates@[j as int], tick, !llm_available) is Some
                    &&& plan_matches(p, candidate_plan(candidates@[j as int], tick, !llm_available).unwrap(), event_ref(&candidates@[j as int]))
                },
                forall|a: int, b: int| 0 <= a < b < chosen@.len() ==> #[trigger] chosen@[a].0 < #[trigger] chosen@[b].0,
                !llm_available ==> forall|j: int| 0 <= j < i && #[trigger] candidate_plan(candidates@[j], tick, true) is Some
                    ==> exists|k: int| 0 <= k < chosen@.len() && chosen@[k].0 == j,
                llm_available ==> chosen@.len() == 0,
                llm_available ==> forall|j: int| 0 <= j < i ==> #[trigger] candidate_plan(candidates@[j], tick, false) is None,
            decreases candidates@.len() - i,
        {
            let c = &candidates[i];
            let enforce = c.has_result || match &c.cache {
                Some(cache) => cache_has_any_text(cache),
                None => false,
            };
            let cooling = enforce && tick.saturating_sub(c.last_request_tick) < c.cooldown_ticks as u64;
            if !c.pending && !cooling {
                let cache_ref = match &c.cache {
                    Some(cache) => Some(cache),
                    None => None,
                };
                let event = match &c.recent_event {
                    Some(e) => Some(e),
                    None => None,
                };
                let plan = plan_request(cache_ref, event, tick, allow_prefill);
                match plan {
                    Some(p) => {
                        let ghost before = chosen@;
                        chosen.push((i, p));
                        proof {
                            assert forall|j: int| 0 <= j < i + 1 && !llm_available && #[trigger] candidate_plan(candidates@[j], tick, true) is Some
                                implies exists|k: int| 0 <= k < chosen@.len() && chosen@[k].0 == j by {
                                if j == i {
                                    assert(chosen@[chosen@.len() - 1].0 == j);
                                } else {
                                    let k = choose|k: int| 0 <= k < before.len() && before[k].0 == j;
                                    assert(chosen@[k] == before[k]);
                                }
                            }
                        }
                        if llm_available {
                            return chosen;
                        }
                    },
                    None => {},
                }
            }
            i = i + 1;
        }
        chosen
    }
}


/// A pending request has timed out: more than its timeout has passed since
/// it was submitted.
pub fn request_expired(tick: u64, submitted_tick: u64, timeout_ticks: u32) -> (b: bool)
    ensures
        b == (sat_sub_u64(tick, submitted_tick) > timeout_ticks),
{
    tick.saturating_sub(submitted_tick) > timeout_ticks as u64
}

impl LlmTimeoutRuntimeSystem {
    /// The pending requests, as `(submitted tick, timeout)` pairs, that
    /// have expired at `tick`, by position, in order.
    pub fn expired_requests(&self, pending: &Vec<(u64, u32)>, tick: u64) -> (out: Vec<usize>)
        ensures
            forall|a: int, b: int| 0 <= a < b < out@.len() ==> #[trigger] out@[a] < #[trigger] out@[b],
            forall|k: int| 0 <= k < out@.len() ==> (#[trigger] out@[k]) < pending@.len()
                && sat_sub_u64(tick, pending@[out@[k] as int].0) > pending@[out@[k] as int].1,
            forall|i: int| 0 <= i < pending@.len() && sat_sub_u64(tick, (#[trigger] pending@[i]).0) > pending@[i].1
                ==> out@.contains(i as usize),
    {
        let mut out: Vec<usize> = Vec::new();
        let mut i: usize = 0;
        while i < pending.len()
            invariant
                0 <= i <= pending@.len(),
                forall|a: int, b: int| 0 <= a < b < out@.len() ==> #[trigger] out@[a] < #[trigger] out@[b],
                forall|k: int| 0 <= k < out@.len() ==> (#[trigger] out@[k]) < i
                    && sat_sub_u64(tick, pending@[out@[k] as int].0) > pending@[out@[k] as int].1,
                forall|j: int| 0 <= j < i && sat_sub_u64(tick, (#[trigger] pending@[j]).0) > pending@[j].1
                    ==> out@.contains(j as usize),
            decreases pending@.len() - i,
        {
            let (submitted, timeout) = pending[i];
            if request_expired(tick, submitted, timeout) {
                let ghost before = out@;
                out.push(i);
                proof {
                    assert forall|j: int| 0 <= j < i + 1 && sat_sub_u64(tick, (#[trigger] pending@[j]).0) > pending@[j].1
                        implies out@.contains(j as usize) by {
                        if j < i {
                            let k = choose|k: int| 0 <= k < before.len() && before[k] == j as usize;
                            assert(out@[k] == j as usize);
                        } else {
                            assert(out@[out@.len() - 1] == j as usize);
                        }
                    }
                }
            }
            i = i + 1;
        }
        out
    }
}

/// Which cache field a narrative fills: a personality narrative the
/// personality description; any other narrative the event narrative when
/// the request carried a recent event, else the inner monologue. A
/// judgment fills none.
pub open spec fn narrative_slot_spec(variant: LlmPromptVariant, has_recent_event: bool) -> Option<CacheField> {
    match variant {
        LlmPromptVariant::Personality => Some(CacheField::PersonalityDesc),
        LlmPromptVariant::Narrative => if has_recent_event {
            Some(CacheField::LastEventNarrative)
        } else {
            Some(CacheField::LastInnerMonologue)
        },
        LlmPromptVariant::Judgment => None,
    }
}

/// Which cache field a narrative fills.
pub fn narrative_slot(variant: LlmPromptVariant, has_recent_event: bool) -> (f: Option<CacheField>)
    ensures
        f == narrative_slot_spec(variant, has_recent_event),
        f is None <==> variant == LlmPromptVariant::Judgment,
        variant == LlmPromptVariant::Personality ==> f == Some(CacheField::PersonalityDesc),
        variant == LlmPromptVariant::Narrative && has_recent_event ==> f == Some(CacheField::LastEventNarrative),
        variant == LlmPromptVariant::Narrative && !has_recent_event ==> f == Some(CacheField::LastInnerMonologue),
{
    match variant {
        LlmPromptVariant::Personality => Some(CacheField::PersonalityDesc),
        LlmPromptVariant::Narrative => if has_recent_event {
            Some(CacheField::LastEventNarrative)
        } else {
            Some(CacheField::LastInnerMonologue)
        },
        LlmPromptVariant::Judgment => None,
    }
}

/// An empty cache with the given time-to-live.
pub open spec fn empty_cache(ttl: u32) -> NarrativeCacheView {
    NarrativeCacheView {
        has_personality_desc: false,
        has_last_event_narrative: false,
        has_last_inner_monologue: false,
        cache_tick: 0,
        cache_ttl_ticks: ttl,
    }
}

/// The cache after a narrative arrives at `tick` for `slot`: the cache (a
/// fresh empty one with the default time-to-live if there was none) is
/// stamped with `tick` and the slot is filled. A judgment (no narrative
/// text) leaves the cache as it was.
pub open spec fn cache_after_spec(
    cache: Option<NarrativeCacheView>,
    is_narrative: bool,
    slot: Option<CacheField>,
    tick: u64,
    default_ttl_ticks: u32,
) -> Option<NarrativeCacheView> {
    if !is_narrative {
        cache
    } else {
        let base = match cache {
            Some(old) => old,
            None => empty_cache(default_ttl_ticks),
        };
        Some(NarrativeCacheView {
            cache_tick: tick,
            has_personality_desc: base.has_personality_desc || slot == Some(CacheField::PersonalityDesc),
            has_last_event_narrative: base.has_last_event_narrative || slot == Some(CacheField::LastEventNarrative),
            has_last_inner_monologue: base.has_last_inner_monologue || slot == Some(CacheField::LastInnerMonologue),
            ..base
        })
    }
}

/// Cache law: a narrative writes only its own slot and the stamp; every
/// other slot of an existing cache keeps its value, a filled slot stays
/// filled, and the cache's lifetime is kept.
pub proof fn lemma_narrative_keeps_other_slots(
    old_cache: NarrativeCacheView,
    slot: Option<CacheField>,
    tick: u64,
    default_ttl_ticks: u32,
)
    ensures
        cache_after_spec(Some(old_cache), true, slot, tick, default_ttl_ticks) matches Some(n) && {
            &&& n.cache_tick == tick
            &&& n.cache_ttl_ticks == old_cache.cache_ttl_ticks
            &&& slot != Some(CacheField::PersonalityDesc) ==> n.has_personality_desc == old_cache.has_personality_desc
            &&& slot != Some(CacheField::LastEventNarrative) ==> n.has_last_event_narrative == old_cache.has_last_event_narrative
            &&& slot != Some(CacheField::LastInnerMonologue) ==> n.has_last_inner_monologue == old_cache.has_last_inner_monologue
            &&& old_cache.has_personality_desc ==> n.has_personality_desc
            &&& old_cache.has_last_event_narrative ==> n.has_last_event_narrative
            &&& old_cache.has_last_inner_monologue ==> n.has_last_inner_monologue
            &&& slot == Some(CacheField::PersonalityDesc) ==> n.has_personality_desc
            &&& slot == Some(CacheField::LastEventNarrative) ==> n.has_last_event_narrative
            &&& slot == Some(CacheField::LastInnerMonologue) ==> n.has_last_inner_monologue
        },
{
}

/// The cache after a narrative arrives (see [`cache_after_spec`]).
pub fn cache_after_narrative(
    cache: Option<NarrativeCacheView>,
    is_narrative: bool,
    slot: Option<CacheField>,
    tick: u64,
    default_ttl_ticks: u32,
) -> (c: Option<NarrativeCacheView>)
    ensures
        c == cache_after_spec(cache, is_narrative, slot, tick, default_ttl_ticks),
        !is_narrative ==> c == cache,
        is_narrative ==> (c matches Some(n) && {
            &&& n.cache_tick == tick
            &&& n.cache_ttl_ticks == (match cache { Some(o) => o.cache_ttl_ticks, None => default_ttl_ticks })
            &&& n.has_personality_desc == ((cache matches Some(o) && o.has_personality_desc)
                || slot == Some(CacheField::PersonalityDesc))
            &&& n.has_last_event_narrative == ((cache matches Some(o) && o.has_last_event_narrative)
                || slot == Some(CacheField::LastEventNarrative))
            &&& n.has_last_inner_monologue == ((cache matches Some(o) && o.has_last_inner_monologue)
                || slot == Some(CacheField::LastInnerMonologue))
        }),
{
    if !is_narrative {
        return cache;
    }
    let mut n = match cache {
        Some(old) => old,
        None => NarrativeCacheView {
            has_personality_desc: false,
            has_last_event_narrative: false,
            has_last_inner_monologue: false,
            cache_tick: 0,
            cache_ttl_ticks: default_ttl_ticks,
        },
    };
    n.cache_tick = tick;
    match slot {
        Some(CacheField::PersonalityDesc) => n.has_personality_desc = true,
        Some(CacheField::LastEventNarrative) => n.has_last_event_narrative = true,
        Some(CacheField::LastInnerMonologue) => n.has_last_inner_monologue = true,
        None => {},
    }
    Some(n)
}


/// A narrative just stored for a field keeps that field fresh: until its
/// time-to-live has passed, the field is not stale, so a personality that
/// just arrived is not requested again.
pub proof fn lemma_stored_narrative_is_fresh(
    cache: Option<NarrativeCacheView>,
    f: CacheField,
    tick: u64,
    later: u64,
    default_ttl_ticks: u32,
)
    requires
        ({
            let c = cache_after_spec(cache, true, Some(f), tick, default_ttl_ticks);
            sat_sub_u64(later, tick) < c.unwrap().cache_ttl_ticks
        }),
    ensures
        !stale_spec(cache_after_spec(cache, true, Some(f), tick, default_ttl_ticks), later, f),
        f == CacheField::PersonalityDesc ==> forall|event: Option<SimEventType>, prefill: bool|
            #[trigger] plan_kind_spec(cache_after_spec(cache, true, Some(f), tick, default_ttl_ticks), event, later, prefill)
                != Some(PlanKind::Personality),
{
}


/// A request waiting for the model.
#[derive(Debug, Clone, Copy, PartialEq, Eq, Structural)]
pub struct PendingRequest {
    pub request_id: u64,
    pub request_type: LlmRequestType,
    pub submitted_tick: u64,
    pub timeout_ticks: u32,
}

/// What submitting a chosen request to the model gave.
#[derive(Debug, Clone, Copy, PartialEq, Eq, Structural)]
pub enum SubmitOutcome {
    /// The request was queued under this id.
    Queued { request_id: u64 },
    /// The model turned out to be unavailable.
    Unavailable,
    /// The queue was full.
    QueueFull,
    /// Any other failure.
    Failed,
}

/// An agent's narrative state after one of its requests is handled.
#[derive(Debug, Clone, Copy)]
pub struct CandidateUpdate {
    /// The request now pending, if any.
    pub pending: Option<PendingRequest>,
    /// A result (model or fallback) was stored now.
    pub stored_result: bool,
    /// The agent holds a result.
    pub has_result: bool,
    pub cache: Option<NarrativeCacheView>,
    pub last_request_tick: u64,
}

/// The state after a fallback result is stored at `tick`: the result is
/// held, the request tick is now, and a narrative fills the slot its plan
/// names (see [`cache_after_spec`]).
pub open spec fn fallback_update(c: &LlmCandidate, plan: &RequestPlan, fallback_is_narrative: bool, tick: u64, default_ttl_ticks: u32) -> CandidateUpdate {
    CandidateUpdate {
        pending: None,
        stored_result: true,
        has_result: true,
        cache: cache_after_spec(c.cache, fallback_is_narrative,
            narrative_slot_spec(plan.variant, plan.recent_event_type is Some), tick, default_ttl_ticks),
        last_request_tick: tick,
    }
}

/// What handling a chosen request does to its agent: without a model, or
/// when the model turns out to be unavailable, a fallback result is stored
/// at once; a queued request becomes pending (from `tick`, with
/// `timeout_ticks`) and restarts the agent's cooldown; a full queue or
/// another failure changes nothing.
pub open spec fn submission_spec(
    c: &LlmCandidate,
    plan: &RequestPlan,
    llm_available: bool,
    outcome: SubmitOutcome,
    fallback_is_narrative: bool,
    tick: u64,
    timeout_ticks: u32,
    default_ttl_ticks: u32,
) -> CandidateUpdate {
    let unchanged = CandidateUpdate {
        pending: None,
        stored_result: false,
        has_result: c.has_result,
        cache: c.cache,
        last_request_tick: c.last_request_tick,
    };
    if !llm_available {
        fallback_update(c, plan, fallback_is_narrative, tick, default_ttl_ticks)
    } else {
        match outcome {
            SubmitOutcome::Queued { request_id } => CandidateUpdate {
                pending: Some(PendingRequest { request_id, request_type: plan.request_type, submitted_tick: tick, timeout_ticks }),
                last_request_tick: tick,
                ..unchanged
            },
            SubmitOutcome::Unavailable => fallback_update(c, plan, fallback_is_narrative, tick, default_ttl_ticks),
            _ => unchanged,
        }
    }
}

/// What handling a chosen request does to its agent (see
/// [`submission_spec`]). `outcome` is read only when a model is available;
/// `fallback_is_narrative` says whether the fallback content for the plan
/// is a narrative.
pub fn after_submission(
    c: &LlmCandidate,
    plan: &RequestPlan,
    llm_available: bool,
    outcome: SubmitOutcome,
    fallback_is_narrative: bool,
    tick: u64,
    timeout_ticks: u32,
    default_ttl_ticks: u32,
) -> (r: CandidateUpdate)
    ensures
        r == submission_spec(c, plan, llm_available, outcome, fallback_is_narrative, tick, timeout_ticks, default_ttl_ticks),
        (!llm_available || outcome == SubmitOutcome::Unavailable) ==> {
            &&& r.pending is None && r.stored_result && r.has_result && r.last_request_tick == tick
            &&& r.cache == cache_after_spec(c.cache, fallback_is_narrative,
                narrative_slot_spec(plan.variant, plan.recent_event_type is Some), tick, default_ttl_ticks)
        },
        llm_available ==> match outcome {
            SubmitOutcome::Queued { request_id } => {
                &&& r.pending == Some(PendingRequest { request_id, request_type: plan.request_type, submitted_tick: tick, timeout_ticks })
                &&& !r.stored_result && r.has_result == c.has_result && r.cache == c.cache && r.last_request_tick == tick
            },
            _ => true,
        },
        llm_available && (outcome == SubmitOutcome::QueueFull || outcome == SubmitOutcome::Failed) ==> {
            &&& r.pending is None && !r.stored_result
            &&& r.has_result == c.has_result && r.cache == c.cache && r.last_request_tick == c.last_request_tick
        },
        r.pending is Some ==> !r.stored_result,
        r.stored_result ==> r.pending is None && r.has_result && r.last_request_tick == tick,
{
    let unchanged = CandidateUpdate {
        pending: None,
        stored_result: false,
        has_result: c.has_result,
        cache: c.cache,
        last_request_tick: c.last_request_tick,
    };
    let strategy = llm_submission_strategy(llm_available);
    let fallback = strategy == LlmSubmissionStrategy::Fallback || outcome == SubmitOutcome::Unavailable;
    if fallback {
        let has_event = plan.recent_event_type.is_some();
        let slot = narrative_slot(plan.variant, has_event);
        let cache = cache_after_narrative(c.cache, fallback_is_narrative, slot, tick, default_ttl_ticks);
        return CandidateUpdate { pending: None, stored_result: true, has_result: true, cache, last_request_tick: tick };
    }
    match outcome {
        SubmitOutcome::Queued { request_id } => CandidateUpdate {
            pending: Some(PendingRequest { request_id, request_type: plan.request_type, submitted_tick: tick, timeout_ticks }),
            stored_result: false,
            has_result: c.has_result,
            cache: c.cache,
            last_request_tick: tick,
        },
        _ => unchanged,
    }
}

/// What an arrived response (or a timeout's fallback) does to its agent:
/// the request is no longer pending, the result is stored, and a narrative
/// fills the slot its request named; the request tick is untouched.
pub fn after_response(
    c: &LlmCandidate,
    variant: LlmPromptVariant,
    had_recent_event: bool,
    is_narrative: bool,
    tick: u64,
    default_ttl_ticks: u32,
) -> (r: CandidateUpdate)
    ensures
        r == (CandidateUpdate {
            pending: None,
            stored_result: true,
            has_result: true,
            cache: cache_after_spec(c.cache, is_narrative, narrative_slot_spec(variant, had_recent_event), tick, default_ttl_ticks),
            last_request_tick: c.last_request_tick,
        }),
{
    let slot = narrative_slot(variant, had_recent_event);
    let cache = cache_after_narrative(c.cache, is_narrative, slot, tick, default_ttl_ticks);
    CandidateUpdate { pending: None, stored_result: true, has_result: true, cache, last_request_tick: c.last_request_tick }
}


/// The candidate an agent becomes after an update.
pub open spec fn updated_candidate(c: LlmCandidate, u: CandidateUpdate) -> LlmCandidate {
    LlmCandidate {
        pending: u.pending is Some,
        has_result: u.has_result,
        cache: u.cache,
        last_request_tick: u.last_request_tick,
        ..c
    }
}

/// An agent whose request was just handled (queued, or answered with a
/// fallback) gets no new request until its cooldown has passed.
pub proof fn lemma_handled_agent_waits(
    c: LlmCandidate,
    plan: RequestPlan,
    llm_available: bool,
    outcome: SubmitOutcome,
    fallback_is_narrative: bool,
    tick: u64,
    timeout_ticks: u32,
    default_ttl_ticks: u32,
    later: u64,
    allow_prefill: bool,
)
    requires
        tick <= later < tick + c.cooldown_ticks,
        ({
            let u = submission_spec(&c, &plan, llm_available, outcome, fallback_is_narrative, tick, timeout_ticks, default_ttl_ticks);
            u.stored_result || u.pending is Some
        }),
    ensures
        candidate_plan(
            updated_candidate(c, submission_spec(&c, &plan, llm_available, outcome, fallback_is_narrative, tick, timeout_ticks, default_ttl_ticks)),
            later,
            allow_prefill,
        ) is None,
{
}

} // verus!
