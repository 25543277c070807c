use vstd::prelude::*;

use crate::cadence::{at_least_one, clamp_interval, Cadence};
use crate::text::str_eq;

verus! {

/// Recomputes the derived stats of every agent.
#[derive(Debug, Clone, Copy)]
pub struct StatSyncRuntimeSystem {
    priority: u32,
    tick_interval: u64,
}

impl View for StatSyncRuntimeSystem {
    type V = Cadence;

    closed spec fn view(&self) -> Cadence {
        Cadence { priority: self.priority, tick_interval: self.tick_interval }
    }
}

impl StatSyncRuntimeSystem {
    /// A system scheduled at `priority`, every `tick_interval` ticks (at least one).
    pub fn new(priority: u32, tick_interval: u64) -> (s: StatSyncRuntimeSystem)
        ensures
            s@ == (Cadence { priority, tick_interval: at_least_one(tick_interval) }),
    {
        StatSyncRuntimeSystem { priority, tick_interval: clamp_interval(tick_interval) }
    }

    /// Name under which the system is scheduled.
    pub fn name(&self) -> (n: &'static str)
        ensures
            n@ == "stat_sync_system"@,
    {
        "stat_sync_system"
    }

    /// Ticks between runs.
    pub fn tick_interval(&self) -> (t: u64)
        ensures
            t == self@.tick_interval,
    {
        self.tick_interval
    }

    /// Scheduling priority.
    pub fn priority(&self) -> (p: u32)
        ensures
            p == self@.priority,
    {
        self.priority
    }
}

/// Raises flags for stats past their thresholds.
#[derive(Debug, Clone, Copy)]
pub struct StatThresholdRuntimeSystem {
    priority: u32,
    tick_interval: u64,
}

impl View for StatThresholdRuntimeSystem {
    type V = Cadence;

    closed spec fn view(&self) -> Cadence {
        Cadence { priority: self.priority, tick_interval: self.tick_interval }
    }
}

impl StatThresholdRuntimeSystem {
    /// A system scheduled at `priority`, every `tick_interval` ticks (at least one).
    pub fn new(priority: u32, tick_interval: u64) -> (s: StatThresholdRuntimeSystem)
        ensures
            s@ == (Cadence { priority, tick_interval: at_least_one(tick_interval) }),
    {
        StatThresholdRuntimeSystem { priority, tick_interval: clamp_interval(tick_interval) }
    }

    /// Name under which the system is scheduled.
    pub fn name(&self) -> (n: &'static str)
        ensures
            n@ == "stat_threshold_system"@,
    {
        "stat_threshold_system"
    }

    /// Ticks between runs.
    pub fn tick_interval(&self) -> (t: u64)
        ensures
            t == self@.tick_interval,
    {
        self.tick_interval
    }

    /// Scheduling priority.
    pub fn priority(&self) -> (p: u32)
        ensures
            p == self@.priority,
    {
        self.priority
    }
}

/// Records population statistics over time.
#[derive(Debug, Clone, Copy)]
pub struct StatsRecorderRuntimeSystem {
    priority: u32,
    tick_interval: u64,
}

impl View for StatsRecorderRuntimeSystem {
    type V = Cadence;

    closed spec fn view(&self) -> Cadence {
        Cadence { priority: self.priority, tick_interval: self.tick_interval }
    }
}

impl StatsRecorderRuntimeSystem {
    /// A system scheduled at `priority`, every `tick_interval` ticks (at least one).
    pub fn new(priority: u32, tick_interval: u64) -> (s: StatsRecorderRuntimeSystem)
        ensures
            s@ == (Cadence { priority, tick_interval: at_least_one(tick_interval) }),
    {
        StatsRecorderRuntimeSystem { priority, tick_interval: clamp_interval(tick_interval) }
    }

    /// Name under which the system is scheduled.
    pub fn name(&self) -> (n: &'static str)
        ensures
            n@ == "stats_recorder"@,
    {
        "stats_recorder"
    }

    /// Ticks between runs.
    pub fn tick_interval(&self) -> (t: u64)
        ensures
            t == self@.tick_interval,
    {
        self.tick_interval
    }

    /// Scheduling priority.
    pub fn priority(&self) -> (p: u32)
        ensures
            p == self@.priority,
    {
        self.priority
    }
}

/// Summarises recent chronicle events and prunes old ones.
#[derive(Debug, Clone, Copy)]
pub struct ChronicleRuntimeSystem {
    priority: u32,
    tick_interval: u64,
    last_prune_year: i32,
    last_summarized_tick: u64,
}

impl View for ChronicleRuntimeSystem {
    type V = Cadence;

    closed spec fn view(&self) -> Cadence {
        Cadence { priority: self.priority, tick_interval: self.tick_interval }
    }
}

impl ChronicleRuntimeSystem {
    /// The year of the last pruning.
    pub closed spec fn last_prune_year_spec(&self) -> i32 {
        self.last_prune_year
    }

    /// The tick of the last summary.
    pub closed spec fn last_summarized_tick_spec(&self) -> u64 {
        self.last_summarized_tick
    }

    /// A system scheduled at `priority`, every `tick_interval` ticks (at least one).
    pub fn new(priority: u32, tick_interval: u64) -> (s: ChronicleRuntimeSystem)
        ensures
            s@ == (Cadence { priority, tick_interval: at_least_one(tick_interval) }),
            s.last_prune_year_spec() == 0i32,
            s.last_summarized_tick_spec() == 0u64,
    {
        ChronicleRuntimeSystem { priority, tick_interval: clamp_interval(tick_interval), last_prune_year: 0i32, last_summarized_tick: 0u64 }
    }

    /// Name under which the system is scheduled.
    pub fn name(&self) -> (n: &'static str)
        ensures
            n@ == "chronicle_system"@,
    {
        "chronicle_system"
    }

    /// Ticks between runs.
    pub fn tick_interval(&self) -> (t: u64)
        ensures
            t == self@.tick_interval,
    {
        self.tick_interval
    }

    /// Scheduling priority.
    pub fn priority(&self) -> (p: u32)
        ensures
            p == self@.priority,
    {
        self.priority
    }
}

/// Flag raised for an agent whose hunger is low.
pub const STAT_THRESHOLD_FLAG_HUNGER_LOW: u32 = 1;

/// Flag raised for an agent whose stress is high.
pub const STAT_THRESHOLD_FLAG_STRESS_HIGH: u32 = 2;


/// The views of a list of strings.
pub open spec fn str_views(v: Seq<String>) -> Seq<Seq<char>> {
    v.map_values(|s: String| s@)
}

/// The lifecycle kind named by a band summary key.
pub open spec fn band_kind_spec(key: Seq<char>) -> Seq<char> {
    if key == "CHRONICLE_BAND_FORMED"@ {
        "formed"@
    } else if key == "CHRONICLE_BAND_PROMOTED"@ {
        "promoted"@
    } else if key == "CHRONICLE_BAND_SPLIT"@ {
        "split"@
    } else if key == "CHRONICLE_BAND_DISSOLVED"@ {
        "dissolved"@
    } else if key == "CHRONICLE_BAND_LEADER"@ {
        "leader"@
    } else if key == "CHRONICLE_LONER_JOINED"@ {
        "recruitment"@
    } else {
        "lifecycle"@
    }
}

/// The lifecycle kind named by a band summary key.
fn band_kind(key: &str) -> (k: &'static str)
    ensures
        k@ == band_kind_spec(key@),
{
    if str_eq(key, "CHRONICLE_BAND_FORMED") {
        "formed"
    } else if str_eq(key, "CHRONICLE_BAND_PROMOTED") {
        "promoted"
    } else if str_eq(key, "CHRONICLE_BAND_SPLIT") {
        "split"
    } else if str_eq(key, "CHRONICLE_BAND_DISSOLVED") {
        "dissolved"
    } else if str_eq(key, "CHRONICLE_BAND_LEADER") {
        "leader"
    } else if str_eq(key, "CHRONICLE_LONER_JOINED") {
        "recruitment"
    } else {
        "lifecycle"
    }
}

/// Dossier tags of a band lifecycle entry: band, social and its kind.
pub fn band_lifecycle_dossier_stub_tags(summary_key: &str) -> (tags: Vec<String>)
    ensures
        str_views(tags@) == seq!["band"@, "social"@, band_kind_spec(summary_key@)],
{
    let mut tags: Vec<String> = Vec::new();
    tags.push("band".to_owned());
    tags.push("social".to_owned());
    tags.push(band_kind(summary_key).to_owned());
    proof {
        assert(str_views(tags@) =~= seq!["band"@, "social"@, band_kind_spec(summary_key@)]);
    }
    tags
}

/// The event family of a band lifecycle entry.
pub open spec fn band_family_spec(key: Seq<char>) -> Seq<char> {
    if key == "CHRONICLE_BAND_FORMED"@ {
        "band.lifecycle.formed"@
    } else if key == "CHRONICLE_BAND_PROMOTED"@ {
        "band.lifecycle.promoted"@
    } else if key == "CHRONICLE_BAND_SPLIT"@ {
        "band.lifecycle.split"@
    } else if key == "CHRONICLE_BAND_DISSOLVED"@ {
        "band.lifecycle.dissolved"@
    } else if key == "CHRONICLE_BAND_LEADER"@ {
        "band.lifecycle.leader"@
    } else if key == "CHRONICLE_LONER_JOINED"@ {
        "band.lifecycle.joined"@
    } else {
        "band.lifecycle.unknown"@
    }
}

/// The event family of a band lifecycle entry.
pub fn band_lifecycle_event_family(summary_key: &str) -> (f: String)
    ensures
        f@ == band_family_spec(summary_key@),
{
    let f: &'static str = if str_eq(summary_key, "CHRONICLE_BAND_FORMED") {
        "band.lifecycle.formed"
    } else if str_eq(summary_key, "CHRONICLE_BAND_PROMOTED") {
        "band.lifecycle.promoted"
    } else if str_eq(summary_key, "CHRONICLE_BAND_SPLIT") {
        "band.lifecycle.split"
    } else if str_eq(summary_key, "CHRONICLE_BAND_DISSOLVED") {
        "band.lifecycle.dissolved"
    } else if str_eq(summary_key, "CHRONICLE_BAND_LEADER") {
        "band.lifecycle.leader"
    } else if str_eq(summary_key, "CHRONICLE_LONER_JOINED") {
        "band.lifecycle.joined"
    } else {
        "band.lifecycle.unknown"
    };
    f.to_owned()
}

/// Kinds of chronicle event.
#[derive(Debug, Clone, Copy, PartialEq, Eq, Structural)]
pub enum ChronicleEventType {
    InfluenceAttraction,
    InfluenceAvoidance,
    ShelterSeeking,
    GatheringFormation,
    ResourceDiscovery,
    BandLifecycle,
}

/// Causes of chronicle events.
#[derive(Debug, Clone, Copy, PartialEq, Eq, Structural)]
pub enum ChronicleEventCause {
    Food,
    Danger,
    Warmth,
    Social,
    SocialGroup,
}

/// Which template a chronicle entry uses.
#[derive(Debug, Clone, Copy, PartialEq, Eq, Structural)]
pub enum ChronicleTemplate {
    SocialGathering,
    EscapeDanger,
    ShelterSeeking,
    SocialAttraction,
    FoodAttraction,
}

/// The template of an entry: a social group is a gathering; avoidance of
/// danger an escape; shelter seeking for warmth and gathering formation
/// for company keep their names; anything else is a food attraction.
pub open spec fn template_spec(t: ChronicleEventType, c: ChronicleEventCause, is_group: bool) -> ChronicleTemplate {
    if is_group && c == ChronicleEventCause::Social {
        ChronicleTemplate::SocialGathering
    } else if t == ChronicleEventType::InfluenceAvoidance && c == ChronicleEventCause::Danger {
        ChronicleTemplate::EscapeDanger
    } else if t == ChronicleEventType::ShelterSeeking && c == ChronicleEventCause::Warmth {
        ChronicleTemplate::ShelterSeeking
    } else if t == ChronicleEventType::GatheringFormation && c == ChronicleEventCause::Social {
        ChronicleTemplate::SocialAttraction
    } else {
        ChronicleTemplate::FoodAttraction
    }
}

/// The template of an entry.
pub fn chronicle_template(t: ChronicleEventType, c: ChronicleEventCause, is_group: bool) -> (r: ChronicleTemplate)
    ensures
        r == template_spec(t, c, is_group),
        r == ChronicleTemplate::SocialGathering <==> (is_group && c == ChronicleEventCause::Social),
        r == ChronicleTemplate::EscapeDanger <==> (!(is_group && c == ChronicleEventCause::Social)
            && t == ChronicleEventType::InfluenceAvoidance && c == ChronicleEventCause::Danger),
        r == ChronicleTemplate::ShelterSeeking <==> (!(is_group && c == ChronicleEventCause::Social)
            && t == ChronicleEventType::ShelterSeeking && c == ChronicleEventCause::Warmth),
        r == ChronicleTemplate::SocialAttraction <==> (!is_group && t == ChronicleEventType::GatheringFormation
            && c == ChronicleEventCause::Social),
{
    if is_group && c == ChronicleEventCause::Social {
        ChronicleTemplate::SocialGathering
    } else if t == ChronicleEventType::InfluenceAvoidance && c == ChronicleEventCause::Danger {
        ChronicleTemplate::EscapeDanger
    } else if t == ChronicleEventType::ShelterSeeking && c == ChronicleEventCause::Warmth {
        ChronicleTemplate::ShelterSeeking
    } else if t == ChronicleEventType::GatheringFormation && c == ChronicleEventCause::Social {
        ChronicleTemplate::SocialAttraction
    } else {
        ChronicleTemplate::FoodAttraction
    }
}

/// The title, summary and dossier keys of a template.
pub open spec fn template_keys_spec(t: ChronicleTemplate) -> (Seq<char>, Seq<char>, Seq<char>) {
    match t {
        ChronicleTemplate::SocialGathering => ("CHRONICLE_TITLE_SOCIAL_GATHERING"@, "CHRONICLE_SUMMARY_SOCIAL_GATHERING"@, "CHRONICLE_DOSSIER_STUB_SOCIAL_GATHERING"@),
        ChronicleTemplate::EscapeDanger => ("CHRONICLE_TITLE_ESCAPE_DANGER"@, "CHRONICLE_SUMMARY_ESCAPE_DANGER"@, "CHRONICLE_DOSSIER_STUB_ESCAPE_DANGER"@),
        ChronicleTemplate::ShelterSeeking => ("CHRONICLE_TITLE_SHELTER_SEEKING"@, "CHRONICLE_SUMMARY_SHELTER_SEEKING"@, "CHRONICLE_DOSSIER_STUB_SHELTER_SEEKING"@),
        ChronicleTemplate::SocialAttraction => ("CHRONICLE_TITLE_SOCIAL_ATTRACTION"@, "CHRONICLE_SUMMARY_SOCIAL_ATTRACTION"@, "CHRONICLE_DOSSIER_STUB_SOCIAL_ATTRACTION"@),
        ChronicleTemplate::FoodAttraction => ("CHRONICLE_TITLE_FOOD_ATTRACTION"@, "CHRONICLE_SUMMARY_FOOD_ATTRACTION"@, "CHRONICLE_DOSSIER_STUB_FOOD_ATTRACTION"@),
    }
}

/// The title, summary and dossier keys of an entry.
pub fn chronicle_template_keys(t: ChronicleEventType, c: ChronicleEventCause, is_group: bool) -> (keys: (&'static str, &'static str, &'static str))
    ensures
        (keys.0@, keys.1@, keys.2@) == template_keys_spec(template_spec(t, c, is_group)),
{
    match chronicle_template(t, c, is_group) {
        ChronicleTemplate::SocialGathering => ("CHRONICLE_TITLE_SOCIAL_GATHERING", "CHRONICLE_SUMMARY_SOCIAL_GATHERING", "CHRONICLE_DOSSIER_STUB_SOCIAL_GATHERING"),
        ChronicleTemplate::EscapeDanger => ("CHRONICLE_TITLE_ESCAPE_DANGER", "CHRONICLE_SUMMARY_ESCAPE_DANGER", "CHRONICLE_DOSSIER_STUB_ESCAPE_DANGER"),
        ChronicleTemplate::ShelterSeeking => ("CHRONICLE_TITLE_SHELTER_SEEKING", "CHRONICLE_SUMMARY_SHELTER_SEEKING", "CHRONICLE_DOSSIER_STUB_SHELTER_SEEKING"),
        ChronicleTemplate::SocialAttraction => ("CHRONICLE_TITLE_SOCIAL_ATTRACTION", "CHRONICLE_SUMMARY_SOCIAL_ATTRACTION", "CHRONICLE_DOSSIER_STUB_SOCIAL_ATTRACTION"),
        ChronicleTemplate::FoodAttraction => ("CHRONICLE_TITLE_FOOD_ATTRACTION", "CHRONICLE_SUMMARY_FOOD_ATTRACTION", "CHRONICLE_DOSSIER_STUB_FOOD_ATTRACTION"),
    }
}

/// The dossier tags of a template.
pub open spec fn template_tags_spec(t: ChronicleTemplate) -> Seq<Seq<char>> {
    match t {
        ChronicleTemplate::SocialGathering => seq!["social"@, "gathering"@, "group"@],
        ChronicleTemplate::EscapeDanger => seq!["danger"@, "avoidance"@, "survival"@],
        ChronicleTemplate::ShelterSeeking => seq!["warmth"@, "shelter"@, "survival"@],
        ChronicleTemplate::SocialAttraction => seq!["social"@, "attraction"@, "group"@],
        ChronicleTemplate::FoodAttraction => seq!["food"@, "attraction"@, "survival"@],
    }
}

/// Three owned tags.
fn three_tags(a: &str, b: &str, c: &str) -> (v: Vec<String>)
    ensures
        str_views(v@) == seq![a@, b@, c@],
{
    let mut v: Vec<String> = Vec::new();
    v.push(a.to_owned());
    v.push(b.to_owned());
    v.push(c.to_owned());
    proof {
        assert(str_views(v@) =~= seq![a@, b@, c@]);
    }
    v
}

/// The dossier tags of an entry.
pub fn chronicle_dossier_stub_tags(t: ChronicleEventType, c: ChronicleEventCause, is_group: bool) -> (tags: Vec<String>)
    ensures
        str_views(tags@) == template_tags_spec(template_spec(t, c, is_group)),
{
    match chronicle_template(t, c, is_group) {
        ChronicleTemplate::SocialGathering => three_tags("social", "gathering", "group"),
        ChronicleTemplate::EscapeDanger => three_tags("danger", "avoidance", "survival"),
        ChronicleTemplate::ShelterSeeking => three_tags("warmth", "shelter", "survival"),
        ChronicleTemplate::SocialAttraction => three_tags("social", "attraction", "group"),
        ChronicleTemplate::FoodAttraction => three_tags("food", "attraction", "survival"),
    }
}

/// The named event family of an entry, where one is named: a social group
/// gathering, food attraction, danger avoidance, shelter seeking or social
/// attraction. Other combinations have no named family.
pub open spec fn family_spec(t: ChronicleEventType, c: ChronicleEventCause, is_group: bool) -> Option<Seq<char>> {
    if is_group && c == ChronicleEventCause::Social {
        Some("social.group_gathering"@)
    } else if (t == ChronicleEventType::InfluenceAttraction || t == ChronicleEventType::ResourceDiscovery)
        && c == ChronicleEventCause::Food {
        Some("influence.food_attraction"@)
    } else if t == ChronicleEventType::InfluenceAvoidance && c == ChronicleEventCause::Danger {
        Some("influence.danger_avoidance"@)
    } else if (t == ChronicleEventType::ShelterSeeking || t == ChronicleEventType::InfluenceAttraction)
        && c == ChronicleEventCause::Warmth {
        Some("influence.shelter_seeking"@)
    } else if t == ChronicleEventType::GatheringFormation && c == ChronicleEventCause::Social {
        Some("influence.social_attraction"@)
    } else {
        None
    }
}

/// The named event family of an entry, if it has one.
pub fn chronicle_event_family(t: ChronicleEventType, c: ChronicleEventCause, is_group: bool) -> (f: Option<String>)
    ensures
        match family_spec(t, c, is_group) {
            Some(s) => f is Some && f.unwrap()@ == s,
            None => f is None,
        },
{
    if is_group && c == ChronicleEventCause::Social {
        Some("social.group_gathering".to_owned())
    } else if (t == ChronicleEventType::InfluenceAttraction || t == ChronicleEventType::ResourceDiscovery)
        && c == ChronicleEventCause::Food {
        Some("influence.food_attraction".to_owned())
    } else if t == ChronicleEventType::InfluenceAvoidance && c == ChronicleEventCause::Danger {
        Some("influence.danger_avoidance".to_owned())
    } else if (t == ChronicleEventType::ShelterSeeking || t == ChronicleEventType::InfluenceAttraction)
        && c == ChronicleEventCause::Warmth {
        Some("influence.shelter_seeking".to_owned())
    } else if t == ChronicleEventType::GatheringFormation && c == ChronicleEventCause::Social {
        Some("influence.social_attraction".to_owned())
    } else {
        None
    }
}

/// Whether a summary is due: at least `interval` ticks since the last one.
pub fn should_summarize_chronicle(tick: u64, last_summarized_tick: u64, interval: u64) -> (b: bool)
    ensures
        b == ((if tick >= last_summarized_tick { tick - last_summarized_tick } else { 0 }) >= interval),
{
    tick.saturating_sub(last_summarized_tick) >= interval
}

/// The parts of a chronicle event that clustering reads.
#[derive(Debug, Clone, Copy, PartialEq, Eq, Structural)]
pub struct ChronicleEventKey {
    pub tick: u64,
    pub event_type: ChronicleEventType,
    pub cause: ChronicleEventCause,
}

/// Two events cluster when neither is a band lifecycle event, the second
/// follows the first within `window` ticks, and they share cause and type.
pub open spec fn can_cluster_spec(previous: Option<ChronicleEventKey>, next: ChronicleEventKey, window: u64) -> bool {
    match previous {
        None => false,
        Some(p) => {
            &&& p.event_type != ChronicleEventType::BandLifecycle
            &&& next.event_type != ChronicleEventType::BandLifecycle
            &&& (if next.tick >= p.tick { next.tick - p.tick } else { 0 }) <= window
            &&& p.cause == next.cause
            &&& p.event_type == next.event_type
        },
    }
}

/// Cluster law: events of different causes or types never share a
/// cluster, nor does a band lifecycle event or an event more than `window`
/// ticks after the last; otherwise the event joins.
pub proof fn lemma_cluster_same_kind(p: ChronicleEventKey, next: ChronicleEventKey, window: u64)
    ensures
        p.cause != next.cause ==> !can_cluster_spec(Some(p), next, window),
        p.event_type != next.event_type ==> !can_cluster_spec(Some(p), next, window),
        next.tick > p.tick + window ==> !can_cluster_spec(Some(p), next, window),
        !can_cluster_spec(None, next, window),
        (p.cause == next.cause && p.event_type == next.event_type && p.event_type != ChronicleEventType::BandLifecycle
            && next.tick <= p.tick + window) ==> can_cluster_spec(Some(p), next, window),
{
}

/// Whether `next` joins the cluster whose last event is `previous`.
pub fn chronicle_events_can_cluster(previous: Option<ChronicleEventKey>, next: ChronicleEventKey, window: u64) -> (b: bool)
    ensures
        b == can_cluster_spec(previous, next, window),
        b <==> (previous matches Some(p) && p.cause == next.cause && p.event_type == next.event_type
            && p.event_type != ChronicleEventType::BandLifecycle && next.tick <= p.tick + window),
{
    match previous {
        None => false,
        Some(p) => {
            if p.event_type == ChronicleEventType::BandLifecycle || next.event_type == ChronicleEventType::BandLifecycle {
                false
            } else {
                next.tick.saturating_sub(p.tick) <= window && p.cause == next.cause && p.event_type == next.event_type
            }
        },
    }
}

impl ChronicleRuntimeSystem {
    /// Note a run at `tick`: when a summary is due (see
    /// [`should_summarize_chronicle`]) it is recorded as taken now.
    /// Returns whether it was due.
    pub fn note_summary(&mut self, tick: u64, interval: u64) -> (due: bool)
        ensures
            due == ((if tick >= old(self).last_summarized_tick_spec() { tick - old(self).last_summarized_tick_spec() } else { 0 }) >= interval),
            final(self).last_summarized_tick_spec() == (if due { tick } else { old(self).last_summarized_tick_spec() }),
            final(self).last_prune_year_spec() == old(self).last_prune_year_spec(),
            final(self)@ == old(self)@,
    {
        let due = should_summarize_chronicle(tick, self.last_summarized_tick, interval);
        if due {
            self.last_summarized_tick = tick;
        }
        due
    }
}


/// Snapshots kept in the statistics history.
pub const STATS_RECORDER_MAX_HISTORY: usize = 200;

/// The flags of an agent: the hunger flag when hunger is low, the stress
/// flag when stress is high.
pub fn threshold_flags(hunger_low: bool, stress_high: bool) -> (flags: u32)
    ensures
        flags == (if hunger_low { STAT_THRESHOLD_FLAG_HUNGER_LOW } else { 0 })
            + (if stress_high { STAT_THRESHOLD_FLAG_STRESS_HIGH } else { 0 }),
{
    let mut flags: u32 = 0;
    if hunger_low {
        flags = flags + STAT_THRESHOLD_FLAG_HUNGER_LOW;
    }
    if stress_high {
        flags = flags + STAT_THRESHOLD_FLAG_STRESS_HIGH;
    }
    flags
}

/// Whether `flags` holds the hunger flag, and whether it holds the stress
/// flag.
pub fn flags_held(flags: u32) -> (r: (bool, bool))
    ensures
        r.0 == (flags % 2 == 1),
        r.1 == ((flags / 2) % 2 == 1),
{
    assert(((flags & 1u32) != 0u32) == (flags % 2 == 1)) by (bit_vector);
    assert(((flags & 2u32) != 0u32) == ((flags / 2) % 2 == 1)) by (bit_vector);
    ((flags & 1) != 0, (flags & 2) != 0)
}

/// A population count by job.
#[derive(Debug, Clone, Copy, PartialEq, Eq, Structural)]
pub struct PopulationCensus {
    pub pop: usize,
    pub gatherers: u32,
    pub lumberjacks: u32,
    pub builders: u32,
    pub miners: u32,
    pub none_job: u32,
}

/// Living agents among `agents` whose job (if they have one) satisfies `p`.
pub open spec fn count_living(agents: Seq<(bool, Option<String>)>, p: spec_fn(Option<String>) -> bool) -> nat
    decreases agents.len(),
{
    if agents.len() == 0 {
        0
    } else {
        count_living(agents.drop_last(), p) + if agents.last().0 && p(agents.last().1) { 1nat } else { 0nat }
    }
}

/// The agent has the job named `j`.
pub open spec fn has_job(j: Seq<char>) -> spec_fn(Option<String>) -> bool {
    |job: Option<String>| job is Some && job.unwrap()@ == j
}

/// The agent has none of the four assignable jobs.
pub open spec fn no_listed_job() -> spec_fn(Option<String>) -> bool {
    |job: Option<String>| job is None || !(job.unwrap()@ == "gatherer"@ || job.unwrap()@ == "lumberjack"@
        || job.unwrap()@ == "builder"@ || job.unwrap()@ == "miner"@)
}

/// `n` saturated at `u32::MAX`.
pub open spec fn sat_u32(n: nat) -> u32 {
    if n > u32::MAX { u32::MAX } else { n as u32 }
}

/// Count the living agents `(alive, job)`, by job; an agent without a job
/// or with another job counts as jobless. Job counts saturate.
pub fn population_census(agents: &Vec<(bool, Option<String>)>) -> (c: PopulationCensus)
    ensures
        c.pop == count_living(agents@, |j: Option<String>| true),
        c.gatherers == sat_u32(count_living(agents@, has_job("gatherer"@))),
        c.lumberjacks == sat_u32(count_living(agents@, has_job("lumberjack"@))),
        c.builders == sat_u32(count_living(agents@, has_job("builder"@))),
        c.miners == sat_u32(count_living(agents@, has_job("miner"@))),
        c.none_job == sat_u32(count_living(agents@, no_listed_job())),
        c.pop <= u32::MAX ==> c.gatherers + c.lumberjacks + c.builders + c.miners + c.none_job == c.pop,
{
    let mut c = PopulationCensus { pop: 0, gatherers: 0, lumberjacks: 0, builders: 0, miners: 0, none_job: 0 };
    let mut i: usize = 0;
    while i < agents.len()
        invariant
            0 <= i <= agents@.len(),
            c.pop == count_living(agents@.subrange(0, i as int), |j: Option<String>| true),
            c.pop <= i,
            c.gatherers == sat_u32(count_living(agents@.subrange(0, i as int), has_job("gatherer"@))),
            c.lumberjacks == sat_u32(count_living(agents@.subrange(0, i as int), has_job("lumberjack"@))),
            c.builders == sat_u32(count_living(agents@.subrange(0, i as int), has_job("builder"@))),
            c.miners == sat_u32(count_living(agents@.subrange(0, i as int), has_job("miner"@))),
            c.none_job == sat_u32(count_living(agents@.subrange(0, i as int), no_listed_job())),
            c.pop <= u32::MAX ==> c.gatherers + c.lumberjacks + c.builders + c.miners + c.none_job == c.pop,
        decreases agents@.len() - i,
    {
        let (alive, job) = (agents[i].0, &agents[i].1);
        proof {
            reveal_strlit("gatherer");
            reveal_strlit("lumberjack");
            reveal_strlit("builder");
            reveal_strlit("miner");
            assert("gatherer"@.len() == 8);
            assert("lumberjack"@.len() == 10);
            assert("builder"@.len() == 7);
            assert("miner"@.len() == 5);
            assert(agents@.subrange(0, i + 1).drop_last() =~= agents@.subrange(0, i as int));
            assert(agents@.subrange(0, i + 1).last() == agents@[i as int]);
        }
        if alive {
            c.pop = c.pop + 1;
            match job {
                None => c.none_job = c.none_job.saturating_add(1),
                Some(j) => {
                    let js = j.as_str();
                    if str_eq(js, "gatherer") {
                        c.gatherers = c.gatherers.saturating_add(1);
                    } else if str_eq(js, "lumberjack") {
                        c.lumberjacks = c.lumberjacks.saturating_add(1);
                    } else if str_eq(js, "builder") {
                        c.builders = c.builders.saturating_add(1);
                    } else if str_eq(js, "miner") {
                        c.miners = c.miners.saturating_add(1);
                    } else {
                        c.none_job = c.none_job.saturating_add(1);
                    }
                },
            }
        }
        i = i + 1;
    }
    proof {
        assert(agents@.subrange(0, agents@.len() as int) =~= agents@);
    }
    c
}

/// Append `item` to a history that keeps its newest `cap` entries: the
/// oldest are dropped once it grows past `cap`.
pub fn push_bounded<T>(history: &mut Vec<T>, item: T, cap: usize)
    ensures
        ({
            let full = old(history)@.push(item);
            final(history)@ == if full.len() > cap { full.subrange(full.len() - cap, full.len() as int) } else { full }
        }),
{
    history.push(item);
    let len = history.len();
    if len > cap {
        let overflow = len - cap;
        let ghost full = history@;
        let mut kept: Vec<T> = Vec::new();
        let mut old_items: Vec<T> = Vec::new();
        std::mem::swap(&mut old_items, history);
        let mut i: usize = 0;
        while old_items.len() > 0
            invariant
                old_items@.len() + i == full.len(),
                old_items@ == full.subrange(i as int, full.len() as int),
                overflow == full.len() - cap,
                overflow <= full.len(),
                full.len() == len,
                kept@ == (if i <= overflow { Seq::<T>::empty() } else { full.subrange(overflow as int, i as int) }),
            decreases old_items@.len(),
        {
            let x = old_items.remove(0);
            proof {
                assert(x == full[i as int]);
            }
            if i >= overflow {
                kept.push(x);
            }
            i = i + 1;
            proof {
                assert(old_items@ =~= full.subrange(i as int, full.len() as int));
                if i > overflow {
                    assert(kept@ =~= full.subrange(overflow as int, i as int));
                }
            }
        }
        proof {
            if full.len() == overflow {
                assert(full.subrange(overflow as int, full.len() as int) =~= Seq::<T>::empty());
            }
        }
        *history = kept;
    }
}


/// A chronicle event as gathering detection reads it.
#[derive(Debug, Clone, Copy, PartialEq, Eq, Structural)]
pub struct ChronicleEventRecord {
    pub key: ChronicleEventKey,
    pub entity: u64,
    pub tile_x: i32,
    pub tile_y: i32,
}

/// Bucket of a coordinate: floor division by the bucket size.
pub open spec fn bucket_of(v: i32, size: i32) -> int {
    (v as int) / (size as int)
}

/// Floor division of a coordinate by a positive bucket size.
pub fn bucket_index(v: i32, size: i32) -> (b: i64)
    requires
        size >= 1,
    ensures
        b == bucket_of(v, size),
{
    let d: i64 = size as i64;
    if v >= 0 {
        let q: u64 = (v as u64) / (d as u64);
        proof {
            vstd::arithmetic::div_mod::lemma_fundamental_div_mod(v as int, d as int);
        }
        q as i64
    } else {
        let m: u64 = (-(v as i64)) as u64;
        let q: u64 = (m + (d as u64) - 1) / (d as u64);
        proof {
            let mm = m as int;
            let dd = d as int;
            let qq = q as int;
            vstd::arithmetic::div_mod::lemma_fundamental_div_mod(mm + dd - 1, dd);
            let rr = (mm + dd - 1) % dd;
            assert(mm + dd - 1 == dd * qq + rr);
            assert(0 <= rr < dd) by {
                vstd::arithmetic::div_mod::lemma_mod_pos_bound(mm + dd - 1, dd);
            }
            assert(qq * dd == dd * qq) by (nonlinear_arith);
            let r = qq * dd - mm;
            assert(0 <= r < dd);
            assert(v as int == (-qq) * dd + r) by (nonlinear_arith)
                requires r == qq * dd - mm, mm == -(v as int);
            vstd::arithmetic::div_mod::lemma_fundamental_div_mod_converse_div(v as int, dd, -qq, r);
            assert(qq <= mm) by (nonlinear_arith)
                requires mm + dd - 1 == dd * qq + rr, 0 <= rr, dd >= 1, mm >= 1;
        }
        -(q as i64)
    }
}

/// Sort key of a social event: its bucket (column, row), then its tick,
/// then its position in the list.
pub open spec fn social_key(es: Seq<ChronicleEventRecord>, i: int, size: i32) -> (int, int, int, int) {
    (bucket_of(es[i].tile_x, size), bucket_of(es[i].tile_y, size), es[i].key.tick as int, i)
}

/// Lexicographic order on sort keys.
pub open spec fn key_lt(a: (int, int, int, int), b: (int, int, int, int)) -> bool {
    a.0 < b.0 || (a.0 == b.0 && (a.1 < b.1 || (a.1 == b.1 && (a.2 < b.2 || (a.2 == b.2 && a.3 < b.3)))))
}

/// The event has a social cause.
pub open spec fn is_social(e: ChronicleEventRecord) -> bool {
    e.key.cause == ChronicleEventCause::Social
}

/// Exec form of [`key_lt`].
fn key_less(a: (i64, i64, u64, usize), b: (i64, i64, u64, usize)) -> (r: bool)
    ensures
        r == key_lt((a.0 as int, a.1 as int, a.2 as int, a.3 as int), (b.0 as int, b.1 as int, b.2 as int, b.3 as int)),
{
    a.0 < b.0 || (a.0 == b.0 && (a.1 < b.1 || (a.1 == b.1 && (a.2 < b.2 || (a.2 == b.2 && a.3 < b.3)))))
}

/// The social events, by position, ordered by bucket (column, then row),
/// then by tick, ties kept in list order.
pub fn social_order(events: &Vec<ChronicleEventRecord>, size: i32) -> (order: Vec<usize>)
    requires
        size >= 1,
    ensures
        forall|k: int| 0 <= k < order@.len() ==> (#[trigger] order@[k]) < events@.len() && is_social(events@[order@[k] as int]),
        forall|a: int, b: int| 0 <= a < b < order@.len() ==>
            key_lt(social_key(events@, #[trigger] order@[a] as int, size), social_key(events@, #[trigger] order@[b] as int, size)),
        forall|i: int| 0 <= i < events@.len() && is_social(#[trigger] events@[i]) ==> order@.contains(i as usize),
{
    let n = events.len();
    let mut keys: Vec<(i64, i64, u64, usize)> = Vec::new();
    let mut i: usize = 0;
    while i < n
        invariant
            0 <= i <= n,
            n == events@.len(),
            size >= 1,
            keys@.len() == i,
            forall|j: int| 0 <= j < i ==> {
                let k = #[trigger] keys@[j];
                (k.0 as int, k.1 as int, k.2 as int, k.3 as int) == social_key(events@, j, size)
            },
        decreases n - i,
    {
        let e = events[i];
        let bx = bucket_index(e.tile_x, size);
        let by = bucket_index(e.tile_y, size);
        keys.push((bx, by, e.key.tick, i));
        i = i + 1;
    }
    let mut order: Vec<usize> = Vec::new();
    let mut last: Option<(i64, i64, u64, usize)> = None;
    loop
        invariant
            n == events@.len(),
            keys@.len() == n,
            forall|j: int| 0 <= j < n ==> {
                let k = #[trigger] keys@[j];
                (k.0 as int, k.1 as int, k.2 as int, k.3 as int) == social_key(events@, j, size)
            },
            order@.len() <= n,
            forall|k: int| 0 <= k < order@.len() ==> (#[trigger] order@[k]) < n && is_social(events@[order@[k] as int]),
            forall|a: int, b: int| 0 <= a < b < order@.len() ==>
                key_lt(social_key(events@, #[trigger] order@[a] as int, size), social_key(events@, #[trigger] order@[b] as int, size)),
            match last {
                None => order@.len() == 0,
                Some(l) => order@.len() > 0 && l == keys@[order@[order@.len() - 1] as int],
            },
            forall|j: int| 0 <= j < n && is_social(#[trigger] events@[j]) ==> order@.contains(j as usize) || match last {
                None => true,
                Some(l) => key_lt((l.0 as int, l.1 as int, l.2 as int, l.3 as int), social_key(events@, j, size)),
            },
        decreases n - order@.len(),
    {
        let mut best: Option<usize> = None;
        let mut j: usize = 0;
        while j < n
            invariant
                0 <= j <= n,
                n == events@.len(),
                keys@.len() == n,
                forall|q: int| 0 <= q < n ==> {
                    let k = #[trigger] keys@[q];
                    (k.0 as int, k.1 as int, k.2 as int, k.3 as int) == social_key(events@, q, size)
                },
                match best {
                    None => forall|q: int| 0 <= q < j && is_social(#[trigger] events@[q]) ==> match last {
                        None => false,
                        Some(l) => !key_lt((l.0 as int, l.1 as int, l.2 as int, l.3 as int), social_key(events@, q, size)),
                    },
                    Some(b) => b < j && is_social(events@[b as int])
                        && match last {
                            None => true,
                            Some(l) => key_lt((l.0 as int, l.1 as int, l.2 as int, l.3 as int), social_key(events@, b as int, size)),
                        }
                        && forall|q: int| 0 <= q < j && is_social(#[trigger] events@[q]) && match last {
                            None => true,
                            Some(l) => key_lt((l.0 as int, l.1 as int, l.2 as int, l.3 as int), social_key(events@, q, size)),
                        } ==> q == b || key_lt(social_key(events@, b as int, size), social_key(events@, q, size)),
                },
            decreases n - j,
        {
            let e = events[j];
            let social = e.key.cause == ChronicleEventCause::Social;
            let after_last = match last {
                None => true,
                Some(l) => key_less(l, keys[j]),
            };
            if social && after_last {
                match best {
                    None => best = Some(j),
                    Some(b) => if key_less(keys[j], keys[b]) {
                        best = Some(j);
                    },
                }
            }
            j = j + 1;
        }
        match best {
            None => {
                return order;
            },
            Some(b) => {
                let ghost before = order@;
                order.push(b);
                last = Some(keys[b]);
                proof {
                    assert forall|a: int, c: int| 0 <= a < c < order@.len() implies
                        key_lt(social_key(events@, #[trigger] order@[a] as int, size), social_key(events@, #[trigger] order@[c] as int, size)) by {
                        if c == order@.len() - 1 && a < c {
                            assert(order@[a] == before[a]);
                            if a < before.len() - 1 {
                                assert(key_lt(social_key(events@, before[a] as int, size), social_key(events@, before[before.len() - 1] as int, size)));
                            }
                        } else if c < order@.len() - 1 {
                            assert(order@[a] == before[a] && order@[c] == before[c]);
                        }
                    }
                    assert forall|q: int| 0 <= q < n && is_social(#[trigger] events@[q]) implies order@.contains(q as usize) || match last {
                        None => true,
                        Some(l) => key_lt((l.0 as int, l.1 as int, l.2 as int, l.3 as int), social_key(events@, q, size)),
                    } by {
                        if before.contains(q as usize) {
                            let k = choose|k: int| 0 <= k < before.len() && before[k] == q as usize;
                            assert(order@[k] == q as usize);
                        } else if q == b as int {
                            assert(order@[order@.len() - 1] == q as usize);
                        }
                    }
                    lemma_ascending_positions_bounded(events@, order@, size);
                }
            },
        }
    }
}

/// Positions strictly ascending by sort key are distinct, so there are no
/// more of them than events.
pub proof fn lemma_ascending_positions_bounded(es: Seq<ChronicleEventRecord>, order: Seq<usize>, size: i32)
    requires
        forall|k: int| 0 <= k < order.len() ==> (#[trigger] order[k]) < es.len(),
        forall|a: int, b: int| 0 <= a < b < order.len() ==>
            key_lt(social_key(es, #[trigger] order[a] as int, size), social_key(es, #[trigger] order[b] as int, size)),
    ensures
        order.len() <= es.len(),
{
    let ints = order.map_values(|x: usize| x as int);
    assert(ints.no_duplicates()) by {
        assert forall|a: int, b: int| 0 <= a < ints.len() && 0 <= b < ints.len() && a != b implies ints[a] != ints[b] by {
            if a < b {
                assert(key_lt(social_key(es, order[a] as int, size), social_key(es, order[b] as int, size)));
            } else {
                assert(key_lt(social_key(es, order[b] as int, size), social_key(es, order[a] as int, size)));
            }
        }
    }
    ints.unique_seq_to_set();
    vstd::set_lib::lemma_int_range(0, es.len() as int);
    assert(ints.to_set().subset_of(vstd::set_lib::set_int_range(0, es.len() as int))) by {
        assert forall|x: int| ints.to_set().contains(x) implies vstd::set_lib::set_int_range(0, es.len() as int).contains(x) by {
            let k = choose|k: int| 0 <= k < ints.len() && ints[k] == x;
            assert(order[k] < es.len());
        }
    }
    vstd::set_lib::lemma_len_subset(ints.to_set(), vstd::set_lib::set_int_range(0, es.len() as int));
}


/// A new cluster starts at position `p` of `order`: it is the first, or the
/// event there does not cluster with the one before.
pub open spec fn is_break(es: Seq<ChronicleEventRecord>, order: Seq<usize>, p: int, window: u64) -> bool {
    p == 0 || !can_cluster_spec(Some(es[order[p - 1] as int].key), es[order[p] as int].key, window)
}

/// `ranges` cut `order` into maximal runs of events that cluster with
/// their predecessor: consecutive, non-empty, each starting at a break and
/// holding no other.
pub open spec fn chain_ranges(es: Seq<ChronicleEventRecord>, order: Seq<usize>, window: u64, ranges: Seq<(usize, usize)>) -> bool {
    &&& (order.len() == 0 <==> ranges.len() == 0)
    &&& order.len() > 0 ==> ranges[0].0 == 0 && ranges[ranges.len() - 1].1 == order.len()
    &&& forall|k: int| 0 <= k < ranges.len() ==> {
        let r = #[trigger] ranges[k];
        &&& r.0 < r.1 <= order.len()
        &&& is_break(es, order, r.0 as int, window)
        &&& forall|p: int| r.0 < p < r.1 ==> !is_break(es, order, p, window)
    }
    &&& forall|k: int| 0 <= k < ranges.len() - 1 ==> (#[trigger] ranges[k]).1 == ranges[k + 1].0
}

/// Cut `order` into runs of events that cluster with their predecessor.
pub fn chain_clusters(events: &Vec<ChronicleEventRecord>, order: &Vec<usize>, window: u64) -> (ranges: Vec<(usize, usize)>)
    requires
        forall|k: int| 0 <= k < order@.len() ==> (#[trigger] order@[k]) < events@.len(),
    ensures
        chain_ranges(events@, order@, window, ranges@),
{
    let n = order.len();
    let mut ranges: Vec<(usize, usize)> = Vec::new();
    if n == 0 {
        return ranges;
    }
    let mut start: usize = 0;
    let mut p: usize = 1;
    while p < n
        invariant
            1 <= p <= n,
            n == order@.len(),
            forall|k: int| 0 <= k < order@.len() ==> (#[trigger] order@[k]) < events@.len(),
            start < p,
            is_break(events@, order@, start as int, window),
            forall|q: int| start < q < p ==> !is_break(events@, order@, q, window),
            ranges@.len() == 0 ==> start == 0,
            ranges@.len() > 0 ==> ranges@[0].0 == 0 && ranges@[ranges@.len() - 1].1 == start,
            forall|k: int| 0 <= k < ranges@.len() ==> {
                let r = #[trigger] ranges@[k];
                &&& r.0 < r.1 <= start
                &&& is_break(events@, order@, r.0 as int, window)
                &&& forall|q: int| r.0 < q < r.1 ==> !is_break(events@, order@, q, window)
            },
            forall|k: int| 0 <= k < ranges@.len() - 1 ==> (#[trigger] ranges@[k]).1 == ranges@[k + 1].0,
        decreases n - p,
    {
        let prev = events[order[p - 1]].key;
        let next = events[order[p]].key;
        if !chronicle_events_can_cluster(Some(prev), next, window) {
            let ghost before = ranges@;
            ranges.push((start, p));
            proof {
                assert forall|k: int| 0 <= k < ranges@.len() - 1 implies (#[trigger] ranges@[k]).1 == ranges@[k + 1].0 by {
                    if k < before.len() - 1 {
                        assert(ranges@[k] == before[k] && ranges@[k + 1] == before[k + 1]);
                    } else {
                        assert(ranges@[k] == before[k]);
                    }
                }
            }
            start = p;
        }
        p = p + 1;
    }
    let ghost before = ranges@;
    ranges.push((start, n));
    proof {
        assert forall|k: int| 0 <= k < ranges@.len() - 1 implies (#[trigger] ranges@[k]).1 == ranges@[k + 1].0 by {
            if k < before.len() - 1 {
                assert(ranges@[k] == before[k] && ranges@[k + 1] == before[k + 1]);
            } else {
                assert(ranges@[k] == before[k]);
            }
        }
    }
    ranges
}

/// The entities with an event in a run of `order`.
pub open spec fn run_entities(es: Seq<ChronicleEventRecord>, order: Seq<usize>, r: (usize, usize)) -> Set<u64> {
    Set::new(|e: u64| exists|p: int| r.0 <= p < r.1 && es[order[p] as int].entity == e)
}

/// Number of distinct entities with an event in a run of `order`.
pub fn run_entity_count(events: &Vec<ChronicleEventRecord>, order: &Vec<usize>, r: (usize, usize)) -> (n: usize)
    requires
        r.0 <= r.1 <= order@.len(),
        forall|k: int| 0 <= k < order@.len() ==> (#[trigger] order@[k]) < events@.len(),
    ensures
        run_entities(events@, order@, r).finite(),
        n == run_entities(events@, order@, r).len(),
{
    let mut seen: Vec<u64> = Vec::new();
    let mut p: usize = r.0;
    while p < r.1
        invariant
            r.0 <= p <= r.1 <= order@.len(),
            forall|k: int| 0 <= k < order@.len() ==> (#[trigger] order@[k]) < events@.len(),
            crate::settlement::distinct_ids(seen@),
            seen@.to_set() == Set::new(|e: u64| exists|q: int| r.0 <= q < p && events@[order@[q] as int].entity == e),
        decreases r.1 - p,
    {
        let e = events[order[p]].entity;
        let ghost before = seen@.to_set();
        crate::settlement::insert_id(&mut seen, e);
        proof {
            assert(seen@.to_set() =~= Set::new(|x: u64| exists|q: int| r.0 <= q < p + 1 && events@[order@[q] as int].entity == x)) by {
                assert forall|x: u64| seen@.to_set().contains(x) == (exists|q: int| r.0 <= q < p + 1 && events@[order@[q] as int].entity == x) by {
                    if x == e {
                        assert(events@[order@[p as int] as int].entity == x);
                    }
                    if exists|q: int| r.0 <= q < p + 1 && events@[order@[q] as int].entity == x {
                        let q = choose|q: int| r.0 <= q < p + 1 && events@[order@[q] as int].entity == x;
                        if q < p {
                            assert(before.contains(x));
                        }
                    }
                    if before.contains(x) {
                        let q = choose|q: int| r.0 <= q < p && events@[order@[q] as int].entity == x;
                        assert(r.0 <= q < p + 1);
                    }
                }
            }
        }
        p = p + 1;
    }
    proof {
        assert(seen@.no_duplicates());
        seen@.unique_seq_to_set();
        assert(run_entities(events@, order@, r) =~= seen@.to_set());
    }
    seen.len()
}

/// The bucket side actually used: at least one.
pub open spec fn effective_bucket(size: i32) -> i32 {
    if size < 1 { 1i32 } else { size }
}

/// A run with at least `threshold` distinct entities.
pub open spec fn large_run(es: Seq<ChronicleEventRecord>, order: Seq<usize>, threshold: usize) -> spec_fn((usize, usize)) -> bool {
    |x: (usize, usize)| run_entities(es, order, x).len() >= threshold
}

/// Gatherings: the social events ordered by bucket (of side `bucket_size`,
/// at least one), tick and position, cut into runs of events that cluster
/// with their predecessor, keeping the runs of at least `group_threshold`
/// distinct entities. Returns the order and the kept runs, as ranges of it.
pub fn social_gathering_clusters(
    events: &Vec<ChronicleEventRecord>,
    bucket_size: i32,
    window: u64,
    group_threshold: usize,
) -> (r: (Vec<usize>, Vec<(usize, usize)>))
    ensures
        forall|k: int| 0 <= k < r.0@.len() ==> (#[trigger] r.0@[k]) < events@.len() && is_social(events@[r.0@[k] as int]),
        forall|a: int, b: int| 0 <= a < b < r.0@.len() ==>
            key_lt(social_key(events@, #[trigger] r.0@[a] as int, effective_bucket(bucket_size)),
                social_key(events@, #[trigger] r.0@[b] as int, effective_bucket(bucket_size))),
        forall|i: int| 0 <= i < events@.len() && is_social(#[trigger] events@[i]) ==> r.0@.contains(i as usize),
        exists|all: Seq<(usize, usize)>| chain_ranges(events@, r.0@, window, all)
            && r.1@ == all.filter(large_run(events@, r.0@, group_threshold)),
{
    let size: i32 = if bucket_size < 1 { 1 } else { bucket_size };
    assert(size == effective_bucket(bucket_size));
    let order = social_order(events, size);
    let all = chain_clusters(events, &order, window);
    let ghost keep = large_run(events@, order@, group_threshold);
    let mut kept: Vec<(usize, usize)> = Vec::new();
    let mut k: usize = 0;
    while k < all.len()
        invariant
            0 <= k <= all@.len(),
            chain_ranges(events@, order@, window, all@),
            forall|q: int| 0 <= q < order@.len() ==> (#[trigger] order@[q]) < events@.len(),
            keep == large_run(events@, order@, group_threshold),
            kept@ == all@.subrange(0, k as int).filter(keep),
        decreases all@.len() - k,
    {
        let rg = all[k];
        proof {
            assert(all@[k as int].1 <= order@.len());
            let pre = all@.subrange(0, k as int);
            assert(all@.subrange(0, k + 1) =~= pre.push(rg));
            pre.lemma_filter_push(rg, keep);
        }
        let count = run_entity_count(events, &order, rg);
        if count >= group_threshold {
            kept.push(rg);
        }
        k = k + 1;
    }
    proof {
        assert(all@.subrange(0, all@.len() as int) =~= all@);
        assert(kept@ == all@.filter(large_run(events@, order@, group_threshold)));
        assert(chain_ranges(events@, order@, window, all@));
    }
    let ghost all_ranges = all@;
    let res = (order, kept);
    proof {
        assert(chain_ranges(events@, res.0@, window, all_ranges));
        assert(res.1@ == all_ranges.filter(large_run(events@, res.0@, group_threshold)));
    }
    res
}


/// The identity of a chronicle event for summarising: tick, entity and
/// tile.
pub open spec fn event_identity(e: ChronicleEventRecord) -> (u64, u64, i32, i32) {
    (e.key.tick, e.entity, e.tile_x, e.tile_y)
}

/// Event `i` already belongs to a kept gathering: some event in a kept run
/// has its identity.
pub open spec fn consumed_spec(es: Seq<ChronicleEventRecord>, order: Seq<usize>, kept: Seq<(usize, usize)>, i: int) -> bool {
    exists|k: int, p: int| #![trigger kept[k], order[p]] 0 <= k < kept.len() && kept[k].0 <= p < kept[k].1
        && event_identity(es[order[p] as int]) == event_identity(es[i])
}

/// For each event, whether it already belongs to a kept gathering.
pub fn consumed_flags(events: &Vec<ChronicleEventRecord>, order: &Vec<usize>, kept: &Vec<(usize, usize)>) -> (flags: Vec<bool>)
    requires
        forall|k: int| 0 <= k < order@.len() ==> (#[trigger] order@[k]) < events@.len(),
        forall|k: int| 0 <= k < kept@.len() ==> (#[trigger] kept@[k]).0 <= kept@[k].1 <= order@.len(),
    ensures
        flags@.len() == events@.len(),
        forall|i: int| 0 <= i < events@.len() ==> flags@[i] == consumed_spec(events@, order@, kept@, i),
{
    let mut flags: Vec<bool> = Vec::new();
    let mut i: usize = 0;
    while i < events.len()
        invariant
            0 <= i <= events@.len(),
            forall|k: int| 0 <= k < order@.len() ==> (#[trigger] order@[k]) < events@.len(),
            forall|k: int| 0 <= k < kept@.len() ==> (#[trigger] kept@[k]).0 <= kept@[k].1 <= order@.len(),
            flags@.len() == i,
            forall|j: int| 0 <= j < i ==> flags@[j] == consumed_spec(events@, order@, kept@, j),
        decreases events@.len() - i,
    {
        let e = events[i];
        let mut found = false;
        let mut k: usize = 0;
        while k < kept.len() && !found
            invariant
                0 <= k <= kept@.len(),
                i < events@.len(),
                forall|q: int| 0 <= q < order@.len() ==> (#[trigger] order@[q]) < events@.len(),
                forall|q: int| 0 <= q < kept@.len() ==> (#[trigger] kept@[q]).0 <= kept@[q].1 <= order@.len(),
                e == events@[i as int],
                found ==> consumed_spec(events@, order@, kept@, i as int),
                !found ==> forall|kk: int, p: int| #![trigger kept@[kk], order@[p]] 0 <= kk < k && kept@[kk].0 <= p < kept@[kk].1
                    ==> event_identity(events@[order@[p] as int]) != event_identity(e),
            decreases kept@.len() - k, if found { 0int } else { 1int },
        {
            let (a, b) = kept[k];
            let mut p: usize = a;
            while p < b && !found
                invariant
                    a <= p <= b,
                    b <= order@.len(),
                    i < events@.len(),
                    k < kept@.len(),
                    (a, b) == kept@[k as int],
                    forall|q: int| 0 <= q < order@.len() ==> (#[trigger] order@[q]) < events@.len(),
                    e == events@[i as int],
                    found ==> consumed_spec(events@, order@, kept@, i as int),
                    !found ==> forall|pp: int| a <= pp < p ==> event_identity(events@[order@[pp] as int]) != event_identity(e),
                decreases b - p, if found { 0int } else { 1int },
            {
                let o = events[order[p]];
                if o.key.tick == e.key.tick && o.entity == e.entity && o.tile_x == e.tile_x && o.tile_y == e.tile_y {
                    found = true;
                    proof {
                        assert(event_identity(events@[order@[p as int] as int]) == event_identity(events@[i as int]));
                        let _t1 = kept@[k as int];
                        let _t2 = order@[p as int];
                    }
                } else {
                    p = p + 1;
                }
            }
            if !found {
                proof {
                    assert forall|kk: int, pp: int| #![trigger kept@[kk], order@[pp]] 0 <= kk < k + 1 && kept@[kk].0 <= pp < kept@[kk].1
                        implies event_identity(events@[order@[pp] as int]) != event_identity(e) by {
                    }
                }
                k = k + 1;
            }
        }
        proof {
            if !found {
                assert(!consumed_spec(events@, order@, kept@, i as int));
            }
        }
        flags.push(found);
        i = i + 1;
    }
    flags
}

/// Sort key of an event for per-entity clustering: its entity, then its
/// position.
pub open spec fn entity_key(es: Seq<ChronicleEventRecord>, i: int) -> (int, int) {
    (es[i].entity as int, i)
}

/// Lexicographic order on entity keys.
pub open spec fn pair_lt(a: (int, int), b: (int, int)) -> bool {
    a.0 < b.0 || (a.0 == b.0 && a.1 < b.1)
}

/// The events not consumed, by position, grouped by entity (ascending) and
/// in list order within an entity.
pub fn entity_order(events: &Vec<ChronicleEventRecord>, consumed: &Vec<bool>) -> (order: Vec<usize>)
    requires
        consumed@.len() == events@.len(),
    ensures
        forall|k: int| 0 <= k < order@.len() ==> (#[trigger] order@[k]) < events@.len() && !consumed@[order@[k] as int],
        forall|a: int, b: int| 0 <= a < b < order@.len() ==>
            pair_lt(entity_key(events@, #[trigger] order@[a] as int), entity_key(events@, #[trigger] order@[b] as int)),
        forall|i: int| 0 <= i < events@.len() && !(#[trigger] consumed@[i]) ==> order@.contains(i as usize),
{
    let n = events.len();
    let mut order: Vec<usize> = Vec::new();
    let mut last: Option<(u64, usize)> = None;
    loop
        invariant
            n == events@.len(),
            consumed@.len() == n,
            order@.len() <= n,
            forall|k: int| 0 <= k < order@.len() ==> (#[trigger] order@[k]) < n && !consumed@[order@[k] as int],
            forall|a: int, b: int| 0 <= a < b < order@.len() ==>
                pair_lt(entity_key(events@, #[trigger] order@[a] as int), entity_key(events@, #[trigger] order@[b] as int)),
            match last {
                None => order@.len() == 0,
                Some(l) => order@.len() > 0 && (l.0 as int, l.1 as int) == entity_key(events@, order@[order@.len() - 1] as int),
            },
            forall|j: int| 0 <= j < n && !(#[trigger] consumed@[j]) ==> order@.contains(j as usize) || match last {
                None => true,
                Some(l) => pair_lt((l.0 as int, l.1 as int), entity_key(events@, j)),
            },
        decreases n - order@.len(),
    {
        let mut best: Option<usize> = None;
        let mut j: usize = 0;
        while j < n
            invariant
                0 <= j <= n,
                n == events@.len(),
                consumed@.len() == n,
                match best {
                    None => forall|q: int| 0 <= q < j && !(#[trigger] consumed@[q]) ==> match last {
                        None => false,
                        Some(l) => !pair_lt((l.0 as int, l.1 as int), entity_key(events@, q)),
                    },
                    Some(b) => b < j && !consumed@[b as int]
                        && match last {
                            None => true,
                            Some(l) => pair_lt((l.0 as int, l.1 as int), entity_key(events@, b as int)),
                        }
                        && forall|q: int| 0 <= q < j && !(#[trigger] consumed@[q]) && match last {
                            None => true,
                            Some(l) => pair_lt((l.0 as int, l.1 as int), entity_key(events@, q)),
                        } ==> q == b || pair_lt(entity_key(events@, b as int), entity_key(events@, q)),
                },
            decreases n - j,
        {
            let after_last = match last {
                None => true,
                Some(l) => l.0 < events[j].entity || (l.0 == events[j].entity && l.1 < j),
            };
            if !consumed[j] && after_last {
                match best {
                    None => best = Some(j),
                    Some(b) => {
                        let ej = events[j].entity;
                        let eb = events[b].entity;
                        if ej < eb || (ej == eb && j < b) {
                            best = Some(j);
                        }
                    },
                }
            }
            j = j + 1;
        }
        match best {
            None => {
                return order;
            },
            Some(b) => {
                let ghost before = order@;
                order.push(b);
                last = Some((events[b].entity, b));
                proof {
                    assert forall|a: int, c: int| 0 <= a < c < order@.len() implies
                        pair_lt(entity_key(events@, #[trigger] order@[a] as int), entity_key(events@, #[trigger] order@[c] as int)) by {
                        if c == order@.len() - 1 && a < c {
                            assert(order@[a] == before[a]);
                            if a < before.len() - 1 {
                                assert(pair_lt(entity_key(events@, before[a] as int), entity_key(events@, before[before.len() - 1] as int)));
                            }
                        } else if c < order@.len() - 1 {
                            assert(order@[a] == before[a] && order@[c] == before[c]);
                        }
                    }
                    assert forall|q: int| 0 <= q < n && !(#[trigger] consumed@[q]) implies order@.contains(q as usize) || match last {
                        None => true,
                        Some(l) => pair_lt((l.0 as int, l.1 as int), entity_key(events@, q)),
                    } by {
                        if before.contains(q as usize) {
                            let k = choose|k: int| 0 <= k < before.len() && before[k] == q as usize;
                            assert(order@[k] == q as usize);
                        } else if q == b as int {
                            assert(order@[order@.len() - 1] == q as usize);
                        }
                    }
                    lemma_entity_positions_bounded(events@, order@);
                }
            },
        }
    }
}

/// Positions strictly ascending by entity key are no more than the events.
pub proof fn lemma_entity_positions_bounded(es: Seq<ChronicleEventRecord>, order: Seq<usize>)
    requires
        forall|k: int| 0 <= k < order.len() ==> (#[trigger] order[k]) < es.len(),
        forall|a: int, b: int| 0 <= a < b < order.len() ==>
            pair_lt(entity_key(es, #[trigger] order[a] as int), entity_key(es, #[trigger] order[b] as int)),
    ensures
        order.len() <= es.len(),
{
    let ints = order.map_values(|x: usize| x as int);
    assert(ints.no_duplicates()) by {
        assert forall|a: int, b: int| 0 <= a < ints.len() && 0 <= b < ints.len() && a != b implies ints[a] != ints[b] by {
            if a < b {
                assert(pair_lt(entity_key(es, order[a] as int), entity_key(es, order[b] as int)));
            } else {
                assert(pair_lt(entity_key(es, order[b] as int), entity_key(es, order[a] as int)));
            }
        }
    }
    ints.unique_seq_to_set();
    vstd::set_lib::lemma_int_range(0, es.len() as int);
    assert(ints.to_set().subset_of(vstd::set_lib::set_int_range(0, es.len() as int))) by {
        assert forall|x: int| ints.to_set().contains(x) implies vstd::set_lib::set_int_range(0, es.len() as int).contains(x) by {
            let k = choose|k: int| 0 <= k < ints.len() && ints[k] == x;
            assert(order[k] < es.len());
        }
    }
    vstd::set_lib::lemma_len_subset(ints.to_set(), vstd::set_lib::set_int_range(0, es.len() as int));
}

/// A new per-entity cluster starts at position `p` of `order`: it is the
/// first, the entity changes, or the event does not cluster with the one
/// before.
pub open spec fn is_entity_break(es: Seq<ChronicleEventRecord>, order: Seq<usize>, p: int, window: u64) -> bool {
    p == 0 || es[order[p - 1] as int].entity != es[order[p] as int].entity
        || !can_cluster_spec(Some(es[order[p - 1] as int].key), es[order[p] as int].key, window)
}

/// `ranges` cut `order` into maximal per-entity runs of clustering events.
pub open spec fn entity_ranges(es: Seq<ChronicleEventRecord>, order: Seq<usize>, window: u64, ranges: Seq<(usize, usize)>) -> bool {
    &&& (order.len() == 0 <==> ranges.len() == 0)
    &&& order.len() > 0 ==> ranges[0].0 == 0 && ranges[ranges.len() - 1].1 == order.len()
    &&& forall|k: int| 0 <= k < ranges.len() ==> {
        let r = #[trigger] ranges[k];
        &&& r.0 < r.1 <= order.len()
        &&& is_entity_break(es, order, r.0 as int, window)
        &&& forall|p: int| r.0 < p < r.1 ==> !is_entity_break(es, order, p, window)
    }
    &&& forall|k: int| 0 <= k < ranges.len() - 1 ==> (#[trigger] ranges[k]).1 == ranges[k + 1].0
}

/// Cut the per-entity order into runs: a run ends where the entity changes
/// or the next event does not cluster with the one before.
pub fn entity_clusters(events: &Vec<ChronicleEventRecord>, order: &Vec<usize>, window: u64) -> (ranges: Vec<(usize, usize)>)
    requires
        forall|k: int| 0 <= k < order@.len() ==> (#[trigger] order@[k]) < events@.len(),
    ensures
        entity_ranges(events@, order@, window, ranges@),
{
    let n = order.len();
    let mut ranges: Vec<(usize, usize)> = Vec::new();
    if n == 0 {
        return ranges;
    }
    let mut start: usize = 0;
    let mut p: usize = 1;
    while p < n
        invariant
            1 <= p <= n,
            n == order@.len(),
            forall|k: int| 0 <= k < order@.len() ==> (#[trigger] order@[k]) < events@.len(),
            start < p,
            is_entity_break(events@, order@, start as int, window),
            forall|q: int| start < q < p ==> !is_entity_break(events@, order@, q, window),
            ranges@.len() == 0 ==> start == 0,
            ranges@.len() > 0 ==> ranges@[0].0 == 0 && ranges@[ranges@.len() - 1].1 == start,
            forall|k: int| 0 <= k < ranges@.len() ==> {
                let r = #[trigger] ranges@[k];
                &&& r.0 < r.1 <= start
                &&& is_entity_break(events@, order@, r.0 as int, window)
                &&& forall|q: int| r.0 < q < r.1 ==> !is_entity_break(events@, order@, q, window)
            },
            forall|k: int| 0 <= k < ranges@.len() - 1 ==> (#[trigger] ranges@[k]).1 == ranges@[k + 1].0,
        decreases n - p,
    {
        let prev = events[order[p - 1]];
        let next = events[order[p]];
        if prev.entity != next.entity || !chronicle_events_can_cluster(Some(prev.key), next.key, window) {
            let ghost before = ranges@;
            ranges.push((start, p));
            proof {
                assert forall|k: int| 0 <= k < ranges@.len() - 1 implies (#[trigger] ranges@[k]).1 == ranges@[k + 1].0 by {
                    if k < before.len() - 1 {
                        assert(ranges@[k] == before[k] && ranges@[k + 1] == before[k + 1]);
                    } else {
                        assert(ranges@[k] == before[k]);
                    }
                }
            }
            start = p;
        }
        p = p + 1;
    }
    let ghost before = ranges@;
    ranges.push((start, n));
    proof {
        assert forall|k: int| 0 <= k < ranges@.len() - 1 implies (#[trigger] ranges@[k]).1 == ranges@[k + 1].0 by {
            if k < before.len() - 1 {
                assert(ranges@[k] == before[k] && ranges@[k + 1] == before[k + 1]);
            } else {
                assert(ranges@[k] == before[k]);
            }
        }
    }
    ranges
}


/// The clusters of a chronicle summary: the social order with its kept
/// gatherings, then the remaining events by entity with their runs.
#[derive(Debug)]
pub struct ChronicleClusters {
    pub social_order: Vec<usize>,
    pub gatherings: Vec<(usize, usize)>,
    pub entity_order: Vec<usize>,
    pub entity_runs: Vec<(usize, usize)>,
}

/// Cluster recent chronicle events for summarising: social gatherings
/// first (see [`social_gathering_clusters`]); every other event, except
/// those sharing tick, entity and tile with an event of a gathering, is
/// grouped by entity (ascending) and cut into runs of events that cluster
/// with their predecessor.
pub fn chronicle_clusters(events: &Vec<ChronicleEventRecord>, bucket_size: i32, window: u64, group_threshold: usize)
    -> (c: ChronicleClusters)
    ensures
        forall|k: int| 0 <= k < c.social_order@.len() ==> (#[trigger] c.social_order@[k]) < events@.len()
            && is_social(events@[c.social_order@[k] as int]),
        forall|a: int, b: int| 0 <= a < b < c.social_order@.len() ==>
            key_lt(social_key(events@, #[trigger] c.social_order@[a] as int, effective_bucket(bucket_size)),
                social_key(events@, #[trigger] c.social_order@[b] as int, effective_bucket(bucket_size))),
        forall|i: int| 0 <= i < events@.len() && is_social(#[trigger] events@[i]) ==> c.social_order@.contains(i as usize),
        exists|all: Seq<(usize, usize)>| chain_ranges(events@, c.social_order@, window, all)
            && c.gatherings@ == all.filter(large_run(events@, c.social_order@, group_threshold)),
        forall|k: int| 0 <= k < c.entity_order@.len() ==> (#[trigger] c.entity_order@[k]) < events@.len()
            && !consumed_spec(events@, c.social_order@, c.gatherings@, c.entity_order@[k] as int),
        forall|a: int, b: int| 0 <= a < b < c.entity_order@.len() ==>
            pair_lt(entity_key(events@, #[trigger] c.entity_order@[a] as int), entity_key(events@, #[trigger] c.entity_order@[b] as int)),
        forall|i: int| 0 <= i < events@.len() && !consumed_spec(events@, c.social_order@, c.gatherings@, i)
            ==> #[trigger] c.entity_order@.contains(i as usize),
        entity_ranges(events@, c.entity_order@, window, c.entity_runs@),
{
    let (social_order, gatherings) = social_gathering_clusters(events, bucket_size, window, group_threshold);
    let ghost all = choose|all: Seq<(usize, usize)>| chain_ranges(events@, social_order@, window, all)
        && gatherings@ == all.filter(large_run(events@, social_order@, group_threshold));
    proof {
        assert forall|k: int| 0 <= k < gatherings@.len() implies (#[trigger] gatherings@[k]).0 <= gatherings@[k].1 <= social_order@.len() by {
            let keep = large_run(events@, social_order@, group_threshold);
            all.lemma_filter_contains_rev(keep, gatherings@[k]);
            assert(all.filter(keep).contains(gatherings@[k])) by {
                assert(all.filter(keep)[k] == gatherings@[k]);
            }
            let j = choose|j: int| 0 <= j < all.len() && all[j] == gatherings@[k];
            assert(all[j].0 < all[j].1);
        }
    }
    let consumed = consumed_flags(events, &social_order, &gatherings);
    let entity_order = entity_order(events, &consumed);
    let entity_runs = entity_clusters(events, &entity_order, window);
    let c = ChronicleClusters { social_order, gatherings, entity_order, entity_runs };
    proof {
        assert(chain_ranges(events@, c.social_order@, window, all));
        assert(c.gatherings@ == all.filter(large_run(events@, c.social_order@, group_threshold)));
        assert forall|i: int| 0 <= i < events@.len() && !consumed_spec(events@, c.social_order@, c.gatherings@, i)
            implies #[trigger] c.entity_order@.contains(i as usize) by {
            assert(consumed@[i] == consumed_spec(events@, c.social_order@, c.gatherings@, i));
        }
        assert forall|k: int| 0 <= k < c.entity_order@.len() implies (#[trigger] c.entity_order@[k]) < events@.len()
            && !consumed_spec(events@, c.social_order@, c.gatherings@, c.entity_order@[k] as int) by {
            assert(consumed@[c.entity_order@[k] as int] == consumed_spec(events@, c.social_order@, c.gatherings@, c.entity_order@[k] as int));
        }
    }
    c
}


/// The parts of a chronicle entry that do not rest on significance
/// scores: span, kind, locale keys, detail tags, family, subject, count
/// and tile.
#[derive(Debug)]
pub struct EntryFrame {
    pub start_tick: u64,
    pub end_tick: u64,
    pub event_type: ChronicleEventType,
    pub cause: ChronicleEventCause,
    pub headline_key: &'static str,
    pub capsule_key: &'static str,
    pub dossier_key: &'static str,
    pub detail_tags: Vec<String>,
    pub family: Option<String>,
    /// The entity the entry is about; none for a group.
    pub entity: Option<u64>,
    /// The count shown: events of a cluster, entities of a gathering.
    pub count: usize,
    /// Tile of the run's last event.
    pub tile: (i32, i32),
}

/// The frame has the keys, tags and family of its event type and cause.
pub open spec fn frame_texts(f: EntryFrame, t: ChronicleEventType, c: ChronicleEventCause, is_group: bool) -> bool {
    &&& (f.headline_key@, f.capsule_key@, f.dossier_key@) == template_keys_spec(template_spec(t, c, is_group))
    &&& str_views(f.detail_tags@) == template_tags_spec(template_spec(t, c, is_group))
    &&& match family_spec(t, c, is_group) {
        Some(x) => f.family is Some && f.family.unwrap()@ == x,
        None => f.family is None,
    }
}

/// The run `r` of `order` is valid and `dominant` lies in it.
pub open spec fn run_ok(es: Seq<ChronicleEventRecord>, order: Seq<usize>, r: (usize, usize), dominant: usize) -> bool {
    &&& r.0 <= dominant < r.1 <= order.len()
    &&& forall|k: int| 0 <= k < order.len() ==> (#[trigger] order[k]) < es.len()
}

/// Texts of an entry for an event type and cause.
fn frame_parts(t: ChronicleEventType, c: ChronicleEventCause, is_group: bool)
    -> (r: (&'static str, &'static str, &'static str, Vec<String>, Option<String>))
    ensures
        (r.0@, r.1@, r.2@) == template_keys_spec(template_spec(t, c, is_group)),
        str_views(r.3@) == template_tags_spec(template_spec(t, c, is_group)),
        match family_spec(t, c, is_group) {
            Some(x) => r.4 is Some && r.4.unwrap()@ == x,
            None => r.4 is None,
        },
{
    let keys = chronicle_template_keys(t, c, is_group);
    let tags = chronicle_dossier_stub_tags(t, c, is_group);
    let family = chronicle_event_family(t, c, is_group);
    (keys.0, keys.1, keys.2, tags, family)
}

/// The frame of one entity's run of events `r` (positions of `order`) whose
/// most significant event is at position `dominant`: it spans the run's
/// first to last tick, takes the dominant event's type and cause, is about
/// the run's entity, counts the run's events and sits on its last tile.
pub fn cluster_entry_frame(events: &Vec<ChronicleEventRecord>, order: &Vec<usize>, r: (usize, usize), dominant: usize)
    -> (f: EntryFrame)
    requires
        run_ok(events@, order@, r, dominant),
    ensures
        ({
            let d = events@[order@[dominant as int] as int];
            let first = events@[order@[r.0 as int] as int];
            let last = events@[order@[r.1 - 1] as int];
            &&& f.start_tick == first.key.tick && f.end_tick == last.key.tick
            &&& f.event_type == d.key.event_type && f.cause == d.key.cause
            &&& frame_texts(f, d.key.event_type, d.key.cause, false)
            &&& f.entity == Some(first.entity)
            &&& f.count == r.1 - r.0
            &&& f.tile == (last.tile_x, last.tile_y)
        }),
{
    let d = events[order[dominant]];
    let first = events[order[r.0]];
    let last = events[order[r.1 - 1]];
    let (h, c, k, tags, family) = frame_parts(d.key.event_type, d.key.cause, false);
    EntryFrame {
        start_tick: first.key.tick,
        end_tick: last.key.tick,
        event_type: d.key.event_type,
        cause: d.key.cause,
        headline_key: h,
        capsule_key: c,
        dossier_key: k,
        detail_tags: tags,
        family,
        entity: Some(first.entity),
        count: r.1 - r.0,
        tile: (last.tile_x, last.tile_y),
    }
}

/// The frame of a gathering, the run `r` of the social order whose most
/// significant event is at `dominant`: a social gathering formation with the
/// group texts of the dominant event, about no single entity, counting the
/// distinct entities present, on the run's last tile.
pub fn gathering_entry_frame(events: &Vec<ChronicleEventRecord>, order: &Vec<usize>, r: (usize, usize), dominant: usize)
    -> (f: EntryFrame)
    requires
        run_ok(events@, order@, r, dominant),
    ensures
        ({
            let d = events@[order@[dominant as int] as int];
            let first = events@[order@[r.0 as int] as int];
            let last = events@[order@[r.1 - 1] as int];
            &&& f.start_tick == first.key.tick && f.end_tick == last.key.tick
            &&& f.event_type == ChronicleEventType::GatheringFormation && f.cause == ChronicleEventCause::Social
            &&& frame_texts(f, d.key.event_type, d.key.cause, true)
            &&& f.entity is None
            &&& f.count == run_entities(events@, order@, r).len()
            &&& f.tile == (last.tile_x, last.tile_y)
        }),
{
    let d = events[order[dominant]];
    let first = events[order[r.0]];
    let last = events[order[r.1 - 1]];
    let (h, c, k, tags, family) = frame_parts(d.key.event_type, d.key.cause, true);
    let count = run_entity_count(events, order, r);
    EntryFrame {
        start_tick: first.key.tick,
        end_tick: last.key.tick,
        event_type: ChronicleEventType::GatheringFormation,
        cause: ChronicleEventCause::Social,
        headline_key: h,
        capsule_key: c,
        dossier_key: k,
        detail_tags: tags,
        family,
        entity: None,
        count,
        tile: (last.tile_x, last.tile_y),
    }
}


/// A population statistics snapshot of one tick (the reserve totals, which
/// are floating point, are added by the caller).
#[derive(Debug, Clone, Copy, PartialEq, Eq, Structural)]
pub struct PopulationSnapshot {
    pub tick: u64,
    pub census: PopulationCensus,
}

impl StatsRecorderRuntimeSystem {
    /// One recording run at `tick`: count the living agents by job, append
    /// the snapshot to the history (which keeps its newest
    /// [`STATS_RECORDER_MAX_HISTORY`] entries), and raise the population peak
    /// to the count when it is higher. Returns the snapshot.
    pub fn record(
        &self,
        agents: &Vec<(bool, Option<String>)>,
        tick: u64,
        history: &mut Vec<PopulationSnapshot>,
        peak: &mut usize,
    ) -> (snap: PopulationSnapshot)
        ensures
            snap.tick == tick,
            snap.census.pop == count_living(agents@, |j: Option<String>| true),
            snap.census.gatherers == sat_u32(count_living(agents@, has_job("gatherer"@))),
            snap.census.lumberjacks == sat_u32(count_living(agents@, has_job("lumberjack"@))),
            snap.census.builders == sat_u32(count_living(agents@, has_job("builder"@))),
            snap.census.miners == sat_u32(count_living(agents@, has_job("miner"@))),
            snap.census.none_job == sat_u32(count_living(agents@, no_listed_job())),
            snap.census.pop <= u32::MAX ==> snap.census.gatherers + snap.census.lumberjacks + snap.census.builders
                + snap.census.miners + snap.census.none_job == snap.census.pop,
            *final(peak) == (if snap.census.pop > *old(peak) { snap.census.pop } else { *old(peak) }),
            ({
                let full = old(history)@.push(snap);
                final(history)@ == if full.len() > STATS_RECORDER_MAX_HISTORY {
                    full.subrange(full.len() - STATS_RECORDER_MAX_HISTORY, full.len() as int)
                } else {
                    full
                }
            }),
    {
        let census = population_census(agents);
        if census.pop > *peak {
            *peak = census.pop;
        }
        let snap = PopulationSnapshot { tick, census };
        push_bounded(history, snap, STATS_RECORDER_MAX_HISTORY);
        snap
    }
}

} // verus!
