use vstd::prelude::*;

use crate::agent::AgentId;
use crate::decision::{lookup_position, position_of};
use crate::geometry::{chebyshev, chebyshev_spec};
use crate::tiles::Tile;

verus! {

/// Identifier of a settlement.
pub type SettlementId = u64;

/// Identifier of a building.
pub type BuildingId = u64;

/// Identifier of a recorded causal event.
pub type EventId = u64;

/// Ticks that must pass between two births in one settlement (and after its
/// formation before the first birth).
pub const BIRTH_COOLDOWN_TICKS: u64 = 200;

/// The settlement rule parameters.
#[derive(Debug, Clone, Copy, PartialEq, Eq, Structural)]
pub struct SettlementRules {
    /// Chebyshev radius of a settlement around its formation tile.
    pub proximity_radius: u32,
    /// Agents needed within the radius to form a settlement.
    pub formation_agent_threshold: u32,
    /// Buildings needed within the radius to form a settlement.
    pub formation_building_threshold: u32,
    /// Population at which a settlement stops growing.
    pub max_pop: u32,
}

/// A settlement and the state the settlement systems keep for it.
#[derive(Debug)]
pub struct Settlement {
    pub id: SettlementId,
    /// Anchor tile for membership and routing.
    pub formation_tile: Tile,
    /// Event recorded when the settlement formed.
    pub formation_event: EventId,
    /// Tick of formation.
    pub founded_at: u64,
    /// Tick of the last birth (formation tick before the first birth).
    pub birth_last_tick: u64,
    /// Population at the last tick the settlement had members and buildings.
    pub last_known_population: Option<u32>,
    /// Member agents (each once).
    pub member_agents: Vec<AgentId>,
    /// Member buildings (each once).
    pub member_buildings: Vec<BuildingId>,
    /// Recorded population.
    pub current: u32,
    /// Births so far.
    pub total_births: u32,
    /// Routed event ids, oldest first.
    pub community_history: Vec<EventId>,
    /// Communal food reserve.
    pub stockpile_food: u64,
}

/// The elements of `s` are pairwise distinct.
pub open spec fn distinct_ids(s: Seq<u64>) -> bool {
    forall|i: int, j: int| 0 <= i < s.len() && 0 <= j < s.len() && i != j ==> #[trigger] s[i] != #[trigger] s[j]
}

/// The `(id, tile)` list has pairwise distinct ids.
pub open spec fn distinct_keys(s: Seq<(u64, Tile)>) -> bool {
    forall|i: int, j: int| 0 <= i < s.len() && 0 <= j < s.len() && i != j ==> #[trigger] s[i].0 != #[trigger] s[j].0
}

/// Ids of the `(id, tile)` entries within `radius` of `anchor`.
pub open spec fn ids_near(s: Seq<(u64, Tile)>, anchor: Tile, radius: u32) -> Set<u64> {
    Set::new(|id: u64| exists|i: int| 0 <= i < s.len() && s[i].0 == id && chebyshev_spec(anchor, s[i].1) <= radius)
}

/// Some entry among the first `n` has id `id` and lies within `radius` of `anchor`.
pub open spec fn near_in_prefix(s: Seq<(u64, Tile)>, anchor: Tile, radius: u32, n: int, id: u64) -> bool {
    exists|j: int| 0 <= j < n && s[j].0 == id && chebyshev_spec(anchor, s[j].1) <= radius
}

/// Whether `id` is in `v`.
pub fn contains_id(v: &Vec<u64>, id: u64) -> (b: bool)
    ensures
        b == v@.contains(id),
{
    let mut i: usize = 0;
    while i < v.len()
        invariant
            0 <= i <= v@.len(),
            forall|j: int| 0 <= j < i ==> v@[j] != id,
        decreases v@.len() - i,
    {
        if v[i] == id {
            assert(v@[i as int] == id);
            return true;
        }
        i = i + 1;
    }
    false
}

/// Add `id` to a distinct-id list unless it is already there.
pub fn insert_id(v: &mut Vec<u64>, id: u64)
    requires
        distinct_ids(old(v)@),
    ensures
        distinct_ids(final(v)@),
        final(v)@.to_set() == old(v)@.to_set().insert(id),
        old(v)@.contains(id) ==> final(v)@ == old(v)@,
        !old(v)@.contains(id) ==> final(v)@ == old(v)@.push(id),
{
    if !contains_id(v, id) {
        v.push(id);
        proof {
            assert(final(v)@.to_set() =~= old(v)@.to_set().insert(id)) by {
                assert forall|x: u64| final(v)@.to_set().contains(x) == old(v)@.to_set().insert(id).contains(x) by {
                    if old(v)@.contains(x) {
                        let j = choose|j: int| 0 <= j < old(v)@.len() && old(v)@[j] == x;
                        assert(final(v)@[j] == x);
                    }
                    if x == id {
                        assert(final(v)@[old(v)@.len() as int] == x);
                    }
                    if final(v)@.contains(x) && x != id {
                        let j = choose|j: int| 0 <= j < final(v)@.len() && final(v)@[j] == x;
                        assert(old(v)@[j] == x);
                    }
                }
            }
        }
    } else {
        assert(old(v)@.to_set().insert(id) =~= old(v)@.to_set());
    }
}

/// The ids of entries within `radius` of `anchor`, in list order.
pub fn collect_near(entries: &Vec<(u64, Tile)>, anchor: Tile, radius: u32) -> (r: Vec<u64>)
    requires
        distinct_keys(entries@),
    ensures
        distinct_ids(r@),
        r@.to_set() == ids_near(entries@, anchor, radius),
        r@.len() == ids_near(entries@, anchor, radius).len(),
{
    let mut out: Vec<u64> = Vec::new();
    let mut i: usize = 0;
    while i < entries.len()
        invariant
            0 <= i <= entries@.len(),
            distinct_keys(entries@),
            distinct_ids(out@),
            forall|k: int| 0 <= k < out@.len() ==> #[trigger] near_in_prefix(entries@, anchor, radius, i as int, out@[k]),
            forall|j: int| 0 <= j < i && chebyshev_spec(anchor, #[trigger] entries@[j].1) <= radius ==> out@.contains(entries@[j].0),
        decreases entries@.len() - i,
    {
        let (id, t) = entries[i];
        if chebyshev(anchor, t) <= radius {
            proof {
                assert forall|k: int| 0 <= k < out@.len() implies out@[k] != id by {
                    assert(near_in_prefix(entries@, anchor, radius, i as int, out@[k]));
                    let j = choose|j: int| 0 <= j < i && entries@[j].0 == out@[k] && chebyshev_spec(anchor, entries@[j].1) <= radius;
                    assert(j != i);
                }
            }
            let ghost prev = out@;
            out.push(id);
            proof {
                assert(out@[out@.len() - 1] == id);
                assert forall|k: int| 0 <= k < out@.len() implies #[trigger] near_in_prefix(entries@, anchor, radius, i + 1, out@[k]) by {
                    if k == out@.len() - 1 {
                        assert(entries@[i as int].0 == out@[k]);
                    } else {
                        assert(out@[k] == prev[k]);
                        assert(near_in_prefix(entries@, anchor, radius, i as int, prev[k]));
                    }
                }
                assert forall|j: int| 0 <= j < i + 1 && chebyshev_spec(anchor, #[trigger] entries@[j].1) <= radius implies out@.contains(entries@[j].0) by {
                    if j == i {
                        assert(out@[out@.len() - 1] == entries@[j].0);
                    } else {
                        assert(prev.contains(entries@[j].0));
                        let k = choose|k: int| 0 <= k < prev.len() && prev[k] == entries@[j].0;
                        assert(out@[k] == entries@[j].0);
                    }
                }
            }
        } else {
            proof {
                assert forall|k: int| 0 <= k < out@.len() implies #[trigger] near_in_prefix(entries@, anchor, radius, i + 1, out@[k]) by {
                    assert(near_in_prefix(entries@, anchor, radius, i as int, out@[k]));
                }
            }
        }
        i = i + 1;
    }
    proof {
        assert(out@.to_set() =~= ids_near(entries@, anchor, radius)) by {
            assert forall|x: u64| out@.to_set().contains(x) implies ids_near(entries@, anchor, radius).contains(x) by {
                let k = choose|k: int| 0 <= k < out@.len() && out@[k] == x;
                assert(near_in_prefix(entries@, anchor, radius, entries@.len() as int, out@[k]));
            }
            assert forall|x: u64| ids_near(entries@, anchor, radius).contains(x) implies out@.to_set().contains(x) by {
                let j = choose|j: int| 0 <= j < entries@.len() && entries@[j].0 == x && chebyshev_spec(anchor, entries@[j].1) <= radius;
                assert(out@.contains(entries@[j].0));
            }
        }
        out@.unique_seq_to_set();
    }
    out
}


/// Events the settlement system records; the caller writes them to the
/// causal log (and spawns the born agents).
#[derive(Debug)]
pub enum SettlementEvent {
    /// A settlement formed at `tile` with these founders (ascending ids).
    Formed { id: EventId, settlement: SettlementId, founding_members: Vec<AgentId>, tile: Tile },
    /// An agent was born at `tile` into `settlement`.
    Born { id: EventId, parent: EventId, settlement: SettlementId, agent: AgentId, tile: Tile },
    /// A settlement dissolved.
    Dissolved { id: EventId, parent: EventId, settlement: SettlementId, final_population: u32, tile: Tile },
}

/// Settlements plus the id counters they draw from.
#[derive(Debug)]
pub struct SettlementTable {
    /// Settlements in ascending id order.
    pub settlements: Vec<Settlement>,
    pub next_settlement_id: u64,
    pub next_event_id: u64,
    pub next_agent_id: u64,
}

impl SettlementTable {
    /// Ids strictly ascending and below the settlement counter; member lists
    /// hold each id once.
    pub open spec fn wf(&self) -> bool {
        &&& forall|i: int, j: int| 0 <= i < j < self.settlements@.len() ==> #[trigger] self.settlements@[i].id < #[trigger] self.settlements@[j].id
        &&& forall|i: int| 0 <= i < self.settlements@.len() ==> #[trigger] self.settlements@[i].id < self.next_settlement_id
        &&& forall|i: int| 0 <= i < self.settlements@.len() ==> distinct_ids(#[trigger] self.settlements@[i].member_agents@)
        &&& forall|i: int| 0 <= i < self.settlements@.len() ==> distinct_ids(#[trigger] self.settlements@[i].member_buildings@)
    }

    /// An empty table with counters starting at 1.
    pub fn new() -> (t: SettlementTable)
        ensures
            t.wf(),
            t.settlements@.len() == 0,
            t.next_settlement_id == 1,
            t.next_event_id == 1,
            t.next_agent_id == 1,
    {
        SettlementTable { settlements: Vec::new(), next_settlement_id: 1, next_event_id: 1, next_agent_id: 1 }
    }
}

/// Whether a settlement is healthy: it has members and buildings.
pub open spec fn healthy(s: &Settlement) -> bool {
    s.current > 0 && s.member_buildings@.len() > 0
}

/// Whether a settlement is to be dissolved: no population and no buildings.
pub open spec fn abandoned(s: &Settlement) -> bool {
    s.current == 0 && s.member_buildings@.len() == 0
}


/// The runtime settlement system: membership, formation, history routing,
/// births and dissolution.
#[derive(Debug)]
pub struct SettlementSystem {
    rules: SettlementRules,
    seen_building_ids: Vec<BuildingId>,
    tick_run_count: u64,
    routed_this_tick: Vec<(SettlementId, EventId)>,
}

impl SettlementSystem {
    /// The rules this system runs with.
    pub closed spec fn rules_spec(&self) -> SettlementRules {
        self.rules
    }

    /// Runs so far.
    pub closed spec fn run_count_spec(&self) -> u64 {
        self.tick_run_count
    }

    /// A fresh system with no local state.
    pub fn new(rules: SettlementRules) -> (s: SettlementSystem)
        ensures
            s.rules_spec() == rules,
            s.run_count_spec() == 0,
    {
        SettlementSystem { rules, seen_building_ids: Vec::new(), tick_run_count: 0, routed_this_tick: Vec::new() }
    }

    /// Name under which the system is scheduled.
    pub fn name(&self) -> (n: &'static str)
        ensures
            n@ == "SettlementSystem"@,
    {
        "SettlementSystem"
    }

    /// Scheduling priority.
    pub fn priority(&self) -> (p: u32)
        ensures
            p == 138,
    {
        138
    }

    /// Ticks between runs.
    pub fn tick_interval(&self) -> (t: u64)
        ensures
            t == 1,
    {
        1
    }

    /// Number of times [`Self::tick`] has run.
    pub fn tick_run_count(&self) -> (n: u64)
        ensures
            n == self.run_count_spec(),
    {
        self.tick_run_count
    }
}

/// Record the population of every healthy settlement as its last known
/// population.
pub fn snapshot_pre_clearing_population(table: &mut SettlementTable)
    ensures
        final(table).settlements@.len() == old(table).settlements@.len(),
        final(table).next_settlement_id == old(table).next_settlement_id,
        final(table).next_event_id == old(table).next_event_id,
        final(table).next_agent_id == old(table).next_agent_id,
        forall|i: int| 0 <= i < final(table).settlements@.len() ==> {
            let a = #[trigger] final(table).settlements@[i];
            let b = old(table).settlements@[i];
            &&& a.last_known_population == (if healthy(&b) { Some(b.current) } else { b.last_known_population })
            &&& a.id == b.id && a.formation_tile == b.formation_tile && a.formation_event == b.formation_event
            &&& a.founded_at == b.founded_at && a.birth_last_tick == b.birth_last_tick
            &&& a.member_agents@ == b.member_agents@ && a.member_buildings@ == b.member_buildings@
            &&& a.current == b.current && a.total_births == b.total_births
            &&& a.community_history@ == b.community_history@ && a.stockpile_food == b.stockpile_food
        },
{
    let n = table.settlements.len();
    let mut i: usize = 0;
    while i < n
        invariant
            n == table.settlements@.len(),
            n == old(table).settlements@.len(),
            0 <= i <= n,
            table.next_settlement_id == old(table).next_settlement_id,
            table.next_event_id == old(table).next_event_id,
            table.next_agent_id == old(table).next_agent_id,
            forall|k: int| i <= k < n ==> #[trigger] table.settlements@[k] == old(table).settlements@[k],
            forall|k: int| 0 <= k < i ==> {
                let a = #[trigger] table.settlements@[k];
                let b = old(table).settlements@[k];
                &&& a.last_known_population == (if healthy(&b) { Some(b.current) } else { b.last_known_population })
                &&& a.id == b.id && a.formation_tile == b.formation_tile && a.formation_event == b.formation_event
                &&& a.founded_at == b.founded_at && a.birth_last_tick == b.birth_last_tick
                &&& a.member_agents@ == b.member_agents@ && a.member_buildings@ == b.member_buildings@
                &&& a.current == b.current && a.total_births == b.total_births
                &&& a.community_history@ == b.community_history@ && a.stockpile_food == b.stockpile_food
            },
        decreases n - i,
    {
        let h = table.settlements[i].current > 0 && table.settlements[i].member_buildings.len() > 0;
        if h {
            let pop = table.settlements[i].current;
            table.settlements[i].last_known_population = Some(pop);
        }
        i = i + 1;
    }
}


/// Ids listed in an `(id, tile)` list.
pub open spec fn listed_ids(s: Seq<(u64, Tile)>) -> Set<u64> {
    Set::new(|id: u64| exists|i: int| 0 <= i < s.len() && s[i].0 == id)
}

/// Whether `id` is listed in an `(id, tile)` list.
fn listed(entries: &Vec<(u64, Tile)>, id: u64) -> (b: bool)
    ensures
        b == listed_ids(entries@).contains(id),
{
    let mut i: usize = 0;
    while i < entries.len()
        invariant
            0 <= i <= entries@.len(),
            forall|j: int| 0 <= j < i ==> entries@[j].0 != id,
        decreases entries@.len() - i,
    {
        if entries[i].0 == id {
            return true;
        }
        i = i + 1;
    }
    false
}

/// Keep only the ids of `v` that are listed in `live`, in order.
fn retain_listed(v: &Vec<u64>, live: &Vec<(u64, Tile)>) -> (r: Vec<u64>)
    requires
        distinct_ids(v@),
    ensures
        distinct_ids(r@),
        r@.to_set() == v@.to_set().intersect(listed_ids(live@)),
{
    let mut out: Vec<u64> = Vec::new();
    let mut i: usize = 0;
    while i < v.len()
        invariant
            0 <= i <= v@.len(),
            distinct_ids(v@),
            distinct_ids(out@),
            forall|k: int| 0 <= k < out@.len() ==> exists|j: int| 0 <= j < i && v@[j] == #[trigger] out@[k],
            forall|k: int| 0 <= k < out@.len() ==> listed_ids(live@).contains(#[trigger] out@[k]),
            forall|j: int| 0 <= j < i && listed_ids(live@).contains(#[trigger] v@[j]) ==> out@.contains(v@[j]),
        decreases v@.len() - i,
    {
        let id = v[i];
        if listed(live, id) {
            let ghost prev = out@;
            proof {
                assert forall|k: int| 0 <= k < prev.len() implies prev[k] != id by {
                    let j = choose|j: int| 0 <= j < i && v@[j] == prev[k];
                    assert(j != i);
                }
            }
            out.push(id);
            proof {
                assert forall|k: int| 0 <= k < out@.len() implies exists|j: int| 0 <= j < i + 1 && v@[j] == #[trigger] out@[k] by {
                    if k == out@.len() - 1 {
                        assert(v@[i as int] == out@[k]);
                    } else {
                        assert(out@[k] == prev[k]);
                    }
                }
                assert forall|j: int| 0 <= j < i + 1 && listed_ids(live@).contains(#[trigger] v@[j]) implies out@.contains(v@[j]) by {
                    if j == i {
                        assert(out@[out@.len() - 1] == v@[j]);
                    } else {
                        let k = choose|k: int| 0 <= k < prev.len() && prev[k] == v@[j];
                        assert(out@[k] == v@[j]);
                    }
                }
            }
        }
        i = i + 1;
    }
    proof {
        assert(out@.to_set() =~= v@.to_set().intersect(listed_ids(live@))) by {
            assert forall|x: u64| out@.to_set().contains(x) implies v@.to_set().intersect(listed_ids(live@)).contains(x) by {
                let k = choose|k: int| 0 <= k < out@.len() && out@[k] == x;
                let j = choose|j: int| 0 <= j < v@.len() && v@[j] == out@[k];
            }
            assert forall|x: u64| v@.to_set().intersect(listed_ids(live@)).contains(x) implies out@.to_set().contains(x) by {
                let j = choose|j: int| 0 <= j < v@.len() && v@[j] == x;
                assert(out@.contains(v@[j]));
            }
        }
    }
    out
}

/// Refresh one settlement's membership from proximity to its formation
/// tile: members are exactly the agents within the radius, buildings are the
/// still-registered former members plus every building within the radius,
/// and the population is the member count.
pub fn sync_settlement(s: &mut Settlement, agents: &Vec<(AgentId, Tile)>, buildings: &Vec<(BuildingId, Tile)>, radius: u32)
    requires
        distinct_keys(agents@),
        distinct_keys(buildings@),
        distinct_ids(old(s).member_buildings@),
        agents@.len() <= u32::MAX,
    ensures
        distinct_ids(final(s).member_agents@),
        distinct_ids(final(s).member_buildings@),
        final(s).member_agents@.to_set() == ids_near(agents@, old(s).formation_tile, radius),
        final(s).member_buildings@.to_set() == old(s).member_buildings@.to_set().intersect(listed_ids(buildings@))
            .union(ids_near(buildings@, old(s).formation_tile, radius)),
        final(s).current == ids_near(agents@, old(s).formation_tile, radius).len(),
        final(s).id == old(s).id,
        final(s).formation_tile == old(s).formation_tile,
        final(s).formation_event == old(s).formation_event,
        final(s).founded_at == old(s).founded_at,
        final(s).birth_last_tick == old(s).birth_last_tick,
        final(s).last_known_population == old(s).last_known_population,
        final(s).total_births == old(s).total_births,
        final(s).community_history@ == old(s).community_history@,
        final(s).stockpile_food == old(s).stockpile_food,
{
    let tile = s.formation_tile;
    let members = collect_near(agents, tile, radius);
    proof {
        assert(members@.len() <= agents@.len()) by {
            assert(ids_near(agents@, tile, radius).subset_of(listed_ids(agents@).intersect(ids_near(agents@, tile, radius))));
            lemma_near_count_bounded(agents@, tile, radius);
        }
    }
    s.current = members.len() as u32;
    s.member_agents = members;
    let mut kept = retain_listed(&s.member_buildings, buildings);
    let near = collect_near(buildings, tile, radius);
    let ghost base = kept@.to_set();
    let mut i: usize = 0;
    while i < near.len()
        invariant
            0 <= i <= near@.len(),
            distinct_ids(kept@),
            kept@.to_set() == base.union(near@.subrange(0, i as int).to_set()),
        decreases near@.len() - i,
    {
        insert_id(&mut kept, near[i]);
        proof {
            assert(near@.subrange(0, i + 1).to_set() =~= near@.subrange(0, i as int).to_set().insert(near@[i as int])) by {
                assert(near@.subrange(0, i + 1) =~= near@.subrange(0, i as int).push(near@[i as int]));
                near@.subrange(0, i as int).lemma_push_to_set_commute(near@[i as int]);
            }
            assert(kept@.to_set() =~= base.union(near@.subrange(0, i + 1).to_set()));
        }
        i = i + 1;
    }
    assert(near@.subrange(0, near@.len() as int) =~= near@);
    s.member_buildings = kept;
}

/// The number of entries near an anchor never exceeds the list length.
pub proof fn lemma_near_count_bounded(s: Seq<(u64, Tile)>, anchor: Tile, radius: u32)
    requires
        distinct_keys(s),
    ensures
        ids_near(s, anchor, radius).finite(),
        ids_near(s, anchor, radius).len() <= s.len(),
    decreases s.len(),
{
    if s.len() == 0 {
        assert(ids_near(s, anchor, radius) =~= Set::<u64>::empty());
    } else {
        let rest = s.drop_last();
        assert(distinct_keys(rest)) by {
            assert forall|i: int, j: int| 0 <= i < rest.len() && 0 <= j < rest.len() && i != j implies #[trigger] rest[i].0 != #[trigger] rest[j].0 by {
                assert(rest[i] == s[i] && rest[j] == s[j]);
            }
        }
        lemma_near_count_bounded(rest, anchor, radius);
        let last = s.last();
        assert(ids_near(s, anchor, radius).subset_of(ids_near(rest, anchor, radius).insert(last.0))) by {
            assert forall|x: u64| ids_near(s, anchor, radius).contains(x) implies ids_near(rest, anchor, radius).insert(last.0).contains(x) by {
                let i = choose|i: int| 0 <= i < s.len() && s[i].0 == x && chebyshev_spec(anchor, s[i].1) <= radius;
                if i < s.len() - 1 {
                    assert(rest[i] == s[i]);
                }
            }
        }
        vstd::set_lib::lemma_len_subset(ids_near(s, anchor, radius), ids_near(rest, anchor, radius).insert(last.0));
    }
}


/// Lexicographic order on tiles.
pub open spec fn tile_lt(a: Tile, b: Tile) -> bool {
    a.0 < b.0 || (a.0 == b.0 && a.1 < b.1)
}

/// Tiles strictly ascending in lexicographic order.
pub open spec fn tiles_ascending(s: Seq<Tile>) -> bool {
    forall|i: int, j: int| 0 <= i < j < s.len() ==> tile_lt(#[trigger] s[i], #[trigger] s[j])
}

/// Ids strictly ascending.
pub open spec fn ids_ascending(s: Seq<u64>) -> bool {
    forall|i: int, j: int| 0 <= i < j < s.len() ==> #[trigger] s[i] < #[trigger] s[j]
}

/// Tiles occupied by the `(id, tile)` entries.
pub open spec fn occupied_tiles(s: Seq<(u64, Tile)>) -> Set<Tile> {
    Set::new(|t: Tile| exists|i: int| 0 <= i < s.len() && s[i].1 == t)
}

/// The occupied tiles, each once, in ascending order.
pub fn sorted_unique_tiles(entries: &Vec<(u64, Tile)>) -> (r: Vec<Tile>)
    ensures
        tiles_ascending(r@),
        r@.to_set() == occupied_tiles(entries@),
{
    let mut out: Vec<Tile> = Vec::new();
    let mut i: usize = 0;
    while i < entries.len()
        invariant
            0 <= i <= entries@.len(),
            tiles_ascending(out@),
            out@.to_set() == occupied_tiles(entries@.subrange(0, i as int)),
        decreases entries@.len() - i,
    {
        let t = entries[i].1;
        let mut k: usize = 0;
        while k < out.len() && tile_lt_exec(out[k], t)
            invariant
                0 <= k <= out@.len(),
                tiles_ascending(out@),
                forall|j: int| 0 <= j < k ==> tile_lt(out@[j], t),
            decreases out@.len() - k,
        {
            k = k + 1;
        }
        let present = k < out.len() && out[k].0 == t.0 && out[k].1 == t.1;
        let ghost prev = out@;
        if !present {
            out.insert(k, t);
            proof {
                assert forall|a: int, b: int| 0 <= a < b < out@.len() implies tile_lt(#[trigger] out@[a], #[trigger] out@[b]) by {
                    if b < k {
                    } else if b == k {
                    } else if a < k {
                        assert(out@[b] == prev[b - 1]);
                        if b - 1 > k { assert(tile_lt(prev[k as int], prev[b - 1])); }
                    } else if a == k {
                        assert(out@[b] == prev[b - 1]);
                        if b - 1 > k { assert(tile_lt(prev[k as int], prev[b - 1])); }
                    } else {
                        assert(out@[a] == prev[a - 1] && out@[b] == prev[b - 1]);
                    }
                }
                assert(out@ =~= prev.insert(k as int, t));
            }
        }
        proof {
            let sub = entries@.subrange(0, i as int);
            let sub2 = entries@.subrange(0, i + 1);
            assert(occupied_tiles(sub2) =~= occupied_tiles(sub).insert(t)) by {
                assert forall|x: Tile| occupied_tiles(sub2).contains(x) implies occupied_tiles(sub).insert(t).contains(x) by {
                    let j = choose|j: int| 0 <= j < sub2.len() && sub2[j].1 == x;
                    if j < i { assert(sub[j] == sub2[j]); }
                }
                assert forall|x: Tile| occupied_tiles(sub).insert(t).contains(x) implies occupied_tiles(sub2).contains(x) by {
                    if x == t { assert(sub2[i as int].1 == x); } else {
                        let j = choose|j: int| 0 <= j < sub.len() && sub[j].1 == x;
                        assert(sub2[j] == sub[j]);
                    }
                }
            }
            assert(out@.to_set() =~= prev.to_set().insert(t)) by {
                assert forall|x: Tile| out@.to_set().contains(x) == prev.to_set().insert(t).contains(x) by {
                    if present {
                        assert(prev[k as int] == t);
                    } else {
                        if prev.contains(x) {
                            let j = choose|j: int| 0 <= j < prev.len() && prev[j] == x;
                            if j < k { assert(out@[j] == x); } else { assert(out@[j + 1] == x); }
                        }
                        if x == t { assert(out@[k as int] == x); }
                        if out@.contains(x) && x != t {
                            let j = choose|j: int| 0 <= j < out@.len() && out@[j] == x;
                            if j < k { assert(prev[j] == x); } else { assert(j != k); assert(prev[j - 1] == x); }
                        }
                    }
                }
            }
        }
        i = i + 1;
    }
    assert(entries@.subrange(0, entries@.len() as int) =~= entries@);
    out
}

/// Exec form of [`tile_lt`].
fn tile_lt_exec(a: Tile, b: Tile) -> (r: bool)
    ensures
        r == tile_lt(a, b),
{
    a.0 < b.0 || (a.0 == b.0 && a.1 < b.1)
}

/// The ids sorted ascending (the input holds each id once).
pub fn sort_ids(v: &Vec<u64>) -> (r: Vec<u64>)
    requires
        distinct_ids(v@),
    ensures
        ids_ascending(r@),
        r@.to_set() == v@.to_set(),
        r@.len() == v@.len(),
{
    let mut out: Vec<u64> = Vec::new();
    let mut i: usize = 0;
    while i < v.len()
        invariant
            0 <= i <= v@.len(),
            distinct_ids(v@),
            ids_ascending(out@),
            out@.len() == i,
            out@.to_set() == v@.subrange(0, i as int).to_set(),
        decreases v@.len() - i,
    {
        let x = v[i];
        let mut k: usize = 0;
        while k < out.len() && out[k] < x
            invariant
                0 <= k <= out@.len(),
                ids_ascending(out@),
                forall|j: int| 0 <= j < k ==> out@[j] < x,
            decreases out@.len() - k,
        {
            k = k + 1;
        }
        let ghost prev = out@;
        proof {
            assert(!v@.subrange(0, i as int).contains(x)) by {
                if v@.subrange(0, i as int).contains(x) {
                    let j = choose|j: int| 0 <= j < i && v@.subrange(0, i as int)[j] == x;
                    assert(v@[j] == v@[i as int]);
                }
            }
            assert(!prev.to_set().contains(x));
            if k < prev.len() {
                assert(prev[k as int] != x) by { assert(prev.contains(prev[k as int])); }
            }
        }
        out.insert(k, x);
        proof {
            assert(out@ =~= prev.insert(k as int, x));
            assert forall|a: int, b: int| 0 <= a < b < out@.len() implies #[trigger] out@[a] < #[trigger] out@[b] by {
                if b < k {
                } else if b == k {
                } else if a < k {
                    assert(out@[b] == prev[b - 1]);
                    if b - 1 > k { assert(prev[k as int] < prev[b - 1]); }
                } else if a == k {
                    assert(out@[b] == prev[b - 1]);
                    if b - 1 > k { assert(prev[k as int] < prev[b - 1]); }
                } else {
                    assert(out@[a] == prev[a - 1] && out@[b] == prev[b - 1]);
                }
            }
            assert(v@.subrange(0, i + 1) =~= v@.subrange(0, i as int).push(x));
            v@.subrange(0, i as int).lemma_push_to_set_commute(x);
            assert(out@.to_set() =~= prev.to_set().insert(x)) by {
                assert forall|y: u64| out@.to_set().contains(y) == prev.to_set().insert(x).contains(y) by {
                    if prev.contains(y) {
                        let j = choose|j: int| 0 <= j < prev.len() && prev[j] == y;
                        if j < k { assert(out@[j] == y); } else { assert(out@[j + 1] == y); }
                    }
                    if y == x { assert(out@[k as int] == y); }
                    if out@.contains(y) && y != x {
                        let j = choose|j: int| 0 <= j < out@.len() && out@[j] == y;
                        if j < k { assert(prev[j] == y); } else { assert(j != k); assert(prev[j - 1] == y); }
                    }
                }
            }
        }
        i = i + 1;
    }
    assert(v@.subrange(0, v@.len() as int) =~= v@);
    out
}


/// Some settlement's anchor lies within `radius` of `c`.
pub open spec fn claimed(settlements: Seq<Settlement>, c: Tile, radius: u32) -> bool {
    exists|k: int| 0 <= k < settlements.len() && chebyshev_spec(#[trigger] settlements[k].formation_tile, c) <= radius
}

/// A settlement could form around `c`: enough agents and buildings nearby.
pub open spec fn formable(agents: Seq<(AgentId, Tile)>, buildings: Seq<(BuildingId, Tile)>, c: Tile, rules: SettlementRules) -> bool {
    &&& ids_near(agents, c, rules.proximity_radius).len() >= rules.formation_agent_threshold
    &&& ids_near(buildings, c, rules.proximity_radius).len() >= rules.formation_building_threshold
}

/// `s` is a settlement freshly formed around `c` at `tick`.
pub open spec fn freshly_formed(s: Settlement, agents: Seq<(AgentId, Tile)>, buildings: Seq<(BuildingId, Tile)>, c: Tile, rules: SettlementRules, tick: u64) -> bool {
    let r = rules.proximity_radius;
    &&& s.formation_tile == c
    &&& s.founded_at == tick && s.birth_last_tick == tick
    &&& distinct_ids(s.member_agents@) && distinct_ids(s.member_buildings@)
    &&& s.member_agents@.to_set() == ids_near(agents, c, r)
    &&& s.member_buildings@.to_set() == ids_near(buildings, c, r)
    &&& s.current == ids_near(agents, c, r).len()
    &&& s.last_known_population == (if s.current > 0 && s.member_buildings@.len() > 0 { Some(s.current) } else { None })
    &&& s.total_births == 0 && s.community_history@.len() == 0 && s.stockpile_food == 0
}

/// `e` records the formation of `s`: its formation event id, its id, its
/// tile, and its founders (the agents within `radius` of the tile) in
/// ascending order.
pub open spec fn formed_event(e: SettlementEvent, s: Settlement, agents: Seq<(AgentId, Tile)>, radius: u32) -> bool {
    match e {
        SettlementEvent::Formed { id, settlement, founding_members, tile } => {
            &&& id == s.formation_event && settlement == s.id && tile == s.formation_tile
            &&& ids_ascending(founding_members@)
            &&& founding_members@.to_set() == ids_near(agents, tile, radius)
        },
        _ => false,
    }
}

/// Whether some settlement anchor lies within `radius` of `c`.
fn is_claimed(settlements: &Vec<Settlement>, c: Tile, radius: u32) -> (b: bool)
    ensures
        b == claimed(settlements@, c, radius),
{
    let mut k: usize = 0;
    while k < settlements.len()
        invariant
            0 <= k <= settlements@.len(),
            forall|j: int| 0 <= j < k ==> chebyshev_spec(#[trigger] settlements@[j].formation_tile, c) > radius,
        decreases settlements@.len() - k,
    {
        if chebyshev(settlements[k].formation_tile, c) <= radius {
            return true;
        }
        k = k + 1;
    }
    false
}

/// Scan the occupied tiles in ascending order and form a settlement around
/// every tile that no settlement claims yet and that has enough agents and
/// buildings nearby. Existing settlements are untouched; afterwards every
/// occupied tile is claimed or not formable.
pub fn run_formation_scan(
    table: &mut SettlementTable,
    agents: &Vec<(AgentId, Tile)>,
    buildings: &Vec<(BuildingId, Tile)>,
    rules: SettlementRules,
    tick: u64,
    events: &mut Vec<SettlementEvent>,
)
    requires
        old(table).wf(),
        distinct_keys(agents@),
        distinct_keys(buildings@),
        agents@.len() <= u32::MAX,
        old(table).next_settlement_id + agents@.len() <= u64::MAX,
        old(table).next_event_id + agents@.len() <= u64::MAX,
    ensures
        final(table).wf(),
        final(table).settlements@.len() >= old(table).settlements@.len(),
        final(table).settlements@.subrange(0, old(table).settlements@.len() as int) == old(table).settlements@,
        final(table).next_agent_id == old(table).next_agent_id,
        final(table).next_settlement_id >= old(table).next_settlement_id,
        final(table).next_event_id >= old(table).next_event_id,
        final(table).next_settlement_id - old(table).next_settlement_id
            == final(table).settlements@.len() - old(table).settlements@.len(),
        final(table).next_event_id - old(table).next_event_id
            == final(table).settlements@.len() - old(table).settlements@.len(),
        final(table).settlements@.len() - old(table).settlements@.len() <= agents@.len(),
        forall|k: int| old(table).settlements@.len() <= k < final(table).settlements@.len() ==> {
            let s = #[trigger] final(table).settlements@[k];
            &&& s.id >= old(table).next_settlement_id
            &&& occupied_tiles(agents@).contains(s.formation_tile)
            &&& !claimed(final(table).settlements@.subrange(0, k), s.formation_tile, rules.proximity_radius)
            &&& formable(agents@, buildings@, s.formation_tile, rules)
            &&& freshly_formed(s, agents@, buildings@, s.formation_tile, rules, tick)
        },
        forall|c: Tile| #[trigger] occupied_tiles(agents@).contains(c) ==>
            claimed(final(table).settlements@, c, rules.proximity_radius) || !formable(agents@, buildings@, c, rules),
        forall|a: int, b: int| old(table).settlements@.len() <= a < b < final(table).settlements@.len() ==>
            tile_lt(#[trigger] final(table).settlements@[a].formation_tile, #[trigger] final(table).settlements@[b].formation_tile),
        final(events)@.len() == old(events)@.len() + (final(table).settlements@.len() - old(table).settlements@.len()),
        final(events)@.subrange(0, old(events)@.len() as int) == old(events)@,
        forall|k: int| old(table).settlements@.len() <= k < final(table).settlements@.len() ==> {
            let s = #[trigger] final(table).settlements@[k];
            &&& s.id == old(table).next_settlement_id + (k - old(table).settlements@.len())
            &&& s.formation_event == old(table).next_event_id + (k - old(table).settlements@.len())
            &&& formed_event(final(events)@[old(events)@.len() + (k - old(table).settlements@.len())], s, agents@, rules.proximity_radius)
        },
{
    let r = rules.proximity_radius;
    let candidates = sorted_unique_tiles(agents);
    let ghost n0 = table.settlements@.len();
    let ghost old_settlements = table.settlements@;
    proof {
        assert(candidates@.len() <= agents@.len()) by {
            lemma_occupied_bound(agents@);
            candidates@.unique_seq_to_set();
            assert(distinct_tiles(candidates@)) by {
                assert forall|i: int, j: int| 0 <= i < candidates@.len() && 0 <= j < candidates@.len() && i != j
                    implies candidates@[i] != candidates@[j] by {
                    if i < j { assert(tile_lt(candidates@[i], candidates@[j])); } else { assert(tile_lt(candidates@[j], candidates@[i])); }
                }
            }
        }
    }
    let mut ci: usize = 0;
    while ci < candidates.len()
        invariant
            0 <= ci <= candidates@.len(),
            candidates@.len() <= agents@.len(),
            tiles_ascending(candidates@),
            candidates@.to_set() == occupied_tiles(agents@),
            table.wf(),
            distinct_keys(agents@),
            distinct_keys(buildings@),
            agents@.len() <= u32::MAX,
            r == rules.proximity_radius,
            table.settlements@.len() >= n0,
            table.settlements@.len() - n0 <= ci,
            table.settlements@.subrange(0, n0 as int) == old_settlements,
            old_settlements == old(table).settlements@,
            n0 == old(table).settlements@.len(),
            table.next_agent_id == old(table).next_agent_id,
            table.next_settlement_id == old(table).next_settlement_id + (table.settlements@.len() - n0),
            table.next_event_id == old(table).next_event_id + (table.settlements@.len() - n0),
            old(table).next_settlement_id + agents@.len() <= u64::MAX,
            old(table).next_event_id + agents@.len() <= u64::MAX,
            forall|k: int| n0 <= k < table.settlements@.len() ==> {
                let s = #[trigger] table.settlements@[k];
                &&& s.id >= old(table).next_settlement_id
                &&& occupied_tiles(agents@).contains(s.formation_tile)
                &&& !claimed(table.settlements@.subrange(0, k), s.formation_tile, rules.proximity_radius)
                &&& formable(agents@, buildings@, s.formation_tile, rules)
                &&& freshly_formed(s, agents@, buildings@, s.formation_tile, rules, tick)
            },
            forall|j: int| 0 <= j < ci ==>
                claimed(table.settlements@, #[trigger] candidates@[j], rules.proximity_radius) || !formable(agents@, buildings@, candidates@[j], rules),
            forall|k: int| n0 <= k < table.settlements@.len() ==>
                exists|j: int| 0 <= j < ci && candidates@[j] == (#[trigger] table.settlements@[k]).formation_tile,
            forall|a: int, b: int| n0 <= a < b < table.settlements@.len() ==>
                tile_lt(#[trigger] table.settlements@[a].formation_tile, #[trigger] table.settlements@[b].formation_tile),
            events@.len() == old(events)@.len() + (table.settlements@.len() - n0),
            events@.subrange(0, old(events)@.len() as int) == old(events)@,
            forall|k: int| n0 <= k < table.settlements@.len() ==> {
                let s = #[trigger] table.settlements@[k];
                &&& s.id == old(table).next_settlement_id + (k - n0)
                &&& s.formation_event == old(table).next_event_id + (k - n0)
                &&& formed_event(events@[old(events)@.len() + (k - n0)], s, agents@, r)
            },
        decreases candidates@.len() - ci,
    {
        let c = candidates[ci];
        let ghost before = table.settlements@;
        if !is_claimed(&table.settlements, c, r) {
            let members = collect_near(agents, c, r);
            let blds = collect_near(buildings, c, r);
            if members.len() as u64 >= rules.formation_agent_threshold as u64 && blds.len() as u64 >= rules.formation_building_threshold as u64 {
                proof {
                    lemma_near_count_bounded(agents@, c, r);
                }
                let sid = table.next_settlement_id;
                let eid = table.next_event_id;
                table.next_settlement_id = sid + 1;
                table.next_event_id = eid + 1;
                let founding = sort_ids(&members);
                let current = members.len() as u32;
                let last_known = if current > 0 && blds.len() > 0 { Some(current) } else { None };
                let settlement = Settlement {
                    id: sid,
                    formation_tile: c,
                    formation_event: eid,
                    founded_at: tick,
                    birth_last_tick: tick,
                    last_known_population: last_known,
                    member_agents: members,
                    member_buildings: blds,
                    current,
                    total_births: 0,
                    community_history: Vec::new(),
                    stockpile_food: 0,
                };
                table.settlements.push(settlement);
                let ghost ev_before = events@;
                events.push(SettlementEvent::Formed { id: eid, settlement: sid, founding_members: founding, tile: c });
                proof {
                    let k = table.settlements@.len() - 1;
                    assert(events@.subrange(0, old(events)@.len() as int) =~= ev_before.subrange(0, old(events)@.len() as int));
                    assert(formed_event(events@[old(events)@.len() + (k - n0)], table.settlements@[k], agents@, r));
                    assert forall|k2: int| n0 <= k2 < table.settlements@.len() implies {
                        let s = #[trigger] table.settlements@[k2];
                        &&& s.id == old(table).next_settlement_id + (k2 - n0)
                        &&& s.formation_event == old(table).next_event_id + (k2 - n0)
                        &&& formed_event(events@[old(events)@.len() + (k2 - n0)], s, agents@, r)
                    } by {
                        if k2 < k {
                            assert(table.settlements@[k2] == before[k2]);
                            assert(events@[old(events)@.len() + (k2 - n0)] == ev_before[old(events)@.len() + (k2 - n0)]);
                        }
                    }
                    assert forall|k2: int| n0 <= k2 < table.settlements@.len() implies
                        exists|j: int| 0 <= j < ci + 1 && candidates@[j] == (#[trigger] table.settlements@[k2]).formation_tile by {
                        if k2 < k {
                            assert(table.settlements@[k2] == before[k2]);
                            let j = choose|j: int| 0 <= j < ci && candidates@[j] == before[k2].formation_tile;
                        } else {
                            assert(candidates@[ci as int] == table.settlements@[k2].formation_tile);
                        }
                    }
                    assert forall|a: int, b: int| n0 <= a < b < table.settlements@.len() implies
                        tile_lt(#[trigger] table.settlements@[a].formation_tile, #[trigger] table.settlements@[b].formation_tile) by {
                        assert(table.settlements@[a] == before[a]);
                        if b < k {
                            assert(table.settlements@[b] == before[b]);
                        } else {
                            let j = choose|j: int| 0 <= j < ci && candidates@[j] == before[a].formation_tile;
                            assert(tile_lt(candidates@[j], candidates@[ci as int]));
                        }
                    }
                    assert(table.settlements@.subrange(0, k) =~= before);
                    assert(table.settlements@.subrange(0, n0 as int) =~= before.subrange(0, n0 as int));
                    assert(candidates@.to_set().contains(c)) by { assert(candidates@[ci as int] == c); }
                    assert forall|k2: int| n0 <= k2 < table.settlements@.len() implies {
                        let s = #[trigger] table.settlements@[k2];
                        &&& s.id >= old(table).next_settlement_id
                        &&& occupied_tiles(agents@).contains(s.formation_tile)
                        &&& !claimed(table.settlements@.subrange(0, k2), s.formation_tile, rules.proximity_radius)
                        &&& formable(agents@, buildings@, s.formation_tile, rules)
                        &&& freshly_formed(s, agents@, buildings@, s.formation_tile, rules, tick)
                    } by {
                        if k2 < k {
                            assert(table.settlements@[k2] == before[k2]);
                            assert(table.settlements@.subrange(0, k2) =~= before.subrange(0, k2));
                        }
                    }
                    assert forall|j: int| 0 <= j < ci + 1 implies
                        claimed(table.settlements@, #[trigger] candidates@[j], rules.proximity_radius) || !formable(agents@, buildings@, candidates@[j], rules) by {
                        if j == ci {
                            assert(chebyshev_spec(table.settlements@[k].formation_tile, c) == 0);
                        } else if claimed(before, candidates@[j], rules.proximity_radius) {
                            let q = choose|q: int| 0 <= q < before.len() && chebyshev_spec(#[trigger] before[q].formation_tile, candidates@[j]) <= rules.proximity_radius;
                            assert(table.settlements@[q] == before[q]);
                        }
                    }
                }
            }
        }
        ci = ci + 1;
    }
    proof {
        assert forall|c: Tile| #[trigger] occupied_tiles(agents@).contains(c) implies
            claimed(table.settlements@, c, rules.proximity_radius) || !formable(agents@, buildings@, c, rules) by {
            assert(candidates@.to_set().contains(c));
            let j = choose|j: int| 0 <= j < candidates@.len() && candidates@[j] == c;
        }
    }
}

/// Tiles of a list hold each tile once.
pub open spec fn distinct_tiles(s: Seq<Tile>) -> bool {
    forall|i: int, j: int| 0 <= i < s.len() && 0 <= j < s.len() && i != j ==> s[i] != s[j]
}

/// There are no more occupied tiles than entries.
pub proof fn lemma_occupied_bound(s: Seq<(u64, Tile)>)
    ensures
        occupied_tiles(s).finite(),
        occupied_tiles(s).len() <= s.len(),
    decreases s.len(),
{
    if s.len() == 0 {
        assert(occupied_tiles(s) =~= Set::<Tile>::empty());
    } else {
        let rest = s.drop_last();
        lemma_occupied_bound(rest);
        assert(occupied_tiles(s) =~= occupied_tiles(rest).insert(s.last().1)) by {
            assert forall|t: Tile| occupied_tiles(s).contains(t) == occupied_tiles(rest).insert(s.last().1).contains(t) by {
                if occupied_tiles(s).contains(t) {
                    let i = choose|i: int| 0 <= i < s.len() && s[i].1 == t;
                    if i < s.len() - 1 { assert(rest[i] == s[i]); }
                }
                if occupied_tiles(rest).contains(t) {
                    let i = choose|i: int| 0 <= i < rest.len() && rest[i].1 == t;
                    assert(s[i] == rest[i]);
                }
                if t == s.last().1 { assert(s[s.len() - 1].1 == t); }
            }
        }
    }
}


/// Index of the settlement with id `sid`, if any.
fn index_of_settlement(settlements: &Vec<Settlement>, sid: SettlementId) -> (r: Option<usize>)
    ensures
        match r {
            Some(i) => i < settlements@.len() && settlements@[i as int].id == sid,
            None => forall|i: int| 0 <= i < settlements@.len() ==> settlements@[i].id != sid,
        },
{
    let mut i: usize = 0;
    while i < settlements.len()
        invariant
            0 <= i <= settlements@.len(),
            forall|j: int| 0 <= j < i ==> settlements@[j].id != sid,
        decreases settlements@.len() - i,
    {
        if settlements[i].id == sid {
            return Some(i);
        }
        i = i + 1;
    }
    None
}

/// Whether `(sid, eid)` is in `routed`.
fn routed_contains(routed: &Vec<(SettlementId, EventId)>, sid: SettlementId, eid: EventId) -> (b: bool)
    ensures
        b == routed@.contains((sid, eid)),
{
    let mut i: usize = 0;
    while i < routed.len()
        invariant
            0 <= i <= routed@.len(),
            forall|j: int| 0 <= j < i ==> routed@[j] != (sid, eid),
        decreases routed@.len() - i,
    {
        let (a, b) = routed[i];
        if a == sid && b == eid {
            assert(routed@[i as int] == (sid, eid));
            return true;
        }
        i = i + 1;
    }
    false
}

/// The history of `s` after routing `eid` to it: appended once.
pub open spec fn history_with(h: Seq<EventId>, eid: EventId) -> Seq<EventId> {
    if h.contains(eid) { h } else { h.push(eid) }
}

/// Routing never duplicates an event in a history: a history without
/// repeats keeps none after an event is routed to it, and holds the event.
pub proof fn lemma_history_with_distinct(h: Seq<EventId>, eid: EventId)
    requires
        h.no_duplicates(),
    ensures
        history_with(h, eid).no_duplicates(),
        history_with(h, eid).contains(eid),
        is_prefix(h, history_with(h, eid)),
{
    if !h.contains(eid) {
        assert(h.push(eid)[h.len() as int] == eid);
        assert(h.push(eid).subrange(0, h.len() as int) =~= h);
        assert forall|i: int, j: int| 0 <= i < j < h.push(eid).len() implies h.push(eid)[i] != h.push(eid)[j] by {
            if j == h.len() {
                assert(h.push(eid)[i] == h[i]);
            }
        }
    } else {
        assert(h.subrange(0, h.len() as int) =~= h);
    }
}

/// Append `eid` to settlement `sid`'s history unless this pair was already
/// routed this tick or the history already holds it.
pub fn append_unique(table: &mut SettlementTable, routed: &mut Vec<(SettlementId, EventId)>, sid: SettlementId, eid: EventId)
    requires
        old(table).wf(),
    ensures
        final(table).wf(),
        final(table).settlements@.len() == old(table).settlements@.len(),
        final(table).next_settlement_id == old(table).next_settlement_id,
        final(table).next_event_id == old(table).next_event_id,
        final(table).next_agent_id == old(table).next_agent_id,
        final(routed)@.to_set() == old(routed)@.to_set().insert((sid, eid)),
        forall|i: int| 0 <= i < final(table).settlements@.len() ==> {
            let a = #[trigger] final(table).settlements@[i];
            let b = old(table).settlements@[i];
            &&& a.community_history@ == (if b.id == sid && !old(routed)@.contains((sid, eid)) {
                history_with(b.community_history@, eid)
            } else {
                b.community_history@
            })
            &&& a.id == b.id && a.formation_tile == b.formation_tile && a.formation_event == b.formation_event
            &&& a.founded_at == b.founded_at && a.birth_last_tick == b.birth_last_tick
            &&& a.last_known_population == b.last_known_population
            &&& a.member_agents@ == b.member_agents@ && a.member_buildings@ == b.member_buildings@
            &&& a.current == b.current && a.total_births == b.total_births && a.stockpile_food == b.stockpile_food
        },
{
    if routed_contains(routed, sid, eid) {
        assert(old(routed)@.to_set().insert((sid, eid)) =~= old(routed)@.to_set());
        return;
    }
    routed.push((sid, eid));
    proof {
        old(routed)@.lemma_push_to_set_commute((sid, eid));
    }
    match index_of_settlement(&table.settlements, sid) {
        Some(i) => {
            if !contains_id(&table.settlements[i].community_history, eid) {
                table.settlements[i].community_history.push(eid);
            }
            proof {
                assert forall|j: int| 0 <= j < table.settlements@.len() && j != i implies table.settlements@[j].id != sid by {
                    assert(table.settlements@[j].id != table.settlements@[i as int].id) by {
                        if j < i { assert(table.settlements@[j].id < table.settlements@[i as int].id); }
                        else { assert(table.settlements@[i as int].id < table.settlements@[j].id); }
                    }
                }
            }
        },
        None => {},
    }
}

/// Index of the settlement whose anchor is nearest to `p` within `radius`
/// (lowest id among equally near ones).
fn nearest_settlement(settlements: &Vec<Settlement>, p: Tile, radius: u32) -> (r: Option<usize>)
    ensures
        match r {
            Some(i) => {
                &&& i < settlements@.len()
                &&& chebyshev_spec(settlements@[i as int].formation_tile, p) <= radius
                &&& forall|j: int| 0 <= j < settlements@.len() ==>
                    chebyshev_spec(#[trigger] settlements@[j].formation_tile, p) >= chebyshev_spec(settlements@[i as int].formation_tile, p)
                &&& forall|j: int| 0 <= j < i ==>
                    chebyshev_spec(#[trigger] settlements@[j].formation_tile, p) > chebyshev_spec(settlements@[i as int].formation_tile, p)
            },
            None => forall|j: int| 0 <= j < settlements@.len() ==> chebyshev_spec(#[trigger] settlements@[j].formation_tile, p) > radius,
        },
{
    let mut best: Option<(usize, u32)> = None;
    let mut i: usize = 0;
    while i < settlements.len()
        invariant
            0 <= i <= settlements@.len(),
            best is None ==> forall|j: int| 0 <= j < i ==> chebyshev_spec(#[trigger] settlements@[j].formation_tile, p) > radius,
            best matches Some(b) ==> {
                &&& b.0 < i
                &&& b.1 == chebyshev_spec(settlements@[b.0 as int].formation_tile, p)
                &&& b.1 <= radius
                &&& forall|j: int| 0 <= j < i ==> chebyshev_spec(#[trigger] settlements@[j].formation_tile, p) >= b.1
                &&& forall|j: int| 0 <= j < b.0 ==> chebyshev_spec(#[trigger] settlements@[j].formation_tile, p) > b.1
            },
        decreases settlements@.len() - i,
    {
        let d = chebyshev(settlements[i].formation_tile, p);
        if d <= radius {
            match best {
                None => {
                    best = Some((i, d));
                },
                Some((_, bd)) => {
                    if d < bd {
                        best = Some((i, d));
                    }
                },
            }
        }
        i = i + 1;
    }
    match best {
        Some((bi, _)) => Some(bi),
        None => None,
    }
}

/// First settlement (in id order) listing `a` or `b` as a member.
fn settlement_with_member(settlements: &Vec<Settlement>, a: AgentId, b: AgentId) -> (r: Option<usize>)
    ensures
        match r {
            Some(i) => i < settlements@.len()
                && (settlements@[i as int].member_agents@.contains(a) || settlements@[i as int].member_agents@.contains(b))
                && forall|j: int| 0 <= j < i ==> !(#[trigger] settlements@[j]).member_agents@.contains(a)
                    && !settlements@[j].member_agents@.contains(b),
            None => forall|j: int| 0 <= j < settlements@.len() ==> !(#[trigger] settlements@[j]).member_agents@.contains(a)
                && !settlements@[j].member_agents@.contains(b),
        },
{
    let mut i: usize = 0;
    while i < settlements.len()
        invariant
            0 <= i <= settlements@.len(),
            forall|j: int| 0 <= j < i ==> !(#[trigger] settlements@[j]).member_agents@.contains(a)
                && !settlements@[j].member_agents@.contains(b),
        decreases settlements@.len() - i,
    {
        if contains_id(&settlements[i].member_agents, a) || contains_id(&settlements[i].member_agents, b) {
            return Some(i);
        }
        i = i + 1;
    }
    None
}

/// First settlement (in id order) that could take a migrant `emitter`:
/// below `max_pop`, with members, and not already listing `emitter`.
fn settlement_open_to(settlements: &Vec<Settlement>, emitter: AgentId, max_pop: u32) -> (r: Option<usize>)
    ensures
        match r {
            Some(i) => i < settlements@.len() && open_to(&settlements@[i as int], emitter, max_pop)
                && forall|j: int| 0 <= j < i ==> !open_to(#[trigger] &settlements@[j], emitter, max_pop),
            None => forall|j: int| 0 <= j < settlements@.len() ==> !open_to(#[trigger] &settlements@[j], emitter, max_pop),
        },
{
    let mut i: usize = 0;
    while i < settlements.len()
        invariant
            0 <= i <= settlements@.len(),
            forall|j: int| 0 <= j < i ==> !open_to(#[trigger] &settlements@[j], emitter, max_pop),
        decreases settlements@.len() - i,
    {
        let s = &settlements[i];
        if s.current < max_pop && s.member_agents.len() > 0 && !contains_id(&s.member_agents, emitter) {
            return Some(i);
        }
        i = i + 1;
    }
    None
}

/// A settlement below `max_pop` with members that does not list `emitter`.
pub open spec fn open_to(s: &Settlement, emitter: AgentId, max_pop: u32) -> bool {
    s.current < max_pop && s.member_agents@.len() > 0 && !s.member_agents@.contains(emitter)
}

/// A settlement-reason decision seen this tick: the decision event and the
/// migrating agent that made it.
#[derive(Debug, Clone, Copy, PartialEq, Eq, Structural)]
pub struct MigrationDecision {
    pub event: EventId,
    pub agent: AgentId,
}

/// A completed combat seen this tick.
#[derive(Debug, Clone, Copy, PartialEq, Eq, Structural)]
pub struct CombatRecord {
    pub event: EventId,
    pub attacker: AgentId,
    pub defender: AgentId,
}


/// `a` is a prefix of `b`.
pub open spec fn is_prefix(a: Seq<EventId>, b: Seq<EventId>) -> bool {
    a.len() <= b.len() && b.subrange(0, a.len() as int) == a
}

/// Every settlement keeps all fields but its history, and its history only
/// grows at the end.
pub open spec fn history_extended(before: Seq<Settlement>, after: Seq<Settlement>) -> bool {
    &&& after.len() == before.len()
    &&& forall|i: int| 0 <= i < after.len() ==> {
        let a = #[trigger] after[i];
        let b = before[i];
        &&& is_prefix(b.community_history@, a.community_history@)
        &&& a.id == b.id && a.formation_tile == b.formation_tile && a.formation_event == b.formation_event
        &&& a.founded_at == b.founded_at && a.birth_last_tick == b.birth_last_tick
        &&& a.last_known_population == b.last_known_population
        &&& a.member_agents@ == b.member_agents@ && a.member_buildings@ == b.member_buildings@
        &&& a.current == b.current && a.total_births == b.total_births && a.stockpile_food == b.stockpile_food
    }
}

proof fn lemma_history_extended_trans(a: Seq<Settlement>, b: Seq<Settlement>, c: Seq<Settlement>)
    requires
        history_extended(a, b),
        history_extended(b, c),
    ensures
        history_extended(a, c),
{
    assert forall|i: int| 0 <= i < c.len() implies is_prefix(a[i].community_history@, (#[trigger] c[i]).community_history@) by {
        let ha = a[i].community_history@;
        let hb = b[i].community_history@;
        let hc = c[i].community_history@;
        assert(hc.subrange(0, hb.len() as int) == hb);
        assert(hb.subrange(0, ha.len() as int) == ha);
        assert(hc.subrange(0, ha.len() as int) =~= hc.subrange(0, hb.len() as int).subrange(0, ha.len() as int));
    }
}

/// Settlement `i` has the anchor nearest to `p` within `radius` (lowest index
/// among equally near ones).
pub open spec fn nearest_anchor(st: Seq<Settlement>, p: Tile, radius: u32, i: int) -> bool {
    &&& 0 <= i < st.len()
    &&& chebyshev_spec(st[i].formation_tile, p) <= radius
    &&& forall|j: int| 0 <= j < st.len() ==> chebyshev_spec(#[trigger] st[j].formation_tile, p) >= chebyshev_spec(st[i].formation_tile, p)
    &&& forall|j: int| 0 <= j < i ==> chebyshev_spec(#[trigger] st[j].formation_tile, p) > chebyshev_spec(st[i].formation_tile, p)
}

/// Settlement `i` is the first listing `a` or `b` as a member.
pub open spec fn first_with_member(st: Seq<Settlement>, a: AgentId, b: AgentId, i: int) -> bool {
    &&& 0 <= i < st.len()
    &&& (st[i].member_agents@.contains(a) || st[i].member_agents@.contains(b))
    &&& forall|j: int| 0 <= j < i ==> !(#[trigger] st[j]).member_agents@.contains(a) && !st[j].member_agents@.contains(b)
}

/// Settlement `i` is the first open to migrant `e`.
pub open spec fn first_open_to(st: Seq<Settlement>, e: AgentId, max_pop: u32, i: int) -> bool {
    &&& 0 <= i < st.len()
    &&& open_to(&st[i], e, max_pop)
    &&& forall|j: int| 0 <= j < i ==> !open_to(#[trigger] &st[j], e, max_pop)
}

/// Every event routed this tick (beyond those routed before) is in the
/// history of the settlement it was routed to.
pub open spec fn routed_recorded(st: Seq<Settlement>, routed: Seq<(SettlementId, EventId)>, routed0: Seq<(SettlementId, EventId)>) -> bool {
    forall|i: int, e: EventId| 0 <= i < st.len() && #[trigger] routed.contains((st[i].id, e))
        && !routed0.contains((st[i].id, e)) ==> st[i].community_history@.contains(e)
}

/// The first `n` new buildings are routed.
pub open spec fn buildings_routed(st: Seq<Settlement>, routed: Seq<(SettlementId, EventId)>, nb: Seq<(BuildingId, Tile)>, n: int, radius: u32) -> bool {
    forall|b: int, i: int| 0 <= b < n && #[trigger] nearest_anchor(st, nb[b].1, radius, i) ==> routed.contains((st[i].id, nb[b].0))
}

/// The first `n` combats are routed.
pub open spec fn combats_routed(st: Seq<Settlement>, routed: Seq<(SettlementId, EventId)>, cs: Seq<CombatRecord>, n: int) -> bool {
    forall|c: int, i: int| 0 <= c < n && #[trigger] first_with_member(st, cs[c].attacker, cs[c].defender, i)
        ==> routed.contains((st[i].id, cs[c].event))
}

/// The first `n` migration decisions are routed.
pub open spec fn decisions_routed(st: Seq<Settlement>, routed: Seq<(SettlementId, EventId)>, ds: Seq<MigrationDecision>, n: int, max_pop: u32) -> bool {
    forall|d: int, i: int| 0 <= d < n && #[trigger] first_open_to(st, ds[d].agent, max_pop, i)
        ==> routed.contains((st[i].id, ds[d].event))
}

/// Route this tick's events into community histories (each settlement/event
/// pair at most once per tick):
/// a new building goes to the settlement whose anchor is nearest within the
/// radius (lowest id among equally near); a completed combat to the first
/// settlement listing either party; a settlement-reason decision to the
/// first settlement open to the migrating agent.
pub fn ingest_community_history(
    table: &mut SettlementTable,
    routed: &mut Vec<(SettlementId, EventId)>,
    new_buildings: &Vec<(BuildingId, Tile)>,
    combats: &Vec<CombatRecord>,
    decisions: &Vec<MigrationDecision>,
    rules: SettlementRules,
)
    requires
        old(table).wf(),
    ensures
        final(table).wf(),
        history_extended(old(table).settlements@, final(table).settlements@),
        final(table).next_settlement_id == old(table).next_settlement_id,
        final(table).next_event_id == old(table).next_event_id,
        final(table).next_agent_id == old(table).next_agent_id,
        forall|x: (SettlementId, EventId)| old(routed)@.contains(x) ==> #[trigger] final(routed)@.contains(x),
        buildings_routed(final(table).settlements@, final(routed)@, new_buildings@, new_buildings@.len() as int, rules.proximity_radius),
        combats_routed(final(table).settlements@, final(routed)@, combats@, combats@.len() as int),
        decisions_routed(final(table).settlements@, final(routed)@, decisions@, decisions@.len() as int, rules.max_pop),
        routed_recorded(final(table).settlements@, final(routed)@, old(routed)@),
{
    let ghost t0 = table.settlements@;
    assert(history_extended(t0, t0)) by {
        assert forall|i: int| 0 <= i < t0.len() implies is_prefix(t0[i].community_history@, (#[trigger] t0[i]).community_history@) by {
            assert(t0[i].community_history@.subrange(0, t0[i].community_history@.len() as int) =~= t0[i].community_history@);
        }
    }
    let mut b: usize = 0;
    while b < new_buildings.len()
        invariant
            0 <= b <= new_buildings@.len(),
            table.wf(),
            history_extended(t0, table.settlements@),
            table.next_settlement_id == old(table).next_settlement_id,
            table.next_event_id == old(table).next_event_id,
            table.next_agent_id == old(table).next_agent_id,
            t0 == old(table).settlements@,
            forall|x: (SettlementId, EventId)| old(routed)@.contains(x) ==> #[trigger] routed@.contains(x),
            routed_recorded(table.settlements@, routed@, old(routed)@),
            buildings_routed(table.settlements@, routed@, new_buildings@, b as int, rules.proximity_radius),
        decreases new_buildings@.len() - b,
    {
        let (bid, pos) = new_buildings[b];
        let ghost before = table.settlements@;
        let ghost routed_before = routed@;
        match nearest_settlement(&table.settlements, pos, rules.proximity_radius) {
            Some(i) => {
                let sid = table.settlements[i].id;
                append_unique(table, routed, sid, bid);
                proof {
                    lemma_append_keeps(before, table.settlements@, routed_before, routed@, old(routed)@, sid, bid);
                    lemma_history_extended_trans(t0, before, table.settlements@);
                    lemma_same_anchors(before, table.settlements@);
                    assert(nearest_anchor(before, pos, rules.proximity_radius, i as int));
                    assert forall|bb: int, ii: int| 0 <= bb < b + 1 && #[trigger] nearest_anchor(table.settlements@, new_buildings@[bb].1, rules.proximity_radius, ii)
                        implies routed@.contains((table.settlements@[ii].id, new_buildings@[bb].0)) by {
                        assert(nearest_anchor(before, new_buildings@[bb].1, rules.proximity_radius, ii));
                        if bb == b {
                            lemma_nearest_anchor_unique(before, pos, rules.proximity_radius, i as int, ii);
                        } else {
                            assert(routed_before.contains((before[ii].id, new_buildings@[bb].0)));
                        }
                    }
                }
            },
            None => {
                proof {
                    assert forall|bb: int, ii: int| 0 <= bb < b + 1 && #[trigger] nearest_anchor(table.settlements@, new_buildings@[bb].1, rules.proximity_radius, ii)
                        implies routed@.contains((table.settlements@[ii].id, new_buildings@[bb].0)) by {
                        if bb == b {
                            assert(chebyshev_spec(table.settlements@[ii].formation_tile, pos) > rules.proximity_radius);
                        }
                    }
                }
            },
        }
        b = b + 1;
    }
    let mut c: usize = 0;
    while c < combats.len()
        invariant
            0 <= c <= combats@.len(),
            table.wf(),
            history_extended(t0, table.settlements@),
            table.next_settlement_id == old(table).next_settlement_id,
            table.next_event_id == old(table).next_event_id,
            table.next_agent_id == old(table).next_agent_id,
            t0 == old(table).settlements@,
            forall|x: (SettlementId, EventId)| old(routed)@.contains(x) ==> #[trigger] routed@.contains(x),
            routed_recorded(table.settlements@, routed@, old(routed)@),
            buildings_routed(table.settlements@, routed@, new_buildings@, new_buildings@.len() as int, rules.proximity_radius),
            combats_routed(table.settlements@, routed@, combats@, c as int),
        decreases combats@.len() - c,
    {
        let rec = combats[c];
        let ghost before = table.settlements@;
        let ghost routed_before = routed@;
        match settlement_with_member(&table.settlements, rec.attacker, rec.defender) {
            Some(i) => {
                let sid = table.settlements[i].id;
                append_unique(table, routed, sid, rec.event);
                proof {
                    lemma_append_keeps(before, table.settlements@, routed_before, routed@, old(routed)@, sid, rec.event);
                    lemma_history_extended_trans(t0, before, table.settlements@);
                    lemma_same_anchors(before, table.settlements@);
                    assert forall|bb: int, ii: int| 0 <= bb < new_buildings@.len() && #[trigger] nearest_anchor(table.settlements@, new_buildings@[bb].1, rules.proximity_radius, ii)
                        implies routed@.contains((table.settlements@[ii].id, new_buildings@[bb].0)) by {
                        assert(nearest_anchor(before, new_buildings@[bb].1, rules.proximity_radius, ii));
                    }
                    assert forall|cc: int, ii: int| 0 <= cc < c + 1 && #[trigger] first_with_member(table.settlements@, combats@[cc].attacker, combats@[cc].defender, ii)
                        implies routed@.contains((table.settlements@[ii].id, combats@[cc].event)) by {
                        assert(first_with_member(before, combats@[cc].attacker, combats@[cc].defender, ii));
                        if cc == c {
                            lemma_first_with_member_unique(before, rec.attacker, rec.defender, i as int, ii);
                        }
                    }
                }
            },
            None => {
                proof {
                    assert forall|cc: int, ii: int| 0 <= cc < c + 1 && #[trigger] first_with_member(table.settlements@, combats@[cc].attacker, combats@[cc].defender, ii)
                        implies routed@.contains((table.settlements@[ii].id, combats@[cc].event)) by {
                        if cc == c {
                            assert(!table.settlements@[ii].member_agents@.contains(rec.attacker));
                        }
                    }
                }
            },
        }
        c = c + 1;
    }
    let mut d: usize = 0;
    while d < decisions.len()
        invariant
            0 <= d <= decisions@.len(),
            table.wf(),
            history_extended(t0, table.settlements@),
            table.next_settlement_id == old(table).next_settlement_id,
            table.next_event_id == old(table).next_event_id,
            table.next_agent_id == old(table).next_agent_id,
            t0 == old(table).settlements@,
            forall|x: (SettlementId, EventId)| old(routed)@.contains(x) ==> #[trigger] routed@.contains(x),
            routed_recorded(table.settlements@, routed@, old(routed)@),
            buildings_routed(table.settlements@, routed@, new_buildings@, new_buildings@.len() as int, rules.proximity_radius),
            combats_routed(table.settlements@, routed@, combats@, combats@.len() as int),
            decisions_routed(table.settlements@, routed@, decisions@, d as int, rules.max_pop),
        decreases decisions@.len() - d,
    {
        let rec = decisions[d];
        let ghost before = table.settlements@;
        let ghost routed_before = routed@;
        match settlement_open_to(&table.settlements, rec.agent, rules.max_pop) {
            Some(i) => {
                let sid = table.settlements[i].id;
                append_unique(table, routed, sid, rec.event);
                proof {
                    lemma_append_keeps(before, table.settlements@, routed_before, routed@, old(routed)@, sid, rec.event);
                    lemma_history_extended_trans(t0, before, table.settlements@);
                    lemma_same_anchors(before, table.settlements@);
                    assert forall|bb: int, ii: int| 0 <= bb < new_buildings@.len() && #[trigger] nearest_anchor(table.settlements@, new_buildings@[bb].1, rules.proximity_radius, ii)
                        implies routed@.contains((table.settlements@[ii].id, new_buildings@[bb].0)) by {
                        assert(nearest_anchor(before, new_buildings@[bb].1, rules.proximity_radius, ii));
                    }
                    assert forall|cc: int, ii: int| 0 <= cc < combats@.len() && #[trigger] first_with_member(table.settlements@, combats@[cc].attacker, combats@[cc].defender, ii)
                        implies routed@.contains((table.settlements@[ii].id, combats@[cc].event)) by {
                        assert(first_with_member(before, combats@[cc].attacker, combats@[cc].defender, ii));
                    }
                    assert forall|dd: int, ii: int| 0 <= dd < d + 1 && #[trigger] first_open_to(table.settlements@, decisions@[dd].agent, rules.max_pop, ii)
                        implies routed@.contains((table.settlements@[ii].id, decisions@[dd].event)) by {
                        assert(first_open_to(before, decisions@[dd].agent, rules.max_pop, ii));
                        if dd == d {
                            lemma_first_open_unique(before, rec.agent, rules.max_pop, i as int, ii);
                        }
                    }
                }
            },
            None => {
                proof {
                    assert forall|dd: int, ii: int| 0 <= dd < d + 1 && #[trigger] first_open_to(table.settlements@, decisions@[dd].agent, rules.max_pop, ii)
                        implies routed@.contains((table.settlements@[ii].id, decisions@[dd].event)) by {
                        if dd == d {
                            assert(!open_to(&table.settlements@[ii], rec.agent, rules.max_pop));
                        }
                    }
                }
            },
        }
        d = d + 1;
    }
}

/// History-only changes keep every anchor, membership and population.
proof fn lemma_same_anchors(before: Seq<Settlement>, after: Seq<Settlement>)
    requires
        history_extended(before, after),
    ensures
        forall|p: Tile, r: u32, i: int| #[trigger] nearest_anchor(after, p, r, i) == nearest_anchor(before, p, r, i),
        forall|a: AgentId, b: AgentId, i: int| #[trigger] first_with_member(after, a, b, i) == first_with_member(before, a, b, i),
        forall|e: AgentId, m: u32, i: int| #[trigger] first_open_to(after, e, m, i) == first_open_to(before, e, m, i),
{
    assert forall|p: Tile, r: u32, i: int| #[trigger] nearest_anchor(after, p, r, i) == nearest_anchor(before, p, r, i) by {
        if 0 <= i < after.len() {
            assert(after[i].formation_tile == before[i].formation_tile);
        }
        if nearest_anchor(after, p, r, i) {
            assert forall|j: int| 0 <= j < before.len() implies chebyshev_spec(#[trigger] before[j].formation_tile, p) >= chebyshev_spec(before[i].formation_tile, p) by {
                assert(after[j].formation_tile == before[j].formation_tile);
            }
            assert forall|j: int| 0 <= j < i implies chebyshev_spec(#[trigger] before[j].formation_tile, p) > chebyshev_spec(before[i].formation_tile, p) by {
                assert(after[j].formation_tile == before[j].formation_tile);
            }
        }
        if nearest_anchor(before, p, r, i) {
            assert forall|j: int| 0 <= j < after.len() implies chebyshev_spec(#[trigger] after[j].formation_tile, p) >= chebyshev_spec(after[i].formation_tile, p) by {
                assert(after[j].formation_tile == before[j].formation_tile);
            }
            assert forall|j: int| 0 <= j < i implies chebyshev_spec(#[trigger] after[j].formation_tile, p) > chebyshev_spec(after[i].formation_tile, p) by {
                assert(after[j].formation_tile == before[j].formation_tile);
            }
        }
    }
    assert forall|a: AgentId, b: AgentId, i: int| #[trigger] first_with_member(after, a, b, i) == first_with_member(before, a, b, i) by {
        if 0 <= i < after.len() {
            assert(after[i].member_agents@ == before[i].member_agents@);
        }
        if first_with_member(after, a, b, i) {
            assert forall|j: int| 0 <= j < i implies !(#[trigger] before[j]).member_agents@.contains(a) && !before[j].member_agents@.contains(b) by {
                assert(after[j].member_agents@ == before[j].member_agents@);
            }
        }
        if first_with_member(before, a, b, i) {
            assert forall|j: int| 0 <= j < i implies !(#[trigger] after[j]).member_agents@.contains(a) && !after[j].member_agents@.contains(b) by {
                assert(after[j].member_agents@ == before[j].member_agents@);
            }
        }
    }
    assert forall|e: AgentId, m: u32, i: int| #[trigger] first_open_to(after, e, m, i) == first_open_to(before, e, m, i) by {
        assert forall|j: int| 0 <= j < after.len() implies open_to(&(#[trigger] after[j]), e, m) == open_to(&before[j], e, m) by {}
    }
}

proof fn lemma_nearest_anchor_unique(st: Seq<Settlement>, p: Tile, r: u32, i: int, j: int)
    requires
        nearest_anchor(st, p, r, i),
        nearest_anchor(st, p, r, j),
    ensures
        i == j,
{
    if i < j {
        assert(chebyshev_spec(st[i].formation_tile, p) > chebyshev_spec(st[j].formation_tile, p));
    } else if j < i {
        assert(chebyshev_spec(st[j].formation_tile, p) > chebyshev_spec(st[i].formation_tile, p));
    }
}

proof fn lemma_first_with_member_unique(st: Seq<Settlement>, a: AgentId, b: AgentId, i: int, j: int)
    requires
        first_with_member(st, a, b, i),
        first_with_member(st, a, b, j),
    ensures
        i == j,
{
    if i < j {
        assert(!st[i].member_agents@.contains(a) && !st[i].member_agents@.contains(b));
    } else if j < i {
        assert(!st[j].member_agents@.contains(a) && !st[j].member_agents@.contains(b));
    }
}

proof fn lemma_first_open_unique(st: Seq<Settlement>, e: AgentId, m: u32, i: int, j: int)
    requires
        first_open_to(st, e, m, i),
        first_open_to(st, e, m, j),
    ensures
        i == j,
{
    if i < j {
        assert(!open_to(&st[i], e, m));
    } else if j < i {
        assert(!open_to(&st[j], e, m));
    }
}

/// Facts kept by one [`append_unique`] step.
proof fn lemma_append_keeps(
    before: Seq<Settlement>,
    after: Seq<Settlement>,
    routed_before: Seq<(SettlementId, EventId)>,
    routed_after: Seq<(SettlementId, EventId)>,
    routed0: Seq<(SettlementId, EventId)>,
    sid: SettlementId,
    eid: EventId,
)
    requires
        after.len() == before.len(),
        routed_after.to_set() == routed_before.to_set().insert((sid, eid)),
        forall|i: int, j: int| 0 <= i < j < before.len() ==> #[trigger] before[i].id < #[trigger] before[j].id,
        forall|i: int| 0 <= i < after.len() ==> {
            let a = #[trigger] after[i];
            let b = before[i];
            &&& a.community_history@ == (if b.id == sid && !routed_before.contains((sid, eid)) {
                history_with(b.community_history@, eid)
            } else {
                b.community_history@
            })
            &&& a.id == b.id && a.formation_tile == b.formation_tile && a.formation_event == b.formation_event
            &&& a.founded_at == b.founded_at && a.birth_last_tick == b.birth_last_tick
            &&& a.last_known_population == b.last_known_population
            &&& a.member_agents@ == b.member_agents@ && a.member_buildings@ == b.member_buildings@
            &&& a.current == b.current && a.total_births == b.total_births && a.stockpile_food == b.stockpile_food
        },
        routed_recorded(before, routed_before, routed0),
    ensures
        history_extended(before, after),
        routed_recorded(after, routed_after, routed0),
        forall|x: (SettlementId, EventId)| routed_before.contains(x) ==> routed_after.contains(x),
        routed_after.contains((sid, eid)),
{
    assert forall|x: (SettlementId, EventId)| routed_before.contains(x) implies routed_after.contains(x) by {
        assert(routed_before.to_set().contains(x));
        assert(routed_after.to_set().contains(x));
    }
    assert(routed_after.to_set().contains((sid, eid)));
    assert forall|i: int| 0 <= i < after.len() implies is_prefix(before[i].community_history@, (#[trigger] after[i]).community_history@) by {
        let h = before[i].community_history@;
        assert(h.push(eid).subrange(0, h.len() as int) =~= h);
        assert(h.subrange(0, h.len() as int) =~= h);
    }
    assert forall|i: int, e: EventId| 0 <= i < after.len() && #[trigger] routed_after.contains((after[i].id, e))
        && !routed0.contains((after[i].id, e))
        implies after[i].community_history@.contains(e) by {
        let h = before[i].community_history@;
        assert(routed_after.to_set().contains((after[i].id, e)));
        if (after[i].id, e) == (sid, eid) {
            if routed_before.contains((sid, eid)) {
                assert(before[i].community_history@.contains(e));
            } else if h.contains(eid) {
            } else {
                assert(h.push(eid)[h.len() as int] == eid);
            }
        } else {
            assert(routed_before.to_set().contains((after[i].id, e)));
            assert(before[i].community_history@.contains(e));
            let k = choose|k: int| 0 <= k < h.len() && h[k] == e;
            if before[i].id == sid && !routed_before.contains((sid, eid)) && !h.contains(eid) {
                assert(h.push(eid)[k] == e);
            }
        }
    }
}


/// Smallest id in a list, if any.
pub fn min_id(v: &Vec<u64>) -> (r: Option<u64>)
    ensures
        r is None <==> v@.len() == 0,
        r matches Some(m) ==> v@.contains(m) && forall|j: int| 0 <= j < v@.len() ==> m <= v@[j],
{
    if v.len() == 0 {
        return None;
    }
    let mut m = v[0];
    let mut i: usize = 1;
    while i < v.len()
        invariant
            1 <= i <= v@.len(),
            v@.contains(m),
            forall|j: int| 0 <= j < i ==> m <= v@[j],
        decreases v@.len() - i,
    {
        if v[i] < m {
            m = v[i];
        }
        i = i + 1;
    }
    Some(m)
}

/// `a + b` saturated at `u64::MAX`.
pub open spec fn sat_add_u64(a: u64, b: u64) -> u64 {
    if a + b > u64::MAX { u64::MAX } else { (a + b) as u64 }
}

/// The member a newborn is placed next to: the lowest member id, when that
/// member's tile is known.
pub open spec fn birth_spot(s: &Settlement, positions: Seq<(AgentId, Tile)>) -> Option<Tile> {
    if s.member_agents@.len() == 0 {
        None
    } else {
        let m = choose|m: u64| s.member_agents@.contains(m) && forall|j: int| 0 <= j < s.member_agents@.len() ==> m <= s.member_agents@[j];
        position_of(positions, m)
    }
}

/// Whether settlement `s` has a birth at `tick`: the cooldown since its last
/// birth has passed, it is below `max_pop`, and its lowest member's tile is
/// known.
pub open spec fn births_now(s: &Settlement, positions: Seq<(AgentId, Tile)>, tick: u64, max_pop: u32) -> bool {
    tick >= sat_add_u64(s.birth_last_tick, BIRTH_COOLDOWN_TICKS) && s.current < max_pop && birth_spot(s, positions) is Some
}

/// Births among the first `k` settlements of `ss`.
pub open spec fn births_before(ss: Seq<Settlement>, positions: Seq<(AgentId, Tile)>, tick: u64, max_pop: u32, k: int) -> nat
    decreases k,
{
    if k <= 0 {
        0
    } else {
        births_before(ss, positions, tick, max_pop, k - 1) + if births_now(&ss[k - 1], positions, tick, max_pop) { 1nat } else { 0nat }
    }
}

/// The event recording the birth of `agent` (event `eid`) into `s`, next to
/// its lowest member.
pub open spec fn birth_event(s: Settlement, positions: Seq<(AgentId, Tile)>, agent: AgentId, eid: EventId) -> SettlementEvent {
    SettlementEvent::Born {
        id: eid,
        parent: s.formation_event,
        settlement: s.id,
        agent,
        tile: birth_spot(&s, positions).unwrap(),
    }
}

/// Births only accumulate along the settlements.
pub proof fn lemma_births_before_mono(ss: Seq<Settlement>, positions: Seq<(AgentId, Tile)>, tick: u64, max_pop: u32, a: int, b: int)
    requires
        a <= b,
    ensures
        births_before(ss, positions, tick, max_pop, a) <= births_before(ss, positions, tick, max_pop, b),
    decreases b - a,
{
    if a < b {
        lemma_births_before_mono(ss, positions, tick, max_pop, a, b - 1);
    }
}

/// `e` is a birth event with id `eid` of agent `agent`.
pub open spec fn born_at(e: SettlementEvent, eid: EventId, agent: AgentId) -> bool {
    match e {
        SettlementEvent::Born { id, agent: a, .. } => id == eid && a == agent,
        _ => false,
    }
}

/// Every member of every settlement has an id below `next`.
pub open spec fn members_below(ss: Seq<Settlement>, next: u64) -> bool {
    forall|i: int, j: int| 0 <= i < ss.len() && 0 <= j < ss[i].member_agents@.len() ==> #[trigger] ss[i].member_agents@[j] < next
}

/// One birth per due settlement, in id order: a fresh agent id joins the
/// settlement next to its lowest member, the population and birth count
/// grow, the birth is recorded in the history and routed for this tick, and
/// the cooldown restarts. Settlements not due are unchanged.
#[verifier::rlimit(60)]
pub fn run_births(
    table: &mut SettlementTable,
    routed: &mut Vec<(SettlementId, EventId)>,
    positions: &Vec<(AgentId, Tile)>,
    max_pop: u32,
    tick: u64,
    events: &mut Vec<SettlementEvent>,
)
    requires
        old(table).wf(),
        old(table).next_agent_id + old(table).settlements@.len() <= u64::MAX,
        old(table).next_event_id + old(table).settlements@.len() <= u64::MAX,
        forall|i: int| 0 <= i < old(table).settlements@.len() ==> (#[trigger] old(table).settlements@[i]).member_agents@.len() < u32::MAX,
        members_below(old(table).settlements@, old(table).next_agent_id),
    ensures
        final(table).wf(),
        final(table).settlements@.len() == old(table).settlements@.len(),
        final(table).next_settlement_id == old(table).next_settlement_id,
        final(table).next_agent_id == old(table).next_agent_id
            + births_before(old(table).settlements@, positions@, tick, max_pop, old(table).settlements@.len() as int),
        final(table).next_event_id == old(table).next_event_id
            + births_before(old(table).settlements@, positions@, tick, max_pop, old(table).settlements@.len() as int),
        final(events)@.len() == old(events)@.len()
            + births_before(old(table).settlements@, positions@, tick, max_pop, old(table).settlements@.len() as int),
        final(events)@.subrange(0, old(events)@.len() as int) == old(events)@,
        forall|j: int| old(events)@.len() <= j < final(events)@.len() ==>
            born_at(#[trigger] final(events)@[j], (old(table).next_event_id + (j - old(events)@.len())) as u64,
                (old(table).next_agent_id + (j - old(events)@.len())) as u64),
        forall|i: int| 0 <= i < old(table).settlements@.len() && #[trigger] births_now(&old(table).settlements@[i], positions@, tick, max_pop) ==> {
            let k = births_before(old(table).settlements@, positions@, tick, max_pop, i);
            let b = old(table).settlements@[i];
            let a = final(table).settlements@[i];
            &&& a.member_agents@ == b.member_agents@.push((old(table).next_agent_id + k) as u64)
            &&& a.community_history@ == history_with(b.community_history@, (old(table).next_event_id + k) as u64)
            &&& final(events)@[(old(events)@.len() + k) as int]
                == birth_event(b, positions@, (old(table).next_agent_id + k) as u64, (old(table).next_event_id + k) as u64)
            &&& final(routed)@.contains((b.id, (old(table).next_event_id + k) as u64))
        },
        final(table).next_agent_id >= old(table).next_agent_id,
        final(table).next_event_id - old(table).next_event_id == final(table).next_agent_id - old(table).next_agent_id,
        final(table).next_agent_id - old(table).next_agent_id <= old(table).settlements@.len(),
        forall|x: (SettlementId, EventId)| old(routed)@.contains(x) ==> #[trigger] final(routed)@.contains(x),
        forall|i: int| 0 <= i < final(table).settlements@.len() ==> {
            let a = #[trigger] final(table).settlements@[i];
            let b = old(table).settlements@[i];
            &&& a.id == b.id && a.formation_tile == b.formation_tile && a.formation_event == b.formation_event
            &&& a.founded_at == b.founded_at && a.last_known_population == b.last_known_population
            &&& a.member_buildings@ == b.member_buildings@ && a.stockpile_food == b.stockpile_food
            &&& if births_now(&b, positions@, tick, max_pop) {
                &&& a.birth_last_tick == tick
                &&& a.member_agents@.len() == b.member_agents@.len() + 1 || a.member_agents@ == b.member_agents@
                &&& a.member_agents@.to_set().len() == a.member_agents@.len()
                &&& b.member_agents@.to_set().subset_of(a.member_agents@.to_set())
                &&& a.current == a.member_agents@.len()
                &&& a.total_births == (if b.total_births == u32::MAX { u32::MAX } else { (b.total_births + 1) as u32 })
                &&& a.community_history@.len() >= b.community_history@.len()
            } else {
                &&& a.birth_last_tick == b.birth_last_tick
                &&& a.member_agents@ == b.member_agents@
                &&& a.current == b.current && a.total_births == b.total_births
                &&& a.community_history@ == b.community_history@
            }
        },
{
    let n = table.settlements.len();
    let mut i: usize = 0;
    while i < n
        invariant
            n == table.settlements@.len(),
            n == old(table).settlements@.len(),
            0 <= i <= n,
            table.wf(),
            table.next_settlement_id == old(table).next_settlement_id,
            table.next_agent_id >= old(table).next_agent_id,
            table.next_agent_id - old(table).next_agent_id <= i,
            table.next_event_id - old(table).next_event_id == table.next_agent_id - old(table).next_agent_id,
            old(table).next_agent_id + n <= u64::MAX,
            old(table).next_event_id + n <= u64::MAX,
            forall|x: (SettlementId, EventId)| old(routed)@.contains(x) ==> #[trigger] routed@.contains(x),
            forall|k: int| i <= k < n ==> #[trigger] table.settlements@[k] == old(table).settlements@[k],
            forall|k: int| 0 <= k < n ==> (#[trigger] old(table).settlements@[k]).member_agents@.len() < u32::MAX,
            members_below(old(table).settlements@, old(table).next_agent_id),
            table.next_agent_id == old(table).next_agent_id + births_before(old(table).settlements@, positions@, tick, max_pop, i as int),
            table.next_event_id == old(table).next_event_id + births_before(old(table).settlements@, positions@, tick, max_pop, i as int),
            births_before(old(table).settlements@, positions@, tick, max_pop, i as int) <= i,
            events@.len() == old(events)@.len() + births_before(old(table).settlements@, positions@, tick, max_pop, i as int),
            events@.subrange(0, old(events)@.len() as int) == old(events)@,
            forall|j: int| old(events)@.len() <= j < events@.len() ==>
                born_at(#[trigger] events@[j], (old(table).next_event_id + (j - old(events)@.len())) as u64,
                    (old(table).next_agent_id + (j - old(events)@.len())) as u64),
            forall|q: int| 0 <= q < i && #[trigger] births_now(&old(table).settlements@[q], positions@, tick, max_pop) ==> {
                let k = births_before(old(table).settlements@, positions@, tick, max_pop, q);
                let b = old(table).settlements@[q];
                let a = table.settlements@[q];
                &&& a.member_agents@ == b.member_agents@.push((old(table).next_agent_id + k) as u64)
                &&& a.community_history@ == history_with(b.community_history@, (old(table).next_event_id + k) as u64)
                &&& events@[(old(events)@.len() + k) as int]
                    == birth_event(b, positions@, (old(table).next_agent_id + k) as u64, (old(table).next_event_id + k) as u64)
                &&& routed@.contains((b.id, (old(table).next_event_id + k) as u64))
            },
            forall|k: int| 0 <= k < i ==> {
                let a = #[trigger] table.settlements@[k];
                let b = old(table).settlements@[k];
                &&& a.id == b.id && a.formation_tile == b.formation_tile && a.formation_event == b.formation_event
                &&& a.founded_at == b.founded_at && a.last_known_population == b.last_known_population
                &&& a.member_buildings@ == b.member_buildings@ && a.stockpile_food == b.stockpile_food
                &&& if births_now(&b, positions@, tick, max_pop) {
                    &&& a.birth_last_tick == tick
                    &&& a.member_agents@.len() == b.member_agents@.len() + 1 || a.member_agents@ == b.member_agents@
                    &&& a.member_agents@.to_set().len() == a.member_agents@.len()
                    &&& b.member_agents@.to_set().subset_of(a.member_agents@.to_set())
                    &&& a.current == a.member_agents@.len()
                    &&& a.total_births == (if b.total_births == u32::MAX { u32::MAX } else { (b.total_births + 1) as u32 })
                    &&& a.community_history@.len() >= b.community_history@.len()
                } else {
                    &&& a.birth_last_tick == b.birth_last_tick
                    &&& a.member_agents@ == b.member_agents@
                    &&& a.current == b.current && a.total_births == b.total_births
                    &&& a.community_history@ == b.community_history@
                }
            },
        decreases n - i,
    {
        let ghost b = old(table).settlements@[i as int];
        let last = table.settlements[i].birth_last_tick;
        let due = tick >= last.saturating_add(BIRTH_COOLDOWN_TICKS) && table.settlements[i].current < max_pop;
        let spot = if due {
            match min_id(&table.settlements[i].member_agents) {
                Some(m) => {
                    proof {
                        let mm = choose|mm: u64| b.member_agents@.contains(mm) && forall|j: int| 0 <= j < b.member_agents@.len() ==> mm <= b.member_agents@[j];
                        let x = choose|x: int| 0 <= x < b.member_agents@.len() && b.member_agents@[x] == m;
                        let y = choose|y: int| 0 <= y < b.member_agents@.len() && b.member_agents@[y] == mm;
                        assert(m <= mm && mm <= m);
                    }
                    lookup_position(positions, m)
                },
                None => None,
            }
        } else {
            None
        };
        match spot {
            Some(p) => {
                proof {
                    assert(births_now(&b, positions@, tick, max_pop));
                }
                let agent = table.next_agent_id;
                let eid = table.next_event_id;
                table.next_agent_id = agent + 1;
                table.next_event_id = eid + 1;
                let sid = table.settlements[i].id;
                let parent = table.settlements[i].formation_event;
                let mut members: Vec<u64> = Vec::new();
                std::mem::swap(&mut members, &mut table.settlements[i].member_agents);
                proof {
                    assert(distinct_ids(members@));
                }
                insert_id(&mut members, agent);
                proof {
                    members@.unique_seq_to_set();
                    b.member_agents@.unique_seq_to_set();
                }
                let count = members.len() as u32;
                table.settlements[i].member_agents = members;
                table.settlements[i].current = count;
                let tb = table.settlements[i].total_births;
                table.settlements[i].total_births = tb.saturating_add(1);
                if !contains_id(&table.settlements[i].community_history, eid) {
                    table.settlements[i].community_history.push(eid);
                }
                table.settlements[i].birth_last_tick = tick;
                let ghost before = routed@;
                let ghost ev_before = events@;
                routed.push((sid, eid));
                events.push(SettlementEvent::Born { id: eid, parent, settlement: sid, agent, tile: p });
                proof {
                    let kk = births_before(old(table).settlements@, positions@, tick, max_pop, i as int);
                    assert(births_before(old(table).settlements@, positions@, tick, max_pop, i + 1) == kk + 1);
                    assert(agent == old(table).next_agent_id + kk);
                    assert(events@[(old(events)@.len() + kk) as int] == birth_event(b, positions@, agent, eid));
                    assert(events@.subrange(0, old(events)@.len() as int) =~= ev_before.subrange(0, old(events)@.len() as int));
                    assert forall|j: int| old(events)@.len() <= j < events@.len() implies
                        born_at(#[trigger] events@[j], (old(table).next_event_id + (j - old(events)@.len())) as u64,
                            (old(table).next_agent_id + (j - old(events)@.len())) as u64) by {
                        if j < events@.len() - 1 {
                            assert(events@[j] == ev_before[j]);
                        }
                    }
                    assert(routed@.contains((b.id, eid))) by {
                        assert(routed@[routed@.len() - 1] == (sid, eid));
                    }
                    assert forall|x: (SettlementId, EventId)| before.contains(x) implies #[trigger] routed@.contains(x) by {
                        let j = choose|j: int| 0 <= j < before.len() && before[j] == x;
                        assert(routed@[j] == x);
                    }
                    assert forall|q: int| 0 <= q < i && #[trigger] births_now(&old(table).settlements@[q], positions@, tick, max_pop) implies
                        events@[(old(events)@.len() + births_before(old(table).settlements@, positions@, tick, max_pop, q)) as int]
                            == ev_before[(old(events)@.len() + births_before(old(table).settlements@, positions@, tick, max_pop, q)) as int] by {
                        lemma_births_before_mono(old(table).settlements@, positions@, tick, max_pop, q + 1, i as int);
                    }
                }
            },
            None => {
                proof {
                    if due {
                        assert(!births_now(&b, positions@, tick, max_pop));
                    }
                    assert(births_before(old(table).settlements@, positions@, tick, max_pop, i + 1)
                        == births_before(old(table).settlements@, positions@, tick, max_pop, i as int));
                }
            },
        }
        i = i + 1;
    }
}

/// Abandoned settlements among the first `k` of `ss`.
pub open spec fn dissolved_before(ss: Seq<Settlement>, k: int) -> nat
    decreases k,
{
    if k <= 0 { 0 } else { dissolved_before(ss, k - 1) + if abandoned(&ss[k - 1]) { 1nat } else { 0nat } }
}

/// Dissolutions only accumulate along the settlements.
pub proof fn lemma_dissolved_before_mono(ss: Seq<Settlement>, a: int, b: int)
    requires
        a <= b,
    ensures
        dissolved_before(ss, a) <= dissolved_before(ss, b),
    decreases b - a,
{
    if a < b {
        lemma_dissolved_before_mono(ss, a, b - 1);
    }
}

/// The event recording the dissolution of `s` as event `eid`: parented to
/// its formation event, with its last known population (its current one
/// if it never had one) and its formation tile.
pub open spec fn dissolution_event(s: Settlement, eid: EventId) -> SettlementEvent {
    SettlementEvent::Dissolved {
        id: eid,
        parent: s.formation_event,
        settlement: s.id,
        final_population: match s.last_known_population {
            Some(p) => p,
            None => s.current,
        },
        tile: s.formation_tile,
    }
}

/// Remove every settlement with no population and no buildings, recording
/// its dissolution (final population: the last known population, else the
/// current one). The others keep their order.
pub fn run_dissolutions(table: &mut SettlementTable, events: &mut Vec<SettlementEvent>)
    requires
        old(table).wf(),
        old(table).next_event_id + old(table).settlements@.len() <= u64::MAX,
    ensures
        final(table).wf(),
        final(table).settlements@ == old(table).settlements@.filter(kept_settlement()),
        forall|i: int| 0 <= i < final(table).settlements@.len() ==> !abandoned(#[trigger] &final(table).settlements@[i]),
        final(table).next_settlement_id == old(table).next_settlement_id,
        final(table).next_agent_id == old(table).next_agent_id,
        final(table).next_event_id >= old(table).next_event_id,
        final(table).next_event_id == old(table).next_event_id + dissolved_before(old(table).settlements@, old(table).settlements@.len() as int),
        final(events)@.len() == old(events)@.len() + dissolved_before(old(table).settlements@, old(table).settlements@.len() as int),
        final(events)@.subrange(0, old(events)@.len() as int) == old(events)@,
        forall|j: int| old(events)@.len() <= j < final(events)@.len() ==> exists|q: int|
            0 <= q < old(table).settlements@.len() && abandoned(&old(table).settlements@[q])
            && #[trigger] final(events)@[j] == dissolution_event(old(table).settlements@[q], (old(table).next_event_id + (j - old(events)@.len())) as u64),
        forall|i: int| 0 <= i < old(table).settlements@.len() && abandoned(#[trigger] &old(table).settlements@[i]) ==> {
            let k = dissolved_before(old(table).settlements@, i);
            final(events)@[(old(events)@.len() + k) as int]
                == dissolution_event(old(table).settlements@[i], (old(table).next_event_id + k) as u64)
        },
{
    let ghost old_list = table.settlements@;
    let mut pending: Vec<Settlement> = Vec::new();
    std::mem::swap(&mut pending, &mut table.settlements);
    let mut kept: Vec<Settlement> = Vec::new();
    let mut i: usize = 0;
    let n = pending.len();
    while pending.len() > 0
        invariant
            n == old_list.len(),
            pending@.len() + i == n,
            pending@ == old_list.subrange(i as int, n as int),
            kept@ == old_list.subrange(0, i as int).filter(kept_settlement()),
            table.next_settlement_id == old(table).next_settlement_id,
            table.next_agent_id == old(table).next_agent_id,
            table.next_event_id >= old(table).next_event_id,
            table.next_event_id - old(table).next_event_id <= i,
            old(table).next_event_id + n <= u64::MAX,
            old_list == old(table).settlements@,
            old(table).wf(),
            forall|a: int, b: int| 0 <= a < b < kept@.len() ==> #[trigger] kept@[a].id < #[trigger] kept@[b].id,
            forall|a: int, k: int| 0 <= a < kept@.len() && i <= k < n ==> #[trigger] kept@[a].id < #[trigger] old_list[k].id,
            forall|a: int| 0 <= a < kept@.len() ==> (#[trigger] kept@[a]).id < old(table).next_settlement_id,
            forall|a: int| 0 <= a < kept@.len() ==> distinct_ids((#[trigger] kept@[a]).member_agents@),
            forall|a: int| 0 <= a < kept@.len() ==> distinct_ids((#[trigger] kept@[a]).member_buildings@),
            forall|a: int| 0 <= a < kept@.len() ==> !abandoned(#[trigger] &kept@[a]),
            table.next_event_id == old(table).next_event_id + dissolved_before(old_list, i as int),
            dissolved_before(old_list, i as int) <= i,
            events@.len() == old(events)@.len() + dissolved_before(old_list, i as int),
            events@.subrange(0, old(events)@.len() as int) == old(events)@,
            forall|j: int| old(events)@.len() <= j < events@.len() ==> exists|q: int|
                0 <= q < old_list.len() && abandoned(&old_list[q])
                && #[trigger] events@[j] == dissolution_event(old_list[q], (old(table).next_event_id + (j - old(events)@.len())) as u64),
            forall|q: int| 0 <= q < i && abandoned(#[trigger] &old_list[q]) ==> {
                let k = dissolved_before(old_list, q);
                events@[(old(events)@.len() + k) as int] == dissolution_event(old_list[q], (old(table).next_event_id + k) as u64)
            },
        decreases pending@.len(),
    {
        let s = pending.remove(0);
        proof {
            assert(s == old_list[i as int]);
            let pre = old_list.subrange(0, i as int);
            assert(old_list.subrange(0, i + 1) =~= pre.push(s));
            pre.lemma_filter_push(s, kept_settlement());
        }
        if s.current == 0 && s.member_buildings.len() == 0 {
            let eid = table.next_event_id;
            table.next_event_id = eid + 1;
            let final_population = match s.last_known_population {
                Some(p) => p,
                None => s.current,
            };
            let ghost ev_before = events@;
            events.push(SettlementEvent::Dissolved {
                id: eid,
                parent: s.formation_event,
                settlement: s.id,
                final_population,
                tile: s.formation_tile,
            });
            proof {
                assert(events@.subrange(0, old(events)@.len() as int) =~= ev_before.subrange(0, old(events)@.len() as int));
                assert forall|j: int| old(events)@.len() <= j < events@.len() implies exists|q: int|
                    0 <= q < old_list.len() && abandoned(&old_list[q])
                    && #[trigger] events@[j] == dissolution_event(old_list[q], (old(table).next_event_id + (j - old(events)@.len())) as u64) by {
                    if j < events@.len() - 1 {
                        assert(events@[j] == ev_before[j]);
                    } else {
                        assert(events@[j] == dissolution_event(old_list[i as int], (old(table).next_event_id + (j - old(events)@.len())) as u64));
                    }
                }
                assert forall|q: int| 0 <= q < i + 1 && abandoned(#[trigger] &old_list[q]) implies {
                    let k = dissolved_before(old_list, q);
                    events@[(old(events)@.len() + k) as int] == dissolution_event(old_list[q], (old(table).next_event_id + k) as u64)
                } by {
                    if q < i {
                        lemma_dissolved_before_mono(old_list, q + 1, i as int);
                        assert(events@[(old(events)@.len() + dissolved_before(old_list, q)) as int]
                            == ev_before[(old(events)@.len() + dissolved_before(old_list, q)) as int]);
                    }
                }
            }
        } else {
            proof {
                assert(old(table).settlements@[i as int] == s);
                assert(s.id < old(table).next_settlement_id);
                assert forall|k: int| i < k < n implies s.id < #[trigger] old_list[k].id by {
                    assert(old(table).settlements@[k] == old_list[k]);
                }
                assert(distinct_ids(s.member_agents@));
                assert(distinct_ids(s.member_buildings@));
            }
            kept.push(s);
        }
        i = i + 1;
        proof {
            assert(pending@ =~= old_list.subrange(i as int, n as int));
        }
    }
    assert(old_list.subrange(0, n as int) =~= old_list);
    table.settlements = kept;
}


/// `a` is settlement `b` after a membership refresh against `agents` and
/// `buildings` (see [`sync_settlement`]).
pub open spec fn synced(a: Settlement, b: Settlement, agents: Seq<(AgentId, Tile)>, buildings: Seq<(BuildingId, Tile)>, radius: u32) -> bool {
    &&& distinct_ids(a.member_agents@) && distinct_ids(a.member_buildings@)
    &&& a.member_agents@.to_set() == ids_near(agents, b.formation_tile, radius)
    &&& a.member_buildings@.to_set() == b.member_buildings@.to_set().intersect(listed_ids(buildings))
            .union(ids_near(buildings, b.formation_tile, radius))
    &&& a.current == ids_near(agents, b.formation_tile, radius).len()
    &&& a.id == b.id && a.formation_tile == b.formation_tile && a.formation_event == b.formation_event
    &&& a.founded_at == b.founded_at && a.birth_last_tick == b.birth_last_tick
    &&& a.last_known_population == b.last_known_population && a.total_births == b.total_births
    &&& a.community_history@ == b.community_history@ && a.stockpile_food == b.stockpile_food
}

/// Refresh the membership of every settlement from proximity to its
/// formation tile.
pub fn sync_membership(table: &mut SettlementTable, agents: &Vec<(AgentId, Tile)>, buildings: &Vec<(BuildingId, Tile)>, radius: u32)
    requires
        old(table).wf(),
        distinct_keys(agents@),
        distinct_keys(buildings@),
        agents@.len() <= u32::MAX,
    ensures
        final(table).wf(),
        final(table).settlements@.len() == old(table).settlements@.len(),
        final(table).next_settlement_id == old(table).next_settlement_id,
        final(table).next_event_id == old(table).next_event_id,
        final(table).next_agent_id == old(table).next_agent_id,
        forall|i: int| 0 <= i < final(table).settlements@.len() ==>
            synced(#[trigger] final(table).settlements@[i], old(table).settlements@[i], agents@, buildings@, radius),
{
    let n = table.settlements.len();
    let mut i: usize = 0;
    while i < n
        invariant
            n == table.settlements@.len(),
            n == old(table).settlements@.len(),
            0 <= i <= n,
            old(table).wf(),
            distinct_keys(agents@),
            distinct_keys(buildings@),
            agents@.len() <= u32::MAX,
            table.next_settlement_id == old(table).next_settlement_id,
            table.next_event_id == old(table).next_event_id,
            table.next_agent_id == old(table).next_agent_id,
            forall|k: int| i <= k < n ==> #[trigger] table.settlements@[k] == old(table).settlements@[k],
            forall|k: int| 0 <= k < i ==>
                synced(#[trigger] table.settlements@[k], old(table).settlements@[k], agents@, buildings@, radius),
        decreases n - i,
    {
        let ghost before = table.settlements@;
        let mut s = table.settlements.remove(i);
        proof {
            assert(s == old(table).settlements@[i as int]);
        }
        sync_settlement(&mut s, agents, buildings, radius);
        table.settlements.insert(i, s);
        proof {
            assert forall|k: int| i + 1 <= k < n implies #[trigger] table.settlements@[k] == old(table).settlements@[k] by {
                assert(table.settlements@[k] == before[k]);
            }
            assert forall|k: int| 0 <= k < i + 1 implies
                synced(#[trigger] table.settlements@[k], old(table).settlements@[k], agents@, buildings@, radius) by {
                if k < i {
                    assert(table.settlements@[k] == before[k]);
                }
            }
        }
        i = i + 1;
    }
}

/// A settlement whose members are exactly the agents near its anchor has no
/// more members than there are agents.
pub proof fn lemma_members_bounded(s: Settlement, agents: Seq<(AgentId, Tile)>, radius: u32)
    requires
        distinct_keys(agents),
        distinct_ids(s.member_agents@),
        s.member_agents@.to_set() == ids_near(agents, s.formation_tile, radius),
    ensures
        s.member_agents@.len() == ids_near(agents, s.formation_tile, radius).len(),
        s.member_agents@.len() <= agents.len(),
{
    lemma_near_count_bounded(agents, s.formation_tile, radius);
    assert(s.member_agents@.no_duplicates());
    s.member_agents@.unique_seq_to_set();
}

/// An agent standing within the radius of a settlement's anchor makes the
/// set of agents near that anchor non-empty.
pub proof fn lemma_near_nonempty(agents: Seq<(AgentId, Tile)>, anchor: Tile, c: Tile, radius: u32)
    requires
        distinct_keys(agents),
        occupied_tiles(agents).contains(c),
        chebyshev_spec(anchor, c) <= radius,
    ensures
        ids_near(agents, anchor, radius).len() > 0,
{
    lemma_near_count_bounded(agents, anchor, radius);
    let i = choose|i: int| 0 <= i < agents.len() && agents[i].1 == c;
    assert(ids_near(agents, anchor, radius).contains(agents[i].0));
}


/// Whether a registry entry is not among the `seen` ids.
pub open spec fn unseen(seen: Seq<BuildingId>) -> spec_fn((BuildingId, Tile)) -> bool {
    |e: (BuildingId, Tile)| !seen.contains(e.0)
}

/// The ids of a registry, in order.
pub open spec fn registry_ids(registry: Seq<(BuildingId, Tile)>) -> Seq<BuildingId> {
    registry.map_values(|e: (BuildingId, Tile)| e.0)
}

impl SettlementSystem {
    /// Building ids seen at the previous run.
    pub closed spec fn seen_spec(&self) -> Seq<BuildingId> {
        self.seen_building_ids@
    }

    /// The registry entries that were not seen at the previous run, in
    /// registry order; the registry's ids become the seen ones.
    pub fn snapshot_buildings(&mut self, registry: &Vec<(BuildingId, Tile)>) -> (fresh: Vec<(BuildingId, Tile)>)
        ensures
            fresh@ == registry@.filter(unseen(old(self).seen_spec())),
            final(self).seen_spec() == registry_ids(registry@),
            final(self).rules_spec() == old(self).rules_spec(),
            final(self).run_count_spec() == old(self).run_count_spec(),
    {
        let ghost pred = unseen(self.seen_building_ids@);
        let mut fresh: Vec<(BuildingId, Tile)> = Vec::new();
        let mut ids: Vec<BuildingId> = Vec::new();
        let mut i: usize = 0;
        while i < registry.len()
            invariant
                0 <= i <= registry@.len(),
                pred == unseen(self.seen_building_ids@),
                self.seen_building_ids@ == old(self).seen_spec(),
                fresh@ == registry@.subrange(0, i as int).filter(pred),
                ids@ == registry_ids(registry@.subrange(0, i as int)),
            decreases registry@.len() - i,
        {
            let e = registry[i];
            proof {
                let pre = registry@.subrange(0, i as int);
                assert(registry@.subrange(0, i + 1) =~= pre.push(e));
                assert(pre.push(e).drop_last() =~= pre);
                reveal_with_fuel(Seq::filter, 1);
                assert(registry_ids(pre.push(e)) =~= registry_ids(pre).push(e.0));
            }
            if !contains_id(&self.seen_building_ids, e.0) {
                fresh.push(e);
            }
            ids.push(e.0);
            i = i + 1;
        }
        assert(registry@.subrange(0, registry@.len() as int) =~= registry@);
        self.seen_building_ids = ids;
        fresh
    }
}


/// `e` records the formation of settlement `sid` as event `eid`, founded by
/// the agents within `radius` of its tile, in ascending order.
pub open spec fn formed_at(e: SettlementEvent, eid: EventId, sid: SettlementId, agents: Seq<(AgentId, Tile)>, radius: u32) -> bool {
    match e {
        SettlementEvent::Formed { id, settlement, founding_members, tile } => {
            &&& id == eid && settlement == sid
            &&& ids_ascending(founding_members@)
            &&& founding_members@.to_set() == ids_near(agents, tile, radius)
        },
        _ => false,
    }
}

/// The population a settlement reports when it dissolves in a run: its
/// population at the start of the run while it still had members and
/// buildings, else the last one recorded, else zero.
pub open spec fn dissolution_population(s: Settlement) -> u32 {
    if healthy(&s) {
        s.current
    } else {
        match s.last_known_population {
            Some(p) => p,
            None => 0,
        }
    }
}

/// `e` records, as event `eid`, the dissolution of a settlement of `old`
/// that is gone from `after`.
pub open spec fn dissolved_at(e: SettlementEvent, eid: EventId, old: Seq<Settlement>, after: Seq<Settlement>) -> bool {
    exists|q: int| 0 <= q < old.len() && {
        let s = #[trigger] old[q];
        &&& e == SettlementEvent::Dissolved {
            id: eid,
            parent: s.formation_event,
            settlement: s.id,
            final_population: dissolution_population(s),
            tile: s.formation_tile,
        }
        &&& forall|x: int| 0 <= x < after.len() ==> (#[trigger] after[x]).id != s.id
    }
}

/// The settlement is not to be dissolved.
pub open spec fn kept_settlement() -> spec_fn(Settlement) -> bool {
    |s: Settlement| !abandoned(&s)
}

impl SettlementSystem {
    /// One run of the settlement pipeline over a world of `width` by
    /// `height` tiles at `tick`: snapshot the healthy populations, diff the
    /// building registry, refresh membership, form new settlements, route
    /// this tick's events into community histories, trigger births and
    /// dissolve abandoned settlements. The run counter always advances and
    /// the per-tick routing record is cleared; on an empty grid nothing else
    /// happens.
    ///
    /// Afterwards no settlement is abandoned, and every tile where an agent
    /// stands is either within the radius of a settlement's anchor or not
    /// enough to form one.
    pub fn tick(
        &mut self,
        table: &mut SettlementTable,
        agents: &Vec<(AgentId, Tile)>,
        registry: &Vec<(BuildingId, Tile)>,
        combats: &Vec<CombatRecord>,
        decisions: &Vec<MigrationDecision>,
        width: u32,
        height: u32,
        tick: u64,
        events: &mut Vec<SettlementEvent>,
    )
        requires
            old(table).wf(),
            distinct_keys(agents@),
            distinct_keys(registry@),
            agents@.len() < u32::MAX,
            forall|k: int| 0 <= k < agents@.len() ==> (#[trigger] agents@[k]).0 < old(table).next_agent_id,
            old(table).next_settlement_id + agents@.len() <= u64::MAX,
            old(table).next_agent_id + old(table).settlements@.len() + agents@.len() <= u64::MAX,
            old(table).next_event_id + 2 * old(table).settlements@.len() + 3 * agents@.len() <= u64::MAX,
        ensures
            final(self).run_count_spec() == (if old(self).run_count_spec() == u64::MAX {
                u64::MAX
            } else {
                (old(self).run_count_spec() + 1) as u64
            }),
            final(self).rules_spec() == old(self).rules_spec(),
            width == 0 || height == 0 ==> {
                &&& *final(table) == *old(table)
                &&& final(events)@ == old(events)@
                &&& final(self).seen_spec() == old(self).seen_spec()
            },
            width > 0 && height > 0 ==> {
                &&& final(table).wf()
                &&& final(self).seen_spec() == registry_ids(registry@)
                &&& final(table).next_settlement_id >= old(table).next_settlement_id
                &&& forall|i: int| 0 <= i < final(table).settlements@.len() ==>
                    (#[trigger] final(table).settlements@[i]).id >= old(table).next_settlement_id
                    || exists|j: int| 0 <= j < old(table).settlements@.len() && old(table).settlements@[j].id == final(table).settlements@[i].id
                &&& forall|i: int| 0 <= i < final(table).settlements@.len() ==> !abandoned(#[trigger] &final(table).settlements@[i])
                &&& forall|i: int| 0 <= i < final(table).settlements@.len() ==> {
                    let s = #[trigger] final(table).settlements@[i];
                    let near = ids_near(agents@, s.formation_tile, old(self).rules_spec().proximity_radius);
                    &&& near.subset_of(s.member_agents@.to_set())
                    &&& s.member_agents@.len() <= near.len() + 1
                    &&& s.current == s.member_agents@.len()
                }
                &&& forall|c: Tile| #[trigger] occupied_tiles(agents@).contains(c) ==>
                    claimed(final(table).settlements@, c, old(self).rules_spec().proximity_radius)
                    || !formable(agents@, registry@, c, old(self).rules_spec())
            },
            width > 0 && height > 0 ==> final(events)@.subrange(0, old(events)@.len() as int) == old(events)@,
            width > 0 && height > 0 ==> final(table).next_event_id == old(table).next_event_id + (final(events)@.len() - old(events)@.len()),
            width > 0 && height > 0 ==> ({
                let f = old(events)@.len() + (final(table).next_settlement_id - old(table).next_settlement_id);
                let b = f + (final(table).next_agent_id - old(table).next_agent_id);
                &&& old(events)@.len() <= f <= b <= final(events)@.len()
                &&& forall|j: int| old(events)@.len() <= j < f ==> formed_at(#[trigger] final(events)@[j],
                    (old(table).next_event_id + (j - old(events)@.len())) as u64,
                    (old(table).next_settlement_id + (j - old(events)@.len())) as u64, agents@, old(self).rules_spec().proximity_radius)
                &&& forall|j: int| f <= j < b ==> born_at(#[trigger] final(events)@[j],
                    (old(table).next_event_id + (j - old(events)@.len())) as u64, (old(table).next_agent_id + (j - f)) as u64)
                &&& forall|j: int| b <= j < final(events)@.len() ==> dissolved_at(#[trigger] final(events)@[j],
                    (old(table).next_event_id + (j - old(events)@.len())) as u64, old(table).settlements@, final(table).settlements@)
            }),
    {
        self.tick_run_count = self.tick_run_count.saturating_add(1);
        self.routed_this_tick = Vec::new();
        if width == 0 || height == 0 {
            return;
        }
        let rules = self.rules;
        let r = rules.proximity_radius;
        snapshot_pre_clearing_population(table);
        proof {
            assert(table.wf()) by {
                assert forall|i: int, j: int| 0 <= i < j < table.settlements@.len() implies
                    #[trigger] table.settlements@[i].id < #[trigger] table.settlements@[j].id by {
                    assert(old(table).settlements@[i].id < old(table).settlements@[j].id);
                }
                assert forall|i: int| 0 <= i < table.settlements@.len() implies #[trigger] table.settlements@[i].id < table.next_settlement_id by {
                    assert(old(table).settlements@[i].id < old(table).next_settlement_id);
                }
                assert forall|i: int| 0 <= i < table.settlements@.len() implies distinct_ids(#[trigger] table.settlements@[i].member_agents@) by {
                    assert(distinct_ids(old(table).settlements@[i].member_agents@));
                }
                assert forall|i: int| 0 <= i < table.settlements@.len() implies distinct_ids(#[trigger] table.settlements@[i].member_buildings@) by {
                    assert(distinct_ids(old(table).settlements@[i].member_buildings@));
                }
            }
        }
        let fresh = self.snapshot_buildings(registry);
        let ghost pre_sync = table.settlements@;
        sync_membership(table, agents, registry, r);
        let ghost synced_table = table.settlements@;
        let ghost n0 = synced_table.len();
        let ghost ev0 = events@;
        let ghost sid0 = table.next_settlement_id;
        let ghost eid0 = table.next_event_id;
        run_formation_scan(table, agents, registry, rules, tick, events);
        let ghost formed = table.settlements@;
        let ghost ev1 = events@;
        let ghost eid1 = table.next_event_id;
        proof {
            assert forall|k: int| 0 <= k < formed.len() implies {
                let s = #[trigger] formed[k];
                &&& distinct_ids(s.member_agents@)
                &&& s.member_agents@.to_set() == ids_near(agents@, s.formation_tile, r)
                &&& s.current == ids_near(agents@, s.formation_tile, r).len()
                &&& s.member_agents@.len() < u32::MAX
            } by {
                if k < n0 {
                    assert(formed.subrange(0, n0 as int)[k] == formed[k]);
                    assert(synced(synced_table[k], pre_sync[k], agents@, registry@, r));
                } else {
                    assert(freshly_formed(formed[k], agents@, registry@, formed[k].formation_tile, rules, tick));
                }
                lemma_members_bounded(formed[k], agents@, r);
            }
        }
        ingest_community_history(table, &mut self.routed_this_tick, &fresh, combats, decisions, rules);
        let ghost ingested = table.settlements@;
        proof {
            assert forall|k: int| 0 <= k < ingested.len() implies
                (#[trigger] ingested[k]).member_agents@.len() < u32::MAX by {
                assert(ingested[k].member_agents@ == formed[k].member_agents@);
            }
            assert(members_below(ingested, table.next_agent_id)) by {
                assert forall|i: int, j: int| 0 <= i < ingested.len() && 0 <= j < ingested[i].member_agents@.len()
                    implies #[trigger] ingested[i].member_agents@[j] < table.next_agent_id by {
                    let x = ingested[i].member_agents@[j];
                    assert(ingested[i].member_agents@ == formed[i].member_agents@);
                    assert(formed[i].member_agents@.to_set().contains(x));
                    assert(ids_near(agents@, formed[i].formation_tile, r).contains(x));
                    let q = choose|q: int| 0 <= q < agents@.len() && agents@[q].0 == x
                        && chebyshev_spec(formed[i].formation_tile, agents@[q].1) <= r;
                }
            }
        }
        run_births(table, &mut self.routed_this_tick, agents, rules.max_pop, tick, events);
        let ghost born = table.settlements@;
        let ghost ev2 = events@;
        let ghost eid2 = table.next_event_id;
        run_dissolutions(table, events);
        proof {
            let f = ev1.len() as int;
            let b = ev2.len() as int;
            let l0 = ev0.len() as int;
            assert(ev0 == old(events)@);
            assert(sid0 == old(table).next_settlement_id && eid0 == old(table).next_event_id);
            assert(events@.subrange(0, l0) =~= old(events)@) by {
                assert forall|j: int| 0 <= j < l0 implies events@[j] == ev0[j] by {
                    assert(events@.subrange(0, b)[j] == ev2[j]);
                    assert(ev2.subrange(0, f)[j] == ev1[j]);
                    assert(ev1.subrange(0, l0)[j] == ev0[j]);
                }
            }
            assert forall|j: int| l0 <= j < f implies formed_at(#[trigger] events@[j],
                (old(table).next_event_id + (j - l0)) as u64, (old(table).next_settlement_id + (j - l0)) as u64, agents@, r) by {
                let k = n0 + (j - l0);
                assert(events@.subrange(0, b)[j] == ev2[j]);
                assert(ev2.subrange(0, f)[j] == ev1[j]);
                let sk = formed[k];
                assert(formed_event(ev1[l0 + (k - n0)], sk, agents@, r));
            }
            assert forall|j: int| f <= j < b implies born_at(#[trigger] events@[j],
                (old(table).next_event_id + (j - l0)) as u64, (old(table).next_agent_id + (j - f)) as u64) by {
                assert(events@.subrange(0, b)[j] == ev2[j]);
            }
            assert forall|j: int| b <= j < events@.len() implies dissolved_at(#[trigger] events@[j],
                (old(table).next_event_id + (j - l0)) as u64, old(table).settlements@, table.settlements@) by {
                let q = choose|q: int| 0 <= q < born.len() && abandoned(&born[q])
                    && events@[j] == dissolution_event(born[q], (eid2 + (j - b)) as u64);
                if q >= n0 {
                    let fk = formed[q];
                    assert(occupied_tiles(agents@).contains(fk.formation_tile));
                    assert(freshly_formed(fk, agents@, registry@, fk.formation_tile, rules, tick));
                    lemma_near_nonempty(agents@, fk.formation_tile, fk.formation_tile, r);
                    assert(ingested[q].current == fk.current);
                    assert(ingested[q].member_agents@ == fk.member_agents@);
                    lemma_members_bounded(fk, agents@, r);
                    assert(born[q].current > 0);
                }
                assert(q < n0);
                assert(formed.subrange(0, n0 as int)[q] == formed[q]);
                assert(synced(synced_table[q], pre_sync[q], agents@, registry@, r));
                let o = old(table).settlements@[q];
                assert(born[q].id == o.id);
                assert(born[q].formation_event == o.formation_event);
                assert(born[q].formation_tile == o.formation_tile);
                assert(born[q].last_known_population == (if healthy(&o) { Some(o.current) } else { o.last_known_population }));
                assert(dissolution_event(born[q], (eid2 + (j - b)) as u64) == SettlementEvent::Dissolved {
                    id: (old(table).next_event_id + (j - l0)) as u64,
                    parent: o.formation_event,
                    settlement: o.id,
                    final_population: dissolution_population(o),
                    tile: o.formation_tile,
                });
                assert forall|x: int| 0 <= x < table.settlements@.len() implies (#[trigger] table.settlements@[x]).id != o.id by {
                    let y = table.settlements@[x];
                    assert(born.filter(kept_settlement()).contains(y));
                    born.lemma_filter_contains_rev(kept_settlement(), y);
                    let q2 = choose|q2: int| 0 <= q2 < born.len() && born[q2] == y;
                    if y.id == o.id {
                        if q2 < q { assert(born[q2].id < born[q].id); }
                        if q < q2 { assert(born[q].id < born[q2].id); }
                        assert(!abandoned(&table.settlements@[x]));
                    }
                }
                assert(old(table).settlements@[q] == o);
            }
            assert(f - l0 == table.next_settlement_id - old(table).next_settlement_id);
            assert(b - f == table.next_agent_id - old(table).next_agent_id);
        }
        proof {
            assert forall|i: int| 0 <= i < table.settlements@.len() implies {
                let s = #[trigger] table.settlements@[i];
                let near = ids_near(agents@, s.formation_tile, r);
                &&& near.subset_of(s.member_agents@.to_set())
                &&& s.member_agents@.len() <= near.len() + 1
                &&& s.current == s.member_agents@.len()
            } by {
                let x = table.settlements@[i];
                assert(born.filter(kept_settlement()).contains(x));
                born.lemma_filter_contains_rev(kept_settlement(), x);
                let q = choose|q: int| 0 <= q < born.len() && born[q] == x;
                let f = formed[q];
                assert(ingested[q].member_agents@ == f.member_agents@);
                assert(ingested[q].current == f.current);
                assert(ingested[q].formation_tile == f.formation_tile);
                assert(f.member_agents@.len() == ids_near(agents@, f.formation_tile, r).len()) by {
                    lemma_members_bounded(f, agents@, r);
                }
            }
        }
        proof {
            assert forall|i: int| 0 <= i < table.settlements@.len() implies
                (#[trigger] table.settlements@[i]).id >= old(table).next_settlement_id
                || exists|j: int| 0 <= j < old(table).settlements@.len() && old(table).settlements@[j].id == table.settlements@[i].id by {
                let x = table.settlements@[i];
                assert(born.filter(kept_settlement()).contains(x));
                born.lemma_filter_contains_rev(kept_settlement(), x);
                let q = choose|q: int| 0 <= q < born.len() && born[q] == x;
                assert(born[q].id == ingested[q].id);
                assert(ingested[q].id == formed[q].id);
                if q < n0 {
                    assert(formed.subrange(0, n0 as int)[q] == formed[q]);
                    assert(synced(synced_table[q], pre_sync[q], agents@, registry@, r));
                    assert(pre_sync[q].id == old(table).settlements@[q].id);
                }
            }
        }
        proof {
            assert forall|c: Tile| #[trigger] occupied_tiles(agents@).contains(c) implies
                claimed(table.settlements@, c, r) || !formable(agents@, registry@, c, rules) by {
                if claimed(formed, c, r) {
                    let q = choose|q: int| 0 <= q < formed.len() && chebyshev_spec(#[trigger] formed[q].formation_tile, c) <= r;
                    lemma_near_nonempty(agents@, formed[q].formation_tile, c, r);
                    assert(ingested[q].formation_tile == formed[q].formation_tile);
                    assert(ingested[q].current == formed[q].current);
                    assert(ingested[q].member_agents@ == formed[q].member_agents@);
                    assert(born[q].formation_tile == formed[q].formation_tile);
                    assert(born[q].current > 0);
                    assert(kept_settlement()(born[q]));
                    born.lemma_filter_contains(kept_settlement(), q);
                    assert(born.filter(kept_settlement()) == table.settlements@);
                    let k = choose|k: int| 0 <= k < table.settlements@.len() && table.settlements@[k] == born[q];
                    assert(chebyshev_spec(table.settlements@[k].formation_tile, c) <= r);
                }
            }
        }
    }
}

} // verus!
