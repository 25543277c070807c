use vstd::prelude::*;

use crate::agent::{AgentState, TargetKind};
use crate::geometry::Position;
use crate::nearest::{is_nearest_in, nearest_resource_tile};
use crate::tiles::{
    keys_distinct, lists_map, ResourceTiles, Tile, TileEntry, TileMap, RESOURCE_SOURCE_INFINITE,
};

verus! {

/// The regeneration system runs once every `REGEN_INTERVAL` ticks.
pub const REGEN_INTERVAL: u64 = 120;

/// Units restored to each registered food source per run.
pub const FOOD_REGEN_AMOUNT: u8 = 1;

/// Units restored to each registered water source per run.
pub const WATER_REGEN_AMOUNT: u8 = 1;

/// Units restored to each registered sleep source per run.
pub const SLEEP_REGEN_AMOUNT: u8 = 1;

/// Scheduling priority of [`StaleSeekTargetSystem`].
pub const STALE_SEEK_PRIORITY: u32 = 126;

/// `a + b` saturated at 255.
pub open spec fn sat_add_u8(a: u8, b: u8) -> u8 {
    if a + b > 255 { 255u8 } else { (a + b) as u8 }
}

/// Current value of a tile, absent tiles reading as zero.
pub open spec fn value_or_zero(m: Map<Tile, u8>, k: Tile) -> u8 {
    if m.contains_key(k) { m[k] } else { 0u8 }
}

/// Whether a tile with current value `cur` and ceiling `max` is refilled.
pub open spec fn needs_refill(cur: u8, max: u8) -> bool {
    cur != RESOURCE_SOURCE_INFINITE && cur < max
}

/// The refilled value: `min(cur + amount, max)` with saturating addition.
pub open spec fn refilled(cur: u8, max: u8, amount: u8) -> u8 {
    let s = sat_add_u8(cur, amount);
    if s <= max { s } else { max }
}

/// One regeneration step for a single `(tile, ceiling)` source.
pub open spec fn regen_step(m: Map<Tile, u8>, src: TileEntry, amount: u8) -> Map<Tile, u8> {
    let cur = value_or_zero(m, src.0);
    if needs_refill(cur, src.1) {
        m.insert(src.0, refilled(cur, src.1, amount))
    } else {
        m
    }
}

/// Regeneration steps applied to `m` for each source of `s`, in order.
pub open spec fn regen_fold(m: Map<Tile, u8>, s: Seq<TileEntry>, amount: u8) -> Map<Tile, u8>
    decreases s.len(),
{
    if s.len() == 0 {
        m
    } else {
        regen_step(regen_fold(m, s.drop_last(), amount), s.last(), amount)
    }
}

/// Result of one regeneration run over the ceiling map `sources`: every
/// registered tile that is neither the infinite sentinel nor at its ceiling
/// becomes `min(cur + amount, max)` (absent tiles count as zero and are
/// recreated); every other tile is unchanged.
pub open spec fn regen_map(tiles: Map<Tile, u8>, sources: Map<Tile, u8>, amount: u8) -> Map<Tile, u8> {
    Map::new(
        |k: Tile|
            tiles.contains_key(k) || (sources.contains_key(k) && needs_refill(value_or_zero(tiles, k), sources[k])),
        |k: Tile|
            if sources.contains_key(k) && needs_refill(value_or_zero(tiles, k), sources[k]) {
                refilled(value_or_zero(tiles, k), sources[k], amount)
            } else {
                tiles[k]
            },
    )
}

/// Resource regeneration system.
#[derive(Debug, Default)]
pub struct ResourceRegenSystem;

impl ResourceRegenSystem {
    /// A fresh instance.
    pub fn new() -> (s: ResourceRegenSystem) {
        ResourceRegenSystem
    }

    /// Name under which the system is scheduled.
    pub fn name(&self) -> (n: &'static str)
        ensures
            n@ == "ResourceRegenSystem"@,
    {
        "ResourceRegenSystem"
    }

    /// Scheduling priority.
    pub fn priority(&self) -> (p: u32)
        ensures
            p == 140,
    {
        140
    }

    /// Ticks between runs.
    pub fn tick_interval(&self) -> (t: u64)
        ensures
            t == REGEN_INTERVAL,
    {
        REGEN_INTERVAL
    }

    /// One regeneration run over the three resource channels. Only tiles
    /// with a registered ceiling change; ceilings are read, never written.
    pub fn tick(&mut self, resources: &mut ResourceTiles)
        ensures
            final(resources).food_tiles@ == regen_map(old(resources).food_tiles@, old(resources).food_source_max@, FOOD_REGEN_AMOUNT),
            final(resources).water_tiles@ == regen_map(old(resources).water_tiles@, old(resources).water_source_max@, WATER_REGEN_AMOUNT),
            final(resources).sleep_tiles@ == regen_map(old(resources).sleep_tiles@, old(resources).sleep_source_max@, SLEEP_REGEN_AMOUNT),
            final(resources).food_source_max@ == old(resources).food_source_max@,
            final(resources).water_source_max@ == old(resources).water_source_max@,
            final(resources).sleep_source_max@ == old(resources).sleep_source_max@,
    {
        let food = snapshot(&resources.food_source_max);
        regen_channel(&food, &mut resources.food_tiles, FOOD_REGEN_AMOUNT);
        proof { lemma_regen_fold_is_map(old(resources).food_tiles@, food@, old(resources).food_source_max@, FOOD_REGEN_AMOUNT); }
        let water = snapshot(&resources.water_source_max);
        regen_channel(&water, &mut resources.water_tiles, WATER_REGEN_AMOUNT);
        proof { lemma_regen_fold_is_map(old(resources).water_tiles@, water@, old(resources).water_source_max@, WATER_REGEN_AMOUNT); }
        let sleep = snapshot(&resources.sleep_source_max);
        regen_channel(&sleep, &mut resources.sleep_tiles, SLEEP_REGEN_AMOUNT);
        proof { lemma_regen_fold_is_map(old(resources).sleep_tiles@, sleep@, old(resources).sleep_source_max@, SLEEP_REGEN_AMOUNT); }
    }
}

/// The `(tile, ceiling)` pairs of a ceiling map, each tile once.
pub fn snapshot(map: &TileMap) -> (s: Vec<TileEntry>)
    ensures
        lists_map(s@, map@),
{
    map.entries()
}

/// Refill each source of `sources`, in order, toward its ceiling in `tiles`.
pub fn regen_channel(sources: &Vec<TileEntry>, tiles: &mut TileMap, amount: u8)
    ensures
        final(tiles)@ == regen_fold(old(tiles)@, sources@, amount),
{
    let mut i: usize = 0;
    while i < sources.len()
        invariant
            0 <= i <= sources@.len(),
            tiles@ == regen_fold(old(tiles)@, sources@.subrange(0, i as int), amount),
        decreases sources@.len() - i,
    {
        let (key, max) = sources[i];
        let cur = match tiles.get(key) {
            Some(v) => v,
            None => 0u8,
        };
        if cur != RESOURCE_SOURCE_INFINITE && cur < max {
            let s = cur.saturating_add(amount);
            let next = if s <= max { s } else { max };
            tiles.insert(key, next);
        }
        proof {
            let pre = sources@.subrange(0, i as int);
            let post = sources@.subrange(0, i + 1);
            assert(post.drop_last() =~= pre);
            assert(post.last() == sources@[i as int]);
        }
        i = i + 1;
    }
    assert(sources@.subrange(0, sources@.len() as int) =~= sources@);
}

/// Applying the steps of a distinct-key listing in any order gives
/// [`regen_map`] of the listed ceilings: the result does not depend on the
/// order the ceiling map is walked in.
pub proof fn lemma_regen_fold_is_map(tiles: Map<Tile, u8>, s: Seq<TileEntry>, sources: Map<Tile, u8>, amount: u8)
    requires
        lists_map(s, sources),
    ensures
        regen_fold(tiles, s, amount) == regen_map(tiles, sources, amount),
    decreases s.len(),
{
    if s.len() == 0 {
        assert(sources.dom() =~= Set::<Tile>::empty()) by {
            assert forall|k: Tile| !sources.contains_key(k) by {
                if sources.contains_key(k) {
                    let i = choose|i: int| 0 <= i < s.len() && s[i].0 == k;
                }
            }
        }
        assert(regen_map(tiles, sources, amount) =~= tiles);
    } else {
        let last = s.last();
        let rest = s.drop_last();
        let src2 = sources.remove(last.0);
        assert(s[s.len() - 1] == last);
        assert(sources.contains_key(last.0));
        assert forall|k: Tile| #[trigger] src2.contains_key(k) implies exists|i: int|
            0 <= i < rest.len() && rest[i].0 == k by {
            let i = choose|i: int| 0 <= i < s.len() && s[i].0 == k;
            assert(i != s.len() - 1);
            assert(rest[i].0 == k);
        }
        assert forall|i: int| 0 <= i < rest.len() implies #[trigger] src2.contains_key(rest[i].0)
            && src2[rest[i].0] == rest[i].1 by {
            assert(rest[i] == s[i]);
            assert(s[i].0 != s[s.len() - 1].0);
        }
        lemma_regen_fold_is_map(tiles, rest, src2, amount);
        let mid = regen_map(tiles, src2, amount);
        assert(value_or_zero(mid, last.0) == value_or_zero(tiles, last.0));
        assert(regen_step(mid, last, amount) =~= regen_map(tiles, sources, amount));
    }
}

/// Regeneration law: a registered tile never rises above its ceiling unless
/// it already was above it, never decreases, the infinite sentinel and
/// unregistered tiles are never changed, a tile already at its ceiling stays
/// there, and a removed registered tile is recreated from zero.
pub proof fn lemma_regen_bounds(tiles: Map<Tile, u8>, sources: Map<Tile, u8>, amount: u8, k: Tile)
    ensures
        ({
            let after = regen_map(tiles, sources, amount);
            &&& sources.contains_key(k) && value_or_zero(tiles, k) <= sources[k]
                ==> value_or_zero(after, k) <= sources[k]
            &&& value_or_zero(after, k) >= value_or_zero(tiles, k)
            &&& tiles.contains_key(k) ==> after.contains_key(k)
            &&& !sources.contains_key(k) ==> after.get(k) == tiles.get(k)
            &&& (tiles.contains_key(k) && tiles[k] == RESOURCE_SOURCE_INFINITE) ==> after.get(k) == tiles.get(k)
            &&& (sources.contains_key(k) && tiles.contains_key(k) && tiles[k] >= sources[k]) ==> after.get(k) == tiles.get(k)
            &&& (sources.contains_key(k) && !tiles.contains_key(k) && sources[k] > 0)
                ==> after.get(k) == Some(if amount <= sources[k] { amount } else { sources[k] })
        }),
{
}

/// At-ceiling law: a map whose registered tiles all sit at their ceilings is
/// a fixed point of regeneration, so repeated runs never overshoot.
pub proof fn lemma_regen_fixed_at_ceiling(tiles: Map<Tile, u8>, sources: Map<Tile, u8>, amount: u8)
    requires
        forall|k: Tile| #[trigger] sources.contains_key(k) ==> tiles.contains_key(k) && tiles[k] >= sources[k],
    ensures
        regen_map(tiles, sources, amount) == tiles,
{
    assert(regen_map(tiles, sources, amount) =~= tiles);
}

/// What [`StaleSeekTargetSystem`] does to one agent.
#[derive(Debug, Clone, Copy, PartialEq, Eq)]
pub enum SeekRepair {
    /// Leave the agent untouched.
    Keep,
    /// Point the agent's seek target at this present tile.
    Reroute(Tile),
    /// Return the agent to `Idle` and drop its seek target.
    ToIdle,
}

/// The tile map a resource seek reads, if the target is a tile resource.
pub open spec fn resource_map_for(res: &ResourceTiles, t: TargetKind) -> Option<Map<Tile, u8>> {
    match t {
        TargetKind::Food => Some(res.food_tiles@),
        TargetKind::Water => Some(res.water_tiles@),
        TargetKind::Sleep => Some(res.sleep_tiles@),
        _ => None,
    }
}

/// Whether finite (scarce) sources are registered on any channel.
pub open spec fn scarcity_active(res: &ResourceTiles) -> bool {
    !res.food_source_max@.dom().is_empty() || !res.water_source_max@.dom().is_empty()
        || !res.sleep_source_max@.dom().is_empty()
}

/// The repair owed to an agent in `state` at `pos` whose seek target is `seek`.
pub open spec fn seek_repair_spec(res: &ResourceTiles, state: AgentState, pos: Position, seek: Option<Tile>, r: SeekRepair) -> bool {
    match state {
        AgentState::Seeking { target } => match resource_map_for(res, target) {
            Some(m) => {
                let present = seek matches Some(t) && m.contains_key(t) && m[t] > 0;
                if present {
                    r == SeekRepair::Keep
                } else if m.dom().is_empty() {
                    r == SeekRepair::ToIdle
                } else {
                    r matches SeekRepair::Reroute(t) && is_nearest_in(pos.tile(), m.dom(), t)
                }
            },
            None => r == SeekRepair::Keep,
        },
        _ => r == SeekRepair::Keep,
    }
}

/// Reconciles resource seek targets left stale by scarcity tile removal.
#[derive(Debug, Default)]
pub struct StaleSeekTargetSystem;

impl StaleSeekTargetSystem {
    /// A fresh instance.
    pub fn new() -> (s: StaleSeekTargetSystem) {
        StaleSeekTargetSystem
    }

    /// Name under which the system is scheduled.
    pub fn name(&self) -> (n: &'static str)
        ensures
            n@ == "StaleSeekTargetSystem"@,
    {
        "StaleSeekTargetSystem"
    }

    /// Scheduling priority.
    pub fn priority(&self) -> (p: u32)
        ensures
            p == STALE_SEEK_PRIORITY,
    {
        STALE_SEEK_PRIORITY
    }

    /// Ticks between runs.
    pub fn tick_interval(&self) -> (t: u64)
        ensures
            t == 1,
    {
        1
    }

    /// The repair for one agent: a seeker of food, water or sleep whose
    /// target tile is absent, depleted or missing is re-routed to the nearest
    /// present tile of that kind, or sent back to `Idle` when none remains.
    /// Every other agent is left alone.
    pub fn repair_for(&self, resources: &ResourceTiles, state: &AgentState, pos: &Position, seek: Option<Tile>) -> (r: SeekRepair)
        ensures
            seek_repair_spec(resources, *state, *pos, seek, r),
    {
        let tiles: &TileMap = match state {
            AgentState::Seeking { target: TargetKind::Food } => &resources.food_tiles,
            AgentState::Seeking { target: TargetKind::Water } => &resources.water_tiles,
            AgentState::Seeking { target: TargetKind::Sleep } => &resources.sleep_tiles,
            _ => {
                return SeekRepair::Keep;
            },
        };
        let present = match seek {
            Some(t) => match tiles.get(t) {
                Some(v) => v > 0,
                None => false,
            },
            None => false,
        };
        if present {
            return SeekRepair::Keep;
        }
        match nearest_resource_tile(pos, tiles) {
            Some(nearest) => SeekRepair::Reroute(nearest),
            None => SeekRepair::ToIdle,
        }
    }

    /// One run over a snapshot of agents `(state, position, seek target)`.
    /// Where no finite source is registered on any channel the run is a
    /// strict no-op (every agent `Keep`); otherwise each agent gets its
    /// [`Self::repair_for`] repair.
    pub fn tick(&mut self, resources: &ResourceTiles, agents: &Vec<(AgentState, Position, Option<Tile>)>) -> (out: Vec<SeekRepair>)
        ensures
            out@.len() == agents@.len(),
            !scarcity_active(resources) ==> forall|i: int| 0 <= i < out@.len() ==> out@[i] == SeekRepair::Keep,
            scarcity_active(resources) ==> forall|i: int| 0 <= i < out@.len() ==>
                seek_repair_spec(resources, agents@[i].0, agents@[i].1, agents@[i].2, #[trigger] out@[i]),
    {
        let active = !resources.food_source_max.is_empty() || !resources.water_source_max.is_empty()
            || !resources.sleep_source_max.is_empty();
        proof {
            if active {
                assert(scarcity_active(resources)) by {
                    if !resources.food_source_max@.dom().is_empty() {} else if !resources.water_source_max@.dom().is_empty() {} else {}
                    if resources.food_source_max@.dom().is_empty() {
                        assert(resources.food_source_max@ =~= Map::<Tile, u8>::empty());
                    }
                    if resources.water_source_max@.dom().is_empty() {
                        assert(resources.water_source_max@ =~= Map::<Tile, u8>::empty());
                    }
                    if resources.sleep_source_max@.dom().is_empty() {
                        assert(resources.sleep_source_max@ =~= Map::<Tile, u8>::empty());
                    }
                }
            }
        }
        let mut out: Vec<SeekRepair> = Vec::new();
        let mut i: usize = 0;
        while i < agents.len()
            invariant
                0 <= i <= agents@.len(),
                out@.len() == i,
                active == scarcity_active(resources),
                !active ==> forall|j: int| 0 <= j < i ==> out@[j] == SeekRepair::Keep,
                active ==> forall|j: int| 0 <= j < i ==>
                    seek_repair_spec(resources, agents@[j].0, agents@[j].1, agents@[j].2, #[trigger] out@[j]),
            decreases agents@.len() - i,
        {
            if active {
                let (state, pos, seek) = agents[i];
                let r = self.repair_for(resources, &state, &pos, seek);
                out.push(r);
            } else {
                out.push(SeekRepair::Keep);
            }
            i = i + 1;
        }
        out
    }
}

} // verus!
