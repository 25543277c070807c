use vstd::prelude::*;

use crate::agent::{AgentId, AgentState, TargetKind};
use crate::geometry::{manhattan, manhattan_spec, Position};
use crate::nearest::{gather_candidates, is_nearest_in, nearest_food_tile_in_radius, nearest_resource_tile};
use crate::tiles::{ResourceTiles, Tile, TileMap, RESOURCE_SOURCE_INFINITE};

verus! {

/// Ticks of mutual `Consuming { Agent }` needed to complete an interaction.
pub const REQUIRED_INTERACTION_PROGRESS: u32 = 3;

/// Chebyshev radius within which ground food is eligible for gathering.
pub const GATHER_SCAN_RADIUS: u32 = 8;

/// Cascade arms: the natural drives plus the non-natural arms, each with its
/// own eligibility test.
#[derive(Debug, Clone, Copy, PartialEq, Eq, Hash, Structural)]
pub enum CascadeArm {
    Hunger,
    Thirst,
    Fatigue,
    Construction,
    Social,
    Combat,
    Settlement,
    Gather,
}

/// Memory tag an encoded memory entry carries.
#[derive(Debug, Clone, Copy, PartialEq, Eq, Hash, Structural)]
pub enum MemoryArm {
    Hunger,
    Thirst,
    Fatigue,
    Construction,
    Social,
    Combat,
}

/// Why an agent made a decision.
#[derive(Debug, Clone, Copy, PartialEq, Eq, Structural)]
pub enum DecisionReason {
    HungerThresholdBreach,
    ThirstThresholdBreach,
    FatigueThresholdBreach,
    ConstructionReason,
    SocialReason,
    MemoryReason,
    CombatReason,
    SettlementReason,
}

/// Tie-break rank of each arm: lower wins.
pub open spec fn arm_rank(arm: CascadeArm) -> u8 {
    match arm {
        CascadeArm::Hunger => 0,
        CascadeArm::Thirst => 1,
        CascadeArm::Fatigue => 2,
        CascadeArm::Construction => 3,
        CascadeArm::Social => 4,
        CascadeArm::Combat => 5,
        CascadeArm::Gather => 6,
        CascadeArm::Settlement => 7,
    }
}

/// Tie-break rank of a cascade arm (Hunger 0 … Settlement 7).
pub fn arm_priority_index(arm: CascadeArm) -> (r: u8)
    ensures
        r == arm_rank(arm),
{
    match arm {
        CascadeArm::Hunger => 0,
        CascadeArm::Thirst => 1,
        CascadeArm::Fatigue => 2,
        CascadeArm::Construction => 3,
        CascadeArm::Social => 4,
        CascadeArm::Combat => 5,
        CascadeArm::Gather => 6,
        CascadeArm::Settlement => 7,
    }
}

/// The ranks are distinct, so arm tie-breaks are total and deterministic.
pub proof fn lemma_arm_rank_injective(a: CascadeArm, b: CascadeArm)
    ensures
        arm_rank(a) == arm_rank(b) ==> a == b,
        arm_rank(a) < 8,
{
}

/// The memory tag an arm draws its bias from.
pub open spec fn memory_tag_spec(arm: CascadeArm) -> Option<MemoryArm> {
    match arm {
        CascadeArm::Hunger => Some(MemoryArm::Hunger),
        CascadeArm::Thirst => Some(MemoryArm::Thirst),
        CascadeArm::Fatigue => Some(MemoryArm::Fatigue),
        CascadeArm::Construction => Some(MemoryArm::Construction),
        CascadeArm::Social => Some(MemoryArm::Social),
        CascadeArm::Combat => Some(MemoryArm::Combat),
        CascadeArm::Settlement => None,
        CascadeArm::Gather => None,
    }
}

/// The memory tag an arm draws its bias from; positional arms (Settlement,
/// Gather) are never memory-biased.
pub fn cascade_arm_memory_tag(arm: CascadeArm) -> (r: Option<MemoryArm>)
    ensures
        r == memory_tag_spec(arm),
        r is None <==> (arm == CascadeArm::Settlement || arm == CascadeArm::Gather),
        r == Some(MemoryArm::Hunger) <==> arm == CascadeArm::Hunger,
        r == Some(MemoryArm::Thirst) <==> arm == CascadeArm::Thirst,
        r == Some(MemoryArm::Fatigue) <==> arm == CascadeArm::Fatigue,
        r == Some(MemoryArm::Construction) <==> arm == CascadeArm::Construction,
        r == Some(MemoryArm::Social) <==> arm == CascadeArm::Social,
        r == Some(MemoryArm::Combat) <==> arm == CascadeArm::Combat,
{
    match arm {
        CascadeArm::Hunger => Some(MemoryArm::Hunger),
        CascadeArm::Thirst => Some(MemoryArm::Thirst),
        CascadeArm::Fatigue => Some(MemoryArm::Fatigue),
        CascadeArm::Construction => Some(MemoryArm::Construction),
        CascadeArm::Social => Some(MemoryArm::Social),
        CascadeArm::Combat => Some(MemoryArm::Combat),
        CascadeArm::Settlement => None,
        CascadeArm::Gather => None,
    }
}

/// Distinct memory-biased arms have distinct tags.
pub proof fn lemma_memory_tag_injective(a: CascadeArm, b: CascadeArm)
    ensures
        memory_tag_spec(a) is Some && memory_tag_spec(a) == memory_tag_spec(b) ==> a == b,
{
}

/// The arm that a natural decision reason belongs to.
pub open spec fn natural_arm_spec(reason: DecisionReason) -> CascadeArm {
    match reason {
        DecisionReason::HungerThresholdBreach => CascadeArm::Hunger,
        DecisionReason::ThirstThresholdBreach => CascadeArm::Thirst,
        DecisionReason::FatigueThresholdBreach => CascadeArm::Fatigue,
        DecisionReason::ConstructionReason => CascadeArm::Construction,
        DecisionReason::SocialReason => CascadeArm::Social,
        DecisionReason::MemoryReason => CascadeArm::Construction,
        DecisionReason::CombatReason => CascadeArm::Combat,
        DecisionReason::SettlementReason => CascadeArm::Settlement,
    }
}

/// The arm that a natural decision reason belongs to.
pub fn natural_arm(reason: DecisionReason) -> (arm: CascadeArm)
    ensures
        arm == natural_arm_spec(reason),
        reason == DecisionReason::HungerThresholdBreach <==> arm == CascadeArm::Hunger,
        reason == DecisionReason::ThirstThresholdBreach <==> arm == CascadeArm::Thirst,
        reason == DecisionReason::FatigueThresholdBreach <==> arm == CascadeArm::Fatigue,
        arm == CascadeArm::Construction <==> (reason == DecisionReason::ConstructionReason || reason == DecisionReason::MemoryReason),
        reason == DecisionReason::SocialReason <==> arm == CascadeArm::Social,
        reason == DecisionReason::CombatReason <==> arm == CascadeArm::Combat,
        reason == DecisionReason::SettlementReason <==> arm == CascadeArm::Settlement,
{
    match reason {
        DecisionReason::HungerThresholdBreach => CascadeArm::Hunger,
        DecisionReason::ThirstThresholdBreach => CascadeArm::Thirst,
        DecisionReason::FatigueThresholdBreach => CascadeArm::Fatigue,
        DecisionReason::ConstructionReason => CascadeArm::Construction,
        DecisionReason::SocialReason => CascadeArm::Social,
        DecisionReason::MemoryReason => CascadeArm::Construction,
        DecisionReason::CombatReason => CascadeArm::Combat,
        DecisionReason::SettlementReason => CascadeArm::Settlement,
    }
}

/// The smallest id in `peers` other than `me`.
pub open spec fn is_lowest_other(peers: Seq<AgentId>, me: AgentId, id: AgentId) -> bool {
    &&& peers.contains(id)
    &&& id != me
    &&& forall|j: int| 0 <= j < peers.len() && peers[j] != me ==> id <= peers[j]
}

/// The lowest co-located peer id other than `me` (deterministic partner
/// choice); `None` when every peer is `me`.
pub fn lowest_other_peer(peers: &Vec<AgentId>, me: AgentId) -> (r: Option<AgentId>)
    ensures
        r is None <==> forall|j: int| 0 <= j < peers@.len() ==> peers@[j] == me,
        r matches Some(id) ==> is_lowest_other(peers@, me, id),
{
    let mut best: Option<AgentId> = None;
    let mut i: usize = 0;
    while i < peers.len()
        invariant
            0 <= i <= peers@.len(),
            best is None <==> forall|j: int| 0 <= j < i ==> peers@[j] == me,
            best matches Some(b) ==> (b != me && exists|j: int| 0 <= j < i && peers@[j] == b),
            best matches Some(b) ==> forall|j: int| 0 <= j < i && peers@[j] != me ==> b <= peers@[j],
        decreases peers@.len() - i,
    {
        let p = peers[i];
        if p != me {
            match best {
                None => {
                    best = Some(p);
                },
                Some(b) => {
                    if p < b {
                        best = Some(p);
                    }
                },
            }
        }
        i = i + 1;
    }
    proof {
        if let Some(b) = best {
            let j = choose|j: int| 0 <= j < peers@.len() && peers@[j] == b;
            assert(peers@.contains(b));
        }
    }
    best
}

/// Which drives an idle agent has breached this tick.
///
/// Need levels are compared against their thresholds by the caller; the
/// cascade itself works on the outcomes.
#[derive(Debug, Clone, Copy, PartialEq, Eq, Structural)]
pub struct DriveFlags {
    /// Hunger above its threshold.
    pub hunger: bool,
    /// Thirst above its threshold.
    pub thirst: bool,
    /// Fatigue above its threshold.
    pub fatigue: bool,
    /// An active construction site is on the agent's tile.
    pub site_here: bool,
    /// Loneliness above its threshold.
    pub lonely: bool,
    /// The combat memory bias is strongly negative.
    pub combat_bias: bool,
}

/// The natural cascade: Hunger > Thirst > Fatigue > Construction > Social >
/// Combat. Social targets the lowest eligible peer, Combat the lowest idle
/// peer; either yields no decision when it has no partner.
pub open spec fn natural_cascade_spec(
    f: DriveFlags,
    social_peer: Option<AgentId>,
    combat_peer: Option<AgentId>,
) -> Option<(TargetKind, DecisionReason)> {
    if f.hunger {
        Some((TargetKind::Food, DecisionReason::HungerThresholdBreach))
    } else if f.thirst {
        Some((TargetKind::Water, DecisionReason::ThirstThresholdBreach))
    } else if f.fatigue {
        Some((TargetKind::Sleep, DecisionReason::FatigueThresholdBreach))
    } else if f.site_here {
        Some((TargetKind::ConstructionSite, DecisionReason::ConstructionReason))
    } else if f.lonely {
        match social_peer {
            Some(p) => Some((TargetKind::Agent(p), DecisionReason::SocialReason)),
            None => None,
        }
    } else if f.combat_bias {
        match combat_peer {
            Some(p) => Some((TargetKind::Agent(p), DecisionReason::CombatReason)),
            None => None,
        }
    } else {
        None
    }
}

/// Some arm of the natural cascade can fire: a breached survival need, a
/// site on the tile, loneliness with a partner, or (when not lonely) a
/// combat bias with a partner.
pub open spec fn drive_arm_eligible(f: DriveFlags, social_peer: Option<AgentId>, combat_peer: Option<AgentId>) -> bool {
    ||| f.hunger || f.thirst || f.fatigue || f.site_here
    ||| f.lonely && social_peer is Some
    ||| !f.lonely && f.combat_bias && combat_peer is Some
}

/// Cascade law: the first breached drive in the order Hunger, Thirst,
/// Fatigue, Construction decides the target; in particular a tired agent
/// that is neither hungry nor thirsty seeks sleep. The cascade yields no
/// decision exactly when no arm can fire.
pub proof fn lemma_cascade_order(f: DriveFlags, social_peer: Option<AgentId>, combat_peer: Option<AgentId>)
    ensures
        !f.hunger && !f.thirst && f.fatigue
            ==> natural_cascade_spec(f, social_peer, combat_peer) == Some((TargetKind::Sleep, DecisionReason::FatigueThresholdBreach)),
        !f.hunger && !f.thirst && !f.fatigue && f.site_here
            ==> natural_cascade_spec(f, social_peer, combat_peer) == Some((TargetKind::ConstructionSite, DecisionReason::ConstructionReason)),
        natural_cascade_spec(f, social_peer, combat_peer) is None <==> !drive_arm_eligible(f, social_peer, combat_peer),
        natural_cascade_spec(f, social_peer, combat_peer) matches Some((t, DecisionReason::SocialReason))
            ==> f.lonely && t == TargetKind::Agent(social_peer->0),
        natural_cascade_spec(f, social_peer, combat_peer) matches Some((t, DecisionReason::CombatReason))
            ==> f.combat_bias && t == TargetKind::Agent(combat_peer->0),
{
}

/// The natural cascade decision for an idle agent.
pub fn natural_cascade(
    f: DriveFlags,
    social_peer: Option<AgentId>,
    combat_peer: Option<AgentId>,
) -> (r: Option<(TargetKind, DecisionReason)>)
    ensures
        r == natural_cascade_spec(f, social_peer, combat_peer),
        f.hunger ==> r == Some((TargetKind::Food, DecisionReason::HungerThresholdBreach)),
        !f.hunger && f.thirst ==> r == Some((TargetKind::Water, DecisionReason::ThirstThresholdBreach)),
        !f.hunger && !f.thirst && f.fatigue ==> r == Some((TargetKind::Sleep, DecisionReason::FatigueThresholdBreach)),
        !f.hunger && !f.thirst && !f.fatigue && f.site_here
            ==> r == Some((TargetKind::ConstructionSite, DecisionReason::ConstructionReason)),
        !f.hunger && !f.thirst && !f.fatigue && !f.site_here && f.lonely ==> match social_peer {
            Some(p) => r == Some((TargetKind::Agent(p), DecisionReason::SocialReason)),
            None => r is None,
        },
        !f.hunger && !f.thirst && !f.fatigue && !f.site_here && !f.lonely && f.combat_bias ==> match combat_peer {
            Some(p) => r == Some((TargetKind::Agent(p), DecisionReason::CombatReason)),
            None => r is None,
        },
        r is None <==> !drive_arm_eligible(f, social_peer, combat_peer),
{
    if f.hunger {
        Some((TargetKind::Food, DecisionReason::HungerThresholdBreach))
    } else if f.thirst {
        Some((TargetKind::Water, DecisionReason::ThirstThresholdBreach))
    } else if f.fatigue {
        Some((TargetKind::Sleep, DecisionReason::FatigueThresholdBreach))
    } else if f.site_here {
        Some((TargetKind::ConstructionSite, DecisionReason::ConstructionReason))
    } else if f.lonely {
        match social_peer {
            Some(p) => Some((TargetKind::Agent(p), DecisionReason::SocialReason)),
            None => None,
        }
    } else if f.combat_bias {
        match combat_peer {
            Some(p) => Some((TargetKind::Agent(p), DecisionReason::CombatReason)),
            None => None,
        }
    } else {
        None
    }
}

/// Cascade-priority law: a breached survival need always wins, and the
/// cascade never targets the agent itself.
pub proof fn lemma_cascade_priority(f: DriveFlags, social_peer: Option<AgentId>, combat_peer: Option<AgentId>, me: AgentId)
    requires
        social_peer != Some(me),
        combat_peer != Some(me),
    ensures
        f.hunger ==> natural_cascade_spec(f, social_peer, combat_peer) == Some((TargetKind::Food, DecisionReason::HungerThresholdBreach)),
        !f.hunger && f.thirst ==> natural_cascade_spec(f, social_peer, combat_peer) == Some((TargetKind::Water, DecisionReason::ThirstThresholdBreach)),
        natural_cascade_spec(f, social_peer, combat_peer) != Some((TargetKind::Agent(me), DecisionReason::SocialReason)),
        natural_cascade_spec(f, social_peer, combat_peer) != Some((TargetKind::Agent(me), DecisionReason::CombatReason)),
        (!f.hunger && !f.thirst && !f.fatigue && !f.site_here && !f.lonely && !f.combat_bias)
            ==> natural_cascade_spec(f, social_peer, combat_peer) is None,
{
}

/// Memory facts the bias path reads: whether any entry above the salience
/// floor carries the Construction or the Social tag.
#[derive(Debug, Clone, Copy, PartialEq, Eq, Structural)]
pub struct MemoryHints {
    pub has_construction: bool,
    pub has_social: bool,
}

/// The arms eligible for a memory-bias flip, in cascade order: every
/// breached need, a co-located site, Social with the lowest lonely peer,
/// then memory-only Construction and memory-only Social (lowest idle peer)
/// when those arms are not already present.
pub open spec fn bias_eligible_spec(
    f: DriveFlags,
    lonely_peer: Option<AgentId>,
    idle_peer: Option<AgentId>,
    hints: MemoryHints,
) -> Seq<(CascadeArm, TargetKind)> {
    let s0 = Seq::<(CascadeArm, TargetKind)>::empty();
    let s1 = if f.hunger { s0.push((CascadeArm::Hunger, TargetKind::Food)) } else { s0 };
    let s2 = if f.thirst { s1.push((CascadeArm::Thirst, TargetKind::Water)) } else { s1 };
    let s3 = if f.fatigue { s2.push((CascadeArm::Fatigue, TargetKind::Sleep)) } else { s2 };
    let s4 = if f.site_here { s3.push((CascadeArm::Construction, TargetKind::ConstructionSite)) } else { s3 };
    let social = f.lonely && lonely_peer is Some;
    let s5 = if social { s4.push((CascadeArm::Social, TargetKind::Agent(lonely_peer->0))) } else { s4 };
    let s6 = if !f.site_here && hints.has_construction {
        s5.push((CascadeArm::Construction, TargetKind::ConstructionSite))
    } else {
        s5
    };
    if !social && hints.has_social && idle_peer is Some {
        s6.push((CascadeArm::Social, TargetKind::Agent(idle_peer->0)))
    } else {
        s6
    }
}

/// The arms eligible for a memory-bias flip (see [`bias_eligible_spec`]).
pub fn bias_eligible_arms(
    f: DriveFlags,
    lonely_peer: Option<AgentId>,
    idle_peer: Option<AgentId>,
    hints: MemoryHints,
) -> (r: Vec<(CascadeArm, TargetKind)>)
    ensures
        r@ == bias_eligible_spec(f, lonely_peer, idle_peer, hints),
        r@.contains((CascadeArm::Hunger, TargetKind::Food)) <==> f.hunger,
        r@.contains((CascadeArm::Thirst, TargetKind::Water)) <==> f.thirst,
        r@.contains((CascadeArm::Fatigue, TargetKind::Sleep)) <==> f.fatigue,
        r@.contains((CascadeArm::Construction, TargetKind::ConstructionSite)) <==> (f.site_here || hints.has_construction),
        f.lonely && lonely_peer is Some ==> r@.contains((CascadeArm::Social, TargetKind::Agent(lonely_peer->0))),
        !(f.lonely && lonely_peer is Some) && hints.has_social && idle_peer is Some
            ==> r@.contains((CascadeArm::Social, TargetKind::Agent(idle_peer->0))),
        forall|i: int| 0 <= i < r@.len() ==> {
            &&& (#[trigger] r@[i]).0 != CascadeArm::Combat && r@[i].0 != CascadeArm::Settlement && r@[i].0 != CascadeArm::Gather
            &&& r@[i].0 == CascadeArm::Hunger ==> f.hunger && r@[i].1 == TargetKind::Food
            &&& r@[i].0 == CascadeArm::Thirst ==> f.thirst && r@[i].1 == TargetKind::Water
            &&& r@[i].0 == CascadeArm::Fatigue ==> f.fatigue && r@[i].1 == TargetKind::Sleep
            &&& r@[i].0 == CascadeArm::Construction ==> r@[i].1 == TargetKind::ConstructionSite
            &&& r@[i].0 == CascadeArm::Social ==> (f.lonely && lonely_peer is Some && r@[i].1 == TargetKind::Agent(lonely_peer->0))
                || (!(f.lonely && lonely_peer is Some) && hints.has_social && idle_peer is Some
                    && r@[i].1 == TargetKind::Agent(idle_peer->0))
        },
        forall|i: int, j: int| 0 <= i < j < r@.len() ==> (#[trigger] r@[i]).0 != (#[trigger] r@[j]).0,
        f.hunger ==> r@[0] == (CascadeArm::Hunger, TargetKind::Food),
{
    let mut v: Vec<(CascadeArm, TargetKind)> = Vec::new();
    if f.hunger {
        v.push((CascadeArm::Hunger, TargetKind::Food));
    }
    if f.thirst {
        v.push((CascadeArm::Thirst, TargetKind::Water));
    }
    if f.fatigue {
        v.push((CascadeArm::Fatigue, TargetKind::Sleep));
    }
    if f.site_here {
        v.push((CascadeArm::Construction, TargetKind::ConstructionSite));
    }
    let mut social = false;
    if f.lonely {
        if let Some(p) = lonely_peer {
            v.push((CascadeArm::Social, TargetKind::Agent(p)));
            social = true;
        }
    }
    if !f.site_here && hints.has_construction {
        v.push((CascadeArm::Construction, TargetKind::ConstructionSite));
    }
    if !social && hints.has_social {
        if let Some(p) = idle_peer {
            v.push((CascadeArm::Social, TargetKind::Agent(p)));
        }
    }
    proof {
        let h: int = if f.hunger { 1 } else { 0 };
        let t: int = if f.thirst { 1 } else { 0 };
        let g: int = if f.fatigue { 1 } else { 0 };
        let c: int = if f.site_here { 1 } else { 0 };
        let so: int = if social { 1 } else { 0 };
        if f.hunger {
            assert(v@[0] == (CascadeArm::Hunger, TargetKind::Food));
        }
        if f.thirst {
            assert(v@[h] == (CascadeArm::Thirst, TargetKind::Water));
        }
        if f.fatigue {
            assert(v@[h + t] == (CascadeArm::Fatigue, TargetKind::Sleep));
        }
        if f.site_here {
            assert(v@[h + t + g] == (CascadeArm::Construction, TargetKind::ConstructionSite));
        } else if hints.has_construction {
            assert(v@[h + t + g + so] == (CascadeArm::Construction, TargetKind::ConstructionSite));
        }
        let mc: int = if !f.site_here && hints.has_construction { 1 } else { 0 };
        if f.lonely && lonely_peer is Some {
            assert(v@[h + t + g + c] == (CascadeArm::Social, TargetKind::Agent(lonely_peer->0)));
        } else if hints.has_social && idle_peer is Some {
            assert(v@[h + t + g + c + mc] == (CascadeArm::Social, TargetKind::Agent(idle_peer->0)));
        }
    }
    v
}

/// Each arm occurs at most once among the bias-eligible arms.
pub proof fn lemma_bias_eligible_unique(f: DriveFlags, lonely_peer: Option<AgentId>, idle_peer: Option<AgentId>, hints: MemoryHints)
    ensures
        ({
            let s = bias_eligible_spec(f, lonely_peer, idle_peer, hints);
            forall|i: int, j: int| 0 <= i < j < s.len() ==> s[i].0 != s[j].0
        }),
{
}

/// A combat pair in canonical (smaller id first) order.
pub fn canonical_pair(a: AgentId, b: AgentId) -> (r: (AgentId, AgentId))
    ensures
        r.0 <= r.1,
        (r == (a, b)) || (r == (b, a)),
{
    if a < b { (a, b) } else { (b, a) }
}


/// What an agent carries: food units and units of every other kind, against
/// a shared capacity.
#[derive(Debug, Clone, Copy, PartialEq, Eq, Structural)]
pub struct Inventory {
    pub food: u32,
    pub other: u32,
    pub capacity: u32,
}

impl Inventory {
    /// Units carried in total.
    pub open spec fn total_spec(self) -> int {
        self.food + self.other
    }

    /// Free room, zero when full (or over-full).
    pub open spec fn room_spec(self) -> int {
        if self.total_spec() >= self.capacity { 0 } else { self.capacity - self.total_spec() }
    }

    /// Free room left in the inventory.
    pub fn room(&self) -> (r: u32)
        ensures
            r == self.room_spec(),
    {
        let total: u64 = self.food as u64 + self.other as u64;
        if total >= self.capacity as u64 {
            0
        } else {
            (self.capacity as u64 - total) as u32
        }
    }
}

/// The tile a satisfied agent walks to for the Gather arm: it needs
/// inventory room, and the tile is the nearest food tile with a positive
/// count within [`GATHER_SCAN_RADIUS`].
pub fn gather_target(inventory: Option<Inventory>, pos: &Position, food_tiles: &TileMap) -> (r: Option<Tile>)
    ensures
        match inventory {
            Some(inv) if inv.room_spec() > 0 => {
                &&& r is None <==> gather_candidates(pos.tile(), food_tiles@, GATHER_SCAN_RADIUS).is_empty()
                &&& r matches Some(t) ==> is_nearest_in(pos.tile(), gather_candidates(pos.tile(), food_tiles@, GATHER_SCAN_RADIUS), t)
            },
            _ => r is None,
        },
{
    match inventory {
        Some(inv) => {
            if inv.room() > 0 {
                nearest_food_tile_in_radius(pos, food_tiles, GATHER_SCAN_RADIUS)
            } else {
                None
            }
        },
        None => None,
    }
}

/// Position of agent `id` in an `(agent, tile)` list: the first entry for it.
pub open spec fn position_of(ps: Seq<(AgentId, Tile)>, id: AgentId) -> Option<Tile>
    decreases ps.len(),
{
    if ps.len() == 0 {
        None
    } else if ps[0].0 == id {
        Some(ps[0].1)
    } else {
        position_of(ps.drop_first(), id)
    }
}

/// Looks up an agent's tile in an `(agent, tile)` list.
pub fn lookup_position(ps: &Vec<(AgentId, Tile)>, id: AgentId) -> (r: Option<Tile>)
    ensures
        r == position_of(ps@, id),
{
    let mut i: usize = 0;
    assert(ps@.subrange(0, ps@.len() as int) =~= ps@);
    while i < ps.len()
        invariant
            0 <= i <= ps@.len(),
            position_of(ps@, id) == position_of(ps@.subrange(i as int, ps@.len() as int), id),
        decreases ps@.len() - i,
    {
        let ghost rest = ps@.subrange(i as int, ps@.len() as int);
        assert(rest[0] == ps@[i as int]);
        assert(rest.drop_first() =~= ps@.subrange(i + 1, ps@.len() as int));
        if ps[i].0 == id {
            return Some(ps[i].1);
        }
        i = i + 1;
    }
    None
}

/// A settlement as the migration arm sees it.
#[derive(Debug)]
pub struct SettlementRoster {
    /// Recorded population.
    pub current: u32,
    /// Member agent ids.
    pub members: Vec<AgentId>,
}

/// `(id, tile)` comes strictly before `(id2, tile2)` when ranking migration
/// targets from `from`: nearer first, then by tile `(x, y)`, then by id.
pub open spec fn member_before(from: Tile, a: (AgentId, Tile), b: (AgentId, Tile)) -> bool {
    let da = manhattan_spec(from, a.1);
    let db = manhattan_spec(from, b.1);
    da < db || (da == db && (a.1.0 < b.1.0 || (a.1.0 == b.1.0 && (a.1.1 < b.1.1 || (a.1.1 == b.1.1 && a.0 < b.0)))))
}

/// `(id, tile)` is a migration candidate: a live member (tile known) of a
/// settlement below `max_pop` with at least one member.
pub open spec fn migration_candidate(
    rosters: Seq<SettlementRoster>,
    positions: Seq<(AgentId, Tile)>,
    max_pop: u32,
    c: (AgentId, Tile),
) -> bool {
    exists|s: int| #![trigger rosters[s]]
        0 <= s < rosters.len() && rosters[s].current < max_pop && rosters[s].members@.len() > 0
            && rosters[s].members@.contains(c.0) && position_of(positions, c.0) == Some(c.1)
}

/// `c` is a migration candidate drawn from the first `n` rosters.
pub open spec fn cand_in_prefix(
    rosters: Seq<SettlementRoster>,
    positions: Seq<(AgentId, Tile)>,
    max_pop: u32,
    n: int,
    c: (AgentId, Tile),
) -> bool {
    exists|s: int| #![trigger rosters[s]]
        0 <= s < n && rosters[s].current < max_pop && rosters[s].members@.len() > 0
            && rosters[s].members@.contains(c.0) && position_of(positions, c.0) == Some(c.1)
}

/// `(id, t)` is a candidate and no candidate ranks before it.
pub open spec fn is_best_candidate(
    rosters: Seq<SettlementRoster>,
    positions: Seq<(AgentId, Tile)>,
    max_pop: u32,
    from: Tile,
    id: AgentId,
    t: Tile,
) -> bool {
    &&& migration_candidate(rosters, positions, max_pop, (id, t))
    &&& forall|c: (AgentId, Tile)| migration_candidate(rosters, positions, max_pop, c)
            ==> !member_before(from, c, (id, t))
}

/// `id` is the migration target from `from`: the first candidate in the
/// ranking order.
pub open spec fn is_migration_target(
    rosters: Seq<SettlementRoster>,
    positions: Seq<(AgentId, Tile)>,
    max_pop: u32,
    from: Tile,
    id: AgentId,
) -> bool {
    exists|t: Tile| #[trigger] is_best_candidate(rosters, positions, max_pop, from, id, t)
}

/// Whether some settlement roster lists `id`.
pub open spec fn is_member_of_any(rosters: Seq<SettlementRoster>, id: AgentId) -> bool {
    exists|s: int| 0 <= s < rosters.len() && #[trigger] rosters[s].members@.contains(id)
}

/// Whether `id` is in `v`.
fn vec_contains(v: &Vec<AgentId>, id: AgentId) -> (b: bool)
    ensures
        b == v@.contains(id),
{
    let mut i: usize = 0;
    while i < v.len()
        invariant
            0 <= i <= v@.len(),
            forall|j: int| 0 <= j < i ==> v@[j] != id,
        decreases v@.len() - i,
    {
        if v[i] == id {
            assert(v@[i as int] == id);
            return true;
        }
        i = i + 1;
    }
    false
}

/// Whether some roster lists `id`.
pub fn member_of_any(rosters: &Vec<SettlementRoster>, id: AgentId) -> (b: bool)
    ensures
        b == is_member_of_any(rosters@, id),
{
    let mut i: usize = 0;
    while i < rosters.len()
        invariant
            0 <= i <= rosters@.len(),
            forall|s: int| 0 <= s < i ==> !(#[trigger] rosters@[s]).members@.contains(id),
        decreases rosters@.len() - i,
    {
        if vec_contains(&rosters[i].members, id) {
            return true;
        }
        i = i + 1;
    }
    false
}

/// Whom a non-member migrates toward: among the live members of every
/// settlement below `max_pop`, the one nearest to `pos` (Manhattan), ties
/// broken by the member's tile `(x, y)` and then by its id. `None` when no
/// settlement offers a live member.
pub fn migration_target(
    pos: &Position,
    rosters: &Vec<SettlementRoster>,
    positions: &Vec<(AgentId, Tile)>,
    max_pop: u32,
) -> (r: Option<AgentId>)
    ensures
        r is None <==> !exists|c: (AgentId, Tile)| migration_candidate(rosters@, positions@, max_pop, c),
        r matches Some(id) ==> is_migration_target(rosters@, positions@, max_pop, pos.tile(), id),
{
    let from = (pos.x, pos.y);
    let mut best: Option<(AgentId, Tile)> = None;
    let mut s: usize = 0;
    while s < rosters.len()
        invariant
            0 <= s <= rosters@.len(),
            best matches Some(b) ==> migration_candidate(rosters@, positions@, max_pop, b),
            best is None ==> forall|c: (AgentId, Tile)| #[trigger] cand_in_prefix(rosters@, positions@, max_pop, s as int, c) ==> false,
            best matches Some(b) ==> forall|c: (AgentId, Tile)| #[trigger] cand_in_prefix(rosters@, positions@, max_pop, s as int, c)
                ==> !member_before(from, c, b),
        decreases rosters@.len() - s,
    {
        let roster = &rosters[s];
        if roster.current < max_pop && roster.members.len() > 0 {
            let mut m: usize = 0;
            while m < roster.members.len()
                invariant
                    0 <= s < rosters@.len(),
                    roster == &rosters@[s as int],
                    roster.current < max_pop && roster.members@.len() > 0,
                    0 <= m <= roster.members@.len(),
                    best matches Some(b) ==> migration_candidate(rosters@, positions@, max_pop, b),
                    best is None ==> forall|c: (AgentId, Tile)| #[trigger] cand_in_prefix(rosters@, positions@, max_pop, s as int, c) ==> false,
                    best is None ==> forall|j: int| 0 <= j < m ==> position_of(positions@, #[trigger] roster.members@[j]) is None,
                    best matches Some(b) ==> forall|c: (AgentId, Tile)| #[trigger] cand_in_prefix(rosters@, positions@, max_pop, s as int, c)
                        ==> !member_before(from, c, b),
                    best matches Some(b) ==> forall|j: int| 0 <= j < m && position_of(positions@, #[trigger] roster.members@[j]) is Some
                        ==> !member_before(from, (roster.members@[j], position_of(positions@, roster.members@[j])->0), b),
                decreases roster.members@.len() - m,
            {
                let mid = roster.members[m];
                match lookup_position(positions, mid) {
                    Some(t) => {
                        proof {
                            assert(roster.members@.contains(mid)) by {
                                assert(roster.members@[m as int] == mid);
                            }
                            assert(migration_candidate(rosters@, positions@, max_pop, (mid, t)));
                        }
                        match best {
                            None => {
                                best = Some((mid, t));
                            },
                            Some(b) => {
                                let db = manhattan(from, b.1);
                                let dc = manhattan(from, t);
                                let before = dc < db || (dc == db && (t.0 < b.1.0 || (t.0 == b.1.0 && (t.1 < b.1.1 || (t.1 == b.1.1 && mid < b.0)))));
                                if before {
                                    best = Some((mid, t));
                                }
                            },
                        }
                    },
                    None => {},
                }
                m = m + 1;
            }
        }
        proof {
            let ss = s as int;
            let roster = &rosters@[ss];
            if let Some(b) = best {
                assert forall|c: (AgentId, Tile)| #[trigger] cand_in_prefix(rosters@, positions@, max_pop, ss + 1, c)
                    implies !member_before(from, c, b) by {
                    let s2 = choose|s2: int| #![trigger rosters@[s2]] 0 <= s2 < ss + 1
                        && rosters@[s2].current < max_pop && rosters@[s2].members@.len() > 0
                        && rosters@[s2].members@.contains(c.0) && position_of(positions@, c.0) == Some(c.1);
                    if s2 == ss {
                        let j = choose|j: int| 0 <= j < roster.members@.len() && roster.members@[j] == c.0;
                        assert(position_of(positions@, roster.members@[j]) is Some);
                    } else {
                        assert(cand_in_prefix(rosters@, positions@, max_pop, ss, c));
                    }
                }
            } else {
                assert forall|c: (AgentId, Tile)| #[trigger] cand_in_prefix(rosters@, positions@, max_pop, ss + 1, c)
                    implies false by {
                    let s2 = choose|s2: int| #![trigger rosters@[s2]] 0 <= s2 < ss + 1
                        && rosters@[s2].current < max_pop && rosters@[s2].members@.len() > 0
                        && rosters@[s2].members@.contains(c.0) && position_of(positions@, c.0) == Some(c.1);
                    if s2 == ss {
                        let j = choose|j: int| 0 <= j < roster.members@.len() && roster.members@[j] == c.0;
                        assert(position_of(positions@, roster.members@[j]) is None);
                    } else {
                        assert(cand_in_prefix(rosters@, positions@, max_pop, ss, c));
                    }
                }
            }
        }
        s = s + 1;
    }
    match best {
        None => {
            assert(!exists|c: (AgentId, Tile)| migration_candidate(rosters@, positions@, max_pop, c)) by {
                assert forall|c: (AgentId, Tile)| !migration_candidate(rosters@, positions@, max_pop, c) by {
                    if migration_candidate(rosters@, positions@, max_pop, c) {
                        assert(cand_in_prefix(rosters@, positions@, max_pop, rosters@.len() as int, c));
                    }
                }
            }
            None
        },
        Some(b) => {
            assert forall|c: (AgentId, Tile)| migration_candidate(rosters@, positions@, max_pop, c)
                implies !member_before(from, c, b) by {
                assert(cand_in_prefix(rosters@, positions@, max_pop, rosters@.len() as int, c));
            }
            assert(b == (b.0, b.1));
            assert(is_best_candidate(rosters@, positions@, max_pop, from, b.0, b.1));
            Some(b.0)
        },
    }
}


/// How the memory-bias comparison, made by the caller on the arms of
/// [`bias_eligible_arms`], came out for an agent with a natural decision.
#[derive(Debug, Clone, Copy, PartialEq, Eq, Structural)]
pub enum BiasOutcome {
    /// No arm beat the natural winner: follow the natural decision.
    Natural,
    /// This arm's target won and its strongest memory can be recalled.
    Flip(TargetKind),
    /// An arm won but no recallable memory backs it: skip the decision.
    Unbacked,
}

/// The decision an idle agent takes this tick.
#[derive(Debug, Clone, Copy, PartialEq, Eq)]
pub enum IdleOutcome {
    /// Stay idle.
    Stay,
    /// Start seeking `target`, recording a decision with `reason`.
    /// `social` marks a social `Seeking { Agent }`, `migrant` a settlement
    /// migration.
    Seek { target: TargetKind, reason: DecisionReason, social: bool, migrant: bool },
    /// Go straight to `Consuming { Agent(enemy) }`; `starts_combat` is set
    /// for the smaller id of the pair only, and `pair` is the canonical pair.
    Combat { enemy: AgentId, starts_combat: bool, pair: (AgentId, AgentId) },
    /// Start seeking ground food to carry (no decision event).
    Gather,
}

/// The idle decision: a natural decision (combat first, then the memory-bias
/// outcome), else gathering when a gather tile exists, else settlement
/// migration for a non-member when a target exists, else stay idle.
pub open spec fn idle_outcome_spec(
    me: AgentId,
    natural: Option<(TargetKind, DecisionReason)>,
    combat_recall: bool,
    bias: BiasOutcome,
    gather: Option<Tile>,
    is_member: bool,
    migration: Option<AgentId>,
) -> IdleOutcome {
    match natural {
        Some((target, reason)) => {
            if reason == DecisionReason::CombatReason {
                match target {
                    TargetKind::Agent(enemy) => if combat_recall {
                        IdleOutcome::Combat {
                            enemy,
                            starts_combat: me < enemy,
                            pair: if me < enemy { (me, enemy) } else { (enemy, me) },
                        }
                    } else {
                        IdleOutcome::Stay
                    },
                    _ => IdleOutcome::Stay,
                }
            } else {
                match bias {
                    BiasOutcome::Natural => IdleOutcome::Seek {
                        target,
                        reason,
                        social: target is Agent,
                        migrant: false,
                    },
                    BiasOutcome::Flip(t) => IdleOutcome::Seek {
                        target: t,
                        reason: DecisionReason::MemoryReason,
                        social: t is Agent,
                        migrant: false,
                    },
                    BiasOutcome::Unbacked => IdleOutcome::Stay,
                }
            }
        },
        None => {
            if gather is Some {
                IdleOutcome::Gather
            } else if !is_member && migration is Some {
                IdleOutcome::Seek {
                    target: TargetKind::Agent(migration->0),
                    reason: DecisionReason::SettlementReason,
                    social: false,
                    migrant: true,
                }
            } else {
                IdleOutcome::Stay
            }
        },
    }
}

/// The idle decision (see [`idle_outcome_spec`]).
pub fn idle_outcome(
    me: AgentId,
    natural: Option<(TargetKind, DecisionReason)>,
    combat_recall: bool,
    bias: BiasOutcome,
    gather: Option<Tile>,
    is_member: bool,
    migration: Option<AgentId>,
) -> (r: IdleOutcome)
    ensures
        r == idle_outcome_spec(me, natural, combat_recall, bias, gather, is_member, migration),
        natural is Some ==> !(r is Gather) && !(r matches IdleOutcome::Seek { migrant: true, .. }),
        natural is None && gather is Some ==> r == IdleOutcome::Gather,
        natural is None && gather is None && !is_member && migration is Some ==> r == (IdleOutcome::Seek {
            target: TargetKind::Agent(migration->0),
            reason: DecisionReason::SettlementReason,
            social: false,
            migrant: true,
        }),
        natural is None && gather is None && (is_member || migration is None) ==> r == IdleOutcome::Stay,
        r matches IdleOutcome::Combat { enemy, starts_combat, pair } ==> {
            &&& combat_recall
            &&& natural == Some((TargetKind::Agent(enemy), DecisionReason::CombatReason))
            &&& starts_combat == (me < enemy)
            &&& pair.0 <= pair.1 && (pair == (me, enemy) || pair == (enemy, me))
        },
        natural matches Some((TargetKind::Agent(e), DecisionReason::CombatReason)) && !combat_recall ==> r == IdleOutcome::Stay,
        match natural {
            Some((t, why)) => why != DecisionReason::CombatReason ==> match bias {
                BiasOutcome::Natural => r == (IdleOutcome::Seek { target: t, reason: why, social: t is Agent, migrant: false }),
                BiasOutcome::Flip(ft) => r == (IdleOutcome::Seek {
                    target: ft,
                    reason: DecisionReason::MemoryReason,
                    social: ft is Agent,
                    migrant: false,
                }),
                BiasOutcome::Unbacked => r == IdleOutcome::Stay,
            },
            None => true,
        },
{
    match natural {
        Some((target, reason)) => {
            if reason == DecisionReason::CombatReason {
                match target {
                    TargetKind::Agent(enemy) => {
                        if combat_recall {
                            IdleOutcome::Combat { enemy, starts_combat: me < enemy, pair: canonical_pair(me, enemy) }
                        } else {
                            IdleOutcome::Stay
                        }
                    },
                    _ => IdleOutcome::Stay,
                }
            } else {
                match bias {
                    BiasOutcome::Natural => {
                        let social = match target {
                            TargetKind::Agent(_) => true,
                            _ => false,
                        };
                        IdleOutcome::Seek { target, reason, social, migrant: false }
                    },
                    BiasOutcome::Flip(t) => {
                        let social = match t {
                            TargetKind::Agent(_) => true,
                            _ => false,
                        };
                        IdleOutcome::Seek { target: t, reason: DecisionReason::MemoryReason, social, migrant: false }
                    },
                    BiasOutcome::Unbacked => IdleOutcome::Stay,
                }
            }
        },
        None => {
            if gather.is_some() {
                IdleOutcome::Gather
            } else if !is_member && migration.is_some() {
                match migration {
                    Some(m) => IdleOutcome::Seek {
                        target: TargetKind::Agent(m),
                        reason: DecisionReason::SettlementReason,
                        social: false,
                        migrant: true,
                    },
                    None => IdleOutcome::Stay,
                }
            } else {
                IdleOutcome::Stay
            }
        },
    }
}

/// The causal record of an agent's decision: its id, the event it follows
/// (if any), the agent, its tile, the reason and the tick.
#[derive(Debug, Clone, Copy)]
pub struct DecisionEvent {
    pub id: u64,
    pub parent: Option<u64>,
    pub agent: AgentId,
    pub position: Tile,
    pub reason: DecisionReason,
    pub tick: u64,
}

/// The decision record of `agent` on `position` at `tick`.
pub fn decision_event(id: u64, parent: Option<u64>, agent: AgentId, position: Tile, reason: DecisionReason, tick: u64)
    -> (e: DecisionEvent)
    ensures
        e == (DecisionEvent { id, parent, agent, position, reason, tick }),
{
    DecisionEvent { id, parent, agent, position, reason, tick }
}

/// An entry of a tile's causal log, as decision parenting reads it.
#[derive(Debug, Clone, Copy, PartialEq, Eq, Structural)]
pub enum TileLogEntry {
    /// The tile's influence changed.
    InfluenceChanged { id: u64 },
    /// An agent's decision on the tile.
    Decision { id: u64, agent: AgentId, reason: DecisionReason },
    /// Any other event.
    Other,
}

/// The entry a natural decision by `me` with `reason` follows: the most
/// recent influence change on the tile or, for a social decision, the most
/// recent social decision of another agent, whichever comes last; none when
/// the log holds neither.
pub open spec fn decision_parent_spec(log: Seq<TileLogEntry>, reason: DecisionReason, me: AgentId) -> Option<u64>
    decreases log.len(),
{
    if log.len() == 0 {
        None
    } else {
        match log.last() {
            TileLogEntry::InfluenceChanged { id } => Some(id),
            TileLogEntry::Decision { id, agent, reason: r } =>
                if r == DecisionReason::SocialReason && reason == DecisionReason::SocialReason && agent != me {
                    Some(id)
                } else {
                    decision_parent_spec(log.drop_last(), reason, me)
                },
            TileLogEntry::Other => decision_parent_spec(log.drop_last(), reason, me),
        }
    }
}

/// The id a log entry offers as the parent of a decision by `me` with
/// `reason`: an influence change always, a social decision of another agent
/// to a social decision; nothing otherwise.
pub open spec fn parent_candidate(e: TileLogEntry, reason: DecisionReason, me: AgentId) -> Option<u64> {
    match e {
        TileLogEntry::InfluenceChanged { id } => Some(id),
        TileLogEntry::Decision { id, agent, reason: r } =>
            if r == DecisionReason::SocialReason && reason == DecisionReason::SocialReason && agent != me { Some(id) } else { None },
        TileLogEntry::Other => None,
    }
}

/// Parent law: a decision follows the latest entry of the log that offers
/// a parent, and has none exactly when no entry offers one.
pub proof fn lemma_parent_is_latest_candidate(log: Seq<TileLogEntry>, reason: DecisionReason, me: AgentId)
    ensures
        decision_parent_spec(log, reason, me) is None <==> forall|j: int| 0 <= j < log.len() ==> parent_candidate(#[trigger] log[j], reason, me) is None,
        decision_parent_spec(log, reason, me) is Some ==> exists|j: int| 0 <= j < log.len()
            && parent_candidate(#[trigger] log[j], reason, me) == decision_parent_spec(log, reason, me)
            && forall|k: int| j < k < log.len() ==> parent_candidate(#[trigger] log[k], reason, me) is None,
    decreases log.len(),
{
    if log.len() > 0 {
        let d = log.drop_last();
        lemma_parent_is_latest_candidate(d, reason, me);
        assert forall|j: int| 0 <= j < d.len() implies #[trigger] d[j] == log[j] by {}
        let n = log.len() - 1;
        assert(log.last() == log[n]);
        if parent_candidate(log[n], reason, me) is Some {
            assert(decision_parent_spec(log, reason, me) == parent_candidate(log[n], reason, me));
        } else {
            assert(decision_parent_spec(log, reason, me) == decision_parent_spec(d, reason, me));
            if decision_parent_spec(d, reason, me) is Some {
                let j = choose|j: int| 0 <= j < d.len()
                    && parent_candidate(#[trigger] d[j], reason, me) == decision_parent_spec(d, reason, me)
                    && forall|k: int| j < k < d.len() ==> parent_candidate(#[trigger] d[k], reason, me) is None;
                assert(parent_candidate(log[j], reason, me) == decision_parent_spec(log, reason, me));
                assert forall|k: int| j < k < log.len() implies parent_candidate(#[trigger] log[k], reason, me) is None by {
                    if k < n {
                        assert(d[k] == log[k]);
                    }
                }
            } else {
                assert forall|j: int| 0 <= j < log.len() implies parent_candidate(#[trigger] log[j], reason, me) is None by {
                    if j < n {
                        assert(d[j] == log[j]);
                    }
                }
            }
        }
        if decision_parent_spec(log, reason, me) is None {
            assert(parent_candidate(log[n], reason, me) is None);
        }
    }
}

/// The parent of a natural decision (see [`decision_parent_spec`]).
pub fn natural_decision_parent(log: &Vec<TileLogEntry>, reason: DecisionReason, me: AgentId) -> (p: Option<u64>)
    ensures
        p == decision_parent_spec(log@, reason, me),
        p is None <==> forall|j: int| 0 <= j < log@.len() ==> parent_candidate(#[trigger] log@[j], reason, me) is None,
        p is Some ==> exists|j: int| 0 <= j < log@.len()
            && parent_candidate(#[trigger] log@[j], reason, me) == p
            && forall|k: int| j < k < log@.len() ==> parent_candidate(#[trigger] log@[k], reason, me) is None,
{
    proof {
        lemma_parent_is_latest_candidate(log@, reason, me);
    }
    let mut k: usize = log.len();
    assert(log@.subrange(0, log@.len() as int) =~= log@);
    while k > 0
        invariant
            0 <= k <= log@.len(),
            decision_parent_spec(log@, reason, me) == decision_parent_spec(log@.subrange(0, k as int), reason, me),
            decision_parent_spec(log@, reason, me) is None <==> forall|j: int| 0 <= j < log@.len() ==> parent_candidate(#[trigger] log@[j], reason, me) is None,
            decision_parent_spec(log@, reason, me) is Some ==> exists|j: int| 0 <= j < log@.len()
                && parent_candidate(#[trigger] log@[j], reason, me) == decision_parent_spec(log@, reason, me)
                && forall|k: int| j < k < log@.len() ==> parent_candidate(#[trigger] log@[k], reason, me) is None,
        decreases k,
    {
        let ghost pre = log@.subrange(0, k as int);
        proof {
            assert(pre.drop_last() =~= log@.subrange(0, k - 1));
            assert(pre.last() == log@[k - 1]);
        }
        match log[k - 1] {
            TileLogEntry::InfluenceChanged { id } => {
                return Some(id);
            },
            TileLogEntry::Decision { id, agent, reason: r } => {
                if r == DecisionReason::SocialReason && reason == DecisionReason::SocialReason && agent != me {
                    return Some(id);
                }
            },
            TileLogEntry::Other => {},
        }
        k = k - 1;
    }
    proof {
        assert(log@.subrange(0, 0) =~= Seq::<TileLogEntry>::empty());
    }
    None
}

/// Row-major index of the agent's tile in the causal log.
pub open spec fn tile_index_spec(pos: Position, width: u32) -> int {
    pos.y * width + pos.x
}

/// The decision an idle outcome records, as event `id`: a seek records
/// its reason (a memory flip and a fight follow their recall `recall_id`, a
/// migration starts a chain, a natural decision follows its tile's latest
/// influence change or, when social, another agent's social decision); a
/// fight records a combat decision; staying idle or setting out to gather
/// records none.
pub open spec fn idle_decision_spec(
    me: AgentId,
    pos: Position,
    o: IdleOutcome,
    id: u64,
    recall_id: u64,
    tile_log: Seq<TileLogEntry>,
    tick: u64,
) -> Option<DecisionEvent> {
    match o {
        IdleOutcome::Stay | IdleOutcome::Gather => None,
        IdleOutcome::Combat { .. } => Some(DecisionEvent {
            id, parent: Some(recall_id), agent: me, position: (pos.x, pos.y), reason: DecisionReason::CombatReason, tick,
        }),
        IdleOutcome::Seek { reason, migrant, .. } => Some(DecisionEvent {
            id,
            parent: if reason == DecisionReason::MemoryReason {
                Some(recall_id)
            } else if migrant {
                None
            } else {
                decision_parent_spec(tile_log, reason, me)
            },
            agent: me,
            position: (pos.x, pos.y),
            reason,
            tick,
        }),
    }
}

/// One idle agent's step: its outcome (see [`idle_outcome_spec`]), its new
/// state, and the decision it records, with the index of its tile in the
/// causal log (`y * width + x`).
pub fn idle_decision_step(
    me: AgentId,
    pos: &Position,
    width: u32,
    natural: Option<(TargetKind, DecisionReason)>,
    combat_recall: bool,
    bias: BiasOutcome,
    gather: Option<Tile>,
    is_member: bool,
    migration: Option<AgentId>,
    id: u64,
    recall_id: u64,
    tile_log: &Vec<TileLogEntry>,
    tick: u64,
) -> (r: (AgentState, Option<(u32, DecisionEvent)>))
    requires
        tile_index_spec(*pos, width) <= u32::MAX,
    ensures
        r.0 == state_after_idle(idle_outcome_spec(me, natural, combat_recall, bias, gather, is_member, migration)),
        match idle_decision_spec(me, *pos, idle_outcome_spec(me, natural, combat_recall, bias, gather, is_member, migration),
            id, recall_id, tile_log@, tick) {
            Some(e) => r.1 is Some && r.1.unwrap().0 == tile_index_spec(*pos, width) && r.1.unwrap().1 == e,
            None => r.1 is None,
        },
{
    let o = idle_outcome(me, natural, combat_recall, bias, gather, is_member, migration);
    let state = idle_state(o);
    let index: u32 = (pos.y as u64 * width as u64 + pos.x as u64) as u32;
    let position = (pos.x, pos.y);
    let event = match o {
        IdleOutcome::Stay | IdleOutcome::Gather => None,
        IdleOutcome::Combat { .. } => Some(decision_event(id, Some(recall_id), me, position, DecisionReason::CombatReason, tick)),
        IdleOutcome::Seek { reason, migrant, .. } => {
            let parent = if reason == DecisionReason::MemoryReason {
                Some(recall_id)
            } else if migrant {
                None
            } else {
                natural_decision_parent(tile_log, reason, me)
            };
            Some(decision_event(id, parent, me, position, reason, tick))
        },
    };
    match event {
        Some(e) => (state, Some((index, e))),
        None => (state, None),
    }
}

/// The state an idle agent moves to for an outcome.
pub open spec fn state_after_idle(o: IdleOutcome) -> AgentState {
    match o {
        IdleOutcome::Stay => AgentState::Idle,
        IdleOutcome::Seek { target, .. } => AgentState::Seeking { target },
        IdleOutcome::Combat { enemy, .. } => AgentState::Consuming { target: TargetKind::Agent(enemy) },
        IdleOutcome::Gather => AgentState::Seeking { target: TargetKind::GatherFood },
    }
}

/// The state an idle agent moves to for an outcome: it stays idle, seeks
/// the target, fights the enemy (consuming it) or seeks food to gather.
pub fn idle_state(o: IdleOutcome) -> (s: AgentState)
    ensures
        s == state_after_idle(o),
{
    match o {
        IdleOutcome::Stay => AgentState::Idle,
        IdleOutcome::Seek { target, .. } => AgentState::Seeking { target },
        IdleOutcome::Combat { enemy, .. } => AgentState::Consuming { target: TargetKind::Agent(enemy) },
        IdleOutcome::Gather => AgentState::Seeking { target: TargetKind::GatherFood },
    }
}

/// Combat law: of a pair that decide to fight each other, exactly one starts
/// the combat, and both record the same canonical pair.
pub proof fn lemma_combat_started_once(a: AgentId, b: AgentId)
    requires
        a != b,
    ensures
        ({
            let oa = idle_outcome_spec(a, Some((TargetKind::Agent(b), DecisionReason::CombatReason)), true, BiasOutcome::Natural, None, true, None);
            let ob = idle_outcome_spec(b, Some((TargetKind::Agent(a), DecisionReason::CombatReason)), true, BiasOutcome::Natural, None, true, None);
            &&& oa matches IdleOutcome::Combat { starts_combat: sa, pair: pa, .. }
            &&& ob matches IdleOutcome::Combat { starts_combat: sb, pair: pb, .. }
            &&& sa != sb
            &&& pa == pb
        }),
{
}

/// Whether `partner` is, at the start of the tick, seeking `me` from the same
/// tile: `peers` lists `(agent, partner it seeks)` pairs on the tile.
pub fn mutual_handshake(peers: &Vec<(AgentId, AgentId)>, me: AgentId, partner: AgentId) -> (b: bool)
    ensures
        b == exists|i: int| 0 <= i < peers@.len() && #[trigger] peers@[i] == (partner, me),
{
    let mut i: usize = 0;
    while i < peers.len()
        invariant
            0 <= i <= peers@.len(),
            forall|j: int| 0 <= j < i ==> peers@[j] != (partner, me),
        decreases peers@.len() - i,
    {
        let (p, t) = peers[i];
        if p == partner && t == me {
            assert(peers@[i as int] == (partner, me));
            return true;
        }
        i = i + 1;
    }
    false
}

/// Whether the tile map for a resource kind holds a positive count at `key`.
pub open spec fn resource_present(res: &ResourceTiles, t: TargetKind, key: Tile) -> bool {
    match t {
        TargetKind::Food | TargetKind::GatherFood => res.food_tiles@.contains_key(key) && res.food_tiles@[key] > 0,
        TargetKind::Water => res.water_tiles@.contains_key(key) && res.water_tiles@[key] > 0,
        TargetKind::Sleep => res.sleep_tiles@.contains_key(key) && res.sleep_tiles@[key] > 0,
        _ => false,
    }
}

/// Facts a seeking agent's step reads.
#[derive(Debug, Clone, Copy, PartialEq, Eq, Structural)]
pub struct SeekContext {
    /// The agent carries the persistent settlement-migrant marker.
    pub migrant_marker: bool,
    /// The agent is a member of some settlement.
    pub is_member: bool,
    /// The sought agent is alive and a member of some settlement.
    pub target_alive: bool,
    /// Survival needs breached this tick.
    pub hunger: bool,
    pub thirst: bool,
    pub fatigue: bool,
    /// An active construction site is on the agent's tile.
    pub site_here: bool,
    /// The sought agent is seeking this agent from the same tile.
    pub handshake: bool,
}

/// Result of one step of a seeking agent.
#[derive(Debug, Clone, Copy, PartialEq, Eq, Structural)]
pub struct SeekStep {
    /// The agent's new state.
    pub state: AgentState,
    /// Remove the settlement-migrant marker.
    pub clear_migrant: bool,
    /// Remove the current seek target now (so a fresh resource goal is chosen).
    pub clear_seek_target: bool,
    /// Record that construction started here.
    pub construction_started: bool,
    /// Record that a social interaction started (smaller id of the pair only).
    pub social_started: bool,
}

/// One step of an agent in `Seeking { target }`:
/// a migrant whose target vanished or who joined a settlement goes idle; a
/// migrant with a breached survival need switches to that need (Hunger >
/// Thirst > Fatigue); otherwise the agent starts consuming once its goal is
/// here (a positive resource tile, an active site, or a mutual partner).
pub open spec fn seeking_step_spec(me: AgentId, target: TargetKind, here: bool, c: SeekContext) -> SeekStep {
    let base = SeekStep {
        state: AgentState::Seeking { target },
        clear_migrant: false,
        clear_seek_target: false,
        construction_started: false,
        social_started: false,
    };
    if target is Agent && c.migrant_marker && (c.is_member || !c.target_alive) {
        SeekStep { state: AgentState::Idle, clear_migrant: true, ..base }
    } else if target is Agent && c.migrant_marker && (c.hunger || c.thirst || c.fatigue) {
        let r = if c.hunger { TargetKind::Food } else if c.thirst { TargetKind::Water } else { TargetKind::Sleep };
        SeekStep { state: AgentState::Seeking { target: r }, clear_migrant: true, clear_seek_target: true, ..base }
    } else if here {
        SeekStep {
            state: AgentState::Consuming { target },
            construction_started: target == TargetKind::ConstructionSite,
            social_started: target is Agent && me < target->Agent_0,
            ..base
        }
    } else {
        base
    }
}

/// Whether the goal of `target` is at the agent's tile.
pub open spec fn goal_here(res: &ResourceTiles, target: TargetKind, key: Tile, c: SeekContext) -> bool {
    match target {
        TargetKind::ConstructionSite => c.site_here,
        TargetKind::Agent(_) => c.handshake,
        _ => resource_present(res, target, key),
    }
}

/// One step of a seeking agent (see [`seeking_step_spec`]).
pub fn seeking_step(me: AgentId, target: TargetKind, pos: &Position, res: &ResourceTiles, c: SeekContext) -> (r: SeekStep)
    ensures
        r == seeking_step_spec(me, target, goal_here(res, target, pos.tile(), c), c),
        r.clear_migrant ==> target is Agent && c.migrant_marker,
        r.clear_seek_target ==> r.clear_migrant,
        target is Agent && c.migrant_marker && (c.is_member || !c.target_alive) ==> r.state == AgentState::Idle && r.clear_migrant,
        target is Agent && c.migrant_marker && !(c.is_member || !c.target_alive) && c.hunger
            ==> r.state == (AgentState::Seeking { target: TargetKind::Food }),
        target is Agent && c.migrant_marker && !(c.is_member || !c.target_alive) && !c.hunger && c.thirst
            ==> r.state == (AgentState::Seeking { target: TargetKind::Water }),
        target is Agent && c.migrant_marker && !(c.is_member || !c.target_alive) && !c.hunger && !c.thirst && c.fatigue
            ==> r.state == (AgentState::Seeking { target: TargetKind::Sleep }),
        !(target is Agent && c.migrant_marker) ==> {
            &&& !r.clear_migrant
            &&& r.state == (if goal_here(res, target, pos.tile(), c) { AgentState::Consuming { target } } else { AgentState::Seeking { target } })
        },
        target == TargetKind::ConstructionSite ==> (r.state is Consuming <==> c.site_here),
        r.state is Consuming ==> r.state == (AgentState::Consuming { target }) && goal_here(res, target, pos.tile(), c),
        r.construction_started <==> (target == TargetKind::ConstructionSite && r.state is Consuming),
        r.social_started <==> (r.state is Consuming && (target matches TargetKind::Agent(p) && me < p)),
{
    let base = SeekStep {
        state: AgentState::Seeking { target },
        clear_migrant: false,
        clear_seek_target: false,
        construction_started: false,
        social_started: false,
    };
    let is_agent = match target {
        TargetKind::Agent(_) => true,
        _ => false,
    };
    if is_agent && c.migrant_marker && (c.is_member || !c.target_alive) {
        return SeekStep { state: AgentState::Idle, clear_migrant: true, ..base };
    }
    if is_agent && c.migrant_marker && (c.hunger || c.thirst || c.fatigue) {
        let r = if c.hunger { TargetKind::Food } else if c.thirst { TargetKind::Water } else { TargetKind::Sleep };
        return SeekStep { state: AgentState::Seeking { target: r }, clear_migrant: true, clear_seek_target: true, ..base };
    }
    let key = (pos.x, pos.y);
    let positive = |v: Option<u8>| -> (b: bool)
        ensures b == (v matches Some(x) && x > 0),
    {
        match v {
            Some(x) => x > 0,
            None => false,
        }
    };
    let here = match target {
        TargetKind::Food | TargetKind::GatherFood => positive(res.food_tiles.get(key)),
        TargetKind::Water => positive(res.water_tiles.get(key)),
        TargetKind::Sleep => positive(res.sleep_tiles.get(key)),
        TargetKind::ConstructionSite => c.site_here,
        TargetKind::Agent(_) => c.handshake,
    };
    if here {
        let social_started = match target {
            TargetKind::Agent(p) => me < p,
            _ => false,
        };
        SeekStep {
            state: AgentState::Consuming { target },
            construction_started: target == TargetKind::ConstructionSite,
            social_started,
            ..base
        }
    } else {
        base
    }
}

/// Which need a completed consume relieves.
#[derive(Debug, Clone, Copy, PartialEq, Eq, Structural)]
pub enum NeedRelief {
    Nothing,
    Hunger,
    Thirst,
    Fatigue,
}

/// Tile map after one unit is consumed at `key`: the infinite sentinel never
/// depletes; a finite tile loses one unit and is removed at zero; an absent
/// tile stays absent.
pub open spec fn consumed_map(m: Map<Tile, u8>, key: Tile) -> Map<Tile, u8> {
    if m.contains_key(key) && m[key] != RESOURCE_SOURCE_INFINITE {
        if m[key] <= 1 { m.remove(key) } else { m.insert(key, (m[key] - 1) as u8) }
    } else {
        m
    }
}

/// Consume one unit of the tile at `key` (see [`consumed_map`]).
pub fn consume_tile(tiles: &mut TileMap, key: Tile)
    ensures
        final(tiles)@ == consumed_map(old(tiles)@, key),
{
    match tiles.get(key) {
        Some(v) => {
            if v != RESOURCE_SOURCE_INFINITE {
                let n = v.saturating_sub(1);
                if n == 0 {
                    tiles.remove(key);
                } else {
                    tiles.insert(key, n);
                }
            }
        },
        None => {},
    }
}

/// Tile map and carried food after a gather pickup at `key` by an agent
/// with `room` free units: an infinite tile gives `room` units without
/// depleting; a finite tile gives `min(count, room)` units, which it loses
/// (and is removed at zero). Nothing moves when the agent has no inventory.
pub open spec fn gathered(m: Map<Tile, u8>, key: Tile, inv: Option<Inventory>) -> (Map<Tile, u8>, Option<Inventory>) {
    match inv {
        Some(i) => {
            let room = i.room_spec();
            if room > 0 && m.contains_key(key) {
                if m[key] == RESOURCE_SOURCE_INFINITE {
                    (m, Some(Inventory { food: (i.food + room) as u32, ..i }))
                } else {
                    let take = if m[key] <= room { m[key] as int } else { room };
                    if take > 0 {
                        let left = m[key] - take;
                        (
                            if left == 0 { m.remove(key) } else { m.insert(key, left as u8) },
                            Some(Inventory { food: (i.food + take) as u32, ..i }),
                        )
                    } else {
                        (m, inv)
                    }
                }
            } else {
                (m, inv)
            }
        },
        None => (m, inv),
    }
}

/// Gather pickup at `key` (see [`gathered`]): ground food is carried, not
/// eaten.
pub fn gather_pickup(tiles: &mut TileMap, key: Tile, inventory: &mut Option<Inventory>)
    ensures
        (final(tiles)@, *final(inventory)) == gathered(old(tiles)@, key, *old(inventory)),
{
    let room = match inventory {
        Some(inv) => inv.room(),
        None => 0,
    };
    if room == 0 {
        return;
    }
    match tiles.get(key) {
        Some(v) => {
            if let Some(inv) = inventory {
                proof {
                    assert(inv.food + room <= inv.capacity);
                }
                if v == RESOURCE_SOURCE_INFINITE {
                    inv.food = inv.food + room;
                } else {
                    let take: u32 = if (v as u32) <= room { v as u32 } else { room };
                    if take > 0 {
                        inv.food = inv.food + take;
                        let left = (v as u32 - take) as u8;
                        if left == 0 {
                            tiles.remove(key);
                        } else {
                            tiles.insert(key, left);
                        }
                    }
                }
            }
        },
        None => {},
    }
}

/// Gather mass-balance law: a pickup from a finite tile moves units from the
/// tile to the carried food one for one, and never fills beyond capacity.
pub proof fn lemma_gather_conserves(m: Map<Tile, u8>, key: Tile, i: Inventory)
    requires
        m.contains_key(key),
        m[key] != RESOURCE_SOURCE_INFINITE,
        i.food + i.other <= i.capacity,
    ensures
        ({
            let (m2, i2) = gathered(m, key, Some(i));
            &&& i2 matches Some(j) && j.food - i.food == m[key] - (if m2.contains_key(key) { m2[key] as int } else { 0 })
            &&& i2 matches Some(j) && j.food + j.other <= j.capacity
        }),
{
}

/// Result of one step of a consuming agent.
#[derive(Debug, Clone, Copy, PartialEq, Eq, Structural)]
pub struct ConsumeStep {
    pub state: AgentState,
    pub relief: NeedRelief,
}

/// One step of an agent in `Consuming { target }` at `key`: a resource
/// consume takes a unit from its tile (when present), always relieves the
/// matching need, and returns the agent to `Idle`; a gather pickup carries
/// food and returns to `Idle`; construction and social consumption are left
/// to their own systems (no change).
pub fn consuming_step(target: TargetKind, pos: &Position, res: &mut ResourceTiles, inventory: &mut Option<Inventory>) -> (r: ConsumeStep)
    ensures
        match target {
            TargetKind::Food => {
                &&& final(res).food_tiles@ == consumed_map(old(res).food_tiles@, pos.tile())
                &&& final(res).water_tiles@ == old(res).water_tiles@
                &&& final(res).sleep_tiles@ == old(res).sleep_tiles@
                &&& *final(inventory) == *old(inventory)
                &&& r == ConsumeStep { state: AgentState::Idle, relief: NeedRelief::Hunger }
            },
            TargetKind::Water => {
                &&& final(res).water_tiles@ == consumed_map(old(res).water_tiles@, pos.tile())
                &&& final(res).food_tiles@ == old(res).food_tiles@
                &&& final(res).sleep_tiles@ == old(res).sleep_tiles@
                &&& *final(inventory) == *old(inventory)
                &&& r == ConsumeStep { state: AgentState::Idle, relief: NeedRelief::Thirst }
            },
            TargetKind::Sleep => {
                &&& final(res).sleep_tiles@ == consumed_map(old(res).sleep_tiles@, pos.tile())
                &&& final(res).food_tiles@ == old(res).food_tiles@
                &&& final(res).water_tiles@ == old(res).water_tiles@
                &&& *final(inventory) == *old(inventory)
                &&& r == ConsumeStep { state: AgentState::Idle, relief: NeedRelief::Fatigue }
            },
            TargetKind::GatherFood => {
                &&& (final(res).food_tiles@, *final(inventory)) == gathered(old(res).food_tiles@, pos.tile(), *old(inventory))
                &&& final(res).water_tiles@ == old(res).water_tiles@
                &&& final(res).sleep_tiles@ == old(res).sleep_tiles@
                &&& r == ConsumeStep { state: AgentState::Idle, relief: NeedRelief::Nothing }
            },
            _ => {
                &&& final(res).food_tiles@ == old(res).food_tiles@
                &&& final(res).water_tiles@ == old(res).water_tiles@
                &&& final(res).sleep_tiles@ == old(res).sleep_tiles@
                &&& *final(inventory) == *old(inventory)
                &&& r == ConsumeStep { state: AgentState::Consuming { target }, relief: NeedRelief::Nothing }
            },
        },
        final(res).food_source_max@ == old(res).food_source_max@,
        final(res).water_source_max@ == old(res).water_source_max@,
        final(res).sleep_source_max@ == old(res).sleep_source_max@,
{
    let key = (pos.x, pos.y);
    match target {
        TargetKind::Food => {
            consume_tile(&mut res.food_tiles, key);
            ConsumeStep { state: AgentState::Idle, relief: NeedRelief::Hunger }
        },
        TargetKind::Water => {
            consume_tile(&mut res.water_tiles, key);
            ConsumeStep { state: AgentState::Idle, relief: NeedRelief::Thirst }
        },
        TargetKind::Sleep => {
            consume_tile(&mut res.sleep_tiles, key);
            ConsumeStep { state: AgentState::Idle, relief: NeedRelief::Fatigue }
        },
        TargetKind::GatherFood => {
            gather_pickup(&mut res.food_tiles, key, inventory);
            ConsumeStep { state: AgentState::Idle, relief: NeedRelief::Nothing }
        },
        _ => ConsumeStep { state: AgentState::Consuming { target }, relief: NeedRelief::Nothing },
    }
}

/// What to do with an agent's seek target after the decision pass.
#[derive(Debug, Clone, Copy, PartialEq, Eq)]
pub enum SeekUpdate {
    Keep,
    Retarget(Tile),
    Clear,
}

/// Flags that classify a `Seeking { Agent }` agent for the seek-target pass.
#[derive(Debug, Clone, Copy, PartialEq, Eq, Structural)]
pub struct SeekTags {
    /// Entered settlement migration this tick.
    pub migrant_tag: bool,
    /// Carries the persistent migrant marker.
    pub migrant_marker: bool,
    /// Entered a social seek this tick.
    pub social_tag: bool,
}

/// The seek-target update for an agent after the decision pass.
/// Resource seeks get the nearest tile once and keep it; gather seeks use the
/// radius-limited gather tile; social and migrant agent seeks follow the
/// partner's current tile; anything else drops its seek target.
pub open spec fn seek_update_spec(
    me: AgentId,
    state: AgentState,
    pos: Position,
    seek: Option<Tile>,
    res: &ResourceTiles,
    tags: SeekTags,
    positions: Seq<(AgentId, Tile)>,
    r: SeekUpdate,
) -> bool {
    match state {
        AgentState::Seeking { target } => match target {
            TargetKind::Food | TargetKind::Water | TargetKind::Sleep | TargetKind::GatherFood => {
                if seek is Some {
                    r == SeekUpdate::Keep
                } else {
                    let cands = match target {
                        TargetKind::Water => res.water_tiles@.dom(),
                        TargetKind::Sleep => res.sleep_tiles@.dom(),
                        TargetKind::GatherFood => gather_candidates(pos.tile(), res.food_tiles@, GATHER_SCAN_RADIUS),
                        _ => res.food_tiles@.dom(),
                    };
                    if cands.is_empty() {
                        r == SeekUpdate::Keep
                    } else {
                        r matches SeekUpdate::Retarget(t) && is_nearest_in(pos.tile(), cands, t)
                    }
                }
            },
            TargetKind::Agent(pid) => {
                let is_migrant = tags.migrant_tag || tags.migrant_marker;
                let is_social = !is_migrant && (tags.social_tag || seek is Some);
                let partner_tile = if (is_migrant || is_social) && pid != me { position_of(positions, pid) } else { None };
                match partner_tile {
                    Some(t) => r == (if seek == Some(t) { SeekUpdate::Keep } else { SeekUpdate::Retarget(t) }),
                    None => r == (if seek is Some { SeekUpdate::Clear } else { SeekUpdate::Keep }),
                }
            },
            _ => r == (if seek is Some { SeekUpdate::Clear } else { SeekUpdate::Keep }),
        },
        _ => r == (if seek is Some { SeekUpdate::Clear } else { SeekUpdate::Keep }),
    }
}

/// The seek-target update for one agent (see [`seek_update_spec`]).
pub fn seek_update(
    me: AgentId,
    state: &AgentState,
    pos: &Position,
    seek: Option<Tile>,
    res: &ResourceTiles,
    tags: SeekTags,
    positions: &Vec<(AgentId, Tile)>,
) -> (r: SeekUpdate)
    ensures
        seek_update_spec(me, *state, *pos, seek, res, tags, positions@, r),
        r is Clear ==> seek is Some,
        r matches SeekUpdate::Retarget(t) ==> (seek != Some(t) && state is Seeking),
        !(state is Seeking) ==> r == (if seek is Some { SeekUpdate::Clear } else { SeekUpdate::Keep }),
        state matches AgentState::Seeking { target } && (target == TargetKind::Food || target == TargetKind::Water
            || target == TargetKind::Sleep || target == TargetKind::GatherFood) && seek is Some ==> r == SeekUpdate::Keep,
        state == (AgentState::Seeking { target: TargetKind::Food }) ==> (r matches SeekUpdate::Retarget(t) ==> res.food_tiles@.contains_key(t)),
        state == (AgentState::Seeking { target: TargetKind::Water }) ==> (r matches SeekUpdate::Retarget(t) ==> res.water_tiles@.contains_key(t)),
        state == (AgentState::Seeking { target: TargetKind::Sleep }) ==> (r matches SeekUpdate::Retarget(t) ==> res.sleep_tiles@.contains_key(t)),
{
    let clear_or_keep = if seek.is_some() { SeekUpdate::Clear } else { SeekUpdate::Keep };
    match state {
        AgentState::Seeking { target } => match target {
            TargetKind::Food | TargetKind::Water | TargetKind::Sleep | TargetKind::GatherFood => {
                if seek.is_some() {
                    return SeekUpdate::Keep;
                }
                let chosen = match target {
                    TargetKind::Water => nearest_resource_tile(pos, &res.water_tiles),
                    TargetKind::Sleep => nearest_resource_tile(pos, &res.sleep_tiles),
                    TargetKind::GatherFood => nearest_food_tile_in_radius(pos, &res.food_tiles, GATHER_SCAN_RADIUS),
                    _ => nearest_resource_tile(pos, &res.food_tiles),
                };
                match chosen {
                    Some(t) => SeekUpdate::Retarget(t),
                    None => SeekUpdate::Keep,
                }
            },
            TargetKind::Agent(pid) => {
                let is_migrant = tags.migrant_tag || tags.migrant_marker;
                let is_social = !is_migrant && (tags.social_tag || seek.is_some());
                let partner_tile = if (is_migrant || is_social) && *pid != me {
                    lookup_position(positions, *pid)
                } else {
                    None
                };
                match partner_tile {
                    Some(t) => {
                        let same = match seek {
                            Some(s) => s.0 == t.0 && s.1 == t.1,
                            None => false,
                        };
                        if same { SeekUpdate::Keep } else { SeekUpdate::Retarget(t) }
                    },
                    None => clear_or_keep,
                }
            },
            _ => clear_or_keep,
        },
        _ => clear_or_keep,
    }
}

/// The agent decision system (the idle → seeking → consuming machine).
#[derive(Debug, Default)]
pub struct AgentDecisionSystem;

impl AgentDecisionSystem {
    /// A fresh instance.
    pub fn new() -> (s: AgentDecisionSystem) {
        AgentDecisionSystem
    }

    /// Name under which the system is scheduled.
    pub fn name(&self) -> (n: &'static str)
        ensures
            n@ == "AgentDecisionSystem"@,
    {
        "AgentDecisionSystem"
    }

    /// Scheduling priority.
    pub fn priority(&self) -> (p: u32)
        ensures
            p == 125,
    {
        125
    }

    /// Ticks between runs.
    pub fn tick_interval(&self) -> (t: u64)
        ensures
            t == 1,
    {
        1
    }
}

} // verus!
