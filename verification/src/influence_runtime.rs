use vstd::prelude::*;

use crate::cadence::{at_least_one, clamp_interval, Cadence};
use crate::text::str_eq;

verus! {

/// Rebuilds the spatial influence emitters from the world, refreshing the structural context when shelters change.
#[derive(Debug, Clone, Copy)]
pub struct InfluenceRuntimeSystem {
    priority: u32,
    tick_interval: u64,
    last_structure_signature: Option<u64>,
}

impl View for InfluenceRuntimeSystem {
    type V = Cadence;

    closed spec fn view(&self) -> Cadence {
        Cadence { priority: self.priority, tick_interval: self.tick_interval }
    }
}

impl InfluenceRuntimeSystem {
    /// Signature of the shelters at the last structural refresh, if any.
    pub closed spec fn last_signature_spec(&self) -> Option<u64> {
        self.last_structure_signature
    }

    /// A system scheduled at `priority`, every `tick_interval` ticks (at least one).
    pub fn new(priority: u32, tick_interval: u64) -> (s: InfluenceRuntimeSystem)
        ensures
            s@ == (Cadence { priority, tick_interval: at_least_one(tick_interval) }),
            s.last_signature_spec() == None::<u64>,
    {
        InfluenceRuntimeSystem { priority, tick_interval: clamp_interval(tick_interval), last_structure_signature: None }
    }

    /// Name under which the system is scheduled.
    pub fn name(&self) -> (n: &'static str)
        ensures
            n@ == "influence_system"@,
    {
        "influence_system"
    }

    /// Ticks between runs.
    pub fn tick_interval(&self) -> (t: u64)
        ensures
            t == self@.tick_interval,
    {
        self.tick_interval
    }

    /// Scheduling priority.
    pub fn priority(&self) -> (p: u32)
        ensures
            p == self@.priority,
    {
        self.priority
    }
}

impl InfluenceRuntimeSystem {
    /// Record this run's shelter signature. Returns whether the structural
    /// context must be rebuilt: exactly when the signature differs from the
    /// one recorded (or none was).
    pub fn observe_signature(&mut self, signature: u64) -> (refresh: bool)
        ensures
            refresh == (old(self).last_signature_spec() != Some(signature)),
            final(self).last_signature_spec() == Some(signature),
            final(self)@ == old(self)@,
    {
        let refresh = match self.last_structure_signature {
            Some(s) => s != signature,
            None => true,
        };
        self.last_structure_signature = Some(signature);
        refresh
    }
}

/// A building as the shelter signature sees it.
#[derive(Debug, Clone, Copy)]
pub struct ShelterBuilding {
    pub id: u64,
    pub is_complete: bool,
    pub is_shelter: bool,
    pub x: i32,
    pub y: i32,
}

/// A coordinate reinterpreted as an unsigned 64-bit value (two's
/// complement for negative values).
pub open spec fn coord_bits(v: i32) -> u64 {
    if v >= 0 { v as u64 } else { (v + 0x1_0000_0000_0000_0000int) as u64 }
}

/// One building's contribution to a running signature.
pub open spec fn signature_step(sig: u64, b: ShelterBuilding) -> u64 {
    if !b.is_complete || !b.is_shelter {
        sig
    } else {
        let a = vstd::wrapping::u64_specs::wrapping_mul(sig, 131);
        let c = vstd::wrapping::u64_specs::wrapping_add(a, b.id);
        let d = vstd::wrapping::u64_specs::wrapping_add(c, coord_bits(b.x));
        vstd::wrapping::u64_specs::wrapping_add(d, coord_bits(b.y) << 16u64)
    }
}

/// The signature of a list of buildings, folded in order from zero.
pub open spec fn signature_of(bs: Seq<ShelterBuilding>) -> u64
    decreases bs.len(),
{
    if bs.len() == 0 { 0 } else { signature_step(signature_of(bs.drop_last()), bs.last()) }
}

/// Ids strictly ascending.
pub open spec fn ascending_by_id(bs: Seq<ShelterBuilding>) -> bool {
    forall|i: int, j: int| 0 <= i < j < bs.len() ==> #[trigger] bs[i].id < #[trigger] bs[j].id
}

/// A coordinate reinterpreted as an unsigned 64-bit value.
fn coord_to_bits(v: i32) -> (r: u64)
    ensures
        r == coord_bits(v),
{
    if v >= 0 {
        v as u64
    } else {
        let magnitude: u64 = (-(v as i64)) as u64;
        proof {
            assert(1 <= magnitude <= 0x8000_0000);
        }
        u64::MAX - magnitude + 1
    }
}

/// A signature of the completed shelters, in ascending id order, that
/// changes when one is added, removed or moved.
pub fn shelter_structure_signature(buildings: &Vec<ShelterBuilding>) -> (sig: u64)
    requires
        ascending_by_id(buildings@),
    ensures
        sig == signature_of(buildings@),
{
    let mut sig: u64 = 0;
    let mut i: usize = 0;
    while i < buildings.len()
        invariant
            0 <= i <= buildings@.len(),
            sig == signature_of(buildings@.subrange(0, i as int)),
        decreases buildings@.len() - i,
    {
        let b = buildings[i];
        proof {
            assert(buildings@.subrange(0, i + 1).drop_last() =~= buildings@.subrange(0, i as int));
        }
        if b.is_complete && b.is_shelter {
            sig = sig.wrapping_mul(131).wrapping_add(b.id).wrapping_add(coord_to_bits(b.x)).wrapping_add(coord_to_bits(b.y) << 16u64);
        }
        i = i + 1;
    }
    proof {
        assert(buildings@.subrange(0, buildings@.len() as int) =~= buildings@);
    }
    sig
}

/// The furniture placed inside a building type: a fire pit for a campfire,
/// none for any other type.
pub fn furniture_registry_id(building_type: &str) -> (f: Option<&'static str>)
    ensures
        building_type@ == "campfire"@ ==> f is Some && f.unwrap()@ == "fire_pit"@,
        building_type@ != "campfire"@ ==> f is None,
{
    if str_eq(building_type, "campfire") {
        Some("fire_pit")
    } else {
        None
    }
}


/// Channels of the emitter field.
#[derive(Debug, Clone, Copy, PartialEq, Eq, Structural)]
pub enum ChannelId {
    Food,
    Danger,
    Disease,
    Noise,
    Warmth,
    Light,
    Social,
    Spiritual,
}

/// How an emitter's intensity falls off with distance.
#[derive(Debug, Clone, Copy, PartialEq, Eq, Structural)]
pub enum FalloffType {
    Gaussian,
    Exponential,
    Linear,
}

/// The falloff an emitter of a channel uses by default: Gaussian for food,
/// exponential for danger, disease and noise, linear otherwise.
pub fn default_falloff_for_channel(channel: ChannelId) -> (f: FalloffType)
    ensures
        f == match channel {
            ChannelId::Food => FalloffType::Gaussian,
            ChannelId::Danger | ChannelId::Disease | ChannelId::Noise => FalloffType::Exponential,
            _ => FalloffType::Linear,
        },
{
    match channel {
        ChannelId::Food => FalloffType::Gaussian,
        ChannelId::Danger | ChannelId::Disease | ChannelId::Noise => FalloffType::Exponential,
        _ => FalloffType::Linear,
    }
}

/// The material tag a settlement prefers for its structures: stone when it
/// holds more stone than wood, else wood (also for an unknown settlement).
pub fn preferred_structure_material_tag(more_stone_than_wood: Option<bool>) -> (tag: &'static str)
    ensures
        tag@ == (if more_stone_than_wood == Some(true) { "stone"@ } else { "wood"@ }),
{
    match more_stone_than_wood {
        Some(true) => "stone",
        _ => "wood",
    }
}

} // verus!
