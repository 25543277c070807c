use vstd::prelude::*;

pub mod geometry;
pub mod agent;
pub mod tiles;
pub mod nearest;
pub mod resource_regen;
pub mod decision;
pub mod settlement;
pub mod stockpile;
pub mod cadence;
pub mod text;
pub mod economy;
pub mod needs;
pub mod psychology;
pub mod record;
pub mod effects;
pub mod llm;
pub mod memory;
pub mod influence;
pub mod influence_systems;
pub mod influence_runtime;
pub mod shelter;
pub mod construction;
pub mod jobs;
pub mod pairwise;
pub mod materials;

verus! {

} // verus!
