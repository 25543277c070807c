# sim_systems

The decision logic of a colony simulation's runtime systems, written in
Verus and proved against its contracts.

- `src/` is the verified library. Each module holds the rules of one group of
  systems over plain values: settlements (`settlement`, `stockpile`), agent
  decisions (`decision`, `nearest`, `resource_regen`), the influence grid
  (`influence`, `influence_systems`, `influence_runtime`), construction and
  jobs (`economy`, `construction`, `shelter`, `jobs`, `materials`), narrative
  requests (`llm`), memory encoding (`memory`), chronicle summaries
  (`record`), pairwise interactions (`pairwise`), and the schedules of the
  remaining systems (`needs`, `psychology`, `effects`, `cadence`).
- `app/` connects the library to the ECS world and the engine resources:
  it reads components, calls the library, and writes the answers back.
  Floating-point work (need levels, propagation falloff, salience) stays
  there.
- `tests/` exercises the library on concrete values.
