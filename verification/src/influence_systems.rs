use vstd::prelude::*;

use crate::geometry::Position;
use crate::influence::{
    channel_index_spec, region_centre, zero_buffer, DirtyRegion, InfluenceChannel, InfluenceGrid, CHANNEL_COUNT,
};
use crate::tiles::Tile;

verus! {

/// The channels a building placement marks dirty.
pub open spec fn is_stamped(ch: InfluenceChannel) -> bool {
    match ch {
        InfluenceChannel::Warmth | InfluenceChannel::Spiritual | InfluenceChannel::Beauty
        | InfluenceChannel::Light | InfluenceChannel::Noise | InfluenceChannel::Danger => true,
        _ => false,
    }
}

/// The channels a building placement marks dirty, in stamping order:
/// warmth, spiritual, beauty, light, noise, danger.
pub fn stamped_channels() -> (v: Vec<InfluenceChannel>)
    ensures
        v@ == seq![
            InfluenceChannel::Warmth,
            InfluenceChannel::Spiritual,
            InfluenceChannel::Beauty,
            InfluenceChannel::Light,
            InfluenceChannel::Noise,
            InfluenceChannel::Danger,
        ],
{
    vec![
        InfluenceChannel::Warmth,
        InfluenceChannel::Spiritual,
        InfluenceChannel::Beauty,
        InfluenceChannel::Light,
        InfluenceChannel::Noise,
        InfluenceChannel::Danger,
    ]
}

/// A building placed at `position` whose influence reaches `radius` tiles.
#[derive(Debug, Clone, Copy)]
pub struct BuildingPlacedEvent {
    pub position: Tile,
    pub radius: u32,
}

/// What stamping one placement did: the event, the row-major index of its
/// centre tile, and the region marked dirty on every stamped channel.
#[derive(Debug, Clone, Copy)]
pub struct StampRecord {
    pub event: BuildingPlacedEvent,
    pub centre_index: u64,
    pub region: DirtyRegion,
}

/// `a - b`, or 0 below zero.
pub open spec fn sat_sub_u32(a: u32, b: u32) -> u32 {
    if a >= b { (a - b) as u32 } else { 0u32 }
}

/// The dirty box of a placement at `(cx, cy)` with radius `r` on a
/// `w` by `h` grid: the Chebyshev box clamped to the grid.
pub open spec fn stamp_region(cx: u32, cy: u32, r: u32, w: u32, h: u32) -> DirtyRegion {
    DirtyRegion {
        min_x: sat_sub_u32(cx, r),
        min_y: sat_sub_u32(cy, r),
        max_x: if cx + r < w { (cx + r) as u32 } else { (w - 1) as u32 },
        max_y: if cy + r < h { (cy + r) as u32 } else { (h - 1) as u32 },
    }
}

/// The records of stamping `events` in order on a `w` by `h` grid:
/// out-of-bounds placements leave none.
pub open spec fn stamp_records(events: Seq<BuildingPlacedEvent>, w: u32, h: u32) -> Seq<StampRecord>
    decreases events.len(),
{
    if events.len() == 0 {
        seq![]
    } else {
        let rest = stamp_records(events.drop_last(), w, h);
        let ev = events.last();
        let (cx, cy) = ev.position;
        if cx < w && cy < h {
            rest.push(StampRecord {
                event: ev,
                centre_index: (cy * w + cx) as u64,
                region: stamp_region(cx, cy, ev.radius, w, h),
            })
        } else {
            rest
        }
    }
}

/// The regions of a list of records, in order.
pub open spec fn record_regions(records: Seq<StampRecord>) -> Seq<DirtyRegion> {
    records.map_values(|r: StampRecord| r.region)
}

/// Turns building placements into dirty regions of the influence grid.
#[derive(Debug, Clone, Copy)]
pub struct BuildingStampSystem;

impl BuildingStampSystem {
    /// A new stamper.
    pub fn new() -> (s: BuildingStampSystem) {
        BuildingStampSystem
    }

    /// Name under which the system is scheduled.
    pub fn name(&self) -> (n: &'static str)
        ensures
            n@ == "BuildingStampSystem"@,
    {
        "BuildingStampSystem"
    }

    /// Scheduling priority.
    pub fn priority(&self) -> (p: u32)
        ensures
            p == 90,
    {
        90
    }

    /// Ticks between runs.
    pub fn tick_interval(&self) -> (t: u64)
        ensures
            t == 1,
    {
        1
    }

    /// Drain the placement queue in order. Each in-bounds placement marks
    /// its clamped Chebyshev box dirty on every stamped channel and yields a
    /// record; out-of-bounds placements are dropped. On an empty grid the
    /// queue is dropped whole. Buffers are never touched.
    pub fn tick(&self, grid: &mut InfluenceGrid, queue: &mut Vec<BuildingPlacedEvent>) -> (records: Vec<StampRecord>)
        requires
            old(grid).wf(),
        ensures
            final(grid).wf(),
            final(queue)@.len() == 0,
            final(grid).width == old(grid).width && final(grid).height == old(grid).height,
            final(grid).current@ == old(grid).current@,
            final(grid).pending@ == old(grid).pending@,
            records@ == (if old(grid).width == 0 || old(grid).height == 0 {
                Seq::<StampRecord>::empty()
            } else {
                stamp_records(old(queue)@, old(grid).width, old(grid).height)
            }),
            forall|ch: InfluenceChannel| #[trigger] final(grid).dirty(ch) == (if is_stamped(ch) {
                old(grid).dirty(ch) + record_regions(records@)
            } else {
                old(grid).dirty(ch)
            }),
    {
        let w = grid.width;
        let h = grid.height;
        let mut records: Vec<StampRecord> = Vec::new();
        if w == 0 || h == 0 {
            queue.clear();
            proof {
                assert forall|ch: InfluenceChannel| #[trigger] grid.dirty(ch) == (if is_stamped(ch) {
                    old(grid).dirty(ch) + record_regions(records@)
                } else {
                    old(grid).dirty(ch)
                }) by {
                    assert(record_regions(records@) =~= Seq::<DirtyRegion>::empty());
                    assert(old(grid).dirty(ch) + Seq::<DirtyRegion>::empty() =~= old(grid).dirty(ch));
                }
            }
            return records;
        }
        let ghost q0 = queue@;
        let n = queue.len();
        let mut k: usize = 0;
        while k < n
            invariant
                0 <= k <= n,
                n == q0.len(),
                q0 == old(queue)@,
                queue@ == q0,
                w == grid.width && h == grid.height && w > 0 && h > 0,
                grid.wf(),
                grid.width == old(grid).width && grid.height == old(grid).height,
                grid.current@ == old(grid).current@,
                grid.pending@ == old(grid).pending@,
                records@ == stamp_records(q0.subrange(0, k as int), w, h),
                forall|ch: InfluenceChannel| #[trigger] grid.dirty(ch) == (if is_stamped(ch) {
                    old(grid).dirty(ch) + record_regions(records@)
                } else {
                    old(grid).dirty(ch)
                }),
            decreases n - k,
        {
            let ev = queue[k];
            let (cx, cy) = ev.position;
            proof {
                assert(q0.subrange(0, k + 1).drop_last() =~= q0.subrange(0, k as int));
                assert(q0.subrange(0, k + 1).last() == ev);
            }
            if cx < w && cy < h {
                let r = ev.radius;
                let region = DirtyRegion {
                    min_x: cx.saturating_sub(r),
                    min_y: cy.saturating_sub(r),
                    max_x: if r < w - cx { cx + r } else { w - 1 },
                    max_y: if r < h - cy { cy + r } else { h - 1 },
                };
                proof {
                    assert(cy * w + cx < w * h) by (nonlinear_arith)
                        requires cx < w, cy < h;
                }
                let centre_index = cy as u64 * w as u64 + cx as u64;
                mark_stamped(grid, region);
                let rec = StampRecord { event: ev, centre_index, region };
                let ghost rb = records@;
                records.push(rec);
                proof {
                    assert(record_regions(records@) =~= record_regions(rb).push(region));
                    assert forall|ch: InfluenceChannel| #[trigger] grid.dirty(ch) == (if is_stamped(ch) {
                        old(grid).dirty(ch) + record_regions(records@)
                    } else {
                        old(grid).dirty(ch)
                    }) by {
                        if is_stamped(ch) {
                            assert(old(grid).dirty(ch) + record_regions(rb).push(region)
                                =~= (old(grid).dirty(ch) + record_regions(rb)).push(region));
                        }
                    }
                }
            }
            k = k + 1;
        }
        queue.clear();
        proof {
            assert(q0.subrange(0, n as int) =~= q0);
        }
        records
    }
}

/// Distinct channels have distinct buffer positions.
pub proof fn lemma_channel_index_injective(a: InfluenceChannel, b: InfluenceChannel)
    ensures
        a != b ==> channel_index_spec(a) != channel_index_spec(b),
        0 <= channel_index_spec(a) < CHANNEL_COUNT,
{
}

/// Mark `region` dirty on every stamped channel.
fn mark_stamped(grid: &mut InfluenceGrid, region: DirtyRegion)
    requires
        old(grid).wf(),
    ensures
        final(grid).wf(),
        final(grid).width == old(grid).width && final(grid).height == old(grid).height,
        final(grid).current@ == old(grid).current@,
        final(grid).pending@ == old(grid).pending@,
        forall|ch: InfluenceChannel| #[trigger] final(grid).dirty(ch) == (if is_stamped(ch) {
            old(grid).dirty(ch).push(region)
        } else {
            old(grid).dirty(ch)
        }),
{
    let ghost g0 = grid.dirty_regions@;
    let channels = stamped_channels();
    let mut c: usize = 0;
    while c < channels.len()
        invariant
            0 <= c <= 6,
            channels@ == seq![
                InfluenceChannel::Warmth,
                InfluenceChannel::Spiritual,
                InfluenceChannel::Beauty,
                InfluenceChannel::Light,
                InfluenceChannel::Noise,
                InfluenceChannel::Danger,
            ],
            grid.wf(),
            grid.width == old(grid).width && grid.height == old(grid).height,
            grid.current@ == old(grid).current@,
            grid.pending@ == old(grid).pending@,
            g0 == old(grid).dirty_regions@,
            forall|ch: InfluenceChannel| #[trigger] grid.dirty(ch) == (if is_stamped(ch) && stamp_order(ch) < c {
                old(grid).dirty(ch).push(region)
            } else {
                old(grid).dirty(ch)
            }),
        decreases 6 - c,
    {
        let ch = channels[c];
        proof {
            assert(stamp_order(ch) == c);
            assert(is_stamped(ch));
        }
        let ghost before = grid.dirty_regions@;
        proof {
            assert forall|ch3: InfluenceChannel| #[trigger] before[channel_index_spec(ch3)]@ == (if is_stamped(ch3) && stamp_order(ch3) < c {
                old(grid).dirty(ch3).push(region)
            } else {
                old(grid).dirty(ch3)
            }) by {
                assert(grid.dirty(ch3) == before[channel_index_spec(ch3)]@);
            }
        }
        grid.mark_dirty(ch, region);
        proof {
            assert forall|ch2: InfluenceChannel| #[trigger] grid.dirty(ch2) == (if is_stamped(ch2) && stamp_order(ch2) < c + 1 {
                old(grid).dirty(ch2).push(region)
            } else {
                old(grid).dirty(ch2)
            }) by {
                lemma_channel_index_injective(ch, ch2);
                lemma_channel_index_injective(ch2, ch);
                if ch2 != ch {
                    assert(grid.dirty_regions@[channel_index_spec(ch2)] == before[channel_index_spec(ch2)]);
                }
                assert(before[channel_index_spec(ch2)]@ == (if is_stamped(ch2) && stamp_order(ch2) < c {
                    old(grid).dirty(ch2).push(region)
                } else {
                    old(grid).dirty(ch2)
                }));
            }
        }
        c = c + 1;
    }
}

/// Position of a stamped channel in the stamping order.
pub open spec fn stamp_order(ch: InfluenceChannel) -> int {
    match ch {
        InfluenceChannel::Warmth => 0,
        InfluenceChannel::Spiritual => 1,
        InfluenceChannel::Beauty => 2,
        InfluenceChannel::Light => 3,
        InfluenceChannel::Noise => 4,
        InfluenceChannel::Danger => 5,
        _ => 6,
    }
}

/// The latest influence an agent observed at its tile.
#[derive(Debug, Clone, Copy, PartialEq, Eq, Structural)]
pub struct InfluenceSample {
    pub warmth: u8,
    pub danger: u8,
}

impl Default for InfluenceSample {
    /// A sample of zero warmth and zero danger.
    fn default() -> (s: InfluenceSample)
        ensures
            s.warmth == 0 && s.danger == 0,
    {
        InfluenceSample { warmth: 0, danger: 0 }
    }
}

/// An agent's position and its latest sample.
#[derive(Debug, Clone, Copy)]
pub struct SampledAgent {
    pub position: Position,
    pub sample: InfluenceSample,
}

/// Reads warmth and danger at every agent's tile.
#[derive(Debug, Clone, Copy)]
pub struct AgentInfluenceSampleSystem;

impl AgentInfluenceSampleSystem {
    /// A new sampler.
    pub fn new() -> (s: AgentInfluenceSampleSystem) {
        AgentInfluenceSampleSystem
    }

    /// Name under which the system is scheduled.
    pub fn name(&self) -> (n: &'static str)
        ensures
            n@ == "AgentInfluenceSampleSystem"@,
    {
        "AgentInfluenceSampleSystem"
    }

    /// Scheduling priority.
    pub fn priority(&self) -> (p: u32)
        ensures
            p == 110,
    {
        110
    }

    /// Ticks between runs.
    pub fn tick_interval(&self) -> (t: u64)
        ensures
            t == 1,
    {
        1
    }

    /// Every agent on the grid gets the current warmth and danger of its
    /// tile; an agent off the grid keeps its sample.
    pub fn tick(&self, grid: &InfluenceGrid, agents: &mut Vec<SampledAgent>)
        requires
            grid.wf(),
        ensures
            final(agents)@.len() == old(agents)@.len(),
            forall|i: int| 0 <= i < final(agents)@.len() ==> {
                let a = #[trigger] final(agents)@[i];
                let b = old(agents)@[i];
                &&& a.position == b.position
                &&& if b.position.x < grid.width && b.position.y < grid.height {
                    a.sample == (InfluenceSample {
                        warmth: grid.cur(InfluenceChannel::Warmth)[grid.cell(b.position.x, b.position.y)],
                        danger: grid.cur(InfluenceChannel::Danger)[grid.cell(b.position.x, b.position.y)],
                    })
                } else {
                    a.sample == b.sample
                }
            },
    {
        let n = agents.len();
        let mut i: usize = 0;
        while i < n
            invariant
                0 <= i <= n,
                n == agents@.len(),
                n == old(agents)@.len(),
                grid.wf(),
                forall|k: int| i <= k < n ==> #[trigger] agents@[k] == old(agents)@[k],
                forall|k: int| 0 <= k < i ==> {
                    let a = #[trigger] agents@[k];
                    let b = old(agents)@[k];
                    &&& a.position == b.position
                    &&& if b.position.x < grid.width && b.position.y < grid.height {
                        a.sample == (InfluenceSample {
                            warmth: grid.cur(InfluenceChannel::Warmth)[grid.cell(b.position.x, b.position.y)],
                            danger: grid.cur(InfluenceChannel::Danger)[grid.cell(b.position.x, b.position.y)],
                        })
                    } else {
                        a.sample == b.sample
                    }
                },
            decreases n - i,
        {
            let a = agents[i];
            if a.position.x < grid.width && a.position.y < grid.height {
                let warmth = grid.sample(a.position.x, a.position.y, InfluenceChannel::Warmth);
                let danger = grid.sample(a.position.x, a.position.y, InfluenceChannel::Danger);
                agents.set(i, SampledAgent { position: a.position, sample: InfluenceSample { warmth, danger } });
            }
            i = i + 1;
        }
    }
}

/// Sum of a buffer.
pub open spec fn buffer_sum(s: Seq<u8>) -> nat
    decreases s.len(),
{
    if s.len() == 0 { 0 } else { buffer_sum(s.drop_last()) + s.last() as nat }
}

/// Largest value of a buffer, 0 for an empty one.
pub open spec fn buffer_peak(s: Seq<u8>) -> u8
    decreases s.len(),
{
    if s.len() == 0 {
        0
    } else {
        let m = buffer_peak(s.drop_last());
        if s.last() > m { s.last() } else { m }
    }
}

/// A coarse summary of the grid at one tick.
#[derive(Debug, Clone, Copy, PartialEq, Eq, Structural)]
pub struct VisualizationDigest {
    /// Tick at which the digest was taken.
    pub tick: u64,
    /// Sum of the current warmth over all tiles.
    pub warmth_total: u64,
    /// Largest current danger of any tile.
    pub danger_peak: u8,
}

impl Default for VisualizationDigest {
    /// The zero digest.
    fn default() -> (d: VisualizationDigest)
        ensures
            d.tick == 0 && d.warmth_total == 0 && d.danger_peak == 0,
    {
        VisualizationDigest { tick: 0, warmth_total: 0, danger_peak: 0 }
    }
}

/// Takes a digest of the influence grid at its interval.
#[derive(Debug, Clone, Copy)]
pub struct InfluenceVisualizationSystem {
    last: VisualizationDigest,
}

impl InfluenceVisualizationSystem {
    /// The digest of the last run.
    pub closed spec fn last_spec(&self) -> VisualizationDigest {
        self.last
    }

    /// A new visualiser whose digest is zero.
    pub fn new() -> (s: InfluenceVisualizationSystem)
        ensures
            s.last_spec() == (VisualizationDigest { tick: 0, warmth_total: 0, danger_peak: 0 }),
    {
        InfluenceVisualizationSystem { last: VisualizationDigest { tick: 0, warmth_total: 0, danger_peak: 0 } }
    }

    /// The digest of the last run (zero before the first).
    pub fn last_digest(&self) -> (d: &VisualizationDigest)
        ensures
            *d == self.last_spec(),
    {
        &self.last
    }

    /// Name under which the system is scheduled.
    pub fn name(&self) -> (n: &'static str)
        ensures
            n@ == "InfluenceVisualizationSystem"@,
    {
        "InfluenceVisualizationSystem"
    }

    /// Scheduling priority.
    pub fn priority(&self) -> (p: u32)
        ensures
            p == 1000,
    {
        1000
    }

    /// Ticks between runs.
    pub fn tick_interval(&self) -> (t: u64)
        ensures
            t == 6,
    {
        6
    }

    /// Digest the current warmth total and danger peak at `tick`.
    pub fn tick(&mut self, grid: &InfluenceGrid, tick: u64)
        requires
            grid.wf(),
            buffer_sum(grid.cur(InfluenceChannel::Warmth)) <= u64::MAX,
        ensures
            final(self).last_spec() == (VisualizationDigest {
                tick,
                warmth_total: buffer_sum(grid.cur(InfluenceChannel::Warmth)) as u64,
                danger_peak: buffer_peak(grid.cur(InfluenceChannel::Danger)),
            }),
    {
        let warmth = &grid.current[0];
        let danger = &grid.current[3];
        let mut total: u64 = 0;
        let mut i: usize = 0;
        while i < warmth.len()
            invariant
                0 <= i <= warmth@.len(),
                total == buffer_sum(warmth@.subrange(0, i as int)),
                buffer_sum(warmth@) <= u64::MAX,
            decreases warmth@.len() - i,
        {
            proof {
                assert(warmth@.subrange(0, i + 1).drop_last() =~= warmth@.subrange(0, i as int));
                lemma_prefix_sum(warmth@, i + 1);
            }
            total = total + warmth[i] as u64;
            i = i + 1;
        }
        let mut peak: u8 = 0;
        let mut j: usize = 0;
        while j < danger.len()
            invariant
                0 <= j <= danger@.len(),
                peak == buffer_peak(danger@.subrange(0, j as int)),
            decreases danger@.len() - j,
        {
            proof {
                assert(danger@.subrange(0, j + 1).drop_last() =~= danger@.subrange(0, j as int));
            }
            if danger[j] > peak {
                peak = danger[j];
            }
            j = j + 1;
        }
        proof {
            assert(warmth@.subrange(0, warmth@.len() as int) =~= warmth@);
            assert(danger@.subrange(0, danger@.len() as int) =~= danger@);
        }
        self.last = VisualizationDigest { tick, warmth_total: total, danger_peak: peak };
    }
}

/// The sum of a prefix never exceeds the sum of the whole buffer.
pub proof fn lemma_prefix_sum(s: Seq<u8>, k: int)
    requires
        0 <= k <= s.len(),
    ensures
        buffer_sum(s.subrange(0, k)) <= buffer_sum(s),
    decreases s.len() - k,
{
    if k < s.len() {
        lemma_prefix_sum(s, k + 1);
        assert(s.subrange(0, k + 1).drop_last() =~= s.subrange(0, k));
    } else {
        assert(s.subrange(0, k) =~= s);
    }
}

/// The channels propagated from their dirty regions; the others are
/// cleared at every update.
pub open spec fn is_propagated(ch: InfluenceChannel) -> bool {
    ch == InfluenceChannel::Warmth || ch == InfluenceChannel::Light || ch == InfluenceChannel::Noise
}

/// The source tiles of a channel's dirty regions: their centres, in order.
pub open spec fn region_centres(regions: Seq<DirtyRegion>) -> Seq<Tile> {
    regions.map_values(|r: DirtyRegion| region_centre(r))
}

/// The region's coordinates can be added without overflow.
pub open spec fn region_summable(r: DirtyRegion) -> bool {
    r.min_x + r.max_x <= u32::MAX && r.min_y + r.max_y <= u32::MAX
}

/// The sources to propagate for each propagated channel this update, or
/// `None` where the channel had nothing dirty and persists.
#[derive(Debug)]
pub struct UpdatePlan {
    pub warmth: Option<Vec<Tile>>,
    pub light: Option<Vec<Tile>>,
    pub noise: Option<Vec<Tile>>,
}

/// What the plan holds for a channel with the given dirty regions.
pub open spec fn planned(sources: Option<Vec<Tile>>, regions: Seq<DirtyRegion>) -> bool {
    if regions.len() > 0 {
        sources is Some && sources.unwrap()@ == region_centres(regions)
    } else {
        sources is None
    }
}

/// Double-buffer update of the influence grid.
#[derive(Debug, Clone, Copy)]
pub struct InfluenceUpdateSystem;

impl InfluenceUpdateSystem {
    /// A new updater.
    pub fn new() -> (s: InfluenceUpdateSystem) {
        InfluenceUpdateSystem
    }

    /// Name under which the system is scheduled.
    pub fn name(&self) -> (n: &'static str)
        ensures
            n@ == "InfluenceUpdateSystem"@,
    {
        "InfluenceUpdateSystem"
    }

    /// Scheduling priority.
    pub fn priority(&self) -> (p: u32)
        ensures
            p == 100,
    {
        100
    }

    /// Ticks between runs.
    pub fn tick_interval(&self) -> (t: u64)
        ensures
            t == 1,
    {
        1
    }

    /// First half of an update. Each propagated channel (warmth, light,
    /// noise) gives up its dirty regions: with some, its pending buffer is
    /// cleared and the plan lists the region centres to propagate from; with
    /// none, its current buffer is copied to pending so that it persists.
    /// Every other channel's pending buffer is cleared.
    pub fn begin(&self, grid: &mut InfluenceGrid) -> (plan: UpdatePlan)
        requires
            old(grid).wf(),
            forall|i: int| 0 <= i < old(grid).dirty(InfluenceChannel::Warmth).len() ==> region_summable(#[trigger] old(grid).dirty(InfluenceChannel::Warmth)[i]),
            forall|i: int| 0 <= i < old(grid).dirty(InfluenceChannel::Light).len() ==> region_summable(#[trigger] old(grid).dirty(InfluenceChannel::Light)[i]),
            forall|i: int| 0 <= i < old(grid).dirty(InfluenceChannel::Noise).len() ==> region_summable(#[trigger] old(grid).dirty(InfluenceChannel::Noise)[i]),
        ensures
            final(grid).wf(),
            final(grid).width == old(grid).width && final(grid).height == old(grid).height,
            final(grid).current@ == old(grid).current@,
            planned(plan.warmth, old(grid).dirty(InfluenceChannel::Warmth)),
            planned(plan.light, old(grid).dirty(InfluenceChannel::Light)),
            planned(plan.noise, old(grid).dirty(InfluenceChannel::Noise)),
            forall|ch: InfluenceChannel| #[trigger] final(grid).dirty(ch) == (if is_propagated(ch) {
                Seq::<DirtyRegion>::empty()
            } else {
                old(grid).dirty(ch)
            }),
            forall|ch: InfluenceChannel| #[trigger] final(grid).pend(ch) == (if is_propagated(ch) && old(grid).dirty(ch).len() == 0 {
                old(grid).cur(ch)
            } else {
                zero_buffer(old(grid).pend(ch).len())
            }),
    {
        let ghost g0 = grid.dirty_regions@;
        let ghost p0 = grid.pending@;
        let warmth = prepare_channel(grid, InfluenceChannel::Warmth);
        proof {
            assert(grid.dirty(InfluenceChannel::Light) == old(grid).dirty(InfluenceChannel::Light));
            assert(grid.dirty(InfluenceChannel::Noise) == old(grid).dirty(InfluenceChannel::Noise));
        }
        let light = prepare_channel(grid, InfluenceChannel::Light);
        proof {
            assert(grid.dirty(InfluenceChannel::Noise) == old(grid).dirty(InfluenceChannel::Noise));
        }
        let noise = prepare_channel(grid, InfluenceChannel::Noise);
        grid.clear_pending(InfluenceChannel::Danger);
        grid.clear_pending(InfluenceChannel::Spiritual);
        grid.clear_pending(InfluenceChannel::Beauty);
        grid.clear_pending(InfluenceChannel::FoodAroma);
        grid.clear_pending(InfluenceChannel::Social);
        proof {
            assert forall|ch: InfluenceChannel| #[trigger] grid.dirty(ch) == (if is_propagated(ch) {
                Seq::<DirtyRegion>::empty()
            } else {
                old(grid).dirty(ch)
            }) by {
                lemma_channel_index_injective(ch, InfluenceChannel::Warmth);
                lemma_channel_index_injective(ch, InfluenceChannel::Light);
                lemma_channel_index_injective(ch, InfluenceChannel::Noise);
            }
            assert forall|ch: InfluenceChannel| #[trigger] grid.pend(ch) == (if is_propagated(ch) && old(grid).dirty(ch).len() == 0 {
                old(grid).cur(ch)
            } else {
                zero_buffer(old(grid).pend(ch).len())
            }) by {
                lemma_channel_index_injective(ch, InfluenceChannel::Warmth);
                lemma_channel_index_injective(ch, InfluenceChannel::Light);
                lemma_channel_index_injective(ch, InfluenceChannel::Noise);
                lemma_channel_index_injective(ch, InfluenceChannel::Danger);
                lemma_channel_index_injective(ch, InfluenceChannel::Spiritual);
                lemma_channel_index_injective(ch, InfluenceChannel::Beauty);
                lemma_channel_index_injective(ch, InfluenceChannel::FoodAroma);
                lemma_channel_index_injective(ch, InfluenceChannel::Social);
                assert(old(grid).pend(ch).len() == old(grid).cur(ch).len());
            }
        }
        UpdatePlan { warmth, light, noise }
    }

    /// Second half of an update, once propagation has written the pending
    /// buffers: swap every channel's buffers.
    pub fn finish(&self, grid: &mut InfluenceGrid)
        requires
            old(grid).wf(),
        ensures
            final(grid).wf(),
            final(grid).width == old(grid).width && final(grid).height == old(grid).height,
            final(grid).current@ == old(grid).pending@,
            final(grid).pending@ == old(grid).current@,
            final(grid).dirty_regions@ == old(grid).dirty_regions@,
    {
        grid.swap();
    }
}

/// Take a propagated channel's dirty regions; clear its pending buffer and
/// return their centres, or persist the channel when there were none.
fn prepare_channel(grid: &mut InfluenceGrid, ch: InfluenceChannel) -> (sources: Option<Vec<Tile>>)
    requires
        old(grid).wf(),
        forall|i: int| 0 <= i < old(grid).dirty(ch).len() ==> region_summable(#[trigger] old(grid).dirty(ch)[i]),
    ensures
        final(grid).wf(),
        final(grid).width == old(grid).width && final(grid).height == old(grid).height,
        final(grid).current@ == old(grid).current@,
        planned(sources, old(grid).dirty(ch)),
        final(grid).dirty_regions@ == old(grid).dirty_regions@.update(channel_index_spec(ch), final(grid).dirty_regions@[channel_index_spec(ch)]),
        final(grid).dirty(ch).len() == 0,
        final(grid).pending@ == old(grid).pending@.update(channel_index_spec(ch), final(grid).pending@[channel_index_spec(ch)]),
        final(grid).pend(ch) == (if old(grid).dirty(ch).len() == 0 { old(grid).cur(ch) } else { zero_buffer(old(grid).pend(ch).len()) }),
{
    let regions = grid.take_dirty(ch);
    if regions.len() > 0 {
        grid.clear_pending(ch);
        let mut centres: Vec<Tile> = Vec::new();
        let mut i: usize = 0;
        while i < regions.len()
            invariant
                0 <= i <= regions@.len(),
                regions@ == old(grid).dirty(ch),
                forall|k: int| 0 <= k < regions@.len() ==> region_summable(#[trigger] regions@[k]),
                centres@ == region_centres(regions@.subrange(0, i as int)),
            decreases regions@.len() - i,
        {
            let r = regions[i];
            proof {
                assert(region_summable(regions@[i as int]));
            }
            let c: Tile = ((r.min_x + r.max_x) / 2, (r.min_y + r.max_y) / 2);
            centres.push(c);
            i = i + 1;
            proof {
                assert(centres@ =~= region_centres(regions@.subrange(0, i as int)));
            }
        }
        proof {
            assert(regions@.subrange(0, regions@.len() as int) =~= regions@);
        }
        Some(centres)
    } else {
        grid.persist(ch);
        None
    }
}

/// A stamped region always lies on the grid and contains the placement's
/// tile, however large the radius.
pub proof fn lemma_stamp_region_on_grid(cx: u32, cy: u32, r: u32, w: u32, h: u32)
    requires
        cx < w,
        cy < h,
    ensures
        ({
            let g = stamp_region(cx, cy, r, w, h);
            &&& g.min_x <= cx <= g.max_x < w
            &&& g.min_y <= cy <= g.max_y < h
        }),
{
}

} // verus!
