use sim_systems::geometry::Position;
use sim_systems::influence::{channel_index, DirtyRegion, InfluenceChannel, InfluenceGrid};
use sim_systems::influence_systems::{
    stamped_channels, AgentInfluenceSampleSystem, BuildingPlacedEvent, BuildingStampSystem, InfluenceSample,
    InfluenceUpdateSystem, InfluenceVisualizationSystem, SampledAgent,
};

const ALL: [InfluenceChannel; 8] = [
    InfluenceChannel::Warmth,
    InfluenceChannel::Light,
    InfluenceChannel::Noise,
    InfluenceChannel::Danger,
    InfluenceChannel::Spiritual,
    InfluenceChannel::Beauty,
    InfluenceChannel::FoodAroma,
    InfluenceChannel::Social,
];

fn dirty(g: &InfluenceGrid, ch: InfluenceChannel) -> &Vec<DirtyRegion> {
    &g.dirty_regions[channel_index(ch)]
}

#[test]
fn empty_queue_is_no_op() {
    let mut g = InfluenceGrid::new(32, 32);
    let mut queue: Vec<BuildingPlacedEvent> = Vec::new();
    let records = BuildingStampSystem::new().tick(&mut g, &mut queue);
    assert!(records.is_empty());
    for ch in ALL {
        assert!(dirty(&g, ch).is_empty());
    }
}

#[test]
fn single_event_marks_stamped_channels_dirty() {
    let mut g = InfluenceGrid::new(32, 32);
    let mut queue = vec![BuildingPlacedEvent { position: (10, 10), radius: 2 }];
    let records = BuildingStampSystem::new().tick(&mut g, &mut queue);
    for ch in stamped_channels() {
        assert_eq!(dirty(&g, ch).len(), 1);
    }
    for ch in [InfluenceChannel::FoodAroma, InfluenceChannel::Social] {
        assert!(dirty(&g, ch).is_empty());
    }
    assert!(queue.is_empty());
    assert_eq!(records.len(), 1);
    assert_eq!(records[0].centre_index, 10 * 32 + 10);
    assert_eq!(records[0].region, DirtyRegion { min_x: 8, min_y: 8, max_x: 12, max_y: 12 });
}

#[test]
fn out_of_bounds_event_is_skipped() {
    let mut g = InfluenceGrid::new(32, 32);
    let mut queue = vec![BuildingPlacedEvent { position: (999, 999), radius: 1 }];
    let records = BuildingStampSystem::new().tick(&mut g, &mut queue);
    for ch in stamped_channels() {
        assert!(dirty(&g, ch).is_empty());
    }
    assert!(queue.is_empty());
    assert!(records.is_empty());
}

#[test]
fn radius_clamps_to_grid() {
    let mut g = InfluenceGrid::new(32, 32);
    let mut queue = vec![BuildingPlacedEvent { position: (1, 1), radius: 100 }];
    BuildingStampSystem::new().tick(&mut g, &mut queue);
    let regs = dirty(&g, InfluenceChannel::Warmth);
    assert_eq!(regs.len(), 1);
    assert!(regs[0].max_x <= 31);
    assert!(regs[0].max_y <= 31);
    assert_eq!(regs[0].min_x, 0);
    assert_eq!(regs[0].min_y, 0);
}

#[test]
fn tick_does_not_panic() {
    let mut g = InfluenceGrid::new(32, 32);
    let stamp = BuildingStampSystem::new();
    for _ in 0..5 {
        let mut queue: Vec<BuildingPlacedEvent> = Vec::new();
        stamp.tick(&mut g, &mut queue);
    }
    assert_eq!(g.width, 32);
}

#[test]
fn shell_does_not_mutate_tile_grid() {
    let mut g = InfluenceGrid::new(32, 32);
    let mut queue = vec![BuildingPlacedEvent { position: (3, 3), radius: 2 }];
    BuildingStampSystem::new().tick(&mut g, &mut queue);
    for ch in ALL {
        assert!(g.current[channel_index(ch)].iter().all(|v| *v == 0));
        assert!(g.pending[channel_index(ch)].iter().all(|v| *v == 0));
    }
}

#[test]
fn zero_sized_grid_drops_the_queue() {
    let mut g = InfluenceGrid::new(0, 32);
    let mut queue = vec![BuildingPlacedEvent { position: (0, 0), radius: 2 }];
    let records = BuildingStampSystem::new().tick(&mut g, &mut queue);
    assert!(queue.is_empty());
    assert!(records.is_empty());
}

fn agent_at(x: u32, y: u32) -> SampledAgent {
    SampledAgent { position: Position::new(x, y), sample: InfluenceSample::default() }
}

#[test]
fn samples_zero_when_grid_empty() {
    let g = InfluenceGrid::new(32, 32);
    let mut agents = vec![agent_at(5, 5)];
    AgentInfluenceSampleSystem::new().tick(&g, &mut agents);
    assert_eq!(agents[0].sample.warmth, 0);
    assert_eq!(agents[0].sample.danger, 0);
}

#[test]
fn samples_warmth_after_manual_write_and_swap() {
    let mut g = InfluenceGrid::new(32, 32);
    g.pending[channel_index(InfluenceChannel::Warmth)][5 * 32 + 5] = 123;
    g.swap();
    let mut agents = vec![agent_at(5, 5)];
    AgentInfluenceSampleSystem::new().tick(&g, &mut agents);
    assert_eq!(agents[0].sample.warmth, 123);
    assert_eq!(agents[0].sample.danger, 0);
}

#[test]
fn out_of_bounds_position_is_skipped() {
    let g = InfluenceGrid::new(32, 32);
    let mut agents = vec![SampledAgent { position: Position::new(999, 999), sample: InfluenceSample { warmth: 42, danger: 7 } }];
    AgentInfluenceSampleSystem::new().tick(&g, &mut agents);
    assert_eq!(agents[0].sample.warmth, 42);
    assert_eq!(agents[0].sample.danger, 7);
}

#[test]
fn many_agents_read_own_tile() {
    let mut g = InfluenceGrid::new(32, 32);
    {
        let buf = &mut g.pending[channel_index(InfluenceChannel::Danger)];
        buf[32 + 1] = 10;
        buf[2 * 32 + 2] = 20;
        buf[3 * 32 + 3] = 30;
    }
    g.swap();
    let mut agents = vec![agent_at(1, 1), agent_at(2, 2), agent_at(3, 3)];
    AgentInfluenceSampleSystem::new().tick(&g, &mut agents);
    assert_eq!(agents[0].sample.danger, 10);
    assert_eq!(agents[1].sample.danger, 20);
    assert_eq!(agents[2].sample.danger, 30);
}

fn update(g: &mut InfluenceGrid) {
    let sys = InfluenceUpdateSystem::new();
    let _plan = sys.begin(g);
    sys.finish(g);
}

#[test]
fn tick_does_not_panic_on_empty_world() {
    let mut g = InfluenceGrid::new(64, 64);
    for _ in 0..10 {
        update(&mut g);
    }
    assert_eq!(g.height, 64);
}

#[test]
fn baseline_remains_zero_after_ticks() {
    let mut g = InfluenceGrid::new(64, 64);
    for _ in 0..5 {
        update(&mut g);
    }
    for ch in ALL {
        assert_eq!(g.sample(0, 0, ch), 0);
        assert_eq!(g.sample(32, 32, ch), 0);
        assert_eq!(g.sample(63, 63, ch), 0);
    }
}

#[test]
fn pending_write_cleared_before_swap() {
    let mut g = InfluenceGrid::new(64, 64);
    g.pending[channel_index(InfluenceChannel::Warmth)][10 * 64 + 10] = 200;
    update(&mut g);
    assert_eq!(g.sample(10, 10, InfluenceChannel::Warmth), 0);
}

#[test]
fn quiet_update_keeps_warmth() {
    let mut g = InfluenceGrid::new(8, 8);
    g.pending[channel_index(InfluenceChannel::Warmth)][9] = 77;
    g.pending[channel_index(InfluenceChannel::Danger)][9] = 55;
    g.swap();
    update(&mut g);
    assert_eq!(g.sample(1, 1, InfluenceChannel::Warmth), 77);
    // Channels that are not propagated are cleared at each update.
    assert_eq!(g.sample(1, 1, InfluenceChannel::Danger), 0);
}

#[test]
fn dirty_warmth_is_planned_from_region_centres() {
    let mut g = InfluenceGrid::new(32, 32);
    let mut queue = vec![BuildingPlacedEvent { position: (10, 10), radius: 2 }];
    BuildingStampSystem::new().tick(&mut g, &mut queue);
    let sys = InfluenceUpdateSystem::new();
    let plan = sys.begin(&mut g);
    assert_eq!(plan.warmth, Some(vec![(10, 10)]));
    assert_eq!(plan.light, Some(vec![(10, 10)]));
    assert_eq!(plan.noise, Some(vec![(10, 10)]));
    assert!(g.dirty_regions[channel_index(InfluenceChannel::Warmth)].is_empty());
    // Danger is stamped but not propagated: its regions stay.
    assert_eq!(g.dirty_regions[channel_index(InfluenceChannel::Danger)].len(), 1);
}

#[test]
fn digest_zero_on_fresh_engine() {
    let g = InfluenceGrid::new(32, 32);
    let mut s = InfluenceVisualizationSystem::new();
    s.tick(&g, 0);
    assert_eq!(s.last_digest().warmth_total, 0);
    assert_eq!(s.last_digest().danger_peak, 0);
}

#[test]
fn digest_captures_warmth_total_and_danger_peak() {
    let mut g = InfluenceGrid::new(32, 32);
    {
        let buf = &mut g.pending[channel_index(InfluenceChannel::Warmth)];
        buf[0] = 50;
        buf[1] = 70;
    }
    {
        let buf = &mut g.pending[channel_index(InfluenceChannel::Danger)];
        buf[0] = 200;
        buf[10] = 100;
    }
    g.swap();
    let mut s = InfluenceVisualizationSystem::new();
    s.tick(&g, 12);
    assert_eq!(s.last_digest().warmth_total, 120);
    assert_eq!(s.last_digest().danger_peak, 200);
    assert_eq!(s.last_digest().tick, 12);
}

#[test]
fn interval_6_fires_at_correct_ticks() {
    let g = InfluenceGrid::new(32, 32);
    let mut s = InfluenceVisualizationSystem::new();
    let mut fired = Vec::new();
    for t in 0..13u64 {
        if t % s.tick_interval() == 0 {
            s.tick(&g, t);
            fired.push(t);
        }
    }
    assert_eq!(fired, vec![0, 6, 12]);
    assert_eq!(s.last_digest().tick, 12);
}
