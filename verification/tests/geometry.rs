use sim_systems::geometry::{chebyshev, manhattan};
use sim_systems::settlement::BIRTH_COOLDOWN_TICKS;
use sim_systems::stockpile::STOCKPILE_RELIEF_FOOD_PER_MEAL;

#[test]
fn chebyshev_distance_is_symmetric() {
    assert_eq!(chebyshev((0, 0), (5, 3)), 5);
    assert_eq!(chebyshev((5, 3), (0, 0)), 5);
    assert_eq!(chebyshev((10, 10), (10, 10)), 0);
}

#[test]
fn birth_cooldown_constant_is_200() {
    assert_eq!(BIRTH_COOLDOWN_TICKS, 200);
}

#[test]
fn stockpile_consume_chebyshev_is_max_axis_distance() {
    assert_eq!(chebyshev((10, 10), (15, 10)), 5);
    assert_eq!(chebyshev((10, 10), (10, 15)), 5);
    assert_eq!(chebyshev((10, 10), (13, 14)), 4);
    assert_eq!(chebyshev((10, 10), (10, 10)), 0);
}

#[test]
fn stockpile_deposit_chebyshev_is_max_axis_distance() {
    assert_eq!(chebyshev((10, 10), (15, 10)), 5);
    assert_eq!(chebyshev((10, 10), (10, 15)), 5);
    assert_eq!(chebyshev((10, 10), (13, 14)), 4);
    assert_eq!(chebyshev((10, 10), (10, 10)), 0);
}

#[test]
fn relief_constants_mirror_ground_eat() {
    // One reserve unit per meal, matching a food tile's per-meal decrement.
    assert_eq!(STOCKPILE_RELIEF_FOOD_PER_MEAL, 1);
}

#[test]
fn chebyshev_never_exceeds_manhattan() {
    assert!((chebyshev((2, 9), (7, 1)) as u64) <= manhattan((2, 9), (7, 1)));
    assert_eq!(manhattan((2, 9), (7, 1)), 13);
    assert_eq!(chebyshev((u32::MAX, 0), (0, u32::MAX)), u32::MAX);
}
