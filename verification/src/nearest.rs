use vstd::prelude::*;

use crate::geometry::{chebyshev, chebyshev_spec, manhattan, manhattan_spec, Position};
use crate::tiles::{lists_map, Tile, TileEntry, TileMap};

verus! {

/// `a` comes strictly before `b` in the deterministic search order from
/// `from`: smaller Manhattan distance first, then smaller `x`, then smaller `y`.
pub open spec fn nearer(from: Tile, a: Tile, b: Tile) -> bool {
    let da = manhattan_spec(from, a);
    let db = manhattan_spec(from, b);
    da < db || (da == db && (a.0 < b.0 || (a.0 == b.0 && a.1 < b.1)))
}

/// `t` is the first tile of `candidates` in the search order from `from`.
pub open spec fn is_nearest_in(from: Tile, candidates: Set<Tile>, t: Tile) -> bool {
    &&& candidates.contains(t)
    &&& forall|k: Tile| #[trigger] candidates.contains(k) ==> !nearer(from, k, t)
}

/// Tiles eligible for gathering: holding a positive count and within
/// `radius` (Chebyshev) of `from`.
pub open spec fn gather_candidates(from: Tile, tiles: Map<Tile, u8>, radius: u32) -> Set<Tile> {
    Set::new(
        |k: Tile| tiles.contains_key(k) && tiles[k] > 0 && chebyshev_spec(from, k) <= radius,
    )
}

/// The search order is total on distinct tiles, so the nearest tile of a set
/// is unique: the choice never depends on the order tiles are stored in.
pub proof fn lemma_nearest_unique(from: Tile, candidates: Set<Tile>, t1: Tile, t2: Tile)
    requires
        is_nearest_in(from, candidates, t1),
        is_nearest_in(from, candidates, t2),
    ensures
        t1 == t2,
{
    if t1 != t2 {
        assert(nearer(from, t1, t2) || nearer(from, t2, t1));
    }
}

/// Exec form of [`nearer`].
fn nearer_exec(from: Tile, a: Tile, b: Tile) -> (r: bool)
    ensures
        r == nearer(from, a, b),
{
    let da = manhattan(from, a);
    let db = manhattan(from, b);
    da < db || (da == db && (a.0 < b.0 || (a.0 == b.0 && a.1 < b.1)))
}

/// Nearest present tile to `pos` by Manhattan distance, ties broken by the
/// smaller `(x, y)`. `None` exactly when `tiles` is empty.
pub fn nearest_resource_tile(pos: &Position, tiles: &TileMap) -> (r: Option<Tile>)
    ensures
        r is None <==> tiles@.dom().is_empty(),
        r matches Some(t) ==> is_nearest_in(pos.tile(), tiles@.dom(), t),
{
    let from = (pos.x, pos.y);
    let entries = tiles.entries();
    let mut best: Option<Tile> = None;
    let mut i: usize = 0;
    while i < entries.len()
        invariant
            0 <= i <= entries@.len(),
            lists_map(entries@, tiles@),
            best is None <==> i == 0,
            best matches Some(b) ==> tiles@.contains_key(b),
            best matches Some(b) ==> forall|j: int| 0 <= j < i ==> !nearer(from, #[trigger] entries@[j].0, b),
        decreases entries@.len() - i,
    {
        let k = entries[i].0;
        match best {
            None => {
                best = Some(k);
            },
            Some(b) => {
                if nearer_exec(from, k, b) {
                    best = Some(k);
                }
            },
        }
        i = i + 1;
    }
    match best {
        None => {
            assert(tiles@.dom().is_empty()) by {
                if !tiles@.dom().is_empty() {
                    let k = tiles@.dom().choose();
                    assert(tiles@.contains_key(k));
                }
            }
            None
        },
        Some(b) => {
            assert(!tiles@.dom().is_empty()) by {
                assert(tiles@.dom().contains(b));
            }
            assert forall|k: Tile| #[trigger] tiles@.dom().contains(k) implies !nearer(from, k, b) by {
                assert(tiles@.contains_key(k));
                let j = choose|j: int| 0 <= j < entries@.len() && entries@[j].0 == k;
            }
            Some(b)
        },
    }
}

/// Nearest tile holding a positive count within `radius` (Chebyshev) of
/// `pos`, in the same `(distance, x, y)` order as [`nearest_resource_tile`].
///
/// The radius filter is applied before choosing, so a closer tile outside the
/// radius never hides an eligible tile inside it.
pub fn nearest_food_tile_in_radius(pos: &Position, tiles: &TileMap, radius: u32) -> (r: Option<Tile>)
    ensures
        r is None <==> gather_candidates(pos.tile(), tiles@, radius).is_empty(),
        r matches Some(t) ==> is_nearest_in(pos.tile(), gather_candidates(pos.tile(), tiles@, radius), t),
{
    let from = (pos.x, pos.y);
    let ghost cand = gather_candidates(from, tiles@, radius);
    let entries = tiles.entries();
    let mut best: Option<Tile> = None;
    let mut i: usize = 0;
    while i < entries.len()
        invariant
            0 <= i <= entries@.len(),
            lists_map(entries@, tiles@),
            cand == gather_candidates(from, tiles@, radius),
            best matches Some(b) ==> cand.contains(b),
            best is None ==> forall|j: int| 0 <= j < i ==> !cand.contains(#[trigger] entries@[j].0),
            best matches Some(b) ==> forall|j: int|
                0 <= j < i && cand.contains(#[trigger] entries@[j].0) ==> !nearer(from, entries@[j].0, b),
        decreases entries@.len() - i,
    {
        let (k, v) = entries[i];
        assert(tiles@.contains_key(entries@[i as int].0));
        if v > 0 && chebyshev(from, k) <= radius {
            match best {
                None => {
                    best = Some(k);
                },
                Some(b) => {
                    if nearer_exec(from, k, b) {
                        best = Some(k);
                    }
                },
            }
        }
        i = i + 1;
    }
    match best {
        None => {
            assert(cand.is_empty()) by {
                if !cand.is_empty() {
                    let k = cand.choose();
                    assert(tiles@.contains_key(k));
                    let j = choose|j: int| 0 <= j < entries@.len() && entries@[j].0 == k;
                    assert(!cand.contains(entries@[j].0));
                }
            }
            None
        },
        Some(b) => {
            assert(!cand.is_empty()) by {
                assert(cand.contains(b));
            }
            assert forall|k: Tile| #[trigger] cand.contains(k) implies !nearer(from, k, b) by {
                assert(tiles@.contains_key(k));
                let j = choose|j: int| 0 <= j < entries@.len() && entries@[j].0 == k;
                assert(cand.contains(entries@[j].0));
            }
            Some(b)
        },
    }
}

} // verus!
