use vstd::prelude::*;

use std::collections::HashMap;
use vstd::std_specs::iter::IteratorSpec;

use crate::geometry::{manhattan, manhattan_spec, chebyshev, chebyshev_spec, Position};

verus! {

/// Tile value that marks an infinite resource source. Such a tile is never
/// decremented or removed by consumption and never touched by regeneration.
pub const RESOURCE_SOURCE_INFINITE: u8 = 255;

/// A tile coordinate `(x, y)`.
pub type Tile = (u32, u32);

/// One `(tile, value)` pair of a sparse tile map.
pub type TileEntry = ((u32, u32), u8);

/// Keys of `s` are pairwise distinct.
pub open spec fn keys_distinct(s: Seq<TileEntry>) -> bool {
    forall|i: int, j: int|
        0 <= i < s.len() && 0 <= j < s.len() && i != j ==> #[trigger] s[i].0 != #[trigger] s[j].0
}

/// `s` lists exactly the entries of `m`, each key once.
pub open spec fn lists_map(s: Seq<TileEntry>, m: Map<Tile, u8>) -> bool {
    &&& keys_distinct(s)
    &&& forall|i: int| 0 <= i < s.len() ==> #[trigger] m.contains_key(s[i].0) && m[s[i].0] == s[i].1
    &&& forall|k: Tile| #[trigger] m.contains_key(k) ==> exists|i: int| 0 <= i < s.len() && s[i].0 == k
}

/// The key under which a tile is stored: `x` in the high 32 bits, `y` in
/// the low 32 bits.
pub open spec fn tile_key(t: Tile) -> u64 {
    (t.0 as int * 0x1_0000_0000 + t.1 as int) as u64
}

/// The tile stored under a key.
pub open spec fn key_tile(k: u64) -> Tile {
    ((k as int / 0x1_0000_0000) as u32, (k as int % 0x1_0000_0000) as u32)
}

/// A tile's key fits in 64 bits and gives the tile back.
proof fn lemma_tile_key(t: Tile)
    ensures
        t.0 as int * 0x1_0000_0000 + t.1 as int <= u64::MAX,
        key_tile(tile_key(t)) == t,
{
    let a = t.0 as int;
    let b = t.1 as int;
    assert(0 <= a * 0x1_0000_0000 + b <= u64::MAX) by (nonlinear_arith)
        requires
            0 <= a < 0x1_0000_0000,
            0 <= b < 0x1_0000_0000,
    ;
    assert((a * 0x1_0000_0000 + b) / 0x1_0000_0000 == a && (a * 0x1_0000_0000 + b) % 0x1_0000_0000 == b) by (nonlinear_arith)
        requires
            0 <= a < 0x1_0000_0000,
            0 <= b < 0x1_0000_0000,
    ;
}

/// Every key is the key of its tile.
proof fn lemma_key_tile(k: u64)
    ensures
        tile_key(key_tile(k)) == k,
{
    let n = k as int;
    let q = n / 0x1_0000_0000;
    let r = n % 0x1_0000_0000;
    assert(n == q * 0x1_0000_0000 + r && 0 <= q < 0x1_0000_0000 && 0 <= r < 0x1_0000_0000) by (nonlinear_arith)
        requires
            0 <= n <= u64::MAX,
            q == n / 0x1_0000_0000,
            r == n % 0x1_0000_0000,
    ;
}

/// The key of a tile.
fn key_of(t: Tile) -> (k: u64)
    ensures
        k == tile_key(t),
{
    proof {
        lemma_tile_key(t);
    }
    let x: u64 = t.0 as u64;
    let y: u64 = t.1 as u64;
    x * 0x1_0000_0000 + y
}

/// The tile of a key.
fn tile_of(k: u64) -> (t: Tile)
    ensures
        t == key_tile(k),
{
    ((k / 0x1_0000_0000) as u32, (k % 0x1_0000_0000) as u32)
}

/// Sparse map from tile coordinate to an 8-bit resource count, stored in a
/// hash map keyed by [`tile_key`].
///
/// Absent tiles read as "no resource".
#[derive(Debug)]
pub struct TileMap {
    cells: HashMap<u64, u8>,
}

impl TileMap {
    /// The map's contents.
    pub closed spec fn view(&self) -> Map<Tile, u8> {
        Map::new(|t: Tile| self.cells@.contains_key(tile_key(t)), |t: Tile| self.cells@[tile_key(t)])
    }

    /// The tiles present are the tiles of the stored keys.
    proof fn lemma_dom(&self)
        ensures
            self@.dom() == self.cells@.dom().map(|k: u64| key_tile(k)),
            self.cells@.dom().finite(),
            self@.dom().finite(),
            self@.len() == self.cells@.len(),
    {
        let f = |k: u64| key_tile(k);
        let d = self.cells@.dom();
        assert forall|t: Tile| #[trigger] self@.dom().contains(t) == d.map(f).contains(t) by {
            lemma_tile_key(t);
            if self@.dom().contains(t) {
                assert(d.contains(tile_key(t)) && f(tile_key(t)) == t);
            }
            if d.map(f).contains(t) {
                let k = choose|k: u64| d.contains(k) && f(k) == t;
                lemma_key_tile(k);
            }
        }
        assert(self@.dom() =~= d.map(f));
        assert forall|a: u64, b: u64| d.contains(a) && d.contains(b) && #[trigger] f(a) == #[trigger] f(b) implies a == b by {
            lemma_key_tile(a);
            lemma_key_tile(b);
        }
        vstd::set_lib::lemma_map_size(d, self@.dom(), f);
    }

    /// An empty map.
    pub fn new() -> (m: TileMap)
        ensures
            m@ == Map::<Tile, u8>::empty(),
    {
        let m = TileMap { cells: HashMap::new() };
        assert(m@ =~= Map::<Tile, u8>::empty());
        m
    }

    /// Number of tiles present.
    pub fn len(&self) -> (n: usize)
        ensures
            n == self@.len(),
            self@.dom().finite(),
    {
        proof {
            self.lemma_dom();
        }
        self.cells.len()
    }

    /// Whether no tile is present.
    pub fn is_empty(&self) -> (b: bool)
        ensures
            b == (self@ == Map::<Tile, u8>::empty()),
    {
        let n = self.len();
        if n == 0 {
            proof {
                self@.dom().lemma_len0_is_empty();
                assert(self@ =~= Map::<Tile, u8>::empty());
            }
            true
        } else {
            proof {
                if self@ == Map::<Tile, u8>::empty() {
                    assert(self@.dom() =~= Set::<Tile>::empty());
                }
            }
            false
        }
    }

    /// Value stored at `key`, if the tile is present.
    pub fn get(&self, key: Tile) -> (r: Option<u8>)
        ensures
            r == self@.get(key),
    {
        let k = key_of(key);
        match self.cells.get(&k) {
            Some(v) => Some(*v),
            None => None,
        }
    }

    /// Whether `key` is present.
    pub fn contains_key(&self, key: Tile) -> (b: bool)
        ensures
            b == self@.contains_key(key),
    {
        let k = key_of(key);
        self.cells.contains_key(&k)
    }

    /// Set the value at `key`, adding the tile if absent.
    pub fn insert(&mut self, key: Tile, value: u8)
        ensures
            final(self)@ == old(self)@.insert(key, value),
    {
        let ghost old_view = self@;
        let k = key_of(key);
        self.cells.insert(k, value);
        proof {
            lemma_tile_key(key);
            assert forall|t: Tile| #[trigger] self@.contains_key(t) == old_view.insert(key, value).contains_key(t) by {
                lemma_tile_key(t);
            }
            assert forall|t: Tile| #[trigger] self@.contains_key(t) implies self@[t] == old_view.insert(key, value)[t] by {
                lemma_tile_key(t);
            }
            assert(self@ =~= old_view.insert(key, value));
        }
    }

    /// Remove the tile at `key` (no effect when absent).
    pub fn remove(&mut self, key: Tile)
        ensures
            final(self)@ == old(self)@.remove(key),
    {
        let ghost old_view = self@;
        let k = key_of(key);
        self.cells.remove(&k);
        proof {
            lemma_tile_key(key);
            assert forall|t: Tile| #[trigger] self@.contains_key(t) == old_view.remove(key).contains_key(t) by {
                lemma_tile_key(t);
            }
            assert forall|t: Tile| #[trigger] self@.contains_key(t) implies self@[t] == old_view.remove(key)[t] by {
                lemma_tile_key(t);
            }
            assert(self@ =~= old_view.remove(key));
        }
    }

    /// All `(tile, value)` pairs, each tile once, in the hash map's order.
    pub fn entries(&self) -> (s: Vec<TileEntry>)
        ensures
            lists_map(s@, self@),
    {
        let ghost v = vstd::std_specs::hash::spec_hash_map_iter(&self.cells).remaining();
        let mut out: Vec<TileEntry> = Vec::new();
        for kv in it: self.cells.iter()
            invariant
                it.seq() == v,
                out@.len() == it.index(),
                forall|i: int| 0 <= i < it.index() ==> #[trigger] out@[i] == (key_tile(*v[i].0), *v[i].1),
        {
            let (k, x) = kv;
            out.push((tile_of(*k), *x));
        }
        proof {
            let m = self.cells@;
            assert(out@.len() == v.len());
            assert forall|i: int| 0 <= i < out@.len() implies #[trigger] self@.contains_key(out@[i].0) && self@[out@[i].0] == out@[i].1 by {
                lemma_key_tile(*v[i].0);
                assert(m.contains_key(*v[i].0) && m[*v[i].0] == *v[i].1);
            }
            assert forall|a: int, b: int| 0 <= a < out@.len() && 0 <= b < out@.len() && a != b
                implies #[trigger] out@[a].0 != #[trigger] out@[b].0 by {
                lemma_key_tile(*v[a].0);
                lemma_key_tile(*v[b].0);
                assert(m.contains_key(*v[a].0) && m[*v[a].0] == *v[a].1);
                assert(m.contains_key(*v[b].0) && m[*v[b].0] == *v[b].1);
                if out@[a].0 == out@[b].0 {
                    assert(v[a] == v[b]);
                }
            }
            assert forall|t: Tile| #[trigger] self@.contains_key(t) implies exists|i: int| 0 <= i < out@.len() && out@[i].0 == t by {
                lemma_tile_key(t);
                let k = tile_key(t);
                assert(m.contains_key(k));
                assert(v.contains((&k, &m[k])));
                let i = choose|i: int| 0 <= i < v.len() && v[i] == (&k, &m[k]);
                assert(out@[i].0 == t);
            }
        }
        out
    }
}

} // verus!

verus! {

/// The three sparse resource tile maps and their per-tile regeneration
/// ceilings. A ceiling map is empty unless finite (scarce) sources were
/// registered.
#[derive(Debug)]
pub struct ResourceTiles {
    pub food_tiles: TileMap,
    pub water_tiles: TileMap,
    pub sleep_tiles: TileMap,
    pub food_source_max: TileMap,
    pub water_source_max: TileMap,
    pub sleep_source_max: TileMap,
}

impl ResourceTiles {
    /// All six maps empty.
    pub fn new() -> (r: ResourceTiles)
        ensures
            r.food_tiles@ == Map::<Tile, u8>::empty(),
            r.water_tiles@ == Map::<Tile, u8>::empty(),
            r.sleep_tiles@ == Map::<Tile, u8>::empty(),
            r.food_source_max@ == Map::<Tile, u8>::empty(),
            r.water_source_max@ == Map::<Tile, u8>::empty(),
            r.sleep_source_max@ == Map::<Tile, u8>::empty(),
    {
        ResourceTiles {
            food_tiles: TileMap::new(),
            water_tiles: TileMap::new(),
            sleep_tiles: TileMap::new(),
            food_source_max: TileMap::new(),
            water_source_max: TileMap::new(),
            sleep_source_max: TileMap::new(),
        }
    }
}

} // verus!
