use vstd::prelude::*;

verus! {

/// The shape of a shelter: a square wall ring of `wall_radius` around its
/// centre, with a door at offset `(door_dx, door_dy)`.
#[derive(Debug, Clone, Copy, PartialEq, Eq, Structural)]
pub struct ShelterLayout {
    pub wall_radius: i32,
    pub door_dx: i32,
    pub door_dy: i32,
}

/// Absolute value.
pub open spec fn abs_int(v: int) -> int {
    if v < 0 { -v } else { v }
}

/// `(dx, dy)` lies on the ring's perimeter and is not the door.
pub open spec fn is_wall_offset(l: ShelterLayout, dx: int, dy: int) -> bool {
    let r = l.wall_radius as int;
    &&& -r <= dx <= r && -r <= dy <= r
    &&& (abs_int(dx) == r || abs_int(dy) == r)
    &&& !(dx == l.door_dx && dy == l.door_dy)
}

/// Tile `(x, y)` is on a `width` by `height` grid.
pub open spec fn in_grid(x: int, y: int, width: u32, height: u32) -> bool {
    0 <= x < width && 0 <= y < height
}

/// Tile `t` is a wall tile of the ring around `(cx, cy)` that lies on the
/// grid.
pub open spec fn is_ring_tile(l: ShelterLayout, cx: i32, cy: i32, width: u32, height: u32, t: (i32, i32)) -> bool {
    is_wall_offset(l, t.0 - cx, t.1 - cy) && in_grid(t.0 as int, t.1 as int, width, height)
}

/// Row-major order on tiles: by row, then by column.
pub open spec fn row_major_lt(a: (i32, i32), b: (i32, i32)) -> bool {
    a.1 < b.1 || (a.1 == b.1 && a.0 < b.0)
}

/// Tiles strictly ascending in row-major order.
pub open spec fn row_major_ascending(s: Seq<(i32, i32)>) -> bool {
    forall|i: int, j: int| 0 <= i < j < s.len() ==> row_major_lt(#[trigger] s[i], #[trigger] s[j])
}

/// The ring's coordinates stay within `i32` around the centre.
pub open spec fn ring_fits(l: ShelterLayout, cx: i32, cy: i32) -> bool {
    &&& l.wall_radius >= 0
    &&& cx - l.wall_radius >= i32::MIN && cx + l.wall_radius <= i32::MAX
    &&& cy - l.wall_radius >= i32::MIN && cy + l.wall_radius <= i32::MAX
}

/// The whole square of the ring around `(cx, cy)` lies on the grid.
pub open spec fn ring_on_grid(l: ShelterLayout, cx: i32, cy: i32, width: u32, height: u32) -> bool {
    let r = l.wall_radius as int;
    cx - r >= 0 && cx + r < width && cy - r >= 0 && cy + r < height
}

/// The door lies on the ring's perimeter.
pub open spec fn door_on_perimeter(l: ShelterLayout) -> bool {
    let r = l.wall_radius as int;
    -r <= l.door_dx <= r && -r <= l.door_dy <= r && (abs_int(l.door_dx as int) == r || abs_int(l.door_dy as int) == r)
}

/// Number of perimeter offsets of a radius-`r` square (r at least one)
/// that come before `(dx, dy)` in row-major order.
pub open spec fn perimeter_before(r: int, dy: int, dx: int) -> int {
    let rows = if dy == -r { 0 } else if dy <= r { (2 * r + 1) + 2 * (dy + r - 1) } else { 8 * r };
    let within = if dy > r {
        0
    } else if dy == -r || dy == r {
        dx + r
    } else {
        (if dx > -r { 1int } else { 0int }) + (if dx > r { 1int } else { 0int })
    };
    rows + within
}

/// The door comes before `(dx, dy)` in row-major order and is on the
/// perimeter.
pub open spec fn door_before(l: ShelterLayout, dy: int, dx: int) -> bool {
    door_on_perimeter(l) && (l.door_dy < dy || (l.door_dy == dy && l.door_dx < dx))
}

/// The on-grid wall tiles of the shelter ring around `(cx, cy)`, in
/// row-major order (rows from top to bottom, each from left to right).
pub fn ring_tiles(l: ShelterLayout, cx: i32, cy: i32, width: u32, height: u32) -> (tiles: Vec<(i32, i32)>)
    requires
        ring_fits(l, cx, cy),
    ensures
        row_major_ascending(tiles@),
        forall|t: (i32, i32)| tiles@.contains(t) <==> is_ring_tile(l, cx, cy, width, height, t),
        ring_on_grid(l, cx, cy, width, height) && l.wall_radius >= 1
            ==> tiles@.len() == 8 * l.wall_radius - (if door_on_perimeter(l) { 1int } else { 0int }),
{
    let r: i64 = l.wall_radius as i64;
    let mut tiles: Vec<(i32, i32)> = Vec::new();
    let mut dy: i64 = -r;
    while dy <= r
        invariant
            r == l.wall_radius,
            ring_fits(l, cx, cy),
            -r <= dy <= r + 1,
            row_major_ascending(tiles@),
            forall|k: int| 0 <= k < tiles@.len() ==> (#[trigger] tiles@[k]).1 < cy + dy,
            forall|t: (i32, i32)| tiles@.contains(t) <==> (is_ring_tile(l, cx, cy, width, height, t) && t.1 < cy + dy),
            ring_on_grid(l, cx, cy, width, height) && r >= 1 ==> tiles@.len()
                == perimeter_before(r as int, dy as int, -r as int) - (if door_before(l, dy as int, -r as int) { 1int } else { 0int }),
        decreases r + 1 - dy,
    {
        let mut dx: i64 = -r;
        let ghost row_start = tiles@;
        while dx <= r
            invariant
                r == l.wall_radius,
                ring_fits(l, cx, cy),
                -r <= dy <= r,
                -r <= dx <= r + 1,
                row_major_ascending(tiles@),
                forall|k: int| 0 <= k < tiles@.len() ==> (#[trigger] tiles@[k]).1 < cy + dy
                    || ((tiles@[k]).1 == cy + dy && (tiles@[k]).0 < cx + dx),
                forall|t: (i32, i32)| tiles@.contains(t) <==> (is_ring_tile(l, cx, cy, width, height, t)
                    && (t.1 < cy + dy || (t.1 == cy + dy && t.0 < cx + dx))),
                ring_on_grid(l, cx, cy, width, height) && r >= 1 ==> tiles@.len()
                    == perimeter_before(r as int, dy as int, dx as int) - (if door_before(l, dy as int, dx as int) { 1int } else { 0int }),
            decreases r + 1 - dx,
        {
            let perimeter = dx == r || dx == -r || dy == r || dy == -r;
            let door = dx == l.door_dx as i64 && dy == l.door_dy as i64;
            let x: i32 = (cx as i64 + dx) as i32;
            let y: i32 = (cy as i64 + dy) as i32;
            let on_grid = x >= 0 && y >= 0 && (x as u32) < width && (y as u32) < height;
            let ghost before = tiles@;
            if perimeter && !door && on_grid {
                tiles.push((x, y));
            }
            proof {
                assert(perimeter == (abs_int(dx as int) == r || abs_int(dy as int) == r));
                assert(on_grid == in_grid(x as int, y as int, width, height));
                assert forall|t: (i32, i32)| tiles@.contains(t) <==> (is_ring_tile(l, cx, cy, width, height, t)
                    && (t.1 < cy + dy || (t.1 == cy + dy && t.0 < cx + dx + 1))) by {
                    if tiles@.contains(t) && !before.contains(t) {
                        let k = choose|k: int| 0 <= k < tiles@.len() && tiles@[k] == t;
                        if k < before.len() {
                            assert(before[k] == t);
                        }
                    }
                    if before.contains(t) {
                        let k = choose|k: int| 0 <= k < before.len() && before[k] == t;
                        assert(tiles@[k] == t);
                    }
                    if t == (x, y) && is_ring_tile(l, cx, cy, width, height, t) {
                        assert(tiles@[tiles@.len() - 1] == t);
                    }
                }
            }
            dx = dx + 1;
        }
        proof {
            if ring_on_grid(l, cx, cy, width, height) && r >= 1 {
                assert(perimeter_before(r as int, dy + 1, -r as int) == perimeter_before(r as int, dy as int, r + 1));
                assert(door_before(l, dy + 1, -r as int) == door_before(l, dy as int, r + 1));
            }
        }
        dy = dy + 1;
    }
    proof {
        if ring_on_grid(l, cx, cy, width, height) && r >= 1 {
            assert(perimeter_before(r as int, r + 1, -r as int) == 8 * r);
        }
    }
    tiles
}

/// Walls a complete ring needs: the perimeter of the `(2r+1)` square less
/// the door, and at least one.
pub open spec fn required_walls_spec(l: ShelterLayout) -> int {
    if 8 * l.wall_radius - 1 >= 1 { 8 * l.wall_radius - 1 } else { 1 }
}

/// With the door on the perimeter, the walls a ring needs are exactly the
/// wall tiles that [`ring_tiles`] lists for a ring wholly on the grid.
pub proof fn lemma_required_walls_match_ring(l: ShelterLayout)
    requires
        l.wall_radius >= 1,
        door_on_perimeter(l),
    ensures
        required_walls_spec(l) == 8 * l.wall_radius - 1,
{
}

/// Walls a complete ring needs.
pub fn required_walls(l: ShelterLayout) -> (n: i32)
    requires
        8 * l.wall_radius - 1 <= i32::MAX,
        8 * l.wall_radius - 1 >= i32::MIN,
    ensures
        n == required_walls_spec(l),
{
    let v: i64 = 8 * (l.wall_radius as i64) - 1;
    if v >= 1 { v as i32 } else { 1 }
}

/// The flag of tile `t` in a row-major grid of per-tile flags
/// (`flags[y * width + x]`), such as whether a tile has a wall.
pub open spec fn flag_at(flags: Seq<bool>, width: u32, t: (i32, i32)) -> bool {
    flags[t.1 * width + t.0]
}

/// Number of tiles of `tiles` that have a wall.
pub open spec fn walls_on(tiles: Seq<(i32, i32)>, walls: Seq<bool>, width: u32) -> nat
    decreases tiles.len(),
{
    if tiles.len() == 0 {
        0
    } else {
        walls_on(tiles.drop_last(), walls, width) + if flag_at(walls, width, tiles.last()) { 1nat } else { 0nat }
    }
}

/// Number of the ring's on-grid wall tiles that already have a wall.
pub fn count_ring_walls(l: ShelterLayout, cx: i32, cy: i32, width: u32, height: u32, walls: &Vec<bool>) -> (n: u64)
    requires
        ring_fits(l, cx, cy),
        walls@.len() == width * height,
    ensures
        exists|tiles: Seq<(i32, i32)>| {
            &&& row_major_ascending(tiles)
            &&& (forall|t: (i32, i32)| tiles.contains(t) <==> is_ring_tile(l, cx, cy, width, height, t))
            &&& n == walls_on(tiles, walls@, width)
        },
{
    let tiles = ring_tiles(l, cx, cy, width, height);
    let mut n: u64 = 0;
    let mut i: usize = 0;
    while i < tiles.len()
        invariant
            0 <= i <= tiles@.len(),
            walls@.len() == width * height,
            forall|t: (i32, i32)| tiles@.contains(t) <==> is_ring_tile(l, cx, cy, width, height, t),
            n == walls_on(tiles@.subrange(0, i as int), walls@, width),
            n <= i,
        decreases tiles@.len() - i,
    {
        let (x, y) = tiles[i];
        let len = walls.len();
        proof {
            assert(tiles@.contains(tiles@[i as int]));
            assert(0 <= x < width && 0 <= y < height);
            assert(y * width + x < width * height) by (nonlinear_arith)
                requires 0 <= x < width, 0 <= y < height;
            assert(tiles@.subrange(0, i + 1).drop_last() =~= tiles@.subrange(0, i as int));
            assert((y as u64) * (width as u64) + (x as u64) < len);
        }
        let idx = (y as u64 * width as u64 + x as u64) as usize;
        if walls[idx] {
            n = n + 1;
        }
        i = i + 1;
    }
    proof {
        assert(tiles@.subrange(0, tiles@.len() as int) =~= tiles@);
    }
    n
}

/// The ring around `(cx, cy)` is complete: at least the required number
/// of its tiles have walls.
pub fn shelter_walls_present(l: ShelterLayout, cx: i32, cy: i32, width: u32, height: u32, walls: &Vec<bool>) -> (b: bool)
    requires
        ring_fits(l, cx, cy),
        walls@.len() == width * height,
        8 * l.wall_radius - 1 <= i32::MAX,
    ensures
        exists|tiles: Seq<(i32, i32)>| {
            &&& row_major_ascending(tiles)
            &&& (forall|t: (i32, i32)| tiles.contains(t) <==> is_ring_tile(l, cx, cy, width, height, t))
            &&& b == (walls_on(tiles, walls@, width) >= required_walls_spec(l))
        },
{
    let n = count_ring_walls(l, cx, cy, width, height, walls);
    let required = required_walls(l);
    proof {
        let tiles = choose|tiles: Seq<(i32, i32)>| {
            &&& row_major_ascending(tiles)
            &&& (forall|t: (i32, i32)| tiles.contains(t) <==> is_ring_tile(l, cx, cy, width, height, t))
            &&& n == walls_on(tiles, walls@, width)
        };
        assert(row_major_ascending(tiles));
        assert((n >= required as u64) == (walls_on(tiles, walls@, width) >= required_walls_spec(l)));
    }
    n >= required as u64
}

/// The ring around `(cx, cy)` is substantially built: at most two of the
/// required walls are missing.
pub fn shelter_nearly_complete(l: ShelterLayout, cx: i32, cy: i32, width: u32, height: u32, walls: &Vec<bool>) -> (b: bool)
    requires
        ring_fits(l, cx, cy),
        walls@.len() == width * height,
        8 * l.wall_radius - 1 <= i32::MAX,
    ensures
        exists|tiles: Seq<(i32, i32)>| {
            &&& row_major_ascending(tiles)
            &&& (forall|t: (i32, i32)| tiles.contains(t) <==> is_ring_tile(l, cx, cy, width, height, t))
            &&& b == (walls_on(tiles, walls@, width) >= required_walls_spec(l) - 2)
        },
{
    let n = count_ring_walls(l, cx, cy, width, height, walls);
    let required = required_walls(l);
    proof {
        let tiles = choose|tiles: Seq<(i32, i32)>| {
            &&& row_major_ascending(tiles)
            &&& (forall|t: (i32, i32)| tiles.contains(t) <==> is_ring_tile(l, cx, cy, width, height, t))
            &&& n == walls_on(tiles, walls@, width)
        };
        assert(row_major_ascending(tiles));
        assert((required <= 2 || n >= (required - 2) as u64) == (walls_on(tiles, walls@, width) >= required_walls_spec(l) - 2));
    }
    required <= 2 || n >= (required - 2) as u64
}

/// A building's footprint: `width` by `height` tiles from `(x, y)`.
#[derive(Debug, Clone, Copy, PartialEq, Eq, Structural)]
pub struct Footprint {
    pub x: i32,
    pub y: i32,
    pub width: u32,
    pub height: u32,
}

/// The footprint shares a tile with the `w` by `h` box at `(x, y)`.
pub open spec fn overlaps_spec(f: Footprint, x: int, y: int, w: int, h: int) -> bool {
    f.x < x + w && x < f.x + f.width && f.y < y + h && y < f.y + f.height
}

/// Tile `(tx, ty)` lies both in the footprint and in the `w` by `h` box at
/// `(x, y)`.
pub open spec fn shares_tile(f: Footprint, x: int, y: int, w: int, h: int, tx: int, ty: int) -> bool {
    &&& f.x <= tx < f.x + f.width && x <= tx < x + w
    &&& f.y <= ty < f.y + f.height && y <= ty < y + h
}

/// Whether the footprint shares a tile with the `w` by `h` box at `(x, y)`.
pub fn overlaps(f: Footprint, x: i32, y: i32, w: u32, h: u32) -> (b: bool)
    ensures
        b == overlaps_spec(f, x as int, y as int, w as int, h as int),
        f.width > 0 && f.height > 0 && w > 0 && h > 0 ==> (b <==> exists|tx: int, ty: int|
            #![trigger shares_tile(f, x as int, y as int, w as int, h as int, tx, ty)]
            shares_tile(f, x as int, y as int, w as int, h as int, tx, ty)),
{
    proof {
        let tx = if f.x >= x { f.x as int } else { x as int };
        let ty = if f.y >= y { f.y as int } else { y as int };
        if overlaps_spec(f, x as int, y as int, w as int, h as int) && f.width > 0 && f.height > 0 && w > 0 && h > 0 {
            assert(shares_tile(f, x as int, y as int, w as int, h as int, tx, ty));
        }
    }
    (f.x as i64) < (x as i64) + (w as i64) && (x as i64) < (f.x as i64) + (f.width as i64)
        && (f.y as i64) < (y as i64) + (h as i64) && (y as i64) < (f.y as i64) + (f.height as i64)
}

/// Whether any footprint covers tile `(x, y)`.
pub open spec fn tile_occupied(bs: Seq<Footprint>, x: int, y: int) -> bool {
    exists|i: int| 0 <= i < bs.len() && overlaps_spec(#[trigger] bs[i], x, y, 1, 1)
}

/// Whether any footprint covers tile `(x, y)`.
pub fn any_overlap(bs: &Vec<Footprint>, x: i32, y: i32) -> (b: bool)
    ensures
        b == tile_occupied(bs@, x as int, y as int),
{
    let mut i: usize = 0;
    while i < bs.len()
        invariant
            0 <= i <= bs@.len(),
            forall|j: int| 0 <= j < i ==> !overlaps_spec(#[trigger] bs@[j], x as int, y as int, 1, 1),
        decreases bs@.len() - i,
    {
        if overlaps(bs[i], x, y, 1, 1) {
            return true;
        }
        i = i + 1;
    }
    false
}

/// A planned build on one tile.
#[derive(Debug, Clone, Copy, PartialEq, Eq, Structural)]
pub struct PlannedTile {
    pub id: u64,
    pub x: i32,
    pub y: i32,
}

/// `a + b` saturated at `u64::MAX`.
pub open spec fn sat_add(a: u64, b: int) -> u64 {
    if a + b > u64::MAX { u64::MAX } else { (a + b) as u64 }
}

/// A ring tile still needs a wall plan: no building covers it and it has
/// no wall.
pub open spec fn needs_wall_plan(bs: Seq<Footprint>, walls: Seq<bool>, width: u32, t: (i32, i32)) -> bool {
    !tile_occupied(bs, t.0 as int, t.1 as int) && !flag_at(walls, width, t)
}

/// Wall plans for the ring around `(cx, cy)`: one per on-grid ring tile,
/// in row-major order, that no building covers and that has no wall yet.
/// Plan ids are taken from `next_plan_id`, which advances by one per plan
/// (saturating).
pub fn wall_ring_plans(
    l: ShelterLayout,
    cx: i32,
    cy: i32,
    width: u32,
    height: u32,
    walls: &Vec<bool>,
    buildings: &Vec<Footprint>,
    next_plan_id: &mut u64,
) -> (plans: Vec<PlannedTile>)
    requires
        ring_fits(l, cx, cy),
        walls@.len() == width * height,
    ensures
        exists|tiles: Seq<(i32, i32)>| {
            &&& row_major_ascending(tiles)
            &&& (forall|t: (i32, i32)| tiles.contains(t) <==> is_ring_tile(l, cx, cy, width, height, t))
            &&& plans@.map_values(|p: PlannedTile| (p.x, p.y))
                == tiles.filter(|t: (i32, i32)| needs_wall_plan(buildings@, walls@, width, t))
        },
        forall|k: int| 0 <= k < plans@.len() ==> (#[trigger] plans@[k]).id == sat_add(*old(next_plan_id), k),
        *final(next_plan_id) == sat_add(*old(next_plan_id), plans@.len() as int),
{
    let tiles = ring_tiles(l, cx, cy, width, height);
    let ghost pred = |t: (i32, i32)| needs_wall_plan(buildings@, walls@, width, t);
    let mut plans: Vec<PlannedTile> = Vec::new();
    let mut i: usize = 0;
    while i < tiles.len()
        invariant
            0 <= i <= tiles@.len(),
            walls@.len() == width * height,
            forall|t: (i32, i32)| tiles@.contains(t) <==> is_ring_tile(l, cx, cy, width, height, t),
            pred == (|t: (i32, i32)| needs_wall_plan(buildings@, walls@, width, t)),
            plans@.map_values(|p: PlannedTile| (p.x, p.y)) == tiles@.subrange(0, i as int).filter(pred),
            forall|k: int| 0 <= k < plans@.len() ==> (#[trigger] plans@[k]).id == sat_add(*old(next_plan_id), k),
            *next_plan_id == sat_add(*old(next_plan_id), plans@.len() as int),
        decreases tiles@.len() - i,
    {
        let (x, y) = tiles[i];
        let len = walls.len();
        proof {
            assert(tiles@.contains(tiles@[i as int]));
            assert(y * width + x < width * height) by (nonlinear_arith)
                requires 0 <= x < width, 0 <= y < height;
            assert((y as u64) * (width as u64) + (x as u64) < len);
            let pre = tiles@.subrange(0, i as int);
            assert(tiles@.subrange(0, i + 1) =~= pre.push((x, y)));
            pre.lemma_filter_push((x, y), pred);
        }
        let idx = (y as u64 * width as u64 + x as u64) as usize;
        if !any_overlap(buildings, x, y) && !walls[idx] {
            let id = *next_plan_id;
            *next_plan_id = id.saturating_add(1);
            let ghost before = plans@;
            plans.push(PlannedTile { id, x, y });
            proof {
                assert(plans@.map_values(|p: PlannedTile| (p.x, p.y))
                    =~= before.map_values(|p: PlannedTile| (p.x, p.y)).push((x, y)));
            }
        }
        i = i + 1;
    }
    proof {
        assert(tiles@.subrange(0, tiles@.len() as int) =~= tiles@);
    }
    plans
}

/// The fire-pit plan at a shelter's centre: one, with the next plan id,
/// when the centre is on the grid and holds no furniture yet.
pub fn fire_pit_plan(cx: i32, cy: i32, width: u32, height: u32, furniture: &Vec<bool>, next_plan_id: &mut u64) -> (plan: Option<PlannedTile>)
    requires
        furniture@.len() == width * height,
    ensures
        plan is Some <==> (in_grid(cx as int, cy as int, width, height) && !furniture@[cy * width + cx]),
        plan is Some ==> plan.unwrap() == (PlannedTile { id: *old(next_plan_id), x: cx, y: cy })
            && *final(next_plan_id) == sat_add(*old(next_plan_id), 1),
        plan is None ==> *final(next_plan_id) == *old(next_plan_id),
{
    if cx < 0 || cy < 0 || cx as u32 >= width || cy as u32 >= height {
        return None;
    }
    let len = furniture.len();
    proof {
        assert(cy * width + cx < width * height) by (nonlinear_arith)
            requires 0 <= cx < width, 0 <= cy < height;
        assert((cy as u64) * (width as u64) + (cx as u64) < len);
    }
    let idx = (cy as u64 * width as u64 + cx as u64) as usize;
    if furniture[idx] {
        return None;
    }
    let id = *next_plan_id;
    *next_plan_id = id.saturating_add(1);
    Some(PlannedTile { id, x: cx, y: cy })
}

/// The tile at an offset from `(cx, cy)`.
pub open spec fn offset_tile(cx: i32, cy: i32, d: (i32, i32)) -> (i32, i32) {
    ((cx + d.0) as i32, (cy + d.1) as i32)
}

/// Every offset from `(cx, cy)` stays within `i32`.
pub open spec fn offsets_fit(cx: i32, cy: i32, ds: Seq<(i32, i32)>) -> bool {
    forall|k: int| 0 <= k < ds.len() ==> {
        let d = #[trigger] ds[k];
        i32::MIN <= cx + d.0 <= i32::MAX && i32::MIN <= cy + d.1 <= i32::MAX
    }
}

/// The tiles at `ds` from `(cx, cy)`, in order.
pub open spec fn offset_tiles(cx: i32, cy: i32, ds: Seq<(i32, i32)>) -> Seq<(i32, i32)> {
    ds.map_values(|d: (i32, i32)| offset_tile(cx, cy, d))
}

/// The tile is on a `width` by `height` grid.
pub open spec fn tile_in_grid(width: u32, height: u32) -> spec_fn((i32, i32)) -> bool {
    |t: (i32, i32)| in_grid(t.0 as int, t.1 as int, width, height)
}

/// Whether a tile is on the grid, and its row-major index when it is.
fn grid_index(t: (i32, i32), width: u32, height: u32, len: usize) -> (r: Option<usize>)
    requires
        len == width * height,
    ensures
        r is Some <==> in_grid(t.0 as int, t.1 as int, width, height),
        r is Some ==> r.unwrap() == t.1 * width + t.0 && r.unwrap() < len,
{
    if t.0 < 0 || t.1 < 0 || t.0 as u32 >= width || t.1 as u32 >= height {
        return None;
    }
    proof {
        assert(t.1 * width + t.0 < width * height) by (nonlinear_arith)
            requires 0 <= t.0 < width, 0 <= t.1 < height;
    }
    Some((t.1 as u64 * width as u64 + t.0 as u64) as usize)
}

/// Wall plans for a blueprint's wall offsets around `(cx, cy)`: one per
/// offset, in order, whose tile is on the grid, not covered by a building
/// and without a wall. Plan ids come from `next_plan_id` (saturating).
pub fn blueprint_wall_plans(
    offsets: &Vec<(i32, i32)>,
    cx: i32,
    cy: i32,
    width: u32,
    height: u32,
    walls: &Vec<bool>,
    buildings: &Vec<Footprint>,
    next_plan_id: &mut u64,
) -> (plans: Vec<PlannedTile>)
    requires
        offsets_fit(cx, cy, offsets@),
        walls@.len() == width * height,
    ensures
        plans@.map_values(|p: PlannedTile| (p.x, p.y))
            == offset_tiles(cx, cy, offsets@).filter(|t: (i32, i32)|
                in_grid(t.0 as int, t.1 as int, width, height) && needs_wall_plan(buildings@, walls@, width, t)),
        forall|k: int| 0 <= k < plans@.len() ==> (#[trigger] plans@[k]).id == sat_add(*old(next_plan_id), k),
        *final(next_plan_id) == sat_add(*old(next_plan_id), plans@.len() as int),
{
    let ghost tiles = offset_tiles(cx, cy, offsets@);
    let ghost pred = |t: (i32, i32)| in_grid(t.0 as int, t.1 as int, width, height) && needs_wall_plan(buildings@, walls@, width, t);
    let mut plans: Vec<PlannedTile> = Vec::new();
    let mut i: usize = 0;
    while i < offsets.len()
        invariant
            0 <= i <= offsets@.len(),
            offsets_fit(cx, cy, offsets@),
            walls@.len() == width * height,
            tiles == offset_tiles(cx, cy, offsets@),
            pred == (|t: (i32, i32)| in_grid(t.0 as int, t.1 as int, width, height) && needs_wall_plan(buildings@, walls@, width, t)),
            plans@.map_values(|p: PlannedTile| (p.x, p.y)) == tiles.subrange(0, i as int).filter(pred),
            forall|k: int| 0 <= k < plans@.len() ==> (#[trigger] plans@[k]).id == sat_add(*old(next_plan_id), k),
            *next_plan_id == sat_add(*old(next_plan_id), plans@.len() as int),
        decreases offsets@.len() - i,
    {
        let d = offsets[i];
        let t: (i32, i32) = (cx + d.0, cy + d.1);
        proof {
            assert(tiles[i as int] == t);
            let pre = tiles.subrange(0, i as int);
            assert(tiles.subrange(0, i + 1) =~= pre.push(t));
            pre.lemma_filter_push(t, pred);
        }
        match grid_index(t, width, height, walls.len()) {
            Some(idx) => {
                if !any_overlap(buildings, t.0, t.1) && !walls[idx] {
                    let id = *next_plan_id;
                    *next_plan_id = id.saturating_add(1);
                    let ghost before = plans@;
                    plans.push(PlannedTile { id, x: t.0, y: t.1 });
                    proof {
                        assert(plans@.map_values(|p: PlannedTile| (p.x, p.y))
                            =~= before.map_values(|p: PlannedTile| (p.x, p.y)).push(t));
                    }
                }
            },
            None => {},
        }
        i = i + 1;
    }
    proof {
        assert(tiles.subrange(0, tiles.len() as int) =~= tiles);
    }
    plans
}

/// Furniture plans for a blueprint's furniture offsets around `(cx, cy)`:
/// one per offset, in order, whose tile is on the grid and holds no
/// furniture. Plan ids come from `next_plan_id` (saturating).
pub fn blueprint_furniture_plans(
    offsets: &Vec<(i32, i32)>,
    cx: i32,
    cy: i32,
    width: u32,
    height: u32,
    furniture: &Vec<bool>,
    next_plan_id: &mut u64,
) -> (plans: Vec<PlannedTile>)
    requires
        offsets_fit(cx, cy, offsets@),
        furniture@.len() == width * height,
    ensures
        plans@.map_values(|p: PlannedTile| (p.x, p.y))
            == offset_tiles(cx, cy, offsets@).filter(|t: (i32, i32)|
                in_grid(t.0 as int, t.1 as int, width, height) && !flag_at(furniture@, width, t)),
        forall|k: int| 0 <= k < plans@.len() ==> (#[trigger] plans@[k]).id == sat_add(*old(next_plan_id), k),
        *final(next_plan_id) == sat_add(*old(next_plan_id), plans@.len() as int),
{
    let ghost tiles = offset_tiles(cx, cy, offsets@);
    let ghost pred = |t: (i32, i32)| in_grid(t.0 as int, t.1 as int, width, height) && !flag_at(furniture@, width, t);
    let mut plans: Vec<PlannedTile> = Vec::new();
    let mut i: usize = 0;
    while i < offsets.len()
        invariant
            0 <= i <= offsets@.len(),
            offsets_fit(cx, cy, offsets@),
            furniture@.len() == width * height,
            tiles == offset_tiles(cx, cy, offsets@),
            pred == (|t: (i32, i32)| in_grid(t.0 as int, t.1 as int, width, height) && !flag_at(furniture@, width, t)),
            plans@.map_values(|p: PlannedTile| (p.x, p.y)) == tiles.subrange(0, i as int).filter(pred),
            forall|k: int| 0 <= k < plans@.len() ==> (#[trigger] plans@[k]).id == sat_add(*old(next_plan_id), k),
            *next_plan_id == sat_add(*old(next_plan_id), plans@.len() as int),
        decreases offsets@.len() - i,
    {
        let d = offsets[i];
        let t: (i32, i32) = (cx + d.0, cy + d.1);
        proof {
            assert(tiles[i as int] == t);
            let pre = tiles.subrange(0, i as int);
            assert(tiles.subrange(0, i + 1) =~= pre.push(t));
            pre.lemma_filter_push(t, pred);
        }
        match grid_index(t, width, height, furniture.len()) {
            Some(idx) => {
                if !furniture[idx] {
                    let id = *next_plan_id;
                    *next_plan_id = id.saturating_add(1);
                    let ghost before = plans@;
                    plans.push(PlannedTile { id, x: t.0, y: t.1 });
                    proof {
                        assert(plans@.map_values(|p: PlannedTile| (p.x, p.y))
                            =~= before.map_values(|p: PlannedTile| (p.x, p.y)).push(t));
                    }
                }
            },
            None => {},
        }
        i = i + 1;
    }
    proof {
        assert(tiles.subrange(0, tiles.len() as int) =~= tiles);
    }
    plans
}

/// The on-grid tiles at `offsets` from `(cx, cy)`, in order: where a
/// blueprint's floors are laid and its doors marked.
pub fn blueprint_tiles_on_grid(offsets: &Vec<(i32, i32)>, cx: i32, cy: i32, width: u32, height: u32) -> (tiles: Vec<(i32, i32)>)
    requires
        offsets_fit(cx, cy, offsets@),
    ensures
        tiles@ == offset_tiles(cx, cy, offsets@).filter(tile_in_grid(width, height)),
{
    let ghost all = offset_tiles(cx, cy, offsets@);
    let mut out: Vec<(i32, i32)> = Vec::new();
    let mut i: usize = 0;
    while i < offsets.len()
        invariant
            0 <= i <= offsets@.len(),
            offsets_fit(cx, cy, offsets@),
            all == offset_tiles(cx, cy, offsets@),
            out@ == all.subrange(0, i as int).filter(tile_in_grid(width, height)),
        decreases offsets@.len() - i,
    {
        let d = offsets[i];
        let t: (i32, i32) = (cx + d.0, cy + d.1);
        proof {
            assert(all[i as int] == t);
            let pre = all.subrange(0, i as int);
            assert(all.subrange(0, i + 1) =~= pre.push(t));
            pre.lemma_filter_push(t, tile_in_grid(width, height));
        }
        if t.0 >= 0 && t.1 >= 0 && (t.0 as u32) < width && (t.1 as u32) < height {
            out.push(t);
        }
        i = i + 1;
    }
    proof {
        assert(all.subrange(0, all.len() as int) =~= all);
    }
    out
}

} // verus!
