use vstd::prelude::*;

use crate::economy::EarlyStructurePlan;
use crate::shelter::{
    is_ring_tile, overlaps, overlaps_spec, required_walls_spec, ring_fits, row_major_ascending, shelter_nearly_complete, walls_on,
    Footprint, ShelterLayout,
};
use crate::settlement::{contains_id, distinct_ids, insert_id, sort_ids};
use crate::text::str_eq;

verus! {

/// What a settlement has built or is building, as the early-structure
/// planner sees it.
#[derive(Debug, Clone, Copy, PartialEq, Eq, Structural)]
pub struct ConstructionSnapshot {
    pub has_stockpile: bool,
    pub has_campfire: bool,
    pub has_incomplete_site: bool,
    pub complete_shelter_count: usize,
    pub has_incomplete_shelter: bool,
}

/// A building record: its settlement, type and whether it is finished.
#[derive(Debug)]
pub struct SiteBuilding {
    pub settlement: u64,
    pub building_type: String,
    pub is_complete: bool,
}

/// Number of finished shelters of settlement `sid`.
pub open spec fn complete_shelters(bs: Seq<SiteBuilding>, sid: u64) -> nat
    decreases bs.len(),
{
    if bs.len() == 0 {
        0
    } else {
        let b = bs.last();
        complete_shelters(bs.drop_last(), sid)
            + if b.settlement == sid && b.building_type@ == "shelter"@ && b.is_complete { 1nat } else { 0nat }
    }
}

/// Some building of settlement `sid` satisfies `p`.
pub open spec fn some_building(bs: Seq<SiteBuilding>, sid: u64, p: spec_fn(SiteBuilding) -> bool) -> bool {
    exists|i: int| 0 <= i < bs.len() && bs[i].settlement == sid && p(#[trigger] bs[i])
}

/// The snapshot of settlement `sid` from its building records, given
/// whether it has wall or furniture plans outstanding and whether its wall
/// ring is complete.
pub open spec fn snapshot_spec(bs: Seq<SiteBuilding>, sid: u64, has_pending_plan: bool, walls_present: bool) -> ConstructionSnapshot {
    let count = complete_shelters(bs, sid);
    let raised = if count >= 1 { count } else { 1 };
    ConstructionSnapshot {
        has_stockpile: some_building(bs, sid, |b: SiteBuilding| b.building_type@ == "stockpile"@),
        has_campfire: some_building(bs, sid, |b: SiteBuilding| b.building_type@ == "campfire"@),
        has_incomplete_site: some_building(bs, sid, |b: SiteBuilding| !b.is_complete),
        complete_shelter_count: (if has_pending_plan || walls_present { raised } else { count }) as usize,
        has_incomplete_shelter: has_pending_plan
            || some_building(bs, sid, |b: SiteBuilding| b.building_type@ == "shelter"@ && !b.is_complete),
    }
}

/// No finished shelter of `sid` is counted exactly when none is listed.
proof fn lemma_complete_shelters_zero(bs: Seq<SiteBuilding>, sid: u64)
    ensures
        complete_shelters(bs, sid) == 0 <==> forall|i: int| 0 <= i < bs.len() ==>
            !((#[trigger] bs[i]).settlement == sid && bs[i].building_type@ == "shelter"@ && bs[i].is_complete),
    decreases bs.len(),
{
    if bs.len() > 0 {
        let d = bs.drop_last();
        lemma_complete_shelters_zero(d, sid);
        assert forall|i: int| 0 <= i < d.len() implies #[trigger] d[i] == bs[i] by {}
        let n = bs.len() - 1;
        assert(bs.last() == bs[n]);
        if complete_shelters(bs, sid) == 0 {
            assert forall|i: int| 0 <= i < bs.len() implies !((#[trigger] bs[i]).settlement == sid
                && bs[i].building_type@ == "shelter"@ && bs[i].is_complete) by {
                if i < n {
                    assert(d[i] == bs[i]);
                }
            }
        } else {
            if forall|i: int| 0 <= i < bs.len() ==> !((#[trigger] bs[i]).settlement == sid
                && bs[i].building_type@ == "shelter"@ && bs[i].is_complete) {
                assert forall|i: int| 0 <= i < d.len() implies !((#[trigger] d[i]).settlement == sid
                    && d[i].building_type@ == "shelter"@ && d[i].is_complete) by {
                    assert(d[i] == bs[i]);
                }
                assert(!(bs[n].settlement == sid && bs[n].building_type@ == "shelter"@ && bs[n].is_complete));
            }
        }
    }
}

/// Summarise settlement `sid`'s construction state. Outstanding wall or
/// furniture plans count as a shelter under construction and as one
/// shelter of capacity; a complete wall ring counts as one shelter.
pub fn settlement_construction_snapshot(
    buildings: &Vec<SiteBuilding>,
    sid: u64,
    has_pending_plan: bool,
    walls_present: bool,
) -> (s: ConstructionSnapshot)
    ensures
        s == snapshot_spec(buildings@, sid, has_pending_plan, walls_present),
        s.has_stockpile <==> exists|i: int| 0 <= i < buildings@.len() && (#[trigger] buildings@[i]).settlement == sid
            && buildings@[i].building_type@ == "stockpile"@,
        s.has_campfire <==> exists|i: int| 0 <= i < buildings@.len() && (#[trigger] buildings@[i]).settlement == sid
            && buildings@[i].building_type@ == "campfire"@,
        s.has_incomplete_site <==> exists|i: int| 0 <= i < buildings@.len() && (#[trigger] buildings@[i]).settlement == sid
            && !buildings@[i].is_complete,
        s.has_incomplete_shelter <==> (has_pending_plan || exists|i: int| 0 <= i < buildings@.len()
            && (#[trigger] buildings@[i]).settlement == sid && buildings@[i].building_type@ == "shelter"@ && !buildings@[i].is_complete),
        (has_pending_plan || walls_present) ==> s.complete_shelter_count >= 1,
        s.complete_shelter_count == 0 <==> (!has_pending_plan && !walls_present && forall|i: int| 0 <= i < buildings@.len()
            ==> !((#[trigger] buildings@[i]).settlement == sid && buildings@[i].building_type@ == "shelter"@ && buildings@[i].is_complete)),
{
    let mut s = ConstructionSnapshot {
        has_stockpile: false,
        has_campfire: false,
        has_incomplete_site: false,
        complete_shelter_count: 0,
        has_incomplete_shelter: false,
    };
    let mut i: usize = 0;
    while i < buildings.len()
        invariant
            0 <= i <= buildings@.len(),
            s.complete_shelter_count == complete_shelters(buildings@.subrange(0, i as int), sid),
            s.complete_shelter_count <= i,
            s.has_stockpile == some_building(buildings@.subrange(0, i as int), sid, |b: SiteBuilding| b.building_type@ == "stockpile"@),
            s.has_campfire == some_building(buildings@.subrange(0, i as int), sid, |b: SiteBuilding| b.building_type@ == "campfire"@),
            s.has_incomplete_site == some_building(buildings@.subrange(0, i as int), sid, |b: SiteBuilding| !b.is_complete),
            s.has_incomplete_shelter == some_building(buildings@.subrange(0, i as int), sid,
                |b: SiteBuilding| b.building_type@ == "shelter"@ && !b.is_complete),
        decreases buildings@.len() - i,
    {
        let b = &buildings[i];
        let ghost pre = buildings@.subrange(0, i as int);
        let ghost next = buildings@.subrange(0, i + 1);
        proof {
            reveal_strlit("stockpile");
            reveal_strlit("campfire");
            reveal_strlit("shelter");
            assert("stockpile"@.len() == 9);
            assert("campfire"@.len() == 8);
            assert("shelter"@.len() == 7);
            assert("stockpile"@ != "shelter"@);
            assert("stockpile"@ != "campfire"@);
            assert("campfire"@ != "shelter"@);
            assert(next.drop_last() =~= pre);
            assert(next.last() == *b);
            assert forall|p: spec_fn(SiteBuilding) -> bool| #[trigger] some_building(next, sid, p)
                == (some_building(pre, sid, p) || (b.settlement == sid && p(*b))) by {
                if some_building(pre, sid, p) {
                    let j = choose|j: int| 0 <= j < pre.len() && pre[j].settlement == sid && p(#[trigger] pre[j]);
                    assert(next[j] == pre[j]);
                }
                if some_building(next, sid, p) && !(b.settlement == sid && p(*b)) {
                    let j = choose|j: int| 0 <= j < next.len() && next[j].settlement == sid && p(#[trigger] next[j]);
                    assert(j < i);
                    assert(pre[j] == next[j]);
                }
                if b.settlement == sid && p(*b) {
                    assert(next[i as int] == *b);
                }
            }
        }
        if b.settlement == sid {
            if !b.is_complete {
                s.has_incomplete_site = true;
            }
            let t = b.building_type.as_str();
            if str_eq(t, "stockpile") {
                s.has_stockpile = true;
            } else if str_eq(t, "campfire") {
                s.has_campfire = true;
            } else if str_eq(t, "shelter") {
                if b.is_complete {
                    s.complete_shelter_count = s.complete_shelter_count + 1;
                } else {
                    s.has_incomplete_shelter = true;
                }
            }
        }
        i = i + 1;
    }
    proof {
        assert(buildings@.subrange(0, buildings@.len() as int) =~= buildings@);
    }
    if has_pending_plan {
        s.has_incomplete_shelter = true;
        if s.complete_shelter_count < 1 {
            s.complete_shelter_count = 1;
        }
    } else if walls_present {
        if s.complete_shelter_count < 1 {
            s.complete_shelter_count = 1;
        }
    }
    proof {
        lemma_complete_shelters_zero(buildings@, sid);
    }
    s
}

/// Which structure a settlement should start next, if any: none while a
/// site is unfinished; else a stockpile if it has none and can place one;
/// else a campfire likewise; else a shelter when the shelters' capacity is
/// below the living adults, no shelter is under way and one can be placed.
pub open spec fn early_plan_spec(
    snapshot: ConstructionSnapshot,
    alive_adults: usize,
    shelter_capacity: usize,
    can_place_stockpile: bool,
    can_place_campfire: bool,
    can_place_shelter: bool,
) -> Option<EarlyStructurePlan> {
    if snapshot.has_incomplete_site {
        None
    } else if !snapshot.has_stockpile && can_place_stockpile {
        Some(EarlyStructurePlan::Stockpile)
    } else if !snapshot.has_campfire && can_place_campfire {
        Some(EarlyStructurePlan::Campfire)
    } else if snapshot.complete_shelter_count * shelter_capacity < alive_adults && !snapshot.has_incomplete_shelter
        && can_place_shelter {
        Some(EarlyStructurePlan::Shelter)
    } else {
        None
    }
}

/// No-duplicate law: nothing is started while a site is unfinished, a
/// second shelter is never planned while one is under way, and a shelter
/// is planned only when the finished shelters house fewer than the living
/// adults and one can be placed.
pub proof fn lemma_no_duplicate_shelter(
    snapshot: ConstructionSnapshot,
    alive_adults: usize,
    shelter_capacity: usize,
    can_place_stockpile: bool,
    can_place_campfire: bool,
    can_place_shelter: bool,
)
    ensures
        snapshot.has_incomplete_site ==> early_plan_spec(snapshot, alive_adults, shelter_capacity, can_place_stockpile,
            can_place_campfire, can_place_shelter) is None,
        snapshot.has_incomplete_shelter ==> early_plan_spec(snapshot, alive_adults, shelter_capacity, can_place_stockpile,
            can_place_campfire, can_place_shelter) != Some(EarlyStructurePlan::Shelter),
        early_plan_spec(snapshot, alive_adults, shelter_capacity, can_place_stockpile, can_place_campfire, can_place_shelter)
            == Some(EarlyStructurePlan::Shelter) ==> can_place_shelter
            && snapshot.complete_shelter_count * shelter_capacity < alive_adults,
        early_plan_spec(snapshot, alive_adults, shelter_capacity, can_place_stockpile, can_place_campfire, can_place_shelter)
            == Some(EarlyStructurePlan::Stockpile) ==> !snapshot.has_stockpile && can_place_stockpile,
        early_plan_spec(snapshot, alive_adults, shelter_capacity, can_place_stockpile, can_place_campfire, can_place_shelter)
            == Some(EarlyStructurePlan::Campfire) ==> !snapshot.has_campfire && can_place_campfire,
{
}

/// Which structure a settlement should start next. `shelter_capacity` is
/// the number of adults one shelter houses; `can_place_*` say whether the
/// structure is defined and affordable.
pub fn choose_early_structure_plan(
    snapshot: ConstructionSnapshot,
    alive_adults: usize,
    shelter_capacity: usize,
    can_place_stockpile: bool,
    can_place_campfire: bool,
    can_place_shelter: bool,
) -> (plan: Option<EarlyStructurePlan>)
    requires
        snapshot.complete_shelter_count * shelter_capacity <= usize::MAX,
    ensures
        plan == early_plan_spec(snapshot, alive_adults, shelter_capacity, can_place_stockpile, can_place_campfire, can_place_shelter),
        snapshot.has_incomplete_site ==> plan is None,
        plan == Some(EarlyStructurePlan::Stockpile) <==> (!snapshot.has_incomplete_site && !snapshot.has_stockpile
            && can_place_stockpile),
        plan == Some(EarlyStructurePlan::Campfire) <==> (!snapshot.has_incomplete_site
            && !(!snapshot.has_stockpile && can_place_stockpile) && !snapshot.has_campfire && can_place_campfire),
        plan == Some(EarlyStructurePlan::Shelter) <==> (!snapshot.has_incomplete_site
            && !(!snapshot.has_stockpile && can_place_stockpile) && !(!snapshot.has_campfire && can_place_campfire)
            && snapshot.complete_shelter_count * shelter_capacity < alive_adults && !snapshot.has_incomplete_shelter
            && can_place_shelter),
        snapshot.has_incomplete_shelter ==> plan != Some(EarlyStructurePlan::Shelter),
{
    if snapshot.has_incomplete_site {
        return None;
    }
    if !snapshot.has_stockpile && can_place_stockpile {
        return Some(EarlyStructurePlan::Stockpile);
    }
    if !snapshot.has_campfire && can_place_campfire {
        return Some(EarlyStructurePlan::Campfire);
    }
    let capacity = snapshot.complete_shelter_count * shelter_capacity;
    if capacity < alive_adults && !snapshot.has_incomplete_shelter && can_place_shelter {
        return Some(EarlyStructurePlan::Shelter);
    }
    None
}

/// The next free building id: one more than the largest id in use, or 1.
pub fn next_building_id(ids: &Vec<u64>) -> (id: u64)
    requires
        forall|i: int| 0 <= i < ids@.len() ==> #[trigger] ids@[i] < u64::MAX,
    ensures
        forall|i: int| 0 <= i < ids@.len() ==> #[trigger] ids@[i] < id,
        ids@.len() == 0 ==> id == 1,
        ids@.len() > 0 ==> exists|i: int| 0 <= i < ids@.len() && id == ids@[i] + 1,
{
    let mut m: u64 = 0;
    let mut i: usize = 0;
    while i < ids.len()
        invariant
            0 <= i <= ids@.len(),
            forall|j: int| 0 <= j < ids@.len() ==> #[trigger] ids@[j] < u64::MAX,
            forall|j: int| 0 <= j < i ==> #[trigger] ids@[j] <= m,
            i == 0 ==> m == 0,
            i > 0 ==> exists|j: int| 0 <= j < i && m == ids@[j],
        decreases ids@.len() - i,
    {
        if ids[i] > m || i == 0 {
            m = ids[i];
        }
        i = i + 1;
    }
    m + 1
}

/// The map as the site search sees it: `passable[y * width + x]` for each
/// tile.
#[derive(Debug)]
pub struct PassableMap {
    pub width: u32,
    pub height: u32,
    pub passable: Vec<bool>,
}

impl PassableMap {
    /// The map holds one entry per tile.
    pub open spec fn wf(&self) -> bool {
        self.passable@.len() == self.width * self.height
    }

    /// Tile `(x, y)` is on the map and passable.
    pub open spec fn open_tile(&self, x: int, y: int) -> bool {
        0 <= x < self.width && 0 <= y < self.height && self.passable@[y * self.width + x]
    }
}

/// A `w` by `h` site at `(x, y)` is available: every tile is on the map and
/// passable, and no building comes within one tile of it.
pub open spec fn site_available(map: &PassableMap, bs: Seq<Footprint>, x: int, y: int, w: u32, h: u32) -> bool {
    &&& forall|dx: int, dy: int| 0 <= dx < w && 0 <= dy < h ==> #[trigger] map.open_tile(x + dx, y + dy)
    &&& forall|i: int| 0 <= i < bs.len() ==> !overlaps_spec(#[trigger] bs[i], x - 1, y - 1, w + 2, h + 2)
}

/// Whether a `w` by `h` site at `(x, y)` is available.
pub fn building_site_is_available(map: &PassableMap, bs: &Vec<Footprint>, x: i32, y: i32, w: u32, h: u32) -> (b: bool)
    requires
        map.wf(),
        x - 1 >= i32::MIN,
        y - 1 >= i32::MIN,
        w + 2 <= u32::MAX,
        h + 2 <= u32::MAX,
    ensures
        b == site_available(map, bs@, x as int, y as int, w, h),
{
    let mut dy: u32 = 0;
    while dy < h
        invariant
            map.wf(),
            0 <= dy <= h,
            forall|ddx: int, ddy: int| 0 <= ddx < w && 0 <= ddy < dy ==> #[trigger] map.open_tile(x + ddx, y + ddy),
        decreases h - dy,
    {
        let mut dx: u32 = 0;
        while dx < w
            invariant
                map.wf(),
                0 <= dy < h,
                0 <= dx <= w,
                forall|ddx: int, ddy: int| 0 <= ddx < w && 0 <= ddy < dy ==> #[trigger] map.open_tile(x + ddx, y + ddy),
                forall|ddx: int| 0 <= ddx < dx ==> #[trigger] map.open_tile(x + ddx, y + dy),
            decreases w - dx,
        {
            let tx: i64 = x as i64 + dx as i64;
            let ty: i64 = y as i64 + dy as i64;
            if tx < 0 || ty < 0 || tx >= map.width as i64 || ty >= map.height as i64 {
                proof {
                    assert(!map.open_tile(x + dx, y + dy));
                }
                return false;
            }
            let len = map.passable.len();
            proof {
                assert(ty * map.width + tx < map.width * map.height) by (nonlinear_arith)
                    requires 0 <= tx < map.width, 0 <= ty < map.height;
            }
            let idx = (ty as u64 * map.width as u64 + tx as u64) as usize;
            if !map.passable[idx] {
                proof {
                    assert(!map.open_tile(x + dx, y + dy));
                }
                return false;
            }
            dx = dx + 1;
        }
        dy = dy + 1;
    }
    let mut i: usize = 0;
    while i < bs.len()
        invariant
            0 <= i <= bs@.len(),
            forall|j: int| 0 <= j < i ==> !overlaps_spec(#[trigger] bs@[j], x - 1, y - 1, w + 2, h + 2),
            x - 1 >= i32::MIN,
            y - 1 >= i32::MIN,
            w + 2 <= u32::MAX,
            h + 2 <= u32::MAX,
        decreases bs@.len() - i,
    {
        if overlaps(bs[i], x - 1, y - 1, w + 2, h + 2) {
            return false;
        }
        i = i + 1;
    }
    true
}

/// Ring of an offset around the origin: its Chebyshev length.
pub open spec fn ring_of(dx: int, dy: int) -> int {
    let ax = if dx < 0 { -dx } else { dx };
    let ay = if dy < 0 { -dy } else { dy };
    if ax >= ay { ax } else { ay }
}

/// Offset `a` is tried before offset `b`: on an inner ring, or on the same
/// ring in an earlier row, or in the same row further left.
pub open spec fn tried_before(a: (int, int), b: (int, int)) -> bool {
    let ra = ring_of(a.0, a.1);
    let rb = ring_of(b.0, b.1);
    ra < rb || (ra == rb && (a.1 < b.1 || (a.1 == b.1 && a.0 < b.0)))
}

/// The search radius actually used: at least one.
pub open spec fn effective_radius(r: i32) -> int {
    if r < 1 { 1 } else { r as int }
}

/// The offsets a search of radius `r` tries.
pub open spec fn searched(r: i32, d: (int, int)) -> bool {
    1 <= ring_of(d.0, d.1) <= effective_radius(r)
}

/// The search stays within `i32` and the availability check's margins.
pub open spec fn search_fits(ox: i32, oy: i32, r: i32, w: u32, h: u32) -> bool {
    let e = effective_radius(r);
    &&& ox - e - 1 >= i32::MIN && ox + e <= i32::MAX
    &&& oy - e - 1 >= i32::MIN && oy + e <= i32::MAX
    &&& w + 2 <= u32::MAX && h + 2 <= u32::MAX
}

/// Search the rings around `(ox, oy)` from the innermost outwards, each
/// row by row from the top and each row from the left, for the first
/// available `w` by `h` site. The origin itself is never tried.
pub fn find_build_site(
    map: &PassableMap,
    bs: &Vec<Footprint>,
    ox: i32,
    oy: i32,
    search_radius: i32,
    w: u32,
    h: u32,
) -> (site: Option<(i32, i32)>)
    requires
        map.wf(),
        search_fits(ox, oy, search_radius, w, h),
    ensures
        match site {
            Some((x, y)) => {
                let d = (x - ox, y - oy);
                &&& searched(search_radius, d)
                &&& site_available(map, bs@, x as int, y as int, w, h)
                &&& forall|d2: (int, int)| searched(search_radius, d2) && #[trigger] tried_before(d2, d)
                    ==> !site_available(map, bs@, ox + d2.0, oy + d2.1, w, h)
            },
            None => forall|d: (int, int)| #[trigger] searched(search_radius, d)
                ==> !site_available(map, bs@, ox + d.0, oy + d.1, w, h),
        },
{
    let e: i64 = if search_radius < 1 { 1 } else { search_radius as i64 };
    let mut radius: i64 = 1;
    while radius <= e
        invariant
            map.wf(),
            search_fits(ox, oy, search_radius, w, h),
            e == effective_radius(search_radius),
            1 <= radius <= e + 1,
            forall|d: (int, int)| searched(search_radius, d) && ring_of(d.0, d.1) < radius
                ==> !#[trigger] site_available(map, bs@, ox + d.0, oy + d.1, w, h),
        decreases e + 1 - radius,
    {
        let mut dy: i64 = -radius;
        while dy <= radius
            invariant
                map.wf(),
                search_fits(ox, oy, search_radius, w, h),
                e == effective_radius(search_radius),
                1 <= radius <= e,
                -radius <= dy <= radius + 1,
                forall|d: (int, int)| searched(search_radius, d) && (ring_of(d.0, d.1) < radius
                    || (ring_of(d.0, d.1) == radius && d.1 < dy))
                    ==> !#[trigger] site_available(map, bs@, ox + d.0, oy + d.1, w, h),
            decreases radius + 1 - dy,
        {
            let mut dx: i64 = -radius;
            while dx <= radius
                invariant
                    map.wf(),
                    search_fits(ox, oy, search_radius, w, h),
                    e == effective_radius(search_radius),
                    1 <= radius <= e,
                    -radius <= dy <= radius,
                    -radius <= dx <= radius + 1,
                    forall|d: (int, int)| searched(search_radius, d) && (ring_of(d.0, d.1) < radius
                        || (ring_of(d.0, d.1) == radius && (d.1 < dy || (d.1 == dy && d.0 < dx))))
                        ==> !#[trigger] site_available(map, bs@, ox + d.0, oy + d.1, w, h),
                decreases radius + 1 - dx,
            {
                let on_ring = dx == radius || dx == -radius || dy == radius || dy == -radius;
                if on_ring {
                    let x: i32 = (ox as i64 + dx) as i32;
                    let y: i32 = (oy as i64 + dy) as i32;
                    if building_site_is_available(map, bs, x, y, w, h) {
                        proof {
                            let d = (x - ox, y - oy);
                            assert(ring_of(d.0, d.1) == radius);
                            assert forall|d2: (int, int)| searched(search_radius, d2) && #[trigger] tried_before(d2, d)
                                implies !site_available(map, bs@, ox + d2.0, oy + d2.1, w, h) by {
                            }
                        }
                        return Some((x, y));
                    }
                }
                proof {
                    assert forall|d: (int, int)| searched(search_radius, d) && (ring_of(d.0, d.1) < radius
                        || (ring_of(d.0, d.1) == radius && (d.1 < dy || (d.1 == dy && d.0 < dx + 1))))
                        implies !#[trigger] site_available(map, bs@, ox + d.0, oy + d.1, w, h) by {
                        if d.1 == dy && d.0 == dx && ring_of(d.0, d.1) == radius {
                            assert(on_ring);
                        }
                    }
                }
                dx = dx + 1;
            }
            dy = dy + 1;
        }
        radius = radius + 1;
    }
    None
}

/// A queued wall or furniture plan: its settlement, the agent (slot id)
/// that claimed it, if any, and when it was created or last re-opened.
#[derive(Debug, Clone, Copy, PartialEq, Eq, Structural)]
pub struct PlanRecord {
    pub id: u64,
    pub settlement: u64,
    pub claimed_by: Option<u64>,
    pub created_tick: u64,
}

/// Ticks after which a claimed plan is taken back from its claimer.
pub const STUCK_CLAIM_TICKS: u64 = 200;

/// `a - b`, or 0 below zero.
pub open spec fn ticks_since(tick: u64, then: u64) -> int {
    if tick >= then { tick - then } else { 0 }
}

/// A plan after its claim is checked: a claim by an agent that is no longer
/// alive is dropped; a claim held for more than [`STUCK_CLAIM_TICKS`] is
/// dropped and the plan re-opened now.
pub open spec fn released(p: PlanRecord, alive: Seq<u64>, tick: u64) -> PlanRecord {
    let live = match p.claimed_by {
        Some(c) => if alive.contains(c) { Some(c) } else { None },
        None => None,
    };
    if live is Some && ticks_since(tick, p.created_tick) > STUCK_CLAIM_TICKS {
        PlanRecord { claimed_by: None, created_tick: tick, ..p }
    } else {
        PlanRecord { claimed_by: live, ..p }
    }
}

/// A checked plan stays when it is claimed, when its settlement is
/// protected, or when it is at most `stale` ticks old.
pub open spec fn plan_kept(p: PlanRecord, protected: Seq<u64>, tick: u64, stale: u64) -> bool {
    p.claimed_by is Some || protected.contains(p.settlement) || ticks_since(tick, p.created_tick) <= stale
}

/// Release dead and stuck claims, then drop the plans that are unclaimed,
/// unprotected and older than `stale` ticks. The rest keep their order.
pub fn cleanup_plans(plans: &mut Vec<PlanRecord>, alive: &Vec<u64>, protected: &Vec<u64>, tick: u64, stale: u64)
    ensures
        final(plans)@ == old(plans)@.map_values(|p: PlanRecord| released(p, alive@, tick))
            .filter(|p: PlanRecord| plan_kept(p, protected@, tick, stale)),
{
    let ghost checked = old(plans)@.map_values(|p: PlanRecord| released(p, alive@, tick));
    let ghost keep = |p: PlanRecord| plan_kept(p, protected@, tick, stale);
    let mut out: Vec<PlanRecord> = Vec::new();
    let mut i: usize = 0;
    while i < plans.len()
        invariant
            0 <= i <= plans@.len(),
            plans@ == old(plans)@,
            checked == old(plans)@.map_values(|p: PlanRecord| released(p, alive@, tick)),
            keep == (|p: PlanRecord| plan_kept(p, protected@, tick, stale)),
            out@ == checked.subrange(0, i as int).filter(keep),
        decreases plans@.len() - i,
    {
        let p = plans[i];
        let live = match p.claimed_by {
            Some(c) => if contains_id(alive, c) { Some(c) } else { None },
            None => None,
        };
        let q = if live.is_some() && tick.saturating_sub(p.created_tick) > STUCK_CLAIM_TICKS {
            PlanRecord { id: p.id, settlement: p.settlement, claimed_by: None, created_tick: tick }
        } else {
            PlanRecord { id: p.id, settlement: p.settlement, claimed_by: live, created_tick: p.created_tick }
        };
        proof {
            assert(q == checked[i as int]);
            let pre = checked.subrange(0, i as int);
            assert(checked.subrange(0, i + 1) =~= pre.push(q));
            pre.lemma_filter_push(q, keep);
        }
        let kept = q.claimed_by.is_some() || contains_id(protected, q.settlement)
            || tick.saturating_sub(q.created_tick) <= stale;
        if kept {
            out.push(q);
        }
        i = i + 1;
    }
    proof {
        assert(checked.subrange(0, checked.len() as int) =~= checked);
    }
    *plans = out;
}

/// A building as plan protection sees it.
#[derive(Debug, Clone, Copy, PartialEq, Eq, Structural)]
pub struct ShelterRecord {
    pub settlement: u64,
    pub is_shelter: bool,
    pub is_complete: bool,
}

/// Settlements with a shelter building (an unfinished one only, when
/// `unfinished_only`), each once.
pub fn shelter_settlements(buildings: &Vec<ShelterRecord>, unfinished_only: bool) -> (ids: Vec<u64>)
    ensures
        distinct_ids(ids@),
        forall|s: u64| ids@.contains(s) <==> exists|i: int| 0 <= i < buildings@.len()
            && #[trigger] buildings@[i].settlement == s && buildings@[i].is_shelter
            && (!unfinished_only || !buildings@[i].is_complete),
{
    let mut ids: Vec<u64> = Vec::new();
    let mut i: usize = 0;
    while i < buildings.len()
        invariant
            0 <= i <= buildings@.len(),
            distinct_ids(ids@),
            forall|s: u64| ids@.contains(s) <==> exists|k: int| 0 <= k < i
                && #[trigger] buildings@[k].settlement == s && buildings@[k].is_shelter
                && (!unfinished_only || !buildings@[k].is_complete),
        decreases buildings@.len() - i,
    {
        let b = buildings[i];
        let ghost before = ids@;
        if b.is_shelter && (!unfinished_only || !b.is_complete) {
            insert_id(&mut ids, b.settlement);
        }
        proof {
            assert forall|s: u64| ids@.contains(s) <==> exists|k: int| 0 <= k < i + 1
                && #[trigger] buildings@[k].settlement == s && buildings@[k].is_shelter
                && (!unfinished_only || !buildings@[k].is_complete) by {
                assert(ids@.to_set().contains(s) == ids@.contains(s));
                assert(before.to_set().contains(s) == before.contains(s));
                if exists|k: int| 0 <= k < i && #[trigger] buildings@[k].settlement == s && buildings@[k].is_shelter
                    && (!unfinished_only || !buildings@[k].is_complete) {
                    let k = choose|k: int| 0 <= k < i && #[trigger] buildings@[k].settlement == s && buildings@[k].is_shelter
                        && (!unfinished_only || !buildings@[k].is_complete);
                    assert(k < i + 1);
                }
                if b.is_shelter && (!unfinished_only || !b.is_complete) && s == b.settlement {
                    assert(buildings@[i as int].settlement == s);
                }
            }
        }
        i = i + 1;
    }
    ids
}

/// What an agent is doing, as builder assignment sees it.
#[derive(Debug, Clone, Copy, PartialEq, Eq, Structural)]
pub enum WorkAction {
    Build,
    PlaceWall,
    PlaceFurniture,
    /// Anything else.
    Other,
}

/// An agent as builder assignment sees it.
#[derive(Debug)]
pub struct WorkerView {
    /// Alive and adult.
    pub adult_alive: bool,
    pub settlement: Option<u64>,
    pub job: String,
    pub occupation: String,
    pub action: WorkAction,
    pub target: Option<(i32, i32)>,
}

/// The worker is a living adult of settlement `s`.
pub open spec fn works_in(w: WorkerView, s: u64) -> bool {
    w.adult_alive && w.settlement == Some(s)
}

/// The worker is at a construction action on one of `s`'s pending sites.
pub open spec fn on_pending_site(w: WorkerView, sites: Seq<(u64, (i32, i32))>, s: u64) -> bool {
    (w.action == WorkAction::Build || w.action == WorkAction::PlaceWall || w.action == WorkAction::PlaceFurniture)
        && w.target is Some && sites.contains((s, w.target.unwrap()))
}

/// A builder of `s` already working one of its pending sites.
pub open spec fn assigned_builder(w: WorkerView, sites: Seq<(u64, (i32, i32))>, s: u64) -> bool {
    works_in(w, s) && w.job@ == "builder"@ && on_pending_site(w, sites, s)
}

/// A builder of `s` free to take a site.
pub open spec fn available_builder(w: WorkerView, sites: Seq<(u64, (i32, i32))>, s: u64) -> bool {
    works_in(w, s) && w.job@ == "builder"@ && !on_pending_site(w, sites, s)
}

/// A non-builder of `s` with no fixed occupation, who can be made one.
pub open spec fn fallback_builder(w: WorkerView, s: u64) -> bool {
    works_in(w, s) && w.job@ != "builder"@
        && !(w.occupation@.len() > 0 && w.occupation@ != "none"@ && w.occupation@ != "laborer"@)
}

/// `i` is the first worker satisfying `p`.
pub open spec fn first_with(ws: Seq<WorkerView>, i: int, p: spec_fn(WorkerView) -> bool) -> bool {
    0 <= i < ws.len() && p(ws[i]) && forall|j: int| 0 <= j < i ==> !p(#[trigger] ws[j])
}

/// The worker retasked for settlement `s`, if any: none while one of its
/// builders works a pending site; else its first free builder; else its
/// first worker without a fixed occupation.
pub open spec fn retasked(ws: Seq<WorkerView>, sites: Seq<(u64, (i32, i32))>, s: u64, i: int) -> bool {
    &&& forall|j: int| 0 <= j < ws.len() ==> !assigned_builder(#[trigger] ws[j], sites, s)
    &&& (first_with(ws, i, |w: WorkerView| available_builder(w, sites, s))
        || ((forall|j: int| 0 <= j < ws.len() ==> !available_builder(#[trigger] ws[j], sites, s))
            && first_with(ws, i, |w: WorkerView| fallback_builder(w, s))))
}

/// Some pending site belongs to settlement `s`.
pub open spec fn has_pending_site(sites: Seq<(u64, (i32, i32))>, s: u64) -> bool {
    exists|k: int| 0 <= k < sites.len() && #[trigger] sites[k].0 == s
}

/// Whether `sites` holds `(s, t)`.
fn has_site(sites: &Vec<(u64, (i32, i32))>, s: u64, t: (i32, i32)) -> (b: bool)
    ensures
        b == sites@.contains((s, t)),
{
    let mut k: usize = 0;
    while k < sites.len()
        invariant
            0 <= k <= sites@.len(),
            forall|j: int| 0 <= j < k ==> sites@[j] != (s, t),
        decreases sites@.len() - k,
    {
        let (a, b) = sites[k];
        if a == s && b.0 == t.0 && b.1 == t.1 {
            assert(sites@[k as int] == (s, t));
            return true;
        }
        k = k + 1;
    }
    false
}

/// The settlements with pending sites, ascending, each once.
fn pending_settlements(sites: &Vec<(u64, (i32, i32))>) -> (ids: Vec<u64>)
    ensures
        crate::settlement::ids_ascending(ids@),
        forall|s: u64| ids@.contains(s) <==> has_pending_site(sites@, s),
{
    let mut set: Vec<u64> = Vec::new();
    let mut k: usize = 0;
    while k < sites.len()
        invariant
            0 <= k <= sites@.len(),
            distinct_ids(set@),
            forall|s: u64| set@.contains(s) <==> exists|j: int| 0 <= j < k && #[trigger] sites@[j].0 == s,
        decreases sites@.len() - k,
    {
        let ghost before = set@;
        insert_id(&mut set, sites[k].0);
        proof {
            assert forall|s: u64| set@.contains(s) <==> exists|j: int| 0 <= j < k + 1 && #[trigger] sites@[j].0 == s by {
                assert(set@.to_set().contains(s) == set@.contains(s));
                assert(before.to_set().contains(s) == before.contains(s));
                if exists|j: int| 0 <= j < k && #[trigger] sites@[j].0 == s {
                    let j = choose|j: int| 0 <= j < k && #[trigger] sites@[j].0 == s;
                    assert(j < k + 1);
                }
                if s == sites@[k as int].0 {
                    assert(sites@[k as int].0 == s);
                }
            }
        }
        k = k + 1;
    }
    let sorted = sort_ids(&set);
    proof {
        assert forall|s: u64| sorted@.contains(s) <==> has_pending_site(sites@, s) by {
            assert(sorted@.to_set().contains(s) == sorted@.contains(s));
            assert(set@.to_set().contains(s) == set@.contains(s));
        }
    }
    sorted
}

/// `out` lists, for each settlement with pending sites in ascending id
/// order, the worker to retask as its builder (see [`retasked`]).
pub open spec fn retask_spec(workers: Seq<WorkerView>, sites: Seq<(u64, (i32, i32))>, out: Seq<(u64, usize)>) -> bool {
    &&& forall|a: int, b: int| 0 <= a < b < out.len() ==> #[trigger] out[a].0 < #[trigger] out[b].0
    &&& forall|k: int| 0 <= k < out.len() ==> has_pending_site(sites, (#[trigger] out[k]).0)
        && retasked(workers, sites, out[k].0, out[k].1 as int)
    &&& forall|s: u64, i: int| has_pending_site(sites, s) && #[trigger] retasked(workers, sites, s, i)
        ==> exists|k: int| 0 <= k < out.len() && out[k].0 == s
}

/// For each settlement with pending sites, in ascending id order, the
/// worker to retask as its builder (see [`retasked`]); settlements that
/// have a builder at work, or nobody to retask, get none.
pub fn builders_to_retask(workers: &Vec<WorkerView>, sites: &Vec<(u64, (i32, i32))>) -> (out: Vec<(u64, usize)>)
    ensures
        retask_spec(workers@, sites@, out@),
{
    let ids = pending_settlements(sites);
    let mut out: Vec<(u64, usize)> = Vec::new();
    let mut n: usize = 0;
    while n < ids.len()
        invariant
            0 <= n <= ids@.len(),
            crate::settlement::ids_ascending(ids@),
            forall|s: u64| ids@.contains(s) <==> has_pending_site(sites@, s),
            forall|a: int, b: int| 0 <= a < b < out@.len() ==> #[trigger] out@[a].0 < #[trigger] out@[b].0,
            forall|k: int| 0 <= k < out@.len() ==> exists|m: int| 0 <= m < n && ids@[m] == (#[trigger] out@[k]).0,
            forall|k: int| 0 <= k < out@.len() ==> has_pending_site(sites@, (#[trigger] out@[k]).0)
                && retasked(workers@, sites@, out@[k].0, out@[k].1 as int),
            forall|m: int, i: int| 0 <= m < n && #[trigger] retasked(workers@, sites@, ids@[m], i)
                ==> exists|k: int| 0 <= k < out@.len() && out@[k].0 == ids@[m],
        decreases ids@.len() - n,
    {
        let s = ids[n];
        proof {
            assert(ids@.contains(s));
        }
        let mut assigned = false;
        let mut available: Option<usize> = None;
        let mut fallback: Option<usize> = None;
        let mut i: usize = 0;
        while i < workers.len()
            invariant
                0 <= i <= workers@.len(),
                assigned == exists|j: int| 0 <= j < i && assigned_builder(#[trigger] workers@[j], sites@, s),
                match available {
                    Some(a) => first_with(workers@, a as int, |w: WorkerView| available_builder(w, sites@, s)) && a < i,
                    None => forall|j: int| 0 <= j < i ==> !available_builder(#[trigger] workers@[j], sites@, s),
                },
                match fallback {
                    Some(f) => first_with(workers@, f as int, |w: WorkerView| fallback_builder(w, s)) && f < i,
                    None => forall|j: int| 0 <= j < i ==> !fallback_builder(#[trigger] workers@[j], s),
                },
            decreases workers@.len() - i,
        {
            let w = &workers[i];
            proof {
                reveal_strlit("builder");
                reveal_strlit("none");
                reveal_strlit("laborer");
            }
            let member = w.adult_alive && match w.settlement {
                Some(x) => x == s,
                None => false,
            };
            if member {
                let builder = str_eq(w.job.as_str(), "builder");
                let constructing = match w.action {
                    WorkAction::Other => false,
                    _ => true,
                };
                let on_site = constructing && match w.target {
                    Some(t) => has_site(sites, s, t),
                    None => false,
                };
                if builder {
                    if on_site {
                        assigned = true;
                    } else if available.is_none() {
                        available = Some(i);
                    }
                } else {
                    let occ = w.occupation.as_str();
                    let free = occ.is_empty() || str_eq(occ, "none") || str_eq(occ, "laborer");
                    if free && fallback.is_none() {
                        fallback = Some(i);
                    }
                }
            }
            proof {
                assert(workers@[i as int] == *w);
                if assigned_builder(*w, sites@, s) {
                    assert(assigned);
                }
            }
            i = i + 1;
        }
        let pick = if assigned {
            None
        } else if available.is_some() {
            available
        } else {
            fallback
        };
        proof {
            assert forall|i2: int| #[trigger] retasked(workers@, sites@, s, i2) implies pick == Some(i2 as usize) by {
                if let Some(a) = available {
                    if first_with(workers@, i2, |w: WorkerView| available_builder(w, sites@, s)) {
                        if a < i2 { assert(available_builder(workers@[a as int], sites@, s)); }
                        if i2 < a { assert(available_builder(workers@[i2], sites@, s)); }
                    } else {
                        assert(available_builder(workers@[a as int], sites@, s));
                    }
                } else if let Some(f) = fallback {
                    if first_with(workers@, i2, |w: WorkerView| available_builder(w, sites@, s)) {
                        assert(available_builder(workers@[i2], sites@, s));
                    }
                    if f < i2 { assert(fallback_builder(workers@[f as int], s)); }
                    if i2 < f { assert(fallback_builder(workers@[i2], s)); }
                } else {
                    if first_with(workers@, i2, |w: WorkerView| available_builder(w, sites@, s)) {
                        assert(available_builder(workers@[i2], sites@, s));
                    } else {
                        assert(fallback_builder(workers@[i2], s));
                    }
                }
                if assigned {
                    let j = choose|j: int| 0 <= j < workers@.len() && assigned_builder(#[trigger] workers@[j], sites@, s);
                }
            }
        }
        match pick {
            Some(p) => {
                let ghost before = out@;
                out.push((s, p));
                proof {
                    assert forall|k: int| 0 <= k < out@.len() implies exists|m: int| 0 <= m < n + 1 && ids@[m] == (#[trigger] out@[k]).0 by {
                        if k < before.len() {
                            assert(out@[k] == before[k]);
                            let m = choose|m: int| 0 <= m < n && ids@[m] == before[k].0;
                        } else {
                            assert(ids@[n as int] == out@[k].0);
                        }
                    }
                    assert forall|a: int, b: int| 0 <= a < b < out@.len() implies #[trigger] out@[a].0 < #[trigger] out@[b].0 by {
                        if b == out@.len() - 1 {
                            assert(out@[a] == before[a]);
                            let m = choose|m: int| 0 <= m < n && ids@[m] == before[a].0;
                            assert(ids@[m] < ids@[n as int]);
                        } else {
                            assert(out@[a] == before[a] && out@[b] == before[b]);
                        }
                    }
                    assert(retasked(workers@, sites@, s, p as int)) by {
                        if available is Some {
                            assert(first_with(workers@, p as int, |w: WorkerView| available_builder(w, sites@, s)));
                        }
                        assert forall|j: int| 0 <= j < workers@.len() implies !assigned_builder(#[trigger] workers@[j], sites@, s) by {
                        }
                    }
                    assert forall|m: int, i2: int| 0 <= m < n + 1 && #[trigger] retasked(workers@, sites@, ids@[m], i2)
                        implies exists|k: int| 0 <= k < out@.len() && out@[k].0 == ids@[m] by {
                        if m < n {
                            let k = choose|k: int| 0 <= k < before.len() && before[k].0 == ids@[m];
                            assert(out@[k] == before[k]);
                        } else {
                            assert(out@[out@.len() - 1].0 == ids@[m]);
                        }
                    }
                }
            },
            None => {
                proof {
                    assert forall|m: int, i2: int| 0 <= m < n + 1 && #[trigger] retasked(workers@, sites@, ids@[m], i2)
                        implies exists|k: int| 0 <= k < out@.len() && out@[k].0 == ids@[m] by {
                        if m == n {
                            assert(pick == Some(i2 as usize));
                        }
                    }
                }
            },
        }
        n = n + 1;
    }
    proof {
        assert forall|s: u64, i: int| has_pending_site(sites@, s) && #[trigger] retasked(workers@, sites@, s, i)
            implies exists|k: int| 0 <= k < out@.len() && out@[k].0 == s by {
            assert(ids@.contains(s));
            let m = choose|m: int| 0 <= m < ids@.len() && ids@[m] == s;
            assert(retasked(workers@, sites@, ids@[m], i));
        }
        assert forall|k: int| 0 <= k < out@.len() implies has_pending_site(sites@, (#[trigger] out@[k]).0)
            && retasked(workers@, sites@, out@[k].0, out@[k].1 as int) by {
        }
    }
    out
}

/// A building record with its position, as site collection sees it.
#[derive(Debug, Clone, Copy, PartialEq, Eq, Structural)]
pub struct PlacedBuilding {
    pub settlement: u64,
    pub x: i32,
    pub y: i32,
    pub is_complete: bool,
}

/// A queued plan's settlement and tile.
#[derive(Debug, Clone, Copy, PartialEq, Eq, Structural)]
pub struct PlanSite {
    pub settlement: u64,
    pub x: i32,
    pub y: i32,
}

/// Site of an unfinished building.
pub open spec fn building_site(b: PlacedBuilding) -> (u64, (i32, i32)) {
    (b.settlement, (b.x, b.y))
}

/// Site of a plan.
pub open spec fn plan_site(p: PlanSite) -> (u64, (i32, i32)) {
    (p.settlement, (p.x, p.y))
}

/// The pending construction sites of every settlement: its unfinished
/// buildings, then its wall plans, then its furniture plans, in order.
pub fn pending_site_targets(buildings: &Vec<PlacedBuilding>, wall_plans: &Vec<PlanSite>, furniture_plans: &Vec<PlanSite>)
    -> (sites: Vec<(u64, (i32, i32))>)
    ensures
        sites@ == buildings@.filter(|b: PlacedBuilding| !b.is_complete).map_values(|b: PlacedBuilding| building_site(b))
            + wall_plans@.map_values(|p: PlanSite| plan_site(p)) + furniture_plans@.map_values(|p: PlanSite| plan_site(p)),
{
    let ghost unfinished = buildings@.filter(|b: PlacedBuilding| !b.is_complete);
    let mut sites: Vec<(u64, (i32, i32))> = Vec::new();
    let mut i: usize = 0;
    let mut built: Vec<PlacedBuilding> = Vec::new();
    while i < buildings.len()
        invariant
            0 <= i <= buildings@.len(),
            unfinished == buildings@.filter(|b: PlacedBuilding| !b.is_complete),
            built@ == buildings@.subrange(0, i as int).filter(|b: PlacedBuilding| !b.is_complete),
            sites@ == built@.map_values(|b: PlacedBuilding| building_site(b)),
        decreases buildings@.len() - i,
    {
        let b = buildings[i];
        proof {
            let pre = buildings@.subrange(0, i as int);
            assert(buildings@.subrange(0, i + 1) =~= pre.push(b));
            pre.lemma_filter_push(b, |b: PlacedBuilding| !b.is_complete);
        }
        if !b.is_complete {
            built.push(b);
            sites.push((b.settlement, (b.x, b.y)));
            proof {
                assert(sites@ =~= built@.map_values(|b: PlacedBuilding| building_site(b)));
            }
        }
        i = i + 1;
    }
    proof {
        assert(buildings@.subrange(0, buildings@.len() as int) =~= buildings@);
    }
    let ghost after_buildings = sites@;
    let mut k: usize = 0;
    while k < wall_plans.len()
        invariant
            0 <= k <= wall_plans@.len(),
            sites@ == after_buildings + wall_plans@.subrange(0, k as int).map_values(|p: PlanSite| plan_site(p)),
        decreases wall_plans@.len() - k,
    {
        let p = wall_plans[k];
        sites.push((p.settlement, (p.x, p.y)));
        k = k + 1;
        proof {
            assert(sites@ =~= after_buildings + wall_plans@.subrange(0, k as int).map_values(|p: PlanSite| plan_site(p)));
        }
    }
    proof {
        assert(wall_plans@.subrange(0, wall_plans@.len() as int) =~= wall_plans@);
    }
    let ghost after_walls = sites@;
    let mut m: usize = 0;
    while m < furniture_plans.len()
        invariant
            0 <= m <= furniture_plans@.len(),
            sites@ == after_walls + furniture_plans@.subrange(0, m as int).map_values(|p: PlanSite| plan_site(p)),
        decreases furniture_plans@.len() - m,
    {
        let p = furniture_plans[m];
        sites.push((p.settlement, (p.x, p.y)));
        m = m + 1;
        proof {
            assert(sites@ =~= after_walls + furniture_plans@.subrange(0, m as int).map_values(|p: PlanSite| plan_site(p)));
        }
    }
    proof {
        assert(furniture_plans@.subrange(0, furniture_plans@.len() as int) =~= furniture_plans@);
    }
    sites
}

/// The unfinished shelter of settlement `sid` to mark complete, if any: its
/// ring (around the recorded shelter centre) is substantially built, and
/// this is the first unfinished shelter record of the settlement.
pub fn shelter_to_finalize(
    l: ShelterLayout,
    centre: Option<(i32, i32)>,
    width: u32,
    height: u32,
    walls: &Vec<bool>,
    buildings: &Vec<SiteBuilding>,
    sid: u64,
) -> (r: Option<usize>)
    requires
        centre is Some ==> ring_fits(l, centre.unwrap().0, centre.unwrap().1),
        walls@.len() == width * height,
        8 * l.wall_radius - 1 <= i32::MAX,
    ensures
        centre is None ==> r is None,
        r is Some ==> ({
            let k = r.unwrap() as int;
            let (cx, cy) = centre.unwrap();
            &&& 0 <= k < buildings@.len()
            &&& buildings@[k].settlement == sid && buildings@[k].building_type@ == "shelter"@ && !buildings@[k].is_complete
            &&& forall|j: int| 0 <= j < k ==> !(buildings@[j].settlement == sid
                && buildings@[j].building_type@ == "shelter"@ && !buildings@[j].is_complete)
            &&& exists|tiles: Seq<(i32, i32)>| {
                &&& row_major_ascending(tiles)
                &&& (forall|t: (i32, i32)| tiles.contains(t) <==> is_ring_tile(l, cx, cy, width, height, t))
                &&& walls_on(tiles, walls@, width) >= required_walls_spec(l) - 2
            }
        }),
        centre is Some && r is None ==> ({
            let (cx, cy) = centre.unwrap();
            (exists|tiles: Seq<(i32, i32)>| {
                &&& row_major_ascending(tiles)
                &&& (forall|t: (i32, i32)| tiles.contains(t) <==> is_ring_tile(l, cx, cy, width, height, t))
                &&& walls_on(tiles, walls@, width) < required_walls_spec(l) - 2
            })
            || forall|j: int| 0 <= j < buildings@.len() ==> !(buildings@[j].settlement == sid
                && buildings@[j].building_type@ == "shelter"@ && !buildings@[j].is_complete)
        }),
{
    let (cx, cy) = match centre {
        Some(c) => c,
        None => return None,
    };
    let nearly = shelter_nearly_complete(l, cx, cy, width, height, walls);
    let ghost tiles = choose|tiles: Seq<(i32, i32)>| {
        &&& row_major_ascending(tiles)
        &&& (forall|t: (i32, i32)| tiles.contains(t) <==> is_ring_tile(l, cx, cy, width, height, t))
        &&& nearly == (walls_on(tiles, walls@, width) >= required_walls_spec(l) - 2)
    };
    if !nearly {
        return None;
    }
    let mut k: usize = 0;
    while k < buildings.len()
        invariant
            0 <= k <= buildings@.len(),
            centre == Some((cx, cy)),
            row_major_ascending(tiles),
            forall|t: (i32, i32)| tiles.contains(t) <==> is_ring_tile(l, cx, cy, width, height, t),
            walls_on(tiles, walls@, width) >= required_walls_spec(l) - 2,
            forall|j: int| 0 <= j < k ==> !(buildings@[j].settlement == sid
                && buildings@[j].building_type@ == "shelter"@ && !buildings@[j].is_complete),
        decreases buildings@.len() - k,
    {
        let b = &buildings[k];
        if b.settlement == sid && str_eq(b.building_type.as_str(), "shelter") && !b.is_complete {
            return Some(k);
        }
        k = k + 1;
    }
    None
}

/// Where and what a settlement starts building this run.
#[derive(Debug, Clone, Copy)]
pub struct EarlySite {
    pub plan: EarlyStructurePlan,
    /// Top-left tile of the footprint.
    pub site: (i32, i32),
    pub width: u32,
    pub height: u32,
    /// Centre of the wall ring, for a shelter.
    pub shelter_centre: Option<(i32, i32)>,
    /// Id of the new building record.
    pub building_id: u64,
}

/// What the early-structure planner knows of one settlement.
#[derive(Debug, Clone, Copy)]
pub struct EarlySiteInputs {
    pub snapshot: ConstructionSnapshot,
    pub alive_adults: usize,
    pub shelter_capacity: usize,
    pub can_place_stockpile: bool,
    pub can_place_campfire: bool,
    pub can_place_shelter: bool,
    /// The settlement's centre, where the search starts.
    pub origin: (i32, i32),
    pub search_radius: i32,
    /// Footprint of a stockpile or campfire (1 by 1 unless the structure
    /// data says otherwise).
    pub stockpile_size: (u32, u32),
    pub campfire_size: (u32, u32),
}

/// `r` is the early site planned for a settlement (see [`plan_early_site`]).
pub open spec fn early_site_spec(
    inputs: EarlySiteInputs,
    layout: ShelterLayout,
    map: &PassableMap,
    buildings: Seq<Footprint>,
    building_ids: Seq<u64>,
    r: Option<EarlySite>,
) -> bool {
    ({
        let choice = early_plan_spec(inputs.snapshot, inputs.alive_adults, inputs.shelter_capacity,
            inputs.can_place_stockpile, inputs.can_place_campfire, inputs.can_place_shelter);
        match r {
            None => choice is None || ({
                let side = (2 * layout.wall_radius + 1) as u32;
                let (w, h) = match choice.unwrap() {
                    EarlyStructurePlan::Stockpile => inputs.stockpile_size,
                    EarlyStructurePlan::Campfire => inputs.campfire_size,
                    EarlyStructurePlan::Shelter => (side, side),
                };
                forall|d: (int, int)| #[trigger] searched(inputs.search_radius, d)
                    ==> !site_available(map, buildings, inputs.origin.0 + d.0, inputs.origin.1 + d.1, w, h)
            }),
            Some(e) => {
                &&& choice == Some(e.plan)
                &&& (e.width, e.height) == (match e.plan {
                    EarlyStructurePlan::Stockpile => inputs.stockpile_size,
                    EarlyStructurePlan::Campfire => inputs.campfire_size,
                    EarlyStructurePlan::Shelter => ((2 * layout.wall_radius + 1) as u32, (2 * layout.wall_radius + 1) as u32),
                })
                &&& {
                    let d = (e.site.0 - inputs.origin.0, e.site.1 - inputs.origin.1);
                    &&& searched(inputs.search_radius, d)
                    &&& site_available(map, buildings, e.site.0 as int, e.site.1 as int, e.width, e.height)
                    &&& forall|d2: (int, int)| searched(inputs.search_radius, d2) && #[trigger] tried_before(d2, d)
                        ==> !site_available(map, buildings, inputs.origin.0 + d2.0, inputs.origin.1 + d2.1, e.width, e.height)
                }
                &&& e.shelter_centre == (if e.plan == EarlyStructurePlan::Shelter {
                    Some(((e.site.0 + layout.wall_radius) as i32, (e.site.1 + layout.wall_radius) as i32))
                } else {
                    None
                })
                &&& forall|i: int| 0 <= i < building_ids.len() ==> #[trigger] building_ids[i] < e.building_id
                &&& building_ids.len() == 0 ==> e.building_id == 1
                &&& building_ids.len() > 0 ==> exists|i: int| 0 <= i < building_ids.len() && e.building_id == building_ids[i] + 1
            },
        }
    })
}

/// Plan a settlement's next early structure: choose it (see
/// [`choose_early_structure_plan`]); a shelter takes the square of its wall
/// ring, a stockpile or campfire its own footprint; search for the first
/// available site (see [`find_build_site`]); the new building takes the
/// next free id. Nothing is planned without a choice or a site.
pub fn plan_early_site(
    inputs: EarlySiteInputs,
    layout: ShelterLayout,
    map: &PassableMap,
    buildings: &Vec<Footprint>,
    building_ids: &Vec<u64>,
) -> (r: Option<EarlySite>)
    requires
        map.wf(),
        inputs.snapshot.complete_shelter_count * inputs.shelter_capacity <= usize::MAX,
        0 <= layout.wall_radius <= 0x3fff_ffff,
        search_fits(inputs.origin.0, inputs.origin.1, inputs.search_radius, inputs.stockpile_size.0, inputs.stockpile_size.1),
        search_fits(inputs.origin.0, inputs.origin.1, inputs.search_radius, inputs.campfire_size.0, inputs.campfire_size.1),
        search_fits(inputs.origin.0, inputs.origin.1, inputs.search_radius, (2 * layout.wall_radius + 1) as u32, (2 * layout.wall_radius + 1) as u32),
        inputs.origin.0 + effective_radius(inputs.search_radius) + layout.wall_radius <= i32::MAX,
        inputs.origin.1 + effective_radius(inputs.search_radius) + layout.wall_radius <= i32::MAX,
        forall|i: int| 0 <= i < building_ids@.len() ==> #[trigger] building_ids@[i] < u64::MAX,
    ensures
        early_site_spec(inputs, layout, map, buildings@, building_ids@, r),
        inputs.snapshot.has_incomplete_site ==> r is None,
        inputs.snapshot.has_incomplete_shelter ==> !(r matches Some(e) && e.plan == EarlyStructurePlan::Shelter),
        r matches Some(e) ==> (e.shelter_centre is Some <==> e.plan == EarlyStructurePlan::Shelter),
        r matches Some(e) ==> forall|i: int| 0 <= i < building_ids@.len() ==> #[trigger] building_ids@[i] < e.building_id,
{
    let choice = choose_early_structure_plan(inputs.snapshot, inputs.alive_adults, inputs.shelter_capacity,
        inputs.can_place_stockpile, inputs.can_place_campfire, inputs.can_place_shelter);
    let plan = match choice {
        Some(p) => p,
        None => return None,
    };
    let side: u32 = (2 * layout.wall_radius + 1) as u32;
    let (w, h) = match plan {
        EarlyStructurePlan::Stockpile => inputs.stockpile_size,
        EarlyStructurePlan::Campfire => inputs.campfire_size,
        EarlyStructurePlan::Shelter => (side, side),
    };
    let found = find_build_site(map, buildings, inputs.origin.0, inputs.origin.1, inputs.search_radius, w, h);
    let site = match found {
        Some(s) => s,
        None => return None,
    };
    let centre = match plan {
        EarlyStructurePlan::Shelter => Some((site.0 + layout.wall_radius, site.1 + layout.wall_radius)),
        _ => None,
    };
    let building_id = next_building_id(building_ids);
    Some(EarlySite { plan, site, width: w, height: h, shelter_centre: centre, building_id })
}

/// One of the four orthogonal neighbours of `(x, y)` is on the map and
/// passable.
pub open spec fn passable_neighbour_spec(map: &PassableMap, x: int, y: int) -> bool {
    map.open_tile(x, y - 1) || map.open_tile(x + 1, y) || map.open_tile(x, y + 1) || map.open_tile(x - 1, y)
}

/// Whether tile `(x, y)` of the map is passable (false off the map).
fn open_at(map: &PassableMap, x: i64, y: i64) -> (b: bool)
    requires
        map.wf(),
    ensures
        b == map.open_tile(x as int, y as int),
{
    if x < 0 || y < 0 || x >= map.width as i64 || y >= map.height as i64 {
        return false;
    }
    let len = map.passable.len();
    proof {
        assert(y * map.width + x < map.width * map.height) by (nonlinear_arith)
            requires 0 <= x < map.width, 0 <= y < map.height;
    }
    map.passable[(y as u64 * map.width as u64 + x as u64) as usize]
}

/// Whether a tile has a passable orthogonal neighbour (checked up, right,
/// down, left).
pub fn has_passable_neighbor(map: &PassableMap, x: i32, y: i32) -> (b: bool)
    requires
        map.wf(),
    ensures
        b == passable_neighbour_spec(map, x as int, y as int),
{
    let (xx, yy) = (x as i64, y as i64);
    open_at(map, xx, yy - 1) || open_at(map, xx + 1, yy) || open_at(map, xx, yy + 1) || open_at(map, xx - 1, yy)
}

/// An agent as the adult census sees it.
#[derive(Debug, Clone, Copy)]
pub struct AdultRecord {
    pub alive: bool,
    pub adult: bool,
    pub settlement: Option<u64>,
}

/// Living adults of settlement `s` among `rs`.
pub open spec fn adults_of(rs: Seq<AdultRecord>, s: u64) -> nat
    decreases rs.len(),
{
    if rs.len() == 0 {
        0
    } else {
        let r = rs.last();
        adults_of(rs.drop_last(), s) + if r.alive && r.adult && r.settlement == Some(s) { 1nat } else { 0nat }
    }
}

/// Number of living adults in settlement `s`.
pub fn alive_adult_count(records: &Vec<AdultRecord>, s: u64) -> (n: usize)
    ensures
        n == adults_of(records@, s),
{
    let mut n: usize = 0;
    let mut i: usize = 0;
    while i < records.len()
        invariant
            0 <= i <= records@.len(),
            n == adults_of(records@.subrange(0, i as int), s),
            n <= i,
        decreases records@.len() - i,
    {
        let r = records[i];
        proof {
            assert(records@.subrange(0, i + 1).drop_last() =~= records@.subrange(0, i as int));
        }
        if r.alive && r.adult && r.settlement == Some(s) {
            n = n + 1;
        }
        i = i + 1;
    }
    proof {
        assert(records@.subrange(0, records@.len() as int) =~= records@);
    }
    n
}

/// One settlement's construction round: plan its next early structure
/// (see [`plan_early_site`]); its site joins the pending sites as settlement
/// `sid`'s new unfinished building; then pick the builder to retask for
/// every settlement with pending sites (see [`builders_to_retask`]).
pub fn early_construction_round(
    sid: u64,
    inputs: EarlySiteInputs,
    layout: ShelterLayout,
    map: &PassableMap,
    buildings: &Vec<Footprint>,
    building_ids: &Vec<u64>,
    workers: &Vec<WorkerView>,
    pending: &Vec<(u64, (i32, i32))>,
) -> (r: (Option<EarlySite>, Vec<(u64, usize)>))
    requires
        map.wf(),
        inputs.snapshot.complete_shelter_count * inputs.shelter_capacity <= usize::MAX,
        0 <= layout.wall_radius <= 0x3fff_ffff,
        search_fits(inputs.origin.0, inputs.origin.1, inputs.search_radius, inputs.stockpile_size.0, inputs.stockpile_size.1),
        search_fits(inputs.origin.0, inputs.origin.1, inputs.search_radius, inputs.campfire_size.0, inputs.campfire_size.1),
        search_fits(inputs.origin.0, inputs.origin.1, inputs.search_radius, (2 * layout.wall_radius + 1) as u32, (2 * layout.wall_radius + 1) as u32),
        inputs.origin.0 + effective_radius(inputs.search_radius) + layout.wall_radius <= i32::MAX,
        inputs.origin.1 + effective_radius(inputs.search_radius) + layout.wall_radius <= i32::MAX,
        forall|i: int| 0 <= i < building_ids@.len() ==> #[trigger] building_ids@[i] < u64::MAX,
    ensures
        early_site_spec(inputs, layout, map, buildings@, building_ids@, r.0),
        retask_spec(workers@, match r.0 {
            Some(e) => pending@.push((sid, e.site)),
            None => pending@,
        }, r.1@),
{
    let planned = plan_early_site(inputs, layout, map, buildings, building_ids);
    let mut sites: Vec<(u64, (i32, i32))> = Vec::new();
    let mut i: usize = 0;
    while i < pending.len()
        invariant
            0 <= i <= pending@.len(),
            sites@ == pending@.subrange(0, i as int),
        decreases pending@.len() - i,
    {
        sites.push(pending[i]);
        i = i + 1;
        proof {
            assert(sites@ =~= pending@.subrange(0, i as int));
        }
    }
    proof {
        assert(pending@.subrange(0, pending@.len() as int) =~= pending@);
    }
    match planned {
        Some(e) => sites.push((sid, e.site)),
        None => {},
    }
    let retask = builders_to_retask(workers, &sites);
    (planned, retask)
}

} // verus!
