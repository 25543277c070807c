use vstd::prelude::*;

use crate::agent::AgentId;
use crate::geometry::{chebyshev, chebyshev_spec};
use crate::settlement::{contains_id, distinct_ids, ids_ascending, sort_ids, Settlement, SettlementTable};
use crate::tiles::Tile;

verus! {

/// Food units a member draws from the reserve per relief.
pub const STOCKPILE_RELIEF_FOOD_PER_MEAL: u32 = 1;

/// A live agent that may carry food: its id, tile and carried food.
#[derive(Debug, Clone, Copy)]
pub struct Carrier {
    pub agent: AgentId,
    pub tile: Tile,
    pub food: u32,
}

/// Settlement `b` with only its reserve replaced: `a`.
pub open spec fn same_but_reserve(a: Settlement, b: Settlement) -> bool {
    &&& a.id == b.id && a.formation_tile == b.formation_tile && a.formation_event == b.formation_event
    &&& a.founded_at == b.founded_at && a.birth_last_tick == b.birth_last_tick
    &&& a.last_known_population == b.last_known_population
    &&& a.member_agents@ == b.member_agents@ && a.member_buildings@ == b.member_buildings@
    &&& a.current == b.current && a.total_births == b.total_births
    &&& a.community_history@ == b.community_history@
}

/// The carrier is a member of `s` and stands within `radius` of its anchor.
pub open spec fn carrier_at_home(c: Carrier, s: Settlement, radius: u32) -> bool {
    s.member_agents@.contains(c.agent) && chebyshev_spec(c.tile, s.formation_tile) <= radius
}

/// Food carried by all carriers.
pub open spec fn total_food(cs: Seq<Carrier>) -> nat
    decreases cs.len(),
{
    if cs.len() == 0 { 0 } else { total_food(cs.drop_last()) + cs.last().food as nat }
}

/// Food carried by the carriers at home in `s`.
pub open spec fn food_at_home(cs: Seq<Carrier>, s: Settlement, radius: u32) -> nat
    decreases cs.len(),
{
    if cs.len() == 0 {
        0
    } else {
        food_at_home(cs.drop_last(), s, radius) + if carrier_at_home(cs.last(), s, radius) { cs.last().food as nat } else { 0 }
    }
}

/// The carrier after a deposit into `s`: emptied if at home there.
pub open spec fn after_deposit(c: Carrier, s: Settlement, radius: u32) -> Carrier {
    if carrier_at_home(c, s, radius) { Carrier { food: 0, ..c } } else { c }
}

/// Food at home never exceeds the food carried, and what stays with the
/// carriers after a deposit is the rest.
pub proof fn lemma_deposit_balance(cs: Seq<Carrier>, s: Settlement, radius: u32)
    ensures
        food_at_home(cs, s, radius) <= total_food(cs),
        total_food(cs.map_values(|c: Carrier| after_deposit(c, s, radius))) + food_at_home(cs, s, radius) == total_food(cs),
    decreases cs.len(),
{
    if cs.len() > 0 {
        let f = |c: Carrier| after_deposit(c, s, radius);
        lemma_deposit_balance(cs.drop_last(), s, radius);
        assert(cs.map_values(f).drop_last() =~= cs.drop_last().map_values(f));
    }
}

/// Drain the food of every carrier that is a member of `s` and at home into
/// the reserve of `s`. Nothing else changes.
pub fn deposit_into(s: &mut Settlement, carriers: &mut Vec<Carrier>, radius: u32)
    requires
        old(s).stockpile_food + total_food(old(carriers)@) <= u64::MAX,
    ensures
        same_but_reserve(*final(s), *old(s)),
        final(s).stockpile_food == old(s).stockpile_food + food_at_home(old(carriers)@, *old(s), radius),
        final(carriers)@ == old(carriers)@.map_values(|c: Carrier| after_deposit(c, *old(s), radius)),
{
    let ghost s0 = *s;
    let ghost f = |c: Carrier| after_deposit(c, s0, radius);
    let ghost c0 = carriers@;
    proof {
        lemma_deposit_balance(c0, s0, radius);
    }
    let n = carriers.len();
    let mut k: usize = 0;
    while k < n
        invariant
            n == carriers@.len(),
            n == c0.len(),
            0 <= k <= n,
            c0 == old(carriers)@,
            s0 == *old(s),
            same_but_reserve(*s, s0),
            s.stockpile_food == s0.stockpile_food + food_at_home(c0.subrange(0, k as int), s0, radius),
            s0.stockpile_food + total_food(c0) <= u64::MAX,
            food_at_home(c0, s0, radius) <= total_food(c0),
            forall|j: int| 0 <= j < k ==> #[trigger] carriers@[j] == after_deposit(c0[j], s0, radius),
            forall|j: int| k <= j < n ==> #[trigger] carriers@[j] == c0[j],
        decreases n - k,
    {
        let c = carriers[k];
        proof {
            assert(c0.subrange(0, k + 1).drop_last() =~= c0.subrange(0, k as int));
            lemma_prefix_at_home(c0, s0, radius, k + 1);
        }
        let home = contains_id(&s.member_agents, c.agent) && chebyshev(c.tile, s.formation_tile) <= radius;
        if home {
            s.stockpile_food = s.stockpile_food + c.food as u64;
            carriers.set(k, Carrier { agent: c.agent, tile: c.tile, food: 0 });
        }
        proof {
            assert(home == carrier_at_home(c, s0, radius));
            assert(carriers@[k as int] == after_deposit(c0[k as int], s0, radius));
        }
        k = k + 1;
    }
    proof {
        assert(c0.subrange(0, n as int) =~= c0);
        assert(carriers@ =~= c0.map_values(f));
    }
}

/// The food at home in a prefix never exceeds that in the whole list.
pub proof fn lemma_prefix_at_home(cs: Seq<Carrier>, s: Settlement, radius: u32, k: int)
    requires
        0 <= k <= cs.len(),
    ensures
        food_at_home(cs.subrange(0, k), s, radius) <= food_at_home(cs, s, radius),
    decreases cs.len() - k,
{
    if k < cs.len() {
        lemma_prefix_at_home(cs, s, radius, k + 1);
        assert(cs.subrange(0, k + 1).drop_last() =~= cs.subrange(0, k));
    } else {
        assert(cs.subrange(0, k) =~= cs);
    }
}

/// Food held in the reserves of all settlements.
pub open spec fn total_stock(ss: Seq<Settlement>) -> nat
    decreases ss.len(),
{
    if ss.len() == 0 { 0 } else { total_stock(ss.drop_last()) + ss.last().stockpile_food as nat }
}

/// Replacing one settlement changes the total reserve by the change of its
/// reserve.
pub proof fn lemma_total_stock_update(ss: Seq<Settlement>, i: int, v: Settlement)
    requires
        0 <= i < ss.len(),
    ensures
        total_stock(ss.update(i, v)) + ss[i].stockpile_food == total_stock(ss) + v.stockpile_food,
    decreases ss.len(),
{
    if i < ss.len() - 1 {
        lemma_total_stock_update(ss.drop_last(), i, v);
        assert(ss.update(i, v).drop_last() =~= ss.drop_last().update(i, v));
    } else {
        assert(ss.update(i, v).drop_last() =~= ss.drop_last());
    }
}

/// The carrier is at home in some settlement of `ss`.
pub open spec fn home_somewhere(c: Carrier, ss: Seq<Settlement>, radius: u32) -> bool {
    exists|j: int| 0 <= j < ss.len() && carrier_at_home(c, #[trigger] ss[j], radius)
}

/// The carriers after the deposits into the first `i` settlements of
/// `ss`, in order.
pub open spec fn carriers_after(cs: Seq<Carrier>, ss: Seq<Settlement>, radius: u32, i: int) -> Seq<Carrier>
    decreases i,
{
    if i <= 0 {
        cs
    } else {
        carriers_after(cs, ss, radius, i - 1).map_values(|c: Carrier| after_deposit(c, ss[i - 1], radius))
    }
}

/// No agent is a member of two settlements of `ss`.
pub open spec fn memberships_disjoint(ss: Seq<Settlement>) -> bool {
    forall|i: int, j: int, a: AgentId|
        0 <= i < ss.len() && 0 <= j < ss.len() && i != j && #[trigger] ss[i].member_agents@.contains(a)
            ==> !#[trigger] ss[j].member_agents@.contains(a)
}

/// A deposit into `t` leaves untouched the food that members of another
/// settlement `s` carry at home there.
proof fn lemma_deposit_elsewhere(xs: Seq<Carrier>, ys: Seq<Carrier>, t: Settlement, s: Settlement, radius: u32)
    requires
        ys.len() == xs.len(),
        forall|k: int| 0 <= k < ys.len() ==> #[trigger] ys[k] == after_deposit(xs[k], t, radius),
        forall|a: AgentId| #[trigger] s.member_agents@.contains(a) ==> !t.member_agents@.contains(a),
    ensures
        food_at_home(ys, s, radius) == food_at_home(xs, s, radius),
    decreases xs.len(),
{
    if xs.len() > 0 {
        let xd = xs.drop_last();
        let yd = ys.drop_last();
        assert forall|k: int| 0 <= k < yd.len() implies #[trigger] yd[k] == after_deposit(xd[k], t, radius) by {
            assert(ys[k] == after_deposit(xs[k], t, radius));
        }
        lemma_deposit_elsewhere(xd, yd, t, s, radius);
        assert(ys.last() == after_deposit(xs.last(), t, radius));
    }
}

/// With disjoint memberships, the deposits into the settlements before the
/// `i`-th leave the food at home in the `i`-th as it was.
proof fn lemma_deposit_prefix(cs: Seq<Carrier>, ss: Seq<Settlement>, radius: u32, i: int, j: int)
    requires
        memberships_disjoint(ss),
        0 <= j <= i < ss.len(),
    ensures
        food_at_home(carriers_after(cs, ss, radius, j), ss[i], radius) == food_at_home(cs, ss[i], radius),
    decreases j,
{
    if j > 0 {
        lemma_deposit_prefix(cs, ss, radius, i, j - 1);
        let prev = carriers_after(cs, ss, radius, j - 1);
        let next = carriers_after(cs, ss, radius, j);
        assert forall|a: AgentId| #[trigger] ss[i].member_agents@.contains(a) implies !ss[j - 1].member_agents@.contains(a) by {
            assert(ss[i].member_agents@.contains(a) ==> !ss[j - 1].member_agents@.contains(a));
        }
        assert forall|k: int| 0 <= k < next.len() implies #[trigger] next[k] == after_deposit(prev[k], ss[j - 1], radius) by {}
        lemma_deposit_elsewhere(prev, next, ss[j - 1], ss[i], radius);
    }
}

/// The passive deposit system: members near home hand their food to the
/// settlement reserve.
#[derive(Debug, Clone, Copy)]
pub struct StockpileDepositSystem;

impl StockpileDepositSystem {
    /// A new deposit system.
    pub fn new() -> (s: StockpileDepositSystem) {
        StockpileDepositSystem
    }

    /// Name under which the system is scheduled.
    pub fn name(&self) -> (n: &'static str)
        ensures
            n@ == "StockpileDepositSystem"@,
    {
        "StockpileDepositSystem"
    }

    /// Scheduling priority.
    pub fn priority(&self) -> (p: u32)
        ensures
            p == 141,
    {
        141
    }

    /// Ticks between runs.
    pub fn tick_interval(&self) -> (t: u64)
        ensures
            t == 10,
    {
        10
    }

    /// For each settlement in id order, every carrier that is a member and
    /// within `radius` of its anchor drains all its food into the reserve.
    /// Food is neither made nor lost: carried food plus reserves is the same
    /// before and after; a carrier ends empty exactly when it was at home in
    /// some settlement. When no agent is a member of two settlements, each
    /// reserve grows by exactly the food its members carried at home.
    pub fn tick(&self, table: &mut SettlementTable, carriers: &mut Vec<Carrier>, radius: u32)
        requires
            forall|i: int| 0 <= i < old(table).settlements@.len() ==>
                (#[trigger] old(table).settlements@[i]).stockpile_food + total_food(old(carriers)@) <= u64::MAX,
        ensures
            final(table).settlements@.len() == old(table).settlements@.len(),
            final(table).next_settlement_id == old(table).next_settlement_id,
            final(table).next_event_id == old(table).next_event_id,
            final(table).next_agent_id == old(table).next_agent_id,
            forall|i: int| 0 <= i < final(table).settlements@.len() ==> {
                &&& same_but_reserve(#[trigger] final(table).settlements@[i], old(table).settlements@[i])
                &&& final(table).settlements@[i].stockpile_food >= old(table).settlements@[i].stockpile_food
            },
            old(table).wf() ==> final(table).wf(),
            total_stock(final(table).settlements@) + total_food(final(carriers)@)
                == total_stock(old(table).settlements@) + total_food(old(carriers)@),
            final(carriers)@.len() == old(carriers)@.len(),
            forall|k: int| 0 <= k < final(carriers)@.len() ==> #[trigger] final(carriers)@[k] == (
                if home_somewhere(old(carriers)@[k], old(table).settlements@, radius) {
                    Carrier { food: 0, ..old(carriers)@[k] }
                } else {
                    old(carriers)@[k]
                }),
            forall|i: int| 0 <= i < final(table).settlements@.len() ==>
                (#[trigger] final(table).settlements@[i]).stockpile_food == old(table).settlements@[i].stockpile_food
                    + food_at_home(carriers_after(old(carriers)@, old(table).settlements@, radius, i), old(table).settlements@[i], radius),
            final(carriers)@ == carriers_after(old(carriers)@, old(table).settlements@, radius, old(table).settlements@.len() as int),
            memberships_disjoint(old(table).settlements@) ==> forall|i: int| 0 <= i < final(table).settlements@.len() ==>
                (#[trigger] final(table).settlements@[i]).stockpile_food == old(table).settlements@[i].stockpile_food
                    + food_at_home(old(carriers)@, old(table).settlements@[i], radius),
    {
        let ghost ss0 = table.settlements@;
        let ghost c0 = carriers@;
        let n = table.settlements.len();
        let mut i: usize = 0;
        while i < n
            invariant
                n == table.settlements@.len(),
                n == ss0.len(),
                0 <= i <= n,
                ss0 == old(table).settlements@,
                c0 == old(carriers)@,
                table.next_settlement_id == old(table).next_settlement_id,
                table.next_event_id == old(table).next_event_id,
                table.next_agent_id == old(table).next_agent_id,
                forall|j: int| 0 <= j < n ==> (#[trigger] ss0[j]).stockpile_food + total_food(c0) <= u64::MAX,
                forall|j: int| i <= j < n ==> #[trigger] table.settlements@[j] == ss0[j],
                forall|j: int| 0 <= j < i ==> {
                    &&& same_but_reserve(#[trigger] table.settlements@[j], ss0[j])
                    &&& table.settlements@[j].stockpile_food >= ss0[j].stockpile_food
                },
                total_food(carriers@) <= total_food(c0),
                total_stock(table.settlements@) + total_food(carriers@) == total_stock(ss0) + total_food(c0),
                carriers@.len() == c0.len(),
                forall|k: int| 0 <= k < carriers@.len() ==> #[trigger] carriers@[k] == (
                    if home_somewhere(c0[k], ss0.subrange(0, i as int), radius) {
                        Carrier { food: 0, ..c0[k] }
                    } else {
                        c0[k]
                    }),
                carriers@ == carriers_after(c0, ss0, radius, i as int),
                forall|j: int| 0 <= j < i ==> (#[trigger] table.settlements@[j]).stockpile_food == ss0[j].stockpile_food
                    + food_at_home(carriers_after(c0, ss0, radius, j), ss0[j], radius),
            decreases n - i,
        {
            let ghost before = table.settlements@;
            let ghost cb = carriers@;
            let mut s = table.settlements.remove(i);
            proof {
                assert(s == ss0[i as int]);
                lemma_deposit_balance(cb, s, radius);
            }
            deposit_into(&mut s, carriers, radius);
            proof {
                lemma_deposit_balance(cb, ss0[i as int], radius);
                lemma_total_stock_update(before, i as int, s);
            }
            table.settlements.insert(i, s);
            proof {
                assert(table.settlements@ =~= before.update(i as int, s));
                assert(carriers@ =~= carriers_after(c0, ss0, radius, i + 1));
                assert forall|j: int| 0 <= j < i + 1 implies (#[trigger] table.settlements@[j]).stockpile_food == ss0[j].stockpile_food
                    + food_at_home(carriers_after(c0, ss0, radius, j), ss0[j], radius) by {
                    if j < i {
                        assert(table.settlements@[j] == before[j]);
                    }
                }
                assert forall|k: int| 0 <= k < carriers@.len() implies #[trigger] carriers@[k] == (
                    if home_somewhere(c0[k], ss0.subrange(0, i + 1), radius) {
                        Carrier { food: 0, ..c0[k] }
                    } else {
                        c0[k]
                    }) by {
                    let sub = ss0.subrange(0, i as int);
                    let sub1 = ss0.subrange(0, i + 1);
                    assert(carriers@[k] == after_deposit(cb[k], ss0[i as int], radius));
                    if home_somewhere(c0[k], sub, radius) {
                        let j = choose|j: int| 0 <= j < sub.len() && carrier_at_home(c0[k], #[trigger] sub[j], radius);
                        assert(sub1[j] == sub[j]);
                    }
                    if carrier_at_home(c0[k], ss0[i as int], radius) {
                        assert(sub1[i as int] == ss0[i as int]);
                    }
                    if home_somewhere(c0[k], sub1, radius) && !carrier_at_home(c0[k], ss0[i as int], radius) {
                        let j = choose|j: int| 0 <= j < sub1.len() && carrier_at_home(c0[k], #[trigger] sub1[j], radius);
                        assert(sub[j] == sub1[j]);
                    }
                }
            }
            i = i + 1;
        }
        proof {
            assert(ss0.subrange(0, n as int) =~= ss0);
            if memberships_disjoint(ss0) {
                assert forall|j: int| 0 <= j < table.settlements@.len() implies (#[trigger] table.settlements@[j]).stockpile_food
                    == ss0[j].stockpile_food + food_at_home(c0, ss0[j], radius) by {
                    lemma_deposit_prefix(c0, ss0, radius, j, j);
                }
            }
            if old(table).wf() {
                assert forall|a: int, b: int| 0 <= a < b < table.settlements@.len() implies
                    #[trigger] table.settlements@[a].id < #[trigger] table.settlements@[b].id by {
                    assert(ss0[a].id < ss0[b].id);
                }
                assert forall|a: int| 0 <= a < table.settlements@.len() implies #[trigger] table.settlements@[a].id < table.next_settlement_id by {
                    assert(ss0[a].id < old(table).next_settlement_id);
                }
                assert forall|a: int| 0 <= a < table.settlements@.len() implies distinct_ids(#[trigger] table.settlements@[a].member_agents@) by {
                    assert(distinct_ids(ss0[a].member_agents@));
                }
                assert forall|a: int| 0 <= a < table.settlements@.len() implies distinct_ids(#[trigger] table.settlements@[a].member_buildings@) by {
                    assert(distinct_ids(ss0[a].member_buildings@));
                }
            }
        }
    }
}

/// A live agent that may draw on a reserve: its id, tile, whether it is
/// already eating from a food tile, and how many meals it takes before it is
/// no longer hungry enough to draw (0 for an agent that is not hungry).
#[derive(Debug, Clone, Copy)]
pub struct Diner {
    pub agent: AgentId,
    pub tile: Tile,
    pub eating_ground: bool,
    pub meals_wanted: u32,
}

/// Each agent has at most one diner entry.
pub open spec fn distinct_diners(ds: Seq<Diner>) -> bool {
    forall|a: int, b: int| 0 <= a < ds.len() && 0 <= b < ds.len() && a != b ==> #[trigger] ds[a].agent != #[trigger] ds[b].agent
}

/// Member `m` of `s` qualifies for relief: it is alive, within `radius` of
/// the anchor, not eating from a food tile, and hungry.
pub open spec fn wants_relief(ds: Seq<Diner>, m: AgentId, s: Settlement, radius: u32) -> bool {
    exists|k: int| 0 <= k < ds.len() && #[trigger] ds[k].agent == m
        && chebyshev_spec(ds[k].tile, s.formation_tile) <= radius
        && !ds[k].eating_ground && ds[k].meals_wanted > 0
}

/// Meals wanted by all diners.
pub open spec fn total_meals(ds: Seq<Diner>) -> nat
    decreases ds.len(),
{
    if ds.len() == 0 { 0 } else { total_meals(ds.drop_last()) + ds.last().meals_wanted as nat }
}

/// Lowering one diner's wanted meals by one lowers the total by one.
pub proof fn lemma_total_meals_update(ds: Seq<Diner>, k: int, v: Diner)
    requires
        0 <= k < ds.len(),
    ensures
        total_meals(ds.update(k, v)) + ds[k].meals_wanted == total_meals(ds) + v.meals_wanted,
    decreases ds.len(),
{
    if k < ds.len() - 1 {
        lemma_total_meals_update(ds.drop_last(), k, v);
        assert(ds.update(k, v).drop_last() =~= ds.drop_last().update(k, v));
    } else {
        assert(ds.update(k, v).drop_last() =~= ds.drop_last());
    }
}

/// The diner of `agent`, if any.
fn find_diner(ds: &Vec<Diner>, agent: AgentId) -> (r: Option<usize>)
    ensures
        match r {
            Some(k) => k < ds@.len() && ds@[k as int].agent == agent,
            None => forall|k: int| 0 <= k < ds@.len() ==> (#[trigger] ds@[k]).agent != agent,
        },
{
    let mut k: usize = 0;
    while k < ds.len()
        invariant
            0 <= k <= ds@.len(),
            forall|j: int| 0 <= j < k ==> (#[trigger] ds@[j]).agent != agent,
        decreases ds@.len() - k,
    {
        if ds[k].agent == agent {
            return Some(k);
        }
        k = k + 1;
    }
    None
}

/// The diner after the reliefs in `relieved`: one meal fewer if relieved.
pub open spec fn after_relief(d: Diner, relieved: Seq<AgentId>) -> Diner {
    if relieved.contains(d.agent) { Diner { meals_wanted: (d.meals_wanted - 1) as u32, ..d } } else { d }
}

/// Which members of `s` are relieved, judged on diners `d`, and what it
/// leaves of the reserve: the qualifying members are relieved lowest id
/// first, one meal each, while the reserve lasts; each relief takes one
/// unit of the reserve; `s2` is `s` after that.
pub open spec fn relief_choice(s: Settlement, d: Seq<Diner>, radius: u32, relieved: Seq<AgentId>, s2: Settlement) -> bool {
    &&& same_but_reserve(s2, s)
    &&& relieved.len() <= s.stockpile_food
    &&& s2.stockpile_food == s.stockpile_food - relieved.len()
    &&& ids_ascending(relieved)
    &&& forall|x: AgentId| #[trigger] relieved.contains(x) ==> s.member_agents@.contains(x) && wants_relief(d, x, s, radius)
    &&& (relieved.len() == s.stockpile_food || forall|m: AgentId|
        s.member_agents@.contains(m) && #[trigger] wants_relief(d, m, s, radius) ==> relieved.contains(m))
    &&& forall|m: AgentId, x: AgentId|
        s.member_agents@.contains(m) && #[trigger] wants_relief(d, m, s, radius)
        && !relieved.contains(m) && #[trigger] relieved.contains(x) ==> x < m
}

/// Relieving settlement `s` with diners `d` gives `relieved`, turns `s`
/// into `s2` and the diners into `d2`: the choice of [`relief_choice`],
/// and one wanted meal fewer for each relieved member.
pub open spec fn consume_rel(
    s: Settlement,
    d: Seq<Diner>,
    radius: u32,
    relieved: Seq<AgentId>,
    s2: Settlement,
    d2: Seq<Diner>,
) -> bool {
    &&& relief_choice(s, d, radius, relieved, s2)
    &&& d2.len() == d.len()
    &&& forall|k: int| 0 <= k < d2.len() ==> #[trigger] d2[k] == after_relief(d[k], relieved)
}

/// The reliefs of several settlements, one after another.
pub open spec fn concat_reliefs(segs: Seq<Seq<AgentId>>) -> Seq<AgentId>
    decreases segs.len(),
{
    if segs.len() == 0 { seq![] } else { concat_reliefs(segs.drop_last()) + segs.last() }
}

/// Every relief of a concatenation comes from one of its segments.
proof fn lemma_concat_member(segs: Seq<Seq<AgentId>>, x: AgentId)
    requires
        concat_reliefs(segs).contains(x),
    ensures
        exists|j: int| 0 <= j < segs.len() && #[trigger] segs[j].contains(x),
    decreases segs.len(),
{
    if segs.len() == 0 {
        assert(concat_reliefs(segs) =~= Seq::<AgentId>::empty());
    } else {
        let c = concat_reliefs(segs.drop_last());
        let all = concat_reliefs(segs);
        assert(all == c + segs.last());
        let t = choose|t: int| 0 <= t < all.len() && all[t] == x;
        if t < c.len() {
            assert(c[t] == x);
            lemma_concat_member(segs.drop_last(), x);
            let j = choose|j: int| 0 <= j < segs.drop_last().len() && #[trigger] segs.drop_last()[j].contains(x);
            assert(segs[j] == segs.drop_last()[j]);
        } else {
            assert(segs.last()[t - c.len()] == x);
            assert(segs[segs.len() - 1].contains(x));
        }
    }
}

/// The settlements of `ss` relieved one after another: relieving the `i`-th
/// with diners `ds[i]` gives `segs[i]`, turns it into `ss2[i]` and the
/// diners into `ds[i + 1]`.
spec fn relief_chain(ss: Seq<Settlement>, ss2: Seq<Settlement>, ds: Seq<Seq<Diner>>, segs: Seq<Seq<AgentId>>, radius: u32) -> bool {
    &&& ds.len() == ss.len() + 1
    &&& segs.len() == ss.len()
    &&& ss2.len() == ss.len()
    &&& forall|i: int| 0 <= i < segs.len() ==> consume_rel(ss[i], #[trigger] ds[i], radius, segs[i], ss2[i], ds[i + 1])
}

/// A relief among the first `j` segments is a member of a settlement before
/// the `j`-th; with disjoint memberships no member of a later settlement is
/// among them.
proof fn lemma_not_relieved_before(
    ss: Seq<Settlement>, ss2: Seq<Settlement>, ds: Seq<Seq<Diner>>, segs: Seq<Seq<AgentId>>, radius: u32, j: int, i: int, m: AgentId,
)
    requires
        relief_chain(ss, ss2, ds, segs, radius),
        memberships_disjoint(ss),
        0 <= j <= i < ss.len(),
        ss[i].member_agents@.contains(m),
    ensures
        !concat_reliefs(segs.take(j)).contains(m),
{
    if concat_reliefs(segs.take(j)).contains(m) {
        lemma_concat_member(segs.take(j), m);
        let t = choose|t: int| 0 <= t < segs.take(j).len() && #[trigger] segs.take(j)[t].contains(m);
        assert(segs.take(j)[t] == segs[t]);
        assert(consume_rel(ss[t], ds[t], radius, segs[t], ss2[t], ds[t + 1]));
        assert(ss[t].member_agents@.contains(m));
        assert(!ss[i].member_agents@.contains(m));
    }
}

/// With disjoint memberships each diner, after the first `j` settlements,
/// has one wanted meal fewer exactly when one of them relieved it.
proof fn lemma_chain_diners(ss: Seq<Settlement>, ss2: Seq<Settlement>, ds: Seq<Seq<Diner>>, segs: Seq<Seq<AgentId>>, radius: u32, j: int)
    requires
        relief_chain(ss, ss2, ds, segs, radius),
        memberships_disjoint(ss),
        0 <= j <= ss.len(),
    ensures
        ds[j].len() == ds[0].len(),
        forall|k: int| 0 <= k < ds[j].len() ==> #[trigger] ds[j][k] == after_relief(ds[0][k], concat_reliefs(segs.take(j))),
    decreases j,
{
    if j == 0 {
        assert(segs.take(0) =~= Seq::<Seq<AgentId>>::empty());
        assert(concat_reliefs(segs.take(0)) =~= Seq::<AgentId>::empty());
    } else {
        lemma_chain_diners(ss, ss2, ds, segs, radius, j - 1);
        let c = concat_reliefs(segs.take(j - 1));
        let g = segs[j - 1];
        assert(segs.take(j).drop_last() =~= segs.take(j - 1));
        assert(concat_reliefs(segs.take(j)) == c + g);
        assert(consume_rel(ss[j - 1], ds[j - 1], radius, g, ss2[j - 1], ds[j]));
        assert forall|k: int| 0 <= k < ds[j].len() implies #[trigger] ds[j][k] == after_relief(ds[0][k], c + g) by {
            let a = ds[0][k].agent;
            assert(ds[j][k] == after_relief(ds[j - 1][k], g));
            assert(ds[j - 1][k] == after_relief(ds[0][k], c));
            if g.contains(a) {
                assert(ss[j - 1].member_agents@.contains(a));
                lemma_not_relieved_before(ss, ss2, ds, segs, radius, j - 1, j - 1, a);
                let t = choose|t: int| 0 <= t < g.len() && g[t] == a;
                assert((c + g)[c.len() + t] == a);
            } else {
                if (c + g).contains(a) {
                    let t = choose|t: int| 0 <= t < (c + g).len() && (c + g)[t] == a;
                    if t < c.len() {
                        assert(c[t] == a);
                    } else {
                        assert(g[t - c.len()] == a);
                    }
                }
                if c.contains(a) {
                    let t = choose|t: int| 0 <= t < c.len() && c[t] == a;
                    assert((c + g)[t] == a);
                }
            }
        }
    }
}

/// With disjoint memberships the choice made for the `i`-th settlement is
/// the one judged on the diners as they were before any relief.
proof fn lemma_chain_choice(ss: Seq<Settlement>, ss2: Seq<Settlement>, ds: Seq<Seq<Diner>>, segs: Seq<Seq<AgentId>>, radius: u32, i: int)
    requires
        relief_chain(ss, ss2, ds, segs, radius),
        memberships_disjoint(ss),
        0 <= i < ss.len(),
    ensures
        relief_choice(ss[i], ds[0], radius, segs[i], ss2[i]),
{
    lemma_chain_diners(ss, ss2, ds, segs, radius, i);
    let s = ss[i];
    let d0 = ds[0];
    let di = ds[i];
    let c = concat_reliefs(segs.take(i));
    assert(consume_rel(s, di, radius, segs[i], ss2[i], ds[i + 1]));
    assert forall|m: AgentId| s.member_agents@.contains(m) implies
        #[trigger] wants_relief(d0, m, s, radius) == #[trigger] wants_relief(di, m, s, radius) by {
        lemma_not_relieved_before(ss, ss2, ds, segs, radius, i, i, m);
        if wants_relief(d0, m, s, radius) {
            let k = choose|k: int| 0 <= k < d0.len() && #[trigger] d0[k].agent == m
                && chebyshev_spec(d0[k].tile, s.formation_tile) <= radius && !d0[k].eating_ground && d0[k].meals_wanted > 0;
            assert(di[k] == after_relief(d0[k], c));
            assert(di[k] == d0[k]);
        }
        if wants_relief(di, m, s, radius) {
            let k = choose|k: int| 0 <= k < di.len() && #[trigger] di[k].agent == m
                && chebyshev_spec(di[k].tile, s.formation_tile) <= radius && !di[k].eating_ground && di[k].meals_wanted > 0;
            assert(di[k] == after_relief(d0[k], c));
            assert(di[k] == d0[k]);
        }
    }
    let r = segs[i];
    assert(relief_choice(s, di, radius, r, ss2[i]));
    assert forall|x: AgentId| #[trigger] r.contains(x) implies s.member_agents@.contains(x) && wants_relief(d0, x, s, radius) by {
        assert(s.member_agents@.contains(x) && wants_relief(di, x, s, radius));
    }
    if r.len() != s.stockpile_food {
        assert forall|m: AgentId| s.member_agents@.contains(m) && #[trigger] wants_relief(d0, m, s, radius) implies r.contains(m) by {
            assert(wants_relief(di, m, s, radius));
        }
    }
    assert forall|m: AgentId, x: AgentId|
        s.member_agents@.contains(m) && #[trigger] wants_relief(d0, m, s, radius) && !r.contains(m) && #[trigger] r.contains(x)
        implies x < m by {
        assert(wants_relief(di, m, s, radius));
    }
}

/// Relieve the members of `s` that qualify, lowest id first, one meal each,
/// while the reserve lasts. Returns the relieved members in that order.
/// Each relief takes exactly one unit from the reserve and one wanted meal
/// from the member; once the reserve is empty the remaining qualifying
/// members go without.
pub fn consume_from(s: &mut Settlement, diners: &mut Vec<Diner>, radius: u32) -> (relieved: Vec<AgentId>)
    requires
        distinct_ids(old(s).member_agents@),
        distinct_diners(old(diners)@),
    ensures
        same_but_reserve(*final(s), *old(s)),
        relieved@.len() <= old(s).stockpile_food,
        final(s).stockpile_food == old(s).stockpile_food - relieved@.len(),
        ids_ascending(relieved@),
        forall|x: AgentId| #[trigger] relieved@.contains(x) ==>
            old(s).member_agents@.contains(x) && wants_relief(old(diners)@, x, *old(s), radius),
        relieved@.len() == old(s).stockpile_food || forall|m: AgentId|
            old(s).member_agents@.contains(m) && #[trigger] wants_relief(old(diners)@, m, *old(s), radius) ==> relieved@.contains(m),
        forall|m: AgentId, x: AgentId|
            old(s).member_agents@.contains(m) && #[trigger] wants_relief(old(diners)@, m, *old(s), radius)
            && !relieved@.contains(m) && #[trigger] relieved@.contains(x) ==> x < m,
        final(diners)@.len() == old(diners)@.len(),
        forall|k: int| 0 <= k < final(diners)@.len() ==> #[trigger] final(diners)@[k] == after_relief(old(diners)@[k], relieved@),
        total_meals(final(diners)@) + relieved@.len() == total_meals(old(diners)@),
        consume_rel(*old(s), old(diners)@, radius, relieved@, *final(s), final(diners)@),
{
    let ghost s0 = *s;
    let ghost d0 = diners@;
    let sorted = sort_ids(&s.member_agents);
    let stock0 = s.stockpile_food;
    let mut relieved: Vec<AgentId> = Vec::new();
    let mut i: usize = 0;
    while i < sorted.len()
        invariant
            0 <= i <= sorted@.len(),
            ids_ascending(sorted@),
            sorted@.to_set() == s0.member_agents@.to_set(),
            s0 == *old(s),
            d0 == old(diners)@,
            distinct_diners(d0),
            stock0 == s0.stockpile_food,
            same_but_reserve(*s, s0),
            relieved@.len() <= stock0,
            s.stockpile_food == stock0 - relieved@.len(),
            ids_ascending(relieved@),
            forall|a: int| 0 <= a < relieved@.len() ==> exists|j: int| 0 <= j < i && sorted@[j] == #[trigger] relieved@[a],
            forall|x: AgentId| #[trigger] relieved@.contains(x) ==> wants_relief(d0, x, s0, radius),
            forall|j: int| 0 <= j < i && wants_relief(d0, #[trigger] sorted@[j], s0, radius) && !relieved@.contains(sorted@[j]) ==>
                s.stockpile_food == 0 && forall|x: AgentId| #[trigger] relieved@.contains(x) ==> x < sorted@[j],
            diners@.len() == d0.len(),
            forall|k: int| 0 <= k < diners@.len() ==> #[trigger] diners@[k] == after_relief(d0[k], relieved@),
            total_meals(diners@) + relieved@.len() == total_meals(d0),
        decreases sorted@.len() - i,
    {
        let m = sorted[i];
        proof {
            assert forall|a: int| 0 <= a < relieved@.len() implies #[trigger] relieved@[a] < m by {
                let j = choose|j: int| 0 <= j < i && sorted@[j] == relieved@[a];
            }
            assert(!relieved@.contains(m)) by {
                if relieved@.contains(m) {
                    let a = choose|a: int| 0 <= a < relieved@.len() && relieved@[a] == m;
                }
            }
        }
        match find_diner(diners, m) {
            Some(k) => {
                let d = diners[k];
                proof {
                    assert(d == d0[k as int]);
                }
                let qualifies = chebyshev(d.tile, s.formation_tile) <= radius && !d.eating_ground && d.meals_wanted > 0;
                proof {
                    if wants_relief(d0, m, s0, radius) {
                        let k2 = choose|k2: int| 0 <= k2 < d0.len() && #[trigger] d0[k2].agent == m
                            && chebyshev_spec(d0[k2].tile, s0.formation_tile) <= radius
                            && !d0[k2].eating_ground && d0[k2].meals_wanted > 0;
                        assert(k2 == k as int);
                    }
                    assert(qualifies == wants_relief(d0, m, s0, radius));
                }
                if qualifies && s.stockpile_food > 0 {
                    let ghost rb = relieved@;
                    let ghost db = diners@;
                    s.stockpile_food = s.stockpile_food - STOCKPILE_RELIEF_FOOD_PER_MEAL as u64;
                    let nd = Diner { agent: d.agent, tile: d.tile, eating_ground: d.eating_ground, meals_wanted: d.meals_wanted - 1 };
                    diners.set(k, nd);
                    relieved.push(m);
                    proof {
                        lemma_total_meals_update(db, k as int, nd);
                        assert(diners@ =~= db.update(k as int, nd));
                        assert forall|x: AgentId| #[trigger] relieved@.contains(x) implies rb.contains(x) || x == m by {
                            let a = choose|a: int| 0 <= a < relieved@.len() && relieved@[a] == x;
                            if a < rb.len() { assert(rb[a] == x); }
                        }
                        assert forall|x: AgentId| rb.contains(x) implies #[trigger] relieved@.contains(x) by {
                            let a = choose|a: int| 0 <= a < rb.len() && rb[a] == x;
                            assert(relieved@[a] == x);
                        }
                        assert(relieved@[relieved@.len() - 1] == m);
                        assert forall|q: int| 0 <= q < diners@.len() implies #[trigger] diners@[q] == after_relief(d0[q], relieved@) by {
                            if q != k as int {
                                assert(d0[q].agent != m);
                                assert(relieved@.contains(d0[q].agent) == rb.contains(d0[q].agent));
                            }
                        }
                        assert forall|a: int| 0 <= a < relieved@.len() implies exists|j: int| 0 <= j < i + 1 && sorted@[j] == #[trigger] relieved@[a] by {
                            if a < rb.len() {
                                assert(relieved@[a] == rb[a]);
                                let j = choose|j: int| 0 <= j < i && sorted@[j] == rb[a];
                            } else {
                                assert(sorted@[i as int] == relieved@[a]);
                            }
                        }
                    }
                }
            },
            None => {
                proof {
                    assert forall|q: int| 0 <= q < d0.len() implies (#[trigger] d0[q]).agent != m by {
                        assert(diners@[q].agent == d0[q].agent);
                    }
                    assert(!wants_relief(d0, m, s0, radius));
                }
            },
        }
        i = i + 1;
    }
    proof {
        assert forall|x: AgentId| #[trigger] relieved@.contains(x) implies s0.member_agents@.contains(x) by {
            let a = choose|a: int| 0 <= a < relieved@.len() && relieved@[a] == x;
            let j = choose|j: int| 0 <= j < i && sorted@[j] == relieved@[a];
            assert(sorted@.to_set().contains(x));
        }
        assert forall|m: AgentId| s0.member_agents@.contains(m) && wants_relief(d0, m, s0, radius) && !relieved@.contains(m)
            implies s.stockpile_food == 0 && forall|x: AgentId| #[trigger] relieved@.contains(x) ==> x < m by {
            assert(sorted@.to_set().contains(m));
            let j = choose|j: int| 0 <= j < sorted@.len() && sorted@[j] == m;
        }
    }
    relieved
}

/// The famine-fallback consume system: hungry members near home draw one
/// meal at a time from the settlement reserve.
#[derive(Debug, Clone, Copy)]
pub struct StockpileConsumeSystem;

impl StockpileConsumeSystem {
    /// A new consume system.
    pub fn new() -> (s: StockpileConsumeSystem) {
        StockpileConsumeSystem
    }

    /// Name under which the system is scheduled.
    pub fn name(&self) -> (n: &'static str)
        ensures
            n@ == "StockpileConsumeSystem"@,
    {
        "StockpileConsumeSystem"
    }

    /// Scheduling priority.
    pub fn priority(&self) -> (p: u32)
        ensures
            p == 142,
    {
        142
    }

    /// Ticks between runs.
    pub fn tick_interval(&self) -> (t: u64)
        ensures
            t == 5,
    {
        5
    }

    /// For each settlement in id order, relieve its qualifying members as
    /// [`consume_from`] does. Returns every relief, in order. Mass balance:
    /// the reserves shrink by exactly the number of reliefs, and so do the
    /// wanted meals; nothing else of a settlement or a diner changes. When
    /// no agent is a member of two settlements, each settlement's reliefs
    /// are chosen on the diners as they came in, and a diner loses one
    /// wanted meal exactly when it was relieved.
    pub fn tick(&self, table: &mut SettlementTable, diners: &mut Vec<Diner>, radius: u32) -> (reliefs: Vec<AgentId>)
        requires
            old(table).wf(),
            distinct_diners(old(diners)@),
        ensures
            final(table).wf(),
            final(table).settlements@.len() == old(table).settlements@.len(),
            final(table).next_settlement_id == old(table).next_settlement_id,
            final(table).next_event_id == old(table).next_event_id,
            final(table).next_agent_id == old(table).next_agent_id,
            forall|i: int| 0 <= i < final(table).settlements@.len() ==> {
                &&& same_but_reserve(#[trigger] final(table).settlements@[i], old(table).settlements@[i])
                &&& final(table).settlements@[i].stockpile_food <= old(table).settlements@[i].stockpile_food
            },
            total_stock(final(table).settlements@) + reliefs@.len() == total_stock(old(table).settlements@),
            total_meals(final(diners)@) + reliefs@.len() == total_meals(old(diners)@),
            final(diners)@.len() == old(diners)@.len(),
            forall|k: int| 0 <= k < final(diners)@.len() ==> {
                &&& (#[trigger] final(diners)@[k]).agent == old(diners)@[k].agent
                &&& final(diners)@[k].tile == old(diners)@[k].tile
                &&& final(diners)@[k].eating_ground == old(diners)@[k].eating_ground
                &&& final(diners)@[k].meals_wanted <= old(diners)@[k].meals_wanted
            },
            memberships_disjoint(old(table).settlements@) ==> {
                &&& forall|k: int| 0 <= k < final(diners)@.len() ==>
                    #[trigger] final(diners)@[k] == after_relief(old(diners)@[k], reliefs@)
                &&& exists|segs: Seq<Seq<AgentId>>| {
                    &&& segs.len() == old(table).settlements@.len()
                    &&& reliefs@ == concat_reliefs(segs)
                    &&& forall|i: int| 0 <= i < segs.len() ==> relief_choice(old(table).settlements@[i], old(diners)@, radius,
                        #[trigger] segs[i], final(table).settlements@[i])
                }
            },
            exists|ds: Seq<Seq<Diner>>, segs: Seq<Seq<AgentId>>| {
                &&& ds.len() == old(table).settlements@.len() + 1
                &&& segs.len() == old(table).settlements@.len()
                &&& ds[0] == old(diners)@
                &&& ds[ds.len() - 1] == final(diners)@
                &&& reliefs@ == concat_reliefs(segs)
                &&& forall|i: int| 0 <= i < segs.len() ==> consume_rel(old(table).settlements@[i], #[trigger] ds[i], radius,
                    segs[i], final(table).settlements@[i], ds[i + 1])
            },
    {
        let ghost ss0 = table.settlements@;
        let ghost d0 = diners@;
        let ghost mut ds: Seq<Seq<Diner>> = seq![diners@];
        let ghost mut segs: Seq<Seq<AgentId>> = seq![];
        let mut reliefs: Vec<AgentId> = Vec::new();
        let n = table.settlements.len();
        let mut i: usize = 0;
        while i < n
            invariant
                n == table.settlements@.len(),
                n == ss0.len(),
                0 <= i <= n,
                ss0 == old(table).settlements@,
                d0 == old(diners)@,
                old(table).wf(),
                table.next_settlement_id == old(table).next_settlement_id,
                table.next_event_id == old(table).next_event_id,
                table.next_agent_id == old(table).next_agent_id,
                forall|j: int| i <= j < n ==> #[trigger] table.settlements@[j] == ss0[j],
                forall|j: int| 0 <= j < i ==> {
                    &&& same_but_reserve(#[trigger] table.settlements@[j], ss0[j])
                    &&& table.settlements@[j].stockpile_food <= ss0[j].stockpile_food
                },
                total_stock(table.settlements@) + reliefs@.len() == total_stock(ss0),
                total_meals(diners@) + reliefs@.len() == total_meals(d0),
                distinct_diners(diners@),
                diners@.len() == d0.len(),
                forall|k: int| 0 <= k < diners@.len() ==> {
                    &&& (#[trigger] diners@[k]).agent == d0[k].agent
                    &&& diners@[k].tile == d0[k].tile
                    &&& diners@[k].eating_ground == d0[k].eating_ground
                    &&& diners@[k].meals_wanted <= d0[k].meals_wanted
                },
                ds.len() == i + 1,
                segs.len() == i,
                ds[0] == d0,
                ds[i as int] == diners@,
                reliefs@ == concat_reliefs(segs),
                forall|j: int| 0 <= j < i ==> consume_rel(ss0[j], #[trigger] ds[j], radius, segs[j], table.settlements@[j], ds[j + 1]),
            decreases n - i,
        {
            let ghost before = table.settlements@;
            let ghost db = diners@;
            let mut s = table.settlements.remove(i);
            proof {
                assert(s == ss0[i as int]);
                assert(distinct_ids(ss0[i as int].member_agents@));
            }
            let got = consume_from(&mut s, diners, radius);
            proof {
                lemma_total_stock_update(before, i as int, s);
            }
            table.settlements.insert(i, s);
            let ghost rb = reliefs@;
            let ghost g = got@;
            let ghost ds_before = ds;
            let ghost segs_before = segs;
            proof {
                ds = ds.push(diners@);
                segs = segs.push(g);
            }
            let mut got_mut = got;
            reliefs.append(&mut got_mut);
            proof {
                assert(table.settlements@ =~= before.update(i as int, s));
                assert(reliefs@.len() == rb.len() + got@.len());
                assert forall|k: int| 0 <= k < diners@.len() implies {
                    &&& (#[trigger] diners@[k]).agent == d0[k].agent
                    &&& diners@[k].tile == d0[k].tile
                    &&& diners@[k].eating_ground == d0[k].eating_ground
                    &&& diners@[k].meals_wanted <= d0[k].meals_wanted
                } by {
                    assert(diners@[k] == after_relief(db[k], got@));
                }
                assert(distinct_diners(diners@)) by {
                    assert forall|a: int, b: int| 0 <= a < diners@.len() && 0 <= b < diners@.len() && a != b
                        implies #[trigger] diners@[a].agent != #[trigger] diners@[b].agent by {
                        assert(diners@[a] == after_relief(db[a], got@));
                        assert(diners@[b] == after_relief(db[b], got@));
                    }
                }
                assert(reliefs@ =~= rb + g);
                assert(segs.drop_last() =~= segs_before);
                assert(concat_reliefs(segs) == concat_reliefs(segs_before) + g);
                assert(consume_rel(ss0[i as int], ds[i as int], radius, segs[i as int], table.settlements@[i as int], ds[i + 1]));
                assert forall|j: int| 0 <= j < i + 1 implies consume_rel(ss0[j], #[trigger] ds[j], radius, segs[j],
                    table.settlements@[j], ds[j + 1]) by {
                    if j < i {
                        assert(ds[j] == ds_before[j] && ds[j + 1] == ds_before[j + 1] && segs[j] == segs_before[j]);
                        assert(table.settlements@[j] == before[j]);
                    }
                }
            }
            i = i + 1;
        }
        proof {
            assert(ds[ds.len() - 1] == diners@);
            assert(ds[0] == old(diners)@);
            if memberships_disjoint(ss0) {
                assert(relief_chain(ss0, table.settlements@, ds, segs, radius));
                lemma_chain_diners(ss0, table.settlements@, ds, segs, radius, n as int);
                assert(segs.take(n as int) =~= segs);
                assert forall|i: int| 0 <= i < segs.len() implies relief_choice(ss0[i], d0, radius,
                    #[trigger] segs[i], table.settlements@[i]) by {
                    lemma_chain_choice(ss0, table.settlements@, ds, segs, radius, i);
                }
            }
        }
        proof {
            assert forall|a: int, b: int| 0 <= a < b < table.settlements@.len() implies
                #[trigger] table.settlements@[a].id < #[trigger] table.settlements@[b].id by {
                assert(ss0[a].id < ss0[b].id);
            }
            assert forall|a: int| 0 <= a < table.settlements@.len() implies #[trigger] table.settlements@[a].id < table.next_settlement_id by {
                assert(ss0[a].id < old(table).next_settlement_id);
            }
            assert forall|a: int| 0 <= a < table.settlements@.len() implies distinct_ids(#[trigger] table.settlements@[a].member_agents@) by {
                assert(distinct_ids(ss0[a].member_agents@));
            }
            assert forall|a: int| 0 <= a < table.settlements@.len() implies distinct_ids(#[trigger] table.settlements@[a].member_buildings@) by {
                assert(distinct_ids(ss0[a].member_buildings@));
            }
        }
        reliefs
    }
}

} // verus!
