use vstd::prelude::*;

use crate::economy::{job_assignment_job_index, job_index_spec, JobAssignmentRuntimeSystem};
use crate::needs::GrowthStage;
use crate::text::str_eq;

verus! {

/// Number of assignable jobs.
pub const JOB_COUNT: usize = 4;

/// The job at position `idx` of the assignment order.
pub open spec fn job_name_spec(idx: int) -> Seq<char> {
    if idx == 0 {
        "gatherer"@
    } else if idx == 1 {
        "lumberjack"@
    } else if idx == 2 {
        "builder"@
    } else {
        "miner"@
    }
}

/// The job at position `idx` of the assignment order: gatherer,
/// lumberjack, builder, miner.
pub fn job_name(idx: usize) -> (n: &'static str)
    requires
        idx < JOB_COUNT,
    ensures
        n@ == job_name_spec(idx as int),
{
    if idx == 0 {
        "gatherer"
    } else if idx == 1 {
        "lumberjack"
    } else if idx == 2 {
        "builder"
    } else {
        "miner"
    }
}

/// An agent as job assignment sees it: its life stage, its occupation and
/// its job.
#[derive(Debug)]
pub struct JobHolder {
    pub stage: GrowthStage,
    pub occupation: String,
    pub job: String,
}

/// Name law: the job at each position of the order is found again at that
/// position, and every job found names its position.
pub proof fn lemma_job_name_index(idx: int, job: Seq<char>)
    ensures
        0 <= idx < JOB_COUNT ==> job_index_spec(job_name_spec(idx)) == Some(idx as usize),
        job_index_spec(job) matches Some(i) ==> i < JOB_COUNT && job == job_name_spec(i as int),
{
    reveal_strlit("gatherer");
    reveal_strlit("lumberjack");
    reveal_strlit("builder");
    reveal_strlit("miner");
    assert("gatherer"@.len() == 8 && "lumberjack"@.len() == 10 && "builder"@.len() == 7 && "miner"@.len() == 5);
    assert("gatherer"@ != "lumberjack"@ && "gatherer"@ != "builder"@ && "gatherer"@ != "miner"@);
    assert("lumberjack"@ != "builder"@ && "lumberjack"@ != "miner"@);
    assert("builder"@[0] == 'b' && "miner"@[0] == 'm');
    assert("builder"@ != "miner"@);
}

/// The holder has a real occupation (not empty, "none" or "laborer"),
/// which fixes its job.
pub open spec fn has_fixed_occupation(h: JobHolder) -> bool {
    h.occupation@.len() > 0 && h.occupation@ != "none"@ && h.occupation@ != "laborer"@
}

/// Infants and toddlers hold no job.
pub open spec fn is_young(h: JobHolder) -> bool {
    h.stage == GrowthStage::Infant || h.stage == GrowthStage::Toddler
}

/// Teens, adults and elders take part in assignment.
pub open spec fn is_eligible(h: JobHolder) -> bool {
    !is_young(h) && h.stage != GrowthStage::Child
}

/// Positions, ascending, of the holders that satisfy `p`.
pub open spec fn indices_where(hs: Seq<JobHolder>, p: spec_fn(JobHolder) -> bool) -> Seq<int>
    decreases hs.len(),
{
    if hs.len() == 0 {
        seq![]
    } else {
        let rest = indices_where(hs.drop_last(), p);
        if p(hs.last()) { rest.push(hs.len() - 1) } else { rest }
    }
}

/// The positions that `indices_where` lists are exactly the positions of
/// the holders that satisfy `p`.
pub proof fn lemma_indices_where(hs: Seq<JobHolder>, p: spec_fn(JobHolder) -> bool)
    ensures
        forall|k: int| 0 <= k < indices_where(hs, p).len() ==> 0 <= #[trigger] indices_where(hs, p)[k] < hs.len()
            && p(hs[indices_where(hs, p)[k]]),
        forall|i: int| 0 <= i < hs.len() && p(#[trigger] hs[i]) ==> indices_where(hs, p).contains(i),
    decreases hs.len(),
{
    if hs.len() > 0 {
        let d = hs.drop_last();
        lemma_indices_where(d, p);
        let rest = indices_where(d, p);
        let r = indices_where(hs, p);
        assert forall|k: int| 0 <= k < r.len() implies 0 <= #[trigger] r[k] < hs.len() && p(hs[r[k]]) by {
            if k < rest.len() {
                assert(r[k] == rest[k]);
                assert(d[rest[k]] == hs[rest[k]]);
            }
        }
        assert forall|i: int| 0 <= i < hs.len() && p(#[trigger] hs[i]) implies r.contains(i) by {
            if i < hs.len() - 1 {
                assert(d[i] == hs[i]);
                assert(rest.contains(i));
                let k = choose|k: int| 0 <= k < rest.len() && rest[k] == i;
                assert(r[k] == i);
            } else {
                assert(hs.last() == hs[i]);
                assert(r[r.len() - 1] == i);
            }
        }
    }
}

/// Eligible holders whose job is the `j`-th of the order.
pub open spec fn holds_job(j: int) -> spec_fn(JobHolder) -> bool {
    |h: JobHolder| is_eligible(h) && job_index_spec(h.job@) == Some(j as usize)
}

/// Eligible holders without a fixed occupation and with job "none".
pub open spec fn awaits_job() -> spec_fn(JobHolder) -> bool {
    |h: JobHolder| is_eligible(h) && !has_fixed_occupation(h) && h.job@ == "none"@
}

/// Infants and toddlers whose job is not "none".
pub open spec fn needs_none() -> spec_fn(JobHolder) -> bool {
    |h: JobHolder| is_young(h) && h.job@ != "none"@
}

/// Children whose job is not "gatherer".
pub open spec fn needs_gatherer() -> spec_fn(JobHolder) -> bool {
    |h: JobHolder| h.stage == GrowthStage::Child && h.job@ != "gatherer"@
}

/// The census that job assignment starts from.
#[derive(Debug)]
pub struct JobCensus {
    /// Number of teens, adults and elders.
    pub alive: usize,
    /// How many of them hold each job, in assignment order.
    pub counts: Vec<usize>,
    /// Those without a fixed occupation whose job is "none", in order.
    pub unassigned: Vec<usize>,
    /// Infants and toddlers whose job must become "none".
    pub set_none: Vec<usize>,
    /// Children whose job must become "gatherer".
    pub set_gatherer: Vec<usize>,
}

/// Census of the holders: infants and toddlers are set to no job and
/// children to gathering, neither counting as alive; the others are
/// counted, by job, and those free to take a job and without one are
/// listed.
pub fn job_census(holders: &Vec<JobHolder>) -> (c: JobCensus)
    ensures
        c.alive == indices_where(holders@, |h: JobHolder| is_eligible(h)).len(),
        c.counts@.len() == JOB_COUNT,
        forall|j: int| 0 <= j < JOB_COUNT ==> c.counts@[j] == #[trigger] indices_where(holders@, holds_job(j)).len(),
        c.unassigned@.map_values(|i: usize| i as int) == indices_where(holders@, awaits_job()),
        c.set_none@.map_values(|i: usize| i as int) == indices_where(holders@, needs_none()),
        c.set_gatherer@.map_values(|i: usize| i as int) == indices_where(holders@, needs_gatherer()),
        forall|k: int| 0 <= k < c.unassigned@.len() ==> {
            let h = holders@[#[trigger] c.unassigned@[k] as int];
            &&& c.unassigned@[k] < holders@.len()
            &&& (h.stage == GrowthStage::Teen || h.stage == GrowthStage::Adult || h.stage == GrowthStage::Elder)
            &&& h.job@ == "none"@
            &&& !(h.occupation@.len() > 0 && h.occupation@ != "none"@ && h.occupation@ != "laborer"@)
        },
        forall|k: int| 0 <= k < c.set_none@.len() ==> {
            let h = holders@[#[trigger] c.set_none@[k] as int];
            &&& c.set_none@[k] < holders@.len()
            &&& (h.stage == GrowthStage::Infant || h.stage == GrowthStage::Toddler)
            &&& h.job@ != "none"@
        },
        forall|k: int| 0 <= k < c.set_gatherer@.len() ==> {
            let h = holders@[#[trigger] c.set_gatherer@[k] as int];
            &&& c.set_gatherer@[k] < holders@.len()
            &&& h.stage == GrowthStage::Child
            &&& h.job@ != "gatherer"@
        },
{
    let mut alive: usize = 0;
    let mut counts: Vec<usize> = vec![0, 0, 0, 0];
    let mut unassigned: Vec<usize> = Vec::new();
    let mut set_none: Vec<usize> = Vec::new();
    let mut set_gatherer: Vec<usize> = Vec::new();
    let mut i: usize = 0;
    while i < holders.len()
        invariant
            0 <= i <= holders@.len(),
            alive == indices_where(holders@.subrange(0, i as int), |h: JobHolder| is_eligible(h)).len(),
            alive <= i,
            counts@.len() == JOB_COUNT,
            forall|j: int| 0 <= j < JOB_COUNT ==> counts@[j] == #[trigger] indices_where(holders@.subrange(0, i as int), holds_job(j)).len(),
            forall|j: int| 0 <= j < JOB_COUNT ==> counts@[j] <= i,
            unassigned@.map_values(|k: usize| k as int) == indices_where(holders@.subrange(0, i as int), awaits_job()),
            set_none@.map_values(|k: usize| k as int) == indices_where(holders@.subrange(0, i as int), needs_none()),
            set_gatherer@.map_values(|k: usize| k as int) == indices_where(holders@.subrange(0, i as int), needs_gatherer()),
        decreases holders@.len() - i,
    {
        let h = &holders[i];
        let ghost pre = holders@.subrange(0, i as int);
        let ghost next = holders@.subrange(0, i + 1);
        proof {
            reveal_strlit("none");
            reveal_strlit("laborer");
            reveal_strlit("gatherer");
            assert(next.drop_last() =~= pre);
            assert(next.last() == *h);
            assert(next.len() - 1 == i);
        }
        let young = match h.stage {
            GrowthStage::Infant | GrowthStage::Toddler => true,
            _ => false,
        };
        let child = match h.stage {
            GrowthStage::Child => true,
            _ => false,
        };
        let job = h.job.as_str();
        let job_is_none = str_eq(job, "none");
        let ghost s_none = set_none@;
        let ghost s_gath = set_gatherer@;
        let ghost s_un = unassigned@;
        let ghost counts0 = counts@;
        if young {
            if !job_is_none {
                set_none.push(i);
            }
        } else if child {
            if !str_eq(job, "gatherer") {
                set_gatherer.push(i);
            }
        } else {
            alive = alive + 1;
            let occ = h.occupation.as_str();
            let fixed = !occ.is_empty() && !str_eq(occ, "none") && !str_eq(occ, "laborer");
            let idx = job_assignment_job_index(job);
            if !fixed && job_is_none {
                unassigned.push(i);
            }
            match idx {
                Some(j) => {
                    let v = counts[j];
                    counts.set(j, v + 1);
                },
                None => {},
            }
        }
        proof {
            assert(set_none@.map_values(|k: usize| k as int) =~= indices_where(next, needs_none())) by {
                if needs_none()(*h) {
                    assert(set_none@ =~= s_none.push(i));
                    assert(set_none@.map_values(|k: usize| k as int) =~= s_none.map_values(|k: usize| k as int).push(i as int));
                }
            }
            assert(set_gatherer@.map_values(|k: usize| k as int) =~= indices_where(next, needs_gatherer())) by {
                if needs_gatherer()(*h) {
                    assert(set_gatherer@.map_values(|k: usize| k as int) =~= s_gath.map_values(|k: usize| k as int).push(i as int));
                }
            }
            assert(unassigned@.map_values(|k: usize| k as int) =~= indices_where(next, awaits_job())) by {
                if awaits_job()(*h) {
                    assert(unassigned@.map_values(|k: usize| k as int) =~= s_un.map_values(|k: usize| k as int).push(i as int));
                }
            }
            assert forall|j: int| 0 <= j < JOB_COUNT implies counts@[j] == #[trigger] indices_where(next, holds_job(j)).len() by {
                assert(indices_where(next, holds_job(j)).len() == indices_where(pre, holds_job(j)).len()
                    + if holds_job(j)(*h) { 1int } else { 0int });
            }
        }
        i = i + 1;
    }
    proof {
        assert(holders@.subrange(0, holders@.len() as int) =~= holders@);
    }
    proof {
        lemma_indices_where(holders@, awaits_job());
        lemma_indices_where(holders@, needs_none());
        lemma_indices_where(holders@, needs_gatherer());
        let ia = indices_where(holders@, awaits_job());
        let ino = indices_where(holders@, needs_none());
        let ig = indices_where(holders@, needs_gatherer());
        assert forall|k: int| 0 <= k < unassigned@.len() implies #[trigger] unassigned@[k] as int == ia[k] by {
            assert(unassigned@.map_values(|i: usize| i as int)[k] == unassigned@[k] as int);
        }
        assert forall|k: int| 0 <= k < set_none@.len() implies #[trigger] set_none@[k] as int == ino[k] by {
            assert(set_none@.map_values(|i: usize| i as int)[k] == set_none@[k] as int);
        }
        assert forall|k: int| 0 <= k < set_gatherer@.len() implies #[trigger] set_gatherer@[k] as int == ig[k] by {
            assert(set_gatherer@.map_values(|i: usize| i as int)[k] == set_gatherer@[k] as int);
        }
    }
    JobCensus { alive, counts, unassigned, set_none, set_gatherer }
}

/// The job index an unassigned holder receives, given the best job code
/// the ratio model proposed: teens always gather; a code outside the order
/// falls back to gathering; an elder is never made a builder.
pub open spec fn assigned_index_spec(stage: GrowthStage, best_code: i32) -> usize {
    let idx: usize = if stage == GrowthStage::Teen {
        0
    } else if best_code < 0 || best_code >= JOB_COUNT {
        0
    } else {
        best_code as usize
    };
    if stage == GrowthStage::Elder && idx == 2 { 0 } else { idx }
}

/// The job index an unassigned holder receives.
pub fn assigned_job_index(stage: GrowthStage, best_code: i32) -> (idx: usize)
    ensures
        idx == assigned_index_spec(stage, best_code),
        idx < JOB_COUNT,
        stage == GrowthStage::Teen ==> idx == 0,
        stage == GrowthStage::Elder ==> idx != 2,
        (best_code < 0 || best_code >= 4) ==> idx == 0,
        stage != GrowthStage::Teen && 0 <= best_code < 4 && !(stage == GrowthStage::Elder && best_code == 2)
            ==> idx == best_code,
        stage == GrowthStage::Elder && best_code == 2 ==> idx == 0,
{
    let idx: usize = match stage {
        GrowthStage::Teen => 0,
        _ => {
            if best_code < 0 || best_code >= 4 {
                0
            } else {
                best_code as usize
            }
        },
    };
    match stage {
        GrowthStage::Elder => if idx == 2 { 0 } else { idx },
        _ => idx,
    }
}

/// A proposed rebalance from a surplus job to a deficit job, when both
/// codes are in the order and differ.
pub fn rebalance_pair(surplus: i32, deficit: i32) -> (pair: Option<(usize, usize)>)
    ensures
        pair is Some <==> (0 <= surplus < JOB_COUNT && 0 <= deficit < JOB_COUNT && surplus != deficit),
        pair is Some ==> pair.unwrap() == (surplus as usize, deficit as usize),
{
    if surplus >= 0 && deficit >= 0 && surplus < 4 && deficit < 4 && surplus != deficit {
        Some((surplus as usize, deficit as usize))
    } else {
        None
    }
}

/// What an agent is doing, as far as rebalancing cares.
#[derive(Debug, Clone, Copy, PartialEq, Eq, Structural)]
pub enum CurrentAction {
    Idle,
    Wander,
    Rest,
    Socialize,
    Forage,
    /// Any other action: the agent is busy.
    Busy,
}

/// The first agent, in order, holding the surplus job and doing nothing
/// that a change of job would interrupt.
pub fn rebalance_candidate(jobs: &Vec<(String, CurrentAction)>, surplus: usize) -> (r: Option<usize>)
    requires
        surplus < JOB_COUNT,
    ensures
        match r {
            Some(k) => k < jobs@.len() && jobs@[k as int].0@ == job_name_spec(surplus as int)
                && jobs@[k as int].1 != CurrentAction::Busy
                && forall|m: int| 0 <= m < k ==> !(jobs@[m].0@ == job_name_spec(surplus as int) && jobs@[m].1 != CurrentAction::Busy),
            None => forall|m: int| 0 <= m < jobs@.len() ==> !(jobs@[m].0@ == job_name_spec(surplus as int) && jobs@[m].1 != CurrentAction::Busy),
        },
{
    let name = job_name(surplus);
    let mut k: usize = 0;
    while k < jobs.len()
        invariant
            0 <= k <= jobs@.len(),
            name@ == job_name_spec(surplus as int),
            forall|m: int| 0 <= m < k ==> !(jobs@[m].0@ == job_name_spec(surplus as int) && jobs@[m].1 != CurrentAction::Busy),
        decreases jobs@.len() - k,
    {
        let (job, action) = (&jobs[k].0, jobs[k].1);
        if str_eq(job.as_str(), name) && action != CurrentAction::Busy {
            return Some(k);
        }
        k = k + 1;
    }
    None
}

/// Holders whose job is reset to "none" on the first run: teens, adults
/// and elders without a fixed occupation.
pub open spec fn reset_on_first_run() -> spec_fn(JobHolder) -> bool {
    |h: JobHolder| is_eligible(h) && !has_fixed_occupation(h)
}

impl JobAssignmentRuntimeSystem {
    /// On the first run only, the holders whose job is reset to "none":
    /// every teen, adult and elder without a fixed occupation. Later runs
    /// reset nobody.
    pub fn first_run_resets(&mut self, holders: &Vec<JobHolder>) -> (reset: Vec<usize>)
        ensures
            !final(self).first_run_spec(),
            final(self)@ == old(self)@,
            old(self).first_run_spec() ==> reset@.map_values(|i: usize| i as int) == indices_where(holders@, reset_on_first_run()),
            !old(self).first_run_spec() ==> reset@.len() == 0,
    {
        let mut reset: Vec<usize> = Vec::new();
        if !self.take_first_run() {
            return reset;
        }
        let mut i: usize = 0;
        while i < holders.len()
            invariant
                0 <= i <= holders@.len(),
                reset@.map_values(|k: usize| k as int) == indices_where(holders@.subrange(0, i as int), reset_on_first_run()),
            decreases holders@.len() - i,
        {
            let h = &holders[i];
            let ghost pre = holders@.subrange(0, i as int);
            let ghost next = holders@.subrange(0, i + 1);
            let ghost r0 = reset@;
            proof {
                reveal_strlit("none");
                reveal_strlit("laborer");
                assert(next.drop_last() =~= pre);
                assert(next.last() == *h);
            }
            let eligible = match h.stage {
                GrowthStage::Infant | GrowthStage::Toddler | GrowthStage::Child => false,
                _ => true,
            };
            let occ = h.occupation.as_str();
            let fixed = !occ.is_empty() && !str_eq(occ, "none") && !str_eq(occ, "laborer");
            if eligible && !fixed {
                reset.push(i);
            }
            proof {
                if reset_on_first_run()(*h) {
                    assert(reset@.map_values(|k: usize| k as int) =~= r0.map_values(|k: usize| k as int).push(i as int));
                }
            }
            i = i + 1;
        }
        proof {
            assert(holders@.subrange(0, holders@.len() as int) =~= holders@);
        }
        reset
    }
}


/// Assign one unassigned holder: it takes the job of
/// [`assigned_job_index`], whose count grows by one. Returns the job index.
pub fn assign_one(counts: &mut Vec<usize>, stage: GrowthStage, best_code: i32) -> (idx: usize)
    requires
        old(counts)@.len() == JOB_COUNT,
        forall|j: int| 0 <= j < JOB_COUNT ==> old(counts)@[j] < usize::MAX,
    ensures
        idx == assigned_index_spec(stage, best_code),
        idx < JOB_COUNT,
        stage == GrowthStage::Teen ==> idx == 0,
        stage == GrowthStage::Elder ==> idx != 2,
        stage != GrowthStage::Teen && 0 <= best_code < 4 && !(stage == GrowthStage::Elder && best_code == 2)
            ==> idx == best_code,
        final(counts)@ == old(counts)@.update(idx as int, (old(counts)@[idx as int] + 1) as usize),
{
    let idx = assigned_job_index(stage, best_code);
    let v = counts[idx];
    counts.set(idx, v + 1);
    idx
}

/// Agent `m` holds job `job` and is not busy.
pub open spec fn free_holder(jobs: Seq<(String, CurrentAction)>, m: int, job: int) -> bool {
    jobs[m].0@ == job_name_spec(job) && jobs[m].1 != CurrentAction::Busy
}

/// The rebalancing of one run: only when nobody awaited a job and at least
/// five agents are counted, and the model proposes two different jobs of
/// the order, the first holder of the surplus job that is not busy moves to
/// the deficit job. Returns that holder and its new job index.
pub fn rebalance_step(unassigned: usize, alive: usize, surplus: i32, deficit: i32, jobs: &Vec<(String, CurrentAction)>)
    -> (r: Option<(usize, usize)>)
    ensures
        !(unassigned == 0 && alive >= 5 && 0 <= surplus < JOB_COUNT && 0 <= deficit < JOB_COUNT && surplus != deficit)
            ==> r is None,
        (unassigned == 0 && alive >= 5 && 0 <= surplus < JOB_COUNT && 0 <= deficit < JOB_COUNT && surplus != deficit) ==> {
            match r {
                Some((k, j)) => j == deficit && k < jobs@.len() && free_holder(jobs@, k as int, surplus as int)
                    && forall|m: int| 0 <= m < k ==> !#[trigger] free_holder(jobs@, m, surplus as int),
                None => forall|m: int| 0 <= m < jobs@.len() ==> !#[trigger] free_holder(jobs@, m, surplus as int),
            }
        },
{
    if unassigned != 0 || alive < 5 {
        return None;
    }
    match rebalance_pair(surplus, deficit) {
        None => None,
        Some((s, d)) => match rebalance_candidate(jobs, s) {
            Some(k) => Some((k, d)),
            None => None,
        },
    }
}

} // verus!
