//! Reconciliation after a broker (re)connect: align the store's view of
//! one agent's sub-jobs with the agent's own job table.
//!
//! Sub-jobs the server believed live that the agent no longer knows are
//! completed conservatively (`completed`, message `unknown`), returning
//! their resources.  Sub-jobs the agent reports as terminal are completed
//! with the agent's message and status.  All other reported sub-jobs have
//! status and message written through as plain row updates.

use vstd::prelude::*;

use crate::lifecycle::complete_job_spec;
use crate::model::JobCreateRequest;
use crate::model::JobCreateRequestV;
use crate::model::JobV;
use crate::model::views_of;
use crate::status::JobStatus;
use crate::store::Store;
use crate::store::StoreV;
use crate::store::store_inv;
use crate::store::unfreed_cpus;
use crate::store::unfreed_ram;

verus! {

/// Whether the agent's report lists this collection guid.
pub open spec fn in_live(list: Seq<JobCreateRequestV>, guid: Seq<char>) -> bool {
    exists|k: int| 0 <= k < list.len() && (#[trigger] list[k]).job_guid == guid
}

/// Collection guids of this agent's rows that the server believed live
/// but the agent no longer reports, in store order.
pub open spec fn stale_collections(
    jobs: Seq<JobV>,
    agent: Seq<char>,
    list: Seq<JobCreateRequestV>,
) -> Seq<Seq<char>>
    decreases jobs.len(),
{
    if jobs.len() == 0 {
        Seq::empty()
    } else {
        let rest = stale_collections(jobs.drop_last(), agent, list);
        let j = jobs.last();
        if j.agent_guid == agent && (j.status == JobStatus::Init || j.status == JobStatus::Alive)
            && !in_live(list, j.collection_guid) {
            rest.push(j.collection_guid)
        } else {
            rest
        }
    }
}

/// Conservatively complete each stale collection in turn.
pub open spec fn complete_stale(s: StoreV, agent: Seq<char>, guids: Seq<Seq<char>>) -> StoreV
    decreases guids.len(),
{
    if guids.len() == 0 {
        s
    } else {
        complete_stale(
            complete_job_spec(s, agent, guids[0], "unknown"@, JobStatus::Completed),
            agent,
            guids.skip(1),
        )
    }
}

/// Write a reported status and message straight onto the matching rows,
/// with no propagation.
pub open spec fn raw_update_spec(
    s: StoreV,
    agent: Seq<char>,
    coll: Seq<char>,
    st: JobStatus,
    msg: Seq<char>,
) -> StoreV {
    StoreV {
        jobs: Seq::new(
            s.jobs.len(),
            |k: int|
                if s.jobs[k].agent_guid == agent && s.jobs[k].collection_guid == coll {
                    JobV { status: st, last_msg: msg, ..s.jobs[k] }
                } else {
                    s.jobs[k]
                },
        ),
        ..s
    }
}

/// Apply the agent's report, entry by entry.
pub open spec fn apply_live(s: StoreV, agent: Seq<char>, list: Seq<JobCreateRequestV>) -> StoreV
    decreases list.len(),
{
    if list.len() == 0 {
        s
    } else {
        let j = list[0];
        let s2 = if j.status.is_terminal() {
            complete_job_spec(s, agent, j.job_guid, j.last_msg, j.status)
        } else {
            raw_update_spec(s, agent, j.job_guid, j.status, j.last_msg)
        };
        apply_live(s2, agent, list.skip(1))
    }
}

/// The whole reconciliation.
pub open spec fn sync_jobs_spec(s: StoreV, agent: Seq<char>, list: Seq<JobCreateRequestV>) -> StoreV {
    apply_live(complete_stale(s, agent, stale_collections(s.jobs, agent, list)), agent, list)
}

/// Completing one more stale collection extends the fold by one step.
pub proof fn lemma_complete_stale_push(s: StoreV, agent: Seq<char>, gs: Seq<Seq<char>>, x: Seq<char>)
    ensures
        complete_stale(s, agent, gs.push(x)) == complete_job_spec(
            complete_stale(s, agent, gs),
            agent,
            x,
            "unknown"@,
            JobStatus::Completed,
        ),
    decreases gs.len(),
{
    let p = gs.push(x);
    if gs.len() == 0 {
        assert(p.len() == 1 && p[0] == x);
        assert(p.skip(1) =~= Seq::<Seq<char>>::empty());
        assert(complete_stale(s, agent, p) == complete_stale(
            complete_job_spec(s, agent, x, "unknown"@, JobStatus::Completed),
            agent,
            p.skip(1),
        ));
    } else {
        assert(p[0] == gs[0]);
        assert(p.skip(1) =~= gs.skip(1).push(x));
        assert(complete_stale(s, agent, p) == complete_stale(
            complete_job_spec(s, agent, p[0], "unknown"@, JobStatus::Completed),
            agent,
            p.skip(1),
        ));
        lemma_complete_stale_push(
            complete_job_spec(s, agent, gs[0], "unknown"@, JobStatus::Completed),
            agent,
            gs.skip(1),
            x,
        );
        assert(complete_stale(s, agent, gs) == complete_stale(
            complete_job_spec(s, agent, gs[0], "unknown"@, JobStatus::Completed),
            agent,
            gs.skip(1),
        ));
    }
}

/// Applying one more report entry extends the fold by one step.
pub proof fn lemma_apply_live_push(
    s: StoreV,
    agent: Seq<char>,
    list: Seq<JobCreateRequestV>,
    x: JobCreateRequestV,
)
    ensures
        apply_live(s, agent, list.push(x)) == ({
            let s1 = apply_live(s, agent, list);
            if x.status.is_terminal() {
                complete_job_spec(s1, agent, x.job_guid, x.last_msg, x.status)
            } else {
                raw_update_spec(s1, agent, x.job_guid, x.status, x.last_msg)
            }
        }),
    decreases list.len(),
{
    let p = list.push(x);
    if list.len() == 0 {
        assert(p.len() == 1 && p[0] == x);
        assert(p.skip(1) =~= Seq::<JobCreateRequestV>::empty());
        let s2 = if x.status.is_terminal() {
            complete_job_spec(s, agent, x.job_guid, x.last_msg, x.status)
        } else {
            raw_update_spec(s, agent, x.job_guid, x.status, x.last_msg)
        };
        assert(apply_live(s, agent, p) == apply_live(s2, agent, p.skip(1)));
        assert(apply_live(s2, agent, p.skip(1)) == s2);
        assert(apply_live(s, agent, list) == s);
    } else {
        assert(p[0] == list[0]);
        assert(p.skip(1) =~= list.skip(1).push(x));
        let s2 = if list[0].status.is_terminal() {
            complete_job_spec(s, agent, list[0].job_guid, list[0].last_msg, list[0].status)
        } else {
            raw_update_spec(s, agent, list[0].job_guid, list[0].status, list[0].last_msg)
        };
        assert(apply_live(s, agent, p) == apply_live(s2, agent, p.skip(1)));
        lemma_apply_live_push(s2, agent, list.skip(1), x);
        assert(apply_live(s, agent, list) == apply_live(s2, agent, list.skip(1)));
    }
}

impl Store {
    /// Whether the agent's report lists this collection guid.
    fn live_contains(agent_jobs: &Vec<JobCreateRequest>, guid: &String) -> (b: bool)
        ensures
            b == in_live(views_of(agent_jobs@), guid@),
    {
        let n = agent_jobs.len();
        for k in 0..n
            invariant
                n == agent_jobs@.len(),
                forall|j: int| 0 <= j < k ==> (#[trigger] agent_jobs@[j])@.job_guid != guid@,
        {
            if agent_jobs[k].job_guid == *guid {
                assert((agent_jobs@[k as int])@.job_guid == guid@);
                assert(views_of(agent_jobs@)[k as int].job_guid == guid@);
                return true;
            }
        }
        assert forall|j: int|
            0 <= j < views_of(agent_jobs@).len() implies (#[trigger] views_of(agent_jobs@)[j]).job_guid
            != guid@ by {
            assert(views_of(agent_jobs@)[j] == (agent_jobs@[j])@);
        }
        false
    }

    /// Write a reported non-terminal status and message onto the matching
    /// rows, with no propagation.
    fn update_job_row(
        &mut self,
        agent_guid: &String,
        job_guid: &String,
        status: JobStatus,
        last_msg: &String,
    )
        requires
            store_inv(old(self)@),
        ensures
            store_inv(final(self)@),
            final(self)@ == raw_update_spec(
                old(self)@,
                agent_guid@,
                job_guid@,
                status,
                last_msg@,
            ),
    {
        let n = self.jobs.len();
        for k in 0..n
            invariant
                n == self@.jobs.len(),
                self@.agents == old(self)@.agents,
                self@.collections == old(self)@.collections,
                self@.crashes == old(self)@.crashes,
                forall|j: int| k <= j < n ==> (#[trigger] self@.jobs[j]) == old(self)@.jobs[j],
                forall|j: int|
                    0 <= j < k ==> (#[trigger] self@.jobs[j]) == (
                    if old(self)@.jobs[j].agent_guid == agent_guid@
                        && old(self)@.jobs[j].collection_guid == job_guid@ {
                        JobV { status: status, last_msg: last_msg@, ..old(self)@.jobs[j] }
                    } else {
                        old(self)@.jobs[j]
                    }),
        {
            let ghost head = self@.jobs;
            if self.jobs[k].agent_guid == *agent_guid && self.jobs[k].collection_guid == *job_guid {
                self.jobs[k].status = status;
                self.jobs[k].last_msg = last_msg.clone();
                proof {
                    assert(self@.jobs =~= head.update(
                        k as int,
                        JobV { status: status, last_msg: last_msg@, ..head[k as int] },
                    ));
                }
            }
            proof {
                assert(forall|j: int| 0 <= j < n && j != k ==> (#[trigger] self@.jobs[j]) == head[j]);
            }
        }
        proof {
            let fin = final(self)@;
            let prev = old(self)@;
            assert(fin =~= raw_update_spec(prev, agent_guid@, job_guid@, status, last_msg@));
            assert forall|g: Seq<char>|
                unfreed_cpus(fin.jobs, g) == unfreed_cpus(prev.jobs, g) && unfreed_ram(fin.jobs, g)
                    == unfreed_ram(prev.jobs, g) by {
                crate::lifecycle::lemma_unfreed_same(prev.jobs, fin.jobs, g);
            }
            assert(store_inv(fin));
        }
    }

    /// Reconcile the store with one agent's reported job table.
    #[verifier::loop_isolation(false)]
    pub fn sync_jobs(&mut self, agent_guid: &String, agent_jobs: &Vec<JobCreateRequest>)
        requires
            store_inv(old(self)@),
        ensures
            store_inv(final(self)@),
            final(self)@ == sync_jobs_spec(old(self)@, agent_guid@, views_of(agent_jobs@)),
            crate::store::statuses_consistent(old(self)@) && (forall|k: int|
                0 <= k < agent_jobs@.len() ==> (#[trigger] agent_jobs@[k])@.status.is_terminal())
                ==> crate::store::statuses_consistent(final(self)@),
    {
        let ghost prev = self@;
        let ghost listv = views_of(agent_jobs@);

        // Collect the collections the server believed live on this agent
        // that the agent no longer reports.
        let mut stale: Vec<String> = Vec::new();
        let n = self.jobs.len();
        for k in 0..n
            invariant
                n == self@.jobs.len(),
                self@ == prev,
                views_of(stale@) == stale_collections(self@.jobs.take(k as int), agent_guid@, listv),
        {
            proof {
                assert(self@.jobs.take(k + 1).drop_last() =~= self@.jobs.take(k as int));
                assert(self@.jobs.take(k + 1).last() == self@.jobs[k as int]);
            }
            let ghost pre = views_of(stale@);
            let row_live = self.jobs[k].status == JobStatus::Init || self.jobs[k].status
                == JobStatus::Alive;
            if self.jobs[k].agent_guid == *agent_guid && row_live && !Self::live_contains(
                agent_jobs,
                &self.jobs[k].collection_guid,
            ) {
                let g = self.jobs[k].collection_guid.clone();
                stale.push(g);
                proof {
                    assert(views_of(stale@) =~= pre.push(self@.jobs[k as int].collection_guid));
                }
            } else {
                proof {
                    assert(views_of(stale@) =~= pre);
                }
            }
        }
        proof {
            assert(self@.jobs.take(n as int) =~= self@.jobs);
        }
        let ghost stalev = views_of(stale@);

        // Conservative completion of the stale collections.
        let unknown = "unknown".to_owned();
        let ns = stale.len();
        let mut q: usize = 0;
        while q < ns
            invariant
                ns == stale@.len(),
                views_of(stale@) == stalev,
                q <= ns,
                store_inv(self@),
                self@ == complete_stale(prev, agent_guid@, stalev.take(q as int)),
                crate::store::statuses_consistent(prev) ==> crate::store::statuses_consistent(
                    self@,
                ),
            decreases ns - q,
        {
            self.complete_job(agent_guid, &stale[q], &unknown, JobStatus::Completed);
            proof {
                lemma_complete_stale_push(prev, agent_guid@, stalev.take(q as int), stalev[q as int]);
                assert(stalev.take(q as int).push(stalev[q as int]) =~= stalev.take(q + 1));
            }
            q = q + 1;
        }
        proof {
            assert(stalev.take(ns as int) =~= stalev);
        }
        let ghost mid = self@;

        // Apply the agent's report.
        let nl = agent_jobs.len();
        let mut k: usize = 0;
        while k < nl
            invariant
                nl == agent_jobs@.len(),
                k <= nl,
                store_inv(self@),
                self@ == apply_live(mid, agent_guid@, listv.take(k as int)),
                crate::store::statuses_consistent(prev) && (forall|x: int|
                    0 <= x < agent_jobs@.len() ==> (
                    #[trigger] agent_jobs@[x])@.status.is_terminal())
                    ==> crate::store::statuses_consistent(self@),
            decreases nl - k,
        {
            proof {
                assert(listv[k as int] == (agent_jobs@[k as int])@);
            }
            let terminal = agent_jobs[k].status == JobStatus::Completed || agent_jobs[k].status
                == JobStatus::Error;
            if terminal {
                self.complete_job(
                    agent_guid,
                    &agent_jobs[k].job_guid,
                    &agent_jobs[k].last_msg,
                    agent_jobs[k].status,
                );
            } else {
                self.update_job_row(
                    agent_guid,
                    &agent_jobs[k].job_guid,
                    agent_jobs[k].status,
                    &agent_jobs[k].last_msg,
                );
            }
            proof {
                lemma_apply_live_push(mid, agent_guid@, listv.take(k as int), listv[k as int]);
                assert(listv.take(k as int).push(listv[k as int]) =~= listv.take(k + 1));
            }
            k = k + 1;
        }
        proof {
            assert(listv.take(nl as int) =~= listv);
            assert(stale_collections(prev.jobs, agent_guid@, listv) == stalev);
        }
    }
}

} // verus!
