//! The sub-job state machine: status updates, completion with resource
//! return, and the roll-up of collection statuses.
//!
//! Each operation's contract equates the new store with a spec-level
//! transition function, so that laws about sequences of operations can be
//! proved once over the transitions.

use vstd::prelude::*;

use crate::model::AgentV;
use crate::model::JobCollectionV;
use crate::model::JobV;
use crate::model::views_of;
use crate::seq_util::first_where;
use crate::seq_util::lemma_first_where_is;
use crate::seq_util::lemma_first_where_none;
use crate::status::AgentStatus;
use crate::status::JobStatus;
use crate::store::Store;
use crate::store::StoreV;
use crate::store::accounting_ok;
use crate::store::count_jobs_of;
use crate::store::count_with_status;
use crate::store::cpu_contrib;
use crate::store::has_unfreed;
use crate::store::lemma_count_nonneg;
use crate::store::lemma_unfreed_ge_elem;
use crate::store::lemma_unfreed_update;
use crate::store::ram_contrib;
use crate::store::roll_up;
use crate::store::store_inv;
use crate::store::statuses_consistent;
use crate::store::unfreed_cpus;
use crate::store::unfreed_job_index;
use crate::store::unfreed_ram;

verus! {

// ---------------------------------------------------------------------------
// Spec transitions.
// ---------------------------------------------------------------------------

/// Unconditionally write the roll-up of `coll`'s sub-job rows as the
/// collection's status.
pub open spec fn propagate_spec(s: StoreV, coll: Seq<char>) -> StoreV {
    StoreV {
        collections: Seq::new(
            s.collections.len(),
            |i: int|
                if s.collections[i].guid == coll {
                    JobCollectionV { status: roll_up(s.jobs, coll), ..s.collections[i] }
                } else {
                    s.collections[i]
                },
        ),
        ..s
    }
}

/// Set the status of the sub-job of `agent` in `coll`, then propagate.
pub open spec fn set_job_status_spec(
    s: StoreV,
    agent: Seq<char>,
    coll: Seq<char>,
    st: JobStatus,
) -> StoreV {
    let jobs2 = Seq::new(
        s.jobs.len(),
        |k: int|
            if s.jobs[k].agent_guid == agent && s.jobs[k].collection_guid == coll {
                JobV { status: st, ..s.jobs[k] }
            } else {
                s.jobs[k]
            },
    );
    propagate_spec(StoreV { jobs: jobs2, ..s }, coll)
}

/// Set the message of the sub-job of `agent` in `coll`; statuses are not
/// touched, so no propagation runs.
pub open spec fn set_job_last_msg_spec(
    s: StoreV,
    agent: Seq<char>,
    coll: Seq<char>,
    msg: Seq<char>,
) -> StoreV {
    StoreV {
        jobs: Seq::new(
            s.jobs.len(),
            |k: int|
                if s.jobs[k].agent_guid == agent && s.jobs[k].collection_guid == coll {
                    JobV { last_msg: msg, ..s.jobs[k] }
                } else {
                    s.jobs[k]
                },
        ),
        ..s
    }
}

/// Return a freed row's resources to the agent that carries its guid.
pub open spec fn credit_agents(
    agents: Seq<AgentV>,
    guid: Seq<char>,
    give_cpus: int,
    give_ram: int,
) -> Seq<AgentV> {
    Seq::new(
        agents.len(),
        |i: int|
            if agents[i].guid == guid {
                AgentV {
                    free_cpus: agents[i].free_cpus + give_cpus,
                    free_ram: agents[i].free_ram + give_ram,
                    ..agents[i]
                }
            } else {
                agents[i]
            },
    )
}

/// Complete the sub-job of `agent` in `coll`: if a not-yet-freed row
/// remains, mark it freed with the given message and status, return its
/// resources to the agent, and propagate; otherwise do nothing.
pub open spec fn complete_job_spec(
    s: StoreV,
    agent: Seq<char>,
    coll: Seq<char>,
    msg: Seq<char>,
    st: JobStatus,
) -> StoreV {
    let k = unfreed_job_index(s.jobs, agent, coll);
    if k == -1 {
        s
    } else {
        let row = s.jobs[k];
        let jobs2 = s.jobs.update(k, JobV { freed: true, last_msg: msg, status: st, ..row });
        let agents2 = credit_agents(s.agents, agent, row.cpus, row.ram);
        propagate_spec(StoreV { agents: agents2, jobs: jobs2, ..s }, coll)
    }
}

// ---------------------------------------------------------------------------
// Congruence lemmas: what leaves the sums and counts alone.
// ---------------------------------------------------------------------------

/// Rows that agree on owner, resources and freed flag yield the same
/// outstanding sums.
pub proof fn lemma_unfreed_same(jobs1: Seq<JobV>, jobs2: Seq<JobV>, guid: Seq<char>)
    requires
        jobs1.len() == jobs2.len(),
        forall|k: int|
            0 <= k < jobs1.len() ==> {
                let a = #[trigger] jobs1[k];
                let b = #[trigger] jobs2[k];
                a.agent_guid == b.agent_guid && a.freed == b.freed && a.cpus == b.cpus && a.ram
                    == b.ram
            },
    ensures
        unfreed_cpus(jobs2, guid) == unfreed_cpus(jobs1, guid),
        unfreed_ram(jobs2, guid) == unfreed_ram(jobs1, guid),
    decreases jobs1.len(),
{
    if jobs1.len() > 0 {
        lemma_unfreed_same(jobs1.drop_last(), jobs2.drop_last(), guid);
        assert(jobs1[jobs1.len() - 1].agent_guid == jobs2[jobs2.len() - 1].agent_guid);
    }
}

/// Rows that agree on collection, and on status within `c2`, yield the
/// same counts for `c2`.
pub proof fn lemma_count_same(jobs1: Seq<JobV>, jobs2: Seq<JobV>, c2: Seq<char>, st: JobStatus)
    requires
        jobs1.len() == jobs2.len(),
        forall|k: int|
            0 <= k < jobs1.len() ==> {
                let a = #[trigger] jobs1[k];
                let b = #[trigger] jobs2[k];
                a.collection_guid == b.collection_guid && (a.collection_guid == c2 ==> a.status
                    == b.status)
            },
    ensures
        count_with_status(jobs2, c2, st) == count_with_status(jobs1, c2, st),
        count_jobs_of(jobs2, c2) == count_jobs_of(jobs1, c2),
    decreases jobs1.len(),
{
    if jobs1.len() > 0 {
        lemma_count_same(jobs1.drop_last(), jobs2.drop_last(), c2, st);
        assert(jobs1[jobs1.len() - 1].collection_guid == jobs2[jobs2.len() - 1].collection_guid);
    }
}

// ---------------------------------------------------------------------------
// Executable operations.
// ---------------------------------------------------------------------------

impl Store {
    /// Position of the first not-yet-freed sub-job of `agent` in `coll`.
    fn unfreed_pos(&self, agent: &String, coll: &String) -> (r: Option<usize>)
        ensures
            match r {
                Some(i) => i < self@.jobs.len() && unfreed_job_index(self@.jobs, agent@, coll@)
                    == i as int,
                None => unfreed_job_index(self@.jobs, agent@, coll@) == -1,
            },
    {
        let n = self.jobs.len();
        for i in 0..n
            invariant
                n == self@.jobs.len(),
                forall|j: int|
                    0 <= j < i ==> !((#[trigger] self@.jobs[j]).agent_guid == agent@
                        && self@.jobs[j].collection_guid == coll@ && !self@.jobs[j].freed),
        {
            if self.jobs[i].agent_guid == *agent && self.jobs[i].collection_guid == *coll
                && !self.jobs[i].freed {
                proof {
                    lemma_first_where_is(
                        self@.jobs,
                        |j: JobV| j.agent_guid == agent@ && j.collection_guid == coll@ && !j.freed,
                        i as int,
                    );
                }
                return Some(i);
            }
        }
        proof {
            lemma_first_where_none(
                self@.jobs,
                |j: JobV| j.agent_guid == agent@ && j.collection_guid == coll@ && !j.freed,
            );
        }
        None
    }

    /// The three counts the roll-up reads, for `coll`'s sub-job rows.
    fn count_statuses(&self, coll: &String) -> (r: (u64, u64, u64))
        ensures
            r.0 == count_with_status(self@.jobs, coll@, JobStatus::Error),
            r.1 == count_with_status(self@.jobs, coll@, JobStatus::Init),
            r.2 == count_with_status(self@.jobs, coll@, JobStatus::Alive),
    {
        let mut errors: u64 = 0;
        let mut init: u64 = 0;
        let mut alive: u64 = 0;
        let n = self.jobs.len();
        for k in 0..n
            invariant
                n == self@.jobs.len(),
                errors == count_with_status(self@.jobs.take(k as int), coll@, JobStatus::Error),
                init == count_with_status(self@.jobs.take(k as int), coll@, JobStatus::Init),
                alive == count_with_status(self@.jobs.take(k as int), coll@, JobStatus::Alive),
                errors <= k && init <= k && alive <= k,
        {
            proof {
                assert(self@.jobs.take(k + 1).drop_last() =~= self@.jobs.take(k as int));
                assert(self@.jobs.take(k + 1).last() == self@.jobs[k as int]);
            }
            if self.jobs[k].collection_guid == *coll {
                match self.jobs[k].status {
                    JobStatus::Error => {
                        errors = errors + 1;
                    },
                    JobStatus::Init => {
                        init = init + 1;
                    },
                    JobStatus::Alive => {
                        alive = alive + 1;
                    },
                    JobStatus::Completed => {},
                }
            }
        }
        proof {
            assert(self@.jobs.take(n as int) =~= self@.jobs);
        }
        (errors, init, alive)
    }

    /// Recompute and write the roll-up status of the collection.
    fn propagate_status(&mut self, coll: &String)
        requires
            store_inv(old(self)@),
        ensures
            store_inv(final(self)@),
            final(self)@ == propagate_spec(old(self)@, coll@),
    {
        let (errors, init, alive) = self.count_statuses(coll);
        let status = if errors != 0 {
            JobStatus::Error
        } else if init != 0 {
            JobStatus::Init
        } else if alive != 0 {
            JobStatus::Alive
        } else {
            JobStatus::Completed
        };
        proof {
            lemma_count_nonneg(self@.jobs, coll@, JobStatus::Error);
            lemma_count_nonneg(self@.jobs, coll@, JobStatus::Init);
            lemma_count_nonneg(self@.jobs, coll@, JobStatus::Alive);
            assert(status == roll_up(self@.jobs, coll@));
        }
        let n = self.collections.len();
        for i in 0..n
            invariant
                n == self@.collections.len(),
                status == roll_up(old(self)@.jobs, coll@),
                self@.agents == old(self)@.agents,
                self@.jobs == old(self)@.jobs,
                self@.crashes == old(self)@.crashes,
                self@.collections.len() == old(self)@.collections.len(),
                forall|j: int|
                    i <= j < n ==> (#[trigger] self@.collections[j]) == old(self)@.collections[j],
                forall|j: int|
                    0 <= j < i ==> (#[trigger] self@.collections[j]) == (
                    if old(self)@.collections[j].guid == coll@ {
                        JobCollectionV { status: status, ..old(self)@.collections[j] }
                    } else {
                        old(self)@.collections[j]
                    }),
        {
            let ghost head = self@.collections;
            if self.collections[i].guid == *coll {
                self.collections[i].status = status;
                proof {
                    assert(self@.collections =~= head.update(
                        i as int,
                        JobCollectionV { status: status, ..head[i as int] },
                    ));
                }
            }
            proof {
                assert(forall|j: int|
                    0 <= j < n && j != i ==> (#[trigger] self@.collections[j]) == head[j]);
            }
        }
        proof {
            assert(final(self)@ =~= propagate_spec(old(self)@, coll@));
            let fin = final(self)@;
            assert forall|j: int|
                0 <= j < fin.collections.len() implies (#[trigger] fin.collections[j]).guid
                == old(self)@.collections[j].guid && fin.collections[j].cpus
                == old(self)@.collections[j].cpus && fin.collections[j].ram
                == old(self)@.collections[j].ram by {}
            assert forall|x: int|
                0 <= x < fin.jobs.len() implies crate::store::has_collection(
                fin.collections,
                (#[trigger] fin.jobs[x]).collection_guid,
            ) by {
                let g = fin.jobs[x].collection_guid;
                assert(crate::store::has_collection(old(self)@.collections, g));
                let w = choose|w: int|
                    0 <= w < old(self)@.collections.len() && (
                    #[trigger] old(self)@.collections[w]).guid == g;
                assert(fin.collections[w].guid == g);
            }
            assert(store_inv(fin));
        }
    }

    /// Update the status of the sub-job of `agent_guid` in `job_guid`,
    /// then propagate the collection's roll-up.
    pub fn set_job_status(&mut self, agent_guid: &String, job_guid: &String, status: JobStatus)
        requires
            store_inv(old(self)@),
        ensures
            store_inv(final(self)@),
            final(self)@ == set_job_status_spec(old(self)@, agent_guid@, job_guid@, status),
            statuses_consistent(old(self)@) ==> statuses_consistent(final(self)@),
    {
        let n = self.jobs.len();
        for k in 0..n
            invariant
                n == self@.jobs.len(),
                self@.agents == old(self)@.agents,
                self@.collections == old(self)@.collections,
                self@.crashes == old(self)@.crashes,
                forall|j: int| k <= j < n ==> (#[trigger] self@.jobs[j]) == old(self)@.jobs[j],
                forall|j: int|
                    0 <= j < k ==> (#[trigger] self@.jobs[j]) == (
                    if old(self)@.jobs[j].agent_guid == agent_guid@
                        && old(self)@.jobs[j].collection_guid == job_guid@ {
                        JobV { status: status, ..old(self)@.jobs[j] }
                    } else {
                        old(self)@.jobs[j]
                    }),
        {
            let ghost head = self@.jobs;
            if self.jobs[k].agent_guid == *agent_guid && self.jobs[k].collection_guid == *job_guid {
                self.jobs[k].status = status;
                proof {
                    assert(self@.jobs =~= head.update(
                        k as int,
                        JobV { status: status, ..head[k as int] },
                    ));
                }
            }
            proof {
                assert(forall|j: int| 0 <= j < n && j != k ==> (#[trigger] self@.jobs[j]) == head[j]);
            }
        }
        proof {
            let mid = StoreV {
                jobs: Seq::new(
                    old(self)@.jobs.len(),
                    |k: int|
                        if old(self)@.jobs[k].agent_guid == agent_guid@
                            && old(self)@.jobs[k].collection_guid == job_guid@ {
                            JobV { status: status, ..old(self)@.jobs[k] }
                        } else {
                            old(self)@.jobs[k]
                        },
                ),
                ..old(self)@
            };
            assert(self@ =~= mid);
            assert forall|g: Seq<char>|
                unfreed_cpus(mid.jobs, g) == unfreed_cpus(old(self)@.jobs, g) && unfreed_ram(
                    mid.jobs,
                    g,
                ) == unfreed_ram(old(self)@.jobs, g) by {
                lemma_unfreed_same(old(self)@.jobs, mid.jobs, g);
            }
            assert(store_inv(mid));
        }
        self.propagate_status(job_guid);
        proof {
            let prev = old(self)@;
            let mid = StoreV {
                jobs: Seq::new(
                    prev.jobs.len(),
                    |k: int|
                        if prev.jobs[k].agent_guid == agent_guid@ && prev.jobs[k].collection_guid
                            == job_guid@ {
                            JobV { status: status, ..prev.jobs[k] }
                        } else {
                            prev.jobs[k]
                        },
                ),
                ..prev
            };
            assert(final(self)@ =~= set_job_status_spec(prev, agent_guid@, job_guid@, status));
            if statuses_consistent(prev) {
                lemma_statuses_after_propagate(prev, mid, job_guid@);
            }
        }
    }

    /// Update the message of the sub-job of `agent_guid` in `job_guid`.
    pub fn set_job_last_msg(&mut self, agent_guid: &String, job_guid: &String, last_msg: &String)
        requires
            store_inv(old(self)@),
        ensures
            store_inv(final(self)@),
            final(self)@ == set_job_last_msg_spec(old(self)@, agent_guid@, job_guid@, last_msg@),
            statuses_consistent(old(self)@) ==> statuses_consistent(final(self)@),
    {
        let n = self.jobs.len();
        for k in 0..n
            invariant
                n == self@.jobs.len(),
                self@.agents == old(self)@.agents,
                self@.collections == old(self)@.collections,
                self@.crashes == old(self)@.crashes,
                forall|j: int| k <= j < n ==> (#[trigger] self@.jobs[j]) == old(self)@.jobs[j],
                forall|j: int|
                    0 <= j < k ==> (#[trigger] self@.jobs[j]) == (
                    if old(self)@.jobs[j].agent_guid == agent_guid@
                        && old(self)@.jobs[j].collection_guid == job_guid@ {
                        JobV { last_msg: last_msg@, ..old(self)@.jobs[j] }
                    } else {
                        old(self)@.jobs[j]
                    }),
        {
            let ghost head = self@.jobs;
            if self.jobs[k].agent_guid == *agent_guid && self.jobs[k].collection_guid == *job_guid {
                self.jobs[k].last_msg = last_msg.clone();
                proof {
                    assert(self@.jobs =~= head.update(
                        k as int,
                        JobV { last_msg: last_msg@, ..head[k as int] },
                    ));
                }
            }
            proof {
                assert(forall|j: int| 0 <= j < n && j != k ==> (#[trigger] self@.jobs[j]) == head[j]);
            }
        }
        proof {
            let fin = final(self)@;
            let prev = old(self)@;
            assert(fin =~= set_job_last_msg_spec(prev, agent_guid@, job_guid@, last_msg@));
            assert forall|g: Seq<char>|
                unfreed_cpus(fin.jobs, g) == unfreed_cpus(prev.jobs, g) && unfreed_ram(fin.jobs, g)
                    == unfreed_ram(prev.jobs, g) by {
                lemma_unfreed_same(prev.jobs, fin.jobs, g);
            }
            assert(store_inv(fin));
            if statuses_consistent(prev) {
                assert forall|i: int|
                    0 <= i < fin.collections.len() && count_jobs_of(fin.jobs, (
                    #[trigger] fin.collections[i]).guid) > 0 implies fin.collections[i].status
                    == roll_up(fin.jobs, fin.collections[i].guid) by {
                    lemma_roll_up_same(prev.jobs, fin.jobs, fin.collections[i].guid);
                    lemma_count_same(
                        prev.jobs,
                        fin.jobs,
                        fin.collections[i].guid,
                        JobStatus::Error,
                    );
                }
            }
        }
    }

    /// Complete the sub-job of `agent_guid` in `job_guid`: if a
    /// not-yet-freed row remains, mark it freed with the given message and
    /// status, return its CPUs and RAM to the agent, and propagate the
    /// collection's roll-up.  A second call with the same pair finds no
    /// row left and leaves the store unchanged.
    pub fn complete_job(
        &mut self,
        agent_guid: &String,
        job_guid: &String,
        last_msg: &String,
        status: JobStatus,
    )
        requires
            store_inv(old(self)@),
        ensures
            store_inv(final(self)@),
            final(self)@ == complete_job_spec(
                old(self)@,
                agent_guid@,
                job_guid@,
                last_msg@,
                status,
            ),
            statuses_consistent(old(self)@) ==> statuses_consistent(final(self)@),
    {
        let k = match self.unfreed_pos(agent_guid, job_guid) {
            None => {
                return ;
            },
            Some(k) => k,
        };
        let row_cpus = self.jobs[k].cpus;
        let row_ram = self.jobs[k].ram;
        proof {
            crate::seq_util::lemma_first_where(
                old(self)@.jobs,
                |j: JobV| j.agent_guid == agent_guid@ && j.collection_guid == job_guid@
                    && !j.freed,
            );
        }
        self.jobs[k].freed = true;
        self.jobs[k].last_msg = last_msg.clone();
        self.jobs[k].status = status;
        let ghost prev = old(self)@;
        let ghost row = prev.jobs[k as int];
        let ghost row2 = JobV { freed: true, last_msg: last_msg@, status: status, ..row };
        let ghost jobs2 = prev.jobs.update(k as int, row2);
        proof {
            assert(self@.jobs =~= jobs2);
        }
        let n = self.agents.len();
        for i in 0..n
            invariant
                n == self@.agents.len(),
                self@.agents.len() == prev.agents.len(),
                self@.jobs == jobs2,
                self@.collections == prev.collections,
                self@.crashes == prev.crashes,
                store_inv(prev),
                0 <= k < prev.jobs.len(),
                row == prev.jobs[k as int],
                row.agent_guid == agent_guid@ && !row.freed,
                row_cpus == row.cpus && row_ram == row.ram,
                forall|j: int| i <= j < n ==> (#[trigger] self@.agents[j]) == prev.agents[j],
                forall|j: int|
                    0 <= j < i ==> (#[trigger] self@.agents[j]) == (
                    if prev.agents[j].guid == agent_guid@ {
                        AgentV {
                            free_cpus: prev.agents[j].free_cpus + row.cpus,
                            free_ram: prev.agents[j].free_ram + row.ram,
                            ..prev.agents[j]
                        }
                    } else {
                        prev.agents[j]
                    }),
        {
            let ghost head = self@.agents;
            if self.agents[i].guid == *agent_guid {
                proof {
                    assert(self@.agents[i as int] == prev.agents[i as int]);
                    assert(accounting_ok(prev));
                    assert(prev.agents[i as int].free_cpus + unfreed_cpus(
                        prev.jobs,
                        prev.agents[i as int].guid,
                    ) == prev.agents[i as int].cpus);
                    lemma_unfreed_ge_elem(prev.jobs, agent_guid@, k as int);
                }
                let fc = self.agents[i].free_cpus;
                let fr = self.agents[i].free_ram;
                self.agents[i].free_cpus = fc + row_cpus;
                self.agents[i].free_ram = fr + row_ram;
                proof {
                    assert(self@.agents =~= head.update(
                        i as int,
                        AgentV {
                            free_cpus: head[i as int].free_cpus + row.cpus,
                            free_ram: head[i as int].free_ram + row.ram,
                            ..head[i as int]
                        },
                    ));
                }
            }
            proof {
                assert(forall|j: int|
                    0 <= j < n && j != i ==> (#[trigger] self@.agents[j]) == head[j]);
            }
        }
        let ghost agents2 = Seq::new(
            prev.agents.len(),
            |i: int|
                if prev.agents[i].guid == agent_guid@ {
                    AgentV {
                        free_cpus: prev.agents[i].free_cpus + row.cpus,
                        free_ram: prev.agents[i].free_ram + row.ram,
                        ..prev.agents[i]
                    }
                } else {
                    prev.agents[i]
                },
        );
        let ghost mid = StoreV { agents: agents2, jobs: jobs2, ..prev };
        proof {
            assert(self@ =~= mid);
            assert forall|g: Seq<char>|
                unfreed_cpus(jobs2, g) == unfreed_cpus(prev.jobs, g) - cpu_contrib(row, g)
                    && unfreed_ram(jobs2, g) == unfreed_ram(prev.jobs, g) - ram_contrib(
                    row,
                    g,
                ) by {
                lemma_unfreed_update(prev.jobs, k as int, row2, g);
            }
            assert forall|i: int|
                0 <= i < mid.agents.len() implies {
                let a = #[trigger] mid.agents[i];
                a.free_cpus + unfreed_cpus(mid.jobs, a.guid) == a.cpus && a.free_ram + unfreed_ram(
                    mid.jobs,
                    a.guid,
                ) == a.ram
            } by {
                assert(prev.agents[i].free_cpus + unfreed_cpus(prev.jobs, prev.agents[i].guid)
                    == prev.agents[i].cpus);
            }
            assert forall|i: int|
                0 <= i < mid.agents.len() && (#[trigger] mid.agents[i]).status == AgentStatus::Init
                implies !has_unfreed(mid.jobs, mid.agents[i].guid) by {
                assert(!has_unfreed(prev.jobs, prev.agents[i].guid));
                assert forall|j: int|
                    0 <= j < jobs2.len() implies !((#[trigger] jobs2[j]).agent_guid
                    == mid.agents[i].guid && !jobs2[j].freed) by {
                    if j != k as int {
                        assert(jobs2[j] == prev.jobs[j]);
                    }
                }
            }
            assert forall|j: int| 0 <= j < jobs2.len() implies crate::store::job_bounded(
                #[trigger] jobs2[j],
            ) by {
                if j != k as int {
                    assert(jobs2[j] == prev.jobs[j]);
                } else {
                    assert(crate::store::job_bounded(prev.jobs[j]));
                }
            }
            assert forall|i: int|
                0 <= i < mid.agents.len() implies crate::store::agent_bounded(
                #[trigger] mid.agents[i],
            ) by {
                assert(crate::store::agent_bounded(prev.agents[i]));
                if prev.agents[i].guid == agent_guid@ {
                    crate::store::lemma_unfreed_nonneg(jobs2, prev.agents[i].guid);
                }
            }
            assert(store_inv(mid));
        }
        self.propagate_status(job_guid);
        proof {
            assert(final(self)@ =~= complete_job_spec(
                prev,
                agent_guid@,
                job_guid@,
                last_msg@,
                status,
            ));
            if statuses_consistent(prev) {
                lemma_statuses_after_propagate(prev, mid, job_guid@);
            }
        }
    }
}

/// All of `mid`'s agents stay within machine bounds when each free counter
/// grows by at most what accounting allows.
spec fn agent_bounded_all(s: StoreV) -> bool {
    forall|i: int| 0 <= i < s.agents.len() ==> crate::store::agent_bounded(#[trigger] s.agents[i])
}

/// After `propagate_spec(mid, coll)`, every collection with rows is
/// consistent again, provided `prev` was consistent and `mid` differs from
/// `prev` only in rows of `coll` (and in fields the counts ignore).
proof fn lemma_statuses_after_propagate(prev: StoreV, mid: StoreV, coll: Seq<char>)
    requires
        statuses_consistent(prev),
        mid.collections == prev.collections,
        mid.jobs.len() == prev.jobs.len(),
        forall|k: int|
            0 <= k < prev.jobs.len() ==> {
                let a = #[trigger] prev.jobs[k];
                let b = #[trigger] mid.jobs[k];
                a.collection_guid == b.collection_guid && (a.collection_guid != coll ==> a.status
                    == b.status)
            },
    ensures
        statuses_consistent(propagate_spec(mid, coll)),
{
    let fin = propagate_spec(mid, coll);
    assert forall|i: int|
        0 <= i < fin.collections.len() && count_jobs_of(fin.jobs, (
        #[trigger] fin.collections[i]).guid) > 0 implies fin.collections[i].status == roll_up(
        fin.jobs,
        fin.collections[i].guid,
    ) by {
        let g = fin.collections[i].guid;
        if prev.collections[i].guid == coll {
            assert(fin.collections[i].status == roll_up(mid.jobs, coll));
        } else {
            assert(fin.collections[i] == prev.collections[i]);
            lemma_roll_up_same_outside(prev.jobs, mid.jobs, g, coll);
            lemma_count_same_outside(prev.jobs, mid.jobs, g, coll);
            assert(count_jobs_of(prev.jobs, g) == count_jobs_of(mid.jobs, g));
            assert(prev.collections[i].status == roll_up(prev.jobs, g));
        }
    }
}

/// Counts for a collection other than `coll` do not change when only rows
/// of `coll` change status.
proof fn lemma_count_same_outside(
    jobs1: Seq<JobV>,
    jobs2: Seq<JobV>,
    c2: Seq<char>,
    coll: Seq<char>,
)
    requires
        c2 != coll,
        jobs1.len() == jobs2.len(),
        forall|k: int|
            0 <= k < jobs1.len() ==> {
                let a = #[trigger] jobs1[k];
                let b = #[trigger] jobs2[k];
                a.collection_guid == b.collection_guid && (a.collection_guid != coll ==> a.status
                    == b.status)
            },
    ensures
        count_jobs_of(jobs2, c2) == count_jobs_of(jobs1, c2),
{
    lemma_count_same(jobs1, jobs2, c2, JobStatus::Error);
}

/// The roll-up of a collection other than `coll` does not change when only
/// rows of `coll` change status.
proof fn lemma_roll_up_same_outside(
    jobs1: Seq<JobV>,
    jobs2: Seq<JobV>,
    c2: Seq<char>,
    coll: Seq<char>,
)
    requires
        c2 != coll,
        jobs1.len() == jobs2.len(),
        forall|k: int|
            0 <= k < jobs1.len() ==> {
                let a = #[trigger] jobs1[k];
                let b = #[trigger] jobs2[k];
                a.collection_guid == b.collection_guid && (a.collection_guid != coll ==> a.status
                    == b.status)
            },
    ensures
        roll_up(jobs2, c2) == roll_up(jobs1, c2),
{
    lemma_count_same(jobs1, jobs2, c2, JobStatus::Error);
    lemma_count_same(jobs1, jobs2, c2, JobStatus::Init);
    lemma_count_same(jobs1, jobs2, c2, JobStatus::Alive);
    lemma_count_same(jobs1, jobs2, c2, JobStatus::Completed);
}

/// The roll-up is the same whenever every row agrees on collection and
/// status.
proof fn lemma_roll_up_same(jobs1: Seq<JobV>, jobs2: Seq<JobV>, c2: Seq<char>)
    requires
        jobs1.len() == jobs2.len(),
        forall|k: int|
            0 <= k < jobs1.len() ==> {
                let a = #[trigger] jobs1[k];
                let b = #[trigger] jobs2[k];
                a.collection_guid == b.collection_guid && a.status == b.status
            },
    ensures
        roll_up(jobs2, c2) == roll_up(jobs1, c2),
{
    lemma_count_same(jobs1, jobs2, c2, JobStatus::Error);
    lemma_count_same(jobs1, jobs2, c2, JobStatus::Init);
    lemma_count_same(jobs1, jobs2, c2, JobStatus::Alive);
    lemma_count_same(jobs1, jobs2, c2, JobStatus::Completed);
}

} // verus!
