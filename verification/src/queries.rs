//! Read-only views over the store: collection listings, per-collection
//! detail, and the job statistics shown on the dashboard.

use vstd::prelude::*;

use crate::model::JobCollection;
use crate::model::JobCollectionV;
use crate::model::JobInfoResponse;
use crate::model::JobStats;
use crate::model::JobV;
use crate::model::views_of;
use crate::status::JobStatus;
use crate::store::Store;
use crate::store::collection_index;

verus! {

/// The sub-job rows of one collection, in store order.
pub open spec fn jobs_of_collection(jobs: Seq<JobV>, coll: Seq<char>) -> Seq<JobV>
    decreases jobs.len(),
{
    if jobs.len() == 0 {
        Seq::empty()
    } else {
        let rest = jobs_of_collection(jobs.drop_last(), coll);
        if jobs.last().collection_guid == coll {
            rest.push(jobs.last())
        } else {
            rest
        }
    }
}

/// How many collections carry the given rolled-up status.
pub open spec fn count_collections(cols: Seq<JobCollectionV>, st: JobStatus) -> int
    decreases cols.len(),
{
    if cols.len() == 0 {
        0
    } else {
        count_collections(cols.drop_last(), st) + if cols.last().status == st {
            1int
        } else {
            0int
        }
    }
}

impl Store {
    /// All collection rows, in store order.
    pub fn get_all_collections(&self) -> (r: Vec<JobCollection>)
        ensures
            views_of(r@) == self@.collections,
    {
        let mut out: Vec<JobCollection> = Vec::new();
        let n = self.collections.len();
        for i in 0..n
            invariant
                n == self@.collections.len(),
                out@.len() == i,
                forall|j: int| 0 <= j < i ==> (#[trigger] out@[j])@ == self@.collections[j],
        {
            let c = self.collections[i].duplicate();
            assert(c@ == self@.collections[i as int]);
            out.push(c);
        }
        proof {
            assert(views_of(out@) =~= self@.collections);
        }
        out
    }

    /// Collection counts by status: `alive` also counts collections still
    /// in `init`; the other two count themselves.
    pub fn get_job_stats(&self) -> (r: JobStats)
        requires
            self@.collections.len() <= u64::MAX,
        ensures
            r.alive == count_collections(self@.collections, JobStatus::Alive) + count_collections(
                self@.collections,
                JobStatus::Init,
            ),
            r.completed == count_collections(self@.collections, JobStatus::Completed),
            r.error == count_collections(self@.collections, JobStatus::Error),
    {
        let mut alive: u64 = 0;
        let mut completed: u64 = 0;
        let mut error: u64 = 0;
        let n = self.collections.len();
        proof {
            lemma_count_collections_bounds(self@.collections.take(0), JobStatus::Alive);
        }
        for i in 0..n
            invariant
                n == self@.collections.len(),
                n <= u64::MAX,
                alive as int == count_collections(self@.collections.take(i as int), JobStatus::Alive)
                    + count_collections(self@.collections.take(i as int), JobStatus::Init),
                completed as int == count_collections(
                    self@.collections.take(i as int),
                    JobStatus::Completed,
                ),
                error as int == count_collections(
                    self@.collections.take(i as int),
                    JobStatus::Error,
                ),
                alive <= i && completed <= i && error <= i,
        {
            proof {
                assert(self@.collections.take(i + 1).drop_last() =~= self@.collections.take(
                    i as int,
                ));
                assert(self@.collections.take(i + 1).last() == self@.collections[i as int]);
            }
            match self.collections[i].status {
                JobStatus::Alive => {
                    alive = alive + 1;
                },
                JobStatus::Init => {
                    alive = alive + 1;
                },
                JobStatus::Completed => {
                    completed = completed + 1;
                },
                JobStatus::Error => {
                    error = error + 1;
                },
            }
        }
        proof {
            assert(self@.collections.take(n as int) =~= self@.collections);
        }
        JobStats { alive, completed, error }
    }

    /// One collection with its sub-job rows, when the guid names one.
    pub fn get_job(&self, guid: &String) -> (r: Option<JobInfoResponse>)
        ensures
            ({
                let k = collection_index(self@.collections, guid@);
                match r {
                    None => k == -1,
                    Some(resp) => 0 <= k && resp@.job_collection == self@.collections[k]
                        && resp@.jobs == jobs_of_collection(self@.jobs, guid@),
                }
            }),
    {
        let n = self.collections.len();
        let mut found: Option<usize> = None;
        for i in 0..n
            invariant
                n == self@.collections.len(),
                match found {
                    Some(x) => x < n && collection_index(self@.collections, guid@) == x as int,
                    None => forall|j: int|
                        0 <= j < i ==> (#[trigger] self@.collections[j]).guid != guid@,
                },
        {
            if found.is_none() && self.collections[i].guid == *guid {
                proof {
                    crate::seq_util::lemma_first_where_is(
                        self@.collections,
                        |c: JobCollectionV| c.guid == guid@,
                        i as int,
                    );
                }
                found = Some(i);
            }
        }
        let k = match found {
            None => {
                proof {
                    crate::seq_util::lemma_first_where_none(
                        self@.collections,
                        |c: JobCollectionV| c.guid == guid@,
                    );
                }
                return None;
            },
            Some(k) => k,
        };
        let job_collection = self.collections[k].duplicate();
        let mut jobs: Vec<crate::model::Job> = Vec::new();
        let nj = self.jobs.len();
        for i in 0..nj
            invariant
                nj == self@.jobs.len(),
                views_of(jobs@) == jobs_of_collection(self@.jobs.take(i as int), guid@),
        {
            proof {
                assert(self@.jobs.take(i + 1).drop_last() =~= self@.jobs.take(i as int));
                assert(self@.jobs.take(i + 1).last() == self@.jobs[i as int]);
            }
            let ghost pre = views_of(jobs@);
            if self.jobs[i].collection_guid == *guid {
                let j = self.jobs[i].duplicate();
                assert(j@ == self@.jobs[i as int]);
                jobs.push(j);
                proof {
                    assert(views_of(jobs@) =~= pre.push(self@.jobs[i as int]));
                }
            } else {
                proof {
                    assert(views_of(jobs@) =~= pre);
                }
            }
        }
        proof {
            assert(self@.jobs.take(nj as int) =~= self@.jobs);
        }
        Some(JobInfoResponse { job_collection, jobs })
    }
}

/// Counts never exceed the number of rows.
pub proof fn lemma_count_collections_bounds(cols: Seq<JobCollectionV>, st: JobStatus)
    ensures
        0 <= count_collections(cols, st) <= cols.len(),
    decreases cols.len(),
{
    if cols.len() > 0 {
        lemma_count_collections_bounds(cols.drop_last(), st);
    }
}

} // verus!
