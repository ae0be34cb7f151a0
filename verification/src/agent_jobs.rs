//! The agent's in-memory job table: one entry per accepted sub-job,
//! keyed by the collection guid it belongs to.  The callers hold the
//! table behind their own lock; every operation here is sequential.

use vstd::prelude::*;

use crate::model::JobCreateRequest;
use crate::model::JobCreateRequestV;
use crate::model::views_of;
use crate::seq_util::first_where;
use crate::seq_util::lemma_first_where;
use crate::seq_util::lemma_first_where_is;
use crate::seq_util::lemma_first_where_none;
use crate::status::JobStatus;

verus! {

/// Index of the entry with this job guid, `-1` when absent.
pub open spec fn entry_index(s: Seq<JobCreateRequestV>, guid: Seq<char>) -> int {
    first_where(s, |j: JobCreateRequestV| j.job_guid == guid)
}

/// Entries carry pairwise distinct job guids.
pub open spec fn entries_distinct(s: Seq<JobCreateRequestV>) -> bool {
    forall|p: int, q: int|
        0 <= p < q < s.len() ==> (#[trigger] s[p]).job_guid != (#[trigger] s[q]).job_guid
}

/// The agent's job table.
pub struct Jobs {
    pub jobs: Vec<JobCreateRequest>,
}

impl View for Jobs {
    type V = Seq<JobCreateRequestV>;

    open spec fn view(&self) -> Seq<JobCreateRequestV> {
        views_of(self.jobs@)
    }
}

impl Jobs {
    pub fn new() -> (r: Jobs)
        ensures
            r@.len() == 0,
            entries_distinct(r@),
    {
        Jobs { jobs: Vec::new() }
    }

    /// Position of the entry with this job guid.
    fn pos(&self, guid: &String) -> (r: Option<usize>)
        ensures
            match r {
                Some(i) => i < self@.len() && entry_index(self@, guid@) == i as int,
                None => entry_index(self@, guid@) == -1,
            },
    {
        let n = self.jobs.len();
        for i in 0..n
            invariant
                n == self@.len(),
                forall|j: int| 0 <= j < i ==> (#[trigger] self@[j]).job_guid != guid@,
        {
            if self.jobs[i].job_guid == *guid {
                proof {
                    lemma_first_where_is(
                        self@,
                        |j: JobCreateRequestV| j.job_guid == guid@,
                        i as int,
                    );
                }
                return Some(i);
            }
        }
        proof {
            lemma_first_where_none(self@, |j: JobCreateRequestV| j.job_guid == guid@);
        }
        None
    }

    /// Every entry, in table order.
    pub fn get_all(&self) -> (r: Vec<JobCreateRequest>)
        ensures
            views_of(r@) == self@,
    {
        let mut out: Vec<JobCreateRequest> = Vec::new();
        let n = self.jobs.len();
        for i in 0..n
            invariant
                n == self@.len(),
                out@.len() == i,
                forall|j: int| 0 <= j < i ==> (#[trigger] out@[j])@ == self@[j],
        {
            let e = self.jobs[i].duplicate();
            assert(e@ == self@[i as int]);
            out.push(e);
        }
        proof {
            assert(views_of(out@) =~= self@);
        }
        out
    }

    /// Insert an accepted sub-job; a second request with the same guid
    /// replaces the entry in place.
    pub fn create(&mut self, req: JobCreateRequest)
        requires
            entries_distinct(old(self)@),
        ensures
            entries_distinct(final(self)@),
            ({
                let k = entry_index(old(self)@, req.job_guid@);
                if k == -1 {
                    final(self)@ == old(self)@.push(req@)
                } else {
                    final(self)@ == old(self)@.update(k, req@)
                }
            }),
    {
        let ghost pre = self@;
        let ghost reqv = req@;
        match self.pos(&req.job_guid) {
            Some(i) => {
                self.jobs[i] = req;
                proof {
                    assert(final(self)@ =~= pre.update(i as int, reqv));
                    lemma_first_where(pre, |j: JobCreateRequestV| j.job_guid == reqv.job_guid);
                    assert forall|p: int, q: int|
                        0 <= p < q < final(self)@.len() implies (#[trigger] final(self)@[p]).job_guid != (#[trigger] final(self)@[q]).job_guid by {
                        assert(pre[p].job_guid != pre[q].job_guid);
                    }
                }
            },
            None => {
                proof {
                    lemma_first_where(pre, |j: JobCreateRequestV| j.job_guid == reqv.job_guid);
                }
                self.jobs.push(req);
                proof {
                    assert(final(self)@ =~= pre.push(reqv));
                    assert forall|p: int, q: int|
                        0 <= p < q < final(self)@.len() implies (#[trigger] final(self)@[p]).job_guid != (#[trigger] final(self)@[q]).job_guid by {
                        if q == final(self)@.len() - 1 {
                            assert(final(self)@[p] == pre[p]);
                        }
                    }
                }
            },
        }
    }

    /// Set the status of the entry with this guid, if present.
    pub fn set_status(&mut self, guid: &String, status: JobStatus)
        requires
            entries_distinct(old(self)@),
        ensures
            entries_distinct(final(self)@),
            ({
                let k = entry_index(old(self)@, guid@);
                if k == -1 {
                    final(self)@ == old(self)@
                } else {
                    final(self)@ == old(self)@.update(
                        k,
                        JobCreateRequestV { status: status, ..old(self)@[k] },
                    )
                }
            }),
    {
        let ghost pre = self@;
        match self.pos(guid) {
            Some(i) => {
                self.jobs[i].status = status;
                proof {
                    assert(final(self)@ =~= pre.update(
                        i as int,
                        JobCreateRequestV { status: status, ..pre[i as int] },
                    ));
                    assert forall|p: int, q: int|
                        0 <= p < q < final(self)@.len() implies (#[trigger] final(self)@[p]).job_guid != (#[trigger] final(self)@[q]).job_guid by {
                        assert(pre[p].job_guid != pre[q].job_guid);
                    }
                }
            },
            None => {},
        }
    }

    /// Set the progress message of the entry with this guid, if present.
    pub fn set_last_msg(&mut self, guid: &String, message: String)
        requires
            entries_distinct(old(self)@),
        ensures
            entries_distinct(final(self)@),
            ({
                let k = entry_index(old(self)@, guid@);
                if k == -1 {
                    final(self)@ == old(self)@
                } else {
                    final(self)@ == old(self)@.update(
                        k,
                        JobCreateRequestV { last_msg: message@, ..old(self)@[k] },
                    )
                }
            }),
    {
        let ghost pre = self@;
        let ghost msgv = message@;
        match self.pos(guid) {
            Some(i) => {
                self.jobs[i].last_msg = message;
                proof {
                    assert(final(self)@ =~= pre.update(
                        i as int,
                        JobCreateRequestV { last_msg: msgv, ..pre[i as int] },
                    ));
                    assert forall|p: int, q: int|
                        0 <= p < q < final(self)@.len() implies (#[trigger] final(self)@[p]).job_guid != (#[trigger] final(self)@[q]).job_guid by {
                        assert(pre[p].job_guid != pre[q].job_guid);
                    }
                }
            },
            None => {},
        }
    }

    /// Remove the entry with this guid, handing back the key and the
    /// entry, as the table's callers expect; `None` on a miss.
    pub fn destroy(&mut self, guid: &String) -> (r: Option<(String, JobCreateRequest)>)
        requires
            entries_distinct(old(self)@),
        ensures
            entries_distinct(final(self)@),
            ({
                let k = entry_index(old(self)@, guid@);
                match r {
                    None => k == -1 && final(self)@ == old(self)@,
                    Some(pair) => k != -1 && pair.0@ == guid@ && pair.1@ == old(self)@[k]
                        && final(self)@ == old(self)@.remove(k),
                }
            }),
    {
        let ghost pre = self@;
        match self.pos(guid) {
            Some(i) => {
                let entry = self.jobs.remove(i);
                proof {
                    assert(final(self)@ =~= pre.remove(i as int));
                    assert forall|p: int, q: int|
                        0 <= p < q < final(self)@.len() implies (#[trigger] final(self)@[p]).job_guid != (#[trigger] final(self)@[q]).job_guid by {
                        let p0 = if p < i as int {
                            p
                        } else {
                            p + 1
                        };
                        let q0 = if q < i as int {
                            q
                        } else {
                            q + 1
                        };
                        assert(final(self)@[p] == pre[p0] && final(self)@[q] == pre[q0]);
                    }
                }
                Some((guid.clone(), entry))
            },
            None => None,
        }
    }

    /// The guids of every entry, in table order.
    pub fn guids(&self) -> (r: Vec<String>)
        ensures
            r@.len() == self@.len(),
            forall|k: int| 0 <= k < r@.len() ==> (#[trigger] r@[k])@ == self@[k].job_guid,
    {
        let mut out: Vec<String> = Vec::new();
        let n = self.jobs.len();
        for i in 0..n
            invariant
                n == self@.len(),
                out@.len() == i,
                forall|k: int| 0 <= k < i ==> (#[trigger] out@[k])@ == self@[k].job_guid,
        {
            let g = self.jobs[i].job_guid.clone();
            assert(g@ == self@[i as int].job_guid);
            out.push(g);
        }
        out
    }

    /// The status of the entry with this guid, if present.
    pub fn get_status(&self, guid: &String) -> (r: Option<JobStatus>)
        ensures
            ({
                let k = entry_index(self@, guid@);
                match r {
                    None => k == -1,
                    Some(st) => k != -1 && st == self@[k].status,
                }
            }),
    {
        match self.pos(guid) {
            Some(i) => Some(self.jobs[i].status),
            None => None,
        }
    }
}

} // verus!
