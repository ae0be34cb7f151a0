//! The laws of the control plane, stated and proved over the spec
//! transitions that the executable operations are verified against.

use vstd::prelude::*;

use crate::lifecycle::complete_job_spec;
use crate::lifecycle::credit_agents;
use crate::model::AgentV;
use crate::model::JobInfoV;
use crate::model::JobRequestV;
use crate::model::JobV;
use crate::sched::apply_requests;
use crate::sched::assign;
use crate::sched::debit_agents;
use crate::sched::distinct_guids;
use crate::sched::eligible_agents;
use crate::sched::job_of;
use crate::sched::lemma_apply_push;
use crate::sched::lemma_apply_requests_shape;
use crate::sched::lemma_eligible_wf;
use crate::sched::lemma_sort_desc_wf;
use crate::sched::min_int;
use crate::sched::schedule_ok_spec;
use crate::sched::sort_desc;
use crate::sched::sum_free_cpus;
use crate::seq_util::first_where;
use crate::seq_util::lemma_first_where;
use crate::seq_util::lemma_first_where_is;
use crate::status::JobStatus;
use crate::store::StoreV;
use crate::store::has_collection;
use crate::store::roll_up;
use crate::store::statuses_consistent;
use crate::store::store_inv;
use crate::store::count_jobs_of;
use crate::store::unfreed_cpus;
use crate::store::unfreed_ram;
use crate::store::unfreed_job_index;

verus! {

/// Resource accounting: at every store the invariant guards, each
/// agent's free counters plus the resources of its not-yet-freed
/// sub-jobs equal its totals, and the free counters lie between zero and
/// the totals.
pub proof fn lemma_resource_accounting(s: StoreV, i: int)
    requires
        store_inv(s),
        0 <= i < s.agents.len(),
    ensures
        s.agents[i].free_cpus + unfreed_cpus(s.jobs, s.agents[i].guid) == s.agents[i].cpus,
        s.agents[i].free_ram + unfreed_ram(s.jobs, s.agents[i].guid) == s.agents[i].ram,
        0 <= s.agents[i].free_cpus <= s.agents[i].cpus,
        0 <= s.agents[i].free_ram <= s.agents[i].ram,
{
    crate::store::lemma_unfreed_nonneg(s.jobs, s.agents[i].guid);
}

/// Status roll-up: at every store the consistency predicate guards, each
/// collection with at least one sub-job row carries exactly what the
/// propagation function assigns it.
pub proof fn lemma_status_roll_up(s: StoreV, i: int)
    requires
        statuses_consistent(s),
        0 <= i < s.collections.len(),
        count_jobs_of(s.jobs, s.collections[i].guid) > 0,
    ensures
        s.collections[i].status == roll_up(s.jobs, s.collections[i].guid),
{
}

/// Completion is idempotent: a second completion of the same
/// `(agent, collection)` pair finds no row left and changes nothing.
pub proof fn lemma_complete_job_idempotent(
    s: StoreV,
    agent: Seq<char>,
    coll: Seq<char>,
    msg: Seq<char>,
    st: JobStatus,
)
    requires
        store_inv(s),
    ensures
        complete_job_spec(complete_job_spec(s, agent, coll, msg, st), agent, coll, msg, st)
            == complete_job_spec(s, agent, coll, msg, st),
{
    let k = unfreed_job_index(s.jobs, agent, coll);
    let p = |j: JobV| j.agent_guid == agent && j.collection_guid == coll && !j.freed;
    lemma_first_where(s.jobs, p);
    if k != -1 {
        let s1 = complete_job_spec(s, agent, coll, msg, st);
        let jobs2 = s.jobs.update(
            k,
            JobV { freed: true, last_msg: msg, status: st, ..s.jobs[k] },
        );
        assert(s1.jobs == jobs2);
        assert forall|x: int| 0 <= x < jobs2.len() implies !p(#[trigger] jobs2[x]) by {
            if x != k {
                assert(jobs2[x] == s.jobs[x]);
                if p(s.jobs[x]) {
                    assert(!(s.jobs[x].agent_guid == s.jobs[k].agent_guid && s.jobs[x].collection_guid
                        == s.jobs[k].collection_guid));
                }
            }
        }
        crate::seq_util::lemma_first_where_none(jobs2, p);
        assert(unfreed_job_index(s1.jobs, agent, coll) == -1);
    }
}

/// The scheduler never oversubscribes: every scheduled request addresses
/// a distinct agent of the store and takes at most what that agent had
/// free when the transaction began.
pub proof fn lemma_schedule_no_oversubscribe(s: StoreV, info: JobInfoV)
    requires
        store_inv(s),
        0 <= info.cpus,
        0 <= info.ram,
    ensures
        ({
            let reqs = assign(
                sort_desc(eligible_agents(s.agents, info.agent_type)),
                info.cpus,
                info.ram,
                0,
                info,
            );
            &&& forall|p: int, q: int|
                0 <= p < q < reqs.len() ==> (#[trigger] reqs[p]).agent_guid != (
                #[trigger] reqs[q]).agent_guid
            &&& forall|k: int|
                0 <= k < reqs.len() ==> exists|i: int|
                    0 <= i < s.agents.len() && (#[trigger] s.agents[i]).guid == (
                    #[trigger] reqs[k]).agent_guid && reqs[k].request.cpus
                        <= s.agents[i].free_cpus && reqs[k].request.ram <= s.agents[i].free_ram
        }),
{
    let t = info.agent_type;
    let ev = eligible_agents(s.agents, t);
    lemma_eligible_wf(s.agents, t);
    lemma_sort_desc_wf(ev);
    let sv = sort_desc(ev);
    assert forall|k: int|
        0 <= k < sv.len() implies 0 <= (#[trigger] sv[k]).free_cpus && 0 <= sv[k].free_ram by {
        let j2 = choose|j2: int| 0 <= j2 < ev.len() && ev[j2] == sv[k];
        let j3 = choose|j3: int| 0 <= j3 < s.agents.len() && s.agents[j3] == ev[j2];
        assert(crate::store::agent_bounded(s.agents[j3]));
    }
    lemma_assign_props(sv, info.cpus, info.ram, 0, info);
    let reqs = assign(sv, info.cpus, info.ram, 0, info);
    assert forall|p: int, q: int|
        0 <= p < q < reqs.len() implies (#[trigger] reqs[p]).agent_guid != (
    #[trigger] reqs[q]).agent_guid by {
        assert(sv[p].guid != sv[q].guid);
    }
    assert forall|k: int|
        0 <= k < reqs.len() implies exists|i: int|
        0 <= i < s.agents.len() && (#[trigger] s.agents[i]).guid == (
        #[trigger] reqs[k]).agent_guid && reqs[k].request.cpus <= s.agents[i].free_cpus
            && reqs[k].request.ram <= s.agents[i].free_ram by {
        let j2 = choose|j2: int| 0 <= j2 < ev.len() && ev[j2] == sv[k];
        let j3 = choose|j3: int| 0 <= j3 < s.agents.len() && s.agents[j3] == ev[j2];
        assert(s.agents[j3].guid == reqs[k].agent_guid);
        assert(reqs[k].request.cpus <= s.agents[j3].free_cpus);
    }
}

/// What the assignment walk hands each chosen agent: its own guid, an
/// index equal to its position, and at most its free share.
pub proof fn lemma_assign_props(
    elig: Seq<AgentV>,
    need_cpus: int,
    need_ram: int,
    idx: int,
    info: JobInfoV,
)
    requires
        0 <= need_cpus,
        0 <= need_ram,
        forall|k: int|
            0 <= k < elig.len() ==> 0 <= (#[trigger] elig[k]).free_cpus && 0 <= elig[k].free_ram,
    ensures
        ({
            let reqs = assign(elig, need_cpus, need_ram, idx, info);
            &&& reqs.len() <= elig.len()
            &&& forall|k: int|
                0 <= k < reqs.len() ==> {
                    let rv = #[trigger] reqs[k];
                    &&& rv.agent_guid == elig[k].guid
                    &&& rv.request.job_guid == info.guid
                    &&& rv.request.idx == idx + k
                    &&& 0 <= rv.request.cpus <= elig[k].free_cpus
                    &&& 0 <= rv.request.ram <= elig[k].free_ram
                    &&& rv.request.cpus <= need_cpus
                    &&& rv.request.ram <= need_ram
                }
        }),
    decreases elig.len(),
{
    let reqs = assign(elig, need_cpus, need_ram, idx, info);
    if elig.len() == 0 || (need_cpus <= 0 && need_ram <= 0) {
    } else {
        let tc = min_int(need_cpus, elig[0].free_cpus);
        let tr = min_int(need_ram, elig[0].free_ram);
        assert(reqs[0] == crate::sched::request_of(info, elig[0].guid, idx, tc, tr));
        assert forall|k: int|
            0 <= k < elig.skip(1).len() implies 0 <= (#[trigger] elig.skip(1)[k]).free_cpus && 0
            <= elig.skip(1)[k].free_ram by {
            assert(elig.skip(1)[k] == elig[k + 1]);
        }
        lemma_assign_props(elig.skip(1), need_cpus - tc, need_ram - tr, idx + 1, info);
        let rest = assign(elig.skip(1), need_cpus - tc, need_ram - tr, idx + 1, info);
        assert forall|k: int|
            0 <= k < reqs.len() implies {
            let rv = #[trigger] reqs[k];
            &&& rv.agent_guid == elig[k].guid
            &&& rv.request.job_guid == info.guid
            &&& rv.request.idx == idx + k
            &&& 0 <= rv.request.cpus <= elig[k].free_cpus
            &&& 0 <= rv.request.ram <= elig[k].free_ram
            &&& rv.request.cpus <= need_cpus
            &&& rv.request.ram <= need_ram
        } by {
            if k == 0 {
            } else {
                assert(reqs[k] == rest[k - 1]);
                assert(elig.skip(1)[k - 1] == elig[k]);
            }
        }
    }
}

/// The CPUs a set of scheduled requests takes, summed.
pub open spec fn req_total_cpus(reqs: Seq<JobRequestV>) -> int
    decreases reqs.len(),
{
    if reqs.len() == 0 {
        0
    } else {
        req_total_cpus(reqs.drop_last()) + reqs.last().request.cpus
    }
}

/// Completing each scheduled request of the collection in turn, with one
/// message and a clean status.
pub open spec fn complete_all(
    s: StoreV,
    reqs: Seq<JobRequestV>,
    coll: Seq<char>,
    msg: Seq<char>,
) -> StoreV
    decreases reqs.len(),
{
    if reqs.len() == 0 {
        s
    } else {
        complete_all(
            complete_job_spec(s, reqs[0].agent_guid, coll, msg, JobStatus::Completed),
            reqs.skip(1),
            coll,
            msg,
        )
    }
}

/// Two sequences on which a predicate agrees pointwise have the same
/// first match.
proof fn lemma_first_where_same<T>(s1: Seq<T>, s2: Seq<T>, p: spec_fn(T) -> bool)
    requires
        s1.len() == s2.len(),
        forall|x: int| 0 <= x < s1.len() ==> p(#[trigger] s1[x]) == p(#[trigger] s2[x]),
    ensures
        first_where(s2, p) == first_where(s1, p),
    decreases s1.len(),
{
    if s1.len() > 0 {
        assert forall|x: int|
            0 <= x < s1.skip(1).len() implies p(#[trigger] s1.skip(1)[x]) == p(
            #[trigger] s2.skip(1)[x],
        ) by {
            assert(s1.skip(1)[x] == s1[x + 1] && s2.skip(1)[x] == s2[x + 1]);
        }
        lemma_first_where_same(s1.skip(1), s2.skip(1), p);
        assert(p(s1[0]) == p(s2[0]));
    }
}

/// A credit touching no agent leaves the sum alone.
proof fn lemma_sum_credit_none(agents: Seq<AgentV>, g: Seq<char>, dc: int, dr: int)
    requires
        forall|i: int| 0 <= i < agents.len() ==> (#[trigger] agents[i]).guid != g,
    ensures
        sum_free_cpus(credit_agents(agents, g, dc, dr)) == sum_free_cpus(agents),
    decreases agents.len(),
{
    let c = credit_agents(agents, g, dc, dr);
    if agents.len() > 0 {
        assert forall|i: int|
            0 <= i < agents.drop_last().len() implies (#[trigger] agents.drop_last()[i]).guid
            != g by {
            assert(agents.drop_last()[i] == agents[i]);
        }
        lemma_sum_credit_none(agents.drop_last(), g, dc, dr);
        assert(c.drop_last() =~= credit_agents(agents.drop_last(), g, dc, dr));
        assert(c.last() == agents.last());
    }
}

/// A credit to one agent, by guid, raises the sum by exactly its share.
proof fn lemma_sum_credit(agents: Seq<AgentV>, g: Seq<char>, dc: int, dr: int)
    requires
        distinct_guids(agents),
        exists|i: int| 0 <= i < agents.len() && (#[trigger] agents[i]).guid == g,
    ensures
        sum_free_cpus(credit_agents(agents, g, dc, dr)) == sum_free_cpus(agents) + dc,
    decreases agents.len(),
{
    let c = credit_agents(agents, g, dc, dr);
    let w = choose|i: int| 0 <= i < agents.len() && (#[trigger] agents[i]).guid == g;
    if w == agents.len() - 1 {
        assert forall|i: int|
            0 <= i < agents.drop_last().len() implies (#[trigger] agents.drop_last()[i]).guid
            != g by {
            assert(agents.drop_last()[i] == agents[i]);
            assert(agents[i].guid != agents[w].guid);
        }
        lemma_sum_credit_none(agents.drop_last(), g, dc, dr);
        assert(c.drop_last() =~= credit_agents(agents.drop_last(), g, dc, dr));
        assert(c.last().free_cpus == agents.last().free_cpus + dc);
    } else {
        assert forall|p: int, q: int|
            0 <= p < q < agents.drop_last().len() implies (#[trigger] agents.drop_last()[p]).guid
            != (#[trigger] agents.drop_last()[q]).guid by {
            assert(agents.drop_last()[p] == agents[p] && agents.drop_last()[q] == agents[q]);
        }
        assert(agents.drop_last()[w] == agents[w]);
        lemma_sum_credit(agents.drop_last(), g, dc, dr);
        assert(c.drop_last() =~= credit_agents(agents.drop_last(), g, dc, dr));
        assert(agents.last().guid != agents[w].guid);
        assert(c.last() == agents.last());
    }
}

/// A debit touching no agent leaves the sum alone.
proof fn lemma_sum_debit_none(agents: Seq<AgentV>, g: Seq<char>, dc: int, dr: int)
    requires
        forall|i: int| 0 <= i < agents.len() ==> (#[trigger] agents[i]).guid != g,
    ensures
        sum_free_cpus(debit_agents(agents, g, dc, dr)) == sum_free_cpus(agents),
    decreases agents.len(),
{
    let c = debit_agents(agents, g, dc, dr);
    if agents.len() > 0 {
        assert forall|i: int|
            0 <= i < agents.drop_last().len() implies (#[trigger] agents.drop_last()[i]).guid
            != g by {
            assert(agents.drop_last()[i] == agents[i]);
        }
        lemma_sum_debit_none(agents.drop_last(), g, dc, dr);
        assert(c.drop_last() =~= debit_agents(agents.drop_last(), g, dc, dr));
        assert(c.last() == agents.last());
    }
}

/// A debit from one agent, by guid, lowers the sum by exactly its share.
proof fn lemma_sum_debit(agents: Seq<AgentV>, g: Seq<char>, dc: int, dr: int)
    requires
        distinct_guids(agents),
        exists|i: int| 0 <= i < agents.len() && (#[trigger] agents[i]).guid == g,
    ensures
        sum_free_cpus(debit_agents(agents, g, dc, dr)) == sum_free_cpus(agents) - dc,
    decreases agents.len(),
{
    let c = debit_agents(agents, g, dc, dr);
    let w = choose|i: int| 0 <= i < agents.len() && (#[trigger] agents[i]).guid == g;
    if w == agents.len() - 1 {
        assert forall|i: int|
            0 <= i < agents.drop_last().len() implies (#[trigger] agents.drop_last()[i]).guid
            != g by {
            assert(agents.drop_last()[i] == agents[i]);
            assert(agents[i].guid != agents[w].guid);
        }
        lemma_sum_debit_none(agents.drop_last(), g, dc, dr);
        assert(c.drop_last() =~= debit_agents(agents.drop_last(), g, dc, dr));
        assert(c.last().free_cpus == agents.last().free_cpus - dc);
    } else {
        assert forall|p: int, q: int|
            0 <= p < q < agents.drop_last().len() implies (#[trigger] agents.drop_last()[p]).guid
            != (#[trigger] agents.drop_last()[q]).guid by {
            assert(agents.drop_last()[p] == agents[p] && agents.drop_last()[q] == agents[q]);
        }
        assert(agents.drop_last()[w] == agents[w]);
        lemma_sum_debit(agents.drop_last(), g, dc, dr);
        assert(c.drop_last() =~= debit_agents(agents.drop_last(), g, dc, dr));
        assert(agents.last().guid != agents[w].guid);
        assert(c.last() == agents.last());
    }
}

/// Applying scheduled requests lowers the free-CPU sum by exactly their
/// total.
proof fn lemma_apply_requests_sum(s: StoreV, reqs: Seq<JobRequestV>)
    requires
        distinct_guids_of(reqs),
        forall|k: int|
            0 <= k < reqs.len() ==> exists|i: int|
                0 <= i < s.agents.len() && (#[trigger] s.agents[i]).guid == (
                #[trigger] reqs[k]).agent_guid,
        forall|p: int, q: int|
            0 <= p < q < s.agents.len() ==> (#[trigger] s.agents[p]).guid != (
            #[trigger] s.agents[q]).guid,
    ensures
        sum_free_cpus(apply_requests(s, reqs).agents) == sum_free_cpus(s.agents) - req_total_cpus(
            reqs,
        ),
    decreases reqs.len(),
{
    if reqs.len() > 0 {
        let front = reqs.drop_last();
        let x = reqs.last();
        assert(reqs =~= front.push(x));
        lemma_apply_push(s, front, x);
        assert forall|p: int, q: int|
            0 <= p < q < front.len() implies (#[trigger] front[p]).agent_guid != (
        #[trigger] front[q]).agent_guid by {
            assert(front[p] == reqs[p] && front[q] == reqs[q]);
        }
        assert forall|k: int|
            0 <= k < front.len() implies exists|i: int|
            0 <= i < s.agents.len() && (#[trigger] s.agents[i]).guid == (
            #[trigger] front[k]).agent_guid by {
            assert(front[k] == reqs[k]);
            assert(exists|i: int|
                0 <= i < s.agents.len() && (#[trigger] s.agents[i]).guid == reqs[k].agent_guid);
        }
        lemma_apply_requests_sum(s, front);
        let mid = apply_requests(s, front);
        lemma_apply_requests_shape(s, front);
        assert forall|p: int, q: int|
            0 <= p < q < mid.agents.len() implies (#[trigger] mid.agents[p]).guid != (
        #[trigger] mid.agents[q]).guid by {
            assert(mid.agents[p].guid == s.agents[p].guid);
            assert(mid.agents[q].guid == s.agents[q].guid);
        }
        assert(exists|i: int|
            0 <= i < mid.agents.len() && (#[trigger] mid.agents[i]).guid == x.agent_guid) by {
            assert(reqs[reqs.len() - 1] == x);
            let i = choose|i: int|
                0 <= i < s.agents.len() && (#[trigger] s.agents[i]).guid == x.agent_guid;
            assert(mid.agents[i].guid == x.agent_guid);
        }
        lemma_sum_debit(mid.agents, x.agent_guid, x.request.cpus, x.request.ram);
        assert(apply_requests(s, reqs).agents == debit_agents(
            mid.agents,
            x.agent_guid,
            x.request.cpus,
            x.request.ram,
        ));
    }
}

/// Pairwise distinct agent guids among scheduled requests.
pub open spec fn distinct_guids_of(reqs: Seq<JobRequestV>) -> bool {
    forall|p: int, q: int|
        0 <= p < q < reqs.len() ==> (#[trigger] reqs[p]).agent_guid != (
        #[trigger] reqs[q]).agent_guid
}

/// Completing each scheduled request raises the free-CPU sum by exactly
/// their total, whatever order the rows happen to sit in.
proof fn lemma_complete_all_sum(
    s2: StoreV,
    reqs: Seq<JobRequestV>,
    coll: Seq<char>,
    msg: Seq<char>,
)
    requires
        distinct_guids_of(reqs),
        forall|p: int, q: int|
            0 <= p < q < s2.agents.len() ==> (#[trigger] s2.agents[p]).guid != (
            #[trigger] s2.agents[q]).guid,
        forall|k: int|
            0 <= k < reqs.len() ==> exists|i: int|
                0 <= i < s2.agents.len() && (#[trigger] s2.agents[i]).guid == (
                #[trigger] reqs[k]).agent_guid,
        forall|k: int|
            0 <= k < reqs.len() ==> {
                let j = unfreed_job_index(s2.jobs, (#[trigger] reqs[k]).agent_guid, coll);
                &&& 0 <= j < s2.jobs.len()
                &&& s2.jobs[j].cpus == reqs[k].request.cpus
            },
    ensures
        sum_free_cpus(complete_all(s2, reqs, coll, msg).agents) == sum_free_cpus(s2.agents)
            + req_total_cpus(reqs),
    decreases reqs.len(),
{
    if reqs.len() > 0 {
        let a0 = reqs[0].agent_guid;
        let p0 = |j: JobV| j.agent_guid == a0 && j.collection_guid == coll && !j.freed;
        let j0 = unfreed_job_index(s2.jobs, a0, coll);
        lemma_first_where(s2.jobs, p0);
        let row = s2.jobs[j0];
        let s3 = complete_job_spec(s2, a0, coll, msg, JobStatus::Completed);
        let jobs3 = s2.jobs.update(
            j0,
            JobV { freed: true, last_msg: msg, status: JobStatus::Completed, ..row },
        );
        assert(s3.jobs == jobs3);
        assert(s3.agents == credit_agents(s2.agents, a0, row.cpus, row.ram));
        lemma_sum_credit(s2.agents, a0, row.cpus, row.ram);
        assert(sum_free_cpus(s3.agents) == sum_free_cpus(s2.agents) + reqs[0].request.cpus);

        // Requests after the first keep their rows, untouched.
        assert forall|k: int|
            0 <= k < reqs.skip(1).len() implies {
            let j = unfreed_job_index(s3.jobs, (#[trigger] reqs.skip(1)[k]).agent_guid, coll);
            &&& 0 <= j < s3.jobs.len()
            &&& s3.jobs[j].cpus == reqs.skip(1)[k].request.cpus
        } by {
            assert(reqs.skip(1)[k] == reqs[k + 1]);
            let ak = reqs[k + 1].agent_guid;
            let pk = |j: JobV| j.agent_guid == ak && j.collection_guid == coll && !j.freed;
            assert(ak != a0) by {
                assert(reqs[0].agent_guid != reqs[k + 1].agent_guid);
            }
            assert forall|x: int| 0 <= x < s2.jobs.len() implies pk(#[trigger] s2.jobs[x]) == pk(
                #[trigger] jobs3[x],
            ) by {
                if x == j0 {
                    assert(jobs3[x].agent_guid == row.agent_guid);
                    assert(row.agent_guid == a0);
                }
            }
            lemma_first_where_same(s2.jobs, jobs3, pk);
            let jk = unfreed_job_index(s2.jobs, ak, coll);
            assert(jk != j0) by {
                lemma_first_where(s2.jobs, pk);
                assert(s2.jobs[jk].agent_guid == ak);
                assert(row.agent_guid == a0);
            }
            assert(jobs3[jk] == s2.jobs[jk]);
        }
        assert forall|p: int, q: int|
            0 <= p < q < s3.agents.len() implies (#[trigger] s3.agents[p]).guid != (
        #[trigger] s3.agents[q]).guid by {
            assert(s3.agents[p].guid == s2.agents[p].guid);
            assert(s3.agents[q].guid == s2.agents[q].guid);
        }
        assert forall|k: int|
            0 <= k < reqs.skip(1).len() implies exists|i: int|
            0 <= i < s3.agents.len() && (#[trigger] s3.agents[i]).guid == (#[trigger] reqs.skip(
            1,
        )[k]).agent_guid by {
            assert(reqs.skip(1)[k] == reqs[k + 1]);
            let i = choose|i: int|
                0 <= i < s2.agents.len() && (#[trigger] s2.agents[i]).guid == reqs[k
                    + 1].agent_guid;
            assert(s3.agents[i].guid == reqs.skip(1)[k].agent_guid);
        }
        assert forall|p: int, q: int|
            0 <= p < q < reqs.skip(1).len() implies (#[trigger] reqs.skip(1)[p]).agent_guid != (
        #[trigger] reqs.skip(1)[q]).agent_guid by {
            assert(reqs.skip(1)[p] == reqs[p + 1] && reqs.skip(1)[q] == reqs[q + 1]);
        }
        lemma_complete_all_sum(s3, reqs.skip(1), coll, msg);
        lemma_req_total_skip(reqs);
    }
}

/// The total of a request list is its head plus the total of the rest.
proof fn lemma_req_total_skip(reqs: Seq<JobRequestV>)
    requires
        reqs.len() > 0,
    ensures
        req_total_cpus(reqs) == reqs[0].request.cpus + req_total_cpus(reqs.skip(1)),
    decreases reqs.len(),
{
    if reqs.len() == 1 {
        assert(reqs.skip(1) =~= Seq::<JobRequestV>::empty());
        assert(reqs.drop_last() =~= Seq::<JobRequestV>::empty());
        assert(reqs.last() == reqs[0]);
    } else {
        lemma_req_total_skip(reqs.drop_last());
        assert(reqs.drop_last()[0] == reqs[0]);
        assert(reqs.skip(1).drop_last() =~= reqs.drop_last().skip(1));
        assert(reqs.skip(1).last() == reqs.last());
    }
}

/// The round trip: submit a job, let every sub-job complete, and the
/// fleet's free CPUs are back to the pre-submission sum.
pub proof fn lemma_round_trip(s: StoreV, info: JobInfoV, now: Seq<char>, msg: Seq<char>)
    requires
        store_inv(s),
        !has_collection(s.collections, info.guid),
        0 <= info.cpus,
        0 <= info.ram,
    ensures
        ({
            let reqs = assign(
                sort_desc(eligible_agents(s.agents, info.agent_type)),
                info.cpus,
                info.ram,
                0,
                info,
            );
            sum_free_cpus(complete_all(schedule_ok_spec(s, info, now), reqs, info.guid, msg).agents)
                == sum_free_cpus(s.agents)
        }),
{
    let t = info.agent_type;
    let ev = eligible_agents(s.agents, t);
    lemma_eligible_wf(s.agents, t);
    lemma_sort_desc_wf(ev);
    let sv = sort_desc(ev);
    assert forall|k: int|
        0 <= k < sv.len() implies 0 <= (#[trigger] sv[k]).free_cpus && 0 <= sv[k].free_ram by {
        let j2 = choose|j2: int| 0 <= j2 < ev.len() && ev[j2] == sv[k];
        let j3 = choose|j3: int| 0 <= j3 < s.agents.len() && s.agents[j3] == ev[j2];
        assert(crate::store::agent_bounded(s.agents[j3]));
    }
    lemma_assign_props(sv, info.cpus, info.ram, 0, info);
    let reqs = assign(sv, info.cpus, info.ram, 0, info);
    assert(distinct_guids_of(reqs)) by {
        assert forall|p: int, q: int|
            0 <= p < q < reqs.len() implies (#[trigger] reqs[p]).agent_guid != (
        #[trigger] reqs[q]).agent_guid by {
            assert(sv[p].guid != sv[q].guid);
        }
    }
    assert forall|k: int|
        0 <= k < reqs.len() implies exists|i: int|
        0 <= i < s.agents.len() && (#[trigger] s.agents[i]).guid == (
        #[trigger] reqs[k]).agent_guid by {
        let j2 = choose|j2: int| 0 <= j2 < ev.len() && ev[j2] == sv[k];
        let j3 = choose|j3: int| 0 <= j3 < s.agents.len() && s.agents[j3] == ev[j2];
        assert(s.agents[j3].guid == reqs[k].agent_guid);
    }
    lemma_apply_requests_sum(s, reqs);
    let applied = apply_requests(s, reqs);
    let s1 = schedule_ok_spec(s, info, now);
    assert(s1.agents == applied.agents);
    assert(s1.jobs == applied.jobs);
    lemma_apply_requests_shape(s, reqs);
    let rows = reqs.map_values(|r: JobRequestV| job_of(r));

    // Each request's row sits in the appended block, first of its agent.
    let n0 = s.jobs.len() as int;
    assert forall|k: int|
        0 <= k < reqs.len() implies {
        let j = unfreed_job_index(s1.jobs, (#[trigger] reqs[k]).agent_guid, info.guid);
        &&& 0 <= j < s1.jobs.len()
        &&& s1.jobs[j].cpus == reqs[k].request.cpus
    } by {
        let ak = reqs[k].agent_guid;
        let pk = |j: JobV| j.agent_guid == ak && j.collection_guid == info.guid && !j.freed;
        assert forall|x: int| 0 <= x < n0 + k implies !pk(#[trigger] s1.jobs[x]) by {
            if x < n0 {
                assert(s1.jobs[x] == s.jobs[x]);
                if s.jobs[x].collection_guid == info.guid {
                    assert(crate::store::has_collection(
                        s.collections,
                        s.jobs[x].collection_guid,
                    ));
                }
            } else {
                assert(s1.jobs[x] == rows[x - n0]);
                assert(rows[x - n0] == job_of(reqs[x - n0]));
                assert(reqs[x - n0].agent_guid == sv[x - n0].guid);
                assert(sv[x - n0].guid != sv[k].guid);
            }
        }
        assert(s1.jobs[n0 + k] == rows[k]);
        assert(pk(s1.jobs[n0 + k]));
        lemma_first_where_is(s1.jobs, pk, n0 + k);
    }
    assert forall|p: int, q: int|
        0 <= p < q < s1.agents.len() implies (#[trigger] s1.agents[p]).guid != (
    #[trigger] s1.agents[q]).guid by {
        assert(s1.agents[p].guid == s.agents[p].guid);
        assert(s1.agents[q].guid == s.agents[q].guid);
    }
    assert forall|k: int|
        0 <= k < reqs.len() implies exists|i: int|
        0 <= i < s1.agents.len() && (#[trigger] s1.agents[i]).guid == (
        #[trigger] reqs[k]).agent_guid by {
        let i = choose|i: int|
            0 <= i < s.agents.len() && (#[trigger] s.agents[i]).guid == reqs[k].agent_guid;
        assert(s1.agents[i].guid == reqs[k].agent_guid);
    }
    lemma_complete_all_sum(s1, reqs, info.guid, msg);
}

} // verus!
