//! The bin-packing scheduler: split a submitted job across eligible agents
//! by free CPUs, in one store transaction.
//!
//! Eligible agents are taken in descending order of free CPUs; each in
//! turn receives the smaller of the remaining need and what it has free,
//! until both the CPU and the RAM need are covered.  The submission fails,
//! with nothing written, when the eligible agents' free CPUs together
//! cannot cover the CPU need.  A RAM shortfall does not fail the
//! submission: the RAM share is truncated to what the chosen agents have
//! free.

use vstd::prelude::*;

use crate::model::Agent;
use crate::model::AgentV;
use crate::model::JobCollectionV;
use crate::model::JobInfoV;
use crate::model::JobRequestV;
use crate::model::JobV;
use crate::status::AgentStatus;
use crate::status::JobStatus;
use crate::store::StoreV;

verus! {

/// Agents a submission for `agent_type` may be placed on: connected, of
/// the right type, and with something left to give.
pub open spec fn eligible(a: AgentV, agent_type: Seq<char>) -> bool {
    &&& a.status == AgentStatus::Up
    &&& a.agent_type == agent_type
    &&& a.free_cpus > 0
    &&& a.free_ram > 0
}

/// The eligible agents, in store order.
pub open spec fn eligible_agents(agents: Seq<AgentV>, agent_type: Seq<char>) -> Seq<AgentV>
    decreases agents.len(),
{
    if agents.len() == 0 {
        Seq::empty()
    } else {
        let rest = eligible_agents(agents.drop_last(), agent_type);
        if eligible(agents.last(), agent_type) {
            rest.push(agents.last())
        } else {
            rest
        }
    }
}

/// Stable insertion into a sequence sorted by descending free CPUs: the
/// new agent goes after every agent with at least as many free CPUs.
pub open spec fn insert_desc(s: Seq<AgentV>, a: AgentV) -> Seq<AgentV>
    decreases s.len(),
{
    if s.len() == 0 {
        seq![a]
    } else if s[0].free_cpus >= a.free_cpus {
        seq![s[0]] + insert_desc(s.skip(1), a)
    } else {
        seq![a] + s
    }
}

/// Stable sort by descending free CPUs: agents with equal free CPUs keep
/// their relative order.
pub open spec fn sort_desc(s: Seq<AgentV>) -> Seq<AgentV>
    decreases s.len(),
{
    if s.len() == 0 {
        Seq::empty()
    } else {
        insert_desc(sort_desc(s.drop_last()), s.last())
    }
}

/// Free CPUs of a set of agents, summed.
pub open spec fn sum_free_cpus(s: Seq<AgentV>) -> int
    decreases s.len(),
{
    if s.len() == 0 {
        0
    } else {
        sum_free_cpus(s.drop_last()) + s.last().free_cpus
    }
}

pub open spec fn min_int(a: int, b: int) -> int {
    if a <= b {
        a
    } else {
        b
    }
}

/// The payload handed to the `idx`-th chosen agent.
pub open spec fn request_of(
    info: JobInfoV,
    agent: Seq<char>,
    idx: int,
    take_cpus: int,
    take_ram: int,
) -> JobRequestV {
    JobRequestV {
        agent_guid: agent,
        request: crate::model::JobCreateRequestV {
            job_guid: info.guid,
            image: info.image,
            idx: idx,
            cpus: take_cpus,
            ram: take_ram,
            timeout: info.timeout,
            target: info.target,
            corpus: info.corpus,
            last_msg: Seq::empty(),
            status: JobStatus::Init,
            crash_auto_analyze: info.crash_auto_analyze,
        },
    }
}

/// The assignment walk: give each agent in order the smaller of the
/// remaining need and its free share, and stop once both needs are met.
pub open spec fn assign(
    elig: Seq<AgentV>,
    need_cpus: int,
    need_ram: int,
    idx: int,
    info: JobInfoV,
) -> Seq<JobRequestV>
    decreases elig.len(),
{
    if elig.len() == 0 || (need_cpus <= 0 && need_ram <= 0) {
        Seq::empty()
    } else {
        let tc = min_int(need_cpus, elig[0].free_cpus);
        let tr = min_int(need_ram, elig[0].free_ram);
        seq![request_of(info, elig[0].guid, idx, tc, tr)] + assign(
            elig.skip(1),
            need_cpus - tc,
            need_ram - tr,
            idx + 1,
            info,
        )
    }
}

/// The sub-job row a scheduled request inserts.
pub open spec fn job_of(r: JobRequestV) -> JobV {
    JobV {
        agent_guid: r.agent_guid,
        collection_guid: r.request.job_guid,
        idx: r.request.idx,
        cpus: r.request.cpus,
        ram: r.request.ram,
        last_msg: Seq::empty(),
        status: JobStatus::Init,
        freed: false,
    }
}

/// The collection row a submission inserts.
pub open spec fn collection_of(info: JobInfoV, now: Seq<char>) -> JobCollectionV {
    JobCollectionV {
        guid: info.guid,
        name: info.name,
        description: info.description,
        agent_type: info.agent_type,
        creation_date: now,
        cpus: info.cpus,
        ram: info.ram,
        timeout: info.timeout,
        target: info.target,
        corpus: info.corpus,
        status: JobStatus::Init,
    }
}

/// Subtract a request's share from the agent that carries its guid.
pub open spec fn debit_agents(
    agents: Seq<AgentV>,
    guid: Seq<char>,
    take_cpus: int,
    take_ram: int,
) -> Seq<AgentV> {
    Seq::new(
        agents.len(),
        |i: int|
            if agents[i].guid == guid {
                AgentV {
                    free_cpus: agents[i].free_cpus - take_cpus,
                    free_ram: agents[i].free_ram - take_ram,
                    ..agents[i]
                }
            } else {
                agents[i]
            },
    )
}

/// Apply one scheduled request: debit its agent and append its row.
pub open spec fn apply_one(s: StoreV, r: JobRequestV) -> StoreV {
    StoreV {
        agents: debit_agents(s.agents, r.agent_guid, r.request.cpus, r.request.ram),
        jobs: s.jobs.push(job_of(r)),
        ..s
    }
}

/// Apply a sequence of scheduled requests in order.
pub open spec fn apply_requests(s: StoreV, reqs: Seq<JobRequestV>) -> StoreV
    decreases reqs.len(),
{
    if reqs.len() == 0 {
        s
    } else {
        apply_requests(apply_one(s, reqs[0]), reqs.skip(1))
    }
}

/// The whole successful submission: the assignment over the eligible
/// agents sorted by descending free CPUs, applied to the store, plus the
/// new collection row.
pub open spec fn schedule_ok_spec(s: StoreV, info: JobInfoV, now: Seq<char>) -> StoreV {
    let reqs = assign(
        sort_desc(eligible_agents(s.agents, info.agent_type)),
        info.cpus,
        info.ram,
        0,
        info,
    );
    let s2 = apply_requests(s, reqs);
    StoreV { collections: s2.collections.push(collection_of(info, now)), ..s2 }
}

/// A request's share of the CPUs debited from the agent with this guid.
pub open spec fn req_cpus_for(reqs: Seq<JobRequestV>, guid: Seq<char>) -> int
    decreases reqs.len(),
{
    if reqs.len() == 0 {
        0
    } else {
        req_cpus_for(reqs.drop_last(), guid) + if reqs.last().agent_guid == guid {
            reqs.last().request.cpus
        } else {
            0
        }
    }
}

pub open spec fn req_ram_for(reqs: Seq<JobRequestV>, guid: Seq<char>) -> int
    decreases reqs.len(),
{
    if reqs.len() == 0 {
        0
    } else {
        req_ram_for(reqs.drop_last(), guid) + if reqs.last().agent_guid == guid {
            reqs.last().request.ram
        } else {
            0
        }
    }
}

pub open spec fn has_guid(s: Seq<AgentV>, g: Seq<char>) -> bool {
    exists|k: int| 0 <= k < s.len() && (#[trigger] s[k]).guid == g
}

// ---------------------------------------------------------------------------
// Lemmas.
// ---------------------------------------------------------------------------

/// Appending one request extends `apply_requests` by one application.
pub proof fn lemma_apply_push(s: StoreV, reqs: Seq<JobRequestV>, x: JobRequestV)
    ensures
        apply_requests(s, reqs.push(x)) == apply_one(apply_requests(s, reqs), x),
    decreases reqs.len(),
{
    let p = reqs.push(x);
    if reqs.len() == 0 {
        assert(p.len() == 1 && p[0] == x);
        assert(p.skip(1) =~= Seq::<JobRequestV>::empty());
        assert(apply_requests(s, p) == apply_requests(apply_one(s, x), p.skip(1)));
        assert(apply_requests(apply_one(s, x), p.skip(1)) == apply_one(s, x));
    } else {
        assert(p[0] == reqs[0]);
        assert(p.skip(1) =~= reqs.skip(1).push(x));
        assert(apply_requests(s, p) == apply_requests(apply_one(s, p[0]), p.skip(1)));
        lemma_apply_push(apply_one(s, reqs[0]), reqs.skip(1), x);
        assert(apply_requests(s, reqs) == apply_requests(apply_one(s, reqs[0]), reqs.skip(1)));
    }
}

/// What a run of `apply_requests` does, agent by agent and row by row.
pub proof fn lemma_apply_requests_shape(s: StoreV, reqs: Seq<JobRequestV>)
    ensures
        apply_requests(s, reqs).collections == s.collections,
        apply_requests(s, reqs).crashes == s.crashes,
        apply_requests(s, reqs).jobs =~= s.jobs + reqs.map_values(|r: JobRequestV| job_of(r)),
        apply_requests(s, reqs).agents.len() == s.agents.len(),
        forall|i: int|
            0 <= i < s.agents.len() ==> apply_requests(s, reqs).agents[i] == (AgentV {
                free_cpus: s.agents[i].free_cpus - req_cpus_for(reqs, s.agents[i].guid),
                free_ram: s.agents[i].free_ram - req_ram_for(reqs, s.agents[i].guid),
                ..(#[trigger] s.agents[i])
            }),
    decreases reqs.len(),
{
    if reqs.len() == 0 {
        assert(apply_requests(s, reqs).jobs =~= s.jobs + reqs.map_values(
            |r: JobRequestV| job_of(r),
        ));
        assert forall|i: int|
            0 <= i < s.agents.len() implies apply_requests(s, reqs).agents[i] == (AgentV {
            free_cpus: s.agents[i].free_cpus - req_cpus_for(reqs, s.agents[i].guid),
            free_ram: s.agents[i].free_ram - req_ram_for(reqs, s.agents[i].guid),
            ..(#[trigger] s.agents[i])
        }) by {
            assert(s.agents[i] =~= (AgentV {
                free_cpus: s.agents[i].free_cpus - 0,
                free_ram: s.agents[i].free_ram - 0,
                ..s.agents[i]
            }));
        }
    } else {
        let front = reqs.drop_last();
        let x = reqs.last();
        assert(reqs =~= front.push(x));
        lemma_apply_push(s, front, x);
        lemma_apply_requests_shape(s, front);
        let mid = apply_requests(s, front);
        let fin = apply_one(mid, x);
        assert(apply_requests(s, reqs) == fin);
        assert(fin.jobs =~= s.jobs + reqs.map_values(|r: JobRequestV| job_of(r))) by {
            assert(mid.jobs =~= s.jobs + front.map_values(|r: JobRequestV| job_of(r)));
            assert(fin.jobs =~= mid.jobs.push(job_of(x)));
        }
        assert forall|i: int|
            0 <= i < s.agents.len() implies fin.agents[i] == (AgentV {
            free_cpus: s.agents[i].free_cpus - req_cpus_for(reqs, s.agents[i].guid),
            free_ram: s.agents[i].free_ram - req_ram_for(reqs, s.agents[i].guid),
            ..(#[trigger] s.agents[i])
        }) by {
            let g = s.agents[i].guid;
            assert(req_cpus_for(reqs, g) == req_cpus_for(front, g) + if x.agent_guid == g {
                x.request.cpus
            } else {
                0int
            });
            assert(fin.agents[i] == (if mid.agents[i].guid == x.agent_guid {
                AgentV {
                    free_cpus: mid.agents[i].free_cpus - x.request.cpus,
                    free_ram: mid.agents[i].free_ram - x.request.ram,
                    ..mid.agents[i]
                }
            } else {
                mid.agents[i]
            }));
        }
    }
}

/// No request addresses this guid, so nothing is debited from it.
pub proof fn lemma_req_sum_zero(reqs: Seq<JobRequestV>, g: Seq<char>)
    requires
        forall|k: int| 0 <= k < reqs.len() ==> (#[trigger] reqs[k]).agent_guid != g,
    ensures
        req_cpus_for(reqs, g) == 0,
        req_ram_for(reqs, g) == 0,
    decreases reqs.len(),
{
    if reqs.len() > 0 {
        lemma_req_sum_zero(reqs.drop_last(), g);
    }
}

/// With pairwise distinct guids, the debit for a guid is exactly its one
/// request's share.
pub proof fn lemma_req_sum_single(reqs: Seq<JobRequestV>, g: Seq<char>, k: int)
    requires
        0 <= k < reqs.len(),
        reqs[k].agent_guid == g,
        forall|p: int, q: int|
            0 <= p < q < reqs.len() ==> (#[trigger] reqs[p]).agent_guid != (
            #[trigger] reqs[q]).agent_guid,
    ensures
        req_cpus_for(reqs, g) == reqs[k].request.cpus,
        req_ram_for(reqs, g) == reqs[k].request.ram,
    decreases reqs.len(),
{
    if k == reqs.len() - 1 {
        assert forall|p: int|
            0 <= p < reqs.drop_last().len() implies (#[trigger] reqs.drop_last()[p]).agent_guid
            != g by {
            assert(reqs[p].agent_guid != reqs[k].agent_guid);
        }
        lemma_req_sum_zero(reqs.drop_last(), g);
    } else {
        lemma_req_sum_single(reqs.drop_last(), g, k);
        assert(reqs.last().agent_guid != g) by {
            assert(reqs[k].agent_guid != reqs[reqs.len() - 1].agent_guid);
        }
    }
}

/// What rows an assignment appends add to an agent's outstanding sums.
pub proof fn lemma_unfreed_append_rows(jobs: Seq<JobV>, reqs: Seq<JobRequestV>, g: Seq<char>)
    ensures
        crate::store::unfreed_cpus(jobs + reqs.map_values(|r: JobRequestV| job_of(r)), g)
            == crate::store::unfreed_cpus(jobs, g) + req_cpus_for(reqs, g),
        crate::store::unfreed_ram(jobs + reqs.map_values(|r: JobRequestV| job_of(r)), g)
            == crate::store::unfreed_ram(jobs, g) + req_ram_for(reqs, g),
    decreases reqs.len(),
{
    if reqs.len() == 0 {
        assert(jobs + reqs.map_values(|r: JobRequestV| job_of(r)) =~= jobs);
    } else {
        let front = reqs.drop_last();
        lemma_unfreed_append_rows(jobs, front, g);
        let whole = jobs + reqs.map_values(|r: JobRequestV| job_of(r));
        assert(whole.drop_last() =~= jobs + front.map_values(|r: JobRequestV| job_of(r)));
        assert(whole.last() == job_of(reqs.last()));
    }
}

/// What rows an assignment appends add to a collection's status counts.
pub proof fn lemma_count_append_rows(
    jobs: Seq<JobV>,
    reqs: Seq<JobRequestV>,
    coll: Seq<char>,
    st: JobStatus,
)
    requires
        forall|k: int| 0 <= k < reqs.len() ==> (#[trigger] reqs[k]).request.job_guid == coll,
    ensures
        crate::store::count_with_status(
            jobs + reqs.map_values(|r: JobRequestV| job_of(r)),
            coll,
            st,
        ) == crate::store::count_with_status(jobs, coll, st) + (
        if st == JobStatus::Init {
            reqs.len() as int
        } else {
            0int
        }),
        crate::store::count_jobs_of(jobs + reqs.map_values(|r: JobRequestV| job_of(r)), coll)
            == crate::store::count_jobs_of(jobs, coll) + reqs.len(),
    decreases reqs.len(),
{
    if reqs.len() == 0 {
        assert(jobs + reqs.map_values(|r: JobRequestV| job_of(r)) =~= jobs);
    } else {
        let front = reqs.drop_last();
        lemma_count_append_rows(jobs, front, coll, st);
        let whole = jobs + reqs.map_values(|r: JobRequestV| job_of(r));
        assert(whole.drop_last() =~= jobs + front.map_values(|r: JobRequestV| job_of(r)));
        assert(whole.last() == job_of(reqs.last()));
    }
}

/// Appended rows of a fresh collection leave another collection's counts
/// alone.
pub proof fn lemma_count_append_other(
    jobs: Seq<JobV>,
    reqs: Seq<JobRequestV>,
    coll: Seq<char>,
    c2: Seq<char>,
    st: JobStatus,
)
    requires
        c2 != coll,
        forall|k: int| 0 <= k < reqs.len() ==> (#[trigger] reqs[k]).request.job_guid == coll,
    ensures
        crate::store::count_with_status(jobs + reqs.map_values(|r: JobRequestV| job_of(r)), c2, st)
            == crate::store::count_with_status(jobs, c2, st),
        crate::store::count_jobs_of(jobs + reqs.map_values(|r: JobRequestV| job_of(r)), c2)
            == crate::store::count_jobs_of(jobs, c2),
    decreases reqs.len(),
{
    if reqs.len() == 0 {
        assert(jobs + reqs.map_values(|r: JobRequestV| job_of(r)) =~= jobs);
    } else {
        let front = reqs.drop_last();
        lemma_count_append_other(jobs, front, coll, c2, st);
        let whole = jobs + reqs.map_values(|r: JobRequestV| job_of(r));
        assert(whole.drop_last() =~= jobs + front.map_values(|r: JobRequestV| job_of(r)));
        assert(whole.last() == job_of(reqs.last()));
    }
}

pub open spec fn distinct_guids(s: Seq<AgentV>) -> bool {
    forall|p: int, q: int| 0 <= p < q < s.len() ==> (#[trigger] s[p]).guid != (#[trigger] s[q]).guid
}

/// Inserting into a sorted run keeps every property the scheduler needs:
/// the elements are the old ones plus the new agent, guid for guid, and
/// guids stay pairwise distinct.
pub proof fn lemma_insert_keeps(s: Seq<AgentV>, a: AgentV)
    requires
        distinct_guids(s),
        !has_guid(s, a.guid),
    ensures
        distinct_guids(insert_desc(s, a)),
        insert_desc(s, a).len() == s.len() + 1,
        forall|k: int|
            0 <= k < insert_desc(s, a).len() ==> (#[trigger] insert_desc(s, a)[k]) == a || exists|
                j: int,
            | 0 <= j < s.len() && s[j] == insert_desc(s, a)[k],
        forall|g: Seq<char>|
            #![trigger has_guid(insert_desc(s, a), g)]
            #![trigger has_guid(s, g)]
            has_guid(insert_desc(s, a), g) <==> (a.guid == g || has_guid(s, g)),
    decreases s.len(),
{
    let out = insert_desc(s, a);
    if s.len() == 0 {
        assert(out[0] == a);
        assert forall|g: Seq<char>|
            #![trigger has_guid(insert_desc(s, a), g)]
            #![trigger has_guid(s, g)]
            has_guid(out, g) <==> (a.guid == g || has_guid(s, g)) by {
            if a.guid == g {
                assert(out[0].guid == g);
            }
            if has_guid(out, g) {
                let k = choose|k: int| 0 <= k < out.len() && (#[trigger] out[k]).guid == g;
                assert(out[k] == a);
            }
        }
    } else if s[0].free_cpus >= a.free_cpus {
        assert forall|p: int, q: int|
            0 <= p < q < s.skip(1).len() implies (#[trigger] s.skip(1)[p]).guid != (
        #[trigger] s.skip(1)[q]).guid by {
            assert(s.skip(1)[p] == s[p + 1] && s.skip(1)[q] == s[q + 1]);
        }
        assert(!has_guid(s.skip(1), a.guid)) by {
            if has_guid(s.skip(1), a.guid) {
                let j = choose|j: int|
                    0 <= j < s.skip(1).len() && (#[trigger] s.skip(1)[j]).guid == a.guid;
                assert(s[j + 1].guid == a.guid);
            }
        }
        lemma_insert_keeps(s.skip(1), a);
        let rec = insert_desc(s.skip(1), a);
        assert(out =~= seq![s[0]] + rec);
        assert forall|p: int, q: int|
            0 <= p < q < out.len() implies (#[trigger] out[p]).guid != (#[trigger] out[q]).guid by {
            if p == 0 {
                assert(out[q] == rec[q - 1]);
                if out[q].guid == s[0].guid {
                    assert(has_guid(rec, s[0].guid));
                    if a.guid == s[0].guid {
                        assert(has_guid(s, a.guid));
                    } else {
                        assert(has_guid(s.skip(1), s[0].guid));
                        let j = choose|j: int|
                            0 <= j < s.skip(1).len() && (#[trigger] s.skip(1)[j]).guid == s[0].guid;
                        assert(s[j + 1].guid == s[0].guid);
                    }
                    assert(false);
                }
            } else {
                assert(out[p] == rec[p - 1] && out[q] == rec[q - 1]);
            }
        }
        assert forall|k: int|
            0 <= k < out.len() implies (#[trigger] out[k]) == a || exists|j: int|
            0 <= j < s.len() && s[j] == out[k] by {
            if k == 0 {
                assert(s[0] == out[0]);
            } else {
                assert(out[k] == rec[k - 1]);
                if rec[k - 1] == a {
                } else {
                    let j = choose|j: int| 0 <= j < s.skip(1).len() && s.skip(1)[j] == rec[k - 1];
                    assert(s[j + 1] == out[k]);
                }
            }
        }
        assert forall|g: Seq<char>|
            #![trigger has_guid(insert_desc(s, a), g)]
            #![trigger has_guid(s, g)]
            has_guid(out, g) <==> (a.guid == g || has_guid(s, g)) by {
            if has_guid(out, g) {
                let k = choose|k: int| 0 <= k < out.len() && (#[trigger] out[k]).guid == g;
                if k == 0 {
                    assert(s[0].guid == g);
                } else {
                    assert(rec[k - 1].guid == g);
                    assert(has_guid(rec, g));
                    if !(a.guid == g) {
                        let j = choose|j: int|
                            0 <= j < s.skip(1).len() && (#[trigger] s.skip(1)[j]).guid == g;
                        assert(s[j + 1].guid == g);
                    }
                }
            }
            if a.guid == g {
                assert(has_guid(rec, g));
                let k = choose|k: int| 0 <= k < rec.len() && (#[trigger] rec[k]).guid == g;
                assert(out[k + 1].guid == g);
            }
            if has_guid(s, g) {
                let j = choose|j: int| 0 <= j < s.len() && (#[trigger] s[j]).guid == g;
                if j == 0 {
                    assert(out[0].guid == g);
                } else {
                    assert(s.skip(1)[j - 1].guid == g);
                    assert(has_guid(s.skip(1), g));
                    assert(has_guid(rec, g));
                    let k = choose|k: int| 0 <= k < rec.len() && (#[trigger] rec[k]).guid == g;
                    assert(out[k + 1].guid == g);
                }
            }
        }
    } else {
        assert(out =~= seq![a] + s);
        assert forall|k: int|
            0 <= k < out.len() implies (#[trigger] out[k]) == a || exists|j: int|
            0 <= j < s.len() && s[j] == out[k] by {
            if k > 0 {
                assert(s[k - 1] == out[k]);
            }
        }
        assert forall|p: int, q: int|
            0 <= p < q < out.len() implies (#[trigger] out[p]).guid != (#[trigger] out[q]).guid by {
            if p == 0 {
                assert(out[q] == s[q - 1]);
                if out[q].guid == a.guid {
                    assert(has_guid(s, a.guid));
                }
            } else {
                assert(out[p] == s[p - 1] && out[q] == s[q - 1]);
            }
        }
        assert forall|g: Seq<char>|
            #![trigger has_guid(insert_desc(s, a), g)]
            #![trigger has_guid(s, g)]
            has_guid(out, g) <==> (a.guid == g || has_guid(s, g)) by {
            if has_guid(out, g) {
                let k = choose|k: int| 0 <= k < out.len() && (#[trigger] out[k]).guid == g;
                if k > 0 {
                    assert(s[k - 1].guid == g);
                }
            }
            if a.guid == g {
                assert(out[0].guid == g);
            }
            if has_guid(s, g) {
                let j = choose|j: int| 0 <= j < s.len() && (#[trigger] s[j]).guid == g;
                assert(out[j + 1].guid == g);
            }
        }
    }
}

/// The eligible agents are agents of the store, guid for guid distinct,
/// and each of them eligible.
pub proof fn lemma_eligible_wf(agents: Seq<AgentV>, t: Seq<char>)
    requires
        forall|p: int, q: int|
            0 <= p < q < agents.len() ==> (#[trigger] agents[p]).guid != (
            #[trigger] agents[q]).guid,
    ensures
        distinct_guids(eligible_agents(agents, t)),
        forall|k: int|
            0 <= k < eligible_agents(agents, t).len() ==> eligible(
                #[trigger] eligible_agents(agents, t)[k],
                t,
            ),
        forall|k: int|
            0 <= k < eligible_agents(agents, t).len() ==> exists|j: int|
                0 <= j < agents.len() && agents[j] == #[trigger] eligible_agents(agents, t)[k],
    decreases agents.len(),
{
    let ev = eligible_agents(agents, t);
    if agents.len() > 0 {
        let front = agents.drop_last();
        lemma_eligible_wf(front, t);
        let evf = eligible_agents(front, t);
        assert forall|k: int|
            0 <= k < ev.len() implies eligible(#[trigger] ev[k], t) && exists|j: int|
            0 <= j < agents.len() && agents[j] == ev[k] by {
            if k < evf.len() {
                assert(ev[k] == evf[k]);
                let j = choose|j: int| 0 <= j < front.len() && front[j] == evf[k];
                assert(agents[j] == ev[k]);
            } else {
                assert(ev[k] == agents.last());
                assert(agents[agents.len() - 1] == ev[k]);
            }
        }
        assert forall|p: int, q: int|
            0 <= p < q < ev.len() implies (#[trigger] ev[p]).guid != (#[trigger] ev[q]).guid by {
            if q < evf.len() {
                assert(ev[p] == evf[p] && ev[q] == evf[q]);
            } else {
                assert(ev[q] == agents.last());
                assert(ev[p] == evf[p]);
                let j = choose|j: int| 0 <= j < front.len() && front[j] == evf[p];
                assert(agents[j] == ev[p]);
                assert(agents[j].guid != agents[agents.len() - 1].guid);
            }
        }
    }
}

/// Sorting keeps the scheduler's facts: same length, elements drawn from
/// the input, same guids, guids pairwise distinct.
pub proof fn lemma_sort_desc_wf(s: Seq<AgentV>)
    requires
        distinct_guids(s),
    ensures
        distinct_guids(sort_desc(s)),
        sort_desc(s).len() == s.len(),
        forall|k: int|
            0 <= k < sort_desc(s).len() ==> exists|j: int|
                0 <= j < s.len() && s[j] == #[trigger] sort_desc(s)[k],
        forall|g: Seq<char>|
            #![trigger has_guid(sort_desc(s), g)]
            #![trigger has_guid(s, g)]
            has_guid(sort_desc(s), g) <==> has_guid(s, g),
    decreases s.len(),
{
    if s.len() > 0 {
        let front = s.drop_last();
        let a = s.last();
        assert forall|p: int, q: int|
            0 <= p < q < front.len() implies (#[trigger] front[p]).guid != (
        #[trigger] front[q]).guid by {
            assert(front[p] == s[p] && front[q] == s[q]);
        }
        lemma_sort_desc_wf(front);
        let sf = sort_desc(front);
        assert(!has_guid(sf, a.guid)) by {
            if has_guid(sf, a.guid) {
                assert(has_guid(front, a.guid));
                let j = choose|j: int| 0 <= j < front.len() && (#[trigger] front[j]).guid == a.guid;
                assert(s[j].guid == s[s.len() - 1].guid);
            }
        }
        lemma_insert_keeps(sf, a);
        let out = sort_desc(s);
        assert(out == insert_desc(sf, a));
        assert forall|k: int|
            0 <= k < out.len() implies exists|j: int| 0 <= j < s.len() && s[j] == #[trigger] out[k] by {
            if out[k] == a {
                assert(s[s.len() - 1] == out[k]);
            } else {
                let j2 = choose|j2: int| 0 <= j2 < sf.len() && sf[j2] == out[k];
                let j3 = choose|j3: int| 0 <= j3 < front.len() && front[j3] == sf[j2];
                assert(s[j3] == out[k]);
            }
        }
        assert forall|g: Seq<char>|
            #![trigger has_guid(sort_desc(s), g)]
            #![trigger has_guid(s, g)]
            has_guid(out, g) <==> has_guid(s, g) by {
            assert(has_guid(out, g) <==> (a.guid == g || has_guid(sf, g)));
            assert(has_guid(sf, g) <==> has_guid(front, g));
            if a.guid == g {
                assert(s[s.len() - 1].guid == g);
            }
            if has_guid(front, g) {
                let j = choose|j: int| 0 <= j < front.len() && (#[trigger] front[j]).guid == g;
                assert(s[j].guid == g);
            }
            if has_guid(s, g) && a.guid != g {
                let j = choose|j: int| 0 <= j < s.len() && (#[trigger] s[j]).guid == g;
                assert(front[j].guid == g);
            }
        }
    }
}

/// A collection nothing points at counts no rows.
pub proof fn lemma_count_zero_when_absent(jobs: Seq<JobV>, coll: Seq<char>, st: JobStatus)
    requires
        forall|k: int| 0 <= k < jobs.len() ==> (#[trigger] jobs[k]).collection_guid != coll,
    ensures
        crate::store::count_with_status(jobs, coll, st) == 0,
        crate::store::count_jobs_of(jobs, coll) == 0,
    decreases jobs.len(),
{
    if jobs.len() > 0 {
        lemma_count_zero_when_absent(jobs.drop_last(), coll, st);
    }
}

/// Where the scan of the run stops, the stable insertion puts the agent.
pub proof fn lemma_insert_desc_at(s: Seq<AgentV>, a: AgentV, j: int)
    requires
        0 <= j <= s.len(),
        forall|x: int| 0 <= x < j ==> (#[trigger] s[x]).free_cpus >= a.free_cpus,
        j < s.len() ==> s[j].free_cpus < a.free_cpus,
    ensures
        insert_desc(s, a) == s.take(j) + seq![a] + s.skip(j),
    decreases s.len(),
{
    if s.len() == 0 {
        assert(insert_desc(s, a) =~= s.take(0) + seq![a] + s.skip(0));
    } else if j == 0 {
        assert(insert_desc(s, a) =~= s.take(0) + seq![a] + s.skip(0));
    } else {
        assert(s[0].free_cpus >= a.free_cpus);
        assert forall|x: int|
            0 <= x < j - 1 implies (#[trigger] s.skip(1)[x]).free_cpus >= a.free_cpus by {
            assert(s.skip(1)[x] == s[x + 1]);
        }
        if j - 1 < s.skip(1).len() {
            assert(s.skip(1)[j - 1] == s[j]);
        }
        lemma_insert_desc_at(s.skip(1), a, j - 1);
        assert(insert_desc(s, a) =~= s.take(j) + seq![a] + s.skip(j)) by {
            assert(insert_desc(s, a) == seq![s[0]] + (s.skip(1).take(j - 1) + seq![a] + s.skip(
                1,
            ).skip(j - 1)));
            assert(s.skip(1).take(j - 1) =~= s.take(j).skip(1));
            assert(s.skip(1).skip(j - 1) =~= s.skip(j));
        }
    }
}

/// A successful submission keeps the store invariant and the consistency
/// of collection statuses.
pub proof fn lemma_schedule_result_inv(
    prev: StoreV,
    infov: JobInfoV,
    now: Seq<char>,
    reqsv: Seq<JobRequestV>,
    sortedv: Seq<AgentV>,
)
    requires
        crate::store::store_inv(prev),
        !crate::store::has_collection(prev.collections, infov.guid),
        reqsv == assign(sortedv, infov.cpus, infov.ram, 0, infov),
        sortedv == sort_desc(eligible_agents(prev.agents, infov.agent_type)),
        distinct_guids(sortedv),
        0 <= infov.cpus <= u64::MAX,
        0 <= infov.ram <= u64::MAX,
        reqsv.len() <= u64::MAX,
        reqsv.len() <= sortedv.len(),
        forall|k: int|
            0 <= k < reqsv.len() ==> {
                let rv = #[trigger] reqsv[k];
                &&& rv.agent_guid == sortedv[k].guid
                &&& rv.request.job_guid == infov.guid
                &&& rv.request.idx == k
                &&& 0 <= rv.request.cpus <= sortedv[k].free_cpus
                &&& 0 <= rv.request.ram <= sortedv[k].free_ram
            },
        forall|k: int|
            0 <= k < sortedv.len() ==> exists|j: int|
                0 <= j < prev.agents.len() && prev.agents[j] == #[trigger] sortedv[k],
        forall|k: int|
            0 <= k < sortedv.len() ==> eligible(#[trigger] sortedv[k], infov.agent_type),
    ensures
        crate::store::store_inv(schedule_ok_spec(prev, infov, now)),
        crate::store::statuses_consistent(prev) ==> crate::store::statuses_consistent(
            schedule_ok_spec(prev, infov, now),
        ),
{
    let fin = schedule_ok_spec(prev, infov, now);
    let applied = apply_requests(prev, reqsv);
    let rows = reqsv.map_values(|r: JobRequestV| job_of(r));
    lemma_apply_requests_shape(prev, reqsv);
    assert(fin.agents == applied.agents);
    assert(fin.jobs == applied.jobs);
    assert(fin.collections == applied.collections.push(collection_of(infov, now)));
    assert(fin.jobs =~= prev.jobs + rows);

    assert forall|p: int, q: int|
        0 <= p < q < reqsv.len() implies (#[trigger] reqsv[p]).agent_guid != (
    #[trigger] reqsv[q]).agent_guid by {
        assert(sortedv[p].guid != sortedv[q].guid);
    }

    // Old rows never carry the fresh collection guid.
    assert forall|x: int|
        0 <= x < prev.jobs.len() implies (#[trigger] prev.jobs[x]).collection_guid
        != infov.guid by {
        assert(crate::store::has_collection(prev.collections, prev.jobs[x].collection_guid));
        if prev.jobs[x].collection_guid == infov.guid {
            assert(crate::store::has_collection(prev.collections, infov.guid));
        }
    }

    // Agents: guids unchanged, counters debited by at most what was free.
    assert forall|i: int|
        0 <= i < fin.agents.len() implies {
        let a = #[trigger] fin.agents[i];
        &&& crate::store::agent_bounded(a)
        &&& a.guid == prev.agents[i].guid
        &&& a.free_cpus + crate::store::unfreed_cpus(fin.jobs, a.guid) == a.cpus
        &&& a.free_ram + crate::store::unfreed_ram(fin.jobs, a.guid) == a.ram
        &&& a.status == prev.agents[i].status
    } by {
        let g = prev.agents[i].guid;
        assert(crate::store::agent_bounded(prev.agents[i]));
        lemma_unfreed_append_rows(prev.jobs, reqsv, g);
        if exists|k: int| 0 <= k < reqsv.len() && (#[trigger] reqsv[k]).agent_guid == g {
            let k = choose|k: int| 0 <= k < reqsv.len() && (#[trigger] reqsv[k]).agent_guid == g;
            lemma_req_sum_single(reqsv, g, k);
            let j = choose|j: int| 0 <= j < prev.agents.len() && prev.agents[j] == sortedv[k];
            if j != i {
                assert(prev.agents[j].guid != prev.agents[i].guid);
            }
            assert(prev.agents[i] == sortedv[k]);
            assert(reqsv[k].request.cpus <= prev.agents[i].free_cpus);
            assert(reqsv[k].request.ram <= prev.agents[i].free_ram);
        } else {
            assert(forall|k: int|
                0 <= k < reqsv.len() ==> (#[trigger] reqsv[k]).agent_guid != g);
            lemma_req_sum_zero(reqsv, g);
        }
        assert(prev.agents[i].free_cpus + crate::store::unfreed_cpus(prev.jobs, g)
            == prev.agents[i].cpus);
    }

    // New rows are well formed and belong to the new collection.
    assert forall|x: int|
        0 <= x < rows.len() implies {
        let w = #[trigger] rows[x];
        &&& w == job_of(reqsv[x])
        &&& w.collection_guid == infov.guid
        &&& w.agent_guid == sortedv[x].guid
        &&& !w.freed
        &&& w.status == JobStatus::Init
        &&& crate::store::job_bounded(w)
    } by {
        let j = choose|j: int| 0 <= j < prev.agents.len() && prev.agents[j] == sortedv[x];
        assert(crate::store::agent_bounded(prev.agents[j]));
    }

    // Sub-job rows: pairwise unique, bounded, with existing collections.
    assert forall|p: int, q: int|
        0 <= p < q < fin.jobs.len() implies !((#[trigger] fin.jobs[p]).agent_guid == (
    #[trigger] fin.jobs[q]).agent_guid && fin.jobs[p].collection_guid
        == fin.jobs[q].collection_guid) by {
        let n0 = prev.jobs.len() as int;
        if q < n0 {
            assert(fin.jobs[p] == prev.jobs[p] && fin.jobs[q] == prev.jobs[q]);
        } else if p < n0 {
            assert(fin.jobs[p] == prev.jobs[p] && fin.jobs[q] == rows[q - n0]);
            assert(prev.jobs[p].collection_guid != infov.guid);
        } else {
            assert(fin.jobs[p] == rows[p - n0] && fin.jobs[q] == rows[q - n0]);
            assert(sortedv[p - n0].guid != sortedv[q - n0].guid);
        }
    }
    assert forall|x: int|
        0 <= x < fin.jobs.len() implies crate::store::job_bounded(#[trigger] fin.jobs[x])
            && crate::store::has_collection(fin.collections, fin.jobs[x].collection_guid) by {
        let n0 = prev.jobs.len() as int;
        if x < n0 {
            assert(fin.jobs[x] == prev.jobs[x]);
            assert(crate::store::has_collection(prev.collections, prev.jobs[x].collection_guid));
            let w = choose|w: int|
                0 <= w < prev.collections.len() && (#[trigger] prev.collections[w]).guid
                    == prev.jobs[x].collection_guid;
            assert(fin.collections[w].guid == fin.jobs[x].collection_guid);
        } else {
            assert(fin.jobs[x] == rows[x - n0]);
            assert(fin.collections[fin.collections.len() - 1].guid == infov.guid);
        }
    }

    // Collections: the fresh guid is new; bounds carry over.
    assert forall|p: int, q: int|
        0 <= p < q < fin.collections.len() implies (#[trigger] fin.collections[p]).guid != (
    #[trigger] fin.collections[q]).guid by {
        if q == fin.collections.len() - 1 {
            assert(fin.collections[p] == prev.collections[p]);
            if prev.collections[p].guid == infov.guid {
                assert(crate::store::has_collection(prev.collections, infov.guid));
            }
        } else {
            assert(fin.collections[p] == prev.collections[p] && fin.collections[q]
                == prev.collections[q]);
        }
    }

    // Agents still awaiting registration have no rows, old or new.
    assert forall|i: int|
        0 <= i < fin.agents.len() && (#[trigger] fin.agents[i]).status == AgentStatus::Init
        implies !crate::store::has_unfreed(fin.jobs, fin.agents[i].guid) by {
        let g = fin.agents[i].guid;
        assert(prev.agents[i].status == AgentStatus::Init);
        assert(!crate::store::has_unfreed(prev.jobs, g));
        assert forall|x: int|
            0 <= x < fin.jobs.len() implies !((#[trigger] fin.jobs[x]).agent_guid == g
            && !fin.jobs[x].freed) by {
            let n0 = prev.jobs.len() as int;
            if x < n0 {
                assert(fin.jobs[x] == prev.jobs[x]);
            } else {
                assert(fin.jobs[x] == rows[x - n0]);
                let k = x - n0;
                let j = choose|j: int| 0 <= j < prev.agents.len() && prev.agents[j] == sortedv[k];
                assert(prev.agents[j].status == AgentStatus::Up);
                if j == i {
                    assert(false);
                } else {
                    assert(prev.agents[j].guid != prev.agents[i].guid);
                }
            }
        }
    }

    assert(crate::store::store_inv(fin));

    // Statuses: the new collection rolls up to `init` when it has rows;
    // old collections keep their counts.
    if crate::store::statuses_consistent(prev) {
        assert forall|i: int|
            0 <= i < fin.collections.len() && crate::store::count_jobs_of(fin.jobs, (
        #[trigger] fin.collections[i]).guid) > 0 implies fin.collections[i].status
            == crate::store::roll_up(fin.jobs, fin.collections[i].guid) by {
            let g = fin.collections[i].guid;
            if i == fin.collections.len() - 1 {
                lemma_count_zero_when_absent(prev.jobs, infov.guid, JobStatus::Error);
                lemma_count_zero_when_absent(prev.jobs, infov.guid, JobStatus::Init);
                lemma_count_zero_when_absent(prev.jobs, infov.guid, JobStatus::Alive);
                lemma_count_append_rows(prev.jobs, reqsv, infov.guid, JobStatus::Error);
                lemma_count_append_rows(prev.jobs, reqsv, infov.guid, JobStatus::Init);
                lemma_count_append_rows(prev.jobs, reqsv, infov.guid, JobStatus::Alive);
                crate::store::lemma_count_nonneg(fin.jobs, infov.guid, JobStatus::Error);
                assert(crate::store::count_with_status(fin.jobs, infov.guid, JobStatus::Error)
                    == 0);
                if reqsv.len() > 0 {
                    assert(crate::store::count_with_status(fin.jobs, infov.guid, JobStatus::Init)
                        > 0);
                } else {
                    lemma_count_append_rows(prev.jobs, reqsv, infov.guid, JobStatus::Completed);
                    assert(crate::store::count_jobs_of(fin.jobs, infov.guid) == 0);
                }
            } else {
                assert(fin.collections[i] == prev.collections[i]);
                if prev.collections[i].guid == infov.guid {
                    assert(crate::store::has_collection(prev.collections, infov.guid));
                }
                lemma_count_append_other(prev.jobs, reqsv, infov.guid, g, JobStatus::Error);
                lemma_count_append_other(prev.jobs, reqsv, infov.guid, g, JobStatus::Init);
                lemma_count_append_other(prev.jobs, reqsv, infov.guid, g, JobStatus::Alive);
                lemma_count_append_other(prev.jobs, reqsv, infov.guid, g, JobStatus::Completed);
                assert(crate::store::count_jobs_of(prev.jobs, g) > 0);
            }
        }
    }
}

/// Why a submission was refused.
#[derive(Clone, Copy, Debug, PartialEq, Eq, Structural)]
pub enum ScheduleError {
    /// The eligible agents' free CPUs together cannot cover the need.
    InsufficientResources,
}

impl ScheduleError {
    /// The message shown to the submitter.
    pub fn message(&self) -> (s: String)
        ensures
            s@ == "insufficient amount of free cpus"@,
    {
        "insufficient amount of free cpus".to_owned()
    }
}

impl crate::store::Store {
    /// The eligible agent rows for this agent type, in store order.
    #[verifier::loop_isolation(false)]
    fn eligible_rows(&self, agent_type: &String) -> (r: Vec<Agent>)
        ensures
            crate::model::views_of(r@) == eligible_agents(self@.agents, agent_type@),
    {
        let mut elig: Vec<Agent> = Vec::new();
        let na = self.agents.len();
        for i in 0..na
            invariant
                na == self@.agents.len(),
                crate::model::views_of(elig@) == eligible_agents(
                    self@.agents.take(i as int),
                    agent_type@,
                ),
        {
            proof {
                assert(self@.agents.take(i + 1).drop_last() =~= self@.agents.take(i as int));
                assert(self@.agents.take(i + 1).last() == self@.agents[i as int]);
            }
            let ghost pre = crate::model::views_of(elig@);
            if self.agents[i].status == AgentStatus::Up && self.agents[i].agent_type == *agent_type
                && self.agents[i].free_cpus > 0 && self.agents[i].free_ram > 0 {
                let a = self.agents[i].duplicate();
                assert(a@ == self@.agents[i as int]);
                elig.push(a);
                proof {
                    assert(crate::model::views_of(elig@) =~= pre.push(self@.agents[i as int]));
                }
            } else {
                proof {
                    assert(!eligible(self@.agents[i as int], agent_type@));
                    assert(crate::model::views_of(elig@) =~= pre);
                }
            }
        }
        proof {
            assert(self@.agents.take(na as int) =~= self@.agents);
        }
        elig
    }

    /// Free CPUs of these agents, summed, saturating at the machine bound.
    #[verifier::loop_isolation(false)]
    fn saturating_free_cpus(elig: &Vec<Agent>) -> (total: u64)
        ensures
            total as int == min_int(
                sum_free_cpus(crate::model::views_of(elig@)),
                u64::MAX as int,
            ),
    {
        let ghost eligv = crate::model::views_of(elig@);
        let mut total: u64 = 0;
        let ne = elig.len();
        for j in 0..ne
            invariant
                ne == elig@.len(),
                total as int == min_int(sum_free_cpus(eligv.take(j as int)), u64::MAX as int),
        {
            proof {
                assert(eligv.take(j + 1).drop_last() =~= eligv.take(j as int));
                assert(eligv.take(j + 1).last() == eligv[j as int]);
            }
            let f = elig[j].free_cpus;
            assert(f as int == eligv[j as int].free_cpus);
            if total > u64::MAX - f {
                total = u64::MAX;
            } else {
                total = total + f;
            }
        }
        proof {
            assert(eligv.take(ne as int) =~= eligv);
        }
        total
    }

    /// Stable insertion sort by descending free CPUs.
    #[verifier::loop_isolation(false)]
    fn sort_by_free_desc(elig: &Vec<Agent>) -> (r: Vec<Agent>)
        requires
            distinct_guids(crate::model::views_of(elig@)),
        ensures
            crate::model::views_of(r@) == sort_desc(crate::model::views_of(elig@)),
    {
        let ghost eligv = crate::model::views_of(elig@);
        let mut sorted: Vec<Agent> = Vec::new();
        let ne = elig.len();
        for i in 0..ne
            invariant
                ne == elig@.len(),
                crate::model::views_of(sorted@) == sort_desc(eligv.take(i as int)),
        {
            let a = elig[i].duplicate();
            assert(a@ == eligv[i as int]);
            let sl = sorted.len();
            let mut pos: usize = 0;
            while pos < sl && sorted[pos].free_cpus >= a.free_cpus
                invariant
                    pos <= sl,
                    sl == sorted@.len(),
                    forall|x: int|
                        0 <= x < pos ==> ((#[trigger] sorted@[x])@).free_cpus >= a@.free_cpus,
                decreases sl - pos,
            {
                pos = pos + 1;
            }
            let ghost run = crate::model::views_of(sorted@);
            proof {
                assert forall|p: int, q: int|
                    0 <= p < q < eligv.take(i as int).len() implies (#[trigger] eligv.take(
                    i as int,
                )[p]).guid != (#[trigger] eligv.take(i as int)[q]).guid by {
                    assert(eligv.take(i as int)[p] == eligv[p]);
                    assert(eligv.take(i as int)[q] == eligv[q]);
                }
                lemma_sort_desc_wf(eligv.take(i as int));
                assert(!has_guid(run, a@.guid)) by {
                    if has_guid(run, a@.guid) {
                        assert(has_guid(eligv.take(i as int), a@.guid));
                        let j = choose|j: int|
                            0 <= j < eligv.take(i as int).len() && (#[trigger] eligv.take(
                                i as int,
                            )[j]).guid == a@.guid;
                        assert(eligv[j].guid == eligv[i as int].guid);
                    }
                };
                assert(pos < run.len() ==> run[pos as int].free_cpus < a@.free_cpus) by {
                    if pos < sl {
                        assert(((sorted@[pos as int])@).free_cpus < a@.free_cpus);
                    }
                };
                assert forall|x: int|
                    0 <= x < pos implies (#[trigger] run[x]).free_cpus >= a@.free_cpus by {
                    assert(run[x] == (sorted@[x])@);
                }
                lemma_insert_desc_at(run, a@, pos as int);
            }
            sorted.insert(pos, a);
            proof {
                assert(crate::model::views_of(sorted@) =~= run.take(pos as int) + seq![
                    eligv[i as int],
                ] + run.skip(pos as int));
                assert(crate::model::views_of(sorted@) == insert_desc(run, eligv[i as int]));
                assert(eligv.take(i + 1).drop_last() =~= eligv.take(i as int));
                assert(eligv.take(i + 1).last() == eligv[i as int]);
                assert(sort_desc(eligv.take(i + 1)) == insert_desc(
                    sort_desc(eligv.take(i as int)),
                    eligv[i as int],
                ));
            }
        }
        proof {
            assert(eligv.take(ne as int) =~= eligv);
        }
        sorted
    }

    /// The assignment walk over the sorted agents.
    #[verifier::loop_isolation(false)]
    fn build_plan(sorted: &Vec<Agent>, job_info: &crate::model::JobInfo) -> (reqs: Vec<
        crate::model::JobRequest,
    >)
        ensures
            crate::model::views_of(reqs@) == assign(
                crate::model::views_of(sorted@),
                job_info.cpus as int,
                job_info.ram as int,
                0,
                job_info@,
            ),
            reqs@.len() <= sorted@.len(),
            forall|k: int|
                0 <= k < reqs@.len() ==> {
                    let rv = (#[trigger] reqs@[k])@;
                    &&& rv.agent_guid == (sorted@[k])@.guid
                    &&& rv.request.job_guid == job_info.guid@
                    &&& rv.request.idx == k
                    &&& 0 <= rv.request.cpus <= (sorted@[k])@.free_cpus
                    &&& 0 <= rv.request.ram <= (sorted@[k])@.free_ram
                },
    {
        let ghost sortedv = crate::model::views_of(sorted@);
        let ghost infov = job_info@;
        let ghost c0 = job_info.cpus as int;
        let ghost r0 = job_info.ram as int;
        let mut reqs: Vec<crate::model::JobRequest> = Vec::new();
        let mut rest_c: u64 = job_info.cpus;
        let mut rest_r: u64 = job_info.ram;
        let mut i: usize = 0;
        let ns = sorted.len();
        proof {
            assert(sortedv.skip(0) =~= sortedv);
            assert(crate::model::views_of(reqs@) + assign(sortedv, c0, r0, 0, infov) =~= assign(
                sortedv,
                c0,
                r0,
                0,
                infov,
            ));
        }
        while i < ns && (rest_c > 0 || rest_r > 0)
            invariant
                ns == sorted@.len(),
                i <= ns,
                reqs@.len() == i,
                rest_c <= job_info.cpus,
                rest_r <= job_info.ram,
                assign(sortedv, c0, r0, 0, infov) =~= crate::model::views_of(reqs@) + assign(
                    sortedv.skip(i as int),
                    rest_c as int,
                    rest_r as int,
                    i as int,
                    infov,
                ),
                forall|k: int|
                    0 <= k < i ==> {
                        let rv = (#[trigger] reqs@[k])@;
                        &&& rv.agent_guid == sortedv[k].guid
                        &&& rv.request.job_guid == infov.guid
                        &&& rv.request.idx == k
                        &&& 0 <= rv.request.cpus <= sortedv[k].free_cpus
                        &&& 0 <= rv.request.ram <= sortedv[k].free_ram
                    },
            decreases ns - i,
        {
            let tc = if rest_c < sorted[i].free_cpus {
                rest_c
            } else {
                sorted[i].free_cpus
            };
            let tr = if rest_r < sorted[i].free_ram {
                rest_r
            } else {
                sorted[i].free_ram
            };
            let req = crate::model::JobRequest {
                agent_guid: sorted[i].guid.clone(),
                request: crate::model::JobCreateRequest {
                    job_guid: job_info.guid.clone(),
                    image: job_info.image.clone(),
                    idx: i as u64,
                    cpus: tc,
                    ram: tr,
                    timeout: job_info.timeout.clone(),
                    target: job_info.target.clone(),
                    corpus: job_info.corpus.clone(),
                    last_msg: String::new(),
                    status: JobStatus::Init,
                    crash_auto_analyze: job_info.crash_auto_analyze,
                },
            };
            proof {
                assert((sorted@[i as int])@ == sortedv[i as int]);
                assert(req@ =~~= request_of(
                    infov,
                    sortedv[i as int].guid,
                    i as int,
                    tc as int,
                    tr as int,
                ));
                assert(sortedv.skip(i as int)[0] == sortedv[i as int]);
                assert(sortedv.skip(i as int).skip(1) =~= sortedv.skip(i + 1));
                assert(tc as int == min_int(rest_c as int, sortedv[i as int].free_cpus));
                assert(tr as int == min_int(rest_r as int, sortedv[i as int].free_ram));
                assert(assign(sortedv.skip(i as int), rest_c as int, rest_r as int, i as int, infov)
                    == seq![req@] + assign(
                    sortedv.skip(i + 1),
                    rest_c - tc,
                    rest_r - tr,
                    i + 1,
                    infov,
                ));
            }
            let ghost prer = crate::model::views_of(reqs@);
            reqs.push(req);
            proof {
                assert(crate::model::views_of(reqs@) =~= prer.push(req@));
                assert(prer + (seq![req@] + assign(
                    sortedv.skip(i + 1),
                    rest_c - tc,
                    rest_r - tr,
                    i + 1,
                    infov,
                )) =~= crate::model::views_of(reqs@) + assign(
                    sortedv.skip(i + 1),
                    rest_c - tc,
                    rest_r - tr,
                    i + 1,
                    infov,
                ));
            }
            rest_c = rest_c - tc;
            rest_r = rest_r - tr;
            i = i + 1;
        }
        proof {
            if i >= ns {
                assert(sortedv.skip(i as int).len() == 0);
            }
            assert(assign(sortedv.skip(i as int), rest_c as int, rest_r as int, i as int, infov)
                =~= Seq::<JobRequestV>::empty());
            assert(crate::model::views_of(reqs@) + Seq::<JobRequestV>::empty()
                =~= crate::model::views_of(reqs@));
            assert(assign(sortedv, c0, r0, 0, infov) == crate::model::views_of(reqs@));
            assert forall|k: int|
                0 <= k < reqs@.len() implies {
                let rv = (#[trigger] reqs@[k])@;
                &&& rv.agent_guid == (sorted@[k])@.guid
                &&& 0 <= rv.request.cpus <= (sorted@[k])@.free_cpus
                &&& 0 <= rv.request.ram <= (sorted@[k])@.free_ram
            } by {
                assert(sortedv[k] == (sorted@[k])@);
            }
        }
        reqs
    }

    /// Split a submission across the eligible agents, as one store
    /// transaction.  Fails, writing nothing, exactly when the eligible
    /// agents' free CPUs together are fewer than the requested CPUs; a
    /// RAM shortfall is permitted and truncates the RAM shares.  On
    /// success the returned requests are the assignment over the eligible
    /// agents in descending order of free CPUs; each chosen agent is
    /// debited its share, one sub-job row per request is inserted
    /// (`init`, not freed), and the collection row is inserted (`init`).
    /// The submission's guid is expected fresh: the intake generates it.
    #[verifier::rlimit(100)]
    #[verifier::loop_isolation(false)]
    pub fn schedule_job(&mut self, job_info: &crate::model::JobInfo) -> (r: Result<
        Vec<crate::model::JobRequest>,
        ScheduleError,
    >)
        requires
            crate::store::store_inv(old(self)@),
            !crate::store::has_collection(old(self)@.collections, job_info.guid@),
        ensures
            crate::store::store_inv(final(self)@),
            crate::store::statuses_consistent(old(self)@) ==> crate::store::statuses_consistent(
                final(self)@,
            ),
            match r {
                Result::Err(e) => final(self)@ == old(self)@ && sum_free_cpus(
                    eligible_agents(old(self)@.agents, job_info.agent_type@),
                ) < job_info.cpus,
                Result::Ok(reqs) => sum_free_cpus(
                    eligible_agents(old(self)@.agents, job_info.agent_type@),
                ) >= job_info.cpus && crate::model::views_of(reqs@) == assign(
                    sort_desc(eligible_agents(old(self)@.agents, job_info.agent_type@)),
                    job_info.cpus as int,
                    job_info.ram as int,
                    0,
                    job_info@,
                ) && exists|d: Seq<char>|
                    final(self)@ == schedule_ok_spec(old(self)@, job_info@, d),
            },
    {
        let ghost t = job_info.agent_type@;
        let ghost infov = job_info@;
        let ghost prev = self@;

        // Eligible agents, their total free CPUs, and the stable order.
        let elig = self.eligible_rows(&job_info.agent_type);
        let ghost eligv = crate::model::views_of(elig@);
        proof {
            lemma_eligible_wf(prev.agents, t);
            assert(distinct_guids(eligv));
            lemma_sort_desc_wf(eligv);
        }
        let total = Self::saturating_free_cpus(&elig);
        if total < job_info.cpus {
            return Err(ScheduleError::InsufficientResources);
        }
        let sorted = Self::sort_by_free_desc(&elig);
        let ghost sortedv = crate::model::views_of(sorted@);
        proof {
            assert(sortedv == sort_desc(eligv));
            assert(distinct_guids(sortedv));
        }

        // The assignment walk.
        let reqs = Self::build_plan(&sorted, job_info);
        let ghost reqsv = crate::model::views_of(reqs@);
        proof {
            assert forall|k: int|
                0 <= k < reqsv.len() implies {
                let rv = #[trigger] reqsv[k];
                &&& rv.agent_guid == sortedv[k].guid
                &&& rv.request.job_guid == infov.guid
                &&& rv.request.idx == k
                &&& 0 <= rv.request.cpus <= sortedv[k].free_cpus
                &&& 0 <= rv.request.ram <= sortedv[k].free_ram
            } by {
                assert(reqsv[k] == (reqs@[k])@);
                assert(sortedv[k] == (sorted@[k])@);
            }
            assert forall|p: int, q: int|
                0 <= p < q < reqsv.len() implies (#[trigger] reqsv[p]).agent_guid != (
            #[trigger] reqsv[q]).agent_guid by {
                assert(sortedv[p].guid != sortedv[q].guid);
            }
        }


        // Apply: debit each chosen agent and insert its sub-job row.
        proof {
            assert forall|k: int|
                0 <= k < sortedv.len() implies exists|j: int|
                0 <= j < prev.agents.len() && prev.agents[j] == #[trigger] sortedv[k] by {
                let j2 = choose|j2: int| 0 <= j2 < eligv.len() && eligv[j2] == sortedv[k];
                let j3 = choose|j3: int|
                    0 <= j3 < prev.agents.len() && prev.agents[j3] == eligv[j2];
                assert(prev.agents[j3] == sortedv[k]);
            }
            assert(self@ == apply_requests(prev, reqsv.take(0)));
        }
        let nq = reqs.len();
        let mut q: usize = 0;
        while q < nq
            invariant
                nq == reqs@.len(),
                crate::model::views_of(reqs@) == reqsv,
                q <= nq,
                crate::store::store_inv(prev),
                distinct_guids(sortedv),
                reqsv.len() <= sortedv.len(),
                forall|k: int|
                    0 <= k < reqsv.len() ==> {
                        let rv = #[trigger] reqsv[k];
                        &&& rv.agent_guid == sortedv[k].guid
                        &&& rv.request.job_guid == infov.guid
                        &&& rv.request.idx == k
                        &&& 0 <= rv.request.cpus <= sortedv[k].free_cpus
                        &&& 0 <= rv.request.ram <= sortedv[k].free_ram
                    },
                forall|k: int|
                    0 <= k < sortedv.len() ==> exists|j: int|
                        0 <= j < prev.agents.len() && prev.agents[j] == #[trigger] sortedv[k],
                self@ == apply_requests(prev, reqsv.take(q as int)),
            decreases nq - q,
        {
            let ghost st_head = self@;
            proof {
                lemma_apply_requests_shape(prev, reqsv.take(q as int));
            }
            let tc = reqs[q].request.cpus;
            let tr = reqs[q].request.ram;
            let ghost g = reqsv[q as int].agent_guid;
            proof {
                assert forall|k: int|
                    0 <= k < reqsv.take(q as int).len() implies (#[trigger] reqsv.take(
                    q as int,
                )[k]).agent_guid != g by {
                    assert(reqsv.take(q as int)[k] == reqsv[k]);
                    assert(reqsv[k].agent_guid != reqsv[q as int].agent_guid);
                }
                lemma_req_sum_zero(reqsv.take(q as int), g);
            }
            let na2 = self.agents.len();
            let mut m: usize = 0;
            while m < na2
                invariant
                    na2 == self@.agents.len(),
                    na2 == st_head.agents.len(),
                    m <= na2,
                    q < nq == reqs@.len(),
                    crate::model::views_of(reqs@) == reqsv,
                    tc as int == reqsv[q as int].request.cpus,
                    tr as int == reqsv[q as int].request.ram,
                    g == reqsv[q as int].agent_guid,
                    crate::store::store_inv(prev),
                    distinct_guids(sortedv),
                    reqsv.len() <= sortedv.len(),
                    forall|k: int|
                        0 <= k < reqsv.len() ==> {
                            let rv = #[trigger] reqsv[k];
                            &&& rv.agent_guid == sortedv[k].guid
                            &&& 0 <= rv.request.cpus <= sortedv[k].free_cpus
                            &&& 0 <= rv.request.ram <= sortedv[k].free_ram
                        },
                    forall|k: int|
                        0 <= k < sortedv.len() ==> exists|j: int|
                            0 <= j < prev.agents.len() && prev.agents[j] == #[trigger] sortedv[k],
                    st_head == apply_requests(prev, reqsv.take(q as int)),
                    self@.jobs == st_head.jobs,
                    self@.collections == st_head.collections,
                    self@.crashes == st_head.crashes,
                    forall|j: int|
                        m <= j < na2 ==> (#[trigger] self@.agents[j]) == st_head.agents[j],
                    forall|j: int|
                        0 <= j < m ==> (#[trigger] self@.agents[j]) == (
                        if st_head.agents[j].guid == g {
                            AgentV {
                                free_cpus: st_head.agents[j].free_cpus - tc,
                                free_ram: st_head.agents[j].free_ram - tr,
                                ..st_head.agents[j]
                            }
                        } else {
                            st_head.agents[j]
                        }),
                decreases na2 - m,
            {
                let ghost head2 = self@.agents;
                if self.agents[m].guid == reqs[q].agent_guid {
                    proof {
                        lemma_apply_requests_shape(prev, reqsv.take(q as int));
                        assert(st_head.agents[m as int] == (AgentV {
                            free_cpus: prev.agents[m as int].free_cpus - req_cpus_for(
                                reqsv.take(q as int),
                                prev.agents[m as int].guid,
                            ),
                            free_ram: prev.agents[m as int].free_ram - req_ram_for(
                                reqsv.take(q as int),
                                prev.agents[m as int].guid,
                            ),
                            ..prev.agents[m as int]
                        }));
                        assert(prev.agents[m as int].guid == g);
                        assert(st_head.agents[m as int].free_cpus == prev.agents[m as int].free_cpus);
                        assert(st_head.agents[m as int].free_ram == prev.agents[m as int].free_ram);
                        let j = choose|j: int|
                            0 <= j < prev.agents.len() && prev.agents[j] == sortedv[q as int];
                        assert(prev.agents[j].guid == g);
                        if j != m as int {
                            assert(prev.agents[j].guid != prev.agents[m as int].guid);
                        }
                        assert(prev.agents[m as int] == sortedv[q as int]);
                        assert(tc as int <= prev.agents[m as int].free_cpus);
                        assert(tr as int <= prev.agents[m as int].free_ram);
                    }
                    let fc = self.agents[m].free_cpus;
                    let fr = self.agents[m].free_ram;
                    self.agents[m].free_cpus = fc - tc;
                    self.agents[m].free_ram = fr - tr;
                    proof {
                        assert(self@.agents =~= head2.update(
                            m as int,
                            AgentV {
                                free_cpus: head2[m as int].free_cpus - tc,
                                free_ram: head2[m as int].free_ram - tr,
                                ..head2[m as int]
                            },
                        ));
                    }
                }
                proof {
                    assert(forall|j: int|
                        0 <= j < na2 && j != m ==> (#[trigger] self@.agents[j]) == head2[j]);
                }
                m = m + 1;
            }
            let row = crate::model::Job {
                agent_guid: reqs[q].agent_guid.clone(),
                collection_guid: reqs[q].request.job_guid.clone(),
                idx: reqs[q].request.idx,
                cpus: tc,
                ram: tr,
                last_msg: String::new(),
                status: JobStatus::Init,
                freed: false,
            };
            proof {
                assert(row@ =~~= job_of(reqsv[q as int]));
            }
            let ghost jobs_head = self@.jobs;
            self.jobs.push(row);
            proof {
                assert(self@.jobs =~= jobs_head.push(job_of(reqsv[q as int])));
                assert(self@.agents =~= debit_agents(st_head.agents, g, tc as int, tr as int));
                assert(self@ =~= apply_one(st_head, reqsv[q as int]));
                lemma_apply_push(prev, reqsv.take(q as int), reqsv[q as int]);
                assert(reqsv.take(q as int).push(reqsv[q as int]) =~= reqsv.take(q + 1));
            }
            q = q + 1;
        }
        proof {
            assert(reqsv.take(nq as int) =~= reqsv);
        }

        // The collection row.
        let now = crate::wrappers::now_utc_string();
        let ghost nowv = now@;
        let ghost cols_head = self@.collections;
        self.collections.push(crate::model::JobCollection {
            guid: job_info.guid.clone(),
            name: job_info.name.clone(),
            description: job_info.description.clone(),
            agent_type: job_info.agent_type.clone(),
            creation_date: now,
            cpus: job_info.cpus,
            ram: job_info.ram,
            timeout: job_info.timeout.clone(),
            target: job_info.target.clone(),
            corpus: job_info.corpus.clone(),
            status: JobStatus::Init,
        });
        proof {
            assert forall|x: int|
                0 <= x < self@.collections.len() implies #[trigger] self@.collections[x]
                == cols_head.push(collection_of(infov, nowv))[x] by {
                if x == cols_head.len() {
                    assert(self@.collections[x] =~~= collection_of(infov, nowv));
                }
            }
            assert(self@.collections =~= cols_head.push(collection_of(infov, nowv)));
            let fin = final(self)@;
            let applied = apply_requests(prev, reqsv);
            assert(fin =~= (StoreV {
                collections: applied.collections.push(collection_of(infov, nowv)),
                ..applied
            }));
            assert(fin == schedule_ok_spec(prev, infov, nowv));
            lemma_schedule_result_inv(prev, infov, nowv, reqsv, sortedv);
        }
        Ok(reqs)
    }
}

} // verus!
