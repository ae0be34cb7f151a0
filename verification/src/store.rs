//! The durable store: agents, job collections, sub-jobs and crashes, with
//! the resource-accounting invariant that ties them together.
//!
//! The store is the single source of truth of the control plane.  Its
//! central invariant, kept by every operation, is that for every agent
//! the free counters plus the resources of its not-yet-freed sub-jobs
//! equal the agent's totals.

use vstd::prelude::*;

use crate::model::Agent;
use crate::model::AgentV;
use crate::model::Crash;
use crate::model::CrashV;
use crate::model::Job;
use crate::model::JobCollection;
use crate::model::JobCollectionV;
use crate::model::JobV;
use crate::model::SysInfo;
use crate::model::views_of;
use crate::seq_util::first_where;
use crate::seq_util::lemma_first_where;
use crate::seq_util::lemma_first_where_is;
use crate::seq_util::lemma_first_where_none;
use crate::status::AgentStatus;
use crate::status::JobStatus;

verus! {

/// All rows of the store, as one mathematical value.
#[verifier::ext_equal]
pub struct StoreV {
    pub agents: Seq<AgentV>,
    pub collections: Seq<JobCollectionV>,
    pub jobs: Seq<JobV>,
    pub crashes: Seq<CrashV>,
}

/// The relational state of the control plane.
pub struct Store {
    pub agents: Vec<Agent>,
    pub collections: Vec<JobCollection>,
    pub jobs: Vec<Job>,
    pub crashes: Vec<Crash>,
}

impl View for Store {
    type V = StoreV;

    open spec fn view(&self) -> StoreV {
        StoreV {
            agents: views_of(self.agents@),
            collections: views_of(self.collections@),
            jobs: views_of(self.jobs@),
            crashes: views_of(self.crashes@),
        }
    }
}

// ---------------------------------------------------------------------------
// Row lookups.
// ---------------------------------------------------------------------------

/// Index of the agent with the given guid, `-1` when absent.
pub open spec fn agent_index(agents: Seq<AgentV>, guid: Seq<char>) -> int {
    first_where(agents, |a: AgentV| a.guid == guid)
}

pub open spec fn has_agent(agents: Seq<AgentV>, guid: Seq<char>) -> bool {
    exists|i: int| 0 <= i < agents.len() && (#[trigger] agents[i]).guid == guid
}

/// Index of the collection with the given guid, `-1` when absent.
pub open spec fn collection_index(cols: Seq<JobCollectionV>, guid: Seq<char>) -> int {
    first_where(cols, |c: JobCollectionV| c.guid == guid)
}

pub open spec fn has_collection(cols: Seq<JobCollectionV>, guid: Seq<char>) -> bool {
    exists|i: int| 0 <= i < cols.len() && (#[trigger] cols[i]).guid == guid
}

/// Index of the first not-yet-freed sub-job of `agent` in `coll`, `-1` when
/// none remains.
pub open spec fn unfreed_job_index(jobs: Seq<JobV>, agent: Seq<char>, coll: Seq<char>) -> int {
    first_where(
        jobs,
        |j: JobV| j.agent_guid == agent && j.collection_guid == coll && !j.freed,
    )
}

/// Whether some not-yet-freed sub-job belongs to the agent with this guid.
pub open spec fn has_unfreed(jobs: Seq<JobV>, guid: Seq<char>) -> bool {
    exists|k: int|
        0 <= k < jobs.len() && (#[trigger] jobs[k]).agent_guid == guid && !jobs[k].freed
}

pub open spec fn has_crash(crashes: Seq<CrashV>, coll: Seq<char>, name: Seq<char>) -> bool {
    exists|i: int|
        0 <= i < crashes.len() && (#[trigger] crashes[i]).collection_guid == coll
            && crashes[i].name == name
}

// ---------------------------------------------------------------------------
// Resource sums and status counts.
// ---------------------------------------------------------------------------

/// What one sub-job row contributes to its agent's outstanding CPUs.
pub open spec fn cpu_contrib(j: JobV, guid: Seq<char>) -> int {
    if j.agent_guid == guid && !j.freed {
        j.cpus
    } else {
        0
    }
}

/// What one sub-job row contributes to its agent's outstanding RAM.
pub open spec fn ram_contrib(j: JobV, guid: Seq<char>) -> int {
    if j.agent_guid == guid && !j.freed {
        j.ram
    } else {
        0
    }
}

/// CPUs currently out on loan to not-yet-freed sub-jobs of this agent.
pub open spec fn unfreed_cpus(jobs: Seq<JobV>, guid: Seq<char>) -> int
    decreases jobs.len(),
{
    if jobs.len() == 0 {
        0
    } else {
        unfreed_cpus(jobs.drop_last(), guid) + cpu_contrib(jobs.last(), guid)
    }
}

/// RAM currently out on loan to not-yet-freed sub-jobs of this agent.
pub open spec fn unfreed_ram(jobs: Seq<JobV>, guid: Seq<char>) -> int
    decreases jobs.len(),
{
    if jobs.len() == 0 {
        0
    } else {
        unfreed_ram(jobs.drop_last(), guid) + ram_contrib(jobs.last(), guid)
    }
}

/// How many sub-job rows belong to the collection.
pub open spec fn count_jobs_of(jobs: Seq<JobV>, coll: Seq<char>) -> int
    decreases jobs.len(),
{
    if jobs.len() == 0 {
        0
    } else {
        count_jobs_of(jobs.drop_last(), coll) + if jobs.last().collection_guid == coll {
            1int
        } else {
            0int
        }
    }
}

/// How many sub-job rows of the collection carry the given status.
pub open spec fn count_with_status(jobs: Seq<JobV>, coll: Seq<char>, st: JobStatus) -> int
    decreases jobs.len(),
{
    if jobs.len() == 0 {
        0
    } else {
        count_with_status(jobs.drop_last(), coll, st) + if jobs.last().collection_guid == coll
            && jobs.last().status == st {
            1int
        } else {
            0int
        }
    }
}

/// The propagation function: a collection's status as rolled up from its
/// sub-job rows.  Errors win; otherwise a remaining `init` row keeps the
/// collection `init`; otherwise a running row keeps it `alive`; a
/// collection whose rows are all terminal is `completed`.
pub open spec fn roll_up(jobs: Seq<JobV>, coll: Seq<char>) -> JobStatus {
    if count_with_status(jobs, coll, JobStatus::Error) > 0 {
        JobStatus::Error
    } else if count_with_status(jobs, coll, JobStatus::Init) > 0 {
        JobStatus::Init
    } else if count_with_status(jobs, coll, JobStatus::Alive) > 0 {
        JobStatus::Alive
    } else {
        JobStatus::Completed
    }
}

// ---------------------------------------------------------------------------
// Well-formedness.
// ---------------------------------------------------------------------------

pub open spec fn agent_bounded(a: AgentV) -> bool {
    &&& 0 <= a.free_cpus <= u64::MAX
    &&& 0 <= a.free_ram <= u64::MAX
    &&& 0 <= a.cpus <= u64::MAX
    &&& 0 <= a.ram <= u64::MAX
}

pub open spec fn job_bounded(j: JobV) -> bool {
    &&& 0 <= j.cpus <= u64::MAX
    &&& 0 <= j.ram <= u64::MAX
    &&& 0 <= j.idx <= u64::MAX
}

pub open spec fn agents_ok(agents: Seq<AgentV>) -> bool {
    &&& forall|i: int, j: int|
        0 <= i < j < agents.len() ==> (#[trigger] agents[i]).guid != (#[trigger] agents[j]).guid
    &&& forall|i: int| 0 <= i < agents.len() ==> agent_bounded(#[trigger] agents[i])
}

pub open spec fn collections_ok(cols: Seq<JobCollectionV>) -> bool {
    &&& forall|i: int, j: int|
        0 <= i < j < cols.len() ==> (#[trigger] cols[i]).guid != (#[trigger] cols[j]).guid
    &&& forall|i: int|
        0 <= i < cols.len() ==> 0 <= (#[trigger] cols[i]).cpus <= u64::MAX && 0 <= cols[i].ram
            <= u64::MAX
}

/// Sub-job rows are unique per `(agent, collection)` pair, bounded, and
/// always belong to an existing collection.
pub open spec fn jobs_ok(jobs: Seq<JobV>, cols: Seq<JobCollectionV>) -> bool {
    &&& forall|i: int, j: int|
        0 <= i < j < jobs.len() ==> !((#[trigger] jobs[i]).agent_guid == (
        #[trigger] jobs[j]).agent_guid && jobs[i].collection_guid == jobs[j].collection_guid)
    &&& forall|i: int| 0 <= i < jobs.len() ==> job_bounded(#[trigger] jobs[i])
    &&& forall|i: int|
        0 <= i < jobs.len() ==> has_collection(cols, (#[trigger] jobs[i]).collection_guid)
}

pub open spec fn crashes_ok(crashes: Seq<CrashV>) -> bool {
    &&& forall|i: int, j: int|
        0 <= i < j < crashes.len() ==> !((#[trigger] crashes[i]).collection_guid == (
        #[trigger] crashes[j]).collection_guid && crashes[i].name == crashes[j].name)
    &&& forall|i: int| 0 <= i < crashes.len() ==> 0 <= (#[trigger] crashes[i]).size <= u64::MAX
}

/// The resource-accounting invariant: for every agent, the free counters
/// plus the resources of its not-yet-freed sub-jobs equal the totals.
pub open spec fn accounting_ok(s: StoreV) -> bool {
    forall|i: int|
        0 <= i < s.agents.len() ==> {
            let a = #[trigger] s.agents[i];
            a.free_cpus + unfreed_cpus(s.jobs, a.guid) == a.cpus && a.free_ram + unfreed_ram(
                s.jobs,
                a.guid,
            ) == a.ram
        }
}

/// An agent that still awaits its first system-information call has no
/// outstanding sub-jobs: only `up` agents are ever scheduled onto.
pub open spec fn init_agents_idle(s: StoreV) -> bool {
    forall|i: int|
        0 <= i < s.agents.len() && (#[trigger] s.agents[i]).status == AgentStatus::Init
            ==> !has_unfreed(s.jobs, s.agents[i].guid)
}

/// The store's invariant, established by [`Store::new`] and kept by every
/// operation.
pub open spec fn store_inv(s: StoreV) -> bool {
    &&& agents_ok(s.agents)
    &&& collections_ok(s.collections)
    &&& jobs_ok(s.jobs, s.collections)
    &&& crashes_ok(s.crashes)
    &&& accounting_ok(s)
    &&& init_agents_idle(s)
}

/// Every collection with at least one sub-job row carries the status that
/// the propagation function assigns it.
pub open spec fn statuses_consistent(s: StoreV) -> bool {
    forall|i: int|
        0 <= i < s.collections.len() && count_jobs_of(s.jobs, (
        #[trigger] s.collections[i]).guid) > 0 ==> s.collections[i].status == roll_up(
            s.jobs,
            s.collections[i].guid,
        )
}

// ---------------------------------------------------------------------------
// Facts about the sums.
// ---------------------------------------------------------------------------

/// Outstanding sums are never negative.
pub proof fn lemma_unfreed_nonneg(jobs: Seq<JobV>, guid: Seq<char>)
    requires
        forall|i: int| 0 <= i < jobs.len() ==> job_bounded(#[trigger] jobs[i]),
    ensures
        unfreed_cpus(jobs, guid) >= 0,
        unfreed_ram(jobs, guid) >= 0,
    decreases jobs.len(),
{
    if jobs.len() > 0 {
        lemma_unfreed_nonneg(jobs.drop_last(), guid);
    }
}

/// An agent with no outstanding sub-job rows has outstanding sums of zero.
pub proof fn lemma_unfreed_zero(jobs: Seq<JobV>, guid: Seq<char>)
    requires
        !has_unfreed(jobs, guid),
    ensures
        unfreed_cpus(jobs, guid) == 0,
        unfreed_ram(jobs, guid) == 0,
    decreases jobs.len(),
{
    if jobs.len() > 0 {
        assert(!has_unfreed(jobs.drop_last(), guid));
        lemma_unfreed_zero(jobs.drop_last(), guid);
        assert(cpu_contrib(jobs.last(), guid) == 0);
        assert(ram_contrib(jobs.last(), guid) == 0);
    }
}

/// A single outstanding row never exceeds its agent's outstanding sum.
pub proof fn lemma_unfreed_ge_elem(jobs: Seq<JobV>, guid: Seq<char>, k: int)
    requires
        forall|i: int| 0 <= i < jobs.len() ==> job_bounded(#[trigger] jobs[i]),
        0 <= k < jobs.len(),
        jobs[k].agent_guid == guid,
        !jobs[k].freed,
    ensures
        unfreed_cpus(jobs, guid) >= jobs[k].cpus,
        unfreed_ram(jobs, guid) >= jobs[k].ram,
    decreases jobs.len(),
{
    if k == jobs.len() - 1 {
        lemma_unfreed_nonneg(jobs.drop_last(), guid);
    } else {
        lemma_unfreed_ge_elem(jobs.drop_last(), guid, k);
    }
}

/// How replacing one row moves the outstanding sums.
pub proof fn lemma_unfreed_update(jobs: Seq<JobV>, k: int, j2: JobV, guid: Seq<char>)
    requires
        0 <= k < jobs.len(),
    ensures
        unfreed_cpus(jobs.update(k, j2), guid) == unfreed_cpus(jobs, guid) - cpu_contrib(
            jobs[k],
            guid,
        ) + cpu_contrib(j2, guid),
        unfreed_ram(jobs.update(k, j2), guid) == unfreed_ram(jobs, guid) - ram_contrib(
            jobs[k],
            guid,
        ) + ram_contrib(j2, guid),
    decreases jobs.len(),
{
    let u = jobs.update(k, j2);
    if k == jobs.len() - 1 {
        assert(u.drop_last() =~= jobs.drop_last());
        assert(u.last() == j2);
    } else {
        assert(u.drop_last() =~= jobs.drop_last().update(k, j2));
        assert(u.last() == jobs.last());
        lemma_unfreed_update(jobs.drop_last(), k, j2, guid);
    }
}

/// How appending a row moves the outstanding sums.
pub proof fn lemma_unfreed_push(jobs: Seq<JobV>, j: JobV, guid: Seq<char>)
    ensures
        unfreed_cpus(jobs.push(j), guid) == unfreed_cpus(jobs, guid) + cpu_contrib(j, guid),
        unfreed_ram(jobs.push(j), guid) == unfreed_ram(jobs, guid) + ram_contrib(j, guid),
{
    assert(jobs.push(j).drop_last() =~= jobs);
    assert(jobs.push(j).last() == j);
}

/// How replacing one row moves the per-status counts.
pub proof fn lemma_count_update(jobs: Seq<JobV>, k: int, j2: JobV, coll: Seq<char>, st: JobStatus)
    requires
        0 <= k < jobs.len(),
    ensures
        count_with_status(jobs.update(k, j2), coll, st) == count_with_status(jobs, coll, st) - (
        if jobs[k].collection_guid == coll && jobs[k].status == st {
            1int
        } else {
            0int
        }) + (
        if j2.collection_guid == coll && j2.status == st {
            1int
        } else {
            0int
        }),
        count_jobs_of(jobs.update(k, j2), coll) == count_jobs_of(jobs, coll) - (
        if jobs[k].collection_guid == coll {
            1int
        } else {
            0int
        }) + (
        if j2.collection_guid == coll {
            1int
        } else {
            0int
        }),
    decreases jobs.len(),
{
    let u = jobs.update(k, j2);
    if k == jobs.len() - 1 {
        assert(u.drop_last() =~= jobs.drop_last());
        assert(u.last() == j2);
    } else {
        assert(u.drop_last() =~= jobs.drop_last().update(k, j2));
        assert(u.last() == jobs.last());
        lemma_count_update(jobs.drop_last(), k, j2, coll, st);
    }
}

/// How appending a row moves the per-status counts.
pub proof fn lemma_count_push(jobs: Seq<JobV>, j: JobV, coll: Seq<char>, st: JobStatus)
    ensures
        count_with_status(jobs.push(j), coll, st) == count_with_status(jobs, coll, st) + (
        if j.collection_guid == coll && j.status == st {
            1int
        } else {
            0int
        }),
        count_jobs_of(jobs.push(j), coll) == count_jobs_of(jobs, coll) + (
        if j.collection_guid == coll {
            1int
        } else {
            0int
        }),
{
    assert(jobs.push(j).drop_last() =~= jobs);
    assert(jobs.push(j).last() == j);
}

/// A collection with a row carrying status `st` counts it.
pub proof fn lemma_count_witness(jobs: Seq<JobV>, k: int)
    requires
        0 <= k < jobs.len(),
    ensures
        count_with_status(jobs, jobs[k].collection_guid, jobs[k].status) > 0,
        count_jobs_of(jobs, jobs[k].collection_guid) > 0,
    decreases jobs.len(),
{
    lemma_count_nonneg(jobs, jobs[k].collection_guid, jobs[k].status);
    if k == jobs.len() - 1 {
        lemma_count_nonneg(jobs.drop_last(), jobs[k].collection_guid, jobs[k].status);
    } else {
        lemma_count_witness(jobs.drop_last(), k);
    }
}

/// Counts are never negative.
pub proof fn lemma_count_nonneg(jobs: Seq<JobV>, coll: Seq<char>, st: JobStatus)
    ensures
        count_with_status(jobs, coll, st) >= 0,
        count_jobs_of(jobs, coll) >= 0,
    decreases jobs.len(),
{
    if jobs.len() > 0 {
        lemma_count_nonneg(jobs.drop_last(), coll, st);
    }
}

// ---------------------------------------------------------------------------
// Agent rows.
// ---------------------------------------------------------------------------

impl Store {
    /// An empty store, as a freshly initialised database.
    pub fn new() -> (s: Store)
        ensures
            s@.agents.len() == 0,
            s@.collections.len() == 0,
            s@.jobs.len() == 0,
            s@.crashes.len() == 0,
            store_inv(s@),
            statuses_consistent(s@),
    {
        Store { agents: Vec::new(), collections: Vec::new(), jobs: Vec::new(), crashes: Vec::new() }
    }

    /// Position of the agent row with this guid.
    fn agent_pos(&self, guid: &String) -> (r: Option<usize>)
        ensures
            match r {
                Some(i) => i < self@.agents.len() && agent_index(self@.agents, guid@) == i as int,
                None => agent_index(self@.agents, guid@) == -1,
            },
    {
        let n = self.agents.len();
        for i in 0..n
            invariant
                n == self@.agents.len(),
                forall|j: int| 0 <= j < i ==> (#[trigger] self@.agents[j]).guid != guid@,
        {
            if self.agents[i].guid == *guid {
                proof {
                    lemma_first_where_is(self@.agents, |a: AgentV| a.guid == guid@, i as int);
                }
                return Some(i);
            }
        }
        proof {
            lemma_first_where_none(self@.agents, |a: AgentV| a.guid == guid@);
        }
        None
    }

    /// All agent rows, in the store's iteration order.
    pub fn get_all(&self) -> (r: Vec<Agent>)
        ensures
            views_of(r@) == self@.agents,
    {
        let mut out: Vec<Agent> = Vec::new();
        let n = self.agents.len();
        for i in 0..n
            invariant
                n == self@.agents.len(),
                out@.len() == i,
                forall|j: int| 0 <= j < i ==> (#[trigger] out@[j])@ == self@.agents[j],
        {
            let a = self.agents[i].duplicate();
            assert(a@ == self@.agents[i as int]);
            out.push(a);
        }
        proof {
            assert(views_of(out@) =~= self@.agents);
        }
        out
    }

    /// The agent row with this guid, when one exists.
    pub fn get_by_guid(&self, guid: &String) -> (r: Option<Agent>)
        ensures
            ({
                let k = agent_index(self@.agents, guid@);
                match r {
                    None => k == -1,
                    Some(a) => 0 <= k && a@ == self@.agents[k],
                }
            }),
    {
        match self.agent_pos(guid) {
            Some(i) => Some(self.agents[i].duplicate()),
            None => None,
        }
    }

    /// Whether some not-yet-freed sub-job row belongs to this agent guid.
    pub fn has_unfreed_jobs(&self, guid: &String) -> (b: bool)
        ensures
            b == has_unfreed(self@.jobs, guid@),
    {
        let n = self.jobs.len();
        for k in 0..n
            invariant
                n == self@.jobs.len(),
                forall|j: int|
                    0 <= j < k ==> !((#[trigger] self@.jobs[j]).agent_guid == guid@
                        && !self@.jobs[j].freed),
        {
            if self.jobs[k].agent_guid == *guid && !self.jobs[k].freed {
                assert(self@.jobs[k as int].agent_guid == guid@ && !self@.jobs[k as int].freed);
                assert(has_unfreed(self@.jobs, guid@));
                return true;
            }
        }
        false
    }

    /// Whether an agent row with this guid exists.
    pub fn agent_exists(&self, guid: &String) -> (b: bool)
        ensures
            b == (agent_index(self@.agents, guid@) != -1),
    {
        self.agent_pos(guid).is_some()
    }

    /// Register an agent row.  Totals and free counters start at zero and
    /// are filled in by the first successful system-information call.  The
    /// returned row is the one inserted.
    ///
    /// The guid is expected fresh: registration generates one, so no agent
    /// row and no sub-job row carries it yet.
    pub fn create(&mut self, agent: Agent) -> (r: Agent)
        requires
            store_inv(old(self)@),
            agent_index(old(self)@.agents, agent.guid@) == -1,
            !has_unfreed(old(self)@.jobs, agent.guid@),
        ensures
            store_inv(final(self)@),
            final(self)@.agents == old(self)@.agents.push(r@),
            final(self)@.collections == old(self)@.collections,
            final(self)@.jobs == old(self)@.jobs,
            final(self)@.crashes == old(self)@.crashes,
            r@ == (AgentV { free_cpus: 0, free_ram: 0, cpus: 0, ram: 0, ..agent@ }),
            statuses_consistent(old(self)@) ==> statuses_consistent(final(self)@),
    {
        let inserted = Agent {
            guid: agent.guid,
            description: agent.description,
            agent_type: agent.agent_type,
            endpoint: agent.endpoint,
            status: agent.status,
            free_cpus: 0,
            free_ram: 0,
            cpus: 0,
            ram: 0,
        };
        let r = inserted.duplicate();
        proof {
            lemma_first_where(old(self)@.agents, |a: AgentV| a.guid == inserted.guid@);
            lemma_unfreed_zero(old(self)@.jobs, inserted.guid@);
        }
        self.agents.push(inserted);
        proof {
            assert(final(self)@.agents =~= old(self)@.agents.push(r@));
            assert(final(self)@.jobs =~= old(self)@.jobs);
            assert(final(self)@.collections =~= old(self)@.collections);
            assert(final(self)@.crashes =~= old(self)@.crashes);
            let agents2 = final(self)@.agents;
            assert forall|i: int, j: int| 0 <= i < j < agents2.len() implies (
            #[trigger] agents2[i]).guid != (#[trigger] agents2[j]).guid by {
                if j == agents2.len() - 1 {
                    assert(agents2[i] == old(self)@.agents[i]);
                }
            }
        }
        r
    }

    /// Delete the agent row with this guid, if present, and hand the guid
    /// back.  Sub-job rows are not touched.
    pub fn delete(&mut self, guid: String) -> (r: String)
        requires
            store_inv(old(self)@),
        ensures
            store_inv(final(self)@),
            r@ == guid@,
            ({
                let k = agent_index(old(self)@.agents, guid@);
                if k == -1 {
                    final(self)@ == old(self)@
                } else {
                    final(self)@ == (StoreV {
                        agents: old(self)@.agents.remove(k),
                        ..old(self)@
                    })
                }
            }),
            statuses_consistent(old(self)@) ==> statuses_consistent(final(self)@),
    {
        match self.agent_pos(&guid) {
            None => guid,
            Some(i) => {
                self.agents.remove(i);
                proof {
                    let k = i as int;
                    let before = old(self)@.agents;
                    let after = final(self)@.agents;
                    assert(after =~= before.remove(k));
                    assert(final(self)@ =~= (StoreV {
                        agents: before.remove(k),
                        ..old(self)@
                    }));
                    assert forall|p: int, q: int| 0 <= p < q < after.len() implies (
                    #[trigger] after[p]).guid != (#[trigger] after[q]).guid by {
                        let p0 = if p < k {
                            p
                        } else {
                            p + 1
                        };
                        let q0 = if q < k {
                            q
                        } else {
                            q + 1
                        };
                        assert(after[p] == before[p0] && after[q] == before[q0]);
                    }
                    assert forall|p: int|
                        0 <= p < after.len() implies agent_bounded(#[trigger] after[p]) && (
                    after[p].free_cpus + unfreed_cpus(final(self)@.jobs, after[p].guid)
                        == after[p].cpus) && (after[p].free_ram + unfreed_ram(
                        final(self)@.jobs,
                        after[p].guid,
                    ) == after[p].ram) && (after[p].status == AgentStatus::Init ==> !has_unfreed(
                        final(self)@.jobs,
                        after[p].guid,
                    )) by {
                        let p0 = if p < k {
                            p
                        } else {
                            p + 1
                        };
                        assert(after[p] == before[p0]);
                        assert(agent_bounded(before[p0]));
                    }
                }
                guid
            },
        }
    }

    /// Record an agent's totals from its system-information report and
    /// reset the free counters to them.  Returns whether a row was
    /// affected.  Runs only while the agent has no outstanding sub-jobs:
    /// the broker records system information once, before the agent is
    /// first scheduled onto.
    pub fn update_sys_info(&mut self, guid: &String, sys_info: &SysInfo) -> (r: bool)
        requires
            store_inv(old(self)@),
            !has_unfreed(old(self)@.jobs, guid@),
        ensures
            store_inv(final(self)@),
            ({
                let k = agent_index(old(self)@.agents, guid@);
                if k == -1 {
                    final(self)@ == old(self)@ && !r
                } else {
                    r && final(self)@ == (StoreV {
                        agents: old(self)@.agents.update(
                            k,
                            AgentV {
                                free_cpus: sys_info.cpus as int,
                                free_ram: sys_info.ram as int,
                                cpus: sys_info.cpus as int,
                                ram: sys_info.ram as int,
                                ..old(self)@.agents[k]
                            },
                        ),
                        ..old(self)@
                    })
                }
            }),
            statuses_consistent(old(self)@) ==> statuses_consistent(final(self)@),
    {
        match self.agent_pos(guid) {
            None => false,
            Some(i) => {
                proof {
                    lemma_first_where(old(self)@.agents, |a: AgentV| a.guid == guid@);
                    lemma_unfreed_zero(old(self)@.jobs, guid@);
                }
                self.agents[i].free_cpus = sys_info.cpus;
                self.agents[i].free_ram = sys_info.ram;
                self.agents[i].cpus = sys_info.cpus;
                self.agents[i].ram = sys_info.ram;
                proof {
                    let k = i as int;
                    let before = old(self)@.agents;
                    let after = final(self)@.agents;
                    assert(after =~= before.update(
                        k,
                        AgentV {
                            free_cpus: sys_info.cpus as int,
                            free_ram: sys_info.ram as int,
                            cpus: sys_info.cpus as int,
                            ram: sys_info.ram as int,
                            ..before[k]
                        },
                    ));
                    assert(final(self)@ =~= (StoreV { agents: after, ..old(self)@ }));
                    assert(before[k].guid == guid@);
                }
                true
            },
        }
    }

    /// Set the agent's connection status.  Returns whether a row was
    /// affected.  An agent returns to `init` only by re-registration, so
    /// `init` is not accepted here.
    pub fn update_status(&mut self, guid: &String, status: AgentStatus) -> (r: bool)
        requires
            store_inv(old(self)@),
            status != AgentStatus::Init,
        ensures
            store_inv(final(self)@),
            ({
                let k = agent_index(old(self)@.agents, guid@);
                if k == -1 {
                    final(self)@ == old(self)@ && !r
                } else {
                    r && final(self)@ == (StoreV {
                        agents: old(self)@.agents.update(
                            k,
                            AgentV { status: status, ..old(self)@.agents[k] },
                        ),
                        ..old(self)@
                    })
                }
            }),
            statuses_consistent(old(self)@) ==> statuses_consistent(final(self)@),
    {
        match self.agent_pos(guid) {
            None => false,
            Some(i) => {
                proof {
                    lemma_first_where(old(self)@.agents, |a: AgentV| a.guid == guid@);
                }
                self.agents[i].status = status;
                proof {
                    let k = i as int;
                    let before = old(self)@.agents;
                    assert(final(self)@.agents =~= before.update(
                        k,
                        AgentV { status: status, ..before[k] },
                    ));
                    assert(final(self)@ =~= (StoreV {
                        agents: final(self)@.agents,
                        ..old(self)@
                    }));
                }
                true
            },
        }
    }
}

/// A positive status count names at least one row of the collection with
/// that status.
pub proof fn lemma_count_pos_witness(jobs: Seq<JobV>, coll: Seq<char>, st: JobStatus)
    requires
        count_with_status(jobs, coll, st) > 0,
    ensures
        exists|k: int|
            0 <= k < jobs.len() && (#[trigger] jobs[k]).collection_guid == coll && jobs[k].status
                == st,
    decreases jobs.len(),
{
    if jobs.len() > 0 {
        if jobs.last().collection_guid == coll && jobs.last().status == st {
            assert(jobs[jobs.len() - 1].collection_guid == coll);
        } else {
            lemma_count_pos_witness(jobs.drop_last(), coll, st);
            let k = choose|k: int|
                0 <= k < jobs.drop_last().len() && (#[trigger] jobs.drop_last()[k]).collection_guid
                    == coll && jobs.drop_last()[k].status == st;
            assert(jobs[k].collection_guid == coll && jobs[k].status == st);
        }
    }
}

} // verus!
