//! The agent-side job runner's decisions: what each container event
//! writes to the job table and emits on the update stream, which crash
//! files a sync tick copies, and the strings the container is created
//! with.  Pulling images, running containers and walking directories
//! happen outside the crate; their outcomes are handed in as plain
//! values.

use vstd::prelude::*;

use crate::agent_jobs::Jobs;
use crate::agent_jobs::entries_distinct;
use crate::agent_jobs::entry_index;
use crate::model::JobCreateRequestV;
use crate::model::JobMsg;
use crate::model::JobMsgV;
use crate::model::views_of;
use crate::status::JobStatus;
use crate::util::dec_str;

verus! {

/// The terminal status a container exit decides: code zero is a clean
/// completion, anything else an error.
pub open spec fn exit_status_spec(code: int) -> JobStatus {
    if code == 0 {
        JobStatus::Completed
    } else {
        JobStatus::Error
    }
}

pub fn exit_status(code: i64) -> (r: JobStatus)
    ensures
        r == exit_status_spec(code as int),
{
    if code == 0 {
        JobStatus::Completed
    } else {
        JobStatus::Error
    }
}

/// Whether a stop request for this guid may proceed.
pub enum StopDecision {
    /// No such sub-job on this agent.
    NotFound,
    /// The sub-job already reached a terminal status.
    Finished,
    /// The container may be stopped.
    CanStop,
}

/// A stop is valid only for a known sub-job that is still `init` or
/// `alive`; a terminal sub-job rejects it, an unknown guid is reported
/// as missing.
pub fn stop_check(jobs: &Jobs, guid: &String) -> (r: StopDecision)
    ensures
        ({
            let k = entry_index(jobs@, guid@);
            match r {
                StopDecision::NotFound => k == -1,
                StopDecision::Finished => k != -1 && jobs@[k].status.is_terminal(),
                StopDecision::CanStop => k != -1 && (jobs@[k].status == JobStatus::Init
                    || jobs@[k].status == JobStatus::Alive),
            }
        }),
{
    match jobs.get_status(guid) {
        None => StopDecision::NotFound,
        Some(st) => {
            if st == JobStatus::Init || st == JobStatus::Alive {
                StopDecision::CanStop
            } else {
                StopDecision::Finished
            }
        },
    }
}

/// Whether a name occurs in a list of file names.
pub open spec fn contains_name(s: Seq<Seq<char>>, n: Seq<char>) -> bool {
    exists|k: int| 0 <= k < s.len() && #[trigger] s[k] == n
}

/// The crash files one sync tick copies: each found name that is not yet
/// materialised, first occurrence only.  Copying is idempotent: a second
/// tick over the same directories plans nothing.
pub open spec fn sync_plan(existing: Seq<Seq<char>>, found: Seq<Seq<char>>) -> Seq<Seq<char>>
    decreases found.len(),
{
    if found.len() == 0 {
        Seq::empty()
    } else {
        let rest = sync_plan(existing, found.drop_last());
        if !contains_name(existing, found.last()) && !contains_name(
            found.drop_last(),
            found.last(),
        ) {
            rest.push(found.last())
        } else {
            rest
        }
    }
}

/// Whether a name occurs in a list of file names.
fn name_in(names: &Vec<String>, name: &String) -> (b: bool)
    ensures
        b == contains_name(views_of(names@), name@),
{
    let n = names.len();
    for k in 0..n
        invariant
            n == names@.len(),
            forall|j: int| 0 <= j < k ==> (#[trigger] names@[j])@ != name@,
    {
        if names[k] == *name {
            assert(views_of(names@)[k as int] == name@);
            return true;
        }
    }
    assert forall|j: int|
        0 <= j < views_of(names@).len() implies (#[trigger] views_of(names@)[j]) != name@ by {
        assert(views_of(names@)[j] == (names@[j])@);
    }
    false
}

/// Plan one crash-sync tick: `existing` are the names already under the
/// job's `crashes/` directory, `found` the names found under the
/// workers' result directories, in walk order.
#[verifier::loop_isolation(false)]
pub fn plan_crash_sync(existing: &Vec<String>, found: &Vec<String>) -> (r: Vec<String>)
    ensures
        views_of(r@) == sync_plan(views_of(existing@), views_of(found@)),
{
    let ghost existv = views_of(existing@);
    let ghost foundv = views_of(found@);
    let mut out: Vec<String> = Vec::new();
    let n = found.len();
    for i in 0..n
        invariant
            n == found@.len(),
            views_of(out@) == sync_plan(existv, foundv.take(i as int)),
    {
        proof {
            assert(foundv.take(i + 1).drop_last() =~= foundv.take(i as int));
            assert(foundv.take(i + 1).last() == foundv[i as int]);
        }
        let ghost pre = views_of(out@);
        let mut seen_before = false;
        let cur = &found[i];
        assert(cur@ == foundv[i as int]);
        for j in 0..i
            invariant
                i < n == found@.len(),
                cur@ == foundv[i as int],
                seen_before == contains_name(foundv.take(i as int).take(j as int), cur@),
        {
            proof {
                assert(foundv.take(i as int).take(j + 1).drop_last() =~= foundv.take(
                    i as int,
                ).take(j as int));
                assert(foundv.take(i as int).take(j + 1).last() == foundv[j as int]);
            }
            if !seen_before && found[j] == *cur {
                proof {
                    assert(foundv.take(i as int).take(j + 1)[j as int] == foundv[j as int]);
                    assert(contains_name(foundv.take(i as int).take(j + 1), cur@));
                }
                seen_before = true;
            } else {
                proof {
                    if !seen_before {
                        assert forall|x: int|
                            0 <= x < j + 1 implies (#[trigger] foundv.take(i as int).take(j + 1)[x])
                            != cur@ by {
                            if x < j {
                                assert(foundv.take(i as int).take(j as int)[x] == foundv.take(
                                    i as int,
                                ).take(j + 1)[x]);
                            } else {
                                assert(foundv.take(i as int).take(j + 1)[x] == foundv[j as int]);
                            }
                        }
                    } else {
                        let w = choose|w: int|
                            0 <= w < j && #[trigger] foundv.take(i as int).take(j as int)[w]
                                == cur@;
                        assert(foundv.take(i as int).take(j + 1)[w] == cur@);
                    }
                }
            }
        }
        proof {
            assert(foundv.take(i as int).take(i as int) =~= foundv.take(i as int));
        }
        if !seen_before && !name_in(existing, cur) {
            let g = cur.clone();
            out.push(g);
            proof {
                assert(views_of(out@) =~= pre.push(foundv[i as int]));
            }
        } else {
            proof {
                assert(views_of(out@) =~= pre);
            }
        }
    }
    proof {
        assert(foundv.take(n as int) =~= foundv);
    }
    out
}

/// Record one image-pull progress line: mirror it into the job table and
/// emit it on the update stream.
pub fn record_pull_progress(jobs: &mut Jobs, guid: &String, line: String) -> (m: JobMsg)
    requires
        entries_distinct(old(jobs)@),
    ensures
        entries_distinct(final(jobs)@),
        ({
            let k = entry_index(old(jobs)@, guid@);
            if k == -1 {
                final(jobs)@ == old(jobs)@
            } else {
                final(jobs)@ == old(jobs)@.update(
                    k,
                    JobCreateRequestV { last_msg: line@, ..old(jobs)@[k] },
                )
            }
        }),
        m@ == (JobMsgV { guid: guid@, status: None, last_msg: Some(line@), log: None }),
{
    let copy = line.clone();
    jobs.set_last_msg(guid, copy);
    JobMsg { guid: guid.clone(), status: None, last_msg: Some(line), log: None }
}

/// Record a container start: the sub-job is `alive`.
pub fn record_started(jobs: &mut Jobs, guid: &String) -> (m: JobMsg)
    requires
        entries_distinct(old(jobs)@),
    ensures
        entries_distinct(final(jobs)@),
        ({
            let k = entry_index(old(jobs)@, guid@);
            if k == -1 {
                final(jobs)@ == old(jobs)@
            } else {
                final(jobs)@ == old(jobs)@.update(
                    k,
                    JobCreateRequestV { status: JobStatus::Alive, ..old(jobs)@[k] },
                )
            }
        }),
        m@ == (JobMsgV {
            guid: guid@,
            status: Some(JobStatus::Alive.label_spec()),
            last_msg: Some("Container started"@),
            log: None,
        }),
{
    jobs.set_status(guid, JobStatus::Alive);
    JobMsg {
        guid: guid.clone(),
        status: Some(JobStatus::Alive.label()),
        last_msg: Some("Container started".to_owned()),
        log: None,
    }
}

/// Record a container exit: code zero completes the sub-job, anything
/// else fails it, with the container's log attached.
pub fn record_exit(jobs: &mut Jobs, guid: &String, exit_code: i64, log: String) -> (m: JobMsg)
    requires
        entries_distinct(old(jobs)@),
    ensures
        entries_distinct(final(jobs)@),
        ({
            let k = entry_index(old(jobs)@, guid@);
            let st = exit_status_spec(exit_code as int);
            if k == -1 {
                final(jobs)@ == old(jobs)@
            } else {
                final(jobs)@ == old(jobs)@.update(
                    k,
                    JobCreateRequestV { status: st, ..old(jobs)@[k] },
                )
            }
        }),
        m@ == (JobMsgV {
            guid: guid@,
            status: Some(exit_status_spec(exit_code as int).label_spec()),
            last_msg: Some("exited"@),
            log: Some(log@),
        }),
{
    let st = exit_status(exit_code);
    jobs.set_status(guid, st);
    JobMsg {
        guid: guid.clone(),
        status: Some(st.label()),
        last_msg: Some("exited".to_owned()),
        log: Some(log),
    }
}

/// Record a lifecycle failure: the sub-job errors with the failure text
/// and whatever log could still be read.
pub fn record_failure(jobs: &mut Jobs, guid: &String, err: String, log: Option<String>) -> (m:
    JobMsg)
    requires
        entries_distinct(old(jobs)@),
    ensures
        entries_distinct(final(jobs)@),
        ({
            let k = entry_index(old(jobs)@, guid@);
            if k == -1 {
                final(jobs)@ == old(jobs)@
            } else {
                final(jobs)@ == old(jobs)@.update(
                    k,
                    JobCreateRequestV { status: JobStatus::Error, ..old(jobs)@[k] },
                )
            }
        }),
        m@ == (JobMsgV {
            guid: guid@,
            status: Some(JobStatus::Error.label_spec()),
            last_msg: Some(err@),
            log: match log {
                Some(l) => Some(l@),
                None => None,
            },
        }),
{
    jobs.set_status(guid, JobStatus::Error);
    JobMsg { guid: guid.clone(), status: Some(JobStatus::Error.label()), last_msg: Some(err), log }
}

/// The bind mount that puts the job directory at `/work` in the
/// container.
pub fn bind_mount(job_dir: &str) -> (r: String)
    ensures
        r@ == job_dir@ + ":/work"@,
{
    let mut s = String::new();
    s.append(job_dir);
    s.append(":/work");
    proof {
        assert(s@ =~= job_dir@ + ":/work"@);
    }
    s
}

/// The container's environment: its worker index, its CPU share, and
/// where the fuzzer lives.
pub fn container_env(idx: u64, cpus: u64) -> (r: Vec<String>)
    ensures
        r@.len() == 3,
        (r@[0])@ == "ID="@ + dec_str(idx as int),
        (r@[1])@ == "CPUS="@ + dec_str(cpus as int),
        (r@[2])@ == "FUZZ_DIR=/root/fuzz"@,
{
    let mut id_var = String::new();
    id_var.append("ID=");
    let id_num = crate::util::u64_to_string(idx);
    id_var.append(id_num.as_str());
    proof {
        assert(id_var@ =~= "ID="@ + dec_str(idx as int));
    }
    let mut cpus_var = String::new();
    cpus_var.append("CPUS=");
    let cpus_num = crate::util::u64_to_string(cpus);
    cpus_var.append(cpus_num.as_str());
    proof {
        assert(cpus_var@ =~= "CPUS="@ + dec_str(cpus as int));
    }
    let mut out: Vec<String> = Vec::new();
    out.push(id_var);
    out.push(cpus_var);
    out.push("FUZZ_DIR=/root/fuzz".to_owned());
    out
}

/// The in-container analyzer endpoint, on the fixed analysis port.
pub fn analyzer_endpoint(ip: &str) -> (r: String)
    ensures
        r@ == "http://"@ + ip@ + ":50051"@,
{
    let mut s = String::new();
    s.append("http://");
    s.append(ip);
    s.append(":50051");
    proof {
        assert(s@ =~= "http://"@ + ip@ + ":50051"@);
    }
    s
}

/// The exclusive holder of the agent's update stream: at any time at
/// most one server may subscribe; a second attach is refused until the
/// first detaches.
pub struct UpdateSlot {
    pub taken: bool,
}

impl UpdateSlot {
    pub fn new() -> (r: UpdateSlot)
        ensures
            !r.taken,
    {
        UpdateSlot { taken: false }
    }

    /// Claim the stream: succeeds only when nobody holds it.
    pub fn try_attach(&mut self) -> (r: bool)
        ensures
            final(self).taken,
            r == !old(self).taken,
    {
        if self.taken {
            false
        } else {
            self.taken = true;
            true
        }
    }

    /// Release the stream on disconnect.
    pub fn detach(&mut self)
        ensures
            !final(self).taken,
    {
        self.taken = false;
    }
}

} // verus!
