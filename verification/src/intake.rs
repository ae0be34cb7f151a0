//! Validation of what the HTTP surface hands in: job submissions and
//! agent registrations, plus the fan-out of stop commands.

use vstd::prelude::*;

use crate::dispatch::Event;
use crate::dispatch::EventV;
use crate::dispatch::Request;
use crate::dispatch::RequestV;
use crate::model::Agent;
use crate::model::AgentCreateRequest;
use crate::model::AgentV;
use crate::model::JobInfo;
use crate::model::JobInfoResponse;
use crate::model::JobInfoV;
use crate::status::AgentStatus;
use crate::wrappers::parses_as_duration;

verus! {

/// Why a submission was rejected before scheduling.
#[derive(Clone, Copy, Debug, PartialEq, Eq, Structural)]
pub enum SubmitError {
    NoImage,
    NoCpus,
    BadTimeout,
    NoTarget,
    NoCorpus,
}

impl SubmitError {
    /// The message shown to the submitter.
    pub fn message(&self) -> (s: String)
        ensures
            s@ == match self {
                SubmitError::NoImage => "you haven't specified image"@,
                SubmitError::NoCpus => "you haven't number of cpu cores"@,
                SubmitError::BadTimeout => "invalid timeout format"@,
                SubmitError::NoTarget => "you haven't specified target.zip"@,
                SubmitError::NoCorpus => "you haven't specified corpus.zip"@,
            },
    {
        match self {
            SubmitError::NoImage => "you haven't specified image".to_owned(),
            SubmitError::NoCpus => "you haven't number of cpu cores".to_owned(),
            SubmitError::BadTimeout => "invalid timeout format".to_owned(),
            SubmitError::NoTarget => "you haven't specified target.zip".to_owned(),
            SubmitError::NoCorpus => "you haven't specified corpus.zip".to_owned(),
        }
    }
}

/// The first failing check, in intake order.  The timeout check fires
/// only on an empty timeout that also fails the duration grammar, which
/// an empty string always does; a non-empty but malformed timeout is let
/// through unchanged.
pub open spec fn sanitize_spec(info: JobInfoV) -> Result<(), SubmitError> {
    if info.agent_type == "linux"@ && info.image.len() == 0 {
        Err(SubmitError::NoImage)
    } else if info.cpus == 0 {
        Err(SubmitError::NoCpus)
    } else if info.timeout.len() == 0 && !parses_as_duration(info.timeout) {
        Err(SubmitError::BadTimeout)
    } else if info.target.len() == 0 {
        Err(SubmitError::NoTarget)
    } else if info.corpus.len() == 0 {
        Err(SubmitError::NoCorpus)
    } else {
        Ok(())
    }
}

/// Validate a submission before it reaches the scheduler.
pub fn sanitize_job_info(job_info: &JobInfo) -> (r: Result<(), SubmitError>)
    ensures
        r == sanitize_spec(job_info@),
{
    let empty = String::new();
    proof {
        assert(empty@ =~= Seq::<char>::empty());
    }
    if job_info.agent_type == "linux".to_owned() && job_info.image == empty {
        return Err(SubmitError::NoImage);
    }
    proof {
        if job_info.agent_type@ == "linux"@ {
            assert(job_info.image@.len() != 0) by {
                if job_info.image@.len() == 0 {
                    assert(job_info.image@ =~= empty@);
                }
            }
        }
    }
    if job_info.cpus == 0 {
        return Err(SubmitError::NoCpus);
    }
    if job_info.timeout == empty && !crate::wrappers::duration_parses(job_info.timeout.as_str()) {
        return Err(SubmitError::BadTimeout);
    }
    proof {
        if job_info.timeout@.len() == 0 {
            assert(job_info.timeout@ =~= empty@);
        }
    }
    if job_info.target == empty {
        return Err(SubmitError::NoTarget);
    }
    proof {
        assert(job_info.target@.len() != 0) by {
            if job_info.target@.len() == 0 {
                assert(job_info.target@ =~= empty@);
            }
        }
    }
    if job_info.corpus == empty {
        return Err(SubmitError::NoCorpus);
    }
    proof {
        assert(job_info.corpus@.len() != 0) by {
            if job_info.corpus@.len() == 0 {
                assert(job_info.corpus@ =~= empty@);
            }
        }
    }
    Ok(())
}

/// Build the agent row a registration inserts: only the `linux` agent
/// type is supported; the row starts in `init` with no recorded
/// resources.
pub fn make_agent(req: AgentCreateRequest, guid: String) -> (r: Option<Agent>)
    ensures
        match r {
            Some(a) => req.agent_type@ == "linux"@ && a@ == (AgentV {
                guid: guid@,
                description: req.description@,
                agent_type: req.agent_type@,
                endpoint: req.endpoint@,
                status: AgentStatus::Init,
                free_cpus: 0,
                free_ram: 0,
                cpus: 0,
                ram: 0,
            }),
            None => req.agent_type@ != "linux"@,
        },
{
    if req.agent_type == "linux".to_owned() {
        Some(
            Agent {
                guid: guid,
                description: req.description,
                agent_type: req.agent_type,
                endpoint: req.endpoint,
                status: AgentStatus::Init,
                free_cpus: 0,
                free_ram: 0,
                cpus: 0,
                ram: 0,
            },
        )
    } else {
        None
    }
}

/// One stop command per sub-job of the collection, addressed to the
/// agent that runs it.  Stop is per sub-job: each chosen agent stops its
/// own slice independently.
pub fn stop_requests(resp: &JobInfoResponse) -> (r: Vec<Event>)
    ensures
        r@.len() == resp@.jobs.len(),
        forall|k: int|
            0 <= k < r@.len() ==> (#[trigger] r@[k])@ == EventV::AgentRequest(
                resp@.jobs[k].agent_guid,
                RequestV::JobStop(resp@.job_collection.guid),
            ),
{
    let mut out: Vec<Event> = Vec::new();
    let n = resp.jobs.len();
    for i in 0..n
        invariant
            n == resp.jobs@.len(),
            out@.len() == i,
            forall|k: int|
                0 <= k < i ==> (#[trigger] out@[k])@ == EventV::AgentRequest(
                    resp@.jobs[k].agent_guid,
                    RequestV::JobStop(resp@.job_collection.guid),
                ),
    {
        let e = Event::AgentRequest {
            guid: resp.jobs[i].agent_guid.clone(),
            request: Request::JobStop { guid: resp.job_collection.guid.clone() },
        };
        proof {
            assert(resp@.jobs[i as int] == (resp.jobs@[i as int])@);
        }
        out.push(e);
    }
    out
}

} // verus!
