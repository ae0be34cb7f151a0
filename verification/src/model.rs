//! Rows of the durable store and the messages exchanged with agents,
//! together with their mathematical views.
//!
//! Every struct has a view type whose string fields are `Seq<char>`, whose
//! numeric fields are `int`, and whose statuses are the enums of
//! [`crate::status`].  Contracts throughout the crate speak of these views.

use vstd::prelude::*;

use crate::status::AgentStatus;
use crate::status::JobStatus;

verus! {

/// The views of a sequence of values, element by element.
pub open spec fn views_of<T: View>(s: Seq<T>) -> Seq<T::V> {
    s.map_values(|t: T| t@)
}

/// A worker host registered with the server.
pub struct Agent {
    pub guid: String,
    pub description: String,
    pub agent_type: String,
    pub endpoint: String,
    pub status: AgentStatus,
    /// CPUs still available for scheduling; zero until system information
    /// is recorded.
    pub free_cpus: u64,
    /// RAM in bytes still available for scheduling.
    pub free_ram: u64,
    /// Total CPUs, set on the first successful system-information call.
    pub cpus: u64,
    /// Total RAM in bytes.
    pub ram: u64,
}

#[verifier::ext_equal]
pub struct AgentV {
    pub guid: Seq<char>,
    pub description: Seq<char>,
    pub agent_type: Seq<char>,
    pub endpoint: Seq<char>,
    pub status: AgentStatus,
    pub free_cpus: int,
    pub free_ram: int,
    pub cpus: int,
    pub ram: int,
}

impl View for Agent {
    type V = AgentV;

    open spec fn view(&self) -> AgentV {
        AgentV {
            guid: self.guid@,
            description: self.description@,
            agent_type: self.agent_type@,
            endpoint: self.endpoint@,
            status: self.status,
            free_cpus: self.free_cpus as int,
            free_ram: self.free_ram as int,
            cpus: self.cpus as int,
            ram: self.ram as int,
        }
    }
}

impl Agent {
    pub fn duplicate(&self) -> (r: Agent)
        ensures
            r@ == self@,
    {
        Agent {
            guid: self.guid.clone(),
            description: self.description.clone(),
            agent_type: self.agent_type.clone(),
            endpoint: self.endpoint.clone(),
            status: self.status,
            free_cpus: self.free_cpus,
            free_ram: self.free_ram,
            cpus: self.cpus,
            ram: self.ram,
        }
    }
}

/// Body of a request that addresses one agent by guid.
pub struct AgentRequest {
    pub guid: String,
}

/// Body of the request that registers a new agent.
pub struct AgentCreateRequest {
    pub description: String,
    pub agent_type: String,
    pub endpoint: String,
}

/// A submitted fuzzing workload: one row per submission, split into
/// sub-jobs across agents.
pub struct JobCollection {
    pub guid: String,
    pub name: String,
    pub description: String,
    pub agent_type: String,
    pub creation_date: String,
    pub cpus: u64,
    pub ram: u64,
    pub timeout: String,
    pub target: String,
    pub corpus: String,
    /// Roll-up of the statuses of the collection's sub-jobs.
    pub status: JobStatus,
}

#[verifier::ext_equal]
pub struct JobCollectionV {
    pub guid: Seq<char>,
    pub name: Seq<char>,
    pub description: Seq<char>,
    pub agent_type: Seq<char>,
    pub creation_date: Seq<char>,
    pub cpus: int,
    pub ram: int,
    pub timeout: Seq<char>,
    pub target: Seq<char>,
    pub corpus: Seq<char>,
    pub status: JobStatus,
}

impl View for JobCollection {
    type V = JobCollectionV;

    open spec fn view(&self) -> JobCollectionV {
        JobCollectionV {
            guid: self.guid@,
            name: self.name@,
            description: self.description@,
            agent_type: self.agent_type@,
            creation_date: self.creation_date@,
            cpus: self.cpus as int,
            ram: self.ram as int,
            timeout: self.timeout@,
            target: self.target@,
            corpus: self.corpus@,
            status: self.status,
        }
    }
}

impl JobCollection {
    pub fn duplicate(&self) -> (r: JobCollection)
        ensures
            r@ == self@,
    {
        JobCollection {
            guid: self.guid.clone(),
            name: self.name.clone(),
            description: self.description.clone(),
            agent_type: self.agent_type.clone(),
            creation_date: self.creation_date.clone(),
            cpus: self.cpus,
            ram: self.ram,
            timeout: self.timeout.clone(),
            target: self.target.clone(),
            corpus: self.corpus.clone(),
            status: self.status,
        }
    }
}

/// A per-agent slice of a job collection.
pub struct Job {
    pub agent_guid: String,
    pub collection_guid: String,
    /// Position within the collection; the sub-job with index zero is the
    /// master and owns crash synchronisation.
    pub idx: u64,
    pub cpus: u64,
    pub ram: u64,
    pub last_msg: String,
    pub status: JobStatus,
    /// Whether this row's resources have been returned to its agent.
    pub freed: bool,
}

#[verifier::ext_equal]
pub struct JobV {
    pub agent_guid: Seq<char>,
    pub collection_guid: Seq<char>,
    pub idx: int,
    pub cpus: int,
    pub ram: int,
    pub last_msg: Seq<char>,
    pub status: JobStatus,
    pub freed: bool,
}

impl View for Job {
    type V = JobV;

    open spec fn view(&self) -> JobV {
        JobV {
            agent_guid: self.agent_guid@,
            collection_guid: self.collection_guid@,
            idx: self.idx as int,
            cpus: self.cpus as int,
            ram: self.ram as int,
            last_msg: self.last_msg@,
            status: self.status,
            freed: self.freed,
        }
    }
}

impl Job {
    pub fn duplicate(&self) -> (r: Job)
        ensures
            r@ == self@,
    {
        Job {
            agent_guid: self.agent_guid.clone(),
            collection_guid: self.collection_guid.clone(),
            idx: self.idx,
            cpus: self.cpus,
            ram: self.ram,
            last_msg: self.last_msg.clone(),
            status: self.status,
            freed: self.freed,
        }
    }
}

/// A fuzzer-produced crashing input, recorded once per
/// `(collection_guid, name)`.
pub struct Crash {
    pub guid: String,
    pub name: String,
    pub collection_guid: String,
    pub analyzed: Option<String>,
    /// Lower-case hex SHA3-256 of the crash file's content.
    pub hash: String,
    pub creation_date: String,
    pub size: u64,
}

#[verifier::ext_equal]
pub struct CrashV {
    pub guid: Seq<char>,
    pub name: Seq<char>,
    pub collection_guid: Seq<char>,
    pub analyzed: Option<Seq<char>>,
    pub hash: Seq<char>,
    pub creation_date: Seq<char>,
    pub size: int,
}

impl View for Crash {
    type V = CrashV;

    open spec fn view(&self) -> CrashV {
        CrashV {
            guid: self.guid@,
            name: self.name@,
            collection_guid: self.collection_guid@,
            analyzed: match self.analyzed {
                Some(s) => Some(s@),
                None => None,
            },
            hash: self.hash@,
            creation_date: self.creation_date@,
            size: self.size as int,
        }
    }
}

impl Crash {
    pub fn duplicate(&self) -> (r: Crash)
        ensures
            r@ == self@,
    {
        Crash {
            guid: self.guid.clone(),
            name: self.name.clone(),
            collection_guid: self.collection_guid.clone(),
            analyzed: match &self.analyzed {
                Some(s) => Some(s.clone()),
                None => None,
            },
            hash: self.hash.clone(),
            creation_date: self.creation_date.clone(),
            size: self.size,
        }
    }
}

/// Counts of job collections by rolled-up status; `alive` also counts
/// collections still in `init`.
pub struct JobStats {
    pub alive: u64,
    pub completed: u64,
    pub error: u64,
}

/// Count of recorded crashes.
pub struct CrashStats {
    pub total: u64,
}

/// A collection row together with its sub-job rows.
pub struct JobInfoResponse {
    pub job_collection: JobCollection,
    pub jobs: Vec<Job>,
}

#[verifier::ext_equal]
pub struct JobInfoResponseV {
    pub job_collection: JobCollectionV,
    pub jobs: Seq<JobV>,
}

impl View for JobInfoResponse {
    type V = JobInfoResponseV;

    open spec fn view(&self) -> JobInfoResponseV {
        JobInfoResponseV {
            job_collection: self.job_collection@,
            jobs: views_of(self.jobs@),
        }
    }
}

/// A sanitised job submission, as handed to the scheduler.
pub struct JobInfo {
    pub guid: String,
    pub name: String,
    pub description: String,
    pub agent_type: String,
    pub image: String,
    pub cpus: u64,
    pub ram: u64,
    pub timeout: String,
    pub target: String,
    pub corpus: String,
    pub crash_auto_analyze: bool,
}

#[verifier::ext_equal]
pub struct JobInfoV {
    pub guid: Seq<char>,
    pub name: Seq<char>,
    pub description: Seq<char>,
    pub agent_type: Seq<char>,
    pub image: Seq<char>,
    pub cpus: int,
    pub ram: int,
    pub timeout: Seq<char>,
    pub target: Seq<char>,
    pub corpus: Seq<char>,
    pub crash_auto_analyze: bool,
}

impl View for JobInfo {
    type V = JobInfoV;

    open spec fn view(&self) -> JobInfoV {
        JobInfoV {
            guid: self.guid@,
            name: self.name@,
            description: self.description@,
            agent_type: self.agent_type@,
            image: self.image@,
            cpus: self.cpus as int,
            ram: self.ram as int,
            timeout: self.timeout@,
            target: self.target@,
            corpus: self.corpus@,
            crash_auto_analyze: self.crash_auto_analyze,
        }
    }
}

/// The payload sent to an agent to start one sub-job.
pub struct JobCreateRequest {
    pub job_guid: String,
    pub image: String,
    pub idx: u64,
    pub cpus: u64,
    pub ram: u64,
    pub timeout: String,
    pub target: String,
    pub corpus: String,
    pub last_msg: String,
    pub status: JobStatus,
    pub crash_auto_analyze: bool,
}

#[verifier::ext_equal]
pub struct JobCreateRequestV {
    pub job_guid: Seq<char>,
    pub image: Seq<char>,
    pub idx: int,
    pub cpus: int,
    pub ram: int,
    pub timeout: Seq<char>,
    pub target: Seq<char>,
    pub corpus: Seq<char>,
    pub last_msg: Seq<char>,
    pub status: JobStatus,
    pub crash_auto_analyze: bool,
}

impl View for JobCreateRequest {
    type V = JobCreateRequestV;

    open spec fn view(&self) -> JobCreateRequestV {
        JobCreateRequestV {
            job_guid: self.job_guid@,
            image: self.image@,
            idx: self.idx as int,
            cpus: self.cpus as int,
            ram: self.ram as int,
            timeout: self.timeout@,
            target: self.target@,
            corpus: self.corpus@,
            last_msg: self.last_msg@,
            status: self.status,
            crash_auto_analyze: self.crash_auto_analyze,
        }
    }
}

impl JobCreateRequest {
    pub fn duplicate(&self) -> (r: JobCreateRequest)
        ensures
            r@ == self@,
    {
        JobCreateRequest {
            job_guid: self.job_guid.clone(),
            image: self.image.clone(),
            idx: self.idx,
            cpus: self.cpus,
            ram: self.ram,
            timeout: self.timeout.clone(),
            target: self.target.clone(),
            corpus: self.corpus.clone(),
            last_msg: self.last_msg.clone(),
            status: self.status,
            crash_auto_analyze: self.crash_auto_analyze,
        }
    }
}

/// One scheduled sub-job: the agent it was placed on and the payload to
/// send it.
pub struct JobRequest {
    pub agent_guid: String,
    pub request: JobCreateRequest,
}

#[verifier::ext_equal]
pub struct JobRequestV {
    pub agent_guid: Seq<char>,
    pub request: JobCreateRequestV,
}

impl View for JobRequest {
    type V = JobRequestV;

    open spec fn view(&self) -> JobRequestV {
        JobRequestV {
            agent_guid: self.agent_guid@,
            request: self.request@,
        }
    }
}

/// An agent host's resources as reported by its system-information call.
pub struct SysInfo {
    pub cpus: u64,
    pub ram: u64,
}

/// A status or progress report for one sub-job, streamed from the agent.
/// The status, when present, carries a wire label from the status domain.
pub struct JobMsg {
    pub guid: String,
    pub status: Option<String>,
    pub last_msg: Option<String>,
    pub log: Option<String>,
}

#[verifier::ext_equal]
pub struct JobMsgV {
    pub guid: Seq<char>,
    pub status: Option<Seq<char>>,
    pub last_msg: Option<Seq<char>>,
    pub log: Option<Seq<char>>,
}

impl View for JobMsg {
    type V = JobMsgV;

    open spec fn view(&self) -> JobMsgV {
        JobMsgV {
            guid: self.guid@,
            status: match self.status {
                Some(s) => Some(s@),
                None => None,
            },
            last_msg: match self.last_msg {
                Some(s) => Some(s@),
                None => None,
            },
            log: match self.log {
                Some(s) => Some(s@),
                None => None,
            },
        }
    }
}

/// A newly materialised crash file, streamed from the agent.
pub struct CrashMsg {
    pub job_guid: String,
    pub name: String,
    pub analyzed: Option<String>,
}

#[verifier::ext_equal]
pub struct CrashMsgV {
    pub job_guid: Seq<char>,
    pub name: Seq<char>,
    pub analyzed: Option<Seq<char>>,
}

impl View for CrashMsg {
    type V = CrashMsgV;

    open spec fn view(&self) -> CrashMsgV {
        CrashMsgV {
            job_guid: self.job_guid@,
            name: self.name@,
            analyzed: match self.analyzed {
                Some(s) => Some(s@),
                None => None,
            },
        }
    }
}

/// The tagged union carried on an agent's update stream.
pub enum UpdateKind {
    JobMsg(JobMsg),
    CrashMsg(CrashMsg),
}

} // verus!
