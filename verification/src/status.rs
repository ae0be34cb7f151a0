//! Status domains of the data model: agent connection states and sub-job
//! lifecycle states, with their wire labels.

use vstd::prelude::*;

verus! {

/// Connection status of a registered agent host.
#[derive(Clone, Copy, Debug, PartialEq, Eq, Structural)]
pub enum AgentStatus {
    /// Registered, system information not yet recorded.
    Init,
    /// A broker session is attached to the agent's update stream.
    Up,
    /// No live broker session.
    Down,
}

/// Lifecycle status of a sub-job, and by roll-up of a job collection.
#[derive(Clone, Copy, Debug, PartialEq, Eq, Structural)]
pub enum JobStatus {
    /// Created, container not yet running.
    Init,
    /// Container running.
    Alive,
    /// Container exited with code zero.
    Completed,
    /// Container exited non-zero, or a lifecycle step failed.
    Error,
}

impl AgentStatus {
    /// The label this status carries on the wire and in the web API.
    pub open spec fn label_spec(self) -> Seq<char> {
        match self {
            AgentStatus::Init => "init"@,
            AgentStatus::Up => "up"@,
            AgentStatus::Down => "down"@,
        }
    }

    pub fn label(&self) -> (s: String)
        ensures
            s@ == self.label_spec(),
    {
        match self {
            AgentStatus::Init => "init".to_owned(),
            AgentStatus::Up => "up".to_owned(),
            AgentStatus::Down => "down".to_owned(),
        }
    }
}

impl JobStatus {
    /// Statuses on which a sub-job's resources are returned to its agent.
    pub open spec fn is_terminal(self) -> bool {
        self == JobStatus::Completed || self == JobStatus::Error
    }

    /// The label this status carries on the wire and in the web API.
    pub open spec fn label_spec(self) -> Seq<char> {
        match self {
            JobStatus::Init => "init"@,
            JobStatus::Alive => "alive"@,
            JobStatus::Completed => "completed"@,
            JobStatus::Error => "error"@,
        }
    }

    pub fn label(&self) -> (s: String)
        ensures
            s@ == self.label_spec(),
    {
        match self {
            JobStatus::Init => "init".to_owned(),
            JobStatus::Alive => "alive".to_owned(),
            JobStatus::Completed => "completed".to_owned(),
            JobStatus::Error => "error".to_owned(),
        }
    }

    /// What a wire status string denotes; `None` for a string outside the
    /// status domain of the data model.
    pub open spec fn parse_spec(s: Seq<char>) -> Option<JobStatus> {
        if s == "init"@ {
            Some(JobStatus::Init)
        } else if s == "alive"@ {
            Some(JobStatus::Alive)
        } else if s == "completed"@ {
            Some(JobStatus::Completed)
        } else if s == "error"@ {
            Some(JobStatus::Error)
        } else {
            None
        }
    }

    pub fn parse(s: &String) -> (r: Option<JobStatus>)
        ensures
            r == JobStatus::parse_spec(s@),
    {
        if *s == "init".to_owned() {
            Some(JobStatus::Init)
        } else if *s == "alive".to_owned() {
            Some(JobStatus::Alive)
        } else if *s == "completed".to_owned() {
            Some(JobStatus::Completed)
        } else if *s == "error".to_owned() {
            Some(JobStatus::Error)
        } else {
            None
        }
    }
}

/// Round trip between a status and its wire label: parsing a label gives the
/// status back.
pub proof fn lemma_status_label_round_trip(st: JobStatus)
    ensures
        JobStatus::parse_spec(st.label_spec()) == Some(st),
{
    reveal_strlit("init");
    reveal_strlit("alive");
    reveal_strlit("completed");
    reveal_strlit("error");
    assert("init"@.len() == 4);
    assert("alive"@.len() == 5);
    assert("completed"@.len() == 9);
    assert("error"@.len() == 5);
    assert("error"@[0] == 'e' && "alive"@[0] == 'a');
}

} // verus!
