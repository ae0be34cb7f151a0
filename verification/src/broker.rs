//! The broker's decisions: what one agent session writes to the store at
//! each step of its life.  The session's transports (the three RPC
//! clients and the update stream) live outside the crate; every message
//! or failure they produce is handed in here as a plain value.

use vstd::prelude::*;

use crate::lifecycle::complete_job_spec;
use crate::lifecycle::set_job_last_msg_spec;
use crate::lifecycle::set_job_status_spec;
use crate::model::AgentV;
use crate::model::CrashMsg;
use crate::model::JobMsg;
use crate::model::JobMsgV;
use crate::model::CrashMsgV;
use crate::model::SysInfo;
use crate::model::UpdateKind;
use crate::status::AgentStatus;
use crate::status::JobStatus;
use crate::store::Store;
use crate::store::StoreV;
use crate::store::agent_index;
use crate::store::has_unfreed;
use crate::store::store_inv;
use crate::store::statuses_consistent;

verus! {

pub enum UpdateKindV {
    JobMsg(JobMsgV),
    CrashMsg(CrashMsgV),
}

impl View for UpdateKind {
    type V = UpdateKindV;

    open spec fn view(&self) -> UpdateKindV {
        match self {
            UpdateKind::JobMsg(m) => UpdateKindV::JobMsg(m@),
            UpdateKind::CrashMsg(c) => UpdateKindV::CrashMsg(c@),
        }
    }
}

/// What one update-stream item writes to the store.  A terminal status
/// completes the sub-job; another status label from the domain updates
/// it; a label outside the domain is ignored; a message alone updates the
/// message.  A crash report writes nothing here: the caller must fetch
/// the file and record it.
pub open spec fn broker_update_spec(s: StoreV, agent: Seq<char>, u: UpdateKindV) -> StoreV {
    match u {
        UpdateKindV::JobMsg(m) => match m.status {
            Some(label) => match JobStatus::parse_spec(label) {
                Some(st) => if st.is_terminal() {
                    complete_job_spec(
                        s,
                        agent,
                        m.guid,
                        match m.last_msg {
                            Some(x) => x,
                            None => Seq::empty(),
                        },
                        st,
                    )
                } else {
                    set_job_status_spec(s, agent, m.guid, st)
                },
                None => s,
            },
            None => match m.last_msg {
                Some(x) => set_job_last_msg_spec(s, agent, m.guid, x),
                None => s,
            },
        },
        UpdateKindV::CrashMsg(_) => s,
    }
}

impl Store {
    /// A connect attempt to the agent failed: if the agent was `up`,
    /// write it `down`.  Other rows, and an unknown guid, are left alone.
    pub fn broker_connect_failed(&mut self, guid: &String)
        requires
            store_inv(old(self)@),
        ensures
            store_inv(final(self)@),
            statuses_consistent(old(self)@) ==> statuses_consistent(final(self)@),
            ({
                let k = agent_index(old(self)@.agents, guid@);
                if k != -1 && old(self)@.agents[k].status == AgentStatus::Up {
                    final(self)@ == (StoreV {
                        agents: old(self)@.agents.update(
                            k,
                            AgentV { status: AgentStatus::Down, ..old(self)@.agents[k] },
                        ),
                        ..old(self)@
                    })
                } else {
                    final(self)@ == old(self)@
                }
            }),
    {
        let was_up = match self.get_by_guid(guid) {
            Some(a) => a.status == AgentStatus::Up,
            None => false,
        };
        if was_up {
            self.update_status(guid, AgentStatus::Down);
        }
    }

    /// The first successful system-information call of a freshly
    /// registered agent: record totals, reset the free counters to them,
    /// and move the agent to `down`, awaiting stream attach.  An agent
    /// past `init` is left alone.
    pub fn broker_register_sysinfo(&mut self, guid: &String, sys_info: &SysInfo)
        requires
            store_inv(old(self)@),
        ensures
            store_inv(final(self)@),
            statuses_consistent(old(self)@) ==> statuses_consistent(final(self)@),
            ({
                let k = agent_index(old(self)@.agents, guid@);
                if k != -1 && old(self)@.agents[k].status == AgentStatus::Init {
                    final(self)@ == (StoreV {
                        agents: old(self)@.agents.update(
                            k,
                            AgentV {
                                status: AgentStatus::Down,
                                free_cpus: sys_info.cpus as int,
                                free_ram: sys_info.ram as int,
                                cpus: sys_info.cpus as int,
                                ram: sys_info.ram as int,
                                ..old(self)@.agents[k]
                            },
                        ),
                        ..old(self)@
                    })
                } else {
                    final(self)@ == old(self)@
                }
            }),
    {
        let is_init = match self.get_by_guid(guid) {
            Some(a) => a.status == AgentStatus::Init,
            None => false,
        };
        if is_init {
            proof {
                let k = agent_index(old(self)@.agents, guid@);
                crate::seq_util::lemma_first_where(
                    old(self)@.agents,
                    |a: AgentV| a.guid == guid@,
                );
                assert(old(self)@.agents[k].guid == guid@);
                assert(!has_unfreed(old(self)@.jobs, guid@));
            }
            self.update_sys_info(guid, sys_info);
            self.update_status(guid, AgentStatus::Down);
            proof {
                let prev = old(self)@;
                let k = agent_index(prev.agents, guid@);
                let mid = StoreV {
                    agents: prev.agents.update(
                        k,
                        AgentV {
                            free_cpus: sys_info.cpus as int,
                            free_ram: sys_info.ram as int,
                            cpus: sys_info.cpus as int,
                            ram: sys_info.ram as int,
                            ..prev.agents[k]
                        },
                    ),
                    ..prev
                };
                assert(agent_index(mid.agents, guid@) == k) by {
                    crate::seq_util::lemma_first_where(prev.agents, |a: AgentV| a.guid == guid@);
                    assert forall|j: int| 0 <= j < k implies !((#[trigger] mid.agents[j]).guid
                        == guid@) by {
                        assert(mid.agents[j] == prev.agents[j]);
                    }
                    assert(mid.agents[k].guid == guid@);
                    crate::seq_util::lemma_first_where_is(
                        mid.agents,
                        |a: AgentV| a.guid == guid@,
                        k,
                    );
                }
                assert(final(self)@.agents =~= prev.agents.update(
                    k,
                    AgentV {
                        status: AgentStatus::Down,
                        free_cpus: sys_info.cpus as int,
                        free_ram: sys_info.ram as int,
                        cpus: sys_info.cpus as int,
                        ram: sys_info.ram as int,
                        ..prev.agents[k]
                    },
                ));
                assert(final(self)@ =~= (StoreV {
                    agents: final(self)@.agents,
                    ..prev
                }));
            }
        }
    }

    /// Apply one update-stream item.  The returned crash report, when
    /// present, still has to be materialised: the caller reads the crash
    /// file and hands it to [`Store::new_crash`].
    pub fn broker_handle_update(&mut self, agent_guid: &String, upd: UpdateKind) -> (r: Option<
        CrashMsg,
    >)
        requires
            store_inv(old(self)@),
        ensures
            store_inv(final(self)@),
            statuses_consistent(old(self)@) ==> statuses_consistent(final(self)@),
            final(self)@ == broker_update_spec(old(self)@, agent_guid@, upd@),
            match r {
                Some(c) => upd@ matches UpdateKindV::CrashMsg(cv) && c@ == cv,
                None => !(upd@ matches UpdateKindV::CrashMsg(_)),
            },
    {
        match upd {
            UpdateKind::JobMsg(m) => {
                let JobMsg { guid, status, last_msg, log: _ } = m;
                match status {
                    Some(label) => {
                        match JobStatus::parse(&label) {
                            Some(st) => {
                                let terminal = st == JobStatus::Completed || st
                                    == JobStatus::Error;
                                if terminal {
                                    let msg = match last_msg {
                                        Some(x) => x,
                                        None => String::new(),
                                    };
                                    self.complete_job(agent_guid, &guid, &msg, st);
                                } else {
                                    self.set_job_status(agent_guid, &guid, st);
                                }
                            },
                            None => {},
                        }
                    },
                    None => {
                        match last_msg {
                            Some(x) => {
                                self.set_job_last_msg(agent_guid, &guid, &x);
                            },
                            None => {},
                        }
                    },
                }
                None
            },
            UpdateKind::CrashMsg(c) => Some(c),
        }
    }

    /// The agent refused or failed a sub-job creation: complete the
    /// sub-job as failed with the transport's message, returning its
    /// resources.
    pub fn broker_job_create_failed(&mut self, agent_guid: &String, job_guid: &String, err: &String)
        requires
            store_inv(old(self)@),
        ensures
            store_inv(final(self)@),
            statuses_consistent(old(self)@) ==> statuses_consistent(final(self)@),
            final(self)@ == complete_job_spec(
                old(self)@,
                agent_guid@,
                job_guid@,
                err@,
                JobStatus::Error,
            ),
    {
        self.complete_job(agent_guid, job_guid, err, JobStatus::Error);
    }
}

} // verus!
