//! The dispatcher: the single owner of the `guid -> inbox` map, driven by
//! an event stream.  The map itself is modeled here; creating channels,
//! spawning broker tasks and sending on inboxes are actions handed back
//! to the caller.

use vstd::prelude::*;

use crate::model::Agent;
use crate::model::JobCreateRequest;
use crate::model::JobCreateRequestV;
use crate::model::views_of;
use crate::seq_util::first_where;
use crate::seq_util::lemma_first_where_is;
use crate::seq_util::lemma_first_where_none;

verus! {

/// A command for one agent, carried through its broker's inbox.
pub enum Request {
    JobCreate { job: JobCreateRequest },
    JobStop { guid: String },
}

pub enum RequestV {
    JobCreate(JobCreateRequestV),
    JobStop(Seq<char>),
}

impl View for Request {
    type V = RequestV;

    open spec fn view(&self) -> RequestV {
        match self {
            Request::JobCreate { job } => RequestV::JobCreate(job@),
            Request::JobStop { guid } => RequestV::JobStop(guid@),
        }
    }
}

/// An input to the dispatcher.
pub enum Event {
    NewAgent { guid: String },
    DelAgent { guid: String },
    AgentRequest { guid: String, request: Request },
}

pub enum EventV {
    NewAgent(Seq<char>),
    DelAgent(Seq<char>),
    AgentRequest(Seq<char>, RequestV),
}

impl View for Event {
    type V = EventV;

    open spec fn view(&self) -> EventV {
        match self {
            Event::NewAgent { guid } => EventV::NewAgent(guid@),
            Event::DelAgent { guid } => EventV::DelAgent(guid@),
            Event::AgentRequest { guid, request } => EventV::AgentRequest(guid@, request@),
        }
    }
}

/// What the caller must do after one event is applied.
pub enum DispatchAction {
    /// Nothing: the event was a no-op or is fully absorbed by the map.
    Idle,
    /// Create an inbox for this guid and spawn its broker session.
    Spawn { guid: String },
    /// Send the request on this guid's inbox, blocking under backpressure.
    Forward { guid: String, request: Request },
}

pub open spec fn known_index(known: Seq<Seq<char>>, guid: Seq<char>) -> int {
    first_where(known, |g: Seq<char>| g == guid)
}

pub open spec fn knows(known: Seq<Seq<char>>, guid: Seq<char>) -> bool {
    known_index(known, guid) != -1
}

pub open spec fn known_distinct(known: Seq<Seq<char>>) -> bool {
    forall|p: int, q: int| 0 <= p < q < known.len() ==> (#[trigger] known[p]) != (
    #[trigger] known[q])
}

/// The dispatcher's state: the guids that currently have an inbox and a
/// broker session.
pub struct Dispatcher {
    pub known: Vec<String>,
}

impl View for Dispatcher {
    type V = Seq<Seq<char>>;

    open spec fn view(&self) -> Seq<Seq<char>> {
        views_of(self.known@)
    }
}

impl Dispatcher {
    pub fn new() -> (d: Dispatcher)
        ensures
            d@.len() == 0,
            known_distinct(d@),
    {
        Dispatcher { known: Vec::new() }
    }

    /// Position of a guid in the map.
    fn pos(&self, guid: &String) -> (r: Option<usize>)
        ensures
            match r {
                Some(i) => i < self@.len() && known_index(self@, guid@) == i as int,
                None => known_index(self@, guid@) == -1,
            },
    {
        let n = self.known.len();
        for i in 0..n
            invariant
                n == self@.len(),
                forall|j: int| 0 <= j < i ==> (#[trigger] self@[j]) != guid@,
        {
            if self.known[i] == *guid {
                proof {
                    lemma_first_where_is(self@, |g: Seq<char>| g == guid@, i as int);
                }
                return Some(i);
            }
        }
        proof {
            lemma_first_where_none(self@, |g: Seq<char>| g == guid@);
        }
        None
    }

    /// Apply one event.  A `NewAgent` for an unknown guid registers it and
    /// asks the caller to spawn its broker; one for a known guid is a
    /// no-op.  `DelAgent` removes the entry, which closes the inbox.  An
    /// `AgentRequest` is forwarded when the guid is known and silently
    /// dropped when it is not.
    pub fn handle_event(&mut self, event: Event) -> (r: DispatchAction)
        requires
            known_distinct(old(self)@),
        ensures
            known_distinct(final(self)@),
            match event@ {
                EventV::NewAgent(g) => {
                    if knows(old(self)@, g) {
                        final(self)@ == old(self)@ && (r matches DispatchAction::Idle)
                    } else {
                        final(self)@ == old(self)@.push(g) && (r matches DispatchAction::Spawn {
                            guid,
                        } && guid@ == g)
                    }
                },
                EventV::DelAgent(g) => {
                    &&& (r matches DispatchAction::Idle)
                    &&& if knows(old(self)@, g) {
                        final(self)@ == old(self)@.remove(known_index(old(self)@, g))
                    } else {
                        final(self)@ == old(self)@
                    }
                },
                EventV::AgentRequest(g, reqv) => {
                    &&& final(self)@ == old(self)@
                    &&& if knows(old(self)@, g) {
                        r matches DispatchAction::Forward { guid, request } && guid@ == g
                            && request@ == reqv
                    } else {
                        r matches DispatchAction::Idle
                    }
                },
            },
    {
        match event {
            Event::NewAgent { guid } => {
                match self.pos(&guid) {
                    Some(_) => DispatchAction::Idle,
                    None => {
                        let spawn_guid = guid.clone();
                        let ghost pre = self@;
                        self.known.push(guid);
                        proof {
                            assert(final(self)@ =~= pre.push(spawn_guid@));
                            assert forall|p: int, q: int|
                                0 <= p < q < final(self)@.len() implies (#[trigger] final(self)@[p]) != (#[trigger] final(self)@[q]) by {
                                if q == final(self)@.len() - 1 {
                                    crate::seq_util::lemma_first_where(
                                        pre,
                                        |g: Seq<char>| g == spawn_guid@,
                                    );
                                    assert(final(self)@[p] == pre[p]);
                                }
                            }
                        }
                        DispatchAction::Spawn { guid: spawn_guid }
                    },
                }
            },
            Event::DelAgent { guid } => {
                match self.pos(&guid) {
                    Some(i) => {
                        let ghost pre = self@;
                        self.known.remove(i);
                        proof {
                            assert(final(self)@ =~= pre.remove(i as int));
                            assert forall|p: int, q: int|
                                0 <= p < q < final(self)@.len() implies (#[trigger] final(self)@[p]) != (#[trigger] final(self)@[q]) by {
                                let p0 = if p < i as int {
                                    p
                                } else {
                                    p + 1
                                };
                                let q0 = if q < i as int {
                                    q
                                } else {
                                    q + 1
                                };
                                assert(final(self)@[p] == pre[p0] && final(self)@[q] == pre[q0]);
                            }
                        }
                        DispatchAction::Idle
                    },
                    None => DispatchAction::Idle,
                }
            },
            Event::AgentRequest { guid, request } => {
                match self.pos(&guid) {
                    Some(_) => DispatchAction::Forward { guid, request },
                    None => DispatchAction::Idle,
                }
            },
        }
    }

    /// A broker session has ended: drop its entry so a later `NewAgent`
    /// can respawn it.  A guid that is already gone is left alone.
    pub fn handle_disconnect(&mut self, guid: &String)
        requires
            known_distinct(old(self)@),
        ensures
            known_distinct(final(self)@),
            if knows(old(self)@, guid@) {
                final(self)@ == old(self)@.remove(known_index(old(self)@, guid@))
            } else {
                final(self)@ == old(self)@
            },
    {
        match self.pos(guid) {
            Some(i) => {
                let ghost pre = self@;
                self.known.remove(i);
                proof {
                    assert(final(self)@ =~= pre.remove(i as int));
                    assert forall|p: int, q: int|
                        0 <= p < q < final(self)@.len() implies (#[trigger] final(self)@[p]) != (
                    #[trigger] final(self)@[q]) by {
                        let p0 = if p < i as int {
                            p
                        } else {
                            p + 1
                        };
                        let q0 = if q < i as int {
                            q
                        } else {
                            q + 1
                        };
                        assert(final(self)@[p] == pre[p0] && final(self)@[q] == pre[q0]);
                    }
                }
            },
            None => {},
        }
    }
}

/// The events that preload the dispatcher at server startup: one
/// `NewAgent` per stored agent row, in order.
pub fn startup_events(agents: &Vec<Agent>) -> (r: Vec<Event>)
    ensures
        r@.len() == agents@.len(),
        forall|k: int|
            0 <= k < r@.len() ==> (#[trigger] r@[k])@ == EventV::NewAgent((agents@[k])@.guid),
{
    let mut out: Vec<Event> = Vec::new();
    let n = agents.len();
    for i in 0..n
        invariant
            n == agents@.len(),
            out@.len() == i,
            forall|k: int|
                0 <= k < i ==> (#[trigger] out@[k])@ == EventV::NewAgent((agents@[k])@.guid),
    {
        let e = Event::NewAgent { guid: agents[i].guid.clone() };
        assert(e@ == EventV::NewAgent((agents@[i as int])@.guid));
        out.push(e);
    }
    out
}

} // verus!
