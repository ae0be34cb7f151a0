use sap_core::dispatch::DispatchAction;
use sap_core::dispatch::Dispatcher;
use sap_core::dispatch::Event;
use sap_core::dispatch::Request;
use sap_core::intake::make_agent;
use sap_core::intake::sanitize_job_info;
use sap_core::intake::stop_requests;
use sap_core::intake::SubmitError;
use sap_core::model::Agent;
use sap_core::model::AgentCreateRequest;
use sap_core::model::JobInfo;
use sap_core::model::SysInfo;
use sap_core::status::AgentStatus;
use sap_core::store::Store;

fn new_agent_event(guid: &str) -> Event {
    Event::NewAgent { guid: guid.to_string() }
}

#[test]
fn new_agent_spawns_once() {
    let mut d = Dispatcher::new();
    let first = d.handle_event(new_agent_event("a1"));
    assert!(matches!(first, DispatchAction::Spawn { ref guid } if guid == "a1"));
    let second = d.handle_event(new_agent_event("a1"));
    assert!(matches!(second, DispatchAction::Idle));
}

#[test]
fn requests_forward_only_to_known_agents() {
    let mut d = Dispatcher::new();
    d.handle_event(new_agent_event("a1"));

    let fwd = d.handle_event(Event::AgentRequest {
        guid: "a1".to_string(),
        request: Request::JobStop { guid: "job-1".to_string() },
    });
    assert!(matches!(
        fwd,
        DispatchAction::Forward { ref guid, request: Request::JobStop { guid: ref j } }
            if guid == "a1" && j == "job-1"
    ));

    let dropped = d.handle_event(Event::AgentRequest {
        guid: "nobody".to_string(),
        request: Request::JobStop { guid: "job-1".to_string() },
    });
    assert!(matches!(dropped, DispatchAction::Idle));
}

#[test]
fn disconnect_allows_a_respawn() {
    let mut d = Dispatcher::new();
    d.handle_event(new_agent_event("a1"));
    d.handle_disconnect(&"a1".to_string());
    let again = d.handle_event(new_agent_event("a1"));
    assert!(matches!(again, DispatchAction::Spawn { .. }));
}

#[test]
fn del_agent_removes_the_entry() {
    let mut d = Dispatcher::new();
    d.handle_event(new_agent_event("a1"));
    d.handle_event(Event::DelAgent { guid: "a1".to_string() });
    let dropped = d.handle_event(Event::AgentRequest {
        guid: "a1".to_string(),
        request: Request::JobStop { guid: "job-1".to_string() },
    });
    assert!(matches!(dropped, DispatchAction::Idle));
}

#[test]
fn startup_preloads_one_event_per_agent() {
    let mut store = Store::new();
    store.create(Agent {
        guid: "a1".to_string(),
        description: String::new(),
        agent_type: "linux".to_string(),
        endpoint: "e1".to_string(),
        status: AgentStatus::Init,
        free_cpus: 0,
        free_ram: 0,
        cpus: 0,
        ram: 0,
    });
    let events = sap_core::dispatch::startup_events(&store.get_all());
    assert_eq!(events.len(), 1);
    assert!(matches!(events[0], Event::NewAgent { ref guid } if guid == "a1"));
}

#[test]
fn registration_accepts_only_linux_agents() {
    let req = AgentCreateRequest {
        description: "host".to_string(),
        agent_type: "linux".to_string(),
        endpoint: "http://[::1]:50051".to_string(),
    };
    let agent = make_agent(req, "a1".to_string()).unwrap();
    assert_eq!(agent.status, AgentStatus::Init);
    assert_eq!(agent.cpus, 0);
    assert_eq!(agent.free_cpus, 0);

    let other = AgentCreateRequest {
        description: "host".to_string(),
        agent_type: "windows".to_string(),
        endpoint: "e".to_string(),
    };
    assert!(make_agent(other, "a2".to_string()).is_none());
}

fn submission() -> JobInfo {
    JobInfo {
        guid: "job-1".to_string(),
        name: "n".to_string(),
        description: String::new(),
        agent_type: "linux".to_string(),
        image: "fuzzer:latest".to_string(),
        cpus: 2,
        ram: 2,
        timeout: "2h".to_string(),
        target: "target.zip".to_string(),
        corpus: "corpus.zip".to_string(),
        crash_auto_analyze: false,
    }
}

#[test]
fn sanitize_rejects_each_missing_piece_in_order() {
    let ok = submission();
    assert!(sanitize_job_info(&ok).is_ok());

    let mut no_image = submission();
    no_image.image = String::new();
    assert_eq!(sanitize_job_info(&no_image), Err(SubmitError::NoImage));

    let mut no_cpus = submission();
    no_cpus.cpus = 0;
    assert_eq!(sanitize_job_info(&no_cpus), Err(SubmitError::NoCpus));

    let mut no_timeout = submission();
    no_timeout.timeout = String::new();
    assert_eq!(sanitize_job_info(&no_timeout), Err(SubmitError::BadTimeout));

    // A non-empty but malformed timeout is let through, as the intake
    // has always done.
    let mut odd_timeout = submission();
    odd_timeout.timeout = "not-a-duration".to_string();
    assert!(sanitize_job_info(&odd_timeout).is_ok());

    let mut no_target = submission();
    no_target.target = String::new();
    assert_eq!(sanitize_job_info(&no_target), Err(SubmitError::NoTarget));

    let mut no_corpus = submission();
    no_corpus.corpus = String::new();
    assert_eq!(sanitize_job_info(&no_corpus), Err(SubmitError::NoCorpus));

    assert_eq!(
        SubmitError::BadTimeout.message(),
        "invalid timeout format"
    );
}

#[test]
fn stop_fans_out_to_every_sub_job_agent() {
    let mut store = Store::new();
    store.create(Agent {
        guid: "a1".to_string(),
        description: String::new(),
        agent_type: "linux".to_string(),
        endpoint: "e1".to_string(),
        status: AgentStatus::Init,
        free_cpus: 0,
        free_ram: 0,
        cpus: 0,
        ram: 0,
    });
    store.broker_register_sysinfo(&"a1".to_string(), &SysInfo { cpus: 8, ram: 8 });
    store.update_status(&"a1".to_string(), AgentStatus::Up);
    store
        .schedule_job(&JobInfo { guid: "job-1".to_string(), ..submission() })
        .unwrap();

    let resp = store.get_job(&"job-1".to_string()).unwrap();
    let events = stop_requests(&resp);
    assert_eq!(events.len(), 1);
    assert!(matches!(
        events[0],
        Event::AgentRequest { ref guid, request: Request::JobStop { guid: ref j } }
            if guid == "a1" && j == "job-1"
    ));
}
