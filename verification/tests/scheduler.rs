use sap_core::model::Agent;
use sap_core::model::JobInfo;
use sap_core::model::SysInfo;
use sap_core::sched::ScheduleError;
use sap_core::status::AgentStatus;
use sap_core::status::JobStatus;
use sap_core::store::Store;

fn fresh_agent(guid: &str) -> Agent {
    Agent {
        guid: guid.to_string(),
        description: "test host".to_string(),
        agent_type: "linux".to_string(),
        endpoint: "http://[::1]:50051".to_string(),
        status: AgentStatus::Init,
        free_cpus: 0,
        free_ram: 0,
        cpus: 0,
        ram: 0,
    }
}

fn agent_up(store: &mut Store, guid: &str, cpus: u64, ram: u64) {
    store.create(fresh_agent(guid));
    let g = guid.to_string();
    store.broker_register_sysinfo(&g, &SysInfo { cpus, ram });
    store.update_status(&g, AgentStatus::Up);
}

fn submission(guid: &str, cpus: u64, ram: u64) -> JobInfo {
    JobInfo {
        guid: guid.to_string(),
        name: "target under test".to_string(),
        description: "".to_string(),
        agent_type: "linux".to_string(),
        image: "fuzzer:latest".to_string(),
        cpus,
        ram,
        timeout: "2h".to_string(),
        target: "target.zip".to_string(),
        corpus: "corpus.zip".to_string(),
        crash_auto_analyze: false,
    }
}

#[test]
fn splits_across_two_agents_by_free_cpus() {
    let mut store = Store::new();
    agent_up(&mut store, "a1", 8, 8);
    agent_up(&mut store, "a2", 4, 4);

    let reqs = store.schedule_job(&submission("job-1", 10, 5)).unwrap();

    assert_eq!(reqs.len(), 2);
    assert_eq!(reqs[0].agent_guid, "a1");
    assert_eq!(reqs[0].request.idx, 0);
    assert_eq!(reqs[0].request.cpus, 8);
    assert_eq!(reqs[0].request.ram, 5);
    assert_eq!(reqs[1].agent_guid, "a2");
    assert_eq!(reqs[1].request.idx, 1);
    assert_eq!(reqs[1].request.cpus, 2);
    assert_eq!(reqs[1].request.ram, 0);

    let a1 = store.get_by_guid(&"a1".to_string()).unwrap();
    let a2 = store.get_by_guid(&"a2".to_string()).unwrap();
    assert_eq!(a1.free_cpus, 0);
    assert_eq!(a2.free_cpus, 2);

    let resp = store.get_job(&"job-1".to_string()).unwrap();
    assert_eq!(resp.job_collection.status, JobStatus::Init);
    assert_eq!(resp.jobs.len(), 2);
    assert!(!resp.jobs[0].freed);
    assert_eq!(resp.jobs[0].status, JobStatus::Init);
}

#[test]
fn refuses_when_free_cpus_cannot_cover() {
    let mut store = Store::new();
    agent_up(&mut store, "a1", 8, 8);
    agent_up(&mut store, "a2", 4, 4);

    let r = store.schedule_job(&submission("job-1", 20, 5));
    assert!(matches!(r, Err(ScheduleError::InsufficientResources)));

    // Nothing was written.
    let a1 = store.get_by_guid(&"a1".to_string()).unwrap();
    let a2 = store.get_by_guid(&"a2".to_string()).unwrap();
    assert_eq!(a1.free_cpus, 8);
    assert_eq!(a2.free_cpus, 4);
    assert!(store.get_job(&"job-1".to_string()).is_none());
    assert!(store.get_all_collections().is_empty());
}

#[test]
fn ram_shortfall_is_permitted_and_truncated() {
    // CPUs fit but RAM does not: the submission goes through and the RAM
    // shares are truncated to what the chosen agents have free.
    let mut store = Store::new();
    agent_up(&mut store, "a1", 8, 2);

    let reqs = store.schedule_job(&submission("job-1", 4, 10)).unwrap();
    assert_eq!(reqs.len(), 1);
    assert_eq!(reqs[0].request.cpus, 4);
    assert_eq!(reqs[0].request.ram, 2);
}

#[test]
fn continues_past_cpu_need_while_ram_remains() {
    let mut store = Store::new();
    agent_up(&mut store, "a1", 8, 1);
    agent_up(&mut store, "a2", 4, 4);

    // CPUs are covered by a1 alone, but RAM is not: a2 still receives a
    // zero-CPU slice carrying the remaining RAM.
    let reqs = store.schedule_job(&submission("job-1", 8, 3)).unwrap();
    assert_eq!(reqs.len(), 2);
    assert_eq!(reqs[0].request.cpus, 8);
    assert_eq!(reqs[0].request.ram, 1);
    assert_eq!(reqs[1].request.cpus, 0);
    assert_eq!(reqs[1].request.ram, 2);
}

#[test]
fn ignores_down_agents_and_other_types() {
    let mut store = Store::new();
    agent_up(&mut store, "a1", 8, 8);
    agent_up(&mut store, "down-agent", 16, 16);
    store.update_status(&"down-agent".to_string(), AgentStatus::Down);

    let reqs = store.schedule_job(&submission("job-1", 4, 4)).unwrap();
    assert_eq!(reqs.len(), 1);
    assert_eq!(reqs[0].agent_guid, "a1");
}

#[test]
fn orders_agents_by_descending_free_cpus() {
    let mut store = Store::new();
    agent_up(&mut store, "small", 2, 8);
    agent_up(&mut store, "big", 6, 8);

    let reqs = store.schedule_job(&submission("job-1", 7, 4)).unwrap();
    assert_eq!(reqs[0].agent_guid, "big");
    assert_eq!(reqs[0].request.cpus, 6);
    assert_eq!(reqs[1].agent_guid, "small");
    assert_eq!(reqs[1].request.cpus, 1);
}

#[test]
fn insufficient_message_text() {
    assert_eq!(
        ScheduleError::InsufficientResources.message(),
        "insufficient amount of free cpus"
    );
}
