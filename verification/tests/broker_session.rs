use sap_core::model::Agent;
use sap_core::model::SysInfo;
use sap_core::status::AgentStatus;
use sap_core::store::Store;

fn fresh_agent(guid: &str) -> Agent {
    Agent {
        guid: guid.to_string(),
        description: "test host".to_string(),
        agent_type: "linux".to_string(),
        endpoint: "http://[::1]:50051".to_string(),
        status: AgentStatus::Init,
        free_cpus: 0,
        free_ram: 0,
        cpus: 0,
        ram: 0,
    }
}

#[test]
fn registration_records_resources_and_leaves_the_agent_down() {
    let mut store = Store::new();
    store.create(fresh_agent("a1"));
    let g = "a1".to_string();

    store.broker_register_sysinfo(&g, &SysInfo { cpus: 8, ram: 16 });

    let a = store.get_by_guid(&g).unwrap();
    assert_eq!(a.status, AgentStatus::Down);
    assert_eq!(a.cpus, 8);
    assert_eq!(a.ram, 16);
    assert_eq!(a.free_cpus, 8);
    assert_eq!(a.free_ram, 16);
}

#[test]
fn registration_runs_only_once() {
    let mut store = Store::new();
    store.create(fresh_agent("a1"));
    let g = "a1".to_string();
    store.broker_register_sysinfo(&g, &SysInfo { cpus: 8, ram: 16 });
    store.update_status(&g, AgentStatus::Up);

    // A second system-information call after registration must not reset
    // the free counters.
    store.broker_register_sysinfo(&g, &SysInfo { cpus: 32, ram: 64 });

    let a = store.get_by_guid(&g).unwrap();
    assert_eq!(a.cpus, 8);
    assert_eq!(a.status, AgentStatus::Up);
}

#[test]
fn connect_failure_downs_only_agents_that_were_up() {
    let mut store = Store::new();
    store.create(fresh_agent("a1"));
    let g = "a1".to_string();

    // Still `init`: a failed connect leaves it alone.
    store.broker_connect_failed(&g);
    assert_eq!(store.get_by_guid(&g).unwrap().status, AgentStatus::Init);

    store.broker_register_sysinfo(&g, &SysInfo { cpus: 8, ram: 16 });
    store.update_status(&g, AgentStatus::Up);
    store.broker_connect_failed(&g);
    assert_eq!(store.get_by_guid(&g).unwrap().status, AgentStatus::Down);
}

#[test]
fn refused_sub_job_creation_completes_it_as_an_error() {
    let mut store = Store::new();
    store.create(fresh_agent("a1"));
    let g = "a1".to_string();
    store.broker_register_sysinfo(&g, &SysInfo { cpus: 8, ram: 8 });
    store.update_status(&g, AgentStatus::Up);
    store
        .schedule_job(&sap_core::model::JobInfo {
            guid: "job-1".to_string(),
            name: "n".to_string(),
            description: String::new(),
            agent_type: "linux".to_string(),
            image: "fuzzer:latest".to_string(),
            cpus: 8,
            ram: 8,
            timeout: "2h".to_string(),
            target: "target.zip".to_string(),
            corpus: "corpus.zip".to_string(),
            crash_auto_analyze: false,
        })
        .unwrap();

    let err = "transport failed".to_string();
    store.broker_job_create_failed(&g, &"job-1".to_string(), &err);

    let resp = store.get_job(&"job-1".to_string()).unwrap();
    assert_eq!(resp.jobs[0].status, sap_core::status::JobStatus::Error);
    assert_eq!(resp.jobs[0].last_msg, "transport failed");
    assert_eq!(store.get_by_guid(&g).unwrap().free_cpus, 8);
    assert_eq!(
        resp.job_collection.status,
        sap_core::status::JobStatus::Error
    );
}
