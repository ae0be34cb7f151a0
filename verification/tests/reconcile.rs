use sap_core::model::Agent;
use sap_core::model::JobCreateRequest;
use sap_core::model::JobInfo;
use sap_core::model::SysInfo;
use sap_core::status::AgentStatus;
use sap_core::status::JobStatus;
use sap_core::store::Store;

fn fresh_agent(guid: &str) -> Agent {
    Agent {
        guid: guid.to_string(),
        description: "test host".to_string(),
        agent_type: "linux".to_string(),
        endpoint: "http://[::1]:50051".to_string(),
        status: AgentStatus::Init,
        free_cpus: 0,
        free_ram: 0,
        cpus: 0,
        ram: 0,
    }
}

fn agent_up(store: &mut Store, guid: &str, cpus: u64, ram: u64) {
    store.create(fresh_agent(guid));
    let g = guid.to_string();
    store.broker_register_sysinfo(&g, &SysInfo { cpus, ram });
    store.update_status(&g, AgentStatus::Up);
}

fn submission(guid: &str, cpus: u64, ram: u64) -> JobInfo {
    JobInfo {
        guid: guid.to_string(),
        name: "target under test".to_string(),
        description: "".to_string(),
        agent_type: "linux".to_string(),
        image: "fuzzer:latest".to_string(),
        cpus,
        ram,
        timeout: "2h".to_string(),
        target: "target.zip".to_string(),
        corpus: "corpus.zip".to_string(),
        crash_auto_analyze: false,
    }
}

fn reported(guid: &str, status: JobStatus, last_msg: &str) -> JobCreateRequest {
    JobCreateRequest {
        job_guid: guid.to_string(),
        image: "fuzzer:latest".to_string(),
        idx: 0,
        cpus: 1,
        ram: 1,
        timeout: "2h".to_string(),
        target: "target.zip".to_string(),
        corpus: "corpus.zip".to_string(),
        last_msg: last_msg.to_string(),
        status,
        crash_auto_analyze: false,
    }
}

#[test]
fn vanished_live_sub_job_is_completed_conservatively() {
    let mut store = Store::new();
    agent_up(&mut store, "a1", 8, 8);
    store.schedule_job(&submission("job-x", 8, 8)).unwrap();
    let a = "a1".to_string();
    store.set_job_status(&a, &"job-x".to_string(), JobStatus::Alive);
    assert_eq!(store.get_by_guid(&a).unwrap().free_cpus, 0);

    store.sync_jobs(&a, &Vec::new());

    let resp = store.get_job(&"job-x".to_string()).unwrap();
    assert!(resp.jobs[0].freed);
    assert_eq!(resp.jobs[0].status, JobStatus::Completed);
    assert_eq!(resp.jobs[0].last_msg, "unknown");
    assert_eq!(store.get_by_guid(&a).unwrap().free_cpus, 8);
}

#[test]
fn reported_terminal_sub_job_is_completed_with_its_message() {
    let mut store = Store::new();
    agent_up(&mut store, "a1", 8, 8);
    store.schedule_job(&submission("job-x", 8, 8)).unwrap();
    let a = "a1".to_string();

    store.sync_jobs(&a, &vec![reported("job-x", JobStatus::Error, "crashed hard")]);

    let resp = store.get_job(&"job-x".to_string()).unwrap();
    assert!(resp.jobs[0].freed);
    assert_eq!(resp.jobs[0].status, JobStatus::Error);
    assert_eq!(resp.jobs[0].last_msg, "crashed hard");
    assert_eq!(store.get_by_guid(&a).unwrap().free_cpus, 8);
}

#[test]
fn reported_live_sub_job_is_written_through() {
    let mut store = Store::new();
    agent_up(&mut store, "a1", 8, 8);
    store.schedule_job(&submission("job-x", 8, 8)).unwrap();
    let a = "a1".to_string();

    store.sync_jobs(&a, &vec![reported("job-x", JobStatus::Alive, "fuzzing")]);

    let resp = store.get_job(&"job-x".to_string()).unwrap();
    assert!(!resp.jobs[0].freed);
    assert_eq!(resp.jobs[0].status, JobStatus::Alive);
    assert_eq!(resp.jobs[0].last_msg, "fuzzing");
    assert_eq!(store.get_by_guid(&a).unwrap().free_cpus, 0);
}

#[test]
fn terminal_rows_are_not_completed_again() {
    let mut store = Store::new();
    agent_up(&mut store, "a1", 8, 8);
    store.schedule_job(&submission("job-x", 8, 8)).unwrap();
    let a = "a1".to_string();
    let msg = "done".to_string();
    store.complete_job(&a, &"job-x".to_string(), &msg, JobStatus::Completed);

    // The agent no longer reports the job, but its row is already
    // terminal: nothing changes.
    store.sync_jobs(&a, &Vec::new());

    let resp = store.get_job(&"job-x".to_string()).unwrap();
    assert_eq!(resp.jobs[0].last_msg, "done");
    assert_eq!(store.get_by_guid(&a).unwrap().free_cpus, 8);
}
