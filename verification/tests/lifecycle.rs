use sap_core::model::Agent;
use sap_core::model::JobInfo;
use sap_core::model::JobMsg;
use sap_core::model::SysInfo;
use sap_core::model::UpdateKind;
use sap_core::status::AgentStatus;
use sap_core::status::JobStatus;
use sap_core::store::Store;

fn fresh_agent(guid: &str) -> Agent {
    Agent {
        guid: guid.to_string(),
        description: "test host".to_string(),
        agent_type: "linux".to_string(),
        endpoint: "http://[::1]:50051".to_string(),
        status: AgentStatus::Init,
        free_cpus: 0,
        free_ram: 0,
        cpus: 0,
        ram: 0,
    }
}

fn agent_up(store: &mut Store, guid: &str, cpus: u64, ram: u64) {
    store.create(fresh_agent(guid));
    let g = guid.to_string();
    store.broker_register_sysinfo(&g, &SysInfo { cpus, ram });
    store.update_status(&g, AgentStatus::Up);
}

fn submission(guid: &str, cpus: u64, ram: u64) -> JobInfo {
    JobInfo {
        guid: guid.to_string(),
        name: "target under test".to_string(),
        description: "".to_string(),
        agent_type: "linux".to_string(),
        image: "fuzzer:latest".to_string(),
        cpus,
        ram,
        timeout: "2h".to_string(),
        target: "target.zip".to_string(),
        corpus: "corpus.zip".to_string(),
        crash_auto_analyze: false,
    }
}

fn job_msg(guid: &str, status: Option<&str>, last_msg: Option<&str>) -> UpdateKind {
    UpdateKind::JobMsg(JobMsg {
        guid: guid.to_string(),
        status: status.map(|s| s.to_string()),
        last_msg: last_msg.map(|s| s.to_string()),
        log: None,
    })
}

#[test]
fn completion_returns_resources_and_rolls_up() {
    let mut store = Store::new();
    agent_up(&mut store, "a1", 8, 8);
    store.schedule_job(&submission("job-1", 8, 8)).unwrap();
    assert_eq!(store.get_by_guid(&"a1".to_string()).unwrap().free_cpus, 0);

    let r = store.broker_handle_update(
        &"a1".to_string(),
        job_msg("job-1", Some("completed"), Some("done")),
    );
    assert!(r.is_none());

    let a1 = store.get_by_guid(&"a1".to_string()).unwrap();
    assert_eq!(a1.free_cpus, 8);
    assert_eq!(a1.free_ram, 8);
    let resp = store.get_job(&"job-1".to_string()).unwrap();
    assert!(resp.jobs[0].freed);
    assert_eq!(resp.jobs[0].status, JobStatus::Completed);
    assert_eq!(resp.jobs[0].last_msg, "done");
    assert_eq!(resp.job_collection.status, JobStatus::Completed);
}

#[test]
fn errors_win_the_roll_up() {
    let mut store = Store::new();
    agent_up(&mut store, "a1", 8, 8);
    agent_up(&mut store, "a2", 4, 4);
    store.schedule_job(&submission("job-1", 10, 5)).unwrap();

    store.broker_handle_update(
        &"a2".to_string(),
        job_msg("job-1", Some("error"), Some("oom")),
    );

    let resp = store.get_job(&"job-1".to_string()).unwrap();
    assert_eq!(resp.job_collection.status, JobStatus::Error);
    let a2 = store.get_by_guid(&"a2".to_string()).unwrap();
    assert_eq!(a2.free_cpus, 4);
    let errored: Vec<_> = resp.jobs.iter().filter(|j| j.agent_guid == "a2").collect();
    assert_eq!(errored.len(), 1);
    assert!(errored[0].freed);
    assert_eq!(errored[0].status, JobStatus::Error);
    assert_eq!(errored[0].last_msg, "oom");
}

#[test]
fn complete_job_is_idempotent() {
    let mut store = Store::new();
    agent_up(&mut store, "a1", 8, 8);
    store.schedule_job(&submission("job-1", 8, 8)).unwrap();

    let a = "a1".to_string();
    let j = "job-1".to_string();
    let msg = "done".to_string();
    store.complete_job(&a, &j, &msg, JobStatus::Completed);
    let free_after_first = store.get_by_guid(&a).unwrap().free_cpus;
    store.complete_job(&a, &j, &msg, JobStatus::Completed);
    let free_after_second = store.get_by_guid(&a).unwrap().free_cpus;

    assert_eq!(free_after_first, 8);
    assert_eq!(free_after_second, 8);
    let resp = store.get_job(&j).unwrap();
    assert_eq!(resp.jobs.len(), 1);
    assert!(resp.jobs[0].freed);
}

#[test]
fn alive_update_propagates_without_freeing() {
    let mut store = Store::new();
    agent_up(&mut store, "a1", 8, 8);
    store.schedule_job(&submission("job-1", 8, 8)).unwrap();

    store.broker_handle_update(&"a1".to_string(), job_msg("job-1", Some("alive"), None));

    let resp = store.get_job(&"job-1".to_string()).unwrap();
    assert_eq!(resp.jobs[0].status, JobStatus::Alive);
    assert!(!resp.jobs[0].freed);
    assert_eq!(resp.job_collection.status, JobStatus::Alive);
    assert_eq!(store.get_by_guid(&"a1".to_string()).unwrap().free_cpus, 0);
}

#[test]
fn message_only_update_touches_the_message() {
    let mut store = Store::new();
    agent_up(&mut store, "a1", 8, 8);
    store.schedule_job(&submission("job-1", 8, 8)).unwrap();

    store.broker_handle_update(&"a1".to_string(), job_msg("job-1", None, Some("pulling layer")));

    let resp = store.get_job(&"job-1".to_string()).unwrap();
    assert_eq!(resp.jobs[0].last_msg, "pulling layer");
    assert_eq!(resp.jobs[0].status, JobStatus::Init);
    assert_eq!(resp.job_collection.status, JobStatus::Init);
}

#[test]
fn unknown_status_label_is_ignored() {
    let mut store = Store::new();
    agent_up(&mut store, "a1", 8, 8);
    store.schedule_job(&submission("job-1", 8, 8)).unwrap();

    store.broker_handle_update(&"a1".to_string(), job_msg("job-1", Some("weird"), None));

    let resp = store.get_job(&"job-1".to_string()).unwrap();
    assert_eq!(resp.jobs[0].status, JobStatus::Init);
}

#[test]
fn round_trip_restores_the_free_cpu_sum() {
    let mut store = Store::new();
    agent_up(&mut store, "a1", 8, 8);
    agent_up(&mut store, "a2", 4, 4);
    let before: u64 = store.get_all().iter().map(|a| a.free_cpus).sum();

    let reqs = store.schedule_job(&submission("job-1", 10, 5)).unwrap();
    for req in &reqs {
        let msg = "done".to_string();
        store.complete_job(&req.agent_guid, &"job-1".to_string(), &msg, JobStatus::Completed);
    }

    let after: u64 = store.get_all().iter().map(|a| a.free_cpus).sum();
    assert_eq!(before, after);
}

#[test]
fn job_stats_bucket_init_and_alive_together() {
    let mut store = Store::new();
    agent_up(&mut store, "a1", 16, 16);
    store.schedule_job(&submission("j-init", 2, 2)).unwrap();
    store.schedule_job(&submission("j-alive", 2, 2)).unwrap();
    store.schedule_job(&submission("j-done", 2, 2)).unwrap();
    store.schedule_job(&submission("j-bad", 2, 2)).unwrap();

    let a = "a1".to_string();
    store.set_job_status(&a, &"j-alive".to_string(), JobStatus::Alive);
    let msg = String::new();
    store.complete_job(&a, &"j-done".to_string(), &msg, JobStatus::Completed);
    store.complete_job(&a, &"j-bad".to_string(), &msg, JobStatus::Error);

    let stats = store.get_job_stats();
    assert_eq!(stats.alive, 2);
    assert_eq!(stats.completed, 1);
    assert_eq!(stats.error, 1);
}

#[test]
fn agent_delete_hands_back_the_guid() {
    let mut store = Store::new();
    agent_up(&mut store, "a1", 8, 8);
    let guid = store.delete("a1".to_string());
    assert_eq!(guid, "a1");
    assert!(store.get_by_guid(&"a1".to_string()).is_none());
    assert!(store.get_all().is_empty());
}
