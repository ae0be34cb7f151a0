use sap_core::agent_jobs::Jobs;
use sap_core::model::JobCreateRequest;
use sap_core::runner::analyzer_endpoint;
use sap_core::runner::bind_mount;
use sap_core::runner::container_env;
use sap_core::runner::exit_status;
use sap_core::runner::record_exit;
use sap_core::runner::record_pull_progress;
use sap_core::runner::record_started;
use sap_core::runner::stop_check;
use sap_core::runner::StopDecision;
use sap_core::runner::UpdateSlot;
use sap_core::status::JobStatus;
use sap_core::util::get_job_dir;
use sap_core::util::u64_to_string;

fn req(guid: &str) -> JobCreateRequest {
    JobCreateRequest {
        job_guid: guid.to_string(),
        image: "fuzzer:latest".to_string(),
        idx: 0,
        cpus: 4,
        ram: 4,
        timeout: "2h".to_string(),
        target: "target.zip".to_string(),
        corpus: "corpus.zip".to_string(),
        last_msg: String::new(),
        status: JobStatus::Init,
        crash_auto_analyze: false,
    }
}

#[test]
fn table_tracks_accepted_sub_jobs() {
    let mut jobs = Jobs::new();
    jobs.create(req("job-1"));
    jobs.create(req("job-2"));
    assert_eq!(jobs.guids(), vec!["job-1".to_string(), "job-2".to_string()]);
    assert_eq!(jobs.get_all().len(), 2);

    jobs.set_status(&"job-1".to_string(), JobStatus::Alive);
    assert_eq!(jobs.get_status(&"job-1".to_string()), Some(JobStatus::Alive));
    assert_eq!(jobs.get_status(&"job-2".to_string()), Some(JobStatus::Init));

    jobs.set_last_msg(&"job-2".to_string(), "pulling".to_string());
    assert_eq!(jobs.get_all()[1].last_msg, "pulling");
}

#[test]
fn creating_the_same_guid_replaces_the_entry() {
    let mut jobs = Jobs::new();
    jobs.create(req("job-1"));
    let mut newer = req("job-1");
    newer.image = "fuzzer:v2".to_string();
    jobs.create(newer);
    let all = jobs.get_all();
    assert_eq!(all.len(), 1);
    assert_eq!(all[0].image, "fuzzer:v2");
}

#[test]
fn destroy_hands_the_entry_back_and_misses_report_none() {
    let mut jobs = Jobs::new();
    jobs.create(req("job-1"));
    let (guid, entry) = jobs.destroy(&"job-1".to_string()).unwrap();
    assert_eq!(guid, "job-1");
    assert_eq!(entry.image, "fuzzer:latest");
    assert!(jobs.destroy(&"job-1".to_string()).is_none());
    assert!(jobs.get_all().is_empty());
}

#[test]
fn stop_is_valid_only_while_the_job_lives() {
    let mut jobs = Jobs::new();
    jobs.create(req("job-1"));
    assert!(matches!(stop_check(&jobs, &"job-1".to_string()), StopDecision::CanStop));

    jobs.set_status(&"job-1".to_string(), JobStatus::Alive);
    assert!(matches!(stop_check(&jobs, &"job-1".to_string()), StopDecision::CanStop));

    jobs.set_status(&"job-1".to_string(), JobStatus::Completed);
    assert!(matches!(stop_check(&jobs, &"job-1".to_string()), StopDecision::Finished));

    assert!(matches!(stop_check(&jobs, &"missing".to_string()), StopDecision::NotFound));
}

#[test]
fn exit_code_zero_completes_and_everything_else_errors() {
    assert_eq!(exit_status(0), JobStatus::Completed);
    assert_eq!(exit_status(1), JobStatus::Error);
    assert_eq!(exit_status(-9), JobStatus::Error);
}

#[test]
fn runner_updates_mirror_into_the_table_and_the_stream() {
    let mut jobs = Jobs::new();
    jobs.create(req("job-1"));
    let g = "job-1".to_string();

    let m = record_pull_progress(&mut jobs, &g, "layer 1/3".to_string());
    assert_eq!(m.last_msg.as_deref(), Some("layer 1/3"));
    assert!(m.status.is_none());
    assert_eq!(jobs.get_all()[0].last_msg, "layer 1/3");

    let m = record_started(&mut jobs, &g);
    assert_eq!(m.status.as_deref(), Some("alive"));
    assert_eq!(m.last_msg.as_deref(), Some("Container started"));
    assert_eq!(jobs.get_status(&g), Some(JobStatus::Alive));

    let m = record_exit(&mut jobs, &g, 0, "stderr text".to_string());
    assert_eq!(m.status.as_deref(), Some("completed"));
    assert_eq!(m.last_msg.as_deref(), Some("exited"));
    assert_eq!(m.log.as_deref(), Some("stderr text"));
    assert_eq!(jobs.get_status(&g), Some(JobStatus::Completed));
}

#[test]
fn update_stream_has_one_subscriber_at_a_time() {
    let mut slot = UpdateSlot::new();
    assert!(slot.try_attach());
    assert!(!slot.try_attach());
    slot.detach();
    assert!(slot.try_attach());
}

#[test]
fn container_strings() {
    assert_eq!(bind_mount("/srv/nfs/jobs/j1"), "/srv/nfs/jobs/j1:/work");
    assert_eq!(
        container_env(3, 8),
        vec!["ID=3".to_string(), "CPUS=8".to_string(), "FUZZ_DIR=/root/fuzz".to_string()]
    );
    assert_eq!(analyzer_endpoint("172.17.0.2"), "http://172.17.0.2:50051");
}

#[test]
fn decimal_rendering() {
    assert_eq!(u64_to_string(0), "0");
    assert_eq!(u64_to_string(7), "7");
    assert_eq!(u64_to_string(120), "120");
    assert_eq!(u64_to_string(18446744073709551615), "18446744073709551615");
}

#[test]
fn job_directory_layout() {
    assert_eq!(get_job_dir("/srv/nfs", "j1"), "/srv/nfs/jobs/j1");
    assert_eq!(
        sap_core::util::crash_file_path("/srv/nfs", "j1", "foo"),
        "/srv/nfs/jobs/j1/crashes/foo"
    );
}

#[test]
fn status_labels_round_trip() {
    for st in [JobStatus::Init, JobStatus::Alive, JobStatus::Completed, JobStatus::Error] {
        assert_eq!(JobStatus::parse(&st.label()), Some(st));
    }
    assert_eq!(JobStatus::parse(&"weird".to_string()), None);
}
