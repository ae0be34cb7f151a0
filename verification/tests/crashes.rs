use sha3::Digest;

use sap_core::crash::hex_string;
use sap_core::model::CrashMsg;
use sap_core::runner::plan_crash_sync;
use sap_core::store::Store;

fn crash_msg(job: &str, name: &str) -> CrashMsg {
    CrashMsg {
        job_guid: job.to_string(),
        name: name.to_string(),
        analyzed: None,
    }
}

#[test]
fn one_sync_tick_copies_each_new_file_once() {
    let existing: Vec<String> = Vec::new();
    let found = vec!["foo".to_string()];
    assert_eq!(plan_crash_sync(&existing, &found), vec!["foo".to_string()]);

    // After the copy the file exists; a second tick plans nothing.
    let existing = vec!["foo".to_string()];
    let found = vec!["foo".to_string()];
    assert!(plan_crash_sync(&existing, &found).is_empty());
}

#[test]
fn duplicate_names_across_workers_are_copied_once() {
    let existing: Vec<String> = Vec::new();
    let found = vec!["foo".to_string(), "bar".to_string(), "foo".to_string()];
    assert_eq!(
        plan_crash_sync(&existing, &found),
        vec!["foo".to_string(), "bar".to_string()]
    );
}

#[test]
fn crash_row_carries_the_sha3_of_the_content() {
    let mut store = Store::new();
    let content = b"crashing input".to_vec();
    store.new_crash(&crash_msg("job-1", "foo"), &content);

    let crashes = store.get_all_crashes();
    assert_eq!(crashes.len(), 1);
    let expected: String = sha3::Sha3_256::digest(&content)
        .iter()
        .map(|b| format!("{:02x}", b))
        .collect();
    assert_eq!(crashes[0].hash, expected);
    assert_eq!(crashes[0].size, content.len() as u64);
    assert_eq!(crashes[0].name, "foo");
    assert_eq!(crashes[0].collection_guid, "job-1");
    assert_eq!(crashes[0].guid.len(), 36);
}

#[test]
fn repeated_crash_report_is_a_no_op() {
    let mut store = Store::new();
    let content = b"crashing input".to_vec();
    store.new_crash(&crash_msg("job-1", "foo"), &content);
    let first = store.get_all_crashes();
    store.new_crash(&crash_msg("job-1", "foo"), &content);
    let second = store.get_all_crashes();

    assert_eq!(second.len(), 1);
    assert_eq!(first[0].guid, second[0].guid);
    assert_eq!(first[0].hash, second[0].hash);
}

#[test]
fn same_name_under_another_collection_is_a_new_row() {
    let mut store = Store::new();
    let content = b"x".to_vec();
    store.new_crash(&crash_msg("job-1", "foo"), &content);
    store.new_crash(&crash_msg("job-2", "foo"), &content);
    assert_eq!(store.get_all_crashes().len(), 2);
    assert_eq!(store.get_crash_stats().total, 2);
    assert_eq!(
        store
            .get_all_crashes_by_job(&"job-1".to_string())
            .len(),
        1
    );
}

#[test]
fn crash_lookup_by_guid() {
    let mut store = Store::new();
    store.new_crash(&crash_msg("job-1", "foo"), &b"x".to_vec());
    let guid = store.get_all_crashes()[0].guid.clone();
    let info = store.get_crash_info(&guid).unwrap();
    assert_eq!(info.name, "foo");
    assert!(store.get_crash_info(&"missing".to_string()).is_none());
}

#[test]
fn hex_rendering_is_two_lower_case_digits_per_byte() {
    assert_eq!(hex_string(&vec![]), "");
    assert_eq!(hex_string(&vec![0x00, 0x0f, 0xa0, 0xff]), "000fa0ff");
}
