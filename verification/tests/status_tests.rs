use release_manager::error::Error;
use release_manager::status::{BuildStatus, Status, StatusWrapper, VersionStatus};
use release_manager::table::Table;

fn state_of(ledger: &StatusWrapper, version: &str, build: &str) -> Option<BuildStatus> {
    match ledger.status().get(version) {
        Some(record) => record.build_names().get(build).copied(),
        None => None,
    }
}

#[test]
fn a_new_ledger_knows_nothing() {
    let ledger = StatusWrapper::new("Status.toml");
    assert_eq!(ledger.filepath(), "Status.toml");
    assert_eq!(ledger.status().len(), 0);
    assert!(ledger.needs_compile("x86_64-unknown-linux-gnu", "1.0.0"));
    assert!(ledger.all_clear("1.0.0"));
    assert!(!ledger.is_published("1.0.0"));
}

#[test]
fn needs_compile_is_false_only_after_success() {
    let mut ledger = StatusWrapper::new("s");
    ledger.start("a", "1.0.0");
    assert_eq!(state_of(&ledger, "1.0.0", "a"), Some(BuildStatus::Started));
    assert!(ledger.needs_compile("a", "1.0.0"));
    ledger.fail("a", "1.0.0");
    assert_eq!(state_of(&ledger, "1.0.0", "a"), Some(BuildStatus::Failed));
    assert!(ledger.needs_compile("a", "1.0.0"));
    ledger.succeed("a", "1.0.0");
    assert_eq!(state_of(&ledger, "1.0.0", "a"), Some(BuildStatus::Success));
    assert!(!ledger.needs_compile("a", "1.0.0"));
    assert!(ledger.needs_compile("b", "1.0.0"));
    assert!(ledger.needs_compile("a", "1.0.1"));
}

#[test]
fn needs_compile_gives_the_same_answer_twice() {
    let mut ledger = StatusWrapper::new("s");
    ledger.succeed("a", "1.0.0");
    ledger.start("b", "1.0.0");
    assert_eq!(ledger.needs_compile("a", "1.0.0"), ledger.needs_compile("a", "1.0.0"));
    assert_eq!(ledger.needs_compile("b", "1.0.0"), ledger.needs_compile("b", "1.0.0"));
    assert!(!ledger.needs_compile("a", "1.0.0"));
    assert!(ledger.needs_compile("b", "1.0.0"));
}

#[test]
fn success_stays_until_the_build_is_pruned() {
    let mut ledger = StatusWrapper::new("s");
    ledger.succeed("a", "1.0.0");
    ledger.start("b", "1.0.0");
    ledger.fail("b", "1.0.0");
    ledger.publish("1.0.0");
    assert!(!ledger.needs_compile("a", "1.0.0"));
    ledger.clear_missing_targets("1.0.0", &["a".to_string()]);
    assert!(!ledger.needs_compile("a", "1.0.0"));
    ledger.clear_missing_targets("1.0.0", &["b".to_string()]);
    assert!(ledger.needs_compile("a", "1.0.0"));
}

#[test]
fn pruning_removes_exactly_the_missing_build() {
    let mut ledger = StatusWrapper::new("s");
    ledger.succeed("a", "1.0.0");
    ledger.fail("b", "1.0.0");
    ledger.start("c", "1.0.0");
    ledger.succeed("c", "2.0.0");
    ledger.clear_missing_targets("1.0.0", &["a".to_string(), "b".to_string()]);
    assert_eq!(state_of(&ledger, "1.0.0", "a"), Some(BuildStatus::Success));
    assert_eq!(state_of(&ledger, "1.0.0", "b"), Some(BuildStatus::Failed));
    assert_eq!(state_of(&ledger, "1.0.0", "c"), None);
    assert_eq!(state_of(&ledger, "2.0.0", "c"), Some(BuildStatus::Success));
    assert_eq!(ledger.status().get("1.0.0").unwrap().build_names().len(), 2);
}

#[test]
fn pruning_an_unknown_version_changes_nothing() {
    let mut ledger = StatusWrapper::new("s");
    ledger.succeed("a", "1.0.0");
    ledger.clear_missing_targets("9.9.9", &[]);
    assert_eq!(ledger.status().len(), 1);
    assert_eq!(state_of(&ledger, "1.0.0", "a"), Some(BuildStatus::Success));
}

#[test]
fn all_clear_needs_every_build_to_succeed() {
    let mut ledger = StatusWrapper::new("s");
    ledger.succeed("a", "1.0.0");
    assert!(ledger.all_clear("1.0.0"));
    ledger.start("b", "1.0.0");
    assert!(!ledger.all_clear("1.0.0"));
    ledger.fail("b", "1.0.0");
    assert!(!ledger.all_clear("1.0.0"));
    ledger.succeed("b", "1.0.0");
    assert!(ledger.all_clear("1.0.0"));
    assert!(ledger.all_clear("other"));
}

#[test]
fn a_stale_failure_is_cleared_by_pruning() {
    let mut ledger = StatusWrapper::new("s");
    ledger.succeed("a", "1.0.0");
    ledger.fail("gone", "1.0.0");
    assert!(!ledger.all_clear("1.0.0"));
    ledger.clear_missing_targets("1.0.0", &["a".to_string()]);
    assert!(ledger.all_clear("1.0.0"));
}

#[test]
fn publish_marks_the_version_and_is_idempotent() {
    let mut ledger = StatusWrapper::new("s");
    assert!(!ledger.is_published("1.0.0"));
    ledger.publish("1.0.0");
    assert!(ledger.is_published("1.0.0"));
    ledger.publish("1.0.0");
    assert!(ledger.is_published("1.0.0"));
    assert_eq!(ledger.status().len(), 1);
    assert!(!ledger.is_published("1.0.1"));
}

#[test]
fn publish_keeps_the_builds() {
    let mut ledger = StatusWrapper::new("s");
    ledger.succeed("a", "1.0.0");
    ledger.publish("1.0.0");
    assert_eq!(state_of(&ledger, "1.0.0", "a"), Some(BuildStatus::Success));
}

#[test]
fn published_marks_only_a_known_version() {
    let mut ledger = StatusWrapper::new("s");
    ledger.published("1.0.0");
    assert!(!ledger.is_published("1.0.0"));
    assert_eq!(ledger.status().len(), 0);
    ledger.start("a", "1.0.0");
    ledger.published("1.0.0");
    assert!(ledger.is_published("1.0.0"));
}

#[test]
fn reset_all_sets_every_build_back_to_waiting() {
    let mut ledger = StatusWrapper::new("s");
    ledger.succeed("a", "1.0.0");
    ledger.fail("b", "1.0.0");
    ledger.succeed("a", "2.0.0");
    ledger.publish("1.0.0");
    ledger.reset_all("1.0.0");
    assert_eq!(state_of(&ledger, "1.0.0", "a"), Some(BuildStatus::Waiting));
    assert_eq!(state_of(&ledger, "1.0.0", "b"), Some(BuildStatus::Waiting));
    assert_eq!(state_of(&ledger, "2.0.0", "a"), Some(BuildStatus::Success));
    assert!(ledger.is_published("1.0.0"));
    assert!(ledger.needs_compile("a", "1.0.0"));
}

#[test]
fn reset_all_adds_a_record_for_an_unknown_version() {
    let mut ledger = StatusWrapper::new("s");
    ledger.reset_all("1.0.0");
    assert_eq!(ledger.status().len(), 1);
    assert_eq!(ledger.status().get("1.0.0").unwrap().build_names().len(), 0);
    assert!(!ledger.is_published("1.0.0"));
}

#[test]
fn the_default_record_is_unpublished_and_empty() {
    let record = VersionStatus::default();
    assert!(!record.is_published());
    assert_eq!(record.build_names().len(), 0);
}

#[test]
fn read_takes_over_what_was_loaded() {
    let mut builds = Table::new();
    builds.insert("a".to_string(), BuildStatus::Success);
    let mut loaded: Status = Table::new();
    loaded.insert("1.0.0".to_string(), VersionStatus::new(true, builds));
    let mut ledger = StatusWrapper::new("s");
    ledger.start("old", "0.1.0");
    assert!(ledger.read(Ok(loaded)).is_ok());
    assert_eq!(ledger.status().len(), 1);
    assert!(ledger.is_published("1.0.0"));
    assert!(!ledger.needs_compile("a", "1.0.0"));
    assert!(ledger.needs_compile("old", "0.1.0"));
    assert_eq!(ledger.filepath(), "s");
}

#[test]
fn a_failed_read_leaves_the_ledger_as_it_was() {
    let mut ledger = StatusWrapper::new("s");
    ledger.succeed("a", "1.0.0");
    let result = ledger.read(Err(Error::IO("gone".to_string())));
    assert!(matches!(result, Err(Error::IO(ref text)) if text == "gone"));
    assert!(!ledger.needs_compile("a", "1.0.0"));
}

#[test]
fn an_output_name_is_found_again_in_the_ledger() {
    let target = release_manager::Target::new(
        release_manager::OS::Linux,
        release_manager::Arch::Amd64,
        Some("slim".to_string()),
    )
    .unwrap();
    let name = target.output_str();
    let mut ledger = StatusWrapper::new("s");
    ledger.succeed(&name, "1.0.0");
    let record = ledger.status().get("1.0.0").unwrap();
    assert_eq!(record.build_names().len(), 1);
    assert_eq!(record.build_names().key_at(0), "x86_64-unknown-linux-gnu-slim");
    assert_eq!(record.build_names().key_at(0), &target.output_str());
    assert!(!ledger.needs_compile(&target.output_str(), "1.0.0"));
}
