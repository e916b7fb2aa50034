use release_manager::error::Error;
use release_manager::run::{Action, Event, Phase, Run, Verdict};
use release_manager::status::{BuildStatus, StatusWrapper};
use release_manager::target::{Arch, Target, OS};

fn linux() -> Target {
    Target::new(OS::Linux, Arch::Amd64, None).unwrap()
}

fn windows() -> Target {
    Target::new(OS::Windows, Arch::Amd64, None).unwrap()
}

fn state_of(ledger: &StatusWrapper, version: &str, build: &str) -> Option<BuildStatus> {
    match ledger.status().get(version) {
        Some(record) => record.build_names().get(build).copied(),
        None => None,
    }
}

#[test]
fn a_first_run_builds_packs_and_publishes() {
    let mut ledger = StatusWrapper::new("Status.toml");
    let (mut run, first) = Run::begin(vec![linux()], "1.0.0", false, true, &mut ledger);
    assert_eq!(first, Action::Persist);
    assert_eq!(run.step(&mut ledger, Event::Persisted), Action::Persist);
    assert_eq!(
        state_of(&ledger, "1.0.0", "x86_64-unknown-linux-gnu"),
        Some(BuildStatus::Started)
    );
    assert_eq!(run.step(&mut ledger, Event::Persisted), Action::Build(0));
    assert_eq!(
        state_of(&ledger, "1.0.0", "x86_64-unknown-linux-gnu"),
        Some(BuildStatus::Started)
    );
    assert_eq!(run.step(&mut ledger, Event::Built(true)), Action::Persist);
    assert_eq!(
        state_of(&ledger, "1.0.0", "x86_64-unknown-linux-gnu"),
        Some(BuildStatus::Success)
    );
    assert_eq!(run.step(&mut ledger, Event::Persisted), Action::Package(0));
    assert_eq!(run.step(&mut ledger, Event::Packaged), Action::Persist);
    assert_eq!(run.phase(), Phase::Closing);
    assert!(ledger.all_clear("1.0.0"));
    assert_eq!(run.step(&mut ledger, Event::Persisted), Action::Publish);
    assert!(!ledger.is_published("1.0.0"));
    assert_eq!(run.step(&mut ledger, Event::PublishEnded(true)), Action::Persist);
    assert!(ledger.is_published("1.0.0"));
    assert_eq!(
        run.step(&mut ledger, Event::Persisted),
        Action::Finish(Verdict::Succeeded)
    );
    assert_eq!(run.phase(), Phase::Done(Verdict::Succeeded));
    assert!(Verdict::Succeeded.into_result().is_ok());
}

#[test]
fn a_second_run_skips_what_succeeded() {
    let mut ledger = StatusWrapper::new("Status.toml");
    ledger.succeed("x86_64-unknown-linux-gnu", "1.0.0");
    let (mut run, first) = Run::begin(vec![linux()], "1.0.0", false, false, &mut ledger);
    assert_eq!(first, Action::Persist);
    assert_eq!(run.step(&mut ledger, Event::Persisted), Action::Persist);
    assert_eq!(run.phase(), Phase::Closing);
    assert_eq!(
        state_of(&ledger, "1.0.0", "x86_64-unknown-linux-gnu"),
        Some(BuildStatus::Success)
    );
    assert_eq!(
        run.step(&mut ledger, Event::Persisted),
        Action::Finish(Verdict::Succeeded)
    );
    assert_eq!(
        state_of(&ledger, "1.0.0", "x86_64-unknown-linux-gnu"),
        Some(BuildStatus::Success)
    );
    assert_eq!(ledger.status().get("1.0.0").unwrap().build_names().len(), 1);
}

#[test]
fn force_builds_what_succeeded_again() {
    let mut ledger = StatusWrapper::new("s");
    ledger.succeed("x86_64-unknown-linux-gnu", "1.0.0");
    let (mut run, first) = Run::begin(vec![linux()], "1.0.0", true, false, &mut ledger);
    assert_eq!(first, Action::Persist);
    assert_eq!(run.step(&mut ledger, Event::Persisted), Action::Persist);
    assert_eq!(run.phase(), Phase::SavingStarted(0));
    assert_eq!(
        state_of(&ledger, "1.0.0", "x86_64-unknown-linux-gnu"),
        Some(BuildStatus::Started)
    );
    assert_eq!(run.step(&mut ledger, Event::Persisted), Action::Build(0));
}

#[test]
fn publishing_a_published_version_is_rejected_at_once() {
    let mut ledger = StatusWrapper::new("s");
    ledger.succeed("old-target", "1.0.0");
    ledger.publish("1.0.0");
    let (mut run, first) = Run::begin(vec![linux()], "1.0.0", false, true, &mut ledger);
    assert_eq!(first, Action::Finish(Verdict::RePublish));
    assert!(matches!(Verdict::RePublish.into_result(), Err(Error::RePublish)));
    assert_eq!(state_of(&ledger, "1.0.0", "old-target"), Some(BuildStatus::Success));
    assert_eq!(state_of(&ledger, "1.0.0", "x86_64-unknown-linux-gnu"), None);
    assert!(ledger.is_published("1.0.0"));
    assert_eq!(
        run.step(&mut ledger, Event::Persisted),
        Action::Finish(Verdict::RePublish)
    );
}

#[test]
fn a_published_version_can_be_built_without_publishing() {
    let mut ledger = StatusWrapper::new("s");
    ledger.publish("1.0.0");
    let (run, first) = Run::begin(vec![linux()], "1.0.0", false, false, &mut ledger);
    assert_eq!(first, Action::Persist);
    assert_eq!(run.phase(), Phase::SavingPruned);
}

#[test]
fn a_failed_build_does_not_stop_the_later_targets() {
    let mut ledger = StatusWrapper::new("s");
    let (mut run, first) = Run::begin(vec![linux(), windows()], "1.0.0", false, true, &mut ledger);
    assert_eq!(first, Action::Persist);
    assert_eq!(run.step(&mut ledger, Event::Persisted), Action::Persist);
    assert_eq!(run.step(&mut ledger, Event::Persisted), Action::Build(0));
    assert_eq!(run.step(&mut ledger, Event::Built(false)), Action::Persist);
    assert_eq!(
        state_of(&ledger, "1.0.0", "x86_64-unknown-linux-gnu"),
        Some(BuildStatus::Failed)
    );
    assert_eq!(run.step(&mut ledger, Event::Persisted), Action::Persist);
    assert_eq!(run.phase(), Phase::SavingStarted(1));
    assert_eq!(run.step(&mut ledger, Event::Persisted), Action::Build(1));
    assert_eq!(run.step(&mut ledger, Event::Built(true)), Action::Persist);
    assert_eq!(run.step(&mut ledger, Event::Persisted), Action::Package(1));
    assert_eq!(run.step(&mut ledger, Event::Packaged), Action::Persist);
    assert_eq!(
        run.step(&mut ledger, Event::Persisted),
        Action::Finish(Verdict::FailedBuilds)
    );
    assert!(matches!(Verdict::FailedBuilds.into_result(), Err(Error::FailedBuilds)));
    assert!(!ledger.is_published("1.0.0"));
    assert_eq!(
        state_of(&ledger, "1.0.0", "x86_64-pc-windows-gnu"),
        Some(BuildStatus::Success)
    );
}

#[test]
fn a_retry_builds_only_what_failed() {
    let mut ledger = StatusWrapper::new("s");
    ledger.fail("x86_64-unknown-linux-gnu", "1.0.0");
    ledger.succeed("x86_64-pc-windows-gnu", "1.0.0");
    let (mut run, first) = Run::begin(vec![windows(), linux()], "1.0.0", false, false, &mut ledger);
    assert_eq!(first, Action::Persist);
    assert_eq!(run.step(&mut ledger, Event::Persisted), Action::Persist);
    assert_eq!(run.phase(), Phase::SavingStarted(1));
    assert_eq!(run.step(&mut ledger, Event::Persisted), Action::Build(1));
    assert_eq!(run.step(&mut ledger, Event::Built(true)), Action::Persist);
    assert_eq!(run.step(&mut ledger, Event::Persisted), Action::Package(1));
    assert_eq!(run.step(&mut ledger, Event::Packaged), Action::Persist);
    assert_eq!(
        run.step(&mut ledger, Event::Persisted),
        Action::Finish(Verdict::Succeeded)
    );
}

#[test]
fn the_run_prunes_builds_of_targets_that_are_gone() {
    let mut ledger = StatusWrapper::new("s");
    ledger.fail("x86_64-apple-darwin", "1.0.0");
    ledger.succeed("x86_64-unknown-linux-gnu", "1.0.0");
    let (mut run, first) = Run::begin(vec![linux()], "1.0.0", false, false, &mut ledger);
    assert_eq!(first, Action::Persist);
    assert_eq!(state_of(&ledger, "1.0.0", "x86_64-apple-darwin"), None);
    assert_eq!(
        state_of(&ledger, "1.0.0", "x86_64-unknown-linux-gnu"),
        Some(BuildStatus::Success)
    );
    assert_eq!(run.step(&mut ledger, Event::Persisted), Action::Persist);
    assert_eq!(
        run.step(&mut ledger, Event::Persisted),
        Action::Finish(Verdict::Succeeded)
    );
}

#[test]
fn a_run_without_targets_is_clear() {
    let mut ledger = StatusWrapper::new("s");
    let (mut run, first) = Run::begin(Vec::new(), "1.0.0", false, false, &mut ledger);
    assert_eq!(first, Action::Persist);
    assert_eq!(run.step(&mut ledger, Event::Persisted), Action::Persist);
    assert_eq!(
        run.step(&mut ledger, Event::Persisted),
        Action::Finish(Verdict::Succeeded)
    );
}

#[test]
fn a_failed_publish_leaves_the_version_unpublished() {
    let mut ledger = StatusWrapper::new("s");
    ledger.succeed("x86_64-unknown-linux-gnu", "1.0.0");
    let (mut run, first) = Run::begin(vec![linux()], "1.0.0", false, true, &mut ledger);
    assert_eq!(first, Action::Persist);
    assert_eq!(run.step(&mut ledger, Event::Persisted), Action::Persist);
    assert_eq!(run.step(&mut ledger, Event::Persisted), Action::Publish);
    assert_eq!(run.step(&mut ledger, Event::PublishEnded(false)), Action::Persist);
    assert!(!ledger.is_published("1.0.0"));
    assert_eq!(
        run.step(&mut ledger, Event::Persisted),
        Action::Finish(Verdict::Succeeded)
    );
}

#[test]
fn an_event_that_answers_nothing_is_passed_over() {
    let mut ledger = StatusWrapper::new("s");
    let (mut run, first) = Run::begin(vec![linux()], "1.0.0", false, false, &mut ledger);
    assert_eq!(first, Action::Persist);
    assert_eq!(run.step(&mut ledger, Event::Built(true)), Action::Persist);
    assert_eq!(run.phase(), Phase::SavingPruned);
    assert_eq!(ledger.status().len(), 0);
    assert_eq!(run.step(&mut ledger, Event::Persisted), Action::Persist);
    assert_eq!(run.step(&mut ledger, Event::Persisted), Action::Build(0));
    assert_eq!(run.step(&mut ledger, Event::Persisted), Action::Build(0));
    assert_eq!(run.step(&mut ledger, Event::Packaged), Action::Build(0));
    assert_eq!(run.phase(), Phase::Building(0));
    assert_eq!(
        state_of(&ledger, "1.0.0", "x86_64-unknown-linux-gnu"),
        Some(BuildStatus::Started)
    );
}

#[test]
fn the_run_records_builds_under_the_output_name() {
    let named = Target::new(OS::Linux, Arch::Amd64, Some("slim".to_string())).unwrap();
    let mut ledger = StatusWrapper::new("s");
    ledger.succeed("x86_64-unknown-linux-gnu", "1.0.0");
    let (mut run, first) = Run::begin(vec![linux(), named], "1.0.0", false, false, &mut ledger);
    assert_eq!(run.targets().len(), 2);
    assert_eq!(run.version(), "1.0.0");
    assert_eq!(first, Action::Persist);
    assert_eq!(run.step(&mut ledger, Event::Persisted), Action::Persist);
    assert_eq!(run.phase(), Phase::SavingStarted(1));
    assert_eq!(
        state_of(&ledger, "1.0.0", "x86_64-unknown-linux-gnu-slim"),
        Some(BuildStatus::Started)
    );
}

#[test]
fn a_run_keeps_the_first_of_the_targets_with_one_name() {
    let mut first = linux();
    first.add_libs(&["/first".to_string()]);
    let mut ledger = StatusWrapper::new("s");
    let (mut run, action) =
        Run::begin(vec![first, linux(), windows(), linux()], "1.0.0", true, false, &mut ledger);
    assert_eq!(action, Action::Persist);
    assert_eq!(run.targets().len(), 2);
    assert_eq!(run.targets()[0].libs(), "-L native=/first");
    assert_eq!(run.targets()[1].output_str(), "x86_64-pc-windows-gnu");
    assert_eq!(run.step(&mut ledger, Event::Persisted), Action::Persist);
    assert_eq!(run.step(&mut ledger, Event::Persisted), Action::Build(0));
    assert_eq!(run.step(&mut ledger, Event::Built(true)), Action::Persist);
    assert_eq!(run.step(&mut ledger, Event::Persisted), Action::Package(0));
    assert_eq!(run.step(&mut ledger, Event::Packaged), Action::Persist);
    assert_eq!(run.step(&mut ledger, Event::Persisted), Action::Build(1));
    assert_eq!(run.step(&mut ledger, Event::Built(true)), Action::Persist);
    assert_eq!(run.step(&mut ledger, Event::Persisted), Action::Package(1));
    assert_eq!(run.step(&mut ledger, Event::Packaged), Action::Persist);
    assert_eq!(run.phase(), Phase::Closing);
    assert_eq!(
        run.step(&mut ledger, Event::Persisted),
        Action::Finish(Verdict::Succeeded)
    );
    assert_eq!(ledger.status().get("1.0.0").unwrap().build_names().len(), 2);
}

#[test]
fn the_outcome_of_one_build_leaves_the_others_as_they_were() {
    let mut ledger = StatusWrapper::new("s");
    ledger.fail("x86_64-pc-windows-gnu", "1.0.0");
    let (mut run, _) = Run::begin(vec![linux(), windows()], "1.0.0", false, false, &mut ledger);
    assert_eq!(run.step(&mut ledger, Event::Persisted), Action::Persist);
    assert_eq!(run.step(&mut ledger, Event::Persisted), Action::Build(0));
    assert_eq!(run.step(&mut ledger, Event::Built(false)), Action::Persist);
    assert_eq!(
        state_of(&ledger, "1.0.0", "x86_64-unknown-linux-gnu"),
        Some(BuildStatus::Failed)
    );
    assert_eq!(
        state_of(&ledger, "1.0.0", "x86_64-pc-windows-gnu"),
        Some(BuildStatus::Failed)
    );
}

#[test]
fn skipped_names_the_targets_that_are_not_due() {
    let mac = Target::new(OS::Mac, Arch::Amd64, None).unwrap();
    let mut ledger = StatusWrapper::new("s");
    ledger.succeed("x86_64-unknown-linux-gnu", "1.0.0");
    ledger.fail("x86_64-pc-windows-gnu", "1.0.0");
    ledger.succeed("x86_64-apple-darwin", "1.0.0");
    ledger.succeed("x86_64-pc-windows-gnu", "0.9.0");
    let (run, _) =
        Run::begin(vec![linux(), windows(), mac], "1.0.0", false, false, &mut ledger);
    assert_eq!(run.skipped(&ledger), vec![0, 2]);
    let mut other = StatusWrapper::new("s");
    other.succeed("x86_64-unknown-linux-gnu", "1.0.0");
    let (forced, _) = Run::begin(vec![linux(), windows()], "1.0.0", true, false, &mut other);
    assert_eq!(forced.skipped(&other), Vec::<usize>::new());
}
