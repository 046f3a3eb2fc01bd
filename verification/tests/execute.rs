use foton::db::{DbEntry, PackageDatabase};
use foton::engine::cleanup::{CleanupTracker, RegistrationGuard, RegistrationRelease};
use foton::engine::execute::{ExecutionState, PreparedStep, StepOutcome};
use foton::engine::plan::step::{
    ActivateOp, ActivateReason, DeactivateOp, DeactivateReason, ExecutionPlan, InstallOp, InstallReason, PlanStep,
    PlanStepOp, SkipOp, SkipReason, StepCondition, StepIdGenerator, StepResult, UninstallOp, UninstallReason,
};
use foton::package::definition::PackageDefinition;
use foton::package::file_name::{FileName, FontEntry};
use foton::package::id::PackageId;
use foton::package::manifest::parse_manifest;
use foton::package::spec::PackageSpec;
use foton::package::state::{ActivationState, InstallationState};

fn make_package_definition(id: &str) -> PackageDefinition {
    let (name, version) = id.split_once('@').unwrap();
    parse_manifest(&format!(
        r#"
name = "{name}"
version = "{version}"

[[sources]]
url = "https://example.com/{name}-{version}.zip"
hash = "sha256:0123456789abcdef0123456789abcdef0123456789abcdef0123456789abcdef"

[sources.contents]
type = "archive"
"#
    ))
    .unwrap()
}

fn pkg_id(s: &str) -> PackageId {
    PackageId::parse(s).unwrap()
}

fn db_with(entries: &[(&str, InstallationState, ActivationState)]) -> PackageDatabase {
    let mut db = PackageDatabase::new();
    for (id, installation, activation) in entries {
        db.insert(DbEntry::new(pkg_id(id), *installation, *activation, vec![])).unwrap();
    }
    db
}

fn installation_of(db: &PackageDatabase, id: &str) -> Option<InstallationState> {
    db.entry_by_id(&pkg_id(id)).map(|e| e.installation_state())
}

fn activation_of(db: &PackageDatabase, id: &str) -> Option<ActivationState> {
    db.entry_by_id(&pkg_id(id)).map(|e| e.activation_state())
}

fn prepare(db: &mut PackageDatabase, op: PlanStepOp) -> PreparedStep {
    let step = PlanStep::new(op, &mut StepIdGenerator::new());
    PreparedStep::from_plan_step(db, step).unwrap().unwrap()
}

fn install_op(id: &str) -> PlanStepOp {
    PlanStepOp::Install(InstallOp { pkg: make_package_definition(id), reason: InstallReason::RequestedByUser })
}

fn uninstall_op(id: &str) -> PlanStepOp {
    PlanStepOp::Uninstall(UninstallOp { pkg_id: pkg_id(id), reason: UninstallReason::RequestedByUser })
}

fn activate_op(id: &str) -> PlanStepOp {
    PlanStepOp::Activate(ActivateOp { pkg_id: pkg_id(id), reason: ActivateReason::RequestedByUser })
}

fn deactivate_op(id: &str) -> PlanStepOp {
    PlanStepOp::Deactivate(DeactivateOp { pkg_id: pkg_id(id), reason: DeactivateReason::RequestedByUser })
}

const PKG: &str = "example-font@0.1.0";

#[test]
fn prepared_activate_step_from_plan_step_begins_incomplete_activation_in_transaction() {
    let mut db = db_with(&[(PKG, InstallationState::Installed, ActivationState::Inactive)]);

    let step = prepare(&mut db, activate_op(PKG));

    assert_eq!(activation_of(&db, PKG), Some(ActivationState::IncompleteActivation));
    assert_eq!(step.pkg_id(), &pkg_id(PKG));
}

#[test]
fn prepared_activate_step_on_complete_marks_entry_active() {
    let mut db = db_with(&[(PKG, InstallationState::Installed, ActivationState::Inactive)]);
    let step = prepare(&mut db, activate_op(PKG));

    step.on_complete(&mut db, vec![]);

    assert_eq!(activation_of(&db, PKG), Some(ActivationState::Active));
}

#[test]
fn prepared_activate_step_on_failure_restores_inactive_when_cleanup_is_not_required() {
    let mut db = db_with(&[(PKG, InstallationState::Installed, ActivationState::Inactive)]);
    let step = prepare(&mut db, activate_op(PKG));
    let tracker = CleanupTracker::new();

    step.on_failure(&mut db, tracker.cleanup_required());

    assert_eq!(activation_of(&db, PKG), Some(ActivationState::Inactive));
}

#[test]
fn prepared_activate_step_on_failure_marks_incomplete_deactivation_when_cleanup_is_required() {
    let mut db = db_with(&[(PKG, InstallationState::Installed, ActivationState::Inactive)]);
    let step = prepare(&mut db, activate_op(PKG));
    let mut tracker = CleanupTracker::new();
    tracker.request_cleanup();

    step.on_failure(&mut db, tracker.cleanup_required());

    assert_eq!(activation_of(&db, PKG), Some(ActivationState::IncompleteDeactivation));
}

#[test]
fn activating_a_package_that_is_not_installed_is_refused() {
    let mut db = db_with(&[(PKG, InstallationState::IncompleteInstall, ActivationState::Inactive)]);
    let step = PlanStep::new(activate_op(PKG), &mut StepIdGenerator::new());

    assert!(PreparedStep::from_plan_step(&mut db, step).is_err());
    assert_eq!(activation_of(&db, PKG), Some(ActivationState::Inactive));
}

#[test]
fn prepared_deactivate_step_from_plan_step_begins_incomplete_deactivation_in_transaction() {
    let mut db = db_with(&[(PKG, InstallationState::Installed, ActivationState::Active)]);

    let step = prepare(&mut db, deactivate_op(PKG));

    assert_eq!(activation_of(&db, PKG), Some(ActivationState::IncompleteDeactivation));
    assert_eq!(step.pkg_id(), &pkg_id(PKG));
}

#[test]
fn prepared_deactivate_step_on_complete_marks_entry_inactive() {
    let mut db = db_with(&[(PKG, InstallationState::Installed, ActivationState::Active)]);
    let step = prepare(&mut db, deactivate_op(PKG));

    step.on_complete(&mut db, vec![]);

    assert_eq!(activation_of(&db, PKG), Some(ActivationState::Inactive));
}

#[test]
fn prepared_install_step_from_plan_step_begins_incomplete_install_in_transaction() {
    let mut db = PackageDatabase::new();

    let step = prepare(&mut db, install_op(PKG));

    assert_eq!(installation_of(&db, PKG), Some(InstallationState::IncompleteInstall));
    assert_eq!(step.pkg_id(), &pkg_id(PKG));
}

#[test]
fn prepared_install_step_after_commit_persists_installed_inactive_state() {
    let mut db = PackageDatabase::new();
    let step = prepare(&mut db, install_op(PKG));

    let fonts = vec![FontEntry::new(FileName::new("Example-Regular.ttf").unwrap())];
    step.on_complete(&mut db, fonts);

    let entry = db.entry_by_id(&pkg_id(PKG)).unwrap();
    assert_eq!(entry.installation_state(), InstallationState::Installed);
    assert_eq!(entry.activation_state(), ActivationState::Inactive);
    assert_eq!(entry.fonts().iter().map(|f| f.file_name().as_str().to_string()).collect::<Vec<_>>(), ["Example-Regular.ttf"]);
}

#[test]
fn prepared_install_step_on_failure_removes_incomplete_install_without_cleanup() {
    let mut db = PackageDatabase::new();
    let step = prepare(&mut db, install_op(PKG));

    step.on_failure(&mut db, false);

    assert!(db.entry_by_id(&pkg_id(PKG)).is_none());
}

#[test]
fn prepared_install_step_on_failure_marks_incomplete_uninstall_when_cleanup_is_required() {
    let mut db = PackageDatabase::new();
    let step = prepare(&mut db, install_op(PKG));
    let mut tracker = CleanupTracker::new();
    tracker.request_cleanup();

    step.on_failure(&mut db, tracker.cleanup_required());

    assert_eq!(installation_of(&db, PKG), Some(InstallationState::IncompleteUninstall));
}

#[test]
fn install_db_guard_preserves_incomplete_install_before_completion() {
    let mut db = PackageDatabase::new();

    let _step = prepare(&mut db, install_op(PKG));

    assert_eq!(installation_of(&db, PKG), Some(InstallationState::IncompleteInstall));
}

#[test]
fn dropping_install_guard_rolls_back_persisted_incomplete_install() {
    let mut db = PackageDatabase::new();
    let step = prepare(&mut db, install_op(PKG));
    let tracker = CleanupTracker::new();

    step.on_failure(&mut db, tracker.cleanup_required());

    assert_eq!(installation_of(&db, PKG), None);
}

#[test]
fn dropping_install_guard_keeps_incomplete_uninstall_when_cleanup_failed() {
    let mut db = PackageDatabase::new();
    let step = prepare(&mut db, install_op(PKG));
    let mut tracker = CleanupTracker::new();
    tracker.do_base_cleanup(|| Err::<(), ()>(())).unwrap_err();

    step.on_failure(&mut db, tracker.cleanup_required());

    assert_eq!(installation_of(&db, PKG), Some(InstallationState::IncompleteUninstall));
}

#[test]
fn complete_install_persists_installed_state() {
    let mut db = PackageDatabase::new();
    let step = prepare(&mut db, install_op(PKG));

    step.on_complete(&mut db, vec![]);

    assert_eq!(installation_of(&db, PKG), Some(InstallationState::Installed));
}

#[test]
fn reinstalling_over_an_incomplete_uninstall_starts_a_fresh_install() {
    let mut db = db_with(&[(PKG, InstallationState::IncompleteUninstall, ActivationState::IncompleteDeactivation)]);

    let _step = prepare(&mut db, install_op(PKG));

    assert_eq!(installation_of(&db, PKG), Some(InstallationState::IncompleteInstall));
    assert_eq!(activation_of(&db, PKG), Some(ActivationState::Inactive));
}

#[test]
fn prepared_uninstall_step_from_plan_step_begins_incomplete_uninstall_in_transaction() {
    let mut db = db_with(&[(PKG, InstallationState::Installed, ActivationState::Inactive)]);

    let step = prepare(&mut db, uninstall_op(PKG));

    assert_eq!(installation_of(&db, PKG), Some(InstallationState::IncompleteUninstall));
    assert_eq!(activation_of(&db, PKG), Some(ActivationState::Inactive));
    assert_eq!(step.pkg_id(), &pkg_id(PKG));
}

#[test]
fn prepared_uninstall_step_on_complete_removes_db_record() {
    let mut db = db_with(&[(PKG, InstallationState::IncompleteUninstall, ActivationState::Inactive)]);
    let step = prepare(&mut db, uninstall_op(PKG));

    step.on_complete(&mut db, vec![]);

    assert!(db.entry_by_id(&pkg_id(PKG)).is_none());
}

#[test]
fn returns_prepared_step_for_install_ops() {
    let mut db = PackageDatabase::new();
    let step = PlanStep::new(install_op("install-font@0.1.0"), &mut StepIdGenerator::new());
    let step_id = step.step_id();

    let prepared = PreparedStep::from_plan_step(&mut db, step).unwrap().unwrap();

    assert_eq!(prepared.step_id(), step_id);
}

#[test]
fn returns_prepared_step_for_uninstall_ops() {
    let mut db = db_with(&[("uninstall-font@0.1.0", InstallationState::Installed, ActivationState::Inactive)]);
    let step = PlanStep::new(uninstall_op("uninstall-font@0.1.0"), &mut StepIdGenerator::new());
    let step_id = step.step_id();

    let prepared = PreparedStep::from_plan_step(&mut db, step).unwrap().unwrap();

    assert_eq!(prepared.step_id(), step_id);
}

#[test]
fn returns_none_for_skip_ops() {
    let mut db = PackageDatabase::new();
    let step = PlanStep::new(
        PlanStepOp::Skip(SkipOp {
            pkg_spec: PackageSpec::from_id(pkg_id("skipped-font@0.1.0")),
            reason: SkipReason::AlreadyInstalled,
        }),
        &mut StepIdGenerator::new(),
    );

    let prepared = PreparedStep::from_plan_step(&mut db, step).unwrap();

    assert!(prepared.is_none());
}

fn conditional_uninstall_state(db: &mut PackageDatabase) -> (ExecutionState, u64, u64) {
    db.insert(DbEntry::new(pkg_id("dependency-font@0.1.0"), InstallationState::Installed, ActivationState::Inactive, vec![]))
        .unwrap();
    db.insert(DbEntry::new(pkg_id("dependent-font@0.1.0"), InstallationState::Installed, ActivationState::Inactive, vec![]))
        .unwrap();
    let mut ids = StepIdGenerator::new();
    let dependency_step = PlanStep::new(uninstall_op("dependency-font@0.1.0"), &mut ids);
    let dependency_step_id = dependency_step.step_id();
    let dependent_step = PlanStep::with_conditions(
        uninstall_op("dependent-font@0.1.0"),
        vec![StepCondition::AfterSuccess(dependency_step_id)],
        &mut ids,
    );
    let dependent_step_id = dependent_step.step_id();
    (
        ExecutionState::new(ExecutionPlan::new(vec![dependent_step, dependency_step])),
        dependency_step_id.0,
        dependent_step_id.0,
    )
}

#[test]
fn prepare_ready_steps_only_enqueues_executable_steps() {
    let mut db = PackageDatabase::new();
    let (mut state, dependency_step_id, _dependent_step_id) = conditional_uninstall_state(&mut db);

    assert_eq!(state.prepare_ready_steps(&mut db).unwrap(), 1);

    let first = state.pop_ready().unwrap();
    assert_eq!(first.step_id().0, dependency_step_id);
    assert!(state.pop_ready().is_none());
    assert_eq!(state.pending_len(), 1);
}

#[test]
fn notify_result_success_unblocks_dependent_step() {
    let mut db = PackageDatabase::new();
    let (mut state, dependency_step_id, dependent_step_id) = conditional_uninstall_state(&mut db);
    state.prepare_ready_steps(&mut db).unwrap();

    let first = state.pop_ready().unwrap();
    assert_eq!(first.step_id().0, dependency_step_id);

    state.notify_result(first.step_id(), StepResult::Success);
    state.prepare_ready_steps(&mut db).unwrap();

    let second = state.pop_ready().unwrap();
    assert_eq!(second.step_id().0, dependent_step_id);
    assert!(state.pop_ready().is_none());
    assert_eq!(state.pending_len(), 0);
}

#[test]
fn notify_result_failure_keeps_dependent_step_pending() {
    let mut db = PackageDatabase::new();
    let (mut state, dependency_step_id, _dependent_step_id) = conditional_uninstall_state(&mut db);
    state.prepare_ready_steps(&mut db).unwrap();

    let first = state.pop_ready().unwrap();
    assert_eq!(first.step_id().0, dependency_step_id);

    state.notify_result(first.step_id(), StepResult::Failure);
    state.prepare_ready_steps(&mut db).unwrap();

    assert!(state.pop_ready().is_none());
    assert_eq!(state.pending_len(), 1);
}

#[test]
fn finish_step_records_the_outcome_and_starts_unblocked_steps() {
    let mut db = PackageDatabase::new();
    let (mut state, _dependency_step_id, dependent_step_id) = conditional_uninstall_state(&mut db);
    state.prepare_ready_steps(&mut db).unwrap();
    let first = state.pop_ready().unwrap();

    let (result, prepared) = state.finish_step(&mut db, &first, StepOutcome::Succeeded { fonts: vec![] });

    assert_eq!(result, StepResult::Success);
    assert_eq!(prepared.unwrap(), 1);
    assert!(db.entry_by_id(&pkg_id("dependency-font@0.1.0")).is_none());
    assert_eq!(installation_of(&db, "dependent-font@0.1.0"), Some(InstallationState::IncompleteUninstall));
    assert_eq!(state.pop_ready().unwrap().step_id().0, dependent_step_id);
}

#[test]
fn finish_step_after_failure_leaves_the_dependent_step_unstarted() {
    let mut db = PackageDatabase::new();
    let (mut state, _dependency_step_id, _dependent_step_id) = conditional_uninstall_state(&mut db);
    state.prepare_ready_steps(&mut db).unwrap();
    let first = state.pop_ready().unwrap();

    let (result, prepared) = state.finish_step(&mut db, &first, StepOutcome::Failed { cleanup_required: false });

    assert_eq!(result, StepResult::Failure);
    assert_eq!(prepared.unwrap(), 0);
    assert_eq!(installation_of(&db, "dependency-font@0.1.0"), Some(InstallationState::IncompleteUninstall));
    assert_eq!(installation_of(&db, "dependent-font@0.1.0"), Some(InstallationState::Installed));
    assert_eq!(state.pending_len(), 1);
    assert_eq!(state.ready_len(), 0);
}

#[test]
fn registration_dropping_unregistered_guard_requests_cleanup() {
    let guard = RegistrationGuard::new(pkg_id(PKG));
    let mut tracker = CleanupTracker::new();

    match guard.release() {
        RegistrationRelease::RequestCleanup => tracker.request_cleanup(),
        other => panic!("unexpected release {other:?}"),
    }

    assert!(tracker.cleanup_required());
}

#[test]
fn registration_disarming_unregistered_guard_does_not_request_cleanup() {
    let mut guard = RegistrationGuard::new(pkg_id(PKG));
    let tracker = CleanupTracker::new();

    guard.disarm();

    assert_eq!(guard.release(), RegistrationRelease::Keep);
    assert!(!tracker.cleanup_required());
}

#[test]
fn registration_dropping_registered_guard_keeps_cleanup_clear_when_unregister_succeeds() {
    let mut guard = RegistrationGuard::new(pkg_id(PKG));
    let mut tracker = CleanupTracker::new();
    guard.mark_registered();

    assert_eq!(guard.release(), RegistrationRelease::Unregister);
    let unregistered: Result<(), ()> = tracker.do_rollback_cleanup(|| Ok(()));

    assert!(unregistered.is_ok());
    assert!(!tracker.cleanup_required());
}

#[test]
fn cleanup_tracker_remembers_a_failed_rollback() {
    let mut tracker = CleanupTracker::new();
    let failed: Result<(), &str> = tracker.do_rollback_cleanup(|| Err("unregister failed"));

    assert_eq!(failed, Err("unregister failed"));
    assert!(tracker.cleanup_required());
    let ok: Result<u32, &str> = tracker.do_base_cleanup(|| Ok(1));
    assert_eq!(ok, Ok(1));
    assert!(tracker.cleanup_required());
}

#[test]
fn prepare_step_begins_install_for_unconditional_install_step() {
    let mut db = PackageDatabase::new();
    let mut state = ExecutionState::new(ExecutionPlan::new(vec![PlanStep::new(
        install_op("install-font@0.1.0"),
        &mut StepIdGenerator::new(),
    )]));

    assert_eq!(state.prepare_ready_steps(&mut db).unwrap(), 1);

    assert_eq!(installation_of(&db, "install-font@0.1.0"), Some(InstallationState::IncompleteInstall));
}

#[test]
fn prepare_step_begins_uninstall_for_unconditional_uninstall_step() {
    let mut db = db_with(&[("uninstall-font@0.1.0", InstallationState::Installed, ActivationState::Inactive)]);
    let mut state = ExecutionState::new(ExecutionPlan::new(vec![PlanStep::new(
        uninstall_op("uninstall-font@0.1.0"),
        &mut StepIdGenerator::new(),
    )]));

    assert_eq!(state.prepare_ready_steps(&mut db).unwrap(), 1);

    assert_eq!(installation_of(&db, "uninstall-font@0.1.0"), Some(InstallationState::IncompleteUninstall));
}

#[test]
fn prepare_step_does_not_begin_conditional_uninstall_step() {
    let mut db = db_with(&[("conditional-uninstall-font@0.1.0", InstallationState::Installed, ActivationState::Inactive)]);
    let mut ids = StepIdGenerator::new();
    let dependency_step_id = foton::engine::plan::step::StepId::new(&mut ids);
    let step = PlanStep::with_conditions(
        uninstall_op("conditional-uninstall-font@0.1.0"),
        vec![StepCondition::AfterSuccess(dependency_step_id)],
        &mut ids,
    );
    let mut state = ExecutionState::new(ExecutionPlan::new(vec![step]));

    assert_eq!(state.prepare_ready_steps(&mut db).unwrap(), 0);

    assert_eq!(state.pending_len(), 1);
    assert_eq!(installation_of(&db, "conditional-uninstall-font@0.1.0"), Some(InstallationState::Installed));
}

#[test]
fn prepare_step_normalizes_incomplete_install_target_to_incomplete_uninstall() {
    let mut db = db_with(&[("repair-font@0.1.0", InstallationState::IncompleteInstall, ActivationState::Inactive)]);

    let _step = prepare(&mut db, uninstall_op("repair-font@0.1.0"));

    assert_eq!(installation_of(&db, "repair-font@0.1.0"), Some(InstallationState::IncompleteUninstall));
}

#[test]
fn prepare_step_returns_none_for_skip_ops() {
    let mut db = PackageDatabase::new();
    let skipped = pkg_id("skipped-font@0.1.0");
    let step = PlanStep::new(
        PlanStepOp::Skip(SkipOp { pkg_spec: PackageSpec::from_id(skipped.clone()), reason: SkipReason::AlreadyInstalled }),
        &mut StepIdGenerator::new(),
    );

    let prepared = PreparedStep::from_plan_step(&mut db, step).unwrap();

    assert!(prepared.is_none());
    assert!(db.entry_by_id(&skipped).is_none());
}

#[test]
fn first_failure_keeps_the_first_error_of_a_run() {
    let mut failures: foton::engine::execute::FirstFailure<&str> = foton::engine::execute::FirstFailure::new();
    failures.record("first");
    failures.record("second");
    assert_eq!(failures.into_result(), Err("first"));

    let none: foton::engine::execute::FirstFailure<&str> = foton::engine::execute::FirstFailure::new();
    assert_eq!(none.into_result(), Ok(()));
}
