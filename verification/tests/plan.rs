use std::collections::HashMap;

use foton::db::{DbEntry, PackageDatabase};
use foton::engine::plan::activation::{
    emit_activation_steps, emit_install_steps, first_unmet_activation, plan_activate, plan_install,
};
use foton::engine::plan::simple::{plan_deactivate, plan_repair, plan_uninstall};
use foton::engine::plan::step::{
    ActivateOp, ActivateReason, DeactivateOp, DeactivateReason, ExecutionPlan, InstallOp, InstallReason, PlanStep,
    PlanStepOp, SkipOp, SkipReason, StepCondition, StepId, StepIdGenerator, UninstallOp, UninstallReason,
};
use foton::engine::report::report_plan;
use foton::engine::target::{
    ActivationRepairKind, InstallResolutionDetail, InstallTargetKind, InstallationRepairKind, ResolvedActivateTarget,
    ResolvedDeactivateTarget, ResolvedInstallTarget, ResolvedRepairTarget, ResolvedUninstallTarget,
};
use foton::package::definition::PackageDefinition;
use foton::package::id::PackageId;
use foton::package::manifest::parse_manifest;
use foton::package::spec::PackageSpec;
use foton::package::state::{ActivationState, InstallationState};
use foton::simulate::{ActivationConflict, SimulatedActivationResult, SimulatedInstallationResult};

fn make_package_definition(id: &str) -> PackageDefinition {
    let (name, version) = id.split_once('@').unwrap();
    parse_manifest(&format!(
        r#"
name = "{name}"
version = "{version}"

[[sources]]
url = "https://example.com/{name}-{version}.zip"
hash = "sha256:0123456789abcdef0123456789abcdef0123456789abcdef0123456789abcdef"

[sources.contents]
type = "archive"
"#
    ))
    .unwrap()
}

fn pkg_id(s: &str) -> PackageId {
    PackageId::parse(s).unwrap()
}

fn spec_of(id: &PackageId) -> PackageSpec {
    PackageSpec::from_id(id.clone())
}

fn db_with(entries: &[(&str, InstallationState, ActivationState)]) -> PackageDatabase {
    let mut db = PackageDatabase::new();
    for (id, installation, activation) in entries {
        db.insert(DbEntry::new(pkg_id(id), *installation, *activation, vec![])).unwrap();
    }
    db
}

fn map_condition(map: &HashMap<StepId, StepId>, c: &StepCondition) -> StepCondition {
    match c {
        StepCondition::AfterSuccess(id) => StepCondition::AfterSuccess(map[id]),
        StepCondition::Never => StepCondition::Never,
    }
}

fn assert_plan_eq(actual: &[PlanStep], expected: &[PlanStep]) {
    assert_eq!(expected.len(), actual.len(), "plan step count mismatch:\n  actual: {actual:?}\nexpected: {expected:?}");
    let map: HashMap<StepId, StepId> =
        actual.iter().zip(expected).map(|(a, e)| (a.step_id(), e.step_id())).collect();
    for (a, e) in actual.iter().zip(expected) {
        assert_eq!(a.op(), e.op());
        let conditions: Vec<StepCondition> = a.conditions().iter().map(|c| map_condition(&map, c)).collect();
        assert_eq!(&conditions, e.conditions());
    }
}

fn install(pkg: &PackageDefinition, ids: &mut StepIdGenerator) -> PlanStep {
    PlanStep::new(
        PlanStepOp::Install(InstallOp { pkg: pkg.clone(), reason: InstallReason::RequestedByUser }),
        ids,
    )
}

fn activate(id: &PackageId, conditions: Vec<StepCondition>, ids: &mut StepIdGenerator) -> PlanStep {
    PlanStep::with_conditions(
        PlanStepOp::Activate(ActivateOp { pkg_id: id.clone(), reason: ActivateReason::RequestedByUser }),
        conditions,
        ids,
    )
}

fn deactivate(id: &PackageId, reason: DeactivateReason, conditions: Vec<StepCondition>, ids: &mut StepIdGenerator) -> PlanStep {
    PlanStep::with_conditions(PlanStepOp::Deactivate(DeactivateOp { pkg_id: id.clone(), reason }), conditions, ids)
}

fn skip(spec: PackageSpec, reason: SkipReason, ids: &mut StepIdGenerator) -> PlanStep {
    PlanStep::new(PlanStepOp::Skip(SkipOp { pkg_spec: spec, reason }), ids)
}

fn uninstall(id: &PackageId, reason: UninstallReason, conditions: Vec<StepCondition>, ids: &mut StepIdGenerator) -> PlanStep {
    PlanStep::with_conditions(PlanStepOp::Uninstall(UninstallOp { pkg_id: id.clone(), reason }), conditions, ids)
}

fn install_target(pkg: &PackageDefinition, should_activate: bool) -> ResolvedInstallTarget {
    ResolvedInstallTarget {
        kind: InstallTargetKind::Install { pkg: pkg.clone() },
        detail: InstallResolutionDetail::ManifestFile { path: "dummy".to_string() },
        should_activate,
    }
}

fn conflicts(target: &PackageId) -> (SimulatedActivationResult, PackageId, PackageId, PackageId) {
    let incomplete_activation = pkg_id("example-font@0.1.0");
    let incomplete_deactivation = pkg_id("example-font@0.2.0");
    let active = pkg_id("example-font@0.3.0");
    let _ = target;
    (
        SimulatedActivationResult::Activated {
            deactivated: vec![
                (incomplete_activation.clone(), ActivationConflict::IncompleteActivation),
                (incomplete_deactivation.clone(), ActivationConflict::IncompleteDeactivation),
                (active.clone(), ActivationConflict::ActiveOtherVersion),
            ],
        },
        incomplete_activation,
        incomplete_deactivation,
        active,
    )
}

#[test]
fn plan_deactivate_emits_deactivate_step_for_requested_target() {
    let pkg = make_package_definition("example-font@0.2.0");
    let targets = vec![ResolvedDeactivateTarget::Deactivate { pkg_id: pkg.id.clone() }];

    let plan = plan_deactivate(&targets, &mut StepIdGenerator::new());

    let mut ids = StepIdGenerator::new();
    assert_plan_eq(plan.steps(), &[deactivate(&pkg.id, DeactivateReason::RequestedByUser, vec![], &mut ids)]);
}

#[test]
fn plan_deactivate_skips_already_inactive_target() {
    let pkg = make_package_definition("example-font@0.2.0");
    let targets = vec![ResolvedDeactivateTarget::AlreadyInactive { pkg_spec: spec_of(&pkg.id) }];

    let plan = plan_deactivate(&targets, &mut StepIdGenerator::new());

    let mut ids = StepIdGenerator::new();
    assert_plan_eq(plan.steps(), &[skip(spec_of(&pkg.id), SkipReason::AlreadyInactive, &mut ids)]);
}

#[test]
fn plan_deactivate_skips_missing_target_using_original_spec() {
    let missing_spec = PackageSpec::parse("example-font").unwrap();
    let targets = vec![ResolvedDeactivateTarget::AlreadyInactive { pkg_spec: PackageSpec::parse("example-font").unwrap() }];

    let plan = plan_deactivate(&targets, &mut StepIdGenerator::new());

    let mut ids = StepIdGenerator::new();
    assert_plan_eq(plan.steps(), &[skip(missing_spec, SkipReason::AlreadyInactive, &mut ids)]);
}

#[test]
fn emit_activation_steps_emits_activate_and_cleanup_steps_from_conflicts() {
    let target = pkg_id("example-font@0.4.0");
    let (result, incomplete_activation, incomplete_deactivation, active) = conflicts(&target);
    let mut steps = vec![];

    emit_activation_steps(&target, None, result, &mut steps, &mut StepIdGenerator::new());

    let mut ids = StepIdGenerator::new();
    let activate_step = activate(&target, vec![], &mut ids);
    let after = vec![StepCondition::AfterSuccess(activate_step.step_id())];
    let expected = vec![
        activate_step,
        deactivate(&incomplete_activation, DeactivateReason::CleanupIncompleteActivation, after.clone(), &mut ids),
        deactivate(&incomplete_deactivation, DeactivateReason::CleanupIncompleteDeactivation, after.clone(), &mut ids),
        deactivate(&active, DeactivateReason::ConflictWithActivation { pkg_id: target.clone() }, after, &mut ids),
    ];
    assert_plan_eq(&steps, &expected);
}

#[test]
fn emit_activation_steps_orders_deactivations_by_package_id() {
    let target = pkg_id("example-font@0.4.0");
    let result = SimulatedActivationResult::Activated {
        deactivated: vec![
            (pkg_id("example-font@0.3.0"), ActivationConflict::ActiveOtherVersion),
            (pkg_id("example-font@0.1.0"), ActivationConflict::IncompleteActivation),
        ],
    };
    let mut steps = vec![];

    emit_activation_steps(&target, None, result, &mut steps, &mut StepIdGenerator::new());

    let mut ids = StepIdGenerator::new();
    let activate_step = activate(&target, vec![], &mut ids);
    let after = vec![StepCondition::AfterSuccess(activate_step.step_id())];
    let expected = vec![
        activate_step,
        deactivate(&pkg_id("example-font@0.1.0"), DeactivateReason::CleanupIncompleteActivation, after.clone(), &mut ids),
        deactivate(
            &pkg_id("example-font@0.3.0"),
            DeactivateReason::ConflictWithActivation { pkg_id: target.clone() },
            after,
            &mut ids,
        ),
    ];
    assert_plan_eq(&steps, &expected);
}

#[test]
fn activate_emit_activation_steps_emits_skip_for_already_active_result() {
    let pkg = make_package_definition("example-font@0.1.0");
    let mut steps = vec![];

    emit_activation_steps(&pkg.id, None, SimulatedActivationResult::AlreadyActive, &mut steps, &mut StepIdGenerator::new());

    let mut ids = StepIdGenerator::new();
    assert_plan_eq(&steps, &[skip(spec_of(&pkg.id), SkipReason::AlreadyActive, &mut ids)]);
}

#[test]
fn plan_activate_uses_simulated_state_to_skip_redundant_second_activation() {
    let pkg = make_package_definition("example-font@0.1.0");
    let targets = vec![ResolvedActivateTarget { pkg_id: pkg.id.clone() }, ResolvedActivateTarget { pkg_id: pkg.id.clone() }];
    let db = db_with(&[("example-font@0.1.0", InstallationState::Installed, ActivationState::Inactive)]);

    let plan = plan_activate(&db, &targets, &mut StepIdGenerator::new());

    let mut ids = StepIdGenerator::new();
    assert_plan_eq(
        plan.steps(),
        &[activate(&pkg.id, vec![], &mut ids), skip(spec_of(&pkg.id), SkipReason::AlreadyActive, &mut ids)],
    );
}

#[test]
fn plan_activate_deactivates_the_active_version_after_activation() {
    let old = pkg_id("example-font@0.1.0");
    let new = pkg_id("example-font@0.2.0");
    let db = db_with(&[
        ("example-font@0.1.0", InstallationState::Installed, ActivationState::Active),
        ("example-font@0.2.0", InstallationState::Installed, ActivationState::Inactive),
    ]);

    let plan = plan_activate(&db, &vec![ResolvedActivateTarget { pkg_id: new.clone() }], &mut StepIdGenerator::new());

    let mut ids = StepIdGenerator::new();
    let activate_step = activate(&new, vec![], &mut ids);
    let after = vec![StepCondition::AfterSuccess(activate_step.step_id())];
    let expected =
        vec![activate_step, deactivate(&old, DeactivateReason::ConflictWithActivation { pkg_id: new.clone() }, after, &mut ids)];
    assert_plan_eq(plan.steps(), &expected);
}

#[test]
fn emit_install_steps_maps_simulated_results_to_plan_steps() {
    let pkg = make_package_definition("example-font@0.1.0");

    for (result, expected_step_id_present, is_skip) in [
        (SimulatedInstallationResult::Installed, true, false),
        (SimulatedInstallationResult::Reinstalled, true, false),
        (SimulatedInstallationResult::AlreadyInstalled, false, true),
    ] {
        let mut steps = vec![];
        let step_id = emit_install_steps(&pkg, result, &mut steps, &mut StepIdGenerator::new());

        assert_eq!(steps.len(), 1);
        assert_eq!(step_id.is_some(), expected_step_id_present);
        if let Some(step_id) = step_id {
            assert_eq!(step_id, steps[0].step_id());
        }
        let mut ids = StepIdGenerator::new();
        let expected =
            if is_skip { skip(spec_of(&pkg.id), SkipReason::AlreadyInstalled, &mut ids) } else { install(&pkg, &mut ids) };
        assert_plan_eq(&steps, &[expected]);
    }
}

#[test]
fn emit_activation_steps_emits_activate_and_deactivate_steps_from_conflicts() {
    let target_pkg = make_package_definition("example-font@0.4.0");
    let mut gen = StepIdGenerator::new();
    let mut steps = vec![install(&target_pkg, &mut gen)];
    let dependency = Some(steps[0].step_id());
    let (result, incomplete_activation, incomplete_deactivation, active) = conflicts(&target_pkg.id);

    emit_activation_steps(&target_pkg.id, dependency, result, &mut steps, &mut gen);

    let mut ids = StepIdGenerator::new();
    let install_step = install(&target_pkg, &mut ids);
    let activate_step = activate(&target_pkg.id, vec![StepCondition::AfterSuccess(install_step.step_id())], &mut ids);
    let after = vec![StepCondition::AfterSuccess(activate_step.step_id())];
    let expected = vec![
        install_step,
        activate_step,
        deactivate(&incomplete_activation, DeactivateReason::CleanupIncompleteActivation, after.clone(), &mut ids),
        deactivate(&incomplete_deactivation, DeactivateReason::CleanupIncompleteDeactivation, after.clone(), &mut ids),
        deactivate(&active, DeactivateReason::ConflictWithActivation { pkg_id: target_pkg.id.clone() }, after, &mut ids),
    ];
    assert_plan_eq(&steps, &expected);
}

#[test]
fn install_emit_activation_steps_emits_skip_for_already_active_result() {
    let pkg = make_package_definition("example-font@0.1.0");
    let mut steps = vec![];

    emit_activation_steps(&pkg.id, None, SimulatedActivationResult::AlreadyActive, &mut steps, &mut StepIdGenerator::new());

    let mut ids = StepIdGenerator::new();
    assert_plan_eq(&steps, &[skip(spec_of(&pkg.id), SkipReason::AlreadyActive, &mut ids)]);
}

#[test]
fn plan_install_activates_already_installed_inactive_package_without_reinstall() {
    let pkg = make_package_definition("example-font@0.1.0");
    let db = db_with(&[("example-font@0.1.0", InstallationState::Installed, ActivationState::Inactive)]);

    let plan = plan_install(&db, &vec![install_target(&pkg, true)], &mut StepIdGenerator::new());

    let mut ids = StepIdGenerator::new();
    assert_plan_eq(
        plan.steps(),
        &[skip(spec_of(&pkg.id), SkipReason::AlreadyInstalled, &mut ids), activate(&pkg.id, vec![], &mut ids)],
    );
}

#[test]
fn plan_install_installs_without_activating_when_activation_is_not_requested() {
    let pkg = make_package_definition("example-font@0.1.0");
    let db = PackageDatabase::new();

    let plan = plan_install(&db, &vec![install_target(&pkg, false)], &mut StepIdGenerator::new());

    let mut ids = StepIdGenerator::new();
    assert_plan_eq(plan.steps(), &[install(&pkg, &mut ids)]);
}

#[test]
fn plan_install_activates_newly_installed_package_after_install() {
    let pkg = make_package_definition("example-font@0.1.0");
    let db = PackageDatabase::new();

    let plan = plan_install(&db, &vec![install_target(&pkg, true)], &mut StepIdGenerator::new());

    let mut ids = StepIdGenerator::new();
    let install_step = install(&pkg, &mut ids);
    let after = vec![StepCondition::AfterSuccess(install_step.step_id())];
    let expected = vec![install_step, activate(&pkg.id, after, &mut ids)];
    assert_plan_eq(plan.steps(), &expected);
}

#[test]
fn plan_install_reinstalls_an_incomplete_install() {
    let pkg = make_package_definition("example-font@0.1.0");
    let db = db_with(&[("example-font@0.1.0", InstallationState::IncompleteInstall, ActivationState::Inactive)]);

    let plan = plan_install(&db, &vec![install_target(&pkg, false)], &mut StepIdGenerator::new());

    let mut ids = StepIdGenerator::new();
    assert_plan_eq(plan.steps(), &[install(&pkg, &mut ids)]);
}

#[test]
fn plan_repair_uninstalls_incomplete_entries() {
    let incomplete_install = pkg_id("example-font@0.1.0");
    let incomplete_uninstall = pkg_id("example-font@0.2.0");
    let targets = vec![
        ResolvedRepairTarget::Uninstall { pkg_id: incomplete_install.clone(), kind: InstallationRepairKind::IncompleteInstall },
        ResolvedRepairTarget::Uninstall {
            pkg_id: incomplete_uninstall.clone(),
            kind: InstallationRepairKind::IncompleteUninstall,
        },
    ];

    let plan = plan_repair(&targets, &mut StepIdGenerator::new());

    let mut ids = StepIdGenerator::new();
    let expected = vec![
        uninstall(&incomplete_install, UninstallReason::RepairIncompleteInstall, vec![], &mut ids),
        uninstall(&incomplete_uninstall, UninstallReason::RepairIncompleteUninstall, vec![], &mut ids),
    ];
    assert_plan_eq(plan.steps(), &expected);
}

#[test]
fn plan_repair_deactivates_incomplete_activation_states() {
    let incomplete_activation = pkg_id("example-font@0.1.0");
    let incomplete_deactivation = pkg_id("example-font@0.2.0");
    let targets = vec![
        ResolvedRepairTarget::Deactivate {
            pkg_id: incomplete_activation.clone(),
            kind: ActivationRepairKind::IncompleteActivation,
        },
        ResolvedRepairTarget::Deactivate {
            pkg_id: incomplete_deactivation.clone(),
            kind: ActivationRepairKind::IncompleteDeactivation,
        },
    ];

    let plan = plan_repair(&targets, &mut StepIdGenerator::new());

    let mut ids = StepIdGenerator::new();
    let expected = vec![
        deactivate(&incomplete_activation, DeactivateReason::RepairIncompleteActivation, vec![], &mut ids),
        deactivate(&incomplete_deactivation, DeactivateReason::RepairIncompleteDeactivation, vec![], &mut ids),
    ];
    assert_plan_eq(plan.steps(), &expected);
}

#[test]
fn plan_repair_skips_not_broken_targets() {
    let pkg_spec = PackageSpec::parse("example-font").unwrap();
    let targets = vec![ResolvedRepairTarget::NotBroken { pkg_spec: PackageSpec::parse("example-font").unwrap() }];

    let plan = plan_repair(&targets, &mut StepIdGenerator::new());

    let mut ids = StepIdGenerator::new();
    assert_plan_eq(plan.steps(), &[skip(pkg_spec, SkipReason::NotBroken, &mut ids)]);
}

#[test]
fn plan_repair_skips_targets_with_nothing_to_repair() {
    let missing_pkg_id = pkg_id("example-font@0.1.0");
    let targets = vec![
        ResolvedRepairTarget::AlreadyUninstalled { pkg_spec: spec_of(&missing_pkg_id) },
        ResolvedRepairTarget::AlreadyUninstalled { pkg_spec: PackageSpec::parse("other-font").unwrap() },
    ];

    let plan = plan_repair(&targets, &mut StepIdGenerator::new());

    let mut ids = StepIdGenerator::new();
    let expected = vec![
        skip(spec_of(&missing_pkg_id), SkipReason::NothingToRepair, &mut ids),
        skip(PackageSpec::parse("other-font").unwrap(), SkipReason::NothingToRepair, &mut ids),
    ];
    assert_plan_eq(plan.steps(), &expected);
}

#[test]
fn plan_uninstall_deactivates_then_uninstalls_when_requested() {
    let id = pkg_id("example-font@0.2.0");
    let targets = vec![ResolvedUninstallTarget::Uninstall { pkg_id: id.clone(), should_deactivate: true }];

    let plan = plan_uninstall(&targets, &mut StepIdGenerator::new());

    let mut ids = StepIdGenerator::new();
    let deactivate_step = deactivate(&id, DeactivateReason::RequestedByUser, vec![], &mut ids);
    let after = vec![StepCondition::AfterSuccess(deactivate_step.step_id())];
    let expected = vec![deactivate_step, uninstall(&id, UninstallReason::RequestedByUser, after, &mut ids)];
    assert_plan_eq(plan.steps(), &expected);
}

#[test]
fn plan_uninstall_uninstalls_without_deactivating_when_not_requested() {
    let id = pkg_id("example-font@0.2.0");
    let targets = vec![ResolvedUninstallTarget::Uninstall { pkg_id: id.clone(), should_deactivate: false }];

    let plan = plan_uninstall(&targets, &mut StepIdGenerator::new());

    let mut ids = StepIdGenerator::new();
    assert_plan_eq(plan.steps(), &[uninstall(&id, UninstallReason::RequestedByUser, vec![], &mut ids)]);
}

#[test]
fn plan_uninstall_skips_non_existing() {
    let id = pkg_id("example-font@0.1.0");
    let targets = vec![ResolvedUninstallTarget::AlreadyUninstalled { pkg_spec: spec_of(&id) }];

    let plan = plan_uninstall(&targets, &mut StepIdGenerator::new());

    let mut ids = StepIdGenerator::new();
    assert_plan_eq(plan.steps(), &[skip(spec_of(&id), SkipReason::AlreadyUninstalled, &mut ids)]);
}

#[test]
fn plan_step_ids_are_distinct_and_consecutive() {
    let targets = vec![
        ResolvedUninstallTarget::Uninstall { pkg_id: pkg_id("a-font@1.0.0"), should_deactivate: true },
        ResolvedUninstallTarget::Uninstall { pkg_id: pkg_id("b-font@1.0.0"), should_deactivate: true },
    ];

    let plan = plan_uninstall(&targets, &mut StepIdGenerator::new());

    let ids: Vec<u64> = plan.steps().iter().map(|s| s.step_id().0).collect();
    assert_eq!(ids, [0, 1, 2, 3]);
}

#[test]
fn notify_result_failure_blocks_and_success_unblocks() {
    let id = pkg_id("example-font@0.2.0");
    let targets = vec![ResolvedUninstallTarget::Uninstall { pkg_id: id, should_deactivate: true }];
    let plan = plan_uninstall(&targets, &mut StepIdGenerator::new());
    let mut steps = plan.into_steps();
    let deactivate_id = steps[0].step_id();
    let mut on_success = steps.pop().unwrap();
    let mut on_failure = PlanStep::with_conditions(
        PlanStepOp::Skip(SkipOp { pkg_spec: PackageSpec::parse("x").unwrap(), reason: SkipReason::NotBroken }),
        vec![StepCondition::AfterSuccess(deactivate_id)],
        &mut StepIdGenerator::new(),
    );
    assert!(!on_success.can_execute());

    on_success.notify_result(StepId(99), foton::engine::plan::step::StepResult::Failure);
    assert!(!on_success.can_execute());
    on_success.notify_result(deactivate_id, foton::engine::plan::step::StepResult::Success);
    assert!(on_success.can_execute());

    on_failure.notify_result(deactivate_id, foton::engine::plan::step::StepResult::Failure);
    assert_eq!(on_failure.conditions(), &vec![StepCondition::Never]);
    on_failure.notify_result(deactivate_id, foton::engine::plan::step::StepResult::Success);
    assert!(!on_failure.can_execute());
}

#[test]
fn has_side_effects_is_false_for_a_plan_of_skips() {
    let targets = vec![ResolvedUninstallTarget::AlreadyUninstalled { pkg_spec: PackageSpec::parse("x").unwrap() }];
    let plan = plan_uninstall(&targets, &mut StepIdGenerator::new());
    assert!(!plan.has_side_effects());

    let targets = vec![ResolvedUninstallTarget::Uninstall { pkg_id: pkg_id("x@1.0.0"), should_deactivate: false }];
    let plan = plan_uninstall(&targets, &mut StepIdGenerator::new());
    assert!(plan.has_side_effects());
}

#[test]
fn report_plan_lists_each_step_in_its_group() {
    let pkg = make_package_definition("example-font@0.2.0");
    let db = db_with(&[("example-font@0.1.0", InstallationState::Installed, ActivationState::Active)]);

    let plan = plan_install(&db, &vec![install_target(&pkg, true)], &mut StepIdGenerator::new());
    let report = report_plan(&plan);

    assert_eq!(report.install, ["example-font@0.2.0 (requested by user)"]);
    assert_eq!(report.activate, ["example-font@0.2.0 (requested by user)"]);
    assert_eq!(report.deactivate, ["example-font@0.1.0 (conflicts with package example-font@0.2.0 activation)"]);
    assert!(report.uninstall.is_empty());
    assert!(report.skip.is_empty());

    let targets = vec![ResolvedUninstallTarget::AlreadyUninstalled { pkg_spec: PackageSpec::parse("other-font").unwrap() }];
    let report = report_plan(&plan_uninstall(&targets, &mut StepIdGenerator::new()));
    assert_eq!(report.skip, ["other-font (already uninstalled)"]);
}

#[test]
fn step_ids_from_one_generator_increase() {
    let mut ids = StepIdGenerator::new();

    let first = StepId::new(&mut ids);
    let second = StepId::new(&mut ids);
    let third = StepId::new(&mut ids);

    assert!(first.0 < second.0 && second.0 < third.0);
    assert_eq!((first.0, second.0, third.0), (0, 1, 2));
}

fn activate_installed_target(id: &str) -> ResolvedInstallTarget {
    ResolvedInstallTarget {
        kind: InstallTargetKind::AlreadyInstalled { pkg_id: pkg_id(id) },
        detail: InstallResolutionDetail::Installed { pkg_spec: PackageSpec::from_id(pkg_id(id)) },
        should_activate: true,
    }
}

#[test]
fn first_unmet_activation_finds_activations_of_packages_that_are_not_installed() {
    let installed = db_with(&[("example-font@0.1.0", InstallationState::Installed, ActivationState::Inactive)]);
    let incomplete = db_with(&[("example-font@0.1.0", InstallationState::IncompleteInstall, ActivationState::Inactive)]);
    let pkg = make_package_definition("example-font@0.1.0");

    assert_eq!(first_unmet_activation(&installed, &vec![activate_installed_target("example-font@0.1.0")]), None);
    assert_eq!(first_unmet_activation(&incomplete, &vec![activate_installed_target("example-font@0.1.0")]), Some(0));
    assert_eq!(
        first_unmet_activation(
            &PackageDatabase::new(),
            &vec![install_target(&pkg, false), activate_installed_target("example-font@0.1.0")]
        ),
        None
    );
    assert_eq!(
        first_unmet_activation(
            &PackageDatabase::new(),
            &vec![activate_installed_target("example-font@0.1.0"), install_target(&pkg, false)]
        ),
        Some(0)
    );
}
