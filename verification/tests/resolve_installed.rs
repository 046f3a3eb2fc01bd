use foton::db::{DbEntry, PackageDatabase};
use foton::engine::resolve::installed::{
    resolve_activate_spec, resolve_activate_targets, resolve_deactivate_spec, resolve_deactivate_targets,
    resolve_uninstall_spec, resolve_uninstall_targets, ResolveError,
};
use foton::engine::resolve::repair::{resolve_all_repair_targets, resolve_repair_targets};
use foton::engine::target::{
    ActivationRepairKind, InstallationRepairKind, ResolvedDeactivateTarget, ResolvedRepairTarget,
    ResolvedUninstallTarget,
};
use foton::package::id::PackageId;
use foton::package::spec::PackageSpec;
use foton::package::state::{ActivationState, InstallationState};

fn pkg_id(s: &str) -> PackageId {
    PackageId::parse(s).unwrap()
}

fn spec(s: &str) -> PackageSpec {
    PackageSpec::parse(s).unwrap()
}

fn exact_spec() -> PackageSpec {
    spec("example-font@0.1.0")
}

fn name_spec() -> PackageSpec {
    spec("example-font")
}

fn db_with(entries: &[(&str, InstallationState, ActivationState)]) -> PackageDatabase {
    let mut db = PackageDatabase::new();
    for (id, installation, activation) in entries {
        db.insert(DbEntry::new(pkg_id(id), *installation, *activation, vec![])).unwrap();
    }
    db
}

fn installed(id: &str) -> (&str, InstallationState, ActivationState) {
    (id, InstallationState::Installed, ActivationState::Inactive)
}

fn active(id: &str) -> (&str, InstallationState, ActivationState) {
    (id, InstallationState::Installed, ActivationState::Active)
}

fn assert_uninstall_target(target: &ResolvedUninstallTarget, expected: &PackageId, should_deactivate: bool) {
    assert!(
        matches!(
            target,
            ResolvedUninstallTarget::Uninstall { pkg_id, should_deactivate: actual }
                if pkg_id == expected && *actual == should_deactivate
        ),
        "{target:?}"
    );
}

fn assert_already_uninstalled(target: &ResolvedUninstallTarget, expected_spec: &PackageSpec) {
    assert!(matches!(
        target,
        ResolvedUninstallTarget::AlreadyUninstalled { pkg_spec } if pkg_spec == expected_spec
    ));
}

#[test]
fn resolve_spec_reports_missing_package() {
    let db = PackageDatabase::new();
    let err = resolve_activate_spec(&db, &name_spec()).unwrap_err();
    assert!(matches!(err, ResolveError::NoMatchingPackage { .. }));
}

#[test]
fn resolve_spec_resolves_installed_entry_from_id_and_name() {
    let db = db_with(&[installed("example-font@0.1.0")]);
    for spec in [exact_spec(), name_spec()] {
        let target = resolve_activate_spec(&db, &spec).unwrap();
        assert_eq!(target.pkg_id, pkg_id("example-font@0.1.0"));
    }
}

#[test]
fn activate_resolve_spec_reports_multiple_matches_for_name() {
    let db = db_with(&[installed("example-font@0.1.0"), installed("example-font@1.0.0")]);
    let err = resolve_activate_spec(&db, &name_spec()).unwrap_err();
    assert!(matches!(err, ResolveError::MultipleMatchingPackages { .. }));
}

#[test]
fn resolve_activate_targets_collapses_duplicate_specs() {
    let db = db_with(&[installed("example-font@0.1.0")]);
    let targets = resolve_activate_targets(&db, &vec![exact_spec(), name_spec()]).unwrap();
    assert_eq!(targets.len(), 1);
    assert_eq!(targets[0].pkg_id, pkg_id("example-font@0.1.0"));
}

#[test]
fn resolve_activate_targets_reports_conflicting_requested_versions() {
    let db = db_with(&[installed("example-font@0.1.0"), installed("example-font@1.0.0")]);
    let errs = resolve_activate_targets(&db, &vec![spec("example-font@0.1.0"), spec("example-font@1.0.0")]).unwrap_err();
    assert_eq!(errs.len(), 1);
    assert!(matches!(errs[0], ResolveError::ConflictingActivations { .. }));
}

#[test]
fn resolve_spec_ignores_incomplete_install_entries() {
    let db = db_with(&[("example-font@0.1.0", InstallationState::IncompleteInstall, ActivationState::Inactive)]);
    let err = resolve_activate_spec(&db, &name_spec()).unwrap_err();
    assert!(matches!(err, ResolveError::NoMatchingPackage { .. }));
}

#[test]
fn resolve_spec_returns_already_inactive_for_missing_package() {
    let db = PackageDatabase::new();
    let target = resolve_deactivate_spec(&db, &name_spec()).unwrap();
    assert!(matches!(target, ResolvedDeactivateTarget::AlreadyInactive { pkg_spec } if pkg_spec == name_spec()));
}

#[test]
fn resolve_spec_resolves_active_entries_from_id_and_name() {
    let db = db_with(&[active("example-font@0.1.0")]);
    for spec in [exact_spec(), name_spec()] {
        let target = resolve_deactivate_spec(&db, &spec).unwrap();
        assert!(matches!(
            target,
            ResolvedDeactivateTarget::Deactivate { pkg_id: id } if id == pkg_id("example-font@0.1.0")
        ));
    }
}

#[test]
fn resolve_spec_returns_already_inactive_for_inactive_entries() {
    let db = db_with(&[installed("example-font@0.1.0")]);
    let target = resolve_deactivate_spec(&db, &name_spec()).unwrap();
    assert!(matches!(
        target,
        ResolvedDeactivateTarget::AlreadyInactive { pkg_spec }
            if pkg_spec == PackageSpec::from_id(pkg_id("example-font@0.1.0"))
    ));
}

#[test]
fn deactivate_resolve_spec_reports_multiple_matches_for_name() {
    let db = db_with(&[active("example-font@0.1.0"), installed("example-font@1.0.0")]);
    let err = resolve_deactivate_spec(&db, &name_spec()).unwrap_err();
    assert!(matches!(err, ResolveError::MultipleMatchingPackages { .. }));
}

#[test]
fn resolve_deactivate_targets_collapses_duplicate_specs_for_same_active_package() {
    let db = db_with(&[active("example-font@0.1.0")]);
    let targets = resolve_deactivate_targets(&db, &vec![exact_spec(), name_spec()]).unwrap();
    assert_eq!(targets.len(), 1);
    assert!(matches!(
        &targets[0],
        ResolvedDeactivateTarget::Deactivate { pkg_id: id } if *id == pkg_id("example-font@0.1.0")
    ));
}

#[test]
fn resolve_deactivate_targets_collapses_duplicate_specs_for_same_inactive_package() {
    let db = db_with(&[installed("example-font@0.1.0")]);
    let targets = resolve_deactivate_targets(&db, &vec![exact_spec(), name_spec()]).unwrap();
    assert_eq!(targets.len(), 1);
    assert!(matches!(
        &targets[0],
        ResolvedDeactivateTarget::AlreadyInactive { pkg_spec }
            if *pkg_spec == PackageSpec::from_id(pkg_id("example-font@0.1.0"))
    ));
}

#[test]
fn resolve_spec_resolves_incomplete_activation_states_for_cleanup() {
    for state in [ActivationState::IncompleteActivation, ActivationState::IncompleteDeactivation] {
        let db = db_with(&[("example-font@0.1.0", InstallationState::Installed, state)]);
        let target = resolve_deactivate_spec(&db, &name_spec()).unwrap();
        assert!(matches!(
            target,
            ResolvedDeactivateTarget::Deactivate { pkg_id: id } if id == pkg_id("example-font@0.1.0")
        ));
    }
}

#[test]
fn resolve_deactivate_targets_keeps_missing_specs_as_noop_targets() {
    let db = PackageDatabase::new();
    let targets = resolve_deactivate_targets(&db, &vec![exact_spec(), name_spec()]).unwrap();
    assert_eq!(targets.len(), 2);
    assert!(matches!(&targets[0], ResolvedDeactivateTarget::AlreadyInactive { pkg_spec } if *pkg_spec == exact_spec()));
    assert!(matches!(&targets[1], ResolvedDeactivateTarget::AlreadyInactive { pkg_spec } if *pkg_spec == name_spec()));
}

#[test]
fn uninstall_resolve_spec_returns_already_uninstalled_for_missing_specs() {
    let db = PackageDatabase::new();
    let pkg_specs = vec![exact_spec(), name_spec()];
    for spec in &pkg_specs {
        let target = resolve_uninstall_spec(&db, spec).unwrap();
        assert_already_uninstalled(&target, spec);
    }

    let targets = resolve_uninstall_targets(&db, &pkg_specs).unwrap();
    assert_eq!(targets.len(), 2);
}

#[test]
fn resolve_spec_resolves_installed_entry_from_id_and_name_without_deactivation() {
    let db = db_with(&[installed("example-font@0.1.0")]);
    for spec in [exact_spec(), name_spec()] {
        let target = resolve_uninstall_spec(&db, &spec).unwrap();
        assert_uninstall_target(&target, &pkg_id("example-font@0.1.0"), false);
    }
}

#[test]
fn resolve_spec_requests_deactivation_for_active_entries() {
    let db = db_with(&[active("example-font@0.1.0")]);
    let target = resolve_uninstall_spec(&db, &name_spec()).unwrap();
    assert_uninstall_target(&target, &pkg_id("example-font@0.1.0"), true);
}

#[test]
fn uninstall_resolve_spec_reports_multiple_matches_for_name() {
    let db = db_with(&[installed("example-font@0.1.0"), installed("example-font@1.0.0")]);
    let err = resolve_uninstall_spec(&db, &name_spec()).unwrap_err();
    assert!(matches!(err, ResolveError::MultipleMatchingPackages { .. }));
}

#[test]
fn resolve_uninstall_targets_reports_ambiguous_spec_even_with_exact_target() {
    let db = db_with(&[installed("example-font@0.1.0"), installed("example-font@1.0.0")]);
    let errs = resolve_uninstall_targets(&db, &vec![spec("example-font@0.1.0"), spec("example-font")]).unwrap_err();
    assert_eq!(errs.len(), 1);
    assert!(matches!(errs[0], ResolveError::MultipleMatchingPackages { .. }));
}

#[test]
fn resolve_uninstall_targets_collapses_duplicate_specs() {
    let db = db_with(&[installed("example-font@0.1.0")]);
    let targets = resolve_uninstall_targets(&db, &vec![exact_spec(), name_spec()]).unwrap();
    assert_eq!(targets.len(), 1);
    assert_uninstall_target(&targets[0], &pkg_id("example-font@0.1.0"), false);
}

#[test]
fn resolve_spec_resolves_incomplete_entries_without_deactivation() {
    for state in [InstallationState::IncompleteInstall, InstallationState::IncompleteUninstall] {
        let db = db_with(&[("example-font@0.1.0", state, ActivationState::Inactive)]);
        let target = resolve_uninstall_spec(&db, &name_spec()).unwrap();
        assert_uninstall_target(&target, &pkg_id("example-font@0.1.0"), false);
    }
}

#[test]
fn resolve_spec_reports_multiple_matches_for_name_across_incomplete_states() {
    let db = db_with(&[
        ("example-font@0.1.0", InstallationState::IncompleteInstall, ActivationState::Inactive),
        ("example-font@1.0.0", InstallationState::IncompleteUninstall, ActivationState::Inactive),
    ]);
    let err = resolve_uninstall_spec(&db, &name_spec()).unwrap_err();
    assert!(matches!(err, ResolveError::MultipleMatchingPackages { .. }));
}

fn seed_broken_entries(names: [&str; 5]) -> PackageDatabase {
    let mut db = db_with(&[
        installed(names[0]),
        active(names[1]),
        (names[2], InstallationState::IncompleteInstall, ActivationState::Inactive),
        (names[3], InstallationState::IncompleteUninstall, ActivationState::Inactive),
        installed(names[4]),
    ]);
    db.begin_activate(&pkg_id(names[0])).unwrap();
    db.begin_deactivate(&pkg_id(names[1])).unwrap();
    db
}

fn assert_broken_targets(targets: &[ResolvedRepairTarget], names: [&str; 4]) {
    let expected = vec![
        ResolvedRepairTarget::Deactivate { pkg_id: pkg_id(names[0]), kind: ActivationRepairKind::IncompleteActivation },
        ResolvedRepairTarget::Deactivate { pkg_id: pkg_id(names[1]), kind: ActivationRepairKind::IncompleteDeactivation },
        ResolvedRepairTarget::Uninstall { pkg_id: pkg_id(names[2]), kind: InstallationRepairKind::IncompleteInstall },
        ResolvedRepairTarget::Uninstall { pkg_id: pkg_id(names[3]), kind: InstallationRepairKind::IncompleteUninstall },
    ];
    assert_eq!(targets, expected.as_slice());
}

#[test]
fn resolve_all_repair_targets_returns_all_broken_entries_only() {
    let names = ["example-font@0.1.0", "example-font@0.2.0", "other-font@0.1.0", "other-font@0.2.0", "clean-font@1.0.0"];
    let db = seed_broken_entries(names);

    let targets = resolve_all_repair_targets(&db);

    assert_broken_targets(&targets, [names[0], names[1], names[2], names[3]]);
}

#[test]
fn repair_resolve_spec_returns_already_uninstalled_for_missing_specs() {
    let db = PackageDatabase::new();
    for spec in [exact_spec(), name_spec()] {
        let targets = resolve_repair_targets(&db, &vec![PackageSpec::parse(&spec.to_string()).unwrap()]);
        assert_eq!(targets.len(), 1);
        assert!(matches!(&targets[0], ResolvedRepairTarget::AlreadyUninstalled { pkg_spec } if pkg_spec == &spec));
    }
}

#[test]
fn resolve_spec_returns_not_broken_for_clean_installed_matches() {
    let db = db_with(&[installed("example-font@0.1.0")]);
    for spec in [exact_spec(), name_spec()] {
        let targets = resolve_repair_targets(&db, &vec![PackageSpec::parse(&spec.to_string()).unwrap()]);
        assert_eq!(targets.len(), 1);
        assert!(matches!(&targets[0], ResolvedRepairTarget::NotBroken { pkg_spec } if pkg_spec == &spec));
    }
}

#[test]
fn resolve_spec_returns_deactivate_targets_for_incomplete_activation_states() {
    let mut db = db_with(&[installed("example-font@0.1.0"), active("example-font@0.2.0")]);
    db.begin_activate(&pkg_id("example-font@0.1.0")).unwrap();
    db.begin_deactivate(&pkg_id("example-font@0.2.0")).unwrap();

    let targets = resolve_repair_targets(&db, &vec![name_spec()]);

    let expected = vec![
        ResolvedRepairTarget::Deactivate {
            pkg_id: pkg_id("example-font@0.1.0"),
            kind: ActivationRepairKind::IncompleteActivation,
        },
        ResolvedRepairTarget::Deactivate {
            pkg_id: pkg_id("example-font@0.2.0"),
            kind: ActivationRepairKind::IncompleteDeactivation,
        },
    ];
    assert_eq!(targets, expected);
}

#[test]
fn resolve_repair_targets_returns_all_broken_matches_for_name_and_dedups() {
    let names = ["example-font@0.1.0", "example-font@0.2.0", "example-font@0.3.0", "example-font@0.4.0", "example-font@1.0.0"];
    let db = seed_broken_entries(names);

    let targets = resolve_repair_targets(&db, &vec![spec("example-font"), spec("example-font@0.1.0"), spec("example-font")]);

    assert_broken_targets(&targets, [names[0], names[1], names[2], names[3]]);
}
