use foton::db::{DbEntry, PackageDatabase};
use foton::engine::resolve::update::{collect_latest_packages, resolve_update_targets, UpdateResolveError};
use foton::engine::target::InstallTargetKind;
use foton::package::definition::PackageDefinition;
use foton::package::id::PackageId;
use foton::package::manifest::parse_manifest;
use foton::package::spec::PackageSpec;
use foton::package::state::{ActivationState, InstallationState};
use foton::registry::{RegistryId, RegistryIndex};

fn make_package_definition(id: &str) -> PackageDefinition {
    let (name, version) = id.split_once('@').unwrap();
    parse_manifest(&format!(
        r#"
name = "{name}"
version = "{version}"

[[sources]]
url = "https://example.com/{name}-{version}.zip"
hash = "sha256:0123456789abcdef0123456789abcdef0123456789abcdef0123456789abcdef"

[sources.contents]
type = "archive"
"#
    ))
    .unwrap()
}

fn pkg_id(s: &str) -> PackageId {
    PackageId::parse(s).unwrap()
}

fn spec(s: &str) -> PackageSpec {
    PackageSpec::parse(s).unwrap()
}

fn db_with(entries: &[(&str, InstallationState, ActivationState)]) -> PackageDatabase {
    let mut db = PackageDatabase::new();
    for (id, installation, activation) in entries {
        db.insert(DbEntry::new(pkg_id(id), *installation, *activation, vec![])).unwrap();
    }
    db
}

fn registry_index(id: &str, pkgs: &[&str]) -> RegistryIndex {
    RegistryIndex::new(RegistryId::new(id).unwrap(), pkgs.iter().map(|p| make_package_definition(p)).collect())
}

fn target_ids(targets: &[foton::engine::target::ResolvedInstallTarget]) -> Vec<String> {
    targets
        .iter()
        .map(|t| match &t.kind {
            InstallTargetKind::Install { pkg } => pkg.id.to_string(),
            InstallTargetKind::AlreadyInstalled { pkg_id } => pkg_id.to_string(),
        })
        .collect()
}

#[test]
fn resolve_update_targets_updates_installed_packages_with_newer_versions_only() {
    let indexes = vec![registry_index("test-registry", &["update-font@2.0.0", "current-font@1.0.0", "incomplete-font@2.0.0"])];
    let db = db_with(&[
        ("update-font@1.0.0", InstallationState::Installed, ActivationState::Inactive),
        ("current-font@1.0.0", InstallationState::Installed, ActivationState::Inactive),
        ("incomplete-font@1.0.0", InstallationState::IncompleteInstall, ActivationState::Inactive),
    ]);

    let targets = resolve_update_targets(&db, &vec![], &indexes, false).unwrap();

    assert_eq!(target_ids(&targets), vec!["update-font@2.0.0"]);
}

#[test]
fn resolve_update_targets_collapses_duplicate_specs_for_same_installed_package() {
    let indexes = vec![registry_index("test-registry", &["example-font@2.0.0"])];
    let db = db_with(&[("example-font@1.0.0", InstallationState::Installed, ActivationState::Inactive)]);

    let targets = resolve_update_targets(&db, &vec![spec("example-font@1.0.0"), spec("example-font")], &indexes, false).unwrap();

    assert_eq!(target_ids(&targets), vec!["example-font@2.0.0"]);
}

#[test]
fn resolve_update_targets_prefers_latest_installed_version_when_multiple_versions_are_installed() {
    let indexes = vec![registry_index("test-registry", &["example-font@2.0.0"])];
    let db = db_with(&[
        ("example-font@1.0.0", InstallationState::Installed, ActivationState::Inactive),
        ("example-font@3.0.0", InstallationState::Installed, ActivationState::Inactive),
    ]);

    let targets =
        resolve_update_targets(&db, &vec![spec("example-font@1.0.0"), spec("example-font@3.0.0")], &indexes, false).unwrap();

    assert!(targets.is_empty());
}

#[test]
fn resolve_update_targets_inherits_activation_intent_from_selected_installed_version() {
    let indexes = vec![registry_index("test-registry", &["example-font@4.0.0"])];
    let db = db_with(&[
        ("example-font@1.0.0", InstallationState::Installed, ActivationState::Active),
        ("example-font@3.0.0", InstallationState::Installed, ActivationState::Inactive),
    ]);

    let targets = resolve_update_targets(&db, &vec![spec("example-font")], &indexes, false).unwrap();

    assert_eq!(target_ids(&targets), vec!["example-font@4.0.0"]);
    assert!(!targets[0].should_activate);
}

#[test]
fn resolve_update_targets_reports_multiple_matching_packages_across_registries() {
    let indexes = vec![
        registry_index("registry-a", &["example-font@2.0.0"]),
        registry_index("registry-b", &["example-font@3.0.0"]),
    ];
    let db = db_with(&[("example-font@1.0.0", InstallationState::Installed, ActivationState::Inactive)]);

    let errs = resolve_update_targets(&db, &vec![spec("example-font")], &indexes, false).unwrap_err();

    assert_eq!(errs.len(), 1);
    assert!(matches!(&errs[0], UpdateResolveError::MultipleMatchingPackagesInRegistries { name, .. } if name.as_str() == "example-font"));
}

#[test]
fn resolve_update_targets_skips_pre_release_by_default() {
    let indexes = vec![registry_index("test-registry", &["example-font@1.0.1", "example-font@2.0.0-rc-1"])];
    let db = db_with(&[("example-font@1.0.0", InstallationState::Installed, ActivationState::Inactive)]);

    let targets = resolve_update_targets(&db, &vec![], &indexes, false).unwrap();

    assert_eq!(target_ids(&targets), vec!["example-font@1.0.1"]);
}

#[test]
fn resolve_update_targets_includes_pre_release_when_requested() {
    let indexes = vec![registry_index("test-registry", &["example-font@1.0.1", "example-font@2.0.0-rc-1"])];
    let db = db_with(&[("example-font@1.0.0", InstallationState::Installed, ActivationState::Inactive)]);

    let targets = resolve_update_targets(&db, &vec![], &indexes, true).unwrap();

    assert_eq!(target_ids(&targets), vec!["example-font@2.0.0-rc-1"]);
}

#[test]
fn resolve_update_targets_keeps_activation_of_an_active_latest_version() {
    let indexes = vec![registry_index("test-registry", &["example-font@2.0.0"])];
    let db = db_with(&[("example-font@1.0.0", InstallationState::Installed, ActivationState::Active)]);

    let targets = resolve_update_targets(&db, &vec![], &indexes, false).unwrap();

    assert_eq!(target_ids(&targets), vec!["example-font@2.0.0"]);
    assert!(targets[0].should_activate);
}

#[test]
fn resolve_update_targets_reports_a_spec_that_matches_nothing() {
    let indexes = vec![registry_index("test-registry", &["example-font@2.0.0"])];
    let db = PackageDatabase::new();

    let errs = resolve_update_targets(&db, &vec![spec("example-font")], &indexes, false).unwrap_err();

    assert_eq!(errs.len(), 1);
    assert!(matches!(errs[0], UpdateResolveError::NoMatchingPackage { .. }));
}

#[test]
fn collect_latest_packages_keeps_the_newest_version_of_each_name() {
    let items = vec![
        (pkg_id("a-font@1.0.0"), true),
        (pkg_id("b-font@2.0.0"), false),
        (pkg_id("a-font@1.5.0"), false),
        (pkg_id("b-font@1.0.0"), true),
    ];

    let latest = collect_latest_packages(&items);

    let mut got: Vec<(String, bool)> = latest.iter().map(|(id, a)| (id.to_string(), *a)).collect();
    got.sort();
    assert_eq!(got, [("a-font@1.5.0".to_string(), false), ("b-font@2.0.0".to_string(), false)]);
}
