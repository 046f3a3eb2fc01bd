use foton::db::{DbEntry, PackageDatabase};
use foton::engine::resolve::install::{
    check_conflicting_install_activations, check_conflicting_installs, dedup_install_targets, into_unique_match,
    resolve_install_targets, resolve_spec_from_installed_packages, resolve_spec_from_registry, InstallResolveError,
    InstallResolveInput, InstallResolveOptions, LazyRegistryIndexes, ResolveState,
};
use foton::engine::target::{InstallResolutionDetail, InstallTargetKind, ResolvedInstallTarget};
use foton::package::definition::PackageDefinition;
use foton::package::id::PackageId;
use foton::package::manifest::parse_manifest;
use foton::package::spec::PackageSpec;
use foton::package::state::{ActivationState, InstallationState};
use foton::registry::{RegistryId, RegistryIndex, RegistrySpec};

fn make_package_definition(id: &str) -> PackageDefinition {
    let (name, version) = id.split_once('@').unwrap();
    parse_manifest(&format!(
        r#"
name = "{name}"
version = "{version}"

[[sources]]
url = "https://example.com/{name}-{version}.zip"
hash = "sha256:0123456789abcdef0123456789abcdef0123456789abcdef0123456789abcdef"

[sources.contents]
type = "archive"
"#
    ))
    .unwrap()
}

fn pkg_id(s: &str) -> PackageId {
    PackageId::parse(s).unwrap()
}

fn spec(s: &str) -> PackageSpec {
    PackageSpec::parse(s).unwrap()
}

fn db_with(entries: &[(&str, InstallationState)]) -> PackageDatabase {
    let mut db = PackageDatabase::new();
    for (id, installation) in entries {
        db.insert(DbEntry::new(pkg_id(id), *installation, ActivationState::Inactive, vec![])).unwrap();
    }
    db
}

fn registry_spec(id: &str) -> RegistrySpec {
    RegistrySpec { id: RegistryId::new(id).unwrap(), source: format!("git+https://example.com/{id}.git") }
}

fn registry_index(id: &str, pkgs: &[&str]) -> RegistryIndex {
    RegistryIndex::new(RegistryId::new(id).unwrap(), pkgs.iter().map(|p| make_package_definition(p)).collect())
}

fn test_options(include_pre_release: bool, should_activate: bool) -> InstallResolveOptions {
    InstallResolveOptions { registries: vec![], include_pre_release, should_activate }
}

fn test_options_with_registry(registry: RegistrySpec, include_pre_release: bool, should_activate: bool) -> InstallResolveOptions {
    InstallResolveOptions { registries: vec![registry], include_pre_release, should_activate }
}

fn manifest_target(id: &str, path: &str, should_activate: bool) -> ResolvedInstallTarget {
    ResolvedInstallTarget {
        kind: InstallTargetKind::Install { pkg: make_package_definition(id) },
        detail: InstallResolutionDetail::ManifestFile { path: path.to_string() },
        should_activate,
    }
}

fn registry_target(id: &str, reg_id: &str, pkg_spec: &str, should_activate: bool) -> ResolvedInstallTarget {
    ResolvedInstallTarget {
        kind: InstallTargetKind::Install { pkg: make_package_definition(id) },
        detail: InstallResolutionDetail::Registry { reg_id: RegistryId::new(reg_id).unwrap(), pkg_spec: spec(pkg_spec) },
        should_activate,
    }
}

fn installed_target(id: &str, pkg_spec: &str, should_activate: bool) -> ResolvedInstallTarget {
    ResolvedInstallTarget {
        kind: InstallTargetKind::AlreadyInstalled { pkg_id: pkg_id(id) },
        detail: InstallResolutionDetail::Installed { pkg_spec: spec(pkg_spec) },
        should_activate,
    }
}

#[test]
fn resolve_spec_from_installed_packages_returns_resolved_when_matching_package_is_installed() {
    let db = db_with(&[("example-font@1.0.0", InstallationState::Installed)]);

    let target = resolve_spec_from_installed_packages(&db, &spec("example-font"), &test_options(false, true));

    let ResolveState::Resolved(target) = target else {
        panic!("expected resolved target");
    };
    assert_eq!(target, installed_target("example-font@1.0.0", "example-font", true));
}

#[test]
fn resolve_spec_from_installed_packages_returns_unresolved_when_matching_package_is_incomplete_install() {
    let db = db_with(&[("example-font@1.0.0", InstallationState::IncompleteInstall)]);
    let pkg_spec = spec("example-font");

    let target = resolve_spec_from_installed_packages(&db, &pkg_spec, &test_options(false, true));

    assert!(matches!(target, ResolveState::Unresolved { pkg_spec: s } if s == pkg_spec));
}

#[test]
fn resolve_spec_from_installed_packages_returns_unresolved_when_no_packages_match() {
    let db = db_with(&[("installed-font@1.0.0", InstallationState::Installed)]);
    let missing_spec = spec("missing-font");

    let target = resolve_spec_from_installed_packages(&db, &missing_spec, &test_options(false, true));

    assert!(matches!(target, ResolveState::Unresolved { pkg_spec } if pkg_spec == missing_spec));
}

#[test]
fn resolve_spec_from_installed_packages_prefers_the_latest_installed_version() {
    let db = db_with(&[
        ("example-font@1.0.0", InstallationState::Installed),
        ("example-font@1.2.0", InstallationState::Installed),
        ("example-font@1.1.0", InstallationState::Installed),
    ]);

    let target = resolve_spec_from_installed_packages(&db, &spec("example-font"), &test_options(false, false));

    let ResolveState::Resolved(target) = target else {
        panic!("expected resolved target");
    };
    assert_eq!(target, installed_target("example-font@1.2.0", "example-font", false));
}

#[test]
fn resolve_spec_from_registry_resolves_name_to_latest_package() {
    let indexes = vec![registry_index("test-registry", &["example-font@0.1.0", "example-font@0.2.0"])];

    let target = resolve_spec_from_registry(&indexes, &spec("example-font"), &test_options(false, true)).unwrap();

    assert_eq!(target, registry_target("example-font@0.2.0", "test-registry", "example-font", true));
}

#[test]
fn resolve_spec_from_registry_skips_pre_release_by_default() {
    let indexes = vec![registry_index("test-registry", &["example-font@1.0.0", "example-font@2.0.0-rc-1"])];

    let target = resolve_spec_from_registry(&indexes, &spec("example-font"), &test_options(false, true)).unwrap();

    assert_eq!(target, registry_target("example-font@1.0.0", "test-registry", "example-font", true));
}

#[test]
fn resolve_spec_from_registry_includes_pre_release_when_requested() {
    let indexes = vec![registry_index("test-registry", &["example-font@1.0.0", "example-font@2.0.0-rc-1"])];

    let target = resolve_spec_from_registry(&indexes, &spec("example-font"), &test_options(true, true)).unwrap();

    assert_eq!(target, registry_target("example-font@2.0.0-rc-1", "test-registry", "example-font", true));
}

#[test]
fn resolve_spec_from_registry_allows_exact_pre_release_id_without_flag() {
    let indexes = vec![registry_index("test-registry", &["example-font@2.0.0-rc-1"])];

    let target =
        resolve_spec_from_registry(&indexes, &spec("example-font@2.0.0-rc-1"), &test_options(false, true)).unwrap();

    assert_eq!(target, registry_target("example-font@2.0.0-rc-1", "test-registry", "example-font@2.0.0-rc-1", true));
}

#[test]
fn resolve_spec_from_registry_reports_multiple_matching_packages_across_registries() {
    let indexes = vec![
        registry_index("registry-a", &["example-font@0.2.0"]),
        registry_index("registry-b", &["example-font@1.0.0"]),
    ];

    let err = resolve_spec_from_registry(&indexes, &spec("example-font"), &test_options(false, true)).unwrap_err();

    match err {
        InstallResolveError::MultipleMatchingPackagesInRegistries { pkg_spec, pkg_ids } => {
            assert_eq!(pkg_spec, spec("example-font"));
            assert_eq!(
                pkg_ids.iter().map(|(r, id)| (r.as_str().to_string(), id.to_string())).collect::<Vec<_>>(),
                [
                    ("registry-a".to_string(), "example-font@0.2.0".to_string()),
                    ("registry-b".to_string(), "example-font@1.0.0".to_string())
                ]
            );
        }
        other => panic!("unexpected error {other:?}"),
    }
}

#[test]
fn resolve_spec_from_registry_reports_missing_package() {
    let indexes = vec![registry_index("test-registry", &["other-font@1.0.0"])];

    let err = resolve_spec_from_registry(&indexes, &spec("example-font"), &test_options(false, true)).unwrap_err();

    assert!(matches!(err, InstallResolveError::PackageNotFoundForSpec { .. }));
}

#[test]
fn into_unique_match_distinguishes_none_one_and_many() {
    assert_eq!(into_unique_match::<u32>(vec![]), Ok(None));
    assert_eq!(into_unique_match(vec![7]), Ok(Some(7)));
    assert_eq!(into_unique_match(vec![7, 8]), Err(vec![7, 8]));
}

#[test]
fn dedup_targets_collapses_identical_definitions_with_same_package_id() {
    let targets = vec![
        manifest_target("example-font@0.1.0", "manifest-a.toml", false),
        manifest_target("example-font@0.1.0", "manifest-b.toml", false),
    ];

    let targets = dedup_install_targets(&targets);

    assert_eq!(targets, vec![manifest_target("example-font@0.1.0", "manifest-a.toml", false)]);
}

#[test]
fn dedup_targets_collapses_duplicate_targets() {
    let targets = vec![
        installed_target("example-font@0.1.0", "example-font@0.1.0", true),
        installed_target("example-font@0.1.0", "example-font@0.1.0", true),
    ];

    let targets = dedup_install_targets(&targets);

    assert_eq!(targets, vec![installed_target("example-font@0.1.0", "example-font@0.1.0", true)]);
}

#[test]
fn check_conflicting_installs_reports_different_definitions_with_same_package_id() {
    let manifest1 = make_package_definition("example-font@0.1.0");
    let mut manifest2 = make_package_definition("example-font@0.1.0");
    manifest2.description = Some("some description".to_owned());
    let targets = vec![
        ResolvedInstallTarget {
            kind: InstallTargetKind::Install { pkg: manifest1 },
            detail: InstallResolutionDetail::ManifestFile { path: "manifest-a.toml".to_string() },
            should_activate: true,
        },
        ResolvedInstallTarget {
            kind: InstallTargetKind::Install { pkg: manifest2 },
            detail: InstallResolutionDetail::ManifestFile { path: "manifest-b.toml".to_string() },
            should_activate: true,
        },
    ];

    let errs = check_conflicting_installs(&targets);

    assert_eq!(errs.len(), 1);
    assert!(matches!(errs[0], InstallResolveError::ConflictingInstalls { .. }));
}

#[test]
fn check_conflicting_activations_reports_multiple_versions_of_same_package() {
    let targets = vec![
        installed_target("example-font@0.1.0", "example-font@0.1.0", true),
        installed_target("example-font@0.2.0", "example-font@0.2.0", true),
    ];

    let errs = check_conflicting_install_activations(&targets);

    assert_eq!(errs.len(), 1);
    assert!(matches!(errs[0], InstallResolveError::ConflictingActivations { .. }));
}

#[test]
fn check_conflicting_activations_allows_multiple_versions_without_activation() {
    let targets = vec![
        installed_target("example-font@0.1.0", "example-font@0.1.0", false),
        installed_target("example-font@0.2.0", "example-font@0.2.0", false),
    ];

    assert!(check_conflicting_install_activations(&targets).is_empty());
}

#[test]
fn supports_manifests_and_package_specs_together() {
    let registry = registry_spec("test-registry");
    let indexes = LazyRegistryIndexes::new_for_test(vec![registry_index("test-registry", &["example-font@1.0.0"])]);
    let db = db_with(&[("installed-font@1.0.0", InstallationState::Installed)]);
    let inputs = vec![
        InstallResolveInput::Manifest {
            path: "manifest-font.toml".to_string(),
            pkg: make_package_definition("manifest-font@0.1.0"),
        },
        InstallResolveInput::PackageSpec { pkg_spec: spec("installed-font") },
        InstallResolveInput::PackageSpec { pkg_spec: spec("example-font@1.0.0") },
        InstallResolveInput::PackageSpec { pkg_spec: spec("example-font") },
    ];

    let targets = resolve_install_targets(&db, &inputs, &test_options_with_registry(registry, false, true), &indexes).unwrap();

    assert_eq!(
        targets,
        vec![
            manifest_target("manifest-font@0.1.0", "manifest-font.toml", true),
            installed_target("installed-font@1.0.0", "installed-font", true),
            registry_target("example-font@1.0.0", "test-registry", "example-font@1.0.0", true),
        ]
    );
}

#[test]
fn reports_missing_registries_for_package_specs() {
    let db = PackageDatabase::new();
    let inputs = vec![InstallResolveInput::PackageSpec { pkg_spec: spec("example-font") }];
    let indexes = LazyRegistryIndexes::new(vec![]);

    let errs = resolve_install_targets(&db, &inputs, &test_options(false, true), &indexes).unwrap_err();

    assert_eq!(errs.len(), 1);
    assert!(matches!(errs[0], InstallResolveError::NoRegistriesForSpecResolution { .. }));
}

#[test]
fn returns_manifest_target() {
    let db = PackageDatabase::new();
    let inputs = vec![InstallResolveInput::Manifest {
        path: "example-font.toml".to_string(),
        pkg: make_package_definition("example-font@1.0.0"),
    }];
    let indexes = LazyRegistryIndexes::new(vec![]);

    let targets = resolve_install_targets(&db, &inputs, &test_options(false, true), &indexes).unwrap();

    assert_eq!(targets, vec![manifest_target("example-font@1.0.0", "example-font.toml", true)]);
}

#[test]
fn reports_multiple_versions_with_activation() {
    let db = PackageDatabase::new();
    let inputs = vec![
        InstallResolveInput::Manifest { path: "manifest-a.toml".to_string(), pkg: make_package_definition("example-font@0.1.0") },
        InstallResolveInput::Manifest { path: "manifest-b.toml".to_string(), pkg: make_package_definition("example-font@0.2.0") },
    ];
    let indexes = LazyRegistryIndexes::new(vec![]);

    let errs = resolve_install_targets(&db, &inputs, &test_options(false, true), &indexes).unwrap_err();

    assert_eq!(errs.len(), 1);
    assert!(matches!(errs[0], InstallResolveError::ConflictingActivations { .. }));
}

#[test]
fn allows_multiple_versions_without_activation() {
    let db = PackageDatabase::new();
    let inputs = vec![
        InstallResolveInput::Manifest { path: "manifest-a.toml".to_string(), pkg: make_package_definition("example-font@0.1.0") },
        InstallResolveInput::Manifest { path: "manifest-b.toml".to_string(), pkg: make_package_definition("example-font@0.2.0") },
    ];
    let indexes = LazyRegistryIndexes::new(vec![]);

    let targets = resolve_install_targets(&db, &inputs, &test_options(false, false), &indexes).unwrap();

    assert_eq!(
        targets,
        vec![
            manifest_target("example-font@0.1.0", "manifest-a.toml", false),
            manifest_target("example-font@0.2.0", "manifest-b.toml", false),
        ]
    );
}

#[test]
fn allows_multiple_registry_versions_without_activation() {
    let registry = registry_spec("test-registry");
    let indexes = LazyRegistryIndexes::new_for_test(vec![registry_index(
        "test-registry",
        &["example-font@0.1.0", "example-font@0.2.0"],
    )]);
    let db = PackageDatabase::new();
    let inputs = vec![
        InstallResolveInput::PackageSpec { pkg_spec: spec("example-font@0.1.0") },
        InstallResolveInput::PackageSpec { pkg_spec: spec("example-font@0.2.0") },
    ];

    let targets = resolve_install_targets(&db, &inputs, &test_options_with_registry(registry, false, false), &indexes).unwrap();

    assert_eq!(
        targets,
        vec![
            registry_target("example-font@0.1.0", "test-registry", "example-font@0.1.0", false),
            registry_target("example-font@0.2.0", "test-registry", "example-font@0.2.0", false),
        ]
    );
}

#[test]
fn lazy_registry_indexes_fetch_once_and_keep_the_result() {
    let mut indexes = LazyRegistryIndexes::new(vec![registry_spec("test-registry")]);
    assert!(indexes.indexes().is_none());

    let fetched: Result<(), String> = indexes.get_or_fetch(|specs: &Vec<RegistrySpec>| {
        assert_eq!(specs.len(), 1);
        Ok(vec![registry_index("test-registry", &["example-font@1.0.0"])])
    });
    fetched.unwrap();
    assert_eq!(indexes.indexes().unwrap().len(), 1);

    let again: Result<(), String> = indexes.get_or_fetch(|_specs: &Vec<RegistrySpec>| Err("fetched twice".to_string()));
    again.unwrap();
    assert_eq!(indexes.indexes().unwrap()[0].id().as_str(), "test-registry");
}

#[test]
fn lazy_registry_indexes_report_a_failed_fetch() {
    let mut indexes = LazyRegistryIndexes::new(vec![registry_spec("test-registry")]);

    let fetched: Result<(), String> = indexes.get_or_fetch(|_specs: &Vec<RegistrySpec>| Err("network down".to_string()));

    assert_eq!(fetched, Err("network down".to_string()));
    assert!(indexes.indexes().is_none());
}
