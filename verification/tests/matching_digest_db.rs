use foton::db::{DbEntry, PackageDatabase, PackageDatabaseError};
use foton::package::definition::PackageDefinition;
use foton::package::digest::{GenericDigest, ParseDigestError};
use foton::package::file_name::FileName;
use foton::package::id::PackageId;
use foton::package::manifest::parse_manifest;
use foton::package::matching::{best_package_match, PackageDefinitionField, PackageMatchResult, TextMatch};
use foton::package::spec::PackageSpec;
use foton::package::state::{ActivationState, InstallationState};
use foton::simulate::{SimulatedActivationResult, SimulatedInstallationResult, SimulatedPackageDbState};

fn pkg_id(s: &str) -> PackageId {
    PackageId::parse(s).unwrap()
}

fn make_package_definition(text_fields: &str) -> PackageDefinition {
    parse_manifest(&format!(
        r#"
name = "example-font-nerd"
version = "0.1.0"
{text_fields}

[[sources]]
url = "https://example.com/example-font-0.1.0.zip"
hash = "sha256:0123456789abcdef0123456789abcdef0123456789abcdef0123456789abcdef"

[sources.contents]
type = "archive"
"#
    ))
    .unwrap()
}

#[test]
fn best_package_match_prefers_stronger_match_from_another_field() {
    let weak = Some(TextMatch { form: 1, kind: 1 });
    let strong = Some(TextMatch { form: 2, kind: 2 });

    let best = best_package_match(weak, strong, &vec![None], None);

    assert_eq!(best, Some(PackageMatchResult { form: 2, kind: 2, field: PackageDefinitionField::DisplayName }));
}

#[test]
fn best_package_match_breaks_ties_by_field() {
    let m = Some(TextMatch { form: 1, kind: 1 });

    assert_eq!(
        best_package_match(None, None, &vec![m, None], m),
        Some(PackageMatchResult { form: 1, kind: 1, field: PackageDefinitionField::Aliases })
    );
    assert_eq!(
        best_package_match(m, m, &vec![], m),
        Some(PackageMatchResult { form: 1, kind: 1, field: PackageDefinitionField::Name })
    );
    assert_eq!(best_package_match(None, None, &vec![None, None], None), None);
}

#[test]
fn match_package_weighs_every_field_of_the_definition() {
    let mut pkg = make_package_definition("description = \"Nerd variant\"");
    pkg.display_name = Some("Example Font".to_string());
    let matcher = |text: &str| -> Option<TextMatch> {
        if text == "Nerd variant" {
            Some(TextMatch { form: 0, kind: 3 })
        } else if text == "Example Font" {
            Some(TextMatch { form: 1, kind: 0 })
        } else {
            None
        }
    };

    let result = pkg.match_package(matcher);

    assert_eq!(result, Some(PackageMatchResult { form: 1, kind: 0, field: PackageDefinitionField::DisplayName }));
}

#[test]
fn generic_digest_round_trips_its_text() {
    let text = "sha256:0123456789abcdef0123456789abcdef0123456789abcdef0123456789abcdef";
    let digest = GenericDigest::parse(text).unwrap();

    assert_eq!(digest.to_string(), text);
    assert_eq!(digest.as_bytes().len(), 32);
    assert_eq!(digest.as_bytes()[0], 0x01);
    assert_eq!(
        GenericDigest::parse("SHA256:0123456789ABCDEF0123456789abcdef0123456789abcdef0123456789abcdef")
            .map(|d| d.to_string()),
        Err(ParseDigestError::UnknownAlgorithm)
    );
    assert_eq!(
        GenericDigest::parse("sha256:0123456789ABCDEF0123456789abcdef0123456789abcdef0123456789abcdef").unwrap().to_string(),
        text
    );
    assert_eq!(GenericDigest::parse("sha256:01").map(|d| d.to_string()), Err(ParseDigestError::InvalidHex));
    assert!(digest.matches_bytes(digest.as_bytes()));
    assert!(!digest.matches_bytes(&[0u8; 32]));
}

#[test]
fn file_names_refuse_separators_and_dot_names() {
    for bad in ["", ".", "..", "a/b", r"a\b", "a:b", "a*b", "a?b", "a\"b", "a<b", "a>b", "a|b"] {
        assert!(FileName::new(bad).is_none(), "{bad}");
    }
    assert_eq!(FileName::new("Example-Regular.ttf").unwrap().as_str(), "Example-Regular.ttf");
}

#[test]
fn database_refuses_a_second_entry_with_the_same_id() {
    let mut db = PackageDatabase::new();
    db.insert(DbEntry::new(pkg_id("a-font@1.0.0"), InstallationState::Installed, ActivationState::Inactive, vec![]))
        .unwrap();

    let err = db
        .insert(DbEntry::new(pkg_id("a-font@1.0.0"), InstallationState::Installed, ActivationState::Active, vec![]))
        .unwrap_err();

    assert_eq!(err, PackageDatabaseError::AlreadyExists);
    assert_eq!(db.len(), 1);
}

#[test]
fn cancelled_install_leaves_no_trace() {
    let mut db = PackageDatabase::new();
    db.begin_install(&pkg_id("a-font@1.0.0"));

    db.cancel_install(&pkg_id("a-font@1.0.0"), false);

    assert_eq!(db.len(), 0);
}

#[test]
fn uninstall_removes_only_that_entry() {
    let mut db = PackageDatabase::new();
    for id in ["a-font@1.0.0", "a-font@2.0.0", "b-font@1.0.0"] {
        db.insert(DbEntry::new(pkg_id(id), InstallationState::Installed, ActivationState::Inactive, vec![])).unwrap();
    }

    db.begin_uninstall(&pkg_id("a-font@2.0.0")).unwrap();
    db.complete_uninstall(&pkg_id("a-font@2.0.0"));

    assert_eq!(db.len(), 2);
    assert!(db.entry_by_id(&pkg_id("a-font@2.0.0")).is_none());
    assert!(db.entry_by_id(&pkg_id("a-font@1.0.0")).is_some());
    assert_eq!(db.entries_by_spec(&PackageSpec::parse("a-font").unwrap()).len(), 1);
}

#[test]
fn simulated_activation_deactivates_other_versions_once() {
    let mut db = PackageDatabase::new();
    db.insert(DbEntry::new(pkg_id("a-font@1.0.0"), InstallationState::Installed, ActivationState::Active, vec![])).unwrap();
    db.insert(DbEntry::new(pkg_id("a-font@2.0.0"), InstallationState::Installed, ActivationState::Inactive, vec![]))
        .unwrap();
    let mut sim = SimulatedPackageDbState::from_db(&db);

    match sim.activate(&pkg_id("a-font@2.0.0")) {
        SimulatedActivationResult::Activated { deactivated } => {
            assert_eq!(deactivated.len(), 1);
            assert_eq!(deactivated[0].0, pkg_id("a-font@1.0.0"));
        }
        other => panic!("unexpected result {other:?}"),
    }
    assert!(matches!(sim.activate(&pkg_id("a-font@2.0.0")), SimulatedActivationResult::AlreadyActive));
    assert!(matches!(sim.activate(&pkg_id("b-font@1.0.0")), SimulatedActivationResult::NotInstalled));
    assert_eq!(sim.install(&pkg_id("a-font@2.0.0")), SimulatedInstallationResult::AlreadyInstalled);
    assert_eq!(sim.install(&pkg_id("b-font@1.0.0")), SimulatedInstallationResult::Installed);
}
