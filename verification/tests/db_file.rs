use foton::db::{DbEntry, PackageDatabase};
use foton::db_file::{database_from_document, database_to_document, parse_database, DbFileError};
use foton::package::file_name::{FileName, FontEntry};
use foton::package::id::PackageId;
use foton::package::state::{ActivationState, InstallationState};

fn entry_summary(db: &PackageDatabase) -> Vec<(String, InstallationState, ActivationState, Vec<String>)> {
    (0..db.len())
        .map(|i| {
            let e = db.entry(i);
            (
                e.id().to_string(),
                e.installation_state(),
                e.activation_state(),
                e.fonts().iter().map(|f| f.file_name().as_str().to_string()).collect(),
            )
        })
        .collect()
}

#[test]
fn parse_database_reads_every_entry() {
    let text = r#"
[[packages]]
id = "example-font@0.1.0"
installation = "installed"
activation = "active"
fonts = ["Example-Regular.ttf", "Example-Bold.ttf"]

[[packages]]
id = "other-font@1.2.3"
installation = "incomplete-uninstall"
activation = "incomplete-deactivation"
"#;

    let db = parse_database(text).unwrap();

    assert_eq!(
        entry_summary(&db),
        vec![
            (
                "example-font@0.1.0".to_string(),
                InstallationState::Installed,
                ActivationState::Active,
                vec!["Example-Regular.ttf".to_string(), "Example-Bold.ttf".to_string()],
            ),
            (
                "other-font@1.2.3".to_string(),
                InstallationState::IncompleteUninstall,
                ActivationState::IncompleteDeactivation,
                vec![],
            ),
        ]
    );
    assert_eq!(parse_database("").unwrap().len(), 0);
}

#[test]
fn parse_database_reports_each_kind_of_error() {
    assert!(matches!(parse_database("packages = ["), Err(DbFileError::Syntax { .. })));
    assert_eq!(
        parse_database("[[packages]]\ninstallation = \"installed\"\nactivation = \"active\"\n").unwrap_err(),
        DbFileError::MissingField { key: "id".to_string() }
    );
    assert_eq!(
        parse_database("[[packages]]\nid = \"bad id\"\ninstallation = \"installed\"\nactivation = \"active\"\n")
            .unwrap_err(),
        DbFileError::InvalidPackageId { id: "bad id".to_string() }
    );
    assert_eq!(
        parse_database("[[packages]]\nid = \"a@0.1.0\"\ninstallation = \"gone\"\nactivation = \"active\"\n")
            .unwrap_err(),
        DbFileError::InvalidInstallationState { state: "gone".to_string() }
    );
    assert_eq!(
        parse_database("[[packages]]\nid = \"a@0.1.0\"\ninstallation = \"installed\"\n").unwrap_err(),
        DbFileError::MissingField { key: "activation".to_string() }
    );
    assert_eq!(
        parse_database("[[packages]]\nid = \"a@0.1.0\"\ninstallation = \"installed\"\nactivation = \"on\"\n")
            .unwrap_err(),
        DbFileError::InvalidActivationState { state: "on".to_string() }
    );
    assert_eq!(
        parse_database(
            "[[packages]]\nid = \"a@0.1.0\"\ninstallation = \"installed\"\nactivation = \"active\"\nfonts = [\"a/b.ttf\"]\n"
        )
        .unwrap_err(),
        DbFileError::InvalidFontFileName
    );
    let entry = "[[packages]]\nid = \"a@0.1.0\"\ninstallation = \"installed\"\nactivation = \"active\"\n";
    assert_eq!(
        parse_database(&format!("{entry}{entry}")).unwrap_err(),
        DbFileError::DuplicateEntry { id: "a@0.1.0".to_string() }
    );
}

#[test]
fn written_database_reads_back() {
    let mut db = PackageDatabase::new();
    db.insert(DbEntry::new(
        PackageId::parse("example-font@0.1.0").unwrap(),
        InstallationState::Installed,
        ActivationState::Inactive,
        vec![FontEntry::new(FileName::new("Example.ttf").unwrap())],
    ))
    .unwrap();
    db.insert(DbEntry::new(
        PackageId::parse("example-font@0.2.0").unwrap(),
        InstallationState::IncompleteInstall,
        ActivationState::IncompleteActivation,
        vec![],
    ))
    .unwrap();

    let read = database_from_document(&database_to_document(&db)).unwrap();

    assert_eq!(entry_summary(&read), entry_summary(&db));
}
