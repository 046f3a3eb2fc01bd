use foton::engine::cleanup::PackageDirsGuard;
use foton::package::dirs::{create_new_package_dirs, join_path, remove_package_dirs, DirOp, PackageDirs, PackageFont};
use foton::package::file_name::FileName;
use foton::package::qualified_name::PackageQualifiedName;
use foton::package::version::PackageVersion;

fn example_dirs(data_local_dir: &str) -> PackageDirs {
    let name = PackageQualifiedName::parse("example-namespace/example-font").unwrap();
    let version = PackageVersion::parse("0.1.0").unwrap();
    PackageDirs::new(data_local_dir, &name, &version)
}

#[test]
fn package_dirs_new_uses_app_dirs_data_local_dir() {
    let data_local_dir = r"C:\path\to\data";
    let pkg_dirs = example_dirs(data_local_dir);
    assert_eq!(
        pkg_dirs.namespace_dir(),
        join_path(&join_path(data_local_dir, "packages"), "example-namespace"),
    );
    assert_eq!(pkg_dirs.name_dir(), join_path(pkg_dirs.namespace_dir(), "example-font"));
    assert_eq!(pkg_dirs.version_dir(), join_path(pkg_dirs.name_dir(), "0.1.0"));
    assert_eq!(pkg_dirs.fonts_dir(), join_path(pkg_dirs.version_dir(), "fonts"));
}

#[test]
fn package_dirs_new_writes_windows_paths() {
    let pkg_dirs = example_dirs(r"C:\path\to\data");
    assert_eq!(pkg_dirs.namespace_dir(), r"C:\path\to\data\packages\example-namespace");
    assert_eq!(pkg_dirs.name_dir(), r"C:\path\to\data\packages\example-namespace\example-font");
    assert_eq!(pkg_dirs.version_dir(), r"C:\path\to\data\packages\example-namespace\example-font\0.1.0");
    assert_eq!(
        pkg_dirs.fonts_dir(),
        r"C:\path\to\data\packages\example-namespace\example-font\0.1.0\fonts"
    );
}

#[test]
fn join_path_does_not_double_a_trailing_separator() {
    assert_eq!(join_path(r"C:\data\", "packages"), r"C:\data\packages");
    assert_eq!(join_path("C:/data/", "packages"), "C:/data/packages");
    assert_eq!(join_path(r"C:\data", "packages"), r"C:\data\packages");
}

#[test]
fn dirs_remove_package_dirs_ignores_missing_directories() {
    let pkg_dirs = example_dirs(r"C:\path\to\data");

    let ops = remove_package_dirs(&pkg_dirs);

    assert_eq!(
        ops,
        vec![
            DirOp::RemoveTree(pkg_dirs.fonts_dir().to_string()),
            DirOp::RemoveIfEmpty(pkg_dirs.version_dir().to_string()),
            DirOp::RemoveIfEmpty(pkg_dirs.name_dir().to_string()),
            DirOp::RemoveIfEmpty(pkg_dirs.namespace_dir().to_string()),
        ]
    );
}

#[test]
fn create_new_package_dirs_never_reuses_an_existing_version_directory() {
    let pkg_dirs = example_dirs(r"C:\path\to\data");

    let ops = create_new_package_dirs(&pkg_dirs);

    assert_eq!(
        ops,
        vec![
            DirOp::CreateAll(pkg_dirs.name_dir().to_string()),
            DirOp::CreateNew(pkg_dirs.version_dir().to_string()),
            DirOp::CreateNew(pkg_dirs.fonts_dir().to_string()),
        ]
    );
}

#[test]
fn package_dirs_guard_removes_created_directories_on_drop() {
    let pkg_dirs = example_dirs(r"C:\path\to\data");
    let guard = PackageDirsGuard::new(pkg_dirs.clone());

    let to_remove = guard.dirs_to_remove().unwrap();

    assert_eq!(to_remove, &pkg_dirs);
    let ops = remove_package_dirs(to_remove);
    assert_eq!(ops[0], DirOp::RemoveTree(pkg_dirs.fonts_dir().to_string()));
    assert_eq!(ops[1], DirOp::RemoveIfEmpty(pkg_dirs.version_dir().to_string()));
    assert_eq!(ops[2], DirOp::RemoveIfEmpty(pkg_dirs.name_dir().to_string()));
}

#[test]
fn disarmed_package_dirs_guard_keeps_directories() {
    let pkg_dirs = example_dirs(r"C:\path\to\data");
    let mut guard = PackageDirsGuard::new(pkg_dirs.clone());

    guard.disarm();

    assert!(guard.dirs_to_remove().is_none());
    assert_eq!(guard.pkg_dirs(), &pkg_dirs);
}

#[test]
fn package_font_lies_in_the_fonts_directory() {
    let pkg_dirs = example_dirs(r"C:\path\to\data");
    let font = PackageFont::new(FileName::new("Example-Regular.ttf").unwrap());

    assert_eq!(font.file_name().as_str(), "Example-Regular.ttf");
    assert_eq!(
        font.path(&pkg_dirs),
        r"C:\path\to\data\packages\example-namespace\example-font\0.1.0\fonts\Example-Regular.ttf"
    );
}

#[test]
fn install_remove_package_dirs_ignores_missing_directories() {
    let name = PackageQualifiedName::parse("default/hackgen").unwrap();
    let version = PackageVersion::parse("2.10.0").unwrap();
    let pkg_dirs = PackageDirs::new(r"C:\data", &name, &version);

    let ops = remove_package_dirs(&pkg_dirs);

    assert_eq!(ops.len(), 4);
    assert_eq!(ops[0], DirOp::RemoveTree(r"C:\data\packages\default\hackgen\2.10.0\fonts".to_string()));
    assert_eq!(ops[1], DirOp::RemoveIfEmpty(r"C:\data\packages\default\hackgen\2.10.0".to_string()));
    assert_eq!(ops[2], DirOp::RemoveIfEmpty(r"C:\data\packages\default\hackgen".to_string()));
}
