use foton::package::name::PackageName;
use foton::package::namespace::PackageNamespace;
use foton::package::qualified_name::{PackageQualifiedName, ParsePackageQualifiedNameError};

#[test]
fn package_name_new_accepts_valid_names() {
    for name_str in ["hackgen", "HackGen", "hackgen-nerd", "hackgen_nerd", "a0", "x"] {
        let name = PackageName::new(name_str).unwrap();
        assert_eq!(name.as_str(), name_str);
    }
}

#[test]
fn package_name_new_rejects_invalid_names() {
    for name in ["", "0hackgen", "-hackgen", "_hackgen", "hackgen/nerd", r"hackgen\nerd", "hackgen:nerd"] {
        PackageName::new(name).unwrap_err();
    }
}

#[test]
fn package_namespace_new_accepts_valid_names() {
    for name_str in ["hackgen", "HackGen", "hackgen-nerd", "hackgen_nerd", "a0", "x"] {
        let name = PackageNamespace::new(name_str).unwrap();
        assert_eq!(name.as_str(), name_str);
    }
}

#[test]
fn package_namespace_new_rejects_invalid_names() {
    for name in ["", "0hackgen", "-hackgen", "_hackgen", "hackgen/nerd", r"hackgen\nerd", "hackgen:nerd"] {
        PackageNamespace::new(name).unwrap_err();
    }
}

#[test]
fn package_qualified_name_parses_valid_string() {
    let qualified_name = PackageQualifiedName::parse("example-namespace/example-font").unwrap();

    assert_eq!(qualified_name.namespace().as_str(), "example-namespace");
    assert_eq!(qualified_name.name().as_str(), "example-font");
    assert_eq!(qualified_name.to_string(), "example-namespace/example-font");
}

#[test]
fn package_qualified_name_rejects_invalid_format() {
    for input in [
        "example-namespace",
        "example-font",
        "example-namespace/",
        "/example-font",
        "example-namespace/example/font",
    ] {
        assert!(matches!(
            PackageQualifiedName::parse(input),
            Err(ParsePackageQualifiedNameError::InvalidFormat)
        ));
    }
}

#[test]
fn package_qualified_name_reports_invalid_namespace() {
    let err = PackageQualifiedName::parse("0example-namespace/example-font").unwrap_err();

    assert!(matches!(err, ParsePackageQualifiedNameError::InvalidNamespace { .. }));
}

#[test]
fn package_qualified_name_reports_invalid_name() {
    let err = PackageQualifiedName::parse("example-namespace/0example-font").unwrap_err();

    assert!(matches!(err, ParsePackageQualifiedNameError::InvalidName { .. }));
}

#[test]
fn package_qualified_name_new_joins_namespace_and_name() {
    let qualified_name = PackageQualifiedName::new(
        PackageNamespace::new("example-namespace").unwrap(),
        PackageName::new("example-font").unwrap(),
    );

    assert_eq!(qualified_name.to_string(), "example-namespace/example-font");
    assert_eq!(PackageQualifiedName::parse(&qualified_name.to_string()).unwrap(), qualified_name);
}
