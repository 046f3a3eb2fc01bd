use foton::package::id::{PackageId, ParsePackageIdError};
use foton::package::manifest::{parse_font_rule, parse_ignore_rule};
use foton::package::qualified_name::PackageQualifiedName;
use foton::package::rule::{FontRule, IgnoreRule, PathGlob, PathMatcher, PathRuleError};
use foton::package::spec::PackageSpec;
use foton::package::toml::TomlValue;
use foton::package::version::PackageVersion;
use foton::text::Order;

fn string(s: &str) -> TomlValue {
    TomlValue::String(s.to_string())
}

fn table(entries: &[(&str, TomlValue)]) -> TomlValue {
    TomlValue::Table(entries.iter().map(|(k, v)| (k.to_string(), clone_value(v))).collect())
}

fn clone_value(v: &TomlValue) -> TomlValue {
    match v {
        TomlValue::String(s) => TomlValue::String(s.clone()),
        TomlValue::Integer(i) => TomlValue::Integer(*i),
        TomlValue::Float => TomlValue::Float,
        TomlValue::Boolean(b) => TomlValue::Boolean(*b),
        TomlValue::Datetime(d) => TomlValue::Datetime(d.clone()),
        TomlValue::Array(a) => TomlValue::Array(a.iter().map(clone_value).collect()),
        TomlValue::Table(t) => TomlValue::Table(t.iter().map(|(k, v)| (k.clone(), clone_value(v))).collect()),
    }
}

#[test]
fn file_rule_deserializes_path_string() {
    let rule: FontRule = parse_font_rule(&string("fonts/A.ttf")).unwrap();

    assert_eq!(rule.matcher(), &PathMatcher::path("fonts/A.ttf").unwrap());
}

#[test]
fn file_rule_deserializes_path_object() {
    let rule = parse_font_rule(&table(&[("path", string("fonts/A.ttf"))])).unwrap();

    assert_eq!(rule.matcher(), &PathMatcher::path("fonts/A.ttf").unwrap());
}

#[test]
fn file_rule_deserializes_glob_object() {
    let rule = parse_font_rule(&table(&[("glob", string("**/*.ttf"))])).unwrap();

    assert_eq!(rule.matcher(), &PathMatcher::Glob(PathGlob::new("**/*.ttf").unwrap()));
}

#[test]
fn file_rule_rejects_unknown_fields() {
    let err = parse_font_rule(&table(&[("path", string("fonts/A.ttf")), ("__foton_unused_field__", string("B.ttf"))]))
        .unwrap_err();

    assert!(err.message().contains("unknown field `__foton_unused_field__`"), "{}", err.message());
}

#[test]
fn file_rule_rejects_path_and_glob_together() {
    let err =
        parse_font_rule(&table(&[("path", string("fonts/A.ttf")), ("glob", string("fonts/*.ttf"))])).unwrap_err();

    assert!(err.message().contains("exactly one of `path` or `glob` must be specified"), "{}", err.message());
}

#[test]
fn file_rule_accepts_a_file_name_only_with_a_path() {
    let rule = parse_font_rule(&table(&[("path", string("fonts/A.ttf")), ("file-name", string("B.ttf"))])).unwrap();
    assert_eq!(rule.file_name().map(|f| f.as_str()), Some("B.ttf"));

    let err = parse_font_rule(&table(&[("glob", string("fonts/*.ttf")), ("file-name", string("B.ttf"))])).unwrap_err();
    assert!(err.message().contains(PathRuleError::FileNameWithoutPath.message()), "{}", err.message());
}

#[test]
fn ignore_rule_rejects_unknown_fields() {
    let err = parse_ignore_rule(&table(&[("path", string("fonts/A.ttf")), ("__foton_unused_field__", string("B.ttf"))]))
        .unwrap_err();

    assert!(err.message().contains("unknown field `__foton_unused_field__`"), "{}", err.message());
}

#[test]
fn ignore_rule_rejects_path_and_glob_together() {
    let err =
        parse_ignore_rule(&table(&[("path", string("fonts/A.ttf")), ("glob", string("fonts/*.ttf"))])).unwrap_err();

    assert!(err.message().contains("exactly one of `path` or `glob` must be specified"), "{}", err.message());
}

#[test]
fn path_rules_compare_paths_with_either_separator() {
    let rule = IgnoreRule::path(r"fonts\legacy\A.ttf").unwrap();

    assert!(rule.matches("fonts/legacy/A.ttf"));
    assert!(rule.matches(r"fonts\legacy\A.ttf"));
    assert!(!rule.matches("fonts/legacy/B.ttf"));
    assert!(matches!(IgnoreRule::path(""), Err(PathRuleError::EmptyPath)));
}

#[test]
fn glob_rules_match_case_insensitively_without_crossing_directories() {
    let rule = FontRule::glob(PathGlob::new("fonts/*.ttf").unwrap());

    assert!(rule.matches("fonts/A.TTF"));
    assert!(!rule.matches("fonts/sub/A.ttf"));
    assert!(!rule.matches("fonts/.hidden.ttf"));
    assert!(PathGlob::new("[").is_err());
}

#[test]
fn package_id_parses_valid_string() {
    let pkg_id = PackageId::parse("example-font@0.1.0").unwrap();

    assert_eq!(pkg_id.name().as_str(), "example-font");
    assert_eq!(pkg_id.version(), &PackageVersion::parse("0.1.0").unwrap());
    assert_eq!(pkg_id.to_string(), "example-font@0.1.0");
}

#[test]
fn package_id_rejects_invalid_format() {
    for input in ["example-font", "example-font@", "example-font@0.1.0@latest"] {
        assert!(matches!(PackageId::parse(input), Err(ParsePackageIdError::InvalidFormat)), "{input}");
    }
}

#[test]
fn package_id_reports_invalid_name() {
    let err = PackageId::parse("0example-font@0.1.0").unwrap_err();
    assert!(matches!(err, ParsePackageIdError::InvalidName { .. }));
}

#[test]
fn package_id_reports_invalid_version() {
    let err = PackageId::parse("example-font@latest").unwrap_err();
    assert!(matches!(err, ParsePackageIdError::InvalidVersion { .. }));
}

#[test]
fn package_id_deserializes_from_string() {
    let pkg_id = PackageId::parse("example-font@0.1.0").unwrap();

    assert_eq!(pkg_id.to_string(), "example-font@0.1.0");
}

#[test]
fn package_qualified_name_deserializes_from_string() {
    let qualified_name = PackageQualifiedName::parse("example-namespace/example-font").unwrap();

    assert_eq!(qualified_name.to_string(), "example-namespace/example-font");
}

#[test]
fn package_ids_order_by_name_then_by_semantic_version() {
    let a = PackageId::parse("example-font@0.2.0").unwrap();
    let b = PackageId::parse("example-font@0.10.0").unwrap();
    let c = PackageId::parse("other-font@0.1.0").unwrap();

    assert_eq!(a.compare(&b), Order::Less);
    assert_eq!(b.compare(&a), Order::Greater);
    assert_eq!(b.compare(&c), Order::Less);
    assert_eq!(a.compare(&PackageId::parse("example-font@0.2.0").unwrap()), Order::Equal);
}

#[test]
fn package_versions_know_pre_releases() {
    assert!(PackageVersion::parse("2.0.0-rc-1").unwrap().is_prerelease());
    assert!(!PackageVersion::parse("2.0.0").unwrap().is_prerelease());
    assert!(PackageVersion::parse("latest").is_err());
}

#[test]
fn package_specs_select_by_name_or_by_id() {
    let id = PackageId::parse("example-font@0.1.0").unwrap();
    let by_name = PackageSpec::parse("example-font").unwrap();
    let by_id = PackageSpec::parse("example-font@0.1.0").unwrap();
    let other = PackageSpec::parse("example-font@0.2.0").unwrap();

    assert!(by_name.selects(&id));
    assert!(by_id.selects(&id));
    assert!(!other.selects(&id));
    assert_eq!(by_id.to_string(), "example-font@0.1.0");
    assert!(PackageSpec::parse("0bad").is_err());
}

#[test]
fn path_glob_matches_under_the_options_of_package_rules() {
    let glob = PathGlob::new("*.ttf").unwrap();

    assert!(glob.matches("FONT.TTF"));
    assert!(!glob.matches("a/font.ttf"));
    assert!(!glob.matches(".hidden.ttf"));
    assert!(PathGlob::new("**/*.ttf").unwrap().matches("a/b/font.ttf"));
}
