use foton::package::definition::PackageSourceContents;
use foton::package::manifest::{default_archive_fonts, parse_manifest, ManifestError};
use foton::package::rule::{FontRule, PathGlob, PathMatcher};

const HASH: &str = "sha256:0123456789abcdef0123456789abcdef0123456789abcdef0123456789abcdef";

fn minimal_manifest_toml() -> &'static str {
    r#"
    name = "example-font"
    version = "0.1.0"

    [[sources]]
    url = "https://example.com/example-font-0.1.0.zip"
    hash = "sha256:0123456789abcdef0123456789abcdef0123456789abcdef0123456789abcdef"

    [sources.contents]
    type = "archive"
    fonts = [{ glob = "*/*.ttf" }]
    "#
}

fn error_message(text: &str) -> String {
    let err: ManifestError = parse_manifest(text).unwrap_err();
    err.message()
}

#[test]
fn package_manifest_deserializes_minimal_manifest() {
    let manifest = parse_manifest(minimal_manifest_toml()).unwrap();

    assert_eq!(manifest.id.name().as_str(), "example-font");
    assert_eq!(manifest.id.version().as_str(), "0.1.0");
    assert_eq!(manifest.description, None);
    assert_eq!(manifest.homepage, None);
    assert_eq!(manifest.repository, None);
    assert_eq!(manifest.license, None);
    assert_eq!(manifest.sources.len(), 1);
    assert_eq!(manifest.sources[0].url.as_str(), "https://example.com/example-font-0.1.0.zip");
    assert_eq!(manifest.sources[0].hash.to_string(), HASH);
    let archive = manifest.sources[0].contents.as_archive().unwrap();
    assert_eq!(archive.fonts.iter().map(|r| r.to_string()).collect::<Vec<_>>(), ["*/*.ttf"]);
    assert!(archive.ignore.is_empty());
}

#[test]
fn package_manifest_deserializes_manifest_with_all_metadata_fields() {
    let manifest = parse_manifest(
        r#"
name = "example-font"
version = "0.1.0"
description = "Example font family for UI and coding"
homepage = "https://example.com/example-font"
repository = "https://github.com/example/example-font"
license = "OFL-1.1"

[[sources]]
url = "https://example.com/example-font-0.1.0.zip"
hash = "sha256:0123456789abcdef0123456789abcdef0123456789abcdef0123456789abcdef"

[sources.contents]
type = "archive"
fonts = [{ glob = "*/*.ttf" }]
"#,
    )
    .unwrap();

    assert_eq!(manifest.id.name().as_str(), "example-font");
    assert_eq!(manifest.id.version().as_str(), "0.1.0");
    assert_eq!(manifest.description.as_deref(), Some("Example font family for UI and coding"));
    assert_eq!(manifest.homepage.as_deref(), Some("https://example.com/example-font"));
    assert_eq!(manifest.repository.as_deref(), Some("https://github.com/example/example-font"));
    assert_eq!(manifest.license.as_deref(), Some("OFL-1.1"));
    assert_eq!(manifest.sources.len(), 1);
    assert_eq!(manifest.sources[0].url.as_str(), "https://example.com/example-font-0.1.0.zip");
    assert_eq!(manifest.sources[0].hash.to_string(), HASH);
    let archive = manifest.sources[0].contents.as_archive().unwrap();
    assert_eq!(archive.fonts.iter().map(|r| r.to_string()).collect::<Vec<_>>(), ["*/*.ttf"]);
}

#[test]
fn package_manifest_rejects_invalid_license_expression() {
    let message = error_message(
        r#"
name = "example-font"
version = "0.1.0"
license = "not-a-valid-spdx"

[[sources]]
url = "https://example.com/example-font-0.1.0.zip"
hash = "sha256:0123456789abcdef0123456789abcdef0123456789abcdef0123456789abcdef"

[sources.contents]
type = "archive"
"#,
    );

    assert!(message.contains("invalid SPDX expression"), "{message}");
}

#[test]
fn package_manifest_rejects_empty_sources() {
    let message = error_message(
        r#"
sources = []

name = "example-font"
version = "0.1.0"
"#,
    );

    assert!(message.contains("a non-empty array"), "{message}");
}

#[test]
fn package_manifest_rejects_empty_fonts() {
    let message = error_message(
        r#"
name = "example-font"
version = "0.1.0"

[[sources]]
url = "https://example.com/example-font-0.1.0.zip"
hash = "sha256:0123456789abcdef0123456789abcdef0123456789abcdef0123456789abcdef"

[sources.contents]
type = "archive"
fonts = []
"#,
    );

    assert!(message.contains("a non-empty array"), "{message}");
}

#[test]
fn package_manifest_rejects_empty_description() {
    let message = error_message(
        r#"
name = "example-font"
version = "0.1.0"
description = ""

[[sources]]
url = "https://example.com/example-font-0.1.0.zip"
hash = "sha256:0123456789abcdef0123456789abcdef0123456789abcdef0123456789abcdef"
"#,
    );

    assert!(message.contains("a non-empty string without leading or trailing whitespace"), "{message}");
}

#[test]
fn package_manifest_rejects_description_with_surrounding_whitespace() {
    let message = error_message(
        r#"
name = "example-font"
version = "0.1.0"
description = " example-font "

[[sources]]
url = "https://example.com/example-font-0.1.0.zip"
hash = "sha256:0123456789abcdef0123456789abcdef0123456789abcdef0123456789abcdef"

[sources.contents]
type = "archive"
"#,
    );

    assert!(message.contains("a non-empty string without leading or trailing whitespace"), "{message}");
}

#[test]
fn package_manifest_rejects_non_http_source_url() {
    let message = error_message(
        r#"
name = "example-font"
version = "0.1.0"

[[sources]]
url = "file:///tmp/example-font_v0.1.0.zip"
hash = "sha256:0123456789abcdef0123456789abcdef0123456789abcdef0123456789abcdef"

[sources.contents]
type = "archive"
"#,
    );

    assert!(message.contains("a URL with http or https scheme"), "{message}");
}

#[test]
fn package_manifest_rejects_non_http_homepage_url() {
    let message = error_message(
        r#"
name = "example-font"
version = "0.1.0"
homepage = "file:///tmp/project"

[[sources]]
url = "https://example.com/example-font-0.1.0.zip"
hash = "sha256:0123456789abcdef0123456789abcdef0123456789abcdef0123456789abcdef"

[sources.contents]
type = "archive"
"#,
    );

    assert!(message.contains("a URL with http or https scheme"), "{message}");
}

#[test]
fn package_manifest_uses_default_files_when_omitted() {
    let manifest = parse_manifest(
        r#"
name = "example-font"
version = "0.1.0"

[[sources]]
url = "https://example.com/example-font-0.1.0.zip"
hash = "sha256:0123456789abcdef0123456789abcdef0123456789abcdef0123456789abcdef"

[sources.contents]
type = "archive"
"#,
    )
    .unwrap();

    let archive = manifest.sources[0].contents.as_archive().unwrap();
    assert_eq!(
        archive.fonts.iter().map(|r| r.to_string()).collect::<Vec<_>>(),
        ["**/*.ttf", "**/*.otf", "**/*.ttc", "**/*.otc"]
    );
    assert!(archive.ignore.is_empty());
}

#[test]
fn package_manifest_deserializes_ignore_rules() {
    let manifest = parse_manifest(
        r#"
name = "example-font"
version = "0.1.0"

[[sources]]
url = "https://example.com/example-font-0.1.0.zip"
hash = "sha256:0123456789abcdef0123456789abcdef0123456789abcdef0123456789abcdef"

[sources.contents]
type = "archive"
fonts = [{ glob = "fonts/*.ttf" }]
ignore = ["fonts/exclude.ttf", { glob = "fonts/legacy/*.ttf" }]
"#,
    )
    .unwrap();

    let archive = manifest.sources[0].contents.as_archive().unwrap();
    assert_eq!(
        archive.ignore.iter().map(|r| r.to_string()).collect::<Vec<_>>(),
        ["fonts/exclude.ttf", "fonts/legacy/*.ttf"]
    );
}

#[test]
fn package_manifest_rejects_unknown_fields() {
    let message = error_message(
        r#"
name = "example-font"
version = "0.1.0"
colour = "blue"

[[sources]]
url = "https://example.com/example-font-0.1.0.zip"
hash = "sha256:0123456789abcdef0123456789abcdef0123456789abcdef0123456789abcdef"
"#,
    );

    assert!(message.contains("unknown field `colour`"), "{message}");
}

#[test]
fn package_manifest_rejects_invalid_toml() {
    assert!(matches!(parse_manifest("not valid toml"), Err(ManifestError::Syntax { .. })));
}

#[test]
fn package_manifest_reads_font_file_sources() {
    let manifest = parse_manifest(
        r#"
name = "example-font"
version = "0.1.0"

[[sources]]
url = "https://example.com/Example-Regular.ttf"
hash = "sha256:0123456789abcdef0123456789abcdef0123456789abcdef0123456789abcdef"

[sources.contents]
type = "font-file"
file-name = "Renamed.ttf"
"#,
    )
    .unwrap();

    match &manifest.sources[0].contents {
        PackageSourceContents::FontFile(options) => {
            assert_eq!(options.file_name.as_ref().map(|f| f.as_str()), Some("Renamed.ttf"));
        }
        PackageSourceContents::Archive(_) => panic!("expected a font file source"),
    }
}

#[test]
fn default_archive_fonts_select_the_four_font_extensions() {
    let fonts: Vec<FontRule> = default_archive_fonts().unwrap();
    assert_eq!(
        fonts.iter().map(|r| r.to_string()).collect::<Vec<_>>(),
        ["**/*.ttf", "**/*.otf", "**/*.ttc", "**/*.otc"]
    );
    assert!(fonts[0].matches("a/b/Example.ttf"));
    assert!(!fonts[0].matches("a/b/Example.otf"));
}

#[test]
fn file_rule_glob_constructor_builds_glob_rule() {
    let rule = FontRule::glob(PathGlob::new("**/*.ttf").unwrap());

    assert_eq!(rule.matcher(), &PathMatcher::Glob(PathGlob::new("**/*.ttf").unwrap()));
}

#[test]
fn package_manifest_read_returns_deserialize_error_for_invalid_toml() {
    let err = parse_manifest("not valid toml").unwrap_err();

    assert!(matches!(err, ManifestError::Syntax { .. }));
}

#[test]
fn package_manifest_read_reads_manifest_file() {
    let manifest = parse_manifest(minimal_manifest_toml()).unwrap();

    assert_eq!(manifest.id.to_string(), "example-font@0.1.0");
}
