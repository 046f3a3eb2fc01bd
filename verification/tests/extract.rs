use foton::engine::stage::{
    check_download_digest, check_reported_size, extract_font_file, is_font_like, path_file_name_of, url_to_filename,
    staged_fonts, verify_download, ArchiveEntry, ArchiveExtraction, DownloadError, DownloadTracker, ExtractDetail, ExtractError,
    ExtractLimits, ExtractResult, StageError,
};
use foton::package::definition::{ArchiveOptions, FontFileOptions, HttpUrl};
use foton::package::digest::GenericDigest;
use foton::package::file_name::FileName;
use foton::package::id::PackageId;
use foton::package::manifest::default_archive_fonts;
use foton::package::rule::{FontRule, IgnoreRule, PathGlob};

fn default_limits() -> ExtractLimits {
    ExtractLimits { max_font_file_size_bytes: 64 * 1024 * 1024, max_fonts_per_package_source: 1024 }
}

fn default_archive_options() -> ArchiveOptions {
    ArchiveOptions { fonts: default_archive_fonts().unwrap(), ignore: vec![] }
}

fn glob(pattern: &str) -> FontRule {
    FontRule::glob(PathGlob::new(pattern).unwrap())
}

/// Walks the members of an archive in order, as the reader lists them: a
/// name ending in `/` is a directory.
fn extract_archive<'a>(
    entries: &[(&str, &[u8])],
    options: &'a ArchiveOptions,
    limits: ExtractLimits,
) -> Result<(ExtractResult<'a>, Vec<String>), ExtractError> {
    let mut extraction = ArchiveExtraction::new(options);
    let mut written = vec![];
    for (index, (name, contents)) in entries.iter().enumerate() {
        let entry = ArchiveEntry {
            is_file: !name.ends_with('/'),
            enclosed_name: Some(name.to_string()),
            size: contents.len() as u64,
        };
        if let Some(file_name) = extraction.accept_entry(limits, index, &entry)? {
            written.push(file_name.as_str().to_string());
        }
    }
    Ok((extraction.into_result(), written))
}

fn file_names(res: &ExtractResult) -> Vec<String> {
    res.files.iter().map(|f| f.file_name().as_str().to_string()).collect()
}

#[test]
fn extract_font_file_uses_url_file_name_when_not_overridden() {
    let url = HttpUrl::parse("https://example.com/fonts/Example-Regular.ttf").unwrap();
    let options = FontFileOptions { file_name: None };

    let res = extract_font_file(&url, &options, 4, default_limits()).unwrap();

    assert_eq!(file_names(&res), ["Example-Regular.ttf"]);
    assert!(matches!(res.detail, ExtractDetail::FontFile));
    assert!(res.detail.as_archive().is_none());
}

#[test]
fn extract_font_file_uses_overridden_file_name_and_title() {
    let url = HttpUrl::parse("https://example.com/download?id=123").unwrap();
    let options = FontFileOptions { file_name: Some(FileName::new("Renamed.ttf").unwrap()) };

    let res = extract_font_file(&url, &options, 4, default_limits()).unwrap();

    assert_eq!(file_names(&res), ["Renamed.ttf"]);
}

#[test]
fn extract_font_file_rejects_source_files_exceeding_max_font_file_size_bytes() {
    let url = HttpUrl::parse("https://example.com/fonts/Example-Regular.ttf").unwrap();
    let options = FontFileOptions { file_name: None };
    let limits = ExtractLimits { max_font_file_size_bytes: 3, ..default_limits() };

    let err = extract_font_file(&url, &options, 4, limits).unwrap_err();

    assert_eq!(err, ExtractError::SourceFileExceedsMaxSize { file_size: 4, max_size: 3 });
}

#[test]
fn url_to_filename_rejects_urls_without_a_file_name() {
    let url = HttpUrl::parse("https://example.com/fonts/").unwrap();

    let err = url_to_filename(&url).unwrap_err();

    assert!(matches!(err, ExtractError::InvalidFileNameInUrl { file_name, .. } if file_name.is_empty()));
    assert_eq!(url_to_filename(&HttpUrl::parse("https://example.com/a/b.otf").unwrap()).unwrap().as_str(), "b.otf");
}

#[test]
fn extract_extract_archive_does_not_match_plain_globs_across_directories() {
    let options = ArchiveOptions { fonts: vec![glob("*.ttf")], ignore: vec![] };

    let (res, written) = extract_archive(&[("a/font.ttf", b"font")], &options, default_limits()).unwrap();

    assert!(res.files.is_empty());
    assert!(written.is_empty());
}

#[test]
fn extract_extract_archive_matches_single_directory_globs_against_nested_paths() {
    let options = ArchiveOptions { fonts: vec![glob("*/*.ttf")], ignore: vec![] };

    let (res, _) = extract_archive(&[("a/font.ttf", b"font")], &options, default_limits()).unwrap();

    assert_eq!(file_names(&res), ["font.ttf"]);
}

#[test]
fn extract_extract_archive_matches_recursive_globs_against_nested_paths() {
    let options = ArchiveOptions { fonts: vec![glob("**/*.ttf")], ignore: vec![] };

    let (res, _) = extract_archive(&[("a/b/font.ttf", b"font")], &options, default_limits()).unwrap();

    assert_eq!(file_names(&res), ["font.ttf"]);
}

#[test]
fn extract_archive_skips_files_matching_exclude_patterns() {
    let options =
        ArchiveOptions { fonts: vec![glob("fonts/*.ttf")], ignore: vec![IgnoreRule::path("fonts/skip.ttf").unwrap()] };

    let (res, written) =
        extract_archive(&[("fonts/keep.ttf", b"keep"), ("fonts/skip.ttf", b"skip")], &options, default_limits()).unwrap();

    assert_eq!(file_names(&res), ["keep.ttf"]);
    assert_eq!(written, ["keep.ttf"]);
}

#[test]
fn extract_archive_exclude_takes_precedence_over_include() {
    let options = ArchiveOptions {
        fonts: vec![FontRule::path("fonts/font.ttf").unwrap()],
        ignore: vec![IgnoreRule::path("fonts/font.ttf").unwrap()],
    };

    let (res, _) = extract_archive(&[("fonts/font.ttf", b"font")], &options, default_limits()).unwrap();

    assert!(res.files.is_empty());
}

#[test]
fn extract_extract_archive_filters_non_font_files() {
    let options = default_archive_options();
    let (res, _) = extract_archive(
        &[
            ("font.ttf", b"font"),
            ("font.otf", b"otf"),
            ("font.ttc", b"collection"),
            ("font.otc", b"otc-collection"),
            ("README.txt", b"readme"),
            ("dir/", b""),
        ],
        &options,
        default_limits(),
    )
    .unwrap();

    assert_eq!(file_names(&res), ["font.ttf", "font.otf", "font.ttc", "font.otc"]);
}

#[test]
fn extract_archive_rejects_more_than_max_fonts_per_package_source() {
    let limits = ExtractLimits { max_fonts_per_package_source: 1, ..default_limits() };

    let err = extract_archive(&[("a.ttf", b"font-a"), ("b.ttf", b"font-b")], &default_archive_options(), limits).unwrap_err();

    assert_eq!(err, ExtractError::TooManyExtractableFiles { max_files: 1 });
}

#[test]
fn extract_extract_archive_rejects_more_than_max_extracted_files() {
    let limits = ExtractLimits { max_fonts_per_package_source: 1, ..default_limits() };
    let options = ArchiveOptions { fonts: vec![glob("**/*.ttf"), glob("**/*.ttc"), glob("**/*.otf")], ignore: vec![] };

    let err = extract_archive(&[("a.ttf", b"font-a"), ("b.ttf", b"font-b")], &options, limits).unwrap_err();

    assert!(matches!(err, ExtractError::TooManyExtractableFiles { .. }));
}

#[test]
fn extract_archive_rejects_entries_exceeding_max_font_file_size_bytes() {
    let limits = ExtractLimits { max_font_file_size_bytes: 3, ..default_limits() };

    let err = extract_archive(&[("font.ttf", b"font")], &default_archive_options(), limits).unwrap_err();

    assert_eq!(
        err,
        ExtractError::ExtractedFileExceedsMaxSize { file_path: "font.ttf".to_string(), file_size: 4, max_size: 3 }
    );
}

#[test]
fn extract_extract_archive_rejects_entries_exceeding_max_extracted_file_size() {
    let limits = ExtractLimits { max_font_file_size_bytes: 3, ..default_limits() };
    let options = ArchiveOptions { fonts: vec![glob("**/*.ttf")], ignore: vec![] };

    let err = extract_archive(&[("font.ttf", b"font")], &options, limits).unwrap_err();

    assert!(matches!(err, ExtractError::ExtractedFileExceedsMaxSize { .. }));
}

#[test]
fn extract_archive_records_suspicious_skips_for_font_like_paths_case_insensitively() {
    let options = ArchiveOptions { fonts: vec![FontRule::path("fonts/include.ttf").unwrap()], ignore: vec![] };

    let (res, _) =
        extract_archive(&[("fonts/SKIP.TTF", b"font"), ("fonts/readme.txt", b"readme")], &options, default_limits())
            .unwrap();

    let detail = res.detail.as_archive().unwrap();
    assert_eq!(
        detail.suspicious_skips.iter().map(|entry| entry.path_in_archive.as_str()).collect::<Vec<_>>(),
        vec!["fonts/SKIP.TTF"]
    );
}

#[test]
fn extract_archive_does_not_record_suspicious_skips_for_excluded_font_like_paths() {
    let options = ArchiveOptions { fonts: vec![], ignore: vec![IgnoreRule::path("fonts/skip.ttf").unwrap()] };

    let (res, _) = extract_archive(&[("fonts/skip.ttf", b"font")], &options, default_limits()).unwrap();

    let detail = res.detail.as_archive().unwrap();
    assert!(detail.suspicious_skips.is_empty());
    assert_eq!(
        detail.excluded.iter().map(|entry| entry.path_in_archive.as_str()).collect::<Vec<_>>(),
        vec!["fonts/skip.ttf"]
    );
}

#[test]
fn extract_archive_renames_a_file_selected_by_a_path_rule() {
    let rule = FontRule::try_from_raw(foton::package::rule::RawFontRule {
        path: Some("fonts/font.ttf".to_string()),
        glob: None,
        file_name: Some(FileName::new("Renamed.ttf").unwrap()),
    })
    .unwrap();
    let options = ArchiveOptions { fonts: vec![rule], ignore: vec![] };

    let (res, written) = extract_archive(&[("fonts/font.ttf", b"font")], &options, default_limits()).unwrap();

    assert_eq!(file_names(&res), ["Renamed.ttf"]);
    assert_eq!(written, ["Renamed.ttf"]);
    assert_eq!(
        res.detail.as_archive().unwrap().included.iter().map(|e| e.path_in_archive.as_str()).collect::<Vec<_>>(),
        ["fonts/font.ttf"]
    );
}

#[test]
fn extract_archive_passes_over_members_outside_the_directory() {
    let options = default_archive_options();
    let mut extraction = ArchiveExtraction::new(&options);
    let entry = ArchiveEntry { is_file: true, enclosed_name: None, size: 4 };

    let decided = extraction.accept_entry(default_limits(), 0, &entry).unwrap();

    assert!(decided.is_none());
    assert!(extraction.into_result().files.is_empty());
}

#[test]
fn extract_archive_rejects_duplicate_font_file_names() {
    let options = default_archive_options();

    let err = extract_archive(&[("a/font.ttf", b"font-a"), ("b/font.ttf", b"font-b")], &options, default_limits())
        .unwrap_err();

    assert!(matches!(err, ExtractError::ExtractedFileAlreadyExists { .. }));
}

#[test]
fn extract_extract_archive_rejects_duplicate_font_file_names() {
    let options = ArchiveOptions { fonts: vec![glob("**/*.ttf"), glob("**/*.otf")], ignore: vec![] };

    let err = extract_archive(&[("a/font.ttf", b"font-a"), ("b/font.ttf", b"font-b")], &options, default_limits())
        .unwrap_err();

    assert!(matches!(err, ExtractError::ExtractedFileAlreadyExists { .. }));
}

#[test]
fn install_extract_archive_rejects_duplicate_font_file_names() {
    let options = legacy_options();

    let err = extract_archive(&[("a/font.ttf", b"font-a"), ("b/font.ttf", b"font-b")], &options, legacy_limits())
        .unwrap_err();

    assert_eq!(err, ExtractError::ExtractedFileAlreadyExists { file_name: "font.ttf".to_string() });
}

#[test]
fn extract_archive_detail_names_the_options_it_was_extracted_under() {
    let options = ArchiveOptions { fonts: vec![glob("fonts/*.ttf")], ignore: vec![IgnoreRule::try_from_raw(None, Some(PathGlob::new("fonts/skip*").unwrap())).unwrap()] };

    let (res, _) = extract_archive(&[("fonts/a.ttf", b"a"), ("fonts/skip.ttf", b"s")], &options, default_limits()).unwrap();

    let detail = res.detail.as_archive().unwrap();
    assert_eq!(detail.options, &options);
    assert_eq!(detail.excluded.len(), 1);
}

#[test]
fn extract_archive_reports_a_selected_member_without_a_file_name() {
    let options = ArchiveOptions { fonts: vec![FontRule::path("a/..").unwrap()], ignore: vec![] };

    let err = extract_archive(&[("a/..", b"x")], &options, default_limits()).unwrap_err();

    assert_eq!(err, ExtractError::GetFileName { index: 0 });
}

#[test]
fn path_file_name_of_reads_the_last_component() {
    assert_eq!(path_file_name_of("a/b/font.ttf").as_deref(), Some("font.ttf"));
    assert_eq!(path_file_name_of(r"a\b\font.ttf").as_deref(), Some("font.ttf"));
    assert_eq!(path_file_name_of("a/b/").as_deref(), Some("b"));
    assert_eq!(path_file_name_of("a/b/.").as_deref(), Some("b"));
    assert_eq!(path_file_name_of("a/.."), None);
    assert_eq!(path_file_name_of(""), None);
}

#[test]
fn is_font_like_checks_the_extension_in_any_case() {
    assert!(is_font_like("fonts/SKIP.TTF"));
    assert!(is_font_like("a.otc"));
    assert!(is_font_like("x/y.Otf"));
    assert!(!is_font_like("fonts/readme.txt"));
    assert!(!is_font_like(".ttf"));
    assert!(!is_font_like("font.ttfx"));
}

#[test]
fn check_reported_size_refuses_announced_lengths_over_the_limit() {
    assert_eq!(check_reported_size(None, 3), Ok(()));
    assert_eq!(check_reported_size(Some(3), 3), Ok(()));
    assert_eq!(
        check_reported_size(Some(4), 3),
        Err(DownloadError::ReportedSizeExceedsMax { reported_size: 4, max_size: 3 })
    );
}

#[test]
fn stream_source_file_to_tempfile_rejects_download_size_exceeding_limit() {
    let mut tracker = DownloadTracker::new();

    let err = tracker.add_chunk(b"font".len() as u64, 3).unwrap_err();

    assert_eq!(err, DownloadError::DownloadedSizeExceedsMax { downloaded_size: 4, max_size: 3 });
    assert_eq!(tracker.total_size, 0);
}

#[test]
fn download_tracker_counts_chunks_within_the_limit() {
    let mut tracker = DownloadTracker::new();

    tracker.add_chunk(2, 5).unwrap();
    tracker.add_chunk(3, 5).unwrap();
    assert_eq!(tracker.total_size, 5);
    assert!(tracker.add_chunk(1, 5).is_err());
}

#[test]
fn check_download_digest_reports_both_digests_on_mismatch() {
    let expected =
        GenericDigest::parse("sha256:0123456789abcdef0123456789abcdef0123456789abcdef0123456789abcdef").unwrap();
    let pkg_id = PackageId::parse("example-font@0.1.0").unwrap();

    assert_eq!(check_download_digest(&pkg_id, &expected, expected.as_bytes()), Ok(()));

    let got = [0u8; 32];
    let err = check_download_digest(&pkg_id, &expected, &got).unwrap_err();
    assert_eq!(
        err,
        DownloadError::HashMismatch {
            pkg_id: "example-font@0.1.0".to_string(),
            expected: "sha256:0123456789abcdef0123456789abcdef0123456789abcdef0123456789abcdef".to_string(),
            got: format!("sha256:{}", "0".repeat(64)),
        }
    );
}

#[test]
fn staged_fonts_collects_every_source_and_refuses_none() {
    let pkg_id = PackageId::parse("example-font@0.1.0").unwrap();
    let url = HttpUrl::parse("https://example.com/fonts/Example-Regular.ttf").unwrap();
    let single = extract_font_file(&url, &FontFileOptions { file_name: None }, 4, default_limits()).unwrap();
    let options = default_archive_options();
    let (archive, _) = extract_archive(&[("a/Bold.ttf", b"font"), ("README", b"x")], &options, default_limits()).unwrap();

    let fonts = staged_fonts(&pkg_id, &vec![single, archive]).unwrap();
    assert_eq!(
        fonts.iter().map(|f| f.file_name().as_str().to_string()).collect::<Vec<_>>(),
        ["Example-Regular.ttf", "Bold.ttf"]
    );

    let (empty, _) = extract_archive(&[("README", b"x")], &options, default_limits()).unwrap();
    assert_eq!(
        staged_fonts(&pkg_id, &vec![empty]),
        Err(StageError::NoValidFonts { pkg_id: "example-font@0.1.0".to_string() })
    );
}

fn legacy_limits() -> ExtractLimits {
    ExtractLimits { max_font_file_size_bytes: 50 * 1024 * 1024, max_fonts_per_package_source: 1000 }
}

fn legacy_options() -> ArchiveOptions {
    ArchiveOptions { fonts: vec![glob("**/*.ttf"), glob("**/*.ttc"), glob("**/*.otf")], ignore: vec![] }
}

#[test]
fn install_extract_archive_filters_non_font_files() {
    let options = legacy_options();
    let (res, _) = extract_archive(
        &[("font.ttf", b"font"), ("font.ttc", b"collection"), ("font.otf", b"otf"), ("README.txt", b"readme"), ("dir/", b"")],
        &options,
        legacy_limits(),
    )
    .unwrap();

    assert_eq!(file_names(&res), vec!["font.ttf", "font.ttc", "font.otf"]);
}

#[test]
fn install_extract_archive_rejects_more_than_max_extracted_files() {
    let limits = ExtractLimits { max_fonts_per_package_source: 1, ..legacy_limits() };

    let err = extract_archive(&[("a.ttf", b"font-a"), ("b.ttf", b"font-b")], &legacy_options(), limits).unwrap_err();

    assert_eq!(err, ExtractError::TooManyExtractableFiles { max_files: 1 });
}

#[test]
fn install_extract_archive_rejects_entries_exceeding_max_extracted_file_size() {
    let limits = ExtractLimits { max_font_file_size_bytes: 3, ..legacy_limits() };

    let err = extract_archive(&[("font.ttf", b"font")], &legacy_options(), limits).unwrap_err();

    assert_eq!(
        err,
        ExtractError::ExtractedFileExceedsMaxSize { file_path: "font.ttf".to_string(), file_size: 4, max_size: 3 }
    );
}

#[test]
fn stream_archive_to_tempfile_rejects_download_size_exceeding_limit() {
    let mut tracker = DownloadTracker::new();

    let err = tracker.add_chunk(b"font".len() as u64, 3).unwrap_err();

    assert!(matches!(err, DownloadError::DownloadedSizeExceedsMax { max_size: 3, .. }));
}

#[test]
fn verify_download_accepts_a_body_with_the_named_digest() {
    let pkg_id = PackageId::parse("example-font@0.1.0").unwrap();
    let expected =
        GenericDigest::parse("sha256:ba7816bf8f01cfea414140de5dae2223b00361a396177a9cb410ff61f20015ad").unwrap();

    assert_eq!(verify_download(&pkg_id, b"abc", Some(3), 3, &expected), Ok(()));
    assert_eq!(verify_download(&pkg_id, b"abc", None, 1024, &expected), Ok(()));
}

#[test]
fn verify_download_reports_the_digest_it_computed() {
    let pkg_id = PackageId::parse("example-font@0.1.0").unwrap();
    let expected =
        GenericDigest::parse("sha256:ba7816bf8f01cfea414140de5dae2223b00361a396177a9cb410ff61f20015ad").unwrap();

    let err = verify_download(&pkg_id, b"", None, 1024, &expected).unwrap_err();

    assert_eq!(
        err,
        DownloadError::HashMismatch {
            pkg_id: "example-font@0.1.0".to_string(),
            expected: "sha256:ba7816bf8f01cfea414140de5dae2223b00361a396177a9cb410ff61f20015ad".to_string(),
            got: "sha256:e3b0c44298fc1c149afbf4c8996fb92427ae41e4649b934ca495991b7852b855".to_string(),
        }
    );
}

#[test]
fn verify_download_checks_the_sizes_before_the_digest() {
    let pkg_id = PackageId::parse("example-font@0.1.0").unwrap();
    let expected =
        GenericDigest::parse("sha256:0123456789abcdef0123456789abcdef0123456789abcdef0123456789abcdef").unwrap();

    assert_eq!(
        verify_download(&pkg_id, b"font", Some(10), 3, &expected),
        Err(DownloadError::ReportedSizeExceedsMax { reported_size: 10, max_size: 3 })
    );
    assert_eq!(
        verify_download(&pkg_id, b"font", Some(2), 3, &expected),
        Err(DownloadError::DownloadedSizeExceedsMax { downloaded_size: 4, max_size: 3 })
    );
}
