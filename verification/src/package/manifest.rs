//! Package manifests: the TOML files that define packages, checked field by
//! field into package definitions.
use vstd::prelude::*;

use super::definition::{
    is_http_scheme, url_parse, ArchiveOptions, FontFileOptions, HttpUrl, PackageDefinition,
    PackageSource, PackageSourceContents, UrlError,
};
use super::digest::{digest_text_bytes, digest_text_ok, GenericDigest};
use super::equality::{contents_view, definition_view, source_view, ContentsView, DefinitionView, SourceView};
use super::file_name::{valid_file_name, FileName};
use super::id::PackageId;
use super::name::{valid_identifier, PackageName};
use super::rule::{
    glob_pattern_error, FontRule, FontRuleView, IgnoreRule, PathGlob, PathGlobError,
    PathMatcherView, PathRuleError, RawFontRule,
};
use super::toml::{find_unknown_key, first_unknown_key, get, parse_toml, table_get, toml_document, TomlValue};
use super::version::{semver_accepts, semver_parse_error, PackageVersion, ParsePackageVersionError};

verus! {

/// What `spdx::Expression::parse` reports for a text: `None` when it accepts
/// it, else its error's message.
pub uninterp spec fn spdx_parse_error(s: Seq<char>) -> Option<Seq<char>>;

/// Calls `spdx::Expression::parse`, in strict mode. The contract names the
/// outcome by `spdx_parse_error`, a function of the text. An accepted
/// expression displays as the text it was parsed from, so the library keeps
/// that text.
#[verifier::external_body]
fn spdx_check(s: &str) -> (r: Option<String>)
    ensures
        match r {
            None => spdx_parse_error(s@) is None,
            Some(m) => spdx_parse_error(s@) == Some(m@),
        },
{
    match spdx::Expression::parse(s) {
        Ok(_) => None,
        Err(e) => Some(e.to_string()),
    }
}

/// Why a manifest was refused.
#[derive(Debug, Clone, PartialEq, Eq)]
pub enum ManifestError {
    Syntax { message: String },
    MissingField { field: String },
    UnknownField { field: String },
    InvalidType { field: String, expected: String },
    InvalidValue { field: String, expected: String },
    Invalid { field: String, message: String },
}

pub enum ManifestErrorView {
    Syntax { message: Seq<char> },
    MissingField { field: Seq<char> },
    UnknownField { field: Seq<char> },
    InvalidType { field: Seq<char>, expected: Seq<char> },
    InvalidValue { field: Seq<char>, expected: Seq<char> },
    Invalid { field: Seq<char>, message: Seq<char> },
}

impl View for ManifestError {
    type V = ManifestErrorView;

    open spec fn view(&self) -> ManifestErrorView {
        match self {
            ManifestError::Syntax { message } => ManifestErrorView::Syntax { message: message@ },
            ManifestError::MissingField { field } => ManifestErrorView::MissingField { field: field@ },
            ManifestError::UnknownField { field } => ManifestErrorView::UnknownField { field: field@ },
            ManifestError::InvalidType { field, expected } => ManifestErrorView::InvalidType { field: field@, expected: expected@ },
            ManifestError::InvalidValue { field, expected } => ManifestErrorView::InvalidValue { field: field@, expected: expected@ },
            ManifestError::Invalid { field, message } => ManifestErrorView::Invalid { field: field@, message: message@ },
        }
    }
}

/// How an error reads.
pub open spec fn manifest_error_message(e: ManifestErrorView) -> Seq<char> {
    match e {
        ManifestErrorView::Syntax { message } => message,
        ManifestErrorView::MissingField { field } => "missing field `"@ + field + "`"@,
        ManifestErrorView::UnknownField { field } => "unknown field `"@ + field + "`"@,
        ManifestErrorView::InvalidType { field, expected } => "invalid type for `"@ + field + "`: expected "@ + expected,
        ManifestErrorView::InvalidValue { field, expected } => "invalid value for `"@ + field + "`: expected "@ + expected,
        ManifestErrorView::Invalid { field, message } => "invalid `"@ + field + "`: "@ + message,
    }
}

impl ManifestError {
    pub fn message(&self) -> (r: String)
        ensures
            r@ == manifest_error_message(self@),
    {
        match self {
            ManifestError::Syntax { message } => message.clone(),
            ManifestError::MissingField { field } => {
                let mut s = "missing field `".to_owned();
                s.append(field.as_str());
                s.append("`");
                s
            },
            ManifestError::UnknownField { field } => {
                let mut s = "unknown field `".to_owned();
                s.append(field.as_str());
                s.append("`");
                s
            },
            ManifestError::InvalidType { field, expected } => {
                let mut s = "invalid type for `".to_owned();
                s.append(field.as_str());
                s.append("`: expected ");
                s.append(expected.as_str());
                s
            },
            ManifestError::InvalidValue { field, expected } => {
                let mut s = "invalid value for `".to_owned();
                s.append(field.as_str());
                s.append("`: expected ");
                s.append(expected.as_str());
                s
            },
            ManifestError::Invalid { field, message } => {
                let mut s = "invalid `".to_owned();
                s.append(field.as_str());
                s.append("`: ");
                s.append(message.as_str());
                s
            },
        }
    }
}

/// The whitespace of `char::is_whitespace`: the Unicode `White_Space`
/// characters.
pub open spec fn is_unicode_whitespace(c: char) -> bool {
    ('\u{9}' <= c && c <= '\u{d}') || c == ' ' || c == '\u{85}' || c == '\u{a0}' || c == '\u{1680}'
        || ('\u{2000}' <= c && c <= '\u{200a}') || c == '\u{2028}' || c == '\u{2029}' || c == '\u{202f}'
        || c == '\u{205f}' || c == '\u{3000}'
}

pub fn is_whitespace(c: char) -> (r: bool)
    ensures
        r == is_unicode_whitespace(c),
{
    ('\u{9}' <= c && c <= '\u{d}') || c == ' ' || c == '\u{85}' || c == '\u{a0}' || c == '\u{1680}'
        || ('\u{2000}' <= c && c <= '\u{200a}') || c == '\u{2028}' || c == '\u{2029}' || c == '\u{202f}'
        || c == '\u{205f}' || c == '\u{3000}'
}

/// A text that trimming leaves unchanged and non-empty.
pub open spec fn is_trimmed_nonempty(s: Seq<char>) -> bool {
    s.len() > 0 && !is_unicode_whitespace(s[0]) && !is_unicode_whitespace(s.last())
}

pub fn trimmed_nonempty(s: &str) -> (r: bool)
    ensures
        r == is_trimmed_nonempty(s@),
{
    let n = s.unicode_len();
    n > 0 && !is_whitespace(s.get_char(0)) && !is_whitespace(s.get_char(n - 1))
}

pub open spec fn err_missing(field: Seq<char>) -> ManifestErrorView {
    ManifestErrorView::MissingField { field }
}

pub open spec fn err_type(field: Seq<char>, expected: Seq<char>) -> ManifestErrorView {
    ManifestErrorView::InvalidType { field, expected }
}

/// The text of a string value.
pub open spec fn string_value(field: Seq<char>, v: TomlValue) -> Result<Seq<char>, ManifestErrorView> {
    match v {
        TomlValue::String(s) => Ok(s@),
        _ => Err(err_type(field, "a string"@)),
    }
}

/// An optional string field.
pub open spec fn opt_string_field(t: Seq<(String, TomlValue)>, field: Seq<char>) -> Result<Option<Seq<char>>, ManifestErrorView> {
    match table_get(t, field) {
        None => Ok(None),
        Some(v) => match string_value(field, v) {
            Ok(s) => Ok(Some(s)),
            Err(e) => Err(e),
        },
    }
}

/// A required string field.
pub open spec fn req_string_field(t: Seq<(String, TomlValue)>, field: Seq<char>) -> Result<Seq<char>, ManifestErrorView> {
    match table_get(t, field) {
        None => Err(err_missing(field)),
        Some(v) => string_value(field, v),
    }
}

fn string_field(t: &Vec<(String, TomlValue)>, field: &str) -> (r: Result<Option<String>, ManifestError>)
    ensures
        match (r, opt_string_field(t@, field@)) {
            (Ok(Some(s)), Ok(Some(v))) => s@ == v,
            (Ok(None), Ok(None)) => true,
            (Err(e), Err(v)) => e@ == v,
            _ => false,
        },
{
    match get(t, field) {
        None => Ok(None),
        Some(TomlValue::String(s)) => Ok(Some(s.clone())),
        Some(_) => Err(ManifestError::InvalidType { field: field.to_owned(), expected: "a string".to_owned() }),
    }
}

fn required_string_field(t: &Vec<(String, TomlValue)>, field: &str) -> (r: Result<String, ManifestError>)
    ensures
        match (r, req_string_field(t@, field@)) {
            (Ok(s), Ok(v)) => s@ == v,
            (Err(e), Err(v)) => e@ == v,
            _ => false,
        },
{
    match get(t, field) {
        None => Err(ManifestError::MissingField { field: field.to_owned() }),
        Some(TomlValue::String(s)) => Ok(s.clone()),
        Some(_) => Err(ManifestError::InvalidType { field: field.to_owned(), expected: "a string".to_owned() }),
    }
}

/// The results in order, or the first error.
pub open spec fn collect_results<T, E>(rs: Seq<Result<T, E>>) -> Result<Seq<T>, E>
    decreases rs.len(),
{
    if rs.len() == 0 {
        Ok(Seq::empty())
    } else {
        match collect_results(rs.drop_last()) {
            Err(e) => Err(e),
            Ok(ts) => match rs.last() {
                Ok(t) => Ok(ts.push(t)),
                Err(e) => Err(e),
            },
        }
    }
}

pub proof fn lemma_collect_results_err<T, E>(rs: Seq<Result<T, E>>, n: int)
    requires
        0 <= n <= rs.len(),
        collect_results(rs.take(n)) is Err,
    ensures
        collect_results(rs) == collect_results(rs.take(n)),
    decreases rs.len() - n,
{
    if n < rs.len() {
        assert(rs.take(n + 1).drop_last() =~= rs.take(n));
        lemma_collect_results_err(rs, n + 1);
    } else {
        assert(rs.take(n) =~= rs);
    }
}

/// An optional URL field: a URL with an `http` or `https` scheme, kept in
/// its serialized form.
pub open spec fn url_value(field: Seq<char>, s: Seq<char>) -> Result<Seq<char>, ManifestErrorView> {
    match url_parse(s) {
        Err(m) => Err(ManifestErrorView::Invalid { field, message: m }),
        Ok((text, scheme)) => if is_http_scheme(scheme) {
            Ok(text)
        } else {
            Err(ManifestErrorView::InvalidValue { field, expected: "a URL with http or https scheme"@ })
        },
    }
}

fn parse_url(field: &str, s: &str) -> (r: Result<HttpUrl, ManifestError>)
    ensures
        match (r, url_value(field@, s@)) {
            (Ok(u), Ok(v)) => u@ == v,
            (Err(e), Err(v)) => e@ == v,
            _ => false,
        },
{
    match HttpUrl::parse(s) {
        Ok(u) => Ok(u),
        Err(UrlError::Invalid { message }) => Err(ManifestError::Invalid { field: field.to_owned(), message }),
        Err(UrlError::NotHttp { .. }) => Err(ManifestError::InvalidValue {
            field: field.to_owned(),
            expected: "a URL with http or https scheme".to_owned(),
        }),
    }
}

/// A font rule: a path as a string, or a table of `path`, `glob` and
/// `file-name`.
pub open spec fn font_rule_result(v: TomlValue) -> Result<FontRuleView, ManifestErrorView> {
    match v {
        TomlValue::String(s) => if s@.len() > 0 {
            Ok(FontRuleView { matcher: PathMatcherView::Path(s@), file_name: None })
        } else {
            Err(ManifestErrorView::Invalid { field: "fonts"@, message: "path must be non-empty"@ })
        },
        TomlValue::Table(t) => match first_unknown_key(t@, seq!["path"@, "glob"@, "file-name"@]) {
            Some(k) => Err(ManifestErrorView::UnknownField { field: k }),
            None => match (opt_string_field(t@, "path"@), opt_string_field(t@, "glob"@), opt_string_field(t@, "file-name"@)) {
                (Err(e), _, _) => Err(e),
                (Ok(_), Err(e), _) => Err(e),
                (Ok(_), Ok(_), Err(e)) => Err(e),
                (Ok(p), Ok(g), Ok(f)) => {
                    if g is Some && glob_pattern_error(g->0) is Some {
                        Err(ManifestErrorView::Invalid { field: "glob"@, message: glob_pattern_error(g->0)->0 })
                    } else if f is Some && !valid_file_name(f->0) {
                        Err(ManifestErrorView::Invalid { field: "file-name"@, message: "invalid file name"@ })
                    } else {
                        match (p, g, f) {
                            (Some(p), None, f) => if p.len() > 0 {
                                Ok(FontRuleView { matcher: PathMatcherView::Path(p), file_name: f })
                            } else {
                                Err(ManifestErrorView::Invalid { field: "fonts"@, message: "path must be non-empty"@ })
                            },
                            (None, Some(g), None) => Ok(FontRuleView { matcher: PathMatcherView::Glob(g), file_name: None }),
                            (None, Some(_), Some(_)) => Err(ManifestErrorView::Invalid {
                                field: "fonts"@,
                                message: "`file-name` may be specified only together with `path`"@,
                            }),
                            _ => Err(ManifestErrorView::Invalid {
                                field: "fonts"@,
                                message: "exactly one of `path` or `glob` must be specified"@,
                            }),
                        }
                    }
                },
            },
        },
        _ => Err(err_type("fonts"@, "a string or a table"@)),
    }
}

fn rule_error(field: &str, e: PathRuleError) -> (r: ManifestError)
    ensures
        r@ == (ManifestErrorView::Invalid {
            field: field@,
            message: match e {
                PathRuleError::EmptyPath => "path must be non-empty"@,
                PathRuleError::InvalidMatcher => "exactly one of `path` or `glob` must be specified"@,
                PathRuleError::FileNameWithoutPath => "`file-name` may be specified only together with `path`"@,
            },
        }),
{
    let message = match e {
        PathRuleError::EmptyPath => "path must be non-empty",
        PathRuleError::InvalidMatcher => "exactly one of `path` or `glob` must be specified",
        PathRuleError::FileNameWithoutPath => "`file-name` may be specified only together with `path`",
    };
    ManifestError::Invalid { field: field.to_owned(), message: message.to_owned() }
}

fn parse_glob_field(g: Option<String>) -> (r: Result<Option<PathGlob>, ManifestError>)
    ensures
        match g {
            None => r matches Ok(None),
            Some(p) => match glob_pattern_error(p@) {
                Some(m) => r matches Err(e) && e@ == (ManifestErrorView::Invalid { field: "glob"@, message: m }),
                None => r matches Ok(Some(pg)) && pg@ == p@,
            },
        },
{
    match g {
        None => Ok(None),
        Some(p) => match PathGlob::new(p.as_str()) {
            Ok(pg) => Ok(Some(pg)),
            Err(PathGlobError::InvalidPattern { message }) => Err(ManifestError::Invalid { field: "glob".to_owned(), message }),
        },
    }
}

/// Reads one font rule.
pub fn parse_font_rule(v: &TomlValue) -> (r: Result<FontRule, ManifestError>)
    ensures
        match (r, font_rule_result(*v)) {
            (Ok(rule), Ok(w)) => rule@ == w,
            (Err(e), Err(w)) => e@ == w,
            _ => false,
        },
{
    proof {
        reveal_strlit("path");
        reveal_strlit("glob");
        reveal_strlit("file-name");
    }
    match v {
        TomlValue::String(s) => match FontRule::path(s.as_str()) {
            Ok(rule) => Ok(rule),
            Err(e) => Err(rule_error("fonts", e)),
        },
        TomlValue::Table(t) => {
            let mut allowed: Vec<&str> = Vec::new();
            allowed.push("path");
            allowed.push("glob");
            allowed.push("file-name");
            proof {
                assert(allowed@.map_values(|a: &str| a@) =~= seq!["path"@, "glob"@, "file-name"@]);
            }
            if let Some(k) = find_unknown_key(t, &allowed) {
                return Err(ManifestError::UnknownField { field: k });
            }
            let path = string_field(t, "path")?;
            let glob = string_field(t, "glob")?;
            let file_name = string_field(t, "file-name")?;
            let glob = parse_glob_field(glob)?;
            let file_name = match file_name {
                None => None,
                Some(f) => match FileName::new(f.as_str()) {
                    Some(f) => Some(f),
                    None => return Err(ManifestError::Invalid { field: "file-name".to_owned(), message: "invalid file name".to_owned() }),
                },
            };
            match FontRule::try_from_raw(RawFontRule { path, glob, file_name }) {
                Ok(rule) => Ok(rule),
                Err(e) => Err(rule_error("fonts", e)),
            }
        },
        _ => Err(ManifestError::InvalidType { field: "fonts".to_owned(), expected: "a string or a table".to_owned() }),
    }
}

/// An ignore rule: a path as a string, or a table of `path` and `glob`.
pub open spec fn ignore_rule_result(v: TomlValue) -> Result<PathMatcherView, ManifestErrorView> {
    match v {
        TomlValue::String(s) => if s@.len() > 0 {
            Ok(PathMatcherView::Path(s@))
        } else {
            Err(ManifestErrorView::Invalid { field: "ignore"@, message: "path must be non-empty"@ })
        },
        TomlValue::Table(t) => match first_unknown_key(t@, seq!["path"@, "glob"@]) {
            Some(k) => Err(ManifestErrorView::UnknownField { field: k }),
            None => match (opt_string_field(t@, "path"@), opt_string_field(t@, "glob"@)) {
                (Err(e), _) => Err(e),
                (Ok(_), Err(e)) => Err(e),
                (Ok(p), Ok(g)) => {
                    if g is Some && glob_pattern_error(g->0) is Some {
                        Err(ManifestErrorView::Invalid { field: "glob"@, message: glob_pattern_error(g->0)->0 })
                    } else {
                        match (p, g) {
                            (Some(p), None) => if p.len() > 0 {
                                Ok(PathMatcherView::Path(p))
                            } else {
                                Err(ManifestErrorView::Invalid { field: "ignore"@, message: "path must be non-empty"@ })
                            },
                            (None, Some(g)) => Ok(PathMatcherView::Glob(g)),
                            _ => Err(ManifestErrorView::Invalid {
                                field: "ignore"@,
                                message: "exactly one of `path` or `glob` must be specified"@,
                            }),
                        }
                    }
                },
            },
        },
        _ => Err(err_type("ignore"@, "a string or a table"@)),
    }
}

/// Reads one ignore rule.
pub fn parse_ignore_rule(v: &TomlValue) -> (r: Result<IgnoreRule, ManifestError>)
    ensures
        match (r, ignore_rule_result(*v)) {
            (Ok(rule), Ok(w)) => rule@ == w,
            (Err(e), Err(w)) => e@ == w,
            _ => false,
        },
{
    proof {
        reveal_strlit("path");
        reveal_strlit("glob");
    }
    match v {
        TomlValue::String(s) => match IgnoreRule::path(s.as_str()) {
            Ok(rule) => Ok(rule),
            Err(e) => Err(rule_error("ignore", e)),
        },
        TomlValue::Table(t) => {
            let mut allowed: Vec<&str> = Vec::new();
            allowed.push("path");
            allowed.push("glob");
            proof {
                assert(allowed@.map_values(|a: &str| a@) =~= seq!["path"@, "glob"@]);
            }
            if let Some(k) = find_unknown_key(t, &allowed) {
                return Err(ManifestError::UnknownField { field: k });
            }
            let path = string_field(t, "path")?;
            let glob = string_field(t, "glob")?;
            let glob = parse_glob_field(glob)?;
            match IgnoreRule::try_from_raw(path, glob) {
                Ok(rule) => Ok(rule),
                Err(e) => Err(rule_error("ignore", e)),
            }
        },
        _ => Err(ManifestError::InvalidType { field: "ignore".to_owned(), expected: "a string or a table".to_owned() }),
    }
}

pub open spec fn font_rule_results(vs: Seq<TomlValue>) -> Seq<Result<FontRuleView, ManifestErrorView>> {
    vs.map_values(|v: TomlValue| font_rule_result(v))
}

pub open spec fn ignore_rule_results(vs: Seq<TomlValue>) -> Seq<Result<PathMatcherView, ManifestErrorView>> {
    vs.map_values(|v: TomlValue| ignore_rule_result(v))
}

fn parse_font_rules(vs: &Vec<TomlValue>) -> (r: Result<Vec<FontRule>, ManifestError>)
    ensures
        match (r, collect_results(font_rule_results(vs@))) {
            (Ok(rules), Ok(w)) => rules@.map_values(|x: FontRule| x@) == w,
            (Err(e), Err(w)) => e@ == w,
            _ => false,
        },
{
    let ghost rs = font_rule_results(vs@);
    let mut rules: Vec<FontRule> = Vec::new();
    let mut i: usize = 0;
    proof {
        assert(rs.take(0) =~= Seq::<Result<FontRuleView, ManifestErrorView>>::empty());
        assert(rules@.map_values(|x: FontRule| x@) =~= Seq::<FontRuleView>::empty());
    }
    while i < vs.len()
        invariant
            i <= vs@.len(),
            rs == font_rule_results(vs@),
            collect_results(rs.take(i as int)) == Ok::<Seq<FontRuleView>, ManifestErrorView>(rules@.map_values(|x: FontRule| x@)),
        decreases vs@.len() - i,
    {
        proof {
            assert(rs.take(i + 1).drop_last() =~= rs.take(i as int));
            assert(rs.take(i + 1).last() == rs[i as int]);
        }
        match parse_font_rule(&vs[i]) {
            Ok(rule) => {
                let ghost rv = rules@;
                rules.push(rule);
                proof {
                    assert(rules@.map_values(|x: FontRule| x@) =~= rv.map_values(|x: FontRule| x@).push(rule@));
                }
            },
            Err(e) => {
                proof {
                    lemma_collect_results_err(rs, i + 1);
                }
                return Err(e);
            },
        }
        i = i + 1;
    }
    proof {
        assert(rs.take(vs@.len() as int) =~= rs);
    }
    Ok(rules)
}

fn parse_ignore_rules(vs: &Vec<TomlValue>) -> (r: Result<Vec<IgnoreRule>, ManifestError>)
    ensures
        match (r, collect_results(ignore_rule_results(vs@))) {
            (Ok(rules), Ok(w)) => rules@.map_values(|x: IgnoreRule| x@) == w,
            (Err(e), Err(w)) => e@ == w,
            _ => false,
        },
{
    let ghost rs = ignore_rule_results(vs@);
    let mut rules: Vec<IgnoreRule> = Vec::new();
    let mut i: usize = 0;
    proof {
        assert(rs.take(0) =~= Seq::<Result<PathMatcherView, ManifestErrorView>>::empty());
        assert(rules@.map_values(|x: IgnoreRule| x@) =~= Seq::<PathMatcherView>::empty());
    }
    while i < vs.len()
        invariant
            i <= vs@.len(),
            rs == ignore_rule_results(vs@),
            collect_results(rs.take(i as int)) == Ok::<Seq<PathMatcherView>, ManifestErrorView>(rules@.map_values(|x: IgnoreRule| x@)),
        decreases vs@.len() - i,
    {
        proof {
            assert(rs.take(i + 1).drop_last() =~= rs.take(i as int));
            assert(rs.take(i + 1).last() == rs[i as int]);
        }
        match parse_ignore_rule(&vs[i]) {
            Ok(rule) => {
                let ghost rv = rules@;
                rules.push(rule);
                proof {
                    assert(rules@.map_values(|x: IgnoreRule| x@) =~= rv.map_values(|x: IgnoreRule| x@).push(rule@));
                }
            },
            Err(e) => {
                proof {
                    lemma_collect_results_err(rs, i + 1);
                }
                return Err(e);
            },
        }
        i = i + 1;
    }
    proof {
        assert(rs.take(vs@.len() as int) =~= rs);
    }
    Ok(rules)
}

/// The patterns of the default font rules.
pub open spec fn default_font_patterns() -> Seq<Seq<char>> {
    seq!["**/*.ttf"@, "**/*.otf"@, "**/*.ttc"@, "**/*.otc"@]
}

/// The rules an archive uses when its manifest names none: every TrueType
/// and OpenType font and collection, at any depth. The patterns are
/// checked by `glob`; it accepts all four.
pub fn default_archive_fonts() -> (r: Result<Vec<FontRule>, PathGlobError>)
    ensures
        match r {
            Ok(rules) => rules@.map_values(|x: FontRule| x@) == default_font_patterns().map_values(
                |p: Seq<char>| FontRuleView { matcher: PathMatcherView::Glob(p), file_name: None },
            ),
            Err(PathGlobError::InvalidPattern { message }) => exists|k: int| 0 <= k < 4 && glob_pattern_error(
                default_font_patterns()[k],
            ) == Some(message@),
        },
        r is Ok <==> forall|k: int| 0 <= k < 4 ==> glob_pattern_error(#[trigger] default_font_patterns()[k]) is None,
{
    let ghost pats = default_font_patterns();
    let mut rules: Vec<FontRule> = Vec::new();
    let g0 = match PathGlob::new("**/*.ttf") {
        Ok(g) => g,
        Err(e) => {
            assert(glob_pattern_error(pats[0]) is Some);
            return Err(e);
        },
    };
    let g1 = match PathGlob::new("**/*.otf") {
        Ok(g) => g,
        Err(e) => {
            assert(glob_pattern_error(pats[1]) is Some);
            return Err(e);
        },
    };
    let g2 = match PathGlob::new("**/*.ttc") {
        Ok(g) => g,
        Err(e) => {
            assert(glob_pattern_error(pats[2]) is Some);
            return Err(e);
        },
    };
    let g3 = match PathGlob::new("**/*.otc") {
        Ok(g) => g,
        Err(e) => {
            assert(glob_pattern_error(pats[3]) is Some);
            return Err(e);
        },
    };
    rules.push(FontRule::glob(g0));
    rules.push(FontRule::glob(g1));
    rules.push(FontRule::glob(g2));
    rules.push(FontRule::glob(g3));
    proof {
        assert forall|k: int| 0 <= k < 4 implies glob_pattern_error(#[trigger] pats[k]) is None by {}
        assert(rules@.map_values(|x: FontRule| x@) =~= pats.map_values(
            |p: Seq<char>| FontRuleView { matcher: PathMatcherView::Glob(p), file_name: None },
        ));
    }
    Ok(rules)
}

/// What a source holds: a `type` of `font-file`, with an optional
/// `file-name`, or of `archive`, with optional non-empty `fonts` (the
/// default rules when absent) and optional `ignore`.
pub open spec fn contents_result(v: TomlValue) -> Result<ContentsView, ManifestErrorView> {
    match v {
        TomlValue::Table(t) => match req_string_field(t@, "type"@) {
            Err(e) => Err(e),
            Ok(ty) => if ty == "font-file"@ {
                match first_unknown_key(t@, seq!["type"@, "file-name"@]) {
                    Some(k) => Err(ManifestErrorView::UnknownField { field: k }),
                    None => match opt_string_field(t@, "file-name"@) {
                        Err(e) => Err(e),
                        Ok(None) => Ok(ContentsView::FontFile { file_name: None }),
                        Ok(Some(f)) => if valid_file_name(f) {
                            Ok(ContentsView::FontFile { file_name: Some(f) })
                        } else {
                            Err(ManifestErrorView::Invalid { field: "file-name"@, message: "invalid file name"@ })
                        },
                    },
                }
            } else if ty == "archive"@ {
                match first_unknown_key(t@, seq!["type"@, "fonts"@, "ignore"@]) {
                    Some(k) => Err(ManifestErrorView::UnknownField { field: k }),
                    None => {
                        let fonts: Result<Seq<FontRuleView>, ManifestErrorView> = match table_get(t@, "fonts"@) {
                            None => if forall|k: int| 0 <= k < 4 ==> glob_pattern_error(#[trigger] default_font_patterns()[k]) is None {
                                Ok(default_font_patterns().map_values(|p: Seq<char>| FontRuleView { matcher: PathMatcherView::Glob(p), file_name: None }))
                            } else {
                                Err(ManifestErrorView::Invalid { field: "fonts"@, message: "invalid default font rules"@ })
                            },
                            Some(TomlValue::Array(a)) => if a@.len() == 0 {
                                Err(ManifestErrorView::InvalidValue { field: "fonts"@, expected: "a non-empty array"@ })
                            } else {
                                collect_results(font_rule_results(a@))
                            },
                            Some(_) => Err(err_type("fonts"@, "an array"@)),
                        };
                        let ignore: Result<Seq<PathMatcherView>, ManifestErrorView> = match table_get(t@, "ignore"@) {
                            None => Ok(Seq::empty()),
                            Some(TomlValue::Array(a)) => collect_results(ignore_rule_results(a@)),
                            Some(_) => Err(err_type("ignore"@, "an array"@)),
                        };
                        match (fonts, ignore) {
                            (Err(e), _) => Err(e),
                            (Ok(_), Err(e)) => Err(e),
                            (Ok(f), Ok(i)) => Ok(ContentsView::Archive { fonts: f, ignore: i }),
                        }
                    },
                }
            } else {
                Err(ManifestErrorView::InvalidValue { field: "type"@, expected: "`font-file` or `archive`"@ })
            },
        },
        _ => Err(err_type("contents"@, "a table"@)),
    }
}

/// Reads what a source holds.
pub fn parse_contents(v: &TomlValue) -> (r: Result<PackageSourceContents, ManifestError>)
    ensures
        match (r, contents_result(*v)) {
            (Ok(c), Ok(w)) => contents_view(c) == w,
            (Err(e), Err(w)) => e@ == w,
            _ => false,
        },
{
    proof {
        reveal_strlit("type");
        reveal_strlit("file-name");
        reveal_strlit("fonts");
        reveal_strlit("ignore");
        reveal_strlit("font-file");
        reveal_strlit("archive");
    }
    let t = match v {
        TomlValue::Table(t) => t,
        _ => return Err(ManifestError::InvalidType { field: "contents".to_owned(), expected: "a table".to_owned() }),
    };
    let ty = required_string_field(t, "type")?;
    if crate::text::str_eq(ty.as_str(), "font-file") {
        let mut allowed: Vec<&str> = Vec::new();
        allowed.push("type");
        allowed.push("file-name");
        proof {
            assert(allowed@.map_values(|a: &str| a@) =~= seq!["type"@, "file-name"@]);
        }
        if let Some(k) = find_unknown_key(t, &allowed) {
            return Err(ManifestError::UnknownField { field: k });
        }
        let file_name = match string_field(t, "file-name")? {
            None => None,
            Some(f) => match FileName::new(f.as_str()) {
                Some(f) => Some(f),
                None => return Err(ManifestError::Invalid { field: "file-name".to_owned(), message: "invalid file name".to_owned() }),
            },
        };
        Ok(PackageSourceContents::FontFile(FontFileOptions { file_name }))
    } else if crate::text::str_eq(ty.as_str(), "archive") {
        let mut allowed: Vec<&str> = Vec::new();
        allowed.push("type");
        allowed.push("fonts");
        allowed.push("ignore");
        proof {
            assert(allowed@.map_values(|a: &str| a@) =~= seq!["type"@, "fonts"@, "ignore"@]);
        }
        if let Some(k) = find_unknown_key(t, &allowed) {
            return Err(ManifestError::UnknownField { field: k });
        }
        let fonts = match get(t, "fonts") {
            None => match default_archive_fonts() {
                Ok(rules) => rules,
                Err(_) => return Err(ManifestError::Invalid { field: "fonts".to_owned(), message: "invalid default font rules".to_owned() }),
            },
            Some(TomlValue::Array(a)) => {
                if a.len() == 0 {
                    return Err(ManifestError::InvalidValue { field: "fonts".to_owned(), expected: "a non-empty array".to_owned() });
                }
                parse_font_rules(a)?
            },
            Some(_) => return Err(ManifestError::InvalidType { field: "fonts".to_owned(), expected: "an array".to_owned() }),
        };
        let ignore = match get(t, "ignore") {
            None => Vec::new(),
            Some(TomlValue::Array(a)) => parse_ignore_rules(a)?,
            Some(_) => return Err(ManifestError::InvalidType { field: "ignore".to_owned(), expected: "an array".to_owned() }),
        };
        proof {
            if table_get(t@, "ignore"@) is None {
                assert(ignore@.map_values(|x: IgnoreRule| x@) =~= Seq::<PathMatcherView>::empty());
            }
        }
        Ok(PackageSourceContents::Archive(ArchiveOptions { fonts, ignore }))
    } else {
        Err(ManifestError::InvalidValue { field: "type".to_owned(), expected: "`font-file` or `archive`".to_owned() })
    }
}

/// A source: a table of `url`, an `http` or `https` URL; `hash`, a SHA-256
/// digest; and `contents`.
pub open spec fn source_result(v: TomlValue) -> Result<SourceView, ManifestErrorView> {
    match v {
        TomlValue::Table(t) => match first_unknown_key(t@, seq!["url"@, "hash"@, "contents"@]) {
            Some(k) => Err(ManifestErrorView::UnknownField { field: k }),
            None => match req_string_field(t@, "url"@) {
                Err(e) => Err(e),
                Ok(u) => match url_value("url"@, u) {
                    Err(e) => Err(e),
                    Ok(url) => match req_string_field(t@, "hash"@) {
                        Err(e) => Err(e),
                        Ok(h) => if !digest_text_ok(h) {
                            Err(ManifestErrorView::Invalid { field: "hash"@, message: "invalid digest"@ })
                        } else {
                            match table_get(t@, "contents"@) {
                                None => Err(err_missing("contents"@)),
                                Some(c) => match contents_result(c) {
                                    Err(e) => Err(e),
                                    Ok(contents) => Ok(SourceView { url, hash: digest_text_bytes(h), contents }),
                                },
                            }
                        },
                    },
                },
            },
        },
        _ => Err(err_type("sources"@, "a table"@)),
    }
}

/// Reads one source.
pub fn parse_source(v: &TomlValue) -> (r: Result<PackageSource, ManifestError>)
    ensures
        match (r, source_result(*v)) {
            (Ok(s), Ok(w)) => source_view(s) == w,
            (Err(e), Err(w)) => e@ == w,
            _ => false,
        },
{
    proof {
        reveal_strlit("url");
        reveal_strlit("hash");
        reveal_strlit("contents");
    }
    let t = match v {
        TomlValue::Table(t) => t,
        _ => return Err(ManifestError::InvalidType { field: "sources".to_owned(), expected: "a table".to_owned() }),
    };
    let mut allowed: Vec<&str> = Vec::new();
    allowed.push("url");
    allowed.push("hash");
    allowed.push("contents");
    proof {
        assert(allowed@.map_values(|a: &str| a@) =~= seq!["url"@, "hash"@, "contents"@]);
    }
    if let Some(k) = find_unknown_key(t, &allowed) {
        return Err(ManifestError::UnknownField { field: k });
    }
    let u = required_string_field(t, "url")?;
    let url = parse_url("url", u.as_str())?;
    let h = required_string_field(t, "hash")?;
    let hash = match GenericDigest::parse(h.as_str()) {
        Ok(d) => d,
        Err(_) => return Err(ManifestError::Invalid { field: "hash".to_owned(), message: "invalid digest".to_owned() }),
    };
    let contents = match get(t, "contents") {
        None => return Err(ManifestError::MissingField { field: "contents".to_owned() }),
        Some(c) => parse_contents(c)?,
    };
    Ok(PackageSource { url, hash, contents })
}

/// An optional `description`: non-empty, without surrounding whitespace.
pub open spec fn description_field(t: Seq<(String, TomlValue)>) -> Result<Option<Seq<char>>, ManifestErrorView> {
    match opt_string_field(t, "description"@) {
        Err(e) => Err(e),
        Ok(None) => Ok(None),
        Ok(Some(d)) => if is_trimmed_nonempty(d) {
            Ok(Some(d))
        } else {
            Err(ManifestErrorView::InvalidValue {
                field: "description"@,
                expected: "a non-empty string without leading or trailing whitespace"@,
            })
        },
    }
}

/// An optional URL field.
pub open spec fn url_field(t: Seq<(String, TomlValue)>, field: Seq<char>) -> Result<Option<Seq<char>>, ManifestErrorView> {
    match opt_string_field(t, field) {
        Err(e) => Err(e),
        Ok(None) => Ok(None),
        Ok(Some(u)) => match url_value(field, u) {
            Err(e) => Err(e),
            Ok(url) => Ok(Some(url)),
        },
    }
}

/// An optional `license`: an SPDX expression, kept as written.
pub open spec fn license_field(t: Seq<(String, TomlValue)>) -> Result<Option<Seq<char>>, ManifestErrorView> {
    match opt_string_field(t, "license"@) {
        Err(e) => Err(e),
        Ok(None) => Ok(None),
        Ok(Some(l)) => match spdx_parse_error(l) {
            Some(m) => Err(ManifestErrorView::Invalid { field: "license"@, message: "invalid SPDX expression: "@ + m }),
            None => Ok(Some(l)),
        },
    }
}

pub open spec fn source_results(vs: Seq<TomlValue>) -> Seq<Result<SourceView, ManifestErrorView>> {
    vs.map_values(|v: TomlValue| source_result(v))
}

/// The required `sources`: a non-empty array of sources.
pub open spec fn sources_field(t: Seq<(String, TomlValue)>) -> Result<Seq<SourceView>, ManifestErrorView> {
    match table_get(t, "sources"@) {
        None => Err(err_missing("sources"@)),
        Some(TomlValue::Array(a)) => if a@.len() == 0 {
            Err(ManifestErrorView::InvalidValue { field: "sources"@, expected: "a non-empty array"@ })
        } else {
            collect_results(source_results(a@))
        },
        Some(_) => Err(err_type("sources"@, "an array"@)),
    }
}

pub open spec fn manifest_keys() -> Seq<Seq<char>> {
    seq!["name"@, "version"@, "description"@, "homepage"@, "repository"@, "license"@, "sources"@]
}

/// A manifest: a table of a `name`, a `version`, optional `description`,
/// `homepage`, `repository` and `license`, and `sources`; no other key. The
/// fields are checked in that order, each error reported as it is met.
pub open spec fn manifest_result(v: TomlValue) -> Result<DefinitionView, ManifestErrorView> {
    match v {
        TomlValue::Table(t) => match first_unknown_key(t@, manifest_keys()) {
            Some(k) => Err(ManifestErrorView::UnknownField { field: k }),
            None => match req_string_field(t@, "name"@) {
                Err(e) => Err(e),
                Ok(name) => if !valid_identifier(name) {
                    Err(ManifestErrorView::Invalid { field: "name"@, message: "invalid package name"@ })
                } else {
                    match req_string_field(t@, "version"@) {
                        Err(e) => Err(e),
                        Ok(version) => match semver_parse_error(version) {
                            Some(m) => Err(ManifestErrorView::Invalid { field: "version"@, message: m }),
                            None => match (description_field(t@), url_field(t@, "homepage"@), url_field(t@, "repository"@), license_field(t@), sources_field(t@)) {
                                (Err(e), _, _, _, _) => Err(e),
                                (Ok(_), Err(e), _, _, _) => Err(e),
                                (Ok(_), Ok(_), Err(e), _, _) => Err(e),
                                (Ok(_), Ok(_), Ok(_), Err(e), _) => Err(e),
                                (Ok(_), Ok(_), Ok(_), Ok(_), Err(e)) => Err(e),
                                (Ok(description), Ok(homepage), Ok(repository), Ok(license), Ok(sources)) => Ok(DefinitionView {
                                    id: (name, version),
                                    display_name: None,
                                    description,
                                    aliases: Seq::empty(),
                                    homepage,
                                    repository,
                                    license,
                                    sources,
                                }),
                            },
                        },
                    }
                },
            },
        },
        _ => Err(err_type("manifest"@, "a table"@)),
    }
}

/// A manifest text: a TOML document, then a manifest.
pub open spec fn manifest_text_result(text: Seq<char>) -> Result<DefinitionView, ManifestErrorView> {
    match toml_document(text) {
        Err(m) => Err(ManifestErrorView::Syntax { message: m }),
        Ok(v) => manifest_result(v),
    }
}

fn parse_sources(vs: &Vec<TomlValue>) -> (r: Result<Vec<PackageSource>, ManifestError>)
    ensures
        match (r, collect_results(source_results(vs@))) {
            (Ok(ss), Ok(w)) => ss@.map_values(|s: PackageSource| source_view(s)) == w,
            (Err(e), Err(w)) => e@ == w,
            _ => false,
        },
{
    let ghost rs = source_results(vs@);
    let mut sources: Vec<PackageSource> = Vec::new();
    let mut i: usize = 0;
    proof {
        assert(rs.take(0) =~= Seq::<Result<SourceView, ManifestErrorView>>::empty());
        assert(sources@.map_values(|s: PackageSource| source_view(s)) =~= Seq::<SourceView>::empty());
    }
    while i < vs.len()
        invariant
            i <= vs@.len(),
            rs == source_results(vs@),
            collect_results(rs.take(i as int)) == Ok::<Seq<SourceView>, ManifestErrorView>(sources@.map_values(|s: PackageSource| source_view(s))),
        decreases vs@.len() - i,
    {
        proof {
            assert(rs.take(i + 1).drop_last() =~= rs.take(i as int));
            assert(rs.take(i + 1).last() == rs[i as int]);
        }
        match parse_source(&vs[i]) {
            Ok(src) => {
                let ghost sv = sources@;
                sources.push(src);
                proof {
                    assert(sources@.map_values(|s: PackageSource| source_view(s)) =~= sv.map_values(|s: PackageSource| source_view(s)).push(source_view(src)));
                }
            },
            Err(e) => {
                proof {
                    lemma_collect_results_err(rs, i + 1);
                }
                return Err(e);
            },
        }
        i = i + 1;
    }
    proof {
        assert(rs.take(vs@.len() as int) =~= rs);
    }
    Ok(sources)
}

fn parse_optional_url(t: &Vec<(String, TomlValue)>, field: &str) -> (r: Result<Option<String>, ManifestError>)
    ensures
        match (r, url_field(t@, field@)) {
            (Ok(Some(u)), Ok(Some(w))) => u@ == w,
            (Ok(None), Ok(None)) => true,
            (Err(e), Err(w)) => e@ == w,
            _ => false,
        },
{
    match string_field(t, field)? {
        None => Ok(None),
        Some(u) => {
            let url = parse_url(field, u.as_str())?;
            Ok(Some(url.as_str().to_owned()))
        },
    }
}

/// Checks a parsed TOML document as a manifest and builds the package
/// definition it describes.
pub fn parse_manifest_value(v: &TomlValue) -> (r: Result<PackageDefinition, ManifestError>)
    ensures
        match (r, manifest_result(*v)) {
            (Ok(p), Ok(w)) => definition_view(p) == w && p.wf(),
            (Err(e), Err(w)) => e@ == w,
            _ => false,
        },
{
    proof {
        reveal_strlit("name");
        reveal_strlit("version");
        reveal_strlit("description");
        reveal_strlit("homepage");
        reveal_strlit("repository");
        reveal_strlit("license");
        reveal_strlit("sources");
    }
    let t = match v {
        TomlValue::Table(t) => t,
        _ => return Err(ManifestError::InvalidType { field: "manifest".to_owned(), expected: "a table".to_owned() }),
    };
    let mut allowed: Vec<&str> = Vec::new();
    allowed.push("name");
    allowed.push("version");
    allowed.push("description");
    allowed.push("homepage");
    allowed.push("repository");
    allowed.push("license");
    allowed.push("sources");
    proof {
        assert(allowed@.map_values(|a: &str| a@) =~= manifest_keys());
    }
    if let Some(k) = find_unknown_key(t, &allowed) {
        return Err(ManifestError::UnknownField { field: k });
    }
    let name = required_string_field(t, "name")?;
    let name = match PackageName::new(name.as_str()) {
        Ok(n) => n,
        Err(_) => return Err(ManifestError::Invalid { field: "name".to_owned(), message: "invalid package name".to_owned() }),
    };
    let version = required_string_field(t, "version")?;
    let version = match PackageVersion::parse(version.as_str()) {
        Ok(v) => v,
        Err(ParsePackageVersionError::SemVer { message }) => return Err(ManifestError::Invalid { field: "version".to_owned(), message }),
    };
    let description = match string_field(t, "description")? {
        None => None,
        Some(d) => {
            if !trimmed_nonempty(d.as_str()) {
                return Err(ManifestError::InvalidValue {
                    field: "description".to_owned(),
                    expected: "a non-empty string without leading or trailing whitespace".to_owned(),
                });
            }
            Some(d)
        },
    };
    let homepage = parse_optional_url(t, "homepage")?;
    let repository = parse_optional_url(t, "repository")?;
    let license = match string_field(t, "license")? {
        None => None,
        Some(l) => match spdx_check(l.as_str()) {
            Some(m) => {
                let mut message = "invalid SPDX expression: ".to_owned();
                message.append(m.as_str());
                return Err(ManifestError::Invalid { field: "license".to_owned(), message });
            },
            None => Some(l),
        },
    };
    let sources = match get(t, "sources") {
        None => return Err(ManifestError::MissingField { field: "sources".to_owned() }),
        Some(TomlValue::Array(a)) => {
            if a.len() == 0 {
                return Err(ManifestError::InvalidValue { field: "sources".to_owned(), expected: "a non-empty array".to_owned() });
            }
            parse_sources(a)?
        },
        Some(_) => return Err(ManifestError::InvalidType { field: "sources".to_owned(), expected: "an array".to_owned() }),
    };
    let p = PackageDefinition {
        id: PackageId::new(name, version),
        display_name: None,
        description,
        aliases: Vec::new(),
        homepage,
        repository,
        license,
        sources,
    };
    proof {
        assert(p.aliases@.map_values(|a: String| a@) =~= Seq::<Seq<char>>::empty());
    }
    Ok(p)
}

/// Reads a manifest from its text.
pub fn parse_manifest(text: &str) -> (r: Result<PackageDefinition, ManifestError>)
    ensures
        match (r, manifest_text_result(text@)) {
            (Ok(p), Ok(w)) => definition_view(p) == w && p.wf(),
            (Err(e), Err(w)) => e@ == w,
            _ => false,
        },
{
    match parse_toml(text) {
        Err(message) => Err(ManifestError::Syntax { message }),
        Ok(v) => parse_manifest_value(&v),
    }
}

} // verus!
