//! Rules that pick font files out of a package source, and rules that
//! ignore files.
use vstd::prelude::*;

use super::file_name::FileName;

verus! {

/// What `glob::Pattern::new` reports for a pattern: `None` when it accepts
/// it, else its error's message.
pub uninterp spec fn glob_pattern_error(pattern: Seq<char>) -> Option<Seq<char>>;

/// What `glob::Pattern::matches_with` answers for an accepted pattern and a
/// path, under the match options given by the three flags: case-sensitive
/// matching, a separator matched only literally, and a leading `.` matched
/// only literally.
pub uninterp spec fn glob_matches(
    pattern: Seq<char>,
    path: Seq<char>,
    case_sensitive: bool,
    literal_separator: bool,
    literal_leading_dot: bool,
) -> bool;

/// Calls `glob::Pattern::new`. The contract names the outcome by
/// `glob_pattern_error`, a function of the pattern text.
#[verifier::external_body]
fn glob_check(pattern: &str) -> (r: Option<String>)
    ensures
        match r {
            None => glob_pattern_error(pattern@) is None,
            Some(m) => glob_pattern_error(pattern@) == Some(m@),
        },
{
    match glob::Pattern::new(pattern) {
        Ok(_) => None,
        Err(e) => Some(e.to_string()),
    }
}

/// Compiles an accepted pattern with `glob::Pattern::new` and calls
/// `glob::Pattern::matches_with` on the path, with the three flags as the
/// fields of `glob::MatchOptions`. The contract names the answer by
/// `glob_matches`, a function of the pattern, the path and the flags.
#[verifier::external_body]
fn glob_match(
    pattern: &str,
    path: &str,
    case_sensitive: bool,
    literal_separator: bool,
    literal_leading_dot: bool,
) -> (r: bool)
    requires
        glob_pattern_error(pattern@) is None,
    ensures
        r == glob_matches(pattern@, path@, case_sensitive, literal_separator, literal_leading_dot),
{
    let options = glob::MatchOptions {
        case_sensitive,
        require_literal_separator: literal_separator,
        require_literal_leading_dot: literal_leading_dot,
    };
    match glob::Pattern::new(pattern) {
        Ok(p) => p.matches_with(path, options),
        Err(_) => false,
    }
}

/// A glob pattern over paths inside a package source; `glob` accepts it.
#[derive(Debug, PartialEq, Eq, Hash)]
pub struct PathGlob {
    pattern: String,
}

/// Package rules match case-insensitively, with `*` not crossing `/` and a
/// leading `.` matched only literally.
pub open spec fn rule_glob_matches(pattern: Seq<char>, path: Seq<char>) -> bool {
    glob_matches(pattern, path, false, true, true)
}

#[derive(Debug, Clone, PartialEq, Eq)]
pub enum PathGlobError {
    InvalidPattern { message: String },
}

impl View for PathGlob {
    type V = Seq<char>;

    closed spec fn view(&self) -> Seq<char> {
        self.pattern@
    }
}

impl Clone for PathGlob {
    fn clone(&self) -> (r: Self)
        ensures
            r == *self,
    {
        proof {
            use_type_invariant(self);
        }
        PathGlob { pattern: self.pattern.clone() }
    }
}

impl PathGlob {
    #[verifier::type_invariant]
    spec fn accepted(self) -> bool {
        glob_pattern_error(self.pattern@) is None
    }

    /// Accepts exactly the patterns `glob` accepts.
    pub fn new(pattern: &str) -> (r: Result<PathGlob, PathGlobError>)
        ensures
            r is Ok <==> glob_pattern_error(pattern@) is None,
            r matches Ok(g) ==> g@ == pattern@,
            r matches Err(PathGlobError::InvalidPattern { message }) ==> glob_pattern_error(pattern@)
                == Some(message@),
    {
        match glob_check(pattern) {
            None => Ok(PathGlob { pattern: pattern.to_owned() }),
            Some(message) => Err(PathGlobError::InvalidPattern { message }),
        }
    }

    pub fn as_str(&self) -> (r: &str)
        ensures
            r@ == self@,
    {
        self.pattern.as_str()
    }

    /// Whether the path matches under the options of package rules.
    pub fn matches(&self, path: &str) -> (r: bool)
        ensures
            r == rule_glob_matches(self@, path@),
    {
        proof {
            use_type_invariant(self);
        }
        glob_match(self.pattern.as_str(), path, false, true, true)
    }
}

/// `s` with `\` read as `/`.
pub open spec fn normalize_separators(s: Seq<char>) -> Seq<char> {
    s.map_values(|c: char| if c == '\\' { '/' } else { c })
}

/// `s` with `\` written as `/`.
pub fn normalized_path(s: &str) -> (r: String)
    ensures
        r@ == normalize_separators(s@),
{
    let n = s.unicode_len();
    let mut r = String::new();
    let mut i: usize = 0;
    while i < n
        invariant
            n == s@.len(),
            i <= n,
            r@ =~= normalize_separators(s@).take(i as int),
        decreases n - i,
    {
        let c = s.get_char(i);
        let ghost before = r@;
        if c == '\\' {
            r.append("/");
            proof {
                reveal_strlit("/");
            }
        } else {
            r.append(s.substring_char(i, i + 1));
        }
        proof {
            assert(normalize_separators(s@).take(i + 1) =~= normalize_separators(s@).take(i as int).push(normalize_separators(s@)[i as int]));
            if c != '\\' {
                assert(s@.subrange(i as int, i + 1) =~= seq![c]);
            }
        }
        i = i + 1;
    }
    proof {
        assert(normalize_separators(s@).take(n as int) =~= normalize_separators(s@));
    }
    r
}

/// What a rule compares a path against.
#[derive(Debug, PartialEq, Eq, Hash)]
pub enum PathMatcher {
    /// One path, compared with `\` read as `/`.
    Path(String),
    Glob(PathGlob),
}

#[derive(Debug, Clone, Copy, PartialEq, Eq, Structural)]
pub enum PathMatcherError {
    EmptyPath,
}

/// The view of a path matcher.
pub enum PathMatcherView {
    Path(Seq<char>),
    Glob(Seq<char>),
}

impl View for PathMatcher {
    type V = PathMatcherView;

    open spec fn view(&self) -> PathMatcherView {
        match self {
            PathMatcher::Path(p) => PathMatcherView::Path(p@),
            PathMatcher::Glob(g) => PathMatcherView::Glob(g@),
        }
    }
}

impl Clone for PathMatcher {
    fn clone(&self) -> (r: Self)
        ensures
            r == *self,
    {
        match self {
            PathMatcher::Path(p) => PathMatcher::Path(p.clone()),
            PathMatcher::Glob(g) => PathMatcher::Glob(g.clone()),
        }
    }
}

/// Whether the matcher matches the path.
pub open spec fn matcher_matches(m: PathMatcherView, path: Seq<char>) -> bool {
    match m {
        PathMatcherView::Path(p) => normalize_separators(p) == normalize_separators(path),
        PathMatcherView::Glob(g) => rule_glob_matches(g, path),
    }
}

/// The text of a matcher: its path or its pattern.
pub open spec fn matcher_text(m: PathMatcherView) -> Seq<char> {
    match m {
        PathMatcherView::Path(p) => p,
        PathMatcherView::Glob(g) => g,
    }
}

impl PathMatcher {
    /// A matcher for one path; refused when the path is empty.
    pub fn path(path: &str) -> (r: Result<PathMatcher, PathMatcherError>)
        ensures
            r is Ok <==> path@.len() > 0,
            r matches Ok(m) ==> m@ == PathMatcherView::Path(path@),
    {
        if path.unicode_len() == 0 {
            Err(PathMatcherError::EmptyPath)
        } else {
            Ok(PathMatcher::Path(path.to_owned()))
        }
    }

    pub fn glob(glob: PathGlob) -> (r: PathMatcher)
        ensures
            r@ == PathMatcherView::Glob(glob@),
    {
        PathMatcher::Glob(glob)
    }

    pub fn matches(&self, path: &str) -> (r: bool)
        ensures
            r == matcher_matches(self@, path@),
    {
        match self {
            PathMatcher::Path(p) => {
                let a = normalized_path(p.as_str());
                let b = normalized_path(path);
                a == b
            },
            PathMatcher::Glob(g) => g.matches(path),
        }
    }

    /// The path or pattern the matcher was written with.
    pub fn to_string(&self) -> (r: String)
        ensures
            r@ == matcher_text(self@),
    {
        match self {
            PathMatcher::Path(p) => p.clone(),
            PathMatcher::Glob(g) => g.as_str().to_owned(),
        }
    }
}

#[derive(Debug, Clone, Copy, PartialEq, Eq, Structural)]
pub enum PathRuleError {
    EmptyPath,
    InvalidMatcher,
    FileNameWithoutPath,
}

pub open spec fn path_rule_error_text(e: PathRuleError) -> Seq<char> {
    match e {
        PathRuleError::EmptyPath => "path must be non-empty"@,
        PathRuleError::InvalidMatcher => "exactly one of `path` or `glob` must be specified"@,
        PathRuleError::FileNameWithoutPath => "`file-name` may be specified only together with `path`"@,
    }
}

impl PathRuleError {
    /// The message of the error.
    pub fn message(&self) -> (r: &'static str)
        ensures
            r@ == path_rule_error_text(*self),
    {
        match self {
            PathRuleError::EmptyPath => "path must be non-empty",
            PathRuleError::InvalidMatcher => "exactly one of `path` or `glob` must be specified",
            PathRuleError::FileNameWithoutPath => "`file-name` may be specified only together with `path`",
        }
    }
}

/// A rule that selects font files, optionally renaming the one file it
/// names by path.
#[derive(Debug, PartialEq, Eq, Hash)]
pub struct FontRule {
    matcher: PathMatcher,
    file_name: Option<FileName>,
}

impl Clone for FontRule {
    fn clone(&self) -> (r: Self)
        ensures
            r == *self,
    {
        FontRule {
            matcher: self.matcher.clone(),
            file_name: match &self.file_name {
                Some(f) => Some(f.clone()),
                None => None,
            },
        }
    }
}

/// The view of a font rule.
pub struct FontRuleView {
    pub matcher: PathMatcherView,
    pub file_name: Option<Seq<char>>,
}

impl View for FontRule {
    type V = FontRuleView;

    closed spec fn view(&self) -> FontRuleView {
        FontRuleView {
            matcher: self.matcher@,
            file_name: match self.file_name {
                Some(f) => Some(f@),
                None => None,
            },
        }
    }
}

/// The fields of a font rule as written in a manifest table.
pub struct RawFontRule {
    pub path: Option<String>,
    pub glob: Option<PathGlob>,
    pub file_name: Option<FileName>,
}

impl FontRule {
    /// A rule for one path, keeping the file's own name.
    pub fn path(path: &str) -> (r: Result<FontRule, PathRuleError>)
        ensures
            r is Ok <==> path@.len() > 0,
            r matches Ok(rule) ==> rule@ == (FontRuleView { matcher: PathMatcherView::Path(path@), file_name: None }),
            r is Err ==> r == Err::<FontRule, _>(PathRuleError::EmptyPath),
    {
        match PathMatcher::path(path) {
            Ok(matcher) => Ok(FontRule { matcher, file_name: None }),
            Err(_) => Err(PathRuleError::EmptyPath),
        }
    }

    /// A rule for every path the pattern matches.
    pub fn glob(glob: PathGlob) -> (r: FontRule)
        ensures
            r@ == (FontRuleView { matcher: PathMatcherView::Glob(glob@), file_name: None }),
    {
        FontRule { matcher: PathMatcher::glob(glob), file_name: None }
    }

    /// Builds a rule from a manifest table: exactly one of `path` and `glob`,
    /// and `file-name` only with `path`.
    pub fn try_from_raw(raw: RawFontRule) -> (r: Result<FontRule, PathRuleError>)
        ensures
            match (raw.path, raw.glob, raw.file_name) {
                (Some(p), None, f) => if p@.len() > 0 {
                    r matches Ok(rule) && rule@ == (FontRuleView {
                        matcher: PathMatcherView::Path(p@),
                        file_name: match f { Some(f) => Some(f@), None => None },
                    })
                } else {
                    r == Err::<FontRule, _>(PathRuleError::EmptyPath)
                },
                (None, Some(g), None) => r matches Ok(rule) && rule@ == (FontRuleView { matcher: PathMatcherView::Glob(g@), file_name: None }),
                (None, Some(_), Some(_)) => r == Err::<FontRule, _>(PathRuleError::FileNameWithoutPath),
                _ => r == Err::<FontRule, _>(PathRuleError::InvalidMatcher),
            },
    {
        match (raw.path, raw.glob, raw.file_name) {
            (Some(path), None, file_name) => match PathMatcher::path(path.as_str()) {
                Ok(matcher) => Ok(FontRule { matcher, file_name }),
                Err(_) => Err(PathRuleError::EmptyPath),
            },
            (None, Some(glob), None) => Ok(FontRule { matcher: PathMatcher::glob(glob), file_name: None }),
            (None, Some(_), Some(_)) => Err(PathRuleError::FileNameWithoutPath),
            _ => Err(PathRuleError::InvalidMatcher),
        }
    }

    pub fn matches(&self, path: &str) -> (r: bool)
        ensures
            r == matcher_matches(self@.matcher, path@),
    {
        self.matcher.matches(path)
    }

    pub fn matcher(&self) -> (r: &PathMatcher)
        ensures
            r@ == self@.matcher,
    {
        &self.matcher
    }

    pub fn file_name(&self) -> (r: Option<&FileName>)
        ensures
            match r {
                Some(f) => self@.file_name == Some(f@),
                None => self@.file_name is None,
            },
    {
        match &self.file_name {
            Some(f) => Some(f),
            None => None,
        }
    }

    /// The path or pattern of the rule.
    pub fn to_string(&self) -> (r: String)
        ensures
            r@ == matcher_text(self@.matcher),
    {
        self.matcher.to_string()
    }
}

/// A rule that excludes files from a package source.
#[derive(Debug, PartialEq, Eq, Hash)]
pub struct IgnoreRule {
    matcher: PathMatcher,
}

impl Clone for IgnoreRule {
    fn clone(&self) -> (r: Self)
        ensures
            r == *self,
    {
        IgnoreRule { matcher: self.matcher.clone() }
    }
}

impl View for IgnoreRule {
    type V = PathMatcherView;

    closed spec fn view(&self) -> PathMatcherView {
        self.matcher@
    }
}

impl IgnoreRule {
    /// A rule ignoring one path.
    pub fn path(path: &str) -> (r: Result<IgnoreRule, PathRuleError>)
        ensures
            r is Ok <==> path@.len() > 0,
            r matches Ok(rule) ==> rule@ == PathMatcherView::Path(path@),
            r is Err ==> r == Err::<IgnoreRule, _>(PathRuleError::EmptyPath),
    {
        match PathMatcher::path(path) {
            Ok(matcher) => Ok(IgnoreRule { matcher }),
            Err(_) => Err(PathRuleError::EmptyPath),
        }
    }

    /// Builds a rule from a manifest table: exactly one of `path` and `glob`.
    pub fn try_from_raw(path: Option<String>, glob: Option<PathGlob>) -> (r: Result<IgnoreRule, PathRuleError>)
        ensures
            match (path, glob) {
                (Some(p), None) => if p@.len() > 0 {
                    r matches Ok(rule) && rule@ == PathMatcherView::Path(p@)
                } else {
                    r == Err::<IgnoreRule, _>(PathRuleError::EmptyPath)
                },
                (None, Some(g)) => r matches Ok(rule) && rule@ == PathMatcherView::Glob(g@),
                _ => r == Err::<IgnoreRule, _>(PathRuleError::InvalidMatcher),
            },
    {
        match (path, glob) {
            (Some(path), None) => match PathMatcher::path(path.as_str()) {
                Ok(matcher) => Ok(IgnoreRule { matcher }),
                Err(_) => Err(PathRuleError::EmptyPath),
            },
            (None, Some(glob)) => Ok(IgnoreRule { matcher: PathMatcher::glob(glob) }),
            _ => Err(PathRuleError::InvalidMatcher),
        }
    }

    pub fn matches(&self, path: &str) -> (r: bool)
        ensures
            r == matcher_matches(self@, path@),
    {
        self.matcher.matches(path)
    }

    pub fn matcher(&self) -> (r: &PathMatcher)
        ensures
            r@ == self@,
    {
        &self.matcher
    }

    /// The path or pattern of the rule.
    pub fn to_string(&self) -> (r: String)
        ensures
            r@ == matcher_text(self@),
    {
        self.matcher.to_string()
    }
}

} // verus!
