//! Staging a package source: which files of a download become font files of
//! the package, under which names, and within which limits. The caller reads
//! the archive and writes the files; this module decides.
use vstd::prelude::*;

use crate::package::definition::{url_last_path_segment, ArchiveOptions, FontFileOptions, HttpUrl};
use crate::package::dirs::is_path_separator;
use crate::package::digest::{hex_text, sha256, sha256_digest, sha256_prefix, GenericDigest};
use crate::package::file_name::{valid_file_name, FileName, FontEntry};
use crate::package::id::{package_id_text, PackageId, PackageIdView};
use crate::package::rule::{matcher_matches, FontRule, FontRuleView, IgnoreRule};
use crate::text::str_eq;

verus! {

/// The limits a source is extracted within.
#[derive(Debug, Clone, Copy, PartialEq, Eq, Structural)]
pub struct ExtractLimits {
    pub max_font_file_size_bytes: u64,
    pub max_fonts_per_package_source: usize,
}

/// A font file written into the package's fonts directory.
#[derive(Debug, Clone, PartialEq, Eq)]
pub struct ExtractedFile {
    file_name: FileName,
}

impl View for ExtractedFile {
    type V = Seq<char>;

    closed spec fn view(&self) -> Seq<char> {
        self.file_name@
    }
}

impl ExtractedFile {
    pub fn file_name(&self) -> (r: &FileName)
        ensures
            r@ == self@,
    {
        &self.file_name
    }
}

/// An archive member, by its path inside the archive.
#[derive(Debug, Clone, PartialEq, Eq)]
pub struct ExtractEntry {
    pub path_in_archive: String,
}

/// How the members of an archive were sorted, under which options.
#[derive(Debug, Clone, PartialEq, Eq)]
pub struct ArchiveExtractDetail<'s> {
    pub options: &'s ArchiveOptions,
    pub included: Vec<ExtractEntry>,
    pub excluded: Vec<ExtractEntry>,
    pub suspicious_skips: Vec<ExtractEntry>,
}

#[derive(Debug, Clone, PartialEq, Eq)]
pub enum ExtractDetail<'s> {
    FontFile,
    Archive(ArchiveExtractDetail<'s>),
}

impl<'s> ExtractDetail<'s> {
    pub fn as_archive(&self) -> (r: Option<&ArchiveExtractDetail<'s>>)
        ensures
            match self {
                ExtractDetail::FontFile => r is None,
                ExtractDetail::Archive(d) => r == Some(d),
            },
    {
        match self {
            ExtractDetail::FontFile => None,
            ExtractDetail::Archive(detail) => Some(detail),
        }
    }
}

/// The files a source gave, and how they were found.
#[derive(Debug, Clone, PartialEq, Eq)]
pub struct ExtractResult<'s> {
    pub files: Vec<ExtractedFile>,
    pub detail: ExtractDetail<'s>,
}

/// Why a source could not be extracted.
#[derive(Debug, Clone, PartialEq, Eq)]
pub enum ExtractError {
    GetFileNameFromUrl { url: String },
    InvalidFileNameInUrl { file_name: String, url: String },
    SourceFileExceedsMaxSize { file_size: u64, max_size: u64 },
    ExtractedFileExceedsMaxSize { file_path: String, file_size: u64, max_size: u64 },
    GetFileName { index: usize },
    InvalidFileNameInArchive { file_name: String, index: usize },
    TooManyExtractableFiles { max_files: usize },
    ExtractedFileAlreadyExists { file_name: String },
}

pub enum ExtractErrorView {
    GetFileNameFromUrl { url: Seq<char> },
    InvalidFileNameInUrl { file_name: Seq<char>, url: Seq<char> },
    SourceFileExceedsMaxSize { file_size: u64, max_size: u64 },
    ExtractedFileExceedsMaxSize { file_path: Seq<char>, file_size: u64, max_size: u64 },
    GetFileName { index: usize },
    InvalidFileNameInArchive { file_name: Seq<char>, index: usize },
    TooManyExtractableFiles { max_files: usize },
    ExtractedFileAlreadyExists { file_name: Seq<char> },
}

impl View for ExtractError {
    type V = ExtractErrorView;

    open spec fn view(&self) -> ExtractErrorView {
        match self {
            ExtractError::GetFileNameFromUrl { url } => ExtractErrorView::GetFileNameFromUrl { url: url@ },
            ExtractError::InvalidFileNameInUrl { file_name, url } => ExtractErrorView::InvalidFileNameInUrl {
                file_name: file_name@,
                url: url@,
            },
            ExtractError::SourceFileExceedsMaxSize { file_size, max_size } => ExtractErrorView::SourceFileExceedsMaxSize {
                file_size: *file_size,
                max_size: *max_size,
            },
            ExtractError::ExtractedFileExceedsMaxSize { file_path, file_size, max_size } =>
                ExtractErrorView::ExtractedFileExceedsMaxSize {
                file_path: file_path@,
                file_size: *file_size,
                max_size: *max_size,
            },
            ExtractError::GetFileName { index } => ExtractErrorView::GetFileName { index: *index },
            ExtractError::InvalidFileNameInArchive { file_name, index } => ExtractErrorView::InvalidFileNameInArchive {
                file_name: file_name@,
                index: *index,
            },
            ExtractError::TooManyExtractableFiles { max_files } => ExtractErrorView::TooManyExtractableFiles {
                max_files: *max_files,
            },
            ExtractError::ExtractedFileAlreadyExists { file_name } => ExtractErrorView::ExtractedFileAlreadyExists {
                file_name: file_name@,
            },
        }
    }
}

/// The name a downloaded font file gets when its source does not rename it:
/// the last segment of the URL's path, if that is a valid file name.
pub open spec fn url_file_name(url: Seq<char>) -> Result<Seq<char>, ExtractErrorView> {
    match url_last_path_segment(url) {
        None => Err(ExtractErrorView::GetFileNameFromUrl { url }),
        Some(seg) => if valid_file_name(seg) {
            Ok(seg)
        } else {
            Err(ExtractErrorView::InvalidFileNameInUrl { file_name: seg, url })
        },
    }
}

pub fn url_to_filename(url: &HttpUrl) -> (r: Result<FileName, ExtractError>)
    ensures
        match url_file_name(url@) {
            Ok(name) => r matches Ok(f) && f@ == name && f.wf(),
            Err(e) => r matches Err(err) && err@ == e,
        },
{
    match url.last_path_segment() {
        None => Err(ExtractError::GetFileNameFromUrl { url: url.as_str().to_owned() }),
        Some(seg) => match FileName::new(seg.as_str()) {
            Some(name) => Ok(name),
            None => Err(ExtractError::InvalidFileNameInUrl { file_name: seg, url: url.as_str().to_owned() }),
        },
    }
}

/// What a source that is a single font file gives: one file, named by the
/// source or else by its URL, unless it is larger than the limit.
pub open spec fn font_file_extraction(
    url: Seq<char>,
    file_name: Option<Seq<char>>,
    file_size: u64,
    limits: ExtractLimits,
) -> Result<Seq<char>, ExtractErrorView> {
    let named = match file_name {
        Some(n) => Ok(n),
        None => url_file_name(url),
    };
    match named {
        Err(e) => Err(e),
        Ok(n) => if file_size <= limits.max_font_file_size_bytes {
            Ok(n)
        } else {
            Err(ExtractErrorView::SourceFileExceedsMaxSize {
                file_size,
                max_size: limits.max_font_file_size_bytes,
            })
        },
    }
}

/// Extracts a source that is one font file of `file_size` bytes: the one file
/// to write, under the name of `font_file_extraction`.
pub fn extract_font_file<'s>(url: &HttpUrl, options: &FontFileOptions, file_size: u64, limits: ExtractLimits) -> (r:
    Result<ExtractResult<'s>, ExtractError>)
    ensures
        match font_file_extraction(
            url@,
            match options.file_name {
                Some(f) => Some(f@),
                None => None,
            },
            file_size,
            limits,
        ) {
            Ok(name) => r matches Ok(res) && res.files@.len() == 1 && res.files@[0]@ == name
                && res.detail is FontFile,
            Err(e) => r matches Err(err) && err@ == e,
        },
{
    let file_name = match &options.file_name {
        Some(name) => name.clone(),
        None => url_to_filename(url)?,
    };
    if file_size > limits.max_font_file_size_bytes {
        return Err(
            ExtractError::SourceFileExceedsMaxSize { file_size, max_size: limits.max_font_file_size_bytes },
        );
    }
    let files = vec![ExtractedFile { file_name }];
    Ok(ExtractResult { files, detail: ExtractDetail::FontFile })
}

/// A path component that names something: neither empty nor `.`.
pub open spec fn is_named_component(s: Seq<char>) -> bool {
    s.len() > 0 && s != seq!['.']
}

/// Reading a path from the left: the component being read, and the last
/// named component before it.
pub open spec fn component_scan(p: Seq<char>) -> (Seq<char>, Option<Seq<char>>)
    decreases p.len(),
{
    if p.len() == 0 {
        (Seq::empty(), None)
    } else {
        let (cur, last) = component_scan(p.drop_last());
        let c = p.last();
        if is_path_separator(c) {
            (Seq::empty(), if is_named_component(cur) { Some(cur) } else { last })
        } else {
            (cur.push(c), last)
        }
    }
}

/// The last named component of a path.
pub open spec fn last_component(p: Seq<char>) -> Option<Seq<char>> {
    let (cur, last) = component_scan(p);
    if is_named_component(cur) {
        Some(cur)
    } else {
        last
    }
}

/// The file name of a path: its last component, unless that is `..`.
pub open spec fn path_file_name(p: Seq<char>) -> Option<Seq<char>> {
    match last_component(p) {
        Some(c) => if c == seq!['.', '.'] {
            None
        } else {
            Some(c)
        },
        None => None,
    }
}

/// The file name of a path, as `std::path::Path::file_name` gives it for
/// the relative paths of archive members.
pub fn path_file_name_of(p: &str) -> (r: Option<String>)
    ensures
        match r {
            Some(s) => path_file_name(p@) == Some(s@),
            None => path_file_name(p@) is None,
        },
{
    let n = p.unicode_len();
    let mut cur = String::new();
    let mut last: Option<String> = None;
    let mut i: usize = 0;
    while i < n
        invariant
            n == p@.len(),
            i <= n,
            component_scan(p@.take(i as int)) == (cur@, match last {
                Some(l) => Some(l@),
                None => None::<Seq<char>>,
            }),
        decreases n - i,
    {
        let c = p.get_char(i);
        proof {
            assert(p@.take(i + 1).drop_last() =~= p@.take(i as int));
            assert(p@.take(i + 1).last() == c);
        }
        if c == '/' || c == '\\' {
            let cur_len = cur.unicode_len();
            let named = cur_len > 0 && !(cur_len == 1 && cur.get_char(0) == '.');
            proof {
                if cur@ == seq!['.'] {
                    assert(cur@.len() == 1 && cur@[0] == '.');
                }
                if cur_len == 1 && cur@[0] == '.' {
                    assert(cur@ =~= seq!['.']);
                }
            }
            if named {
                last = Some(cur);
            }
            cur = String::new();
        } else {
            let ghost before = cur@;
            cur.append(p.substring_char(i, i + 1));
            proof {
                assert(p@.subrange(i as int, i + 1) =~= seq![c]);
                assert(cur@ =~= before.push(c));
            }
        }
        i = i + 1;
    }
    proof {
        assert(p@.take(n as int) =~= p@);
    }
    let cur_len = cur.unicode_len();
    let named = cur_len > 0 && !(cur_len == 1 && cur.get_char(0) == '.');
    proof {
        if cur@ == seq!['.'] {
            assert(cur@.len() == 1 && cur@[0] == '.');
        }
        if cur_len == 1 && cur@[0] == '.' {
            assert(cur@ =~= seq!['.']);
        }
    }
    let comp = if named { Some(cur) } else { last };
    match comp {
        None => None,
        Some(c) => {
            let len = c.unicode_len();
            if len == 2 && c.get_char(0) == '.' && c.get_char(1) == '.' {
                assert(c@ =~= seq!['.', '.']);
                None
            } else {
                proof {
                    if c@ == seq!['.', '.'] {
                        assert(c@.len() == 2 && c@[0] == '.' && c@[1] == '.');
                    }
                }
                Some(c)
            }
        },
    }
}

/// The index of the last `c` in `s`.
pub open spec fn last_index_of(s: Seq<char>, c: char) -> Option<int>
    decreases s.len(),
{
    if s.len() == 0 {
        None
    } else if s.last() == c {
        Some(s.len() - 1)
    } else {
        last_index_of(s.drop_last(), c)
    }
}

/// The extension of a file name: what follows its last `.`, when something
/// precedes that `.`.
pub open spec fn file_extension(name: Seq<char>) -> Option<Seq<char>> {
    match last_index_of(name, '.') {
        Some(k) => if k > 0 {
            Some(name.subrange(k + 1, name.len() as int))
        } else {
            None
        },
        None => None,
    }
}

pub open spec fn either_case(c: char, lower: char, upper: char) -> bool {
    c == lower || c == upper
}

/// `ttf`, `otf`, `ttc` or `otc`, in any ASCII case.
pub open spec fn is_font_extension(e: Seq<char>) -> bool {
    &&& e.len() == 3
    &&& either_case(e[0], 't', 'T') || either_case(e[0], 'o', 'O')
    &&& either_case(e[1], 't', 'T')
    &&& either_case(e[2], 'f', 'F') || either_case(e[2], 'c', 'C')
}

/// A path whose file name has a font file's extension.
pub open spec fn is_font_like_path(p: Seq<char>) -> bool {
    match path_file_name(p) {
        Some(name) => match file_extension(name) {
            Some(e) => is_font_extension(e),
            None => false,
        },
        None => false,
    }
}

proof fn lemma_last_index_of(s: Seq<char>, c: char)
    ensures
        match last_index_of(s, c) {
            Some(k) => 0 <= k < s.len() && s[k] == c,
            None => true,
        },
    decreases s.len(),
{
    if s.len() > 0 && s.last() != c {
        lemma_last_index_of(s.drop_last(), c);
    }
}

fn last_dot(s: &str) -> (r: Option<usize>)
    ensures
        match r {
            Some(k) => last_index_of(s@, '.') == Some(k as int),
            None => last_index_of(s@, '.') is None,
        },
{
    let n = s.unicode_len();
    let mut i: usize = n;
    assert(s@.take(n as int) =~= s@);
    while i > 0
        invariant
            n == s@.len(),
            i <= n,
            last_index_of(s@, '.') == last_index_of(s@.take(i as int), '.'),
        decreases i,
    {
        proof {
            assert(s@.take(i as int).drop_last() =~= s@.take(i - 1));
        }
        if s.get_char(i - 1) == '.' {
            return Some(i - 1);
        }
        i = i - 1;
    }
    None
}

pub fn is_font_like(p: &str) -> (r: bool)
    ensures
        r == is_font_like_path(p@),
{
    match path_file_name_of(p) {
        None => false,
        Some(name) => match last_dot(name.as_str()) {
            None => false,
            Some(k) => {
                proof {
                    lemma_last_index_of(name@, '.');
                }
                if k == 0 {
                    return false;
                }
                let len = name.unicode_len();
                if len - (k + 1) != 3 {
                    return false;
                }
                let a = name.get_char(k + 1);
                let b = name.get_char(k + 2);
                let c = name.get_char(k + 3);
                let ghost e = name@.subrange(k + 1, len as int);
                assert(e[0] == a && e[1] == b && e[2] == c);
                (a == 't' || a == 'T' || a == 'o' || a == 'O') && (b == 't' || b == 'T') && (c == 'f' || c
                    == 'F' || c == 'c' || c == 'C')
            },
        },
    }
}

/// Whether some ignore rule matches the path.
pub open spec fn ignored_by(ignore: Seq<IgnoreRule>, path: Seq<char>) -> bool {
    exists|i: int| 0 <= i < ignore.len() && matcher_matches(#[trigger] ignore[i]@, path)
}

/// Rule `k` is the first font rule that matches the path.
pub open spec fn is_first_font_rule(fonts: Seq<FontRule>, path: Seq<char>, k: int) -> bool {
    &&& 0 <= k < fonts.len()
    &&& matcher_matches(fonts[k]@.matcher, path)
    &&& forall|j: int| 0 <= j < k ==> !matcher_matches(#[trigger] fonts[j]@.matcher, path)
}

/// The first font rule that matches the path.
pub open spec fn first_font_rule(fonts: Seq<FontRule>, path: Seq<char>) -> Option<int> {
    if exists|k: int| is_first_font_rule(fonts, path, k) {
        Some(choose|k: int| is_first_font_rule(fonts, path, k))
    } else {
        None
    }
}

fn is_ignored(ignore: &Vec<IgnoreRule>, path: &str) -> (r: bool)
    ensures
        r == ignored_by(ignore@, path@),
{
    let mut i: usize = 0;
    while i < ignore.len()
        invariant
            i <= ignore@.len(),
            forall|j: int| 0 <= j < i ==> !matcher_matches(#[trigger] ignore@[j]@, path@),
        decreases ignore@.len() - i,
    {
        if ignore[i].matches(path) {
            return true;
        }
        i = i + 1;
    }
    false
}

fn find_font_rule(fonts: &Vec<FontRule>, path: &str) -> (r: Option<usize>)
    ensures
        match r {
            Some(k) => first_font_rule(fonts@, path@) == Some(k as int),
            None => first_font_rule(fonts@, path@) is None,
        },
{
    let mut i: usize = 0;
    while i < fonts.len()
        invariant
            i <= fonts@.len(),
            forall|j: int| 0 <= j < i ==> !matcher_matches(#[trigger] fonts@[j]@.matcher, path@),
        decreases fonts@.len() - i,
    {
        if fonts[i].matches(path) {
            proof {
                assert(is_first_font_rule(fonts@, path@, i as int));
                let k = choose|k: int| is_first_font_rule(fonts@, path@, k);
                if k < i {
                    assert(!matcher_matches(fonts@[k]@.matcher, path@));
                }
                if k > i {
                    assert(!matcher_matches(fonts@[i as int]@.matcher, path@));
                }
            }
            return Some(i);
        }
        i = i + 1;
    }
    proof {
        assert forall|k: int| !is_first_font_rule(fonts@, path@, k) by {
            if 0 <= k < fonts@.len() {
                assert(!matcher_matches(fonts@[k]@.matcher, path@));
            }
        }
    }
    None
}

/// A member of an archive as the reader reports it: whether it is a file,
/// its path when the path stays inside the extraction directory, and its
/// uncompressed size.
#[derive(Debug, Clone, PartialEq, Eq)]
pub struct ArchiveEntry {
    pub is_file: bool,
    pub enclosed_name: Option<String>,
    pub size: u64,
}

pub open spec fn opt_text(s: Option<String>) -> Option<Seq<char>> {
    match s {
        Some(t) => Some(t@),
        None => None,
    }
}

pub open spec fn entry_paths(s: Seq<ExtractEntry>) -> Seq<Seq<char>> {
    s.map_values(|e: ExtractEntry| e.path_in_archive@)
}

pub open spec fn extracted_names(s: Seq<ExtractedFile>) -> Seq<Seq<char>> {
    s.map_values(|f: ExtractedFile| f@)
}

/// What has been decided so far about the members of an archive.
pub struct ArchiveExtractionView {
    pub files: Seq<Seq<char>>,
    pub included: Seq<Seq<char>>,
    pub excluded: Seq<Seq<char>>,
    pub suspicious_skips: Seq<Seq<char>>,
}

/// The extraction of an archive, member by member, under its options.
#[derive(Debug)]
pub struct ArchiveExtraction<'s> {
    options: &'s ArchiveOptions,
    files: Vec<ExtractedFile>,
    included: Vec<ExtractEntry>,
    excluded: Vec<ExtractEntry>,
    suspicious_skips: Vec<ExtractEntry>,
}

impl<'s> View for ArchiveExtraction<'s> {
    type V = ArchiveExtractionView;

    closed spec fn view(&self) -> ArchiveExtractionView {
        ArchiveExtractionView {
            files: extracted_names(self.files@),
            included: entry_paths(self.included@),
            excluded: entry_paths(self.excluded@),
            suspicious_skips: entry_paths(self.suspicious_skips@),
        }
    }
}

/// The name the file of an included member gets: the one its rule gives,
/// else the file name of its path.
pub open spec fn included_file_name(rule: FontRuleView, path: Seq<char>, index: usize) -> Result<
    Seq<char>,
    ExtractErrorView,
> {
    match rule.file_name {
        Some(f) => Ok(f),
        None => match path_file_name(path) {
            None => Err(ExtractErrorView::GetFileName { index }),
            Some(f) => if valid_file_name(f) {
                Ok(f)
            } else {
                Err(ExtractErrorView::InvalidFileNameInArchive { file_name: f, index })
            },
        },
    }
}

/// One member of an archive, at position `index`: what becomes of it, and
/// the name of the font file to write for it, if any. Members that are not
/// files, or whose path leaves the directory, are passed over; an ignored
/// path is excluded; a path no font rule selects is passed over, and noted
/// when it looks like a font file; a selected member must fit the size
/// limit, have a file name, stay within the number of fonts allowed, and
/// not take the name of a file written before.
pub open spec fn archive_step(
    st: ArchiveExtractionView,
    fonts: Seq<FontRule>,
    ignore: Seq<IgnoreRule>,
    limits: ExtractLimits,
    index: usize,
    is_file: bool,
    name: Option<Seq<char>>,
    size: u64,
) -> Result<(ArchiveExtractionView, Option<Seq<char>>), ExtractErrorView> {
    if !is_file {
        Ok((st, None))
    } else {
        match name {
            None => Ok((st, None)),
            Some(path) => if ignored_by(ignore, path) {
                Ok((ArchiveExtractionView { excluded: st.excluded.push(path), ..st }, None))
            } else {
                match first_font_rule(fonts, path) {
                    None => if is_font_like_path(path) {
                        Ok((ArchiveExtractionView { suspicious_skips: st.suspicious_skips.push(path), ..st }, None))
                    } else {
                        Ok((st, None))
                    },
                    Some(k) => if size > limits.max_font_file_size_bytes {
                        Err(ExtractErrorView::ExtractedFileExceedsMaxSize {
                            file_path: path,
                            file_size: size,
                            max_size: limits.max_font_file_size_bytes,
                        })
                    } else {
                        match included_file_name(fonts[k]@, path, index) {
                            Err(e) => Err(e),
                            Ok(f) => if st.included.len() >= limits.max_fonts_per_package_source {
                                Err(ExtractErrorView::TooManyExtractableFiles {
                                    max_files: limits.max_fonts_per_package_source,
                                })
                            } else if st.files.contains(f) {
                                Err(ExtractErrorView::ExtractedFileAlreadyExists { file_name: f })
                            } else {
                                Ok((
                                    ArchiveExtractionView {
                                        files: st.files.push(f),
                                        included: st.included.push(path),
                                        ..st
                                    },
                                    Some(f),
                                ))
                            },
                        }
                    },
                }
            },
        }
    }
}

/// An ignored member is never extracted, whatever the font rules select:
/// it is recorded as excluded and nothing is written for it.
pub proof fn law_ignored_entry_is_never_extracted(
    st: ArchiveExtractionView,
    fonts: Seq<FontRule>,
    ignore: Seq<IgnoreRule>,
    limits: ExtractLimits,
    index: usize,
    path: Seq<char>,
    size: u64,
)
    requires
        ignored_by(ignore, path),
    ensures
        archive_step(st, fonts, ignore, limits, index, true, Some(path), size) == Ok::<_, ExtractErrorView>(
            (ArchiveExtractionView { excluded: st.excluded.push(path), ..st }, None::<Seq<char>>),
        ),
{
}

/// An archive never yields more font files than the limit allows: a step
/// from a state within the limit stays within it.
pub proof fn law_extraction_stays_within_font_limit(
    st: ArchiveExtractionView,
    fonts: Seq<FontRule>,
    ignore: Seq<IgnoreRule>,
    limits: ExtractLimits,
    index: usize,
    is_file: bool,
    name: Option<Seq<char>>,
    size: u64,
)
    requires
        st.files.len() == st.included.len(),
        st.included.len() <= limits.max_fonts_per_package_source,
    ensures
        archive_step(st, fonts, ignore, limits, index, is_file, name, size) matches Ok((next, _)) ==> next.files.len()
            == next.included.len() && next.included.len() <= limits.max_fonts_per_package_source,
{
}

/// The font files of an archive never share a name: a step from a state
/// whose files have distinct names keeps them distinct.
pub proof fn law_extracted_file_names_stay_distinct(
    st: ArchiveExtractionView,
    fonts: Seq<FontRule>,
    ignore: Seq<IgnoreRule>,
    limits: ExtractLimits,
    index: usize,
    is_file: bool,
    name: Option<Seq<char>>,
    size: u64,
)
    requires
        st.files.no_duplicates(),
    ensures
        archive_step(st, fonts, ignore, limits, index, is_file, name, size) matches Ok((next, _))
            ==> next.files.no_duplicates(),
{
    if let Ok((next, Some(f))) = archive_step(st, fonts, ignore, limits, index, is_file, name, size) {
        assert(!st.files.contains(f));
        assert(next.files == st.files.push(f));
        assert forall|i: int, j: int| 0 <= i < next.files.len() && 0 <= j < next.files.len() && i != j
            implies next.files[i] != next.files[j] by {
            if i == st.files.len() {
                assert(st.files[j] == next.files[j]);
            } else if j == st.files.len() {
                assert(st.files[i] == next.files[i]);
            }
        }
    }
}

/// Whether a file of that name was written already.
fn has_file_named(files: &Vec<ExtractedFile>, name: &FileName) -> (r: bool)
    ensures
        r == extracted_names(files@).contains(name@),
{
    let mut i: usize = 0;
    while i < files.len()
        invariant
            i <= files@.len(),
            forall|j: int| 0 <= j < i ==> files@[j]@ != name@,
        decreases files@.len() - i,
    {
        if str_eq(files[i].file_name.as_str(), name.as_str()) {
            assert(extracted_names(files@)[i as int] == name@);
            return true;
        }
        i = i + 1;
    }
    proof {
        if extracted_names(files@).contains(name@) {
            let j = choose|j: int| 0 <= j < extracted_names(files@).len() && extracted_names(files@)[j] == name@;
            assert(files@[j]@ == name@);
        }
    }
    false
}

impl<'s> ArchiveExtraction<'s> {
    pub open spec fn wf(&self) -> bool {
        &&& self@.files.len() == self@.included.len()
        &&& self@.files.no_duplicates()
    }

    /// The options the archive is extracted under.
    pub closed spec fn options(&self) -> ArchiveOptions {
        *self.options
    }

    pub fn new(options: &'s ArchiveOptions) -> (r: ArchiveExtraction<'s>)
        ensures
            r.options() == *options,
            r@.files == Seq::<Seq<char>>::empty(),
            r@.included == Seq::<Seq<char>>::empty(),
            r@.excluded == Seq::<Seq<char>>::empty(),
            r@.suspicious_skips == Seq::<Seq<char>>::empty(),
            r.wf(),
    {
        let r = ArchiveExtraction {
            options,
            files: vec![],
            included: vec![],
            excluded: vec![],
            suspicious_skips: vec![],
        };
        assert(r@.files =~= Seq::<Seq<char>>::empty());
        assert(r@.included =~= Seq::<Seq<char>>::empty());
        assert(r@.excluded =~= Seq::<Seq<char>>::empty());
        assert(r@.suspicious_skips =~= Seq::<Seq<char>>::empty());
        r
    }

    /// Decides the member at position `index`. When the answer is a file
    /// name, the member is recorded as included and its contents are to be
    /// written to that file.
    pub fn accept_entry(
        &mut self,
        limits: ExtractLimits,
        index: usize,
        entry: &ArchiveEntry,
    ) -> (r: Result<Option<FileName>, ExtractError>)
        requires
            old(self).wf(),
        ensures
            final(self).wf(),
            final(self).options() == old(self).options(),
            match archive_step(
                old(self)@,
                old(self).options().fonts@,
                old(self).options().ignore@,
                limits,
                index,
                entry.is_file,
                opt_text(entry.enclosed_name),
                entry.size,
            ) {
                Ok((st, f)) => r matches Ok(o) && final(self)@ == st && match o {
                    Some(name) => f == Some(name@),
                    None => f is None,
                },
                Err(e) => r matches Err(err) && err@ == e && final(self)@ == old(self)@,
            },
    {
        let options = self.options;
        if !entry.is_file {
            return Ok(None);
        }
        let path = match &entry.enclosed_name {
            Some(p) => p,
            None => return Ok(None),
        };
        if is_ignored(&options.ignore, path.as_str()) {
            let ghost before = self.excluded@;
            self.excluded.push(ExtractEntry { path_in_archive: path.clone() });
            assert(entry_paths(self.excluded@) =~= entry_paths(before).push(path@));
            return Ok(None);
        }
        let k = match find_font_rule(&options.fonts, path.as_str()) {
            Some(k) => k,
            None => {
                if is_font_like(path.as_str()) {
                    let ghost before = self.suspicious_skips@;
                    self.suspicious_skips.push(ExtractEntry { path_in_archive: path.clone() });
                    assert(entry_paths(self.suspicious_skips@) =~= entry_paths(before).push(path@));
                }
                return Ok(None);
            },
        };
        let rule = &options.fonts[k];
        if entry.size > limits.max_font_file_size_bytes {
            return Err(
                ExtractError::ExtractedFileExceedsMaxSize {
                    file_path: path.clone(),
                    file_size: entry.size,
                    max_size: limits.max_font_file_size_bytes,
                },
            );
        }
        let file_name = match rule.file_name() {
            Some(f) => f.clone(),
            None => match path_file_name_of(path.as_str()) {
                None => return Err(ExtractError::GetFileName { index }),
                Some(f) => match FileName::new(f.as_str()) {
                    Some(name) => name,
                    None => return Err(ExtractError::InvalidFileNameInArchive { file_name: f, index }),
                },
            },
        };
        if self.included.len() >= limits.max_fonts_per_package_source {
            return Err(ExtractError::TooManyExtractableFiles { max_files: limits.max_fonts_per_package_source });
        }
        if has_file_named(&self.files, &file_name) {
            return Err(ExtractError::ExtractedFileAlreadyExists { file_name: file_name.as_str().to_owned() });
        }
        let ghost files_before = self.files@;
        let ghost included_before = self.included@;
        self.files.push(ExtractedFile { file_name: file_name.clone() });
        self.included.push(ExtractEntry { path_in_archive: path.clone() });
        assert(extracted_names(self.files@) =~= extracted_names(files_before).push(file_name@));
        assert(entry_paths(self.included@) =~= entry_paths(included_before).push(path@));
        proof {
            law_extracted_file_names_stay_distinct(
                old(self)@,
                options.fonts@,
                options.ignore@,
                limits,
                index,
                entry.is_file,
                opt_text(entry.enclosed_name),
                entry.size,
            );
        }
        Ok(Some(file_name))
    }

    /// The files written and the sorting of the members.
    pub fn into_result(self) -> (r: ExtractResult<'s>)
        ensures
            extracted_names(r.files@) == self@.files,
            r.detail matches ExtractDetail::Archive(d) && *d.options == self.options()
                && entry_paths(d.included@) == self@.included
                && entry_paths(d.excluded@) == self@.excluded && entry_paths(d.suspicious_skips@)
                == self@.suspicious_skips,
    {
        ExtractResult {
            files: self.files,
            detail: ExtractDetail::Archive(
                ArchiveExtractDetail {
                    options: self.options,
                    included: self.included,
                    excluded: self.excluded,
                    suspicious_skips: self.suspicious_skips,
                },
            ),
        }
    }
}

/// Why a download was refused.
#[derive(Debug, Clone, PartialEq, Eq)]
pub enum DownloadError {
    ReportedSizeExceedsMax { reported_size: u64, max_size: u64 },
    DownloadedSizeExceedsMax { downloaded_size: u64, max_size: u64 },
    HashMismatch { pkg_id: String, expected: String, got: String },
}

pub enum DownloadErrorView {
    ReportedSizeExceedsMax { reported_size: u64, max_size: u64 },
    DownloadedSizeExceedsMax { downloaded_size: u64, max_size: u64 },
    HashMismatch { pkg_id: Seq<char>, expected: Seq<char>, got: Seq<char> },
}

impl View for DownloadError {
    type V = DownloadErrorView;

    open spec fn view(&self) -> DownloadErrorView {
        match self {
            DownloadError::ReportedSizeExceedsMax { reported_size, max_size } =>
                DownloadErrorView::ReportedSizeExceedsMax { reported_size: *reported_size, max_size: *max_size },
            DownloadError::DownloadedSizeExceedsMax { downloaded_size, max_size } =>
                DownloadErrorView::DownloadedSizeExceedsMax { downloaded_size: *downloaded_size, max_size: *max_size },
            DownloadError::HashMismatch { pkg_id, expected, got } => DownloadErrorView::HashMismatch {
                pkg_id: pkg_id@,
                expected: expected@,
                got: got@,
            },
        }
    }
}

/// What becomes of a downloaded body of `body_len` bytes whose SHA-256 digest
/// is `digest`: refused when the announced length is over the limit, then
/// when the body is over the limit, then when the digest is not the one the
/// source names; else accepted.
pub open spec fn download_outcome(
    pkg_id: PackageIdView,
    reported: Option<u64>,
    body_len: u64,
    max_size: u64,
    expected: Seq<u8>,
    digest: Seq<u8>,
) -> Result<(), DownloadErrorView> {
    if reported matches Some(len) && len > max_size {
        Err(DownloadErrorView::ReportedSizeExceedsMax { reported_size: reported->0, max_size })
    } else if body_len > max_size {
        Err(DownloadErrorView::DownloadedSizeExceedsMax { downloaded_size: body_len, max_size })
    } else if digest != expected {
        Err(DownloadErrorView::HashMismatch {
            pkg_id: package_id_text(pkg_id),
            expected: sha256_prefix() + hex_text(expected),
            got: sha256_prefix() + hex_text(digest),
        })
    } else {
        Ok(())
    }
}

/// Checks a downloaded body against the limits and the digest its source
/// names, with the digest computed here from the bytes.
pub fn verify_download(
    pkg_id: &PackageId,
    body: &[u8],
    reported: Option<u64>,
    max_size: u64,
    expected: &GenericDigest,
) -> (r: Result<(), DownloadError>)
    ensures
        match r {
            Ok(_) => download_outcome(pkg_id@, reported, body@.len() as u64, max_size, expected@, sha256_digest(body@))
                is Ok,
            Err(e) => download_outcome(pkg_id@, reported, body@.len() as u64, max_size, expected@, sha256_digest(body@))
                == Err::<(), DownloadErrorView>(e@),
        },
{
    check_reported_size(reported, max_size)?;
    let body_len = body.len() as u64;
    if body_len > max_size {
        return Err(DownloadError::DownloadedSizeExceedsMax { downloaded_size: body_len, max_size });
    }
    let digest = sha256(body);
    check_download_digest(pkg_id, expected, digest.as_slice())
}

/// Refuses a download whose announced length is over the limit.
pub fn check_reported_size(reported: Option<u64>, max_size: u64) -> (r: Result<(), DownloadError>)
    ensures
        match reported {
            Some(len) => if len > max_size {
                r == Err::<(), _>(DownloadError::ReportedSizeExceedsMax { reported_size: len, max_size })
            } else {
                r is Ok
            },
            None => r is Ok,
        },
{
    match reported {
        Some(len) => if len > max_size {
            Err(DownloadError::ReportedSizeExceedsMax { reported_size: len, max_size })
        } else {
            Ok(())
        },
        None => Ok(()),
    }
}

/// The number of bytes received so far of a download.
#[derive(Debug, Clone, Copy, PartialEq, Eq, Structural)]
pub struct DownloadTracker {
    pub total_size: u64,
}

impl DownloadTracker {
    pub fn new() -> (r: DownloadTracker)
        ensures
            r.total_size == 0,
    {
        DownloadTracker { total_size: 0 }
    }

    /// Counts a received chunk of `chunk_len` bytes, and refuses the
    /// download once the total is over the limit.
    pub fn add_chunk(&mut self, chunk_len: u64, max_size: u64) -> (r: Result<(), DownloadError>)
        requires
            old(self).total_size <= max_size,
        ensures
            old(self).total_size + chunk_len <= max_size ==> r is Ok && final(self).total_size
                == old(self).total_size + chunk_len,
            old(self).total_size + chunk_len > max_size ==> final(self).total_size == old(self).total_size
                && r == Err::<(), _>(DownloadError::DownloadedSizeExceedsMax {
                downloaded_size: if old(self).total_size + chunk_len <= u64::MAX {
                    (old(self).total_size + chunk_len) as u64
                } else {
                    u64::MAX
                },
                max_size,
            }),
    {
        if chunk_len > max_size - self.total_size {
            let downloaded_size = self.total_size.saturating_add(chunk_len);
            return Err(DownloadError::DownloadedSizeExceedsMax { downloaded_size, max_size });
        }
        self.total_size = self.total_size + chunk_len;
        Ok(())
    }
}

/// Refuses a download whose SHA-256 digest is not the one its source names.
pub fn check_download_digest(pkg_id: &PackageId, expected: &GenericDigest, computed: &[u8]) -> (r: Result<
    (),
    DownloadError,
>)
    ensures
        expected@ == computed@ ==> r is Ok,
        expected@ != computed@ ==> (r matches Err(DownloadError::HashMismatch { pkg_id: id, expected: e, got: g })
            && id@ == package_id_text(pkg_id@) && e@ == sha256_prefix() + hex_text(expected@) && g@
            == sha256_prefix() + hex_text(computed@)),
{
    if expected.matches_bytes(computed) {
        Ok(())
    } else {
        let got = GenericDigest::from_bytes(computed);
        Err(
            DownloadError::HashMismatch {
                pkg_id: pkg_id.to_string(),
                expected: expected.to_string(),
                got: got.to_string(),
            },
        )
    }
}

/// Why a package could not be staged.
#[derive(Debug, Clone, PartialEq, Eq)]
pub enum StageError {
    NoValidFonts { pkg_id: String },
}

/// The names of the files of each source, one source after another.
pub open spec fn staged_names(results: Seq<ExtractResult>) -> Seq<Seq<char>>
    decreases results.len(),
{
    if results.len() == 0 {
        Seq::empty()
    } else {
        staged_names(results.drop_last()) + extracted_names(results.last().files@)
    }
}

pub open spec fn font_entry_names(fonts: Seq<FontEntry>) -> Seq<Seq<char>> {
    fonts.map_values(|f: FontEntry| f@)
}

/// The fonts of a package: the files extracted from all its sources, in
/// order; a package whose sources gave no font file is refused.
pub fn staged_fonts(pkg_id: &PackageId, results: &Vec<ExtractResult>) -> (r: Result<Vec<FontEntry>, StageError>)
    ensures
        staged_names(results@).len() > 0 ==> (r matches Ok(fonts) && font_entry_names(fonts@) == staged_names(results@)),
        staged_names(results@).len() == 0 ==> (r matches Err(StageError::NoValidFonts { pkg_id: t }) && t@
            == package_id_text(pkg_id@)),
{
    let mut fonts: Vec<FontEntry> = Vec::new();
    let mut i: usize = 0;
    while i < results.len()
        invariant
            i <= results@.len(),
            font_entry_names(fonts@) == staged_names(results@.take(i as int)),
        decreases results@.len() - i,
    {
        let files = &results[i].files;
        let ghost before = fonts@;
        let mut j: usize = 0;
        while j < files.len()
            invariant
                j <= files@.len(),
                files@ == results@[i as int].files@,
                font_entry_names(fonts@) == font_entry_names(before) + extracted_names(files@).take(j as int),
            decreases files@.len() - j,
        {
            let ghost prev = fonts@;
            fonts.push(FontEntry::new(files[j].file_name().clone()));
            assert(font_entry_names(fonts@) =~= font_entry_names(prev).push(files@[j as int]@));
            assert(extracted_names(files@).take(j + 1) =~= extracted_names(files@).take(j as int).push(files@[j as int]@));
            j = j + 1;
        }
        assert(extracted_names(files@).take(files@.len() as int) =~= extracted_names(files@));
        assert(results@.take(i + 1).drop_last() =~= results@.take(i as int));
        i = i + 1;
    }
    assert(results@.take(results@.len() as int) =~= results@);
    if fonts.len() == 0 {
        return Err(StageError::NoValidFonts { pkg_id: pkg_id.to_string() });
    }
    Ok(fonts)
}

} // verus!
