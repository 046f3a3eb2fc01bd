//! Package definitions: what a registry or a manifest file says of a
//! package, and the sources its fonts are installed from.
use vstd::prelude::*;

use super::digest::GenericDigest;
use super::file_name::FileName;
use super::id::{PackageId, PackageIdView};
use super::rule::{FontRule, IgnoreRule};

verus! {

/// What `url::Url::parse` gives for a text: the URL's serialization and its
/// scheme, or the message of its error.
pub uninterp spec fn url_parse(s: Seq<char>) -> Result<(Seq<char>, Seq<char>), Seq<char>>;

/// The last segment of the path of the URL with the given serialization, if
/// the URL has a path made of segments.
pub uninterp spec fn url_last_path_segment(url: Seq<char>) -> Option<Seq<char>>;

/// Calls `url::Url::parse`, and reads the result's `as_str` and `scheme`.
/// The contract names the outcome by `url_parse`, a function of the text.
#[verifier::external_body]
fn url_check(s: &str) -> (r: Result<(String, String), String>)
    ensures
        match r {
            Ok((text, scheme)) => url_parse(s@) == Ok::<_, Seq<char>>((text@, scheme@)),
            Err(m) => url_parse(s@) == Err::<(Seq<char>, Seq<char>), _>(m@),
        },
{
    match url::Url::parse(s) {
        Ok(u) => Ok((u.as_str().to_owned(), u.scheme().to_owned())),
        Err(e) => Err(e.to_string()),
    }
}

/// Calls `url::Url::path_segments` on the URL parsed from its serialization
/// and takes the last segment. The contract names the answer by
/// `url_last_path_segment`.
#[verifier::external_body]
fn url_path_last(url: &str) -> (r: Option<String>)
    ensures
        match r {
            Some(seg) => url_last_path_segment(url@) == Some(seg@),
            None => url_last_path_segment(url@) is None,
        },
{
    match url::Url::parse(url) {
        Ok(u) => match u.path_segments() {
            Some(segments) => segments.last().map(|s| s.to_owned()),
            None => None,
        },
        Err(_) => None,
    }
}

/// The `http` and `https` schemes.
pub open spec fn is_http_scheme(scheme: Seq<char>) -> bool {
    scheme == seq!['h', 't', 't', 'p'] || scheme == seq!['h', 't', 't', 'p', 's']
}

/// A URL with an `http` or `https` scheme.
#[derive(Debug, PartialEq, Eq, Hash)]
pub struct HttpUrl {
    text: String,
}

impl View for HttpUrl {
    type V = Seq<char>;

    closed spec fn view(&self) -> Seq<char> {
        self.text@
    }
}

impl Clone for HttpUrl {
    fn clone(&self) -> (r: Self)
        ensures
            r == *self,
    {
        HttpUrl { text: self.text.clone() }
    }
}

#[derive(Debug, Clone, PartialEq, Eq)]
pub enum UrlError {
    /// The text is no URL; the message is the parser's.
    Invalid { message: String },
    /// The URL's scheme is neither `http` nor `https`.
    NotHttp { url: String },
}

impl HttpUrl {
    /// Parses a URL and accepts it when its scheme is `http` or `https`; the
    /// URL is kept in its serialized form.
    pub fn parse(s: &str) -> (r: Result<HttpUrl, UrlError>)
        ensures
            match url_parse(s@) {
                Ok((text, scheme)) => if is_http_scheme(scheme) {
                    r matches Ok(u) && u@ == text
                } else {
                    r matches Err(UrlError::NotHttp { url }) && url@ == text
                },
                Err(m) => r matches Err(UrlError::Invalid { message }) && message@ == m,
            },
    {
        match url_check(s) {
            Ok((text, scheme)) => {
                proof {
                    reveal_strlit("http");
                    reveal_strlit("https");
                    assert("http"@ =~= seq!['h', 't', 't', 'p']);
                    assert("https"@ =~= seq!['h', 't', 't', 'p', 's']);
                }
                if crate::text::str_eq(scheme.as_str(), "http") || crate::text::str_eq(scheme.as_str(), "https") {
                    Ok(HttpUrl { text })
                } else {
                    Err(UrlError::NotHttp { url: text })
                }
            },
            Err(message) => Err(UrlError::Invalid { message }),
        }
    }

    pub fn as_str(&self) -> (r: &str)
        ensures
            r@ == self@,
    {
        self.text.as_str()
    }

    /// The last segment of the URL's path.
    pub fn last_path_segment(&self) -> (r: Option<String>)
        ensures
            match r {
                Some(seg) => url_last_path_segment(self@) == Some(seg@),
                None => url_last_path_segment(self@) is None,
            },
    {
        url_path_last(self.text.as_str())
    }
}

/// Options of a source that is a single font file.
#[derive(Debug, Clone, PartialEq, Eq, Hash)]
pub struct FontFileOptions {
    pub file_name: Option<FileName>,
}

/// Options of a source that is an archive of font files.
#[derive(Debug, Clone, PartialEq, Eq, Hash)]
pub struct ArchiveOptions {
    pub fonts: Vec<FontRule>,
    pub ignore: Vec<IgnoreRule>,
}

/// What a source holds.
#[derive(Debug, Clone, PartialEq, Eq, Hash)]
pub enum PackageSourceContents {
    FontFile(FontFileOptions),
    Archive(ArchiveOptions),
}

impl PackageSourceContents {
    pub fn as_archive(&self) -> (r: Option<&ArchiveOptions>)
        ensures
            match self {
                PackageSourceContents::FontFile(_) => r is None,
                PackageSourceContents::Archive(options) => r == Some(options),
            },
    {
        match self {
            PackageSourceContents::FontFile(_) => None,
            PackageSourceContents::Archive(options) => Some(options),
        }
    }
}

/// A download that provides some of a package's fonts.
#[derive(Debug, Clone, PartialEq, Eq, Hash)]
pub struct PackageSource {
    pub url: HttpUrl,
    pub hash: GenericDigest,
    pub contents: PackageSourceContents,
}

/// A package as a registry or a manifest file defines it.
#[derive(Debug, PartialEq, Eq, Hash)]
pub struct PackageDefinition {
    pub id: PackageId,
    pub display_name: Option<String>,
    pub description: Option<String>,
    pub aliases: Vec<String>,
    pub homepage: Option<String>,
    pub repository: Option<String>,
    pub license: Option<String>,
    pub sources: Vec<PackageSource>,
}

impl Clone for PackageDefinition {
    /// A copy with the same ID and the same contents, field by field.
    fn clone(&self) -> (r: Self)
        ensures
            r.id == self.id,
            super::equality::definition_view(r) == super::equality::definition_view(*self),
    {
        super::equality::copy_definition(self)
    }
}

impl PackageDefinition {
    pub open spec fn wf(&self) -> bool {
        self.id.wf()
    }

    pub open spec fn id_view(&self) -> PackageIdView {
        self.id@
    }
}

} // verus!
