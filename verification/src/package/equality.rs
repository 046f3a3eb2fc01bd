//! Equality of package definitions, field by field, used to tell identical
//! definitions of a package ID from different ones.
use vstd::prelude::*;

use super::definition::{
    ArchiveOptions, FontFileOptions, PackageDefinition, PackageSource, PackageSourceContents,
};
use super::file_name::FileName;
use super::id::PackageIdView;
use super::rule::{FontRule, FontRuleView, IgnoreRule, PathMatcher, PathMatcherView};
use crate::text::str_eq;

verus! {

pub enum ContentsView {
    FontFile { file_name: Option<Seq<char>> },
    Archive { fonts: Seq<FontRuleView>, ignore: Seq<PathMatcherView> },
}

pub struct SourceView {
    pub url: Seq<char>,
    pub hash: Seq<u8>,
    pub contents: ContentsView,
}

/// Everything a package definition holds, as plain values.
pub struct DefinitionView {
    pub id: PackageIdView,
    pub display_name: Option<Seq<char>>,
    pub description: Option<Seq<char>>,
    pub aliases: Seq<Seq<char>>,
    pub homepage: Option<Seq<char>>,
    pub repository: Option<Seq<char>>,
    pub license: Option<Seq<char>>,
    pub sources: Seq<SourceView>,
}

pub open spec fn opt_text(o: Option<String>) -> Option<Seq<char>> {
    match o {
        Some(s) => Some(s@),
        None => None,
    }
}

pub open spec fn opt_file_name(o: Option<FileName>) -> Option<Seq<char>> {
    match o {
        Some(f) => Some(f@),
        None => None,
    }
}

pub open spec fn contents_view(c: PackageSourceContents) -> ContentsView {
    match c {
        PackageSourceContents::FontFile(o) => ContentsView::FontFile { file_name: opt_file_name(o.file_name) },
        PackageSourceContents::Archive(o) => ContentsView::Archive {
            fonts: o.fonts@.map_values(|r: FontRule| r@),
            ignore: o.ignore@.map_values(|r: IgnoreRule| r@),
        },
    }
}

pub open spec fn source_view(s: PackageSource) -> SourceView {
    SourceView { url: s.url@, hash: s.hash@, contents: contents_view(s.contents) }
}

pub open spec fn definition_view(p: PackageDefinition) -> DefinitionView {
    DefinitionView {
        id: p.id@,
        display_name: opt_text(p.display_name),
        description: opt_text(p.description),
        aliases: p.aliases@.map_values(|a: String| a@),
        homepage: opt_text(p.homepage),
        repository: opt_text(p.repository),
        license: opt_text(p.license),
        sources: p.sources@.map_values(|s: PackageSource| source_view(s)),
    }
}

fn same_opt_text(a: &Option<String>, b: &Option<String>) -> (r: bool)
    ensures
        r == (opt_text(*a) == opt_text(*b)),
{
    match (a, b) {
        (Some(x), Some(y)) => str_eq(x.as_str(), y.as_str()),
        (None, None) => true,
        _ => false,
    }
}

fn same_opt_file_name(a: &Option<FileName>, b: &Option<FileName>) -> (r: bool)
    ensures
        r == (opt_file_name(*a) == opt_file_name(*b)),
{
    match (a, b) {
        (Some(x), Some(y)) => str_eq(x.as_str(), y.as_str()),
        (None, None) => true,
        _ => false,
    }
}

fn same_texts(a: &Vec<String>, b: &Vec<String>) -> (r: bool)
    ensures
        r == (a@.map_values(|s: String| s@) == b@.map_values(|s: String| s@)),
{
    let ghost av = a@.map_values(|s: String| s@);
    let ghost bv = b@.map_values(|s: String| s@);
    if a.len() != b.len() {
        assert(av.len() != bv.len());
        return false;
    }
    let mut i: usize = 0;
    while i < a.len()
        invariant
            i <= a@.len(),
            a@.len() == b@.len(),
            av == a@.map_values(|s: String| s@),
            bv == b@.map_values(|s: String| s@),
            forall|j: int| 0 <= j < i ==> av[j] == bv[j],
        decreases a@.len() - i,
    {
        if !str_eq(a[i].as_str(), b[i].as_str()) {
            assert(av[i as int] != bv[i as int]);
            return false;
        }
        i = i + 1;
    }
    assert(av =~= bv);
    true
}

fn same_matcher(a: &PathMatcher, b: &PathMatcher) -> (r: bool)
    ensures
        r == (a@ == b@),
{
    match (a, b) {
        (PathMatcher::Path(x), PathMatcher::Path(y)) => str_eq(x.as_str(), y.as_str()),
        (PathMatcher::Glob(x), PathMatcher::Glob(y)) => str_eq(x.as_str(), y.as_str()),
        _ => false,
    }
}

fn same_font_rules(a: &Vec<FontRule>, b: &Vec<FontRule>) -> (r: bool)
    ensures
        r == (a@.map_values(|x: FontRule| x@) == b@.map_values(|x: FontRule| x@)),
{
    let ghost av = a@.map_values(|x: FontRule| x@);
    let ghost bv = b@.map_values(|x: FontRule| x@);
    if a.len() != b.len() {
        assert(av.len() != bv.len());
        return false;
    }
    let mut i: usize = 0;
    while i < a.len()
        invariant
            i <= a@.len(),
            a@.len() == b@.len(),
            av == a@.map_values(|x: FontRule| x@),
            bv == b@.map_values(|x: FontRule| x@),
            forall|j: int| 0 <= j < i ==> av[j] == bv[j],
        decreases a@.len() - i,
    {
        let same_name = match (a[i].file_name(), b[i].file_name()) {
            (Some(x), Some(y)) => str_eq(x.as_str(), y.as_str()),
            (None, None) => true,
            _ => false,
        };
        if !same_matcher(a[i].matcher(), b[i].matcher()) || !same_name {
            assert(av[i as int] != bv[i as int]);
            return false;
        }
        assert(av[i as int] == bv[i as int]);
        i = i + 1;
    }
    assert(av =~= bv);
    true
}

fn same_ignore_rules(a: &Vec<IgnoreRule>, b: &Vec<IgnoreRule>) -> (r: bool)
    ensures
        r == (a@.map_values(|x: IgnoreRule| x@) == b@.map_values(|x: IgnoreRule| x@)),
{
    let ghost av = a@.map_values(|x: IgnoreRule| x@);
    let ghost bv = b@.map_values(|x: IgnoreRule| x@);
    if a.len() != b.len() {
        assert(av.len() != bv.len());
        return false;
    }
    let mut i: usize = 0;
    while i < a.len()
        invariant
            i <= a@.len(),
            a@.len() == b@.len(),
            av == a@.map_values(|x: IgnoreRule| x@),
            bv == b@.map_values(|x: IgnoreRule| x@),
            forall|j: int| 0 <= j < i ==> av[j] == bv[j],
        decreases a@.len() - i,
    {
        if !same_matcher(a[i].matcher(), b[i].matcher()) {
            assert(av[i as int] != bv[i as int]);
            return false;
        }
        i = i + 1;
    }
    assert(av =~= bv);
    true
}

fn same_source(a: &PackageSource, b: &PackageSource) -> (r: bool)
    ensures
        r == (source_view(*a) == source_view(*b)),
{
    if !str_eq(a.url.as_str(), b.url.as_str()) || !b.hash.matches_bytes(a.hash.as_bytes()) {
        return false;
    }
    match (&a.contents, &b.contents) {
        (PackageSourceContents::FontFile(x), PackageSourceContents::FontFile(y)) => same_opt_file_name(&x.file_name, &y.file_name),
        (PackageSourceContents::Archive(x), PackageSourceContents::Archive(y)) => same_font_rules(&x.fonts, &y.fonts) && same_ignore_rules(&x.ignore, &y.ignore),
        _ => false,
    }
}

/// Whether two definitions hold the same values in every field.
pub fn same_definition(a: &PackageDefinition, b: &PackageDefinition) -> (r: bool)
    ensures
        r == (definition_view(*a) == definition_view(*b)),
{
    if !a.id.equals(&b.id) || !same_opt_text(&a.display_name, &b.display_name)
        || !same_opt_text(&a.description, &b.description) || !same_texts(&a.aliases, &b.aliases)
        || !same_opt_text(&a.homepage, &b.homepage) || !same_opt_text(&a.repository, &b.repository)
        || !same_opt_text(&a.license, &b.license) {
        return false;
    }
    let ghost av = a.sources@.map_values(|s: PackageSource| source_view(s));
    let ghost bv = b.sources@.map_values(|s: PackageSource| source_view(s));
    if a.sources.len() != b.sources.len() {
        assert(av.len() != bv.len());
        return false;
    }
    let mut i: usize = 0;
    while i < a.sources.len()
        invariant
            i <= a.sources@.len(),
            a.sources@.len() == b.sources@.len(),
            av == a.sources@.map_values(|s: PackageSource| source_view(s)),
            bv == b.sources@.map_values(|s: PackageSource| source_view(s)),
            forall|j: int| 0 <= j < i ==> av[j] == bv[j],
        decreases a.sources@.len() - i,
    {
        if !same_source(&a.sources[i], &b.sources[i]) {
            assert(av[i as int] != bv[i as int]);
            return false;
        }
        i = i + 1;
    }
    assert(av =~= bv);
    true
}

fn copy_opt_text(o: &Option<String>) -> (r: Option<String>)
    ensures
        opt_text(r) == opt_text(*o),
{
    match o {
        Some(s) => Some(s.clone()),
        None => None,
    }
}

fn copy_texts(v: &Vec<String>) -> (r: Vec<String>)
    ensures
        r@.map_values(|s: String| s@) == v@.map_values(|s: String| s@),
{
    let mut r: Vec<String> = Vec::new();
    let mut i: usize = 0;
    while i < v.len()
        invariant
            i <= v@.len(),
            r@.map_values(|s: String| s@) == v@.take(i as int).map_values(|s: String| s@),
        decreases v@.len() - i,
    {
        let ghost rv = r@;
        r.push(v[i].clone());
        proof {
            assert(r@.map_values(|s: String| s@) =~= rv.map_values(|s: String| s@).push(v@[i as int]@));
            assert(v@.take(i + 1).map_values(|s: String| s@) =~= v@.take(i as int).map_values(|s: String| s@).push(v@[i as int]@));
        }
        i = i + 1;
    }
    proof {
        assert(v@.take(v@.len() as int) =~= v@);
    }
    r
}

fn copy_font_rules(v: &Vec<FontRule>) -> (r: Vec<FontRule>)
    ensures
        r@.map_values(|x: FontRule| x@) == v@.map_values(|x: FontRule| x@),
{
    let mut r: Vec<FontRule> = Vec::new();
    let mut i: usize = 0;
    while i < v.len()
        invariant
            i <= v@.len(),
            r@.map_values(|x: FontRule| x@) == v@.take(i as int).map_values(|x: FontRule| x@),
        decreases v@.len() - i,
    {
        let ghost rv = r@;
        r.push(v[i].clone());
        proof {
            assert(r@.map_values(|x: FontRule| x@) =~= rv.map_values(|x: FontRule| x@).push(v@[i as int]@));
            assert(v@.take(i + 1).map_values(|x: FontRule| x@) =~= v@.take(i as int).map_values(|x: FontRule| x@).push(v@[i as int]@));
        }
        i = i + 1;
    }
    proof {
        assert(v@.take(v@.len() as int) =~= v@);
    }
    r
}

fn copy_ignore_rules(v: &Vec<IgnoreRule>) -> (r: Vec<IgnoreRule>)
    ensures
        r@.map_values(|x: IgnoreRule| x@) == v@.map_values(|x: IgnoreRule| x@),
{
    let mut r: Vec<IgnoreRule> = Vec::new();
    let mut i: usize = 0;
    while i < v.len()
        invariant
            i <= v@.len(),
            r@.map_values(|x: IgnoreRule| x@) == v@.take(i as int).map_values(|x: IgnoreRule| x@),
        decreases v@.len() - i,
    {
        let ghost rv = r@;
        r.push(v[i].clone());
        proof {
            assert(r@.map_values(|x: IgnoreRule| x@) =~= rv.map_values(|x: IgnoreRule| x@).push(v@[i as int]@));
            assert(v@.take(i + 1).map_values(|x: IgnoreRule| x@) =~= v@.take(i as int).map_values(|x: IgnoreRule| x@).push(v@[i as int]@));
        }
        i = i + 1;
    }
    proof {
        assert(v@.take(v@.len() as int) =~= v@);
    }
    r
}

fn copy_source(s: &PackageSource) -> (r: PackageSource)
    ensures
        source_view(r) == source_view(*s),
{
    let contents = match &s.contents {
        PackageSourceContents::FontFile(o) => PackageSourceContents::FontFile(FontFileOptions {
            file_name: match &o.file_name {
                Some(f) => Some(f.clone()),
                None => None,
            },
        }),
        PackageSourceContents::Archive(o) => PackageSourceContents::Archive(ArchiveOptions {
            fonts: copy_font_rules(&o.fonts),
            ignore: copy_ignore_rules(&o.ignore),
        }),
    };
    PackageSource { url: s.url.clone(), hash: s.hash.clone(), contents }
}

/// A copy holding the same values in every field.
pub fn copy_definition(p: &PackageDefinition) -> (r: PackageDefinition)
    ensures
        definition_view(r) == definition_view(*p),
        r.id == p.id,
{
    let mut sources: Vec<PackageSource> = Vec::new();
    let mut i: usize = 0;
    while i < p.sources.len()
        invariant
            i <= p.sources@.len(),
            sources@.map_values(|s: PackageSource| source_view(s)) == p.sources@.take(i as int).map_values(|s: PackageSource| source_view(s)),
        decreases p.sources@.len() - i,
    {
        let ghost rv = sources@;
        let c = copy_source(&p.sources[i]);
        sources.push(c);
        proof {
            assert(sources@.map_values(|s: PackageSource| source_view(s)) =~= rv.map_values(|s: PackageSource| source_view(s)).push(source_view(p.sources@[i as int])));
            assert(p.sources@.take(i + 1).map_values(|s: PackageSource| source_view(s)) =~= p.sources@.take(i as int).map_values(|s: PackageSource| source_view(s)).push(source_view(p.sources@[i as int])));
        }
        i = i + 1;
    }
    proof {
        assert(p.sources@.take(p.sources@.len() as int) =~= p.sources@);
    }
    PackageDefinition {
        id: p.id.clone(),
        display_name: copy_opt_text(&p.display_name),
        description: copy_opt_text(&p.description),
        aliases: copy_texts(&p.aliases),
        homepage: copy_opt_text(&p.homepage),
        repository: copy_opt_text(&p.repository),
        license: copy_opt_text(&p.license),
        sources,
    }
}

} // verus!
