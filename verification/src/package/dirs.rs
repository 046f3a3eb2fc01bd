//! Where a package's files live, and the directory operations that create
//! and remove them.
use vstd::prelude::*;

use super::file_name::FileName;
use super::qualified_name::PackageQualifiedName;
use super::version::PackageVersion;

verus! {

pub open spec fn is_path_separator(c: char) -> bool {
    c == '\\' || c == '/'
}

/// `base` extended by one component, with a `\` between them unless `base`
/// already ends with a separator.
pub open spec fn path_join(base: Seq<char>, component: Seq<char>) -> Seq<char> {
    if base.len() > 0 && is_path_separator(base.last()) {
        base + component
    } else {
        base + seq!['\\'] + component
    }
}

/// Extends a path by one component.
pub fn join_path(base: &str, component: &str) -> (r: String)
    ensures
        r@ == path_join(base@, component@),
{
    let n = base.unicode_len();
    let mut s = base.to_owned();
    if n > 0 && (base.get_char(n - 1) == '\\' || base.get_char(n - 1) == '/') {
        s.append(component);
    } else {
        proof {
            reveal_strlit("\\");
        }
        s.append("\\");
        s.append(component);
    }
    s
}

/// The directories of one package version, under the data directory:
/// `packages\<namespace>\<name>\<version>\fonts`.
#[derive(Debug, Clone, PartialEq, Eq)]
pub struct PackageDirs {
    namespace_dir: String,
    name_dir: String,
    version_dir: String,
    fonts_dir: String,
}

pub struct PackageDirsView {
    pub namespace_dir: Seq<char>,
    pub name_dir: Seq<char>,
    pub version_dir: Seq<char>,
    pub fonts_dir: Seq<char>,
}

impl View for PackageDirs {
    type V = PackageDirsView;

    closed spec fn view(&self) -> PackageDirsView {
        PackageDirsView {
            namespace_dir: self.namespace_dir@,
            name_dir: self.name_dir@,
            version_dir: self.version_dir@,
            fonts_dir: self.fonts_dir@,
        }
    }
}

/// The directories of the package `name` at `version` under `data_dir`.
pub open spec fn package_dirs_at(data_dir: Seq<char>, name: (Seq<char>, Seq<char>), version: Seq<char>) -> PackageDirsView {
    let namespace_dir = path_join(path_join(data_dir, seq!['p', 'a', 'c', 'k', 'a', 'g', 'e', 's']), name.0);
    let name_dir = path_join(namespace_dir, name.1);
    let version_dir = path_join(name_dir, version);
    PackageDirsView {
        namespace_dir,
        name_dir,
        version_dir,
        fonts_dir: path_join(version_dir, seq!['f', 'o', 'n', 't', 's']),
    }
}

impl PackageDirs {
    pub fn new(data_local_dir: &str, name: &PackageQualifiedName, version: &PackageVersion) -> (r: PackageDirs)
        ensures
            r@ == package_dirs_at(data_local_dir@, name@, version@),
    {
        proof {
            reveal_strlit("packages");
            reveal_strlit("fonts");
        }
        let base = join_path(data_local_dir, "packages");
        let namespace_dir = join_path(base.as_str(), name.namespace().as_str());
        let name_dir = join_path(namespace_dir.as_str(), name.name().as_str());
        let version_dir = join_path(name_dir.as_str(), version.as_str());
        let fonts_dir = join_path(version_dir.as_str(), "fonts");
        proof {
            assert("packages"@ =~= seq!['p', 'a', 'c', 'k', 'a', 'g', 'e', 's']);
            assert("fonts"@ =~= seq!['f', 'o', 'n', 't', 's']);
        }
        PackageDirs { namespace_dir, name_dir, version_dir, fonts_dir }
    }

    pub fn namespace_dir(&self) -> (r: &str)
        ensures
            r@ == self@.namespace_dir,
    {
        self.namespace_dir.as_str()
    }

    pub fn name_dir(&self) -> (r: &str)
        ensures
            r@ == self@.name_dir,
    {
        self.name_dir.as_str()
    }

    pub fn version_dir(&self) -> (r: &str)
        ensures
            r@ == self@.version_dir,
    {
        self.version_dir.as_str()
    }

    pub fn fonts_dir(&self) -> (r: &str)
        ensures
            r@ == self@.fonts_dir,
    {
        self.fonts_dir.as_str()
    }
}

/// One directory operation.
#[derive(Debug, Clone, PartialEq, Eq)]
pub enum DirOp {
    /// Create the directory and its missing parents.
    CreateAll(String),
    /// Create the directory; fails when it exists already.
    CreateNew(String),
    /// Remove the directory with its contents, if it exists.
    RemoveTree(String),
    /// Remove the directory if it is empty or missing; when it is not empty,
    /// stop: the operations after it are not carried out.
    RemoveIfEmpty(String),
}

pub enum DirOpView {
    CreateAll(Seq<char>),
    CreateNew(Seq<char>),
    RemoveTree(Seq<char>),
    RemoveIfEmpty(Seq<char>),
}

impl View for DirOp {
    type V = DirOpView;

    open spec fn view(&self) -> DirOpView {
        match self {
            DirOp::CreateAll(p) => DirOpView::CreateAll(p@),
            DirOp::CreateNew(p) => DirOpView::CreateNew(p@),
            DirOp::RemoveTree(p) => DirOpView::RemoveTree(p@),
            DirOp::RemoveIfEmpty(p) => DirOpView::RemoveIfEmpty(p@),
        }
    }
}

/// Creating a package's directories: the name directory with its parents,
/// then the version directory, which must be new so that an installed
/// version is never overwritten, then the fonts directory.
pub fn create_new_package_dirs(dirs: &PackageDirs) -> (r: Vec<DirOp>)
    ensures
        r@.map_values(|o: DirOp| o@) == seq![
            DirOpView::CreateAll(dirs@.name_dir),
            DirOpView::CreateNew(dirs@.version_dir),
            DirOpView::CreateNew(dirs@.fonts_dir),
        ],
{
    let mut r: Vec<DirOp> = Vec::new();
    r.push(DirOp::CreateAll(dirs.name_dir.clone()));
    r.push(DirOp::CreateNew(dirs.version_dir.clone()));
    r.push(DirOp::CreateNew(dirs.fonts_dir.clone()));
    assert(r@.map_values(|o: DirOp| o@) =~= seq![
        DirOpView::CreateAll(dirs@.name_dir),
        DirOpView::CreateNew(dirs@.version_dir),
        DirOpView::CreateNew(dirs@.fonts_dir),
    ]);
    r
}

/// Removing a package's directories: the fonts directory with its
/// contents, then the version, name and namespace directories while each is
/// empty, so that other versions and packages stay.
pub fn remove_package_dirs(dirs: &PackageDirs) -> (r: Vec<DirOp>)
    ensures
        r@.map_values(|o: DirOp| o@) == seq![
            DirOpView::RemoveTree(dirs@.fonts_dir),
            DirOpView::RemoveIfEmpty(dirs@.version_dir),
            DirOpView::RemoveIfEmpty(dirs@.name_dir),
            DirOpView::RemoveIfEmpty(dirs@.namespace_dir),
        ],
{
    let mut r: Vec<DirOp> = Vec::new();
    r.push(DirOp::RemoveTree(dirs.fonts_dir.clone()));
    r.push(DirOp::RemoveIfEmpty(dirs.version_dir.clone()));
    r.push(DirOp::RemoveIfEmpty(dirs.name_dir.clone()));
    r.push(DirOp::RemoveIfEmpty(dirs.namespace_dir.clone()));
    assert(r@.map_values(|o: DirOp| o@) =~= seq![
        DirOpView::RemoveTree(dirs@.fonts_dir),
        DirOpView::RemoveIfEmpty(dirs@.version_dir),
        DirOpView::RemoveIfEmpty(dirs@.name_dir),
        DirOpView::RemoveIfEmpty(dirs@.namespace_dir),
    ]);
    r
}

/// A font file of an installed package.
#[derive(Debug, Clone, PartialEq, Eq)]
pub struct PackageFont {
    file_name: FileName,
}

impl View for PackageFont {
    type V = Seq<char>;

    closed spec fn view(&self) -> Seq<char> {
        self.file_name@
    }
}

impl PackageFont {
    pub fn new(file_name: FileName) -> (r: PackageFont)
        ensures
            r@ == file_name@,
    {
        PackageFont { file_name }
    }

    pub fn file_name(&self) -> (r: &FileName)
        ensures
            r@ == self@,
    {
        &self.file_name
    }

    /// Where the font lies: in the package's fonts directory.
    pub fn path(&self, pkg_dirs: &PackageDirs) -> (r: String)
        ensures
            r@ == path_join(pkg_dirs@.fonts_dir, self@),
    {
        join_path(pkg_dirs.fonts_dir(), self.file_name.as_str())
    }
}

} // verus!
