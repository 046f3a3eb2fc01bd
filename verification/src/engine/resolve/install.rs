//! Resolution of install requests: manifests, installed packages and the
//! registries' packages.
use vstd::prelude::*;

use super::common::{candidate_indices, errs, group_positions, oks, position_groups, position_views};
use super::installed::spec_views;
use crate::db::{EntryView, PackageDatabase};
use crate::engine::target::{
    dedup_by_key, lemma_dedup_map, InstallResolutionDetail, InstallTargetKind,
    ResolvedInstallTarget,
};
use crate::package::definition::PackageDefinition;
use crate::package::equality::{copy_definition, definition_view, same_definition, DefinitionView};
use crate::package::id::{id_order, valid_package_id, PackageId, PackageIdView};
use crate::package::spec::{spec_selects, PackageSpec, PackageSpecView};
use crate::package::state::InstallationState;
use crate::package::version::semver_order;
use crate::registry::{latest_candidate, RegistryId, RegistryIndex, RegistrySpec};
use crate::text::{compare_str, lex_order, str_eq, Order};

verus! {

/// What an install request names: a manifest file already read, or a
/// package specifier.
#[derive(Debug)]
pub enum InstallResolveInput {
    Manifest { path: String, pkg: PackageDefinition },
    PackageSpec { pkg_spec: PackageSpec },
}

#[derive(Debug)]
pub struct InstallResolveOptions {
    pub registries: Vec<RegistrySpec>,
    pub include_pre_release: bool,
    pub should_activate: bool,
}

/// Why an install request could not be resolved.
#[derive(Debug)]
pub enum InstallResolveError {
    MultipleMatchingPackagesInRegistries { pkg_spec: PackageSpec, pkg_ids: Vec<(RegistryId, PackageId)> },
    NoRegistriesForSpecResolution { pkg_spec: PackageSpec },
    PackageNotFoundForSpec { pkg_spec: PackageSpec },
    ConflictingInstalls { pkg_ids: Vec<(InstallResolutionDetail, PackageId)> },
    ConflictingActivations { pkg_ids: Vec<(InstallResolutionDetail, PackageId)> },
}

pub enum DetailView {
    Registry { reg_id: Seq<char>, pkg_spec: PackageSpecView },
    Installed { pkg_spec: PackageSpecView },
    ManifestFile { path: Seq<char> },
}

pub open spec fn detail_view(d: InstallResolutionDetail) -> DetailView {
    match d {
        InstallResolutionDetail::Registry { reg_id, pkg_spec } => DetailView::Registry { reg_id: reg_id@, pkg_spec: pkg_spec@ },
        InstallResolutionDetail::Installed { pkg_spec } => DetailView::Installed { pkg_spec: pkg_spec@ },
        InstallResolutionDetail::ManifestFile { path } => DetailView::ManifestFile { path: path@ },
    }
}

pub enum KindView {
    AlreadyInstalled { pkg_id: PackageIdView },
    Install { pkg: DefinitionView },
}

pub open spec fn kind_view(k: InstallTargetKind) -> KindView {
    match k {
        InstallTargetKind::AlreadyInstalled { pkg_id } => KindView::AlreadyInstalled { pkg_id: pkg_id@ },
        InstallTargetKind::Install { pkg } => KindView::Install { pkg: definition_view(pkg) },
    }
}

pub open spec fn kind_id(k: KindView) -> PackageIdView {
    match k {
        KindView::AlreadyInstalled { pkg_id } => pkg_id,
        KindView::Install { pkg } => pkg.id,
    }
}

pub struct InstallTargetView {
    pub kind: KindView,
    pub detail: DetailView,
    pub should_activate: bool,
}

pub open spec fn install_target_view(t: ResolvedInstallTarget) -> InstallTargetView {
    InstallTargetView { kind: kind_view(t.kind), detail: detail_view(t.detail), should_activate: t.should_activate }
}

pub open spec fn install_target_views(ts: Seq<ResolvedInstallTarget>) -> Seq<InstallTargetView> {
    ts.map_values(|t: ResolvedInstallTarget| install_target_view(t))
}

pub enum InstallErrorView {
    MultipleMatchingPackagesInRegistries { pkg_spec: PackageSpecView, pkg_ids: Seq<(Seq<char>, PackageIdView)> },
    NoRegistriesForSpecResolution { pkg_spec: PackageSpecView },
    PackageNotFoundForSpec { pkg_spec: PackageSpecView },
    ConflictingInstalls { pkg_ids: Seq<(DetailView, PackageIdView)> },
    ConflictingActivations { pkg_ids: Seq<(DetailView, PackageIdView)> },
}

impl View for InstallResolveError {
    type V = InstallErrorView;

    open spec fn view(&self) -> InstallErrorView {
        match self {
            InstallResolveError::MultipleMatchingPackagesInRegistries { pkg_spec, pkg_ids } => InstallErrorView::MultipleMatchingPackagesInRegistries {
                pkg_spec: pkg_spec@,
                pkg_ids: pkg_ids@.map_values(|p: (RegistryId, PackageId)| (p.0@, p.1@)),
            },
            InstallResolveError::NoRegistriesForSpecResolution { pkg_spec } => InstallErrorView::NoRegistriesForSpecResolution { pkg_spec: pkg_spec@ },
            InstallResolveError::PackageNotFoundForSpec { pkg_spec } => InstallErrorView::PackageNotFoundForSpec { pkg_spec: pkg_spec@ },
            InstallResolveError::ConflictingInstalls { pkg_ids } => InstallErrorView::ConflictingInstalls {
                pkg_ids: pkg_ids@.map_values(|p: (InstallResolutionDetail, PackageId)| (detail_view(p.0), p.1@)),
            },
            InstallResolveError::ConflictingActivations { pkg_ids } => InstallErrorView::ConflictingActivations {
                pkg_ids: pkg_ids@.map_values(|p: (InstallResolutionDetail, PackageId)| (detail_view(p.0), p.1@)),
            },
        }
    }
}

pub open spec fn install_error_views(es: Seq<InstallResolveError>) -> Seq<InstallErrorView> {
    es.map_values(|e: InstallResolveError| e@)
}

/// The index of the latest installed package that the specifier selects
/// among the first `n` entries; a later one replaces the best so far unless
/// it is older.
pub open spec fn latest_installed(s: Seq<EntryView>, spec: PackageSpecView, n: int) -> Option<int>
    decreases n,
{
    if n <= 0 {
        None
    } else {
        let best = latest_installed(s, spec, n - 1);
        if spec_selects(spec, s[n - 1].id) && s[n - 1].installation == InstallationState::Installed && (best is None
            || semver_order(s[n - 1].id.1, s[best->0].id.1) >= 0) {
            Some(n - 1)
        } else {
            best
        }
    }
}

/// Entry `k` is an installed package that the specifier selects.
pub open spec fn installed_match(s: Seq<EntryView>, spec: PackageSpecView, k: int) -> bool {
    spec_selects(spec, s[k].id) && s[k].installation == InstallationState::Installed
}

/// A specifier resolved against the installed packages, or not.
#[derive(Debug)]
pub enum ResolveState {
    Resolved(ResolvedInstallTarget),
    Unresolved { pkg_spec: PackageSpec },
}

/// The latest installed package that the specifier selects, if any.
pub fn resolve_spec_from_installed_packages(db: &PackageDatabase, pkg_spec: &PackageSpec, options: &InstallResolveOptions) -> (r: ResolveState)
    requires
        db.wf(),
    ensures
        match (r, latest_installed(db@, pkg_spec@, db@.len() as int)) {
            (ResolveState::Resolved(t), Some(i)) => install_target_view(t) == (InstallTargetView {
                kind: KindView::AlreadyInstalled { pkg_id: db@[i].id },
                detail: DetailView::Installed { pkg_spec: pkg_spec@ },
                should_activate: options.should_activate,
            }) && t.kind.wf(),
            (ResolveState::Unresolved { pkg_spec: s }, None) => s@ == pkg_spec@,
            _ => false,
        },
        r is Unresolved <==> forall|k: int| 0 <= k < db@.len() ==> !#[trigger] installed_match(db@, pkg_spec@, k),
        r matches ResolveState::Resolved(t) ==> {
            let found = t.kind.pkg_id_view();
            &&& t.kind is AlreadyInstalled
            &&& exists|i: int| 0 <= i < db@.len() && #[trigger] installed_match(db@, pkg_spec@, i) && db@[i].id == found
            &&& forall|k: int|
                0 <= k < db@.len() && #[trigger] installed_match(db@, pkg_spec@, k) && db@[k].id.1 != found.1
                    ==> semver_order(db@[k].id.1, found.1) <= 0
        },
{
    let mut best: Option<usize> = None;
    let mut i: usize = 0;
    while i < db.len()
        invariant
            i <= db@.len(),
            db.wf(),
            match (best, latest_installed(db@, pkg_spec@, i as int)) {
                (Some(b), Some(v)) => b < i && b == v,
                (None, None) => true,
                _ => false,
            },
            best matches Some(b) ==> installed_match(db@, pkg_spec@, b as int),
            forall|k: int|
                0 <= k < i && #[trigger] installed_match(db@, pkg_spec@, k) ==> (best matches Some(b) && (db@[k].id.1
                    == db@[b as int].id.1 || semver_order(db@[k].id.1, db@[b as int].id.1) <= 0)),
        decreases db@.len() - i,
    {
        let e = db.entry(i);
        if pkg_spec.selects(e.id()) && e.installation_state().is_installed() {
            let replace = match best {
                None => true,
                Some(b) => {
                    assert(valid_package_id(db@[b as int].id));
                    assert(valid_package_id(db@[i as int].id));
                    !matches!(e.id().version().compare(db.entry(b).id().version()), Order::Less)
                },
            };
            if replace {
                best = Some(i);
            }
        }
        i = i + 1;
    }
    match best {
        Some(b) => {
            let id = db.entry(b).id().clone();
            assert(valid_package_id(db@[b as int].id));
            ResolveState::Resolved(ResolvedInstallTarget {
                kind: InstallTargetKind::AlreadyInstalled { pkg_id: id },
                detail: InstallResolutionDetail::Installed { pkg_spec: pkg_spec.clone() },
                should_activate: options.should_activate,
            })
        },
        None => ResolveState::Unresolved { pkg_spec: pkg_spec.clone() },
    }
}

/// The registries' indexes, fetched when first needed.
#[derive(Debug)]
pub struct LazyRegistryIndexes {
    registries: Vec<RegistrySpec>,
    indexes: Option<Vec<RegistryIndex>>,
}

pub open spec fn indexes_wf(v: Seq<RegistryIndex>) -> bool {
    forall|k: int| 0 <= k < v.len() ==> (#[trigger] v[k]).wf()
}

/// What a call of `get_or_fetch` does to indexes fetched before it: keeps
/// them as they are.
pub open spec fn keeps_fetched(before: Option<Seq<RegistryIndex>>, after: Option<Seq<RegistryIndex>>) -> bool {
    before is Some ==> after == before
}

/// Once indexes are fetched, every later call gives back the same indexes:
/// over the states a run of calls goes through, each call keeping what was
/// fetched before it, the indexes first fetched stay.
pub proof fn law_fetched_indexes_stay(states: Seq<Option<Seq<RegistryIndex>>>, first: int, k: int)
    requires
        forall|i: int| 0 <= i < states.len() - 1 ==> keeps_fetched(#[trigger] states[i], states[i + 1]),
        0 <= first <= k < states.len(),
        states[first] is Some,
    ensures
        states[k] == states[first],
    decreases k - first,
{
    if k > first {
        law_fetched_indexes_stay(states, first, k - 1);
        assert(keeps_fetched(states[k - 1], states[k]));
    }
}

impl LazyRegistryIndexes {
    pub closed spec fn registries(&self) -> Seq<RegistrySpec> {
        self.registries@
    }

    pub closed spec fn registry_list(&self) -> Vec<RegistrySpec> {
        self.registries
    }

    pub closed spec fn fetched(&self) -> Option<Seq<RegistryIndex>> {
        match self.indexes {
            Some(v) => Some(v@),
            None => None,
        }
    }

    pub open spec fn wf(&self) -> bool {
        self.fetched() matches Some(v) ==> indexes_wf(v)
    }

    /// Nothing fetched yet.
    pub fn new(registries: Vec<RegistrySpec>) -> (r: LazyRegistryIndexes)
        ensures
            r.registries() == registries@,
            r.fetched() is None,
    {
        LazyRegistryIndexes { registries, indexes: None }
    }

    /// Indexes given up front.
    pub fn new_for_test(indexes: Vec<RegistryIndex>) -> (r: LazyRegistryIndexes)
        ensures
            r.registries() == Seq::<RegistrySpec>::empty(),
            r.fetched() == Some(indexes@),
    {
        LazyRegistryIndexes { registries: Vec::new(), indexes: Some(indexes) }
    }

    /// Fetches the indexes unless that was done: `fetch` receives the
    /// registries, and its failure leaves nothing fetched.
    pub fn get_or_fetch<F, E>(&mut self, fetch: F) -> (r: Result<(), E>)
        where
            F: FnOnce(&Vec<RegistrySpec>) -> Result<Vec<RegistryIndex>, E>,
        requires
            fetch.requires((&old(self).registry_list(),)),
            old(self).wf(),
            forall|res: Result<Vec<RegistryIndex>, E>| #[trigger] fetch.ensures((&old(self).registry_list(),), res) ==> (res matches Ok(v) ==> indexes_wf(v@)),
        ensures
            final(self).wf(),
            final(self).registries() == old(self).registries(),
            old(self).fetched() is Some ==> r is Ok,
            keeps_fetched(old(self).fetched(), final(self).fetched()),
            old(self).fetched() is None ==> match r {
                Ok(()) => exists|v: Vec<RegistryIndex>|
                    #[trigger] fetch.ensures((&old(self).registry_list(),), Ok::<_, E>(v)) && final(self).fetched()
                        == Some(v@),
                Err(e) => fetch.ensures((&old(self).registry_list(),), Err::<Vec<RegistryIndex>, _>(e))
                    && final(self).fetched() is None,
            },
            r is Ok ==> final(self).fetched() is Some,
    {
        if self.indexes.is_none() {
            match fetch(&self.registries) {
                Ok(v) => {
                    let ghost gv = v;
                    self.indexes = Some(v);
                    assert(self.fetched() == Some(gv@));
                },
                Err(e) => return Err(e),
            }
        }
        Ok(())
    }

    /// The fetched indexes.
    pub fn indexes(&self) -> (r: Option<&Vec<RegistryIndex>>)
        ensures
            match (r, self.fetched()) {
                (Some(v), Some(w)) => v@ == w,
                (None, None) => true,
                _ => false,
            },
    {
        match &self.indexes {
            Some(v) => Some(v),
            None => None,
        }
    }
}

/// The latest package of each index that the specifier selects, with the
/// index's registry, in index order.
pub open spec fn registry_matches(indexes: Seq<RegistryIndex>, spec: PackageSpecView, include_pre_release: bool) -> Seq<(Seq<char>, PackageDefinition)>
    decreases indexes.len(),
{
    if indexes.len() == 0 {
        Seq::empty()
    } else {
        let rest = registry_matches(indexes.drop_last(), spec, include_pre_release);
        let index = indexes.last();
        match latest_candidate(index.package_ids(), spec, include_pre_release, index.package_ids().len() as int) {
            Some(i) => rest.push((index.id_view(), index.definitions()[i])),
            None => rest,
        }
    }
}

pub open spec fn match_views(ms: Seq<(RegistryId, PackageDefinition)>) -> Seq<(Seq<char>, DefinitionView)> {
    ms.map_values(|m: (RegistryId, PackageDefinition)| (m.0@, definition_view(m.1)))
}

pub open spec fn match_spec_views(ms: Seq<(Seq<char>, PackageDefinition)>) -> Seq<(Seq<char>, DefinitionView)> {
    ms.map_values(|m: (Seq<char>, PackageDefinition)| (m.0, definition_view(m.1)))
}

/// The latest matching package of each index.
pub fn collect_registry_matches(indexes: &Vec<RegistryIndex>, pkg_spec: &PackageSpec, include_pre_release: bool) -> (r: Vec<(RegistryId, PackageDefinition)>)
    requires
        indexes_wf(indexes@),
    ensures
        match_views(r@) == match_spec_views(registry_matches(indexes@, pkg_spec@, include_pre_release)),
        forall|k: int| 0 <= k < r@.len() ==> (#[trigger] r@[k]).1.wf(),
{
    let mut r: Vec<(RegistryId, PackageDefinition)> = Vec::new();
    let mut i: usize = 0;
    while i < indexes.len()
        invariant
            i <= indexes@.len(),
            indexes_wf(indexes@),
            match_views(r@) == match_spec_views(registry_matches(indexes@.take(i as int), pkg_spec@, include_pre_release)),
            forall|k: int| 0 <= k < r@.len() ==> (#[trigger] r@[k]).1.wf(),
        decreases indexes@.len() - i,
    {
        let index = &indexes[i];
        proof {
            assert(indexes@.take(i + 1).drop_last() =~= indexes@.take(i as int));
            assert(indexes@.take(i + 1).last() == *index);
            assert(index.wf());
        }
        match index.find_latest_package_by_spec(pkg_spec, include_pre_release) {
            Some(pkg) => {
                let ghost rv = r@;
                let m = (index.id().clone(), copy_definition(pkg));
                r.push(m);
                proof {
                    assert(match_views(r@) =~= match_views(rv).push((m.0@, definition_view(m.1))));
                    let ms = registry_matches(indexes@.take(i as int), pkg_spec@, include_pre_release);
                    let i0 = latest_candidate(index.package_ids(), pkg_spec@, include_pre_release, index.package_ids().len() as int)->0;
                    assert(match_spec_views(ms.push((index.id_view(), index.definitions()[i0]))) =~= match_spec_views(ms).push((index.id_view(), definition_view(index.definitions()[i0]))));
                }
            },
            None => {},
        }
        i = i + 1;
    }
    proof {
        assert(indexes@.take(indexes@.len() as int) =~= indexes@);
    }
    r
}

/// `Ok(None)` for no match, the match for one, all of them for several.
pub fn into_unique_match<T>(matches: Vec<T>) -> (r: Result<Option<T>, Vec<T>>)
    ensures
        matches@.len() == 0 ==> r == Ok::<Option<T>, Vec<T>>(None),
        matches@.len() == 1 ==> r == Ok::<Option<T>, Vec<T>>(Some(matches@[0])),
        matches@.len() > 1 ==> (r matches Err(v) && v@ == matches@),
{
    let mut matches = matches;
    if matches.len() == 0 {
        Ok(None)
    } else if matches.len() == 1 {
        Ok(matches.pop())
    } else {
        Err(matches)
    }
}

/// Resolving a specifier against the registries: the one latest match;
/// an error when no registry has one, or when several do.
pub open spec fn registry_resolution(
    indexes: Seq<RegistryIndex>,
    spec: PackageSpecView,
    include_pre_release: bool,
    should_activate: bool,
) -> Result<InstallTargetView, InstallErrorView> {
    let ms = registry_matches(indexes, spec, include_pre_release);
    if ms.len() == 0 {
        Err(InstallErrorView::PackageNotFoundForSpec { pkg_spec: spec })
    } else if ms.len() == 1 {
        Ok(InstallTargetView {
            kind: KindView::Install { pkg: definition_view(ms[0].1) },
            detail: DetailView::Registry { reg_id: ms[0].0, pkg_spec: spec },
            should_activate,
        })
    } else {
        Err(InstallErrorView::MultipleMatchingPackagesInRegistries {
            pkg_spec: spec,
            pkg_ids: ms.map_values(|m: (Seq<char>, PackageDefinition)| (m.0, m.1.id@)),
        })
    }
}

/// Resolves a specifier against the registries' indexes.
pub fn resolve_spec_from_registry(indexes: &Vec<RegistryIndex>, pkg_spec: &PackageSpec, options: &InstallResolveOptions) -> (r: Result<ResolvedInstallTarget, InstallResolveError>)
    requires
        indexes_wf(indexes@),
    ensures
        match (r, registry_resolution(indexes@, pkg_spec@, options.include_pre_release, options.should_activate)) {
            (Ok(t), Ok(v)) => install_target_view(t) == v && t.kind.wf(),
            (Err(e), Err(v)) => e@ == v,
            _ => false,
        },
{
    let matches = collect_registry_matches(indexes, pkg_spec, options.include_pre_release);
    let ghost mv = match_views(matches@);
    let ghost ms = registry_matches(indexes@, pkg_spec@, options.include_pre_release);
    proof {
        assert(mv.len() == matches@.len());
        assert(match_spec_views(ms).len() == ms.len());
    }
    let n = matches.len();
    if n == 0 {
        return Err(InstallResolveError::PackageNotFoundForSpec { pkg_spec: pkg_spec.clone() });
    }
    if n == 1 {
        let mut matches = matches;
        let (reg_id, pkg) = matches.pop().unwrap();
        proof {
            assert(mv[0] == match_spec_views(ms)[0]);
        }
        return Ok(ResolvedInstallTarget {
            kind: InstallTargetKind::Install { pkg },
            detail: InstallResolutionDetail::Registry { reg_id, pkg_spec: pkg_spec.clone() },
            should_activate: options.should_activate,
        });
    }
    let mut pkg_ids: Vec<(RegistryId, PackageId)> = Vec::new();
    let mut k: usize = 0;
    while k < n
        invariant
            k <= n,
            n == matches@.len(),
            mv == match_views(matches@),
            mv == match_spec_views(ms),
            ms.len() == n,
            pkg_ids@.map_values(|p: (RegistryId, PackageId)| (p.0@, p.1@)) == ms.take(k as int).map_values(|m: (Seq<char>, PackageDefinition)| (m.0, m.1.id@)),
        decreases n - k,
    {
        let ghost pv = pkg_ids@;
        let p = (matches[k].0.clone(), matches[k].1.id.clone());
        pkg_ids.push(p);
        proof {
            assert(mv[k as int] == match_spec_views(ms)[k as int]);
            assert(matches@[k as int].1.id@ == ms[k as int].1.id@);
            assert(pkg_ids@.map_values(|p: (RegistryId, PackageId)| (p.0@, p.1@)) =~= pv.map_values(|p: (RegistryId, PackageId)| (p.0@, p.1@)).push((p.0@, p.1@)));
            assert(ms.take(k + 1).map_values(|m: (Seq<char>, PackageDefinition)| (m.0, m.1.id@)) =~= ms.take(k as int).map_values(|m: (Seq<char>, PackageDefinition)| (m.0, m.1.id@)).push((ms[k as int].0, ms[k as int].1.id@)));
        }
        k = k + 1;
    }
    proof {
        assert(ms.take(n as int) =~= ms);
    }
    Err(InstallResolveError::MultipleMatchingPackagesInRegistries { pkg_spec: pkg_spec.clone(), pkg_ids })
}

/// Resolving one install request: a manifest is installed from its file; a
/// specifier resolves to the latest installed package it selects, or else
/// against the registries, which must have been fetched.
pub open spec fn install_target_result(
    s: Seq<EntryView>,
    input: InstallResolveInput,
    registries_empty: bool,
    include_pre_release: bool,
    should_activate: bool,
    fetched: Option<Seq<RegistryIndex>>,
) -> Result<InstallTargetView, InstallErrorView> {
    match input {
        InstallResolveInput::Manifest { path, pkg } => Ok(InstallTargetView {
            kind: KindView::Install { pkg: definition_view(pkg) },
            detail: DetailView::ManifestFile { path: path@ },
            should_activate,
        }),
        InstallResolveInput::PackageSpec { pkg_spec } => match latest_installed(s, pkg_spec@, s.len() as int) {
            Some(i) => Ok(InstallTargetView {
                kind: KindView::AlreadyInstalled { pkg_id: s[i].id },
                detail: DetailView::Installed { pkg_spec: pkg_spec@ },
                should_activate,
            }),
            None => if registries_empty {
                Err(InstallErrorView::NoRegistriesForSpecResolution { pkg_spec: pkg_spec@ })
            } else {
                registry_resolution(fetched->0, pkg_spec@, include_pre_release, should_activate)
            },
        },
    }
}

/// Whether resolving the request consults the registries.
pub open spec fn needs_registries(s: Seq<EntryView>, input: InstallResolveInput) -> bool {
    match input {
        InstallResolveInput::Manifest { .. } => false,
        InstallResolveInput::PackageSpec { pkg_spec } => latest_installed(s, pkg_spec@, s.len() as int) is None,
    }
}

pub open spec fn input_wf(input: InstallResolveInput) -> bool {
    match input {
        InstallResolveInput::Manifest { pkg, .. } => pkg.wf(),
        InstallResolveInput::PackageSpec { .. } => true,
    }
}

/// Whether some request needs the registries, which then must be fetched.
pub fn install_inputs_need_registries(db: &PackageDatabase, inputs: &Vec<InstallResolveInput>) -> (r: bool)
    requires
        db.wf(),
    ensures
        r == exists|k: int| 0 <= k < inputs@.len() && needs_registries(db@, #[trigger] inputs@[k]),
{
    let options = InstallResolveOptions { registries: Vec::new(), include_pre_release: false, should_activate: false };
    let mut i: usize = 0;
    while i < inputs.len()
        invariant
            i <= inputs@.len(),
            db.wf(),
            forall|k: int| 0 <= k < i ==> !needs_registries(db@, #[trigger] inputs@[k]),
        decreases inputs@.len() - i,
    {
        match &inputs[i] {
            InstallResolveInput::PackageSpec { pkg_spec } => {
                match resolve_spec_from_installed_packages(db, pkg_spec, &options) {
                    ResolveState::Unresolved { .. } => {
                        assert(needs_registries(db@, inputs@[i as int]));
                        return true;
                    },
                    ResolveState::Resolved(_) => {},
                }
            },
            InstallResolveInput::Manifest { .. } => {},
        }
        i = i + 1;
    }
    false
}

/// Resolves one install request.
pub fn resolve_install_target(
    db: &PackageDatabase,
    indexes: &LazyRegistryIndexes,
    target: &InstallResolveInput,
    options: &InstallResolveOptions,
) -> (r: Result<ResolvedInstallTarget, InstallResolveError>)
    requires
        db.wf(),
        indexes.wf(),
        input_wf(*target),
        needs_registries(db@, *target) && options.registries@.len() > 0 ==> indexes.fetched() is Some,
    ensures
        match (r, install_target_result(db@, *target, options.registries@.len() == 0, options.include_pre_release, options.should_activate, indexes.fetched())) {
            (Ok(t), Ok(v)) => install_target_view(t) == v && t.kind.wf(),
            (Err(e), Err(v)) => e@ == v,
            _ => false,
        },
{
    match target {
        InstallResolveInput::Manifest { path, pkg } => Ok(ResolvedInstallTarget {
            kind: InstallTargetKind::Install { pkg: copy_definition(pkg) },
            detail: InstallResolutionDetail::ManifestFile { path: path.clone() },
            should_activate: options.should_activate,
        }),
        InstallResolveInput::PackageSpec { pkg_spec } => match resolve_spec_from_installed_packages(db, pkg_spec, options) {
            ResolveState::Resolved(t) => Ok(t),
            ResolveState::Unresolved { pkg_spec } => {
                if options.registries.len() == 0 {
                    return Err(InstallResolveError::NoRegistriesForSpecResolution { pkg_spec });
                }
                match indexes.indexes() {
                    Some(v) => resolve_spec_from_registry(v, &pkg_spec, options),
                    None => {
                        assert(false);
                        Err(InstallResolveError::NoRegistriesForSpecResolution { pkg_spec })
                    },
                }
            },
        },
    }
}

fn same_kind(a: &InstallTargetKind, b: &InstallTargetKind) -> (r: bool)
    ensures
        r == (kind_view(*a) == kind_view(*b)),
{
    match (a, b) {
        (InstallTargetKind::AlreadyInstalled { pkg_id: x }, InstallTargetKind::AlreadyInstalled { pkg_id: y }) => x.equals(y),
        (InstallTargetKind::Install { pkg: x }, InstallTargetKind::Install { pkg: y }) => same_definition(x, y),
        _ => false,
    }
}

fn copy_target(t: &ResolvedInstallTarget) -> (r: ResolvedInstallTarget)
    ensures
        install_target_view(r) == install_target_view(*t),
        t.kind.wf() ==> r.kind.wf(),
{
    let kind = match &t.kind {
        InstallTargetKind::AlreadyInstalled { pkg_id } => InstallTargetKind::AlreadyInstalled { pkg_id: pkg_id.clone() },
        InstallTargetKind::Install { pkg } => InstallTargetKind::Install { pkg: copy_definition(pkg) },
    };
    let detail = match &t.detail {
        InstallResolutionDetail::Registry { reg_id, pkg_spec } => InstallResolutionDetail::Registry { reg_id: reg_id.clone(), pkg_spec: pkg_spec.clone() },
        InstallResolutionDetail::Installed { pkg_spec } => InstallResolutionDetail::Installed { pkg_spec: pkg_spec.clone() },
        InstallResolutionDetail::ManifestFile { path } => InstallResolutionDetail::ManifestFile { path: path.clone() },
    };
    ResolvedInstallTarget { kind, detail, should_activate: t.should_activate }
}

pub open spec fn kind_keys(ts: Seq<InstallTargetView>) -> Seq<KindView> {
    ts.map_values(|t: InstallTargetView| t.kind)
}

/// Keeps the first target of each kind: an installed package, or a
/// definition, requested twice is resolved once.
pub fn dedup_install_targets(targets: &Vec<ResolvedInstallTarget>) -> (r: Vec<ResolvedInstallTarget>)
    requires
        forall|k: int| 0 <= k < targets@.len() ==> (#[trigger] targets@[k]).kind.wf(),
    ensures
        install_target_views(r@) == dedup_by_key(install_target_views(targets@), kind_keys(install_target_views(targets@))),
        forall|k: int| 0 <= k < r@.len() ==> (#[trigger] r@[k]).kind.wf(),
{
    let ghost tv = install_target_views(targets@);
    let ghost keys = kind_keys(tv);
    let mut kept: Vec<ResolvedInstallTarget> = Vec::new();
    let mut i: usize = 0;
    while i < targets.len()
        invariant
            i <= targets@.len(),
            tv == install_target_views(targets@),
            keys == kind_keys(tv),
            forall|k: int| 0 <= k < targets@.len() ==> (#[trigger] targets@[k]).kind.wf(),
            install_target_views(kept@) == dedup_by_key(tv.take(i as int), keys.take(i as int)),
            forall|k: int| 0 <= k < kept@.len() ==> (#[trigger] kept@[k]).kind.wf(),
        decreases targets@.len() - i,
    {
        let mut seen = false;
        let mut j: usize = 0;
        while j < i
            invariant
                i < targets@.len(),
                j <= i,
                tv == install_target_views(targets@),
                keys == kind_keys(tv),
                seen <==> keys.take(j as int).contains(keys[i as int]),
            decreases i - j,
        {
            if same_kind(&targets[j].kind, &targets[i].kind) {
                seen = true;
            }
            proof {
                let t = keys.take(j + 1);
                assert(t =~= keys.take(j as int).push(keys[j as int]));
                assert(keys[j as int] == kind_view(targets@[j as int].kind));
                assert(keys[i as int] == kind_view(targets@[i as int].kind));
                if t.contains(keys[i as int]) {
                    let k = choose|k: int| 0 <= k < t.len() && t[k] == keys[i as int];
                    if k < j {
                        assert(keys.take(j as int)[k] == keys[i as int]);
                    }
                }
                if keys.take(j as int).contains(keys[i as int]) {
                    let k = choose|k: int| 0 <= k < j && keys.take(j as int)[k] == keys[i as int];
                    assert(t[k] == keys[i as int]);
                }
                if keys[j as int] == keys[i as int] {
                    assert(t[j as int] == keys[i as int]);
                }
            }
            j = j + 1;
        }
        proof {
            assert(tv.take(i + 1).take(i as int) =~= tv.take(i as int));
            assert(keys.take(i + 1).take(i as int) =~= keys.take(i as int));
            assert(tv.take(i + 1)[i as int] == tv[i as int]);
            assert(keys.take(i + 1)[i as int] == keys[i as int]);
        }
        if !seen {
            let ghost kv = kept@;
            let c = copy_target(&targets[i]);
            kept.push(c);
            proof {
                assert(install_target_views(kept@) =~= install_target_views(kv).push(install_target_view(c)));
            }
        }
        i = i + 1;
    }
    proof {
        assert(tv.take(targets@.len() as int) =~= tv);
        assert(keys.take(targets@.len() as int) =~= keys);
    }
    kept
}

pub open spec fn target_ids(ts: Seq<InstallTargetView>) -> Seq<PackageIdView> {
    ts.map_values(|t: InstallTargetView| kind_id(t.kind))
}

/// The (where found, ID) pairs of the targets at the given positions.
pub open spec fn pairs_at(ts: Seq<InstallTargetView>, g: Seq<int>) -> Seq<(DetailView, PackageIdView)> {
    g.map_values(|k: int| (ts[k].detail, kind_id(ts[k].kind)))
}

/// The groups of more than one position.
pub open spec fn large_groups(groups: Seq<Seq<int>>) -> Seq<Seq<int>>
    decreases groups.len(),
{
    if groups.len() == 0 {
        Seq::empty()
    } else if groups.last().len() > 1 {
        large_groups(groups.drop_last()).push(groups.last())
    } else {
        large_groups(groups.drop_last())
    }
}

/// An error for each package ID that more than one target resolved to, in
/// ID order.
pub open spec fn install_conflicts(ts: Seq<InstallTargetView>) -> Seq<InstallErrorView> {
    large_groups(position_groups(target_ids(ts), true, ts.len() as int)).map_values(
        |g: Seq<int>| InstallErrorView::ConflictingInstalls { pkg_ids: pairs_at(ts, g) },
    )
}

/// The positions of the targets to activate, in order.
pub open spec fn activating_positions(ts: Seq<InstallTargetView>, n: int) -> Seq<int>
    decreases n,
{
    if n <= 0 {
        Seq::empty()
    } else if ts[n - 1].should_activate {
        activating_positions(ts, n - 1).push(n - 1)
    } else {
        activating_positions(ts, n - 1)
    }
}

/// An error for each package of which more than one version would be
/// activated, in name order.
pub open spec fn activation_conflicts(ts: Seq<InstallTargetView>) -> Seq<InstallErrorView> {
    let act = activating_positions(ts, ts.len() as int);
    let ids = act.map_values(|k: int| kind_id(ts[k].kind));
    large_groups(position_groups(ids, false, ids.len() as int)).map_values(
        |g: Seq<int>| InstallErrorView::ConflictingActivations { pkg_ids: pairs_at(ts, g.map_values(|j: int| act[j])) },
    )
}

fn copy_detail(d: &InstallResolutionDetail) -> (r: InstallResolutionDetail)
    ensures
        detail_view(r) == detail_view(*d),
{
    match d {
        InstallResolutionDetail::Registry { reg_id, pkg_spec } => InstallResolutionDetail::Registry { reg_id: reg_id.clone(), pkg_spec: pkg_spec.clone() },
        InstallResolutionDetail::Installed { pkg_spec } => InstallResolutionDetail::Installed { pkg_spec: pkg_spec.clone() },
        InstallResolutionDetail::ManifestFile { path } => InstallResolutionDetail::ManifestFile { path: path.clone() },
    }
}

pub open spec fn pair_views(ps: Seq<(InstallResolutionDetail, PackageId)>) -> Seq<(DetailView, PackageIdView)> {
    ps.map_values(|p: (InstallResolutionDetail, PackageId)| (detail_view(p.0), p.1@))
}

/// The (where found, ID) pairs of the targets at the given positions.
fn pairs_of(targets: &Vec<ResolvedInstallTarget>, positions: &Vec<usize>) -> (r: Vec<(InstallResolutionDetail, PackageId)>)
    requires
        forall|k: int| 0 <= k < positions@.len() ==> (#[trigger] positions@[k]) < targets@.len(),
    ensures
        pair_views(r@) == pairs_at(install_target_views(targets@), positions@.map_values(|k: usize| k as int)),
{
    let ghost tv = install_target_views(targets@);
    let ghost pv = positions@.map_values(|k: usize| k as int);
    let mut r: Vec<(InstallResolutionDetail, PackageId)> = Vec::new();
    let mut i: usize = 0;
    while i < positions.len()
        invariant
            i <= positions@.len(),
            tv == install_target_views(targets@),
            pv == positions@.map_values(|k: usize| k as int),
            forall|k: int| 0 <= k < positions@.len() ==> (#[trigger] positions@[k]) < targets@.len(),
            pair_views(r@) == pairs_at(tv, pv.take(i as int)),
        decreases positions@.len() - i,
    {
        let k = positions[i];
        let t = &targets[k];
        let p = (copy_detail(&t.detail), t.kind.pkg_id().clone());
        let ghost rv = r@;
        r.push(p);
        proof {
            assert(pv[i as int] == k as int);
            assert(tv[k as int] == install_target_view(targets@[k as int]));
            assert(pair_views(r@) =~= pair_views(rv).push((detail_view(p.0), p.1@)));
            assert(pairs_at(tv, pv.take(i + 1)) =~= pairs_at(tv, pv.take(i as int)).push((tv[k as int].detail, kind_id(tv[k as int].kind))));
        }
        i = i + 1;
    }
    proof {
        assert(pv.take(positions@.len() as int) =~= pv);
    }
    r
}

/// The IDs of the targets.
fn target_id_list(targets: &Vec<ResolvedInstallTarget>) -> (r: Vec<PackageId>)
    requires
        forall|k: int| 0 <= k < targets@.len() ==> (#[trigger] targets@[k]).kind.wf(),
    ensures
        r@.map_values(|id: PackageId| id@) == target_ids(install_target_views(targets@)),
        forall|k: int| 0 <= k < r@.len() ==> (#[trigger] r@[k]).wf(),
{
    let mut r: Vec<PackageId> = Vec::new();
    let mut i: usize = 0;
    while i < targets.len()
        invariant
            i <= targets@.len(),
            forall|k: int| 0 <= k < targets@.len() ==> (#[trigger] targets@[k]).kind.wf(),
            r@.map_values(|id: PackageId| id@) == target_ids(install_target_views(targets@.take(i as int))),
            forall|k: int| 0 <= k < r@.len() ==> (#[trigger] r@[k]).wf(),
        decreases targets@.len() - i,
    {
        let ghost rv = r@;
        let id = targets[i].kind.pkg_id().clone();
        r.push(id);
        proof {
            assert(targets@[i as int].kind.wf());
            assert(r@.map_values(|id: PackageId| id@) =~= rv.map_values(|id: PackageId| id@).push(id@));
            assert(target_ids(install_target_views(targets@.take(i + 1))) =~= target_ids(install_target_views(targets@.take(i as int))).push(kind_id(kind_view(targets@[i as int].kind))));
        }
        i = i + 1;
    }
    proof {
        assert(targets@.take(targets@.len() as int) =~= targets@);
    }
    r
}

/// An error for each package ID that more than one target resolved to.
pub fn check_conflicting_installs(targets: &Vec<ResolvedInstallTarget>) -> (r: Vec<InstallResolveError>)
    requires
        forall|k: int| 0 <= k < targets@.len() ==> (#[trigger] targets@[k]).kind.wf(),
    ensures
        install_error_views(r@) == install_conflicts(install_target_views(targets@)),
{
    let ghost tv = install_target_views(targets@);
    let ids = target_id_list(targets);
    let groups = group_positions(&ids, true);
    let ghost gv = position_views(groups@);
    proof {
        assert(ids@.map_values(|id: PackageId| id@) == target_ids(tv));
        assert(tv.len() == targets@.len());
        assert(ids@.map_values(|id: PackageId| id@).len() == ids@.len());
        assert(target_ids(tv).len() == tv.len());
        assert(ids@.len() == targets@.len());
        assert(gv == position_groups(target_ids(tv), true, tv.len() as int));
    }
    let mut r: Vec<InstallResolveError> = Vec::new();
    let mut i: usize = 0;
    while i < groups.len()
        invariant
            i <= groups@.len(),
            gv == position_views(groups@),
            tv == install_target_views(targets@),
            forall|j: int, m: int| 0 <= j < groups@.len() && 0 <= m < groups@[j]@.len() ==> (#[trigger] groups@[j]@[m]) < ids@.len(),
            ids@.len() == targets@.len(),
            install_error_views(r@) == large_groups(gv.take(i as int)).map_values(
                |g: Seq<int>| InstallErrorView::ConflictingInstalls { pkg_ids: pairs_at(tv, g) },
            ),
        decreases groups@.len() - i,
    {
        proof {
            assert(gv.take(i + 1).drop_last() =~= gv.take(i as int));
            assert(gv.take(i + 1).last() == gv[i as int]);
            assert(gv[i as int] == groups@[i as int]@.map_values(|k: usize| k as int));
        }
        if groups[i].len() > 1 {
            proof {
                assert forall|k: int| 0 <= k < groups@[i as int]@.len() implies (#[trigger] groups@[i as int]@[k]) < targets@.len() by {}
            }
            let pairs = pairs_of(targets, &groups[i]);
            let e = InstallResolveError::ConflictingInstalls { pkg_ids: pairs };
            let ghost rv = r@;
            r.push(e);
            proof {
                assert(install_error_views(r@) =~= install_error_views(rv).push(e@));
                let f = |g: Seq<int>| InstallErrorView::ConflictingInstalls { pkg_ids: pairs_at(tv, g) };
                assert(large_groups(gv.take(i + 1)).map_values(f) =~= large_groups(gv.take(i as int)).map_values(f).push(f(gv[i as int])));
            }
        }
        i = i + 1;
    }
    proof {
        assert(gv.take(groups@.len() as int) =~= gv);
    }
    r
}

/// An error for each package of which more than one version would be
/// activated.
pub fn check_conflicting_install_activations(targets: &Vec<ResolvedInstallTarget>) -> (r: Vec<InstallResolveError>)
    requires
        forall|k: int| 0 <= k < targets@.len() ==> (#[trigger] targets@[k]).kind.wf(),
    ensures
        install_error_views(r@) == activation_conflicts(install_target_views(targets@)),
{
    let ghost tv = install_target_views(targets@);
    let mut act: Vec<usize> = Vec::new();
    let mut ids: Vec<PackageId> = Vec::new();
    let mut i: usize = 0;
    while i < targets.len()
        invariant
            i <= targets@.len(),
            tv == install_target_views(targets@),
            forall|k: int| 0 <= k < targets@.len() ==> (#[trigger] targets@[k]).kind.wf(),
            act@.map_values(|k: usize| k as int) == activating_positions(tv, i as int),
            act@.len() == ids@.len(),
            forall|k: int| 0 <= k < act@.len() ==> (#[trigger] act@[k]) < i,
            ids@.map_values(|id: PackageId| id@) == activating_positions(tv, i as int).map_values(|k: int| kind_id(tv[k].kind)),
            forall|k: int| 0 <= k < ids@.len() ==> (#[trigger] ids@[k]).wf(),
        decreases targets@.len() - i,
    {
        if targets[i].should_activate {
            let ghost av = act@;
            let ghost iv = ids@;
            act.push(i);
            let id = targets[i].kind.pkg_id().clone();
            ids.push(id);
            proof {
                assert(targets@[i as int].kind.wf());
                assert(act@.map_values(|k: usize| k as int) =~= av.map_values(|k: usize| k as int).push(i as int));
                assert(ids@.map_values(|id: PackageId| id@) =~= iv.map_values(|id: PackageId| id@).push(id@));
                assert(tv[i as int] == install_target_view(targets@[i as int]));
                assert(activating_positions(tv, i + 1).map_values(|k: int| kind_id(tv[k].kind)) =~= activating_positions(tv, i as int).map_values(|k: int| kind_id(tv[k].kind)).push(kind_id(tv[i as int].kind)));
            }
        }
        i = i + 1;
    }
    let ghost actv = activating_positions(tv, tv.len() as int);
    let ghost aids = actv.map_values(|k: int| kind_id(tv[k].kind));
    proof {
        assert(tv.len() == targets@.len());
        assert(ids@.map_values(|id: PackageId| id@).len() == ids@.len());
    }
    let groups = group_positions(&ids, false);
    let ghost gv = position_views(groups@);
    let mut r: Vec<InstallResolveError> = Vec::new();
    let mut j: usize = 0;
    while j < groups.len()
        invariant
            j <= groups@.len(),
            gv == position_views(groups@),
            gv == position_groups(aids, false, aids.len() as int),
            tv == install_target_views(targets@),
            actv == act@.map_values(|k: usize| k as int),
            forall|k: int| 0 <= k < act@.len() ==> (#[trigger] act@[k]) < targets@.len(),
            forall|a: int, m: int| 0 <= a < groups@.len() && 0 <= m < groups@[a]@.len() ==> (#[trigger] groups@[a]@[m]) < ids@.len(),
            act@.len() == ids@.len(),
            install_error_views(r@) == large_groups(gv.take(j as int)).map_values(
                |g: Seq<int>| InstallErrorView::ConflictingActivations { pkg_ids: pairs_at(tv, g.map_values(|m: int| actv[m])) },
            ),
        decreases groups@.len() - j,
    {
        proof {
            assert(gv.take(j + 1).drop_last() =~= gv.take(j as int));
            assert(gv.take(j + 1).last() == gv[j as int]);
            assert(gv[j as int] == groups@[j as int]@.map_values(|k: usize| k as int));
        }
        if groups[j].len() > 1 {
            let mut positions: Vec<usize> = Vec::new();
            let mut m: usize = 0;
            while m < groups[j].len()
                invariant
                    j < groups@.len(),
                    m <= groups@[j as int]@.len(),
                    forall|k: int| 0 <= k < act@.len() ==> (#[trigger] act@[k]) < targets@.len(),
                    forall|a: int, q: int| 0 <= a < groups@.len() && 0 <= q < groups@[a]@.len() ==> (#[trigger] groups@[a]@[q]) < ids@.len(),
                    act@.len() == ids@.len(),
                    positions@.map_values(|k: usize| k as int) == groups@[j as int]@.take(m as int).map_values(|q: usize| act@[q as int] as int),
                    forall|k: int| 0 <= k < positions@.len() ==> (#[trigger] positions@[k]) < targets@.len(),
                decreases groups@[j as int]@.len() - m,
            {
                let q = groups[j][m];
                let ghost pv = positions@;
                positions.push(act[q]);
                proof {
                    assert(positions@.map_values(|k: usize| k as int) =~= pv.map_values(|k: usize| k as int).push(act@[q as int] as int));
                    assert(groups@[j as int]@.take(m + 1).map_values(|q: usize| act@[q as int] as int) =~= groups@[j as int]@.take(m as int).map_values(|q: usize| act@[q as int] as int).push(act@[q as int] as int));
                }
                m = m + 1;
            }
            proof {
                assert(groups@[j as int]@.take(groups@[j as int]@.len() as int) =~= groups@[j as int]@);
                assert(positions@.map_values(|k: usize| k as int) =~= gv[j as int].map_values(|m: int| actv[m]));
            }
            let pairs = pairs_of(targets, &positions);
            let e = InstallResolveError::ConflictingActivations { pkg_ids: pairs };
            let ghost rv = r@;
            r.push(e);
            proof {
                assert(install_error_views(r@) =~= install_error_views(rv).push(e@));
                let f = |g: Seq<int>| InstallErrorView::ConflictingActivations { pkg_ids: pairs_at(tv, g.map_values(|m: int| actv[m])) };
                assert(large_groups(gv.take(j + 1)).map_values(f) =~= large_groups(gv.take(j as int)).map_values(f).push(f(gv[j as int])));
            }
        }
        j = j + 1;
    }
    proof {
        assert(gv.take(groups@.len() as int) =~= gv);
    }
    r
}

pub open spec fn install_results(
    s: Seq<EntryView>,
    inputs: Seq<InstallResolveInput>,
    registries_empty: bool,
    include_pre_release: bool,
    should_activate: bool,
    fetched: Option<Seq<RegistryIndex>>,
) -> Seq<Result<InstallTargetView, InstallErrorView>> {
    inputs.map_values(|i: InstallResolveInput| install_target_result(s, i, registries_empty, include_pre_release, should_activate, fetched))
}

/// The outcome of resolving install requests: every request's error if any
/// failed; else, with repeats dropped, the conflicting installs if any;
/// else the conflicting activations if any; else the targets.
pub open spec fn install_targets_result(
    s: Seq<EntryView>,
    inputs: Seq<InstallResolveInput>,
    registries_empty: bool,
    include_pre_release: bool,
    should_activate: bool,
    fetched: Option<Seq<RegistryIndex>>,
) -> Result<Seq<InstallTargetView>, Seq<InstallErrorView>> {
    let rs = install_results(s, inputs, registries_empty, include_pre_release, should_activate, fetched);
    if errs(rs).len() > 0 {
        Err(errs(rs))
    } else {
        let ts = dedup_by_key(oks(rs), kind_keys(oks(rs)));
        if install_conflicts(ts).len() > 0 {
            Err(install_conflicts(ts))
        } else if activation_conflicts(ts).len() > 0 {
            Err(activation_conflicts(ts))
        } else {
            Ok(ts)
        }
    }
}

/// Resolves install requests; the registries must have been fetched when
/// some request needs them.
pub fn resolve_install_targets(
    db: &PackageDatabase,
    inputs: &Vec<InstallResolveInput>,
    options: &InstallResolveOptions,
    indexes: &LazyRegistryIndexes,
) -> (r: Result<Vec<ResolvedInstallTarget>, Vec<InstallResolveError>>)
    requires
        db.wf(),
        indexes.wf(),
        forall|k: int| 0 <= k < inputs@.len() ==> input_wf(#[trigger] inputs@[k]),
        (exists|k: int| 0 <= k < inputs@.len() && needs_registries(db@, #[trigger] inputs@[k])) && options.registries@.len() > 0
            ==> indexes.fetched() is Some,
    ensures
        match (r, install_targets_result(db@, inputs@, options.registries@.len() == 0, options.include_pre_release, options.should_activate, indexes.fetched())) {
            (Ok(ts), Ok(vs)) => install_target_views(ts@) == vs,
            (Err(es), Err(vs)) => install_error_views(es@) == vs,
            _ => false,
        },
{
    let ghost rs = install_results(db@, inputs@, options.registries@.len() == 0, options.include_pre_release, options.should_activate, indexes.fetched());
    let mut targets: Vec<ResolvedInstallTarget> = Vec::new();
    let mut errors: Vec<InstallResolveError> = Vec::new();
    let mut i: usize = 0;
    while i < inputs.len()
        invariant
            i <= inputs@.len(),
            db.wf(),
            indexes.wf(),
            forall|k: int| 0 <= k < inputs@.len() ==> input_wf(#[trigger] inputs@[k]),
            (exists|k: int| 0 <= k < inputs@.len() && needs_registries(db@, #[trigger] inputs@[k])) && options.registries@.len() > 0
                ==> indexes.fetched() is Some,
            rs == install_results(db@, inputs@, options.registries@.len() == 0, options.include_pre_release, options.should_activate, indexes.fetched()),
            install_target_views(targets@) == oks(rs.take(i as int)),
            forall|k: int| 0 <= k < targets@.len() ==> (#[trigger] targets@[k]).kind.wf(),
            install_error_views(errors@) == errs(rs.take(i as int)),
        decreases inputs@.len() - i,
    {
        proof {
            assert(rs.take(i + 1).drop_last() =~= rs.take(i as int));
            assert(rs.take(i + 1).last() == rs[i as int]);
            assert(input_wf(inputs@[i as int]));
            if needs_registries(db@, inputs@[i as int]) && options.registries@.len() > 0 {
                assert(exists|k: int| 0 <= k < inputs@.len() && needs_registries(db@, #[trigger] inputs@[k]));
            }
        }
        match resolve_install_target(db, indexes, &inputs[i], options) {
            Ok(t) => {
                let ghost tv = targets@;
                targets.push(t);
                proof {
                    assert(install_target_views(targets@) =~= install_target_views(tv).push(install_target_view(t)));
                }
            },
            Err(e) => {
                let ghost ev = errors@;
                errors.push(e);
                proof {
                    assert(install_error_views(errors@) =~= install_error_views(ev).push(e@));
                }
            },
        }
        i = i + 1;
    }
    proof {
        assert(rs.take(inputs@.len() as int) =~= rs);
        assert(install_error_views(errors@).len() == errors@.len());
    }
    if errors.len() > 0 {
        return Err(errors);
    }
    let targets = dedup_install_targets(&targets);
    let conflicts = check_conflicting_installs(&targets);
    proof {
        assert(install_error_views(conflicts@).len() == conflicts@.len());
    }
    if conflicts.len() > 0 {
        return Err(conflicts);
    }
    let conflicts = check_conflicting_install_activations(&targets);
    proof {
        assert(install_error_views(conflicts@).len() == conflicts@.len());
    }
    if conflicts.len() > 0 {
        return Err(conflicts);
    }
    Ok(targets)
}

} // verus!
