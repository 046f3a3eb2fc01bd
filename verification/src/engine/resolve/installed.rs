//! Resolution against the installed packages: activation, deactivation and
//! uninstallation targets.
use vstd::prelude::*;

use super::common::{
    candidate_ids, candidate_indices, candidate_package_ids, errs, find_candidates, group_by_name,
    group_ids_by_name, groups_view, oks,
};
use crate::db::{EntryView, PackageDatabase};
use crate::engine::target::{
    dedup_by_key, dedup_targets, lemma_dedup_map, ResolvedActivateTarget, ResolvedDeactivateTarget,
    ResolvedUninstallTarget, TargetKey, TargetKeyView,
};
use crate::package::id::{PackageId, PackageIdView};
use crate::package::spec::{PackageSpec, PackageSpecView};
use crate::package::state::ActivationState;

verus! {

/// Why a request could not be resolved.
#[derive(Debug)]
pub enum ResolveError {
    NoMatchingPackage { pkg_spec: PackageSpec },
    MultipleMatchingPackages { pkg_spec: PackageSpec, pkg_ids: Vec<PackageId> },
    ConflictingActivations { pkg_ids: Vec<PackageId> },
}

pub enum ResolveErrorView {
    NoMatchingPackage { pkg_spec: PackageSpecView },
    MultipleMatchingPackages { pkg_spec: PackageSpecView, pkg_ids: Seq<PackageIdView> },
    ConflictingActivations { pkg_ids: Seq<PackageIdView> },
}

impl View for ResolveError {
    type V = ResolveErrorView;

    open spec fn view(&self) -> ResolveErrorView {
        match self {
            ResolveError::NoMatchingPackage { pkg_spec } => ResolveErrorView::NoMatchingPackage { pkg_spec: pkg_spec@ },
            ResolveError::MultipleMatchingPackages { pkg_spec, pkg_ids } => ResolveErrorView::MultipleMatchingPackages {
                pkg_spec: pkg_spec@,
                pkg_ids: pkg_ids@.map_values(|id: PackageId| id@),
            },
            ResolveError::ConflictingActivations { pkg_ids } => ResolveErrorView::ConflictingActivations {
                pkg_ids: pkg_ids@.map_values(|id: PackageId| id@),
            },
        }
    }
}

pub open spec fn error_views(es: Seq<ResolveError>) -> Seq<ResolveErrorView> {
    es.map_values(|e: ResolveError| e@)
}

/// An activation request: the one installed package that the specifier
/// selects.
pub open spec fn activate_result(s: Seq<EntryView>, spec: PackageSpecView) -> Result<PackageIdView, ResolveErrorView> {
    let ids = candidate_ids(s, spec, true);
    if ids.len() == 0 {
        Err(ResolveErrorView::NoMatchingPackage { pkg_spec: spec })
    } else if ids.len() == 1 {
        Ok(ids[0])
    } else {
        Err(ResolveErrorView::MultipleMatchingPackages { pkg_spec: spec, pkg_ids: ids })
    }
}

/// The IDs without repeats, first occurrences kept.
pub open spec fn dedup_ids(ids: Seq<PackageIdView>) -> Seq<PackageIdView> {
    dedup_by_key(ids, id_keys(ids))
}

/// The groups holding more than one ID.
pub open spec fn conflicting_groups(groups: Seq<Seq<PackageIdView>>) -> Seq<Seq<PackageIdView>>
    decreases groups.len(),
{
    if groups.len() == 0 {
        Seq::empty()
    } else if groups.last().len() > 1 {
        conflicting_groups(groups.drop_last()).push(groups.last())
    } else {
        conflicting_groups(groups.drop_last())
    }
}

pub open spec fn spec_views(specs: Seq<PackageSpec>) -> Seq<PackageSpecView> {
    specs.map_values(|sp: PackageSpec| sp@)
}

pub open spec fn id_views(ids: Seq<PackageId>) -> Seq<PackageIdView> {
    ids.map_values(|id: PackageId| id@)
}

pub open spec fn activate_target_ids(ts: Seq<ResolvedActivateTarget>) -> Seq<PackageIdView> {
    ts.map_values(|t: ResolvedActivateTarget| t.pkg_id@)
}

pub open spec fn activate_results(s: Seq<EntryView>, specs: Seq<PackageSpecView>) -> Seq<Result<PackageIdView, ResolveErrorView>> {
    specs.map_values(|sp: PackageSpecView| activate_result(s, sp))
}

pub open spec fn id_keys(ids: Seq<PackageIdView>) -> Seq<TargetKeyView> {
    ids.map_values(|i: PackageIdView| TargetKeyView::Id(i))
}

pub open spec fn conflict_errors(groups: Seq<Seq<PackageIdView>>) -> Seq<ResolveErrorView> {
    groups.map_values(|g: Seq<PackageIdView>| ResolveErrorView::ConflictingActivations { pkg_ids: g })
}

/// The outcome of resolving activation requests: every request's error if
/// any failed; else, with repeats dropped, an error for each package of
/// which more than one version would be activated, in name order; else the
/// targets.
pub open spec fn activate_targets_result(s: Seq<EntryView>, specs: Seq<PackageSpecView>) -> Result<Seq<PackageIdView>, Seq<ResolveErrorView>> {
    let rs = activate_results(s, specs);
    if errs(rs).len() > 0 {
        Err(errs(rs))
    } else {
        let ids = dedup_ids(oks(rs));
        let conflicts = conflicting_groups(group_by_name(ids));
        if conflicts.len() > 0 {
            Err(conflict_errors(conflicts))
        } else {
            Ok(ids)
        }
    }
}

/// Resolves one activation request.
pub fn resolve_activate_spec(db: &PackageDatabase, pkg_spec: &PackageSpec) -> (r: Result<ResolvedActivateTarget, ResolveError>)
    ensures
        match (r, activate_result(db@, pkg_spec@)) {
            (Ok(t), Ok(id)) => t.pkg_id@ == id,
            (Err(e), Err(v)) => e@ == v,
            _ => false,
        },
{
    let ids = candidate_package_ids(db, pkg_spec, true);
    proof {
        assert(ids@.map_values(|id: PackageId| id@).len() == ids@.len());
    }
    if ids.len() == 0 {
        Err(ResolveError::NoMatchingPackage { pkg_spec: pkg_spec.clone() })
    } else if ids.len() == 1 {
        Ok(ResolvedActivateTarget { pkg_id: ids[0].clone() })
    } else {
        Err(ResolveError::MultipleMatchingPackages { pkg_spec: pkg_spec.clone(), pkg_ids: ids })
    }
}

/// The errors for the packages of which more than one version would be
/// activated.
pub fn check_conflicting_activations(ids: &Vec<PackageId>) -> (r: Vec<ResolveError>)
    ensures
        error_views(r@) == conflict_errors(conflicting_groups(group_by_name(id_views(ids@)))),
{
    let groups = group_ids_by_name(ids);
    let ghost gv = groups_view(groups@);
    let mut r: Vec<ResolveError> = Vec::new();
    let mut groups = groups;
    let n = groups.len();
    let mut i: usize = 0;
    while i < n
        invariant
            n == gv.len(),
            i <= n,
            groups_view(groups@) == gv.skip(i as int),
            error_views(r@) == conflict_errors(conflicting_groups(gv.take(i as int))),
        decreases n - i,
    {
        let ghost before = groups@;
        proof {
            assert(groups_view(before).len() == before.len());
            assert(gv.take(i + 1).drop_last() =~= gv.take(i as int));
            assert(gv.take(i + 1).last() == gv[i as int]);
        }
        let g = groups.remove(0);
        proof {
            assert(groups@ =~= before.subrange(1, before.len() as int));
            assert(groups_view(groups@) =~= groups_view(before).drop_first());
            assert(groups_view(before)[0] == gv[i as int]);
            assert(g@.map_values(|id: PackageId| id@) == gv[i as int]);
            assert(groups_view(groups@) =~= gv.skip(i + 1));
        }
        if g.len() > 1 {
            let ghost rv = r@;
            let e = ResolveError::ConflictingActivations { pkg_ids: g };
            r.push(e);
            proof {
                assert(error_views(r@) =~= error_views(rv).push(e@));
                assert(conflict_errors(conflicting_groups(gv.take(i + 1))) =~= conflict_errors(conflicting_groups(gv.take(i as int))).push(e@));
            }
        }
        i = i + 1;
    }
    proof {
        assert(gv.take(n as int) =~= gv);
    }
    r
}

/// Resolves activation requests against the installed packages.
pub fn resolve_activate_targets(db: &PackageDatabase, pkg_specs: &Vec<PackageSpec>) -> (r: Result<Vec<ResolvedActivateTarget>, Vec<ResolveError>>)
    ensures
        match (r, activate_targets_result(db@, spec_views(pkg_specs@))) {
            (Ok(ts), Ok(ids)) => activate_target_ids(ts@) == ids,
            (Err(es), Err(vs)) => error_views(es@) == vs,
            _ => false,
        },
{
    let ghost specs = spec_views(pkg_specs@);
    let ghost rs = activate_results(db@, specs);
    let mut targets: Vec<ResolvedActivateTarget> = Vec::new();
    let mut keys: Vec<TargetKey> = Vec::new();
    let mut errors: Vec<ResolveError> = Vec::new();
    let mut i: usize = 0;
    while i < pkg_specs.len()
        invariant
            i <= pkg_specs@.len(),
            specs == spec_views(pkg_specs@),
            rs == activate_results(db@, specs),
            activate_target_ids(targets@) == oks(rs.take(i as int)),
            keys@.len() == targets@.len(),
            keys@.map_values(|k: TargetKey| k@) == id_keys(oks(rs.take(i as int))),
            error_views(errors@) == errs(rs.take(i as int)),
        decreases pkg_specs@.len() - i,
    {
        proof {
            assert(rs.take(i + 1).drop_last() =~= rs.take(i as int));
            assert(rs.take(i + 1).last() == rs[i as int]);
        }
        match resolve_activate_spec(db, &pkg_specs[i]) {
            Ok(t) => {
                let ghost tv = targets@;
                let ghost kv = keys@;
                keys.push(t.key());
                targets.push(t);
                proof {
                    assert(activate_target_ids(targets@) =~= activate_target_ids(tv).push(t.pkg_id@));
                    assert(keys@.map_values(|k: TargetKey| k@) =~= kv.map_values(|k: TargetKey| k@).push(TargetKeyView::Id(t.pkg_id@)));
                    assert(oks(rs.take(i + 1)) == oks(rs.take(i as int)).push(t.pkg_id@));
                    assert(id_keys(oks(rs.take(i + 1))) =~= id_keys(oks(rs.take(i as int))).push(TargetKeyView::Id(t.pkg_id@)));
                }
            },
            Err(e) => {
                let ghost ev = errors@;
                errors.push(e);
                proof {
                    assert(error_views(errors@) =~= error_views(ev).push(e@));
                }
            },
        }
        i = i + 1;
    }
    proof {
        assert(rs.take(pkg_specs@.len() as int) =~= rs);
    }
    if errors.len() > 0 {
        return Err(errors);
    }
    let ghost tv = targets@;
    let ghost okv = oks(rs);
    let targets = dedup_targets(targets, keys);
    proof {
        let f = |t: ResolvedActivateTarget| t.pkg_id@;
        let kv = id_keys(okv);
        lemma_dedup_map(tv, kv, f);
        assert(tv.map_values(f) =~= okv);
        assert(targets@.map_values(f) =~= dedup_by_key(okv, kv));
        assert(activate_target_ids(targets@) =~= dedup_ids(okv));
    }
    let mut ids: Vec<PackageId> = Vec::new();
    let mut k: usize = 0;
    while k < targets.len()
        invariant
            k <= targets@.len(),
            id_views(ids@) == activate_target_ids(targets@.take(k as int)),
        decreases targets@.len() - k,
    {
        let ghost iv = ids@;
        ids.push(targets[k].pkg_id.clone());
        proof {
            assert(targets@.take(k + 1) =~= targets@.take(k as int).push(targets@[k as int]));
            assert(id_views(ids@) =~= id_views(iv).push(targets@[k as int].pkg_id@));
            assert(activate_target_ids(targets@.take(k + 1)) =~= activate_target_ids(targets@.take(k as int)).push(targets@[k as int].pkg_id@));
        }
        k = k + 1;
    }
    proof {
        assert(targets@.take(targets@.len() as int) =~= targets@);
    }
    proof {
        assert(id_views(ids@) =~= dedup_ids(okv));
    }
    let conflicts = check_conflicting_activations(&ids);
    proof {
        assert(error_views(errors@).len() == errors@.len());
        assert(errs(rs).len() == 0);
        assert(error_views(conflicts@).len() == conflicts@.len());
        let cg = conflicting_groups(group_by_name(dedup_ids(okv)));
        assert(conflict_errors(cg).len() == cg.len());
        assert(error_views(conflicts@) == conflict_errors(cg));
    }
    if conflicts.len() > 0 {
        return Err(conflicts);
    }
    Ok(targets)
}

/// The view of a deactivation target.
pub enum DeactivateTargetView {
    Deactivate { pkg_id: PackageIdView },
    AlreadyInactive { pkg_spec: PackageSpecView },
}

pub open spec fn deactivate_target_view(t: ResolvedDeactivateTarget) -> DeactivateTargetView {
    match t {
        ResolvedDeactivateTarget::Deactivate { pkg_id } => DeactivateTargetView::Deactivate { pkg_id: pkg_id@ },
        ResolvedDeactivateTarget::AlreadyInactive { pkg_spec } => DeactivateTargetView::AlreadyInactive { pkg_spec: pkg_spec@ },
    }
}

pub open spec fn deactivate_key(t: DeactivateTargetView) -> TargetKeyView {
    match t {
        DeactivateTargetView::Deactivate { pkg_id } => TargetKeyView::Id(pkg_id),
        DeactivateTargetView::AlreadyInactive { pkg_spec } => TargetKeyView::Spec(pkg_spec),
    }
}

/// A deactivation request: nothing to do when no installed package is
/// selected, or when the one selected is inactive; an error when several
/// are.
pub open spec fn deactivate_result(s: Seq<EntryView>, spec: PackageSpecView) -> Result<DeactivateTargetView, ResolveErrorView> {
    let idx = candidate_indices(s, spec, true, s.len() as int);
    if idx.len() == 0 {
        Ok(DeactivateTargetView::AlreadyInactive { pkg_spec: spec })
    } else if idx.len() == 1 {
        let e = s[idx[0]];
        if e.activation == ActivationState::Inactive {
            Ok(DeactivateTargetView::AlreadyInactive { pkg_spec: PackageSpecView::Id(e.id) })
        } else {
            Ok(DeactivateTargetView::Deactivate { pkg_id: e.id })
        }
    } else {
        Err(ResolveErrorView::MultipleMatchingPackages { pkg_spec: spec, pkg_ids: candidate_ids(s, spec, true) })
    }
}

pub open spec fn deactivate_results(s: Seq<EntryView>, specs: Seq<PackageSpecView>) -> Seq<Result<DeactivateTargetView, ResolveErrorView>> {
    specs.map_values(|sp: PackageSpecView| deactivate_result(s, sp))
}

pub open spec fn deactivate_target_views(ts: Seq<ResolvedDeactivateTarget>) -> Seq<DeactivateTargetView> {
    ts.map_values(|t: ResolvedDeactivateTarget| deactivate_target_view(t))
}

pub open spec fn deactivate_keys(ts: Seq<DeactivateTargetView>) -> Seq<TargetKeyView> {
    ts.map_values(|t: DeactivateTargetView| deactivate_key(t))
}

/// The outcome of resolving deactivation requests: every request's error if
/// any failed, else the targets with repeats dropped.
pub open spec fn deactivate_targets_result(s: Seq<EntryView>, specs: Seq<PackageSpecView>) -> Result<Seq<DeactivateTargetView>, Seq<ResolveErrorView>> {
    let rs = deactivate_results(s, specs);
    if errs(rs).len() > 0 {
        Err(errs(rs))
    } else {
        Ok(dedup_by_key(oks(rs), deactivate_keys(oks(rs))))
    }
}

/// Resolves one deactivation request.
pub fn resolve_deactivate_spec(db: &PackageDatabase, pkg_spec: &PackageSpec) -> (r: Result<ResolvedDeactivateTarget, ResolveError>)
    requires
        db.wf(),
    ensures
        match (r, deactivate_result(db@, pkg_spec@)) {
            (Ok(t), Ok(v)) => deactivate_target_view(t) == v,
            (Err(e), Err(v)) => e@ == v,
            _ => false,
        },
{
    let idx = find_candidates(db, pkg_spec, true);
    proof {
        assert(idx@.map_values(|i: usize| i as int).len() == idx@.len());
    }
    if idx.len() == 0 {
        Ok(ResolvedDeactivateTarget::AlreadyInactive { pkg_spec: pkg_spec.clone() })
    } else if idx.len() == 1 {
        let e = db.entry(idx[0]);
        proof {
            assert(idx@.map_values(|i: usize| i as int)[0] == idx@[0] as int);
        }
        if e.activation_state().is_inactive() {
            Ok(ResolvedDeactivateTarget::AlreadyInactive { pkg_spec: PackageSpec::from_id(e.id().clone()) })
        } else {
            Ok(ResolvedDeactivateTarget::Deactivate { pkg_id: e.id().clone() })
        }
    } else {
        let ids = candidate_package_ids(db, pkg_spec, true);
        Err(ResolveError::MultipleMatchingPackages { pkg_spec: pkg_spec.clone(), pkg_ids: ids })
    }
}

/// Resolves deactivation requests against the installed packages.
pub fn resolve_deactivate_targets(db: &PackageDatabase, pkg_specs: &Vec<PackageSpec>) -> (r: Result<Vec<ResolvedDeactivateTarget>, Vec<ResolveError>>)
    requires
        db.wf(),
    ensures
        match (r, deactivate_targets_result(db@, spec_views(pkg_specs@))) {
            (Ok(ts), Ok(vs)) => deactivate_target_views(ts@) == vs,
            (Err(es), Err(vs)) => error_views(es@) == vs,
            _ => false,
        },
{
    let ghost specs = spec_views(pkg_specs@);
    let ghost rs = deactivate_results(db@, specs);
    let mut targets: Vec<ResolvedDeactivateTarget> = Vec::new();
    let mut keys: Vec<TargetKey> = Vec::new();
    let mut errors: Vec<ResolveError> = Vec::new();
    let mut i: usize = 0;
    while i < pkg_specs.len()
        invariant
            i <= pkg_specs@.len(),
            db.wf(),
            specs == spec_views(pkg_specs@),
            rs == deactivate_results(db@, specs),
            deactivate_target_views(targets@) == oks(rs.take(i as int)),
            keys@.len() == targets@.len(),
            keys@.map_values(|k: TargetKey| k@) == deactivate_keys(oks(rs.take(i as int))),
            error_views(errors@) == errs(rs.take(i as int)),
        decreases pkg_specs@.len() - i,
    {
        proof {
            assert(rs.take(i + 1).drop_last() =~= rs.take(i as int));
            assert(rs.take(i + 1).last() == rs[i as int]);
        }
        match resolve_deactivate_spec(db, &pkg_specs[i]) {
            Ok(t) => {
                let ghost tv = targets@;
                let ghost kv = keys@;
                keys.push(t.key());
                targets.push(t);
                proof {
                    assert(deactivate_target_views(targets@) =~= deactivate_target_views(tv).push(deactivate_target_view(t)));
                    assert(keys@.map_values(|k: TargetKey| k@) =~= kv.map_values(|k: TargetKey| k@).push(t.key_view()));
                    assert(deactivate_keys(oks(rs.take(i + 1))) =~= deactivate_keys(oks(rs.take(i as int))).push(deactivate_key(deactivate_target_view(t))));
                }
            },
            Err(e) => {
                let ghost ev = errors@;
                errors.push(e);
                proof {
                    assert(error_views(errors@) =~= error_views(ev).push(e@));
                }
            },
        }
        i = i + 1;
    }
    proof {
        assert(rs.take(pkg_specs@.len() as int) =~= rs);
        assert(error_views(errors@).len() == errors@.len());
    }
    if errors.len() > 0 {
        return Err(errors);
    }
    let ghost tv = targets@;
    let ghost okv = oks(rs);
    let targets = dedup_targets(targets, keys);
    proof {
        let f = |t: ResolvedDeactivateTarget| deactivate_target_view(t);
        let kv = deactivate_keys(okv);
        lemma_dedup_map(tv, kv, f);
        assert(tv.map_values(f) =~= okv);
        assert(targets@.map_values(f) =~= dedup_by_key(okv, kv));
        assert(deactivate_target_views(targets@) =~= dedup_by_key(okv, kv));
    }
    Ok(targets)
}

/// The view of an uninstallation target.
pub enum UninstallTargetView {
    Uninstall { pkg_id: PackageIdView, should_deactivate: bool },
    AlreadyUninstalled { pkg_spec: PackageSpecView },
}

pub open spec fn uninstall_target_view(t: ResolvedUninstallTarget) -> UninstallTargetView {
    match t {
        ResolvedUninstallTarget::Uninstall { pkg_id, should_deactivate } => UninstallTargetView::Uninstall { pkg_id: pkg_id@, should_deactivate },
        ResolvedUninstallTarget::AlreadyUninstalled { pkg_spec } => UninstallTargetView::AlreadyUninstalled { pkg_spec: pkg_spec@ },
    }
}

pub open spec fn uninstall_key(t: UninstallTargetView) -> TargetKeyView {
    match t {
        UninstallTargetView::Uninstall { pkg_id, .. } => TargetKeyView::Id(pkg_id),
        UninstallTargetView::AlreadyUninstalled { pkg_spec } => TargetKeyView::Spec(pkg_spec),
    }
}

/// An uninstallation request: nothing to do when no recorded package is
/// selected; the one selected, to be deactivated first unless inactive; an
/// error when several are.
pub open spec fn uninstall_result(s: Seq<EntryView>, spec: PackageSpecView) -> Result<UninstallTargetView, ResolveErrorView> {
    let idx = candidate_indices(s, spec, false, s.len() as int);
    if idx.len() == 0 {
        Ok(UninstallTargetView::AlreadyUninstalled { pkg_spec: spec })
    } else if idx.len() == 1 {
        let e = s[idx[0]];
        Ok(UninstallTargetView::Uninstall { pkg_id: e.id, should_deactivate: e.activation != ActivationState::Inactive })
    } else {
        Err(ResolveErrorView::MultipleMatchingPackages { pkg_spec: spec, pkg_ids: candidate_ids(s, spec, false) })
    }
}

pub open spec fn uninstall_results(s: Seq<EntryView>, specs: Seq<PackageSpecView>) -> Seq<Result<UninstallTargetView, ResolveErrorView>> {
    specs.map_values(|sp: PackageSpecView| uninstall_result(s, sp))
}

pub open spec fn uninstall_target_views(ts: Seq<ResolvedUninstallTarget>) -> Seq<UninstallTargetView> {
    ts.map_values(|t: ResolvedUninstallTarget| uninstall_target_view(t))
}

pub open spec fn uninstall_keys(ts: Seq<UninstallTargetView>) -> Seq<TargetKeyView> {
    ts.map_values(|t: UninstallTargetView| uninstall_key(t))
}

/// The outcome of resolving uninstallation requests: every request's error
/// if any failed, else the targets with repeats dropped.
pub open spec fn uninstall_targets_result(s: Seq<EntryView>, specs: Seq<PackageSpecView>) -> Result<Seq<UninstallTargetView>, Seq<ResolveErrorView>> {
    let rs = uninstall_results(s, specs);
    if errs(rs).len() > 0 {
        Err(errs(rs))
    } else {
        Ok(dedup_by_key(oks(rs), uninstall_keys(oks(rs))))
    }
}

/// Resolves one uninstallation request.
pub fn resolve_uninstall_spec(db: &PackageDatabase, pkg_spec: &PackageSpec) -> (r: Result<ResolvedUninstallTarget, ResolveError>)
    requires
        db.wf(),
    ensures
        match (r, uninstall_result(db@, pkg_spec@)) {
            (Ok(t), Ok(v)) => uninstall_target_view(t) == v,
            (Err(e), Err(v)) => e@ == v,
            _ => false,
        },
{
    let idx = find_candidates(db, pkg_spec, false);
    proof {
        assert(idx@.map_values(|i: usize| i as int).len() == idx@.len());
    }
    if idx.len() == 0 {
        Ok(ResolvedUninstallTarget::AlreadyUninstalled { pkg_spec: pkg_spec.clone() })
    } else if idx.len() == 1 {
        let e = db.entry(idx[0]);
        proof {
            assert(idx@.map_values(|i: usize| i as int)[0] == idx@[0] as int);
        }
        Ok(ResolvedUninstallTarget::Uninstall { pkg_id: e.id().clone(), should_deactivate: !e.activation_state().is_inactive() })
    } else {
        let ids = candidate_package_ids(db, pkg_spec, false);
        Err(ResolveError::MultipleMatchingPackages { pkg_spec: pkg_spec.clone(), pkg_ids: ids })
    }
}

/// Resolves uninstallation requests against the recorded packages.
pub fn resolve_uninstall_targets(db: &PackageDatabase, pkg_specs: &Vec<PackageSpec>) -> (r: Result<Vec<ResolvedUninstallTarget>, Vec<ResolveError>>)
    requires
        db.wf(),
    ensures
        match (r, uninstall_targets_result(db@, spec_views(pkg_specs@))) {
            (Ok(ts), Ok(vs)) => uninstall_target_views(ts@) == vs,
            (Err(es), Err(vs)) => error_views(es@) == vs,
            _ => false,
        },
{
    let ghost specs = spec_views(pkg_specs@);
    let ghost rs = uninstall_results(db@, specs);
    let mut targets: Vec<ResolvedUninstallTarget> = Vec::new();
    let mut keys: Vec<TargetKey> = Vec::new();
    let mut errors: Vec<ResolveError> = Vec::new();
    let mut i: usize = 0;
    while i < pkg_specs.len()
        invariant
            i <= pkg_specs@.len(),
            db.wf(),
            specs == spec_views(pkg_specs@),
            rs == uninstall_results(db@, specs),
            uninstall_target_views(targets@) == oks(rs.take(i as int)),
            keys@.len() == targets@.len(),
            keys@.map_values(|k: TargetKey| k@) == uninstall_keys(oks(rs.take(i as int))),
            error_views(errors@) == errs(rs.take(i as int)),
        decreases pkg_specs@.len() - i,
    {
        proof {
            assert(rs.take(i + 1).drop_last() =~= rs.take(i as int));
            assert(rs.take(i + 1).last() == rs[i as int]);
        }
        match resolve_uninstall_spec(db, &pkg_specs[i]) {
            Ok(t) => {
                let ghost tv = targets@;
                let ghost kv = keys@;
                keys.push(t.key());
                targets.push(t);
                proof {
                    assert(uninstall_target_views(targets@) =~= uninstall_target_views(tv).push(uninstall_target_view(t)));
                    assert(keys@.map_values(|k: TargetKey| k@) =~= kv.map_values(|k: TargetKey| k@).push(t.key_view()));
                    assert(uninstall_keys(oks(rs.take(i + 1))) =~= uninstall_keys(oks(rs.take(i as int))).push(uninstall_key(uninstall_target_view(t))));
                }
            },
            Err(e) => {
                let ghost ev = errors@;
                errors.push(e);
                proof {
                    assert(error_views(errors@) =~= error_views(ev).push(e@));
                }
            },
        }
        i = i + 1;
    }
    proof {
        assert(rs.take(pkg_specs@.len() as int) =~= rs);
        assert(error_views(errors@).len() == errors@.len());
    }
    if errors.len() > 0 {
        return Err(errors);
    }
    let ghost tv = targets@;
    let ghost okv = oks(rs);
    let targets = dedup_targets(targets, keys);
    proof {
        let f = |t: ResolvedUninstallTarget| uninstall_target_view(t);
        let kv = uninstall_keys(okv);
        lemma_dedup_map(tv, kv, f);
        assert(tv.map_values(f) =~= okv);
        assert(targets@.map_values(f) =~= dedup_by_key(okv, kv));
        assert(uninstall_target_views(targets@) =~= dedup_by_key(okv, kv));
    }
    Ok(targets)
}

} // verus!
