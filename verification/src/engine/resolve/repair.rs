//! Resolution of repairs: the entries left half-way through a change.
use vstd::prelude::*;

use super::common::{candidate_indices, find_candidates};
use super::installed::spec_views;
use crate::db::{EntryView, PackageDatabase};
use crate::engine::target::{
    dedup_by_key, dedup_targets, lemma_dedup_map, ActivationRepairKind, InstallationRepairKind,
    ResolvedRepairTarget, TargetKey, TargetKeyView,
};
use crate::package::id::PackageIdView;
use crate::package::spec::{PackageSpec, PackageSpecView};
use crate::package::state::{ActivationState, InstallationState};

verus! {

/// The view of a repair target.
pub enum RepairTargetView {
    NotBroken { pkg_spec: PackageSpecView },
    Deactivate { pkg_id: PackageIdView, kind: ActivationRepairKind },
    Uninstall { pkg_id: PackageIdView, kind: InstallationRepairKind },
    AlreadyUninstalled { pkg_spec: PackageSpecView },
}

pub open spec fn repair_target_view(t: ResolvedRepairTarget) -> RepairTargetView {
    match t {
        ResolvedRepairTarget::NotBroken { pkg_spec } => RepairTargetView::NotBroken { pkg_spec: pkg_spec@ },
        ResolvedRepairTarget::Deactivate { pkg_id, kind } => RepairTargetView::Deactivate { pkg_id: pkg_id@, kind },
        ResolvedRepairTarget::Uninstall { pkg_id, kind } => RepairTargetView::Uninstall { pkg_id: pkg_id@, kind },
        ResolvedRepairTarget::AlreadyUninstalled { pkg_spec } => RepairTargetView::AlreadyUninstalled { pkg_spec: pkg_spec@ },
    }
}

pub open spec fn repair_key(t: RepairTargetView) -> TargetKeyView {
    match t {
        RepairTargetView::NotBroken { pkg_spec } => TargetKeyView::Spec(pkg_spec),
        RepairTargetView::Deactivate { pkg_id, .. } => TargetKeyView::Id(pkg_id),
        RepairTargetView::Uninstall { pkg_id, .. } => TargetKeyView::Id(pkg_id),
        RepairTargetView::AlreadyUninstalled { pkg_spec } => TargetKeyView::Spec(pkg_spec),
    }
}

pub open spec fn repair_target_views(ts: Seq<ResolvedRepairTarget>) -> Seq<RepairTargetView> {
    ts.map_values(|t: ResolvedRepairTarget| repair_target_view(t))
}

pub open spec fn repair_keys(ts: Seq<RepairTargetView>) -> Seq<TargetKeyView> {
    ts.map_values(|t: RepairTargetView| repair_key(t))
}

/// The repair an entry needs: an interrupted activation change is finished
/// by a deactivation, an interrupted installation change by an
/// uninstallation; a settled entry needs none.
pub open spec fn entry_repair(e: EntryView) -> Option<RepairTargetView> {
    match e.installation {
        InstallationState::Installed => match e.activation {
            ActivationState::IncompleteActivation => Some(RepairTargetView::Deactivate { pkg_id: e.id, kind: ActivationRepairKind::IncompleteActivation }),
            ActivationState::IncompleteDeactivation => Some(RepairTargetView::Deactivate { pkg_id: e.id, kind: ActivationRepairKind::IncompleteDeactivation }),
            _ => None,
        },
        InstallationState::IncompleteInstall => Some(RepairTargetView::Uninstall { pkg_id: e.id, kind: InstallationRepairKind::IncompleteInstall }),
        InstallationState::IncompleteUninstall => Some(RepairTargetView::Uninstall { pkg_id: e.id, kind: InstallationRepairKind::IncompleteUninstall }),
    }
}

/// The repairs of the entries at the given indices, in order.
pub open spec fn repairs_of(s: Seq<EntryView>, idx: Seq<int>) -> Seq<RepairTargetView>
    decreases idx.len(),
{
    if idx.len() == 0 {
        Seq::empty()
    } else {
        match entry_repair(s[idx.last()]) {
            Some(t) => repairs_of(s, idx.drop_last()).push(t),
            None => repairs_of(s, idx.drop_last()),
        }
    }
}

/// The repairs of one request: nothing to repair when no entry is selected,
/// not broken when none of the selected needs a repair, else the repair of
/// each selected entry that needs one.
pub open spec fn repair_spec_targets(s: Seq<EntryView>, spec: PackageSpecView) -> Seq<RepairTargetView> {
    let idx = candidate_indices(s, spec, false, s.len() as int);
    if idx.len() == 0 {
        seq![RepairTargetView::AlreadyUninstalled { pkg_spec: spec }]
    } else if repairs_of(s, idx).len() == 0 {
        seq![RepairTargetView::NotBroken { pkg_spec: spec }]
    } else {
        repairs_of(s, idx)
    }
}

/// The repairs of the requests, concatenated.
pub open spec fn repair_specs_targets(s: Seq<EntryView>, specs: Seq<PackageSpecView>) -> Seq<RepairTargetView>
    decreases specs.len(),
{
    if specs.len() == 0 {
        Seq::empty()
    } else {
        repair_specs_targets(s, specs.drop_last()) + repair_spec_targets(s, specs.last())
    }
}

fn entry_repair_target(db: &PackageDatabase, i: usize) -> (r: Option<ResolvedRepairTarget>)
    requires
        i < db@.len(),
    ensures
        match (r, entry_repair(db@[i as int])) {
            (Some(t), Some(v)) => repair_target_view(t) == v,
            (None, None) => true,
            _ => false,
        },
{
    let e = db.entry(i);
    match e.installation_state() {
        InstallationState::Installed => match e.activation_state() {
            ActivationState::IncompleteActivation => Some(ResolvedRepairTarget::Deactivate { pkg_id: e.id().clone(), kind: ActivationRepairKind::IncompleteActivation }),
            ActivationState::IncompleteDeactivation => Some(ResolvedRepairTarget::Deactivate { pkg_id: e.id().clone(), kind: ActivationRepairKind::IncompleteDeactivation }),
            _ => None,
        },
        InstallationState::IncompleteInstall => Some(ResolvedRepairTarget::Uninstall { pkg_id: e.id().clone(), kind: InstallationRepairKind::IncompleteInstall }),
        InstallationState::IncompleteUninstall => Some(ResolvedRepairTarget::Uninstall { pkg_id: e.id().clone(), kind: InstallationRepairKind::IncompleteUninstall }),
    }
}

/// Appends the repairs of the entries at `idx`, with their keys.
fn push_repairs(db: &PackageDatabase, idx: &Vec<usize>, targets: &mut Vec<ResolvedRepairTarget>, keys: &mut Vec<TargetKey>)
    requires
        forall|k: int| 0 <= k < idx@.len() ==> (#[trigger] idx@[k]) < db@.len(),
        old(keys)@.len() == old(targets)@.len(),
    ensures
        repair_target_views(final(targets)@) == repair_target_views(old(targets)@) + repairs_of(db@, idx@.map_values(|i: usize| i as int)),
        final(keys)@.len() == final(targets)@.len(),
        final(keys)@.map_values(|k: TargetKey| k@) == old(keys)@.map_values(|k: TargetKey| k@) + repair_keys(repairs_of(db@, idx@.map_values(|i: usize| i as int))),
{
    let ghost t0 = repair_target_views(targets@);
    let ghost k0 = keys@.map_values(|k: TargetKey| k@);
    let ghost iv = idx@.map_values(|i: usize| i as int);
    let mut j: usize = 0;
    while j < idx.len()
        invariant
            j <= idx@.len(),
            iv == idx@.map_values(|i: usize| i as int),
            forall|k: int| 0 <= k < idx@.len() ==> (#[trigger] idx@[k]) < db@.len(),
            repair_target_views(targets@) == t0 + repairs_of(db@, iv.take(j as int)),
            keys@.len() == targets@.len(),
            keys@.map_values(|k: TargetKey| k@) == k0 + repair_keys(repairs_of(db@, iv.take(j as int))),
        decreases idx@.len() - j,
    {
        proof {
            assert(iv.take(j + 1).drop_last() =~= iv.take(j as int));
            assert(iv.take(j + 1).last() == idx@[j as int] as int);
        }
        match entry_repair_target(db, idx[j]) {
            Some(t) => {
                let ghost tv = targets@;
                let ghost kv = keys@;
                keys.push(t.key());
                targets.push(t);
                proof {
                    assert(repair_target_views(targets@) =~= repair_target_views(tv).push(repair_target_view(t)));
                    assert(keys@.map_values(|k: TargetKey| k@) =~= kv.map_values(|k: TargetKey| k@).push(t.key_view()));
                    assert(repair_keys(repairs_of(db@, iv.take(j + 1))) =~= repair_keys(repairs_of(db@, iv.take(j as int))).push(repair_key(repair_target_view(t))));
                }
            },
            None => {},
        }
        j = j + 1;
    }
    proof {
        assert(iv.take(idx@.len() as int) =~= iv);
    }
}

/// Resolves repair requests: the repairs of each request in turn, with
/// repeats dropped.
pub fn resolve_repair_targets(db: &PackageDatabase, pkg_specs: &Vec<PackageSpec>) -> (r: Vec<ResolvedRepairTarget>)
    ensures
        repair_target_views(r@) == dedup_by_key(
            repair_specs_targets(db@, spec_views(pkg_specs@)),
            repair_keys(repair_specs_targets(db@, spec_views(pkg_specs@))),
        ),
{
    let ghost specs = spec_views(pkg_specs@);
    let mut targets: Vec<ResolvedRepairTarget> = Vec::new();
    let mut keys: Vec<TargetKey> = Vec::new();
    let mut i: usize = 0;
    while i < pkg_specs.len()
        invariant
            i <= pkg_specs@.len(),
            specs == spec_views(pkg_specs@),
            repair_target_views(targets@) == repair_specs_targets(db@, specs.take(i as int)),
            keys@.len() == targets@.len(),
            keys@.map_values(|k: TargetKey| k@) == repair_keys(repair_specs_targets(db@, specs.take(i as int))),
        decreases pkg_specs@.len() - i,
    {
        let spec = &pkg_specs[i];
        proof {
            assert(specs.take(i + 1).drop_last() =~= specs.take(i as int));
            assert(specs.take(i + 1).last() == spec@);
        }
        let ghost tv = repair_target_views(targets@);
        let ghost kv = keys@.map_values(|k: TargetKey| k@);
        let idx = find_candidates(db, spec, false);
        let ghost iv = idx@.map_values(|i: usize| i as int);
        proof {
            assert(iv.len() == idx@.len());
        }
        if idx.len() == 0 {
            let t = ResolvedRepairTarget::AlreadyUninstalled { pkg_spec: spec.clone() };
            keys.push(t.key());
            targets.push(t);
            proof {
                assert(repair_target_views(targets@) =~= tv + seq![repair_target_view(t)]);
                assert(keys@.map_values(|k: TargetKey| k@) =~= kv + repair_keys(seq![repair_target_view(t)]));
            }
        } else {
            let before = targets.len();
            push_repairs(db, &idx, &mut targets, &mut keys);
            if targets.len() == before {
                let t = ResolvedRepairTarget::NotBroken { pkg_spec: spec.clone() };
                keys.push(t.key());
                targets.push(t);
                proof {
                    assert(repair_target_views(targets@) =~= tv + seq![repair_target_view(t)]);
                    assert(keys@.map_values(|k: TargetKey| k@) =~= kv + repair_keys(seq![repair_target_view(t)]));
                }
            }
        }
        proof {
            assert(repair_keys(tv + repair_spec_targets(db@, spec@)) =~= repair_keys(tv) + repair_keys(repair_spec_targets(db@, spec@)));
        }
        i = i + 1;
    }
    proof {
        assert(specs.take(pkg_specs@.len() as int) =~= specs);
    }
    let ghost tv = targets@;
    let ghost all = repair_specs_targets(db@, specs);
    let targets = dedup_targets(targets, keys);
    proof {
        let f = |t: ResolvedRepairTarget| repair_target_view(t);
        lemma_dedup_map(tv, repair_keys(all), f);
        assert(tv.map_values(f) =~= all);
        assert(repair_target_views(targets@) =~= dedup_by_key(all, repair_keys(all)));
    }
    targets
}

/// Resolves the repair of the whole database: every entry that needs one,
/// with repeats dropped.
pub fn resolve_all_repair_targets(db: &PackageDatabase) -> (r: Vec<ResolvedRepairTarget>)
    ensures
        ({
            let all = repairs_of(db@, Seq::new(db@.len(), |i: int| i));
            repair_target_views(r@) == dedup_by_key(all, repair_keys(all))
        }),
{
    let mut idx: Vec<usize> = Vec::new();
    let mut i: usize = 0;
    while i < db.len()
        invariant
            i <= db@.len(),
            idx@.len() == i,
            forall|k: int| 0 <= k < i ==> (#[trigger] idx@[k]) == k,
        decreases db@.len() - i,
    {
        idx.push(i);
        i = i + 1;
    }
    proof {
        assert(idx@.map_values(|k: usize| k as int) =~= Seq::new(db@.len(), |i: int| i));
    }
    let mut targets: Vec<ResolvedRepairTarget> = Vec::new();
    let mut keys: Vec<TargetKey> = Vec::new();
    push_repairs(db, &idx, &mut targets, &mut keys);
    let ghost tv = targets@;
    let ghost all = repairs_of(db@, Seq::new(db@.len(), |i: int| i));
    proof {
        assert(repair_target_views(Seq::<ResolvedRepairTarget>::empty()) =~= Seq::<RepairTargetView>::empty());
        assert(repair_target_views(tv) =~= all);
        assert(Seq::<TargetKey>::empty().map_values(|k: TargetKey| k@) =~= Seq::<TargetKeyView>::empty());
    }
    let targets = dedup_targets(targets, keys);
    proof {
        let f = |t: ResolvedRepairTarget| repair_target_view(t);
        lemma_dedup_map(tv, repair_keys(all), f);
        assert(tv.map_values(f) =~= all);
        assert(repair_target_views(targets@) =~= dedup_by_key(all, repair_keys(all)));
    }
    targets
}

} // verus!
