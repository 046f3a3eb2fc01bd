//! What resolution decides for each requested package, before planning.
use vstd::prelude::*;

use crate::package::definition::PackageDefinition;
use crate::package::id::{PackageId, PackageIdView};
use crate::package::spec::{PackageSpec, PackageSpecView};
use crate::registry::RegistryId;

verus! {

/// Whether an install target needs an installation.
#[derive(Debug, Clone, PartialEq, Eq)]
pub enum InstallTargetKind {
    AlreadyInstalled { pkg_id: PackageId },
    Install { pkg: PackageDefinition },
}

impl InstallTargetKind {
    pub open spec fn pkg_id_view(&self) -> PackageIdView {
        match self {
            InstallTargetKind::AlreadyInstalled { pkg_id } => pkg_id@,
            InstallTargetKind::Install { pkg } => pkg.id@,
        }
    }

    pub open spec fn wf(&self) -> bool {
        match self {
            InstallTargetKind::AlreadyInstalled { pkg_id } => pkg_id.wf(),
            InstallTargetKind::Install { pkg } => pkg.wf(),
        }
    }

    /// The ID of the package that the target names.
    pub fn pkg_id(&self) -> (r: &PackageId)
        ensures
            r@ == self.pkg_id_view(),
            self.wf() ==> r.wf(),
    {
        match self {
            InstallTargetKind::AlreadyInstalled { pkg_id } => pkg_id,
            InstallTargetKind::Install { pkg } => &pkg.id,
        }
    }
}

/// Where an install target was found.
#[derive(Debug, Clone, PartialEq, Eq)]
pub enum InstallResolutionDetail {
    Registry { reg_id: RegistryId, pkg_spec: PackageSpec },
    Installed { pkg_spec: PackageSpec },
    ManifestFile { path: String },
}

/// A package to install, and whether to activate it afterwards.
#[derive(Debug, Clone, PartialEq, Eq)]
pub struct ResolvedInstallTarget {
    pub kind: InstallTargetKind,
    pub detail: InstallResolutionDetail,
    pub should_activate: bool,
}

/// A package to uninstall, or a request that finds nothing to uninstall.
#[derive(Debug, Clone, PartialEq, Eq)]
pub enum ResolvedUninstallTarget {
    Uninstall { pkg_id: PackageId, should_deactivate: bool },
    AlreadyUninstalled { pkg_spec: PackageSpec },
}

/// An installed package to activate.
#[derive(Debug, Clone, PartialEq, Eq)]
pub struct ResolvedActivateTarget {
    pub pkg_id: PackageId,
}

/// A package to deactivate, or a request that finds nothing active.
#[derive(Debug, Clone, PartialEq, Eq)]
pub enum ResolvedDeactivateTarget {
    Deactivate { pkg_id: PackageId },
    AlreadyInactive { pkg_spec: PackageSpec },
}

/// Which installation change a repair finishes by uninstalling.
#[derive(Debug, Clone, Copy, PartialEq, Eq, Structural)]
pub enum InstallationRepairKind {
    IncompleteInstall,
    IncompleteUninstall,
}

/// Which activation change a repair finishes by deactivating.
#[derive(Debug, Clone, Copy, PartialEq, Eq, Structural)]
pub enum ActivationRepairKind {
    IncompleteActivation,
    IncompleteDeactivation,
}

/// What a repair does for one package.
#[derive(Debug, Clone, PartialEq, Eq)]
pub enum ResolvedRepairTarget {
    NotBroken { pkg_spec: PackageSpec },
    Deactivate { pkg_id: PackageId, kind: ActivationRepairKind },
    Uninstall { pkg_id: PackageId, kind: InstallationRepairKind },
    AlreadyUninstalled { pkg_spec: PackageSpec },
}

/// What two targets are compared by when duplicates are dropped: a package
/// ID, or a specifier; an ID and a specifier never collide.
#[derive(Debug, PartialEq, Eq)]
pub enum TargetKey {
    Id(PackageId),
    Spec(PackageSpec),
}

pub enum TargetKeyView {
    Id(PackageIdView),
    Spec(PackageSpecView),
}

impl View for TargetKey {
    type V = TargetKeyView;

    open spec fn view(&self) -> TargetKeyView {
        match self {
            TargetKey::Id(id) => TargetKeyView::Id(id@),
            TargetKey::Spec(spec) => TargetKeyView::Spec(spec@),
        }
    }
}

impl TargetKey {
    pub fn same(&self, other: &TargetKey) -> (r: bool)
        ensures
            r == (self@ == other@),
    {
        match (self, other) {
            (TargetKey::Id(a), TargetKey::Id(b)) => a.equals(b),
            (TargetKey::Spec(a), TargetKey::Spec(b)) => a.equals(b),
            _ => false,
        }
    }
}

/// The items whose key does not occur earlier, in order.
pub open spec fn dedup_by_key<T, K>(items: Seq<T>, keys: Seq<K>) -> Seq<T>
    decreases items.len(),
{
    if items.len() == 0 {
        Seq::empty()
    } else {
        let n = items.len() - 1;
        let kept = dedup_by_key(items.take(n), keys.take(n));
        if keys.take(n).contains(keys[n]) {
            kept
        } else {
            kept.push(items[n])
        }
    }
}

/// Keeps the first item of each key, in order.
pub fn dedup_targets<T>(items: Vec<T>, keys: Vec<TargetKey>) -> (r: Vec<T>)
    requires
        items@.len() == keys@.len(),
    ensures
        r@ == dedup_by_key(items@, keys@.map_values(|k: TargetKey| k@)),
{
    let ghost all_items = items@;
    let ghost all_keys = keys@.map_values(|k: TargetKey| k@);
    let n = items.len();
    let mut rest = items;
    let mut kept: Vec<T> = Vec::new();
    let mut i: usize = 0;
    while i < n
        invariant
            n == all_items.len(),
            n == keys@.len(),
            all_keys == keys@.map_values(|k: TargetKey| k@),
            i <= n,
            rest@ == all_items.skip(i as int),
            kept@ == dedup_by_key(all_items.take(i as int), all_keys.take(i as int)),
        decreases n - i,
    {
        let item = rest.remove(0);
        let mut seen = false;
        let mut j: usize = 0;
        while j < i
            invariant
                i < n,
                n == keys@.len(),
                all_keys == keys@.map_values(|k: TargetKey| k@),
                j <= i,
                seen <==> all_keys.take(j as int).contains(all_keys[i as int]),
            decreases i - j,
        {
            if keys[j].same(&keys[i]) {
                seen = true;
            }
            proof {
                let t = all_keys.take(j + 1);
                assert(t =~= all_keys.take(j as int).push(all_keys[j as int]));
                if t.contains(all_keys[i as int]) {
                    let k = choose|k: int| 0 <= k < t.len() && t[k] == all_keys[i as int];
                    if k < j {
                        assert(all_keys.take(j as int)[k] == all_keys[i as int]);
                    }
                }
                if all_keys.take(j as int).contains(all_keys[i as int]) {
                    let k = choose|k: int| 0 <= k < j && all_keys.take(j as int)[k] == all_keys[i as int];
                    assert(t[k] == all_keys[i as int]);
                }
                if all_keys[j as int] == all_keys[i as int] {
                    assert(t[j as int] == all_keys[i as int]);
                }
            }
            j = j + 1;
        }
        proof {
            assert(all_items.take(i + 1).take(i as int) =~= all_items.take(i as int));
            assert(all_keys.take(i + 1).take(i as int) =~= all_keys.take(i as int));
            assert(all_items.skip(i as int)[0] == all_items[i as int]);
            assert(rest@ =~= all_items.skip(i + 1));
        }
        if !seen {
            kept.push(item);
        }
        i = i + 1;
    }
    proof {
        assert(all_items.take(n as int) =~= all_items);
        assert(all_keys.take(n as int) =~= all_keys);
    }
    kept
}

/// Dropping duplicates keeps each key exactly once: the kept keys are the
/// keys given, and no key is kept twice.
pub proof fn law_dedup_keeps_each_key_once<K>(keys: Seq<K>)
    ensures
        forall|x: K| keys.contains(x) <==> #[trigger] dedup_by_key(keys, keys).contains(x),
        dedup_by_key(keys, keys).no_duplicates(),
    decreases keys.len(),
{
    if keys.len() > 0 {
        let n = keys.len() - 1;
        let init = keys.take(n);
        law_dedup_keeps_each_key_once(init);
        let kept = dedup_by_key(init, init);
        assert(dedup_by_key(keys, keys) == if init.contains(keys[n]) { kept } else { kept.push(keys[n]) });
        assert forall|x: K| keys.contains(x) <==> #[trigger] dedup_by_key(keys, keys).contains(x) by {
            if keys.contains(x) {
                let i = choose|i: int| 0 <= i < keys.len() && keys[i] == x;
                if i < n {
                    assert(init[i] == x);
                    assert(init.contains(x));
                }
                if !init.contains(keys[n]) {
                    assert(kept.push(keys[n])[kept.len() as int] == keys[n]);
                    if kept.contains(x) {
                        let j = choose|j: int| 0 <= j < kept.len() && kept[j] == x;
                        assert(kept.push(keys[n])[j] == x);
                    }
                }
            }
            if dedup_by_key(keys, keys).contains(x) {
                if kept.contains(x) {
                    let j = choose|j: int| 0 <= j < init.len() && init[j] == x;
                    assert(keys[j] == x);
                } else {
                    let d = dedup_by_key(keys, keys);
                    let j = choose|j: int| 0 <= j < d.len() && d[j] == x;
                    if j < kept.len() {
                        assert(kept[j] == x);
                    }
                    assert(keys[n] == x);
                }
            }
        }
        if !init.contains(keys[n]) {
            assert(!kept.contains(keys[n]));
            assert forall|i: int, j: int|
                0 <= i < kept.push(keys[n]).len() && 0 <= j < kept.push(keys[n]).len() && i != j implies kept.push(
                keys[n],
            )[i] != kept.push(keys[n])[j] by {
                if i < kept.len() && j < kept.len() {
                } else if i < kept.len() {
                    assert(kept[i] != keys[n]);
                } else if j < kept.len() {
                    assert(kept[j] != keys[n]);
                }
            }
        }
    }
}

/// Dropping duplicates commutes with mapping the items.
pub proof fn lemma_dedup_map<T, K, U>(items: Seq<T>, keys: Seq<K>, f: spec_fn(T) -> U)
    requires
        items.len() == keys.len(),
    ensures
        dedup_by_key(items, keys).map_values(f) == dedup_by_key(items.map_values(f), keys),
    decreases items.len(),
{
    if items.len() > 0 {
        let n = items.len() - 1;
        lemma_dedup_map(items.take(n), keys.take(n), f);
        assert(items.map_values(f).take(n) =~= items.take(n).map_values(f));
        let kept = dedup_by_key(items.take(n), keys.take(n));
        assert(kept.push(items[n]).map_values(f) =~= kept.map_values(f).push(f(items[n])));
    }
}

impl ResolvedActivateTarget {
    pub fn key(&self) -> (r: TargetKey)
        ensures
            r@ == TargetKeyView::Id(self.pkg_id@),
    {
        TargetKey::Id(self.pkg_id.clone())
    }
}

impl ResolvedDeactivateTarget {
    pub open spec fn key_view(self) -> TargetKeyView {
        match self {
            ResolvedDeactivateTarget::Deactivate { pkg_id } => TargetKeyView::Id(pkg_id@),
            ResolvedDeactivateTarget::AlreadyInactive { pkg_spec } => TargetKeyView::Spec(pkg_spec@),
        }
    }

    pub fn key(&self) -> (r: TargetKey)
        ensures
            r@ == self.key_view(),
    {
        match self {
            ResolvedDeactivateTarget::Deactivate { pkg_id } => TargetKey::Id(pkg_id.clone()),
            ResolvedDeactivateTarget::AlreadyInactive { pkg_spec } => TargetKey::Spec(pkg_spec.clone()),
        }
    }
}

impl ResolvedUninstallTarget {
    pub open spec fn key_view(self) -> TargetKeyView {
        match self {
            ResolvedUninstallTarget::Uninstall { pkg_id, .. } => TargetKeyView::Id(pkg_id@),
            ResolvedUninstallTarget::AlreadyUninstalled { pkg_spec } => TargetKeyView::Spec(pkg_spec@),
        }
    }

    pub fn key(&self) -> (r: TargetKey)
        ensures
            r@ == self.key_view(),
    {
        match self {
            ResolvedUninstallTarget::Uninstall { pkg_id, .. } => TargetKey::Id(pkg_id.clone()),
            ResolvedUninstallTarget::AlreadyUninstalled { pkg_spec } => TargetKey::Spec(pkg_spec.clone()),
        }
    }
}

impl ResolvedRepairTarget {
    pub open spec fn key_view(self) -> TargetKeyView {
        match self {
            ResolvedRepairTarget::NotBroken { pkg_spec } => TargetKeyView::Spec(pkg_spec@),
            ResolvedRepairTarget::Deactivate { pkg_id, .. } => TargetKeyView::Id(pkg_id@),
            ResolvedRepairTarget::Uninstall { pkg_id, .. } => TargetKeyView::Id(pkg_id@),
            ResolvedRepairTarget::AlreadyUninstalled { pkg_spec } => TargetKeyView::Spec(pkg_spec@),
        }
    }

    pub fn key(&self) -> (r: TargetKey)
        ensures
            r@ == self.key_view(),
    {
        match self {
            ResolvedRepairTarget::NotBroken { pkg_spec } => TargetKey::Spec(pkg_spec.clone()),
            ResolvedRepairTarget::Deactivate { pkg_id, .. } => TargetKey::Id(pkg_id.clone()),
            ResolvedRepairTarget::Uninstall { pkg_id, .. } => TargetKey::Id(pkg_id.clone()),
            ResolvedRepairTarget::AlreadyUninstalled { pkg_spec } => TargetKey::Spec(pkg_spec.clone()),
        }
    }
}

} // verus!
