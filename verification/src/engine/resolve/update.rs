//! Resolution of updates: the newer versions that the registries offer for
//! installed packages.
use vstd::prelude::*;

use super::common::{candidate_indices, errs, find_candidates, oks};
use super::install::{detail_view, install_target_view, install_target_views, indexes_wf, DetailView, InstallTargetView, KindView};
use super::installed::spec_views;
use crate::db::{EntryView, PackageDatabase};
use crate::engine::target::{InstallResolutionDetail, InstallTargetKind, ResolvedInstallTarget};
use crate::package::definition::PackageDefinition;
use crate::package::equality::{copy_definition, definition_view};
use crate::package::id::{valid_package_id, PackageId, PackageIdView};
use crate::package::name::PackageName;
use crate::package::spec::{PackageSpec, PackageSpecView};
use crate::package::state::{ActivationState, InstallationState};
use crate::package::version::semver_order;
use crate::registry::{latest_candidate, RegistryId, RegistryIndex};
use crate::text::{compare_str, lemma_lex_order_antisymmetric, lemma_lex_order_transitive, lex_order, str_eq, Order};

verus! {

/// An installed package to update, and whether it is active.
pub type UpdateCandidateView = (PackageIdView, bool);

/// Where `x`'s name stands among entries ordered by name.
pub open spec fn name_position(acc: Seq<UpdateCandidateView>, name: Seq<char>) -> int
    decreases acc.len(),
{
    if acc.len() == 0 {
        0
    } else if lex_order(name, acc[0].0.0) <= 0 {
        0
    } else {
        1 + name_position(acc.drop_first(), name)
    }
}

/// Adds `x` to entries kept one per name in name order: it replaces the
/// entry of its name when that one's version is older, and is dropped when
/// it is not newer.
pub open spec fn latest_insert(acc: Seq<UpdateCandidateView>, x: UpdateCandidateView) -> Seq<UpdateCandidateView> {
    let p = name_position(acc, x.0.0);
    if p < acc.len() && acc[p].0.0 == x.0.0 {
        if semver_order(acc[p].0.1, x.0.1) < 0 {
            acc.update(p, x)
        } else {
            acc
        }
    } else {
        acc.insert(p, x)
    }
}

/// The latest version of each name, in name order.
pub open spec fn collect_latest(items: Seq<UpdateCandidateView>) -> Seq<UpdateCandidateView>
    decreases items.len(),
{
    if items.len() == 0 {
        Seq::empty()
    } else {
        latest_insert(collect_latest(items.drop_last()), items.last())
    }
}

pub open spec fn candidate_views(cs: Seq<(PackageId, bool)>) -> Seq<UpdateCandidateView> {
    cs.map_values(|c: (PackageId, bool)| (c.0@, c.1))
}

proof fn lemma_name_position(acc: Seq<UpdateCandidateView>, name: Seq<char>, p: int)
    requires
        0 <= p <= acc.len(),
        forall|j: int| 0 <= j < p ==> lex_order(name, (#[trigger] acc[j]).0.0) > 0,
        p < acc.len() ==> lex_order(name, acc[p].0.0) <= 0,
    ensures
        name_position(acc, name) == p,
    decreases p,
{
    if p > 0 {
        let t = acc.drop_first();
        assert forall|j: int| 0 <= j < p - 1 implies lex_order(name, (#[trigger] t[j]).0.0) > 0 by {
            assert(t[j] == acc[j + 1]);
        }
        if p < acc.len() {
            assert(t[p - 1] == acc[p]);
        }
        lemma_name_position(t, name, p - 1);
    }
}

/// Entries in strictly increasing order of name: one per name.
#[verifier::opaque]
pub open spec fn names_sorted(acc: Seq<UpdateCandidateView>) -> bool {
    forall|a: int, b: int| 0 <= a < b < acc.len() ==> lex_order(#[trigger] acc[a].0.0, #[trigger] acc[b].0.0) < 0
}

/// Every kept entry is one of the first `n` items.
#[verifier::opaque]
pub open spec fn kept_from_items(items: Seq<UpdateCandidateView>, n: int, acc: Seq<UpdateCandidateView>) -> bool {
    forall|j: int| 0 <= j < acc.len() ==> exists|k: int| 0 <= k < n && items[k] == #[trigger] acc[j]
}

/// Each of the first `n` items has a kept entry of its name.
#[verifier::opaque]
pub open spec fn names_covered(items: Seq<UpdateCandidateView>, n: int, acc: Seq<UpdateCandidateView>) -> bool {
    forall|k: int| 0 <= k < n ==> exists|j: int| 0 <= j < acc.len() && acc[j].0.0 == (#[trigger] items[k]).0.0
}

/// No one of the first `n` items has the name of a kept entry and a version
/// that SemVer orders after the kept one.
#[verifier::opaque]
pub open spec fn kept_versions_latest(items: Seq<UpdateCandidateView>, n: int, acc: Seq<UpdateCandidateView>) -> bool {
    forall|j: int, k: int|
        0 <= j < acc.len() && 0 <= k < n && (#[trigger] items[k]).0.0 == (#[trigger] acc[j]).0.0 && items[k].0.1
            != acc[j].0.1 ==> semver_order(items[k].0.1, acc[j].0.1) <= 0
}

/// `acc` keeps, of the first `n` items, the latest version of each name:
/// every kept entry is one of those items; every one of those items has a
/// kept entry of its name; and no item of a kept entry's name has a version
/// that SemVer orders after the kept one.
pub open spec fn keeps_latest(items: Seq<UpdateCandidateView>, n: int, acc: Seq<UpdateCandidateView>) -> bool {
    &&& kept_from_items(items, n, acc)
    &&& names_covered(items, n, acc)
    &&& kept_versions_latest(items, n, acc)
}

/// Entries sorted by name hold each name once.
proof fn lemma_names_distinct(acc: Seq<UpdateCandidateView>, p: int)
    requires
        names_sorted(acc),
        0 <= p < acc.len(),
    ensures
        forall|j: int| 0 <= j < acc.len() && j != p ==> (#[trigger] acc[j]).0.0 != acc[p].0.0,
{
    reveal(names_sorted);
    assert forall|j: int| 0 <= j < acc.len() && j != p implies (#[trigger] acc[j]).0.0 != acc[p].0.0 by {
        if j < p {
            assert(lex_order(acc[j].0.0, acc[p].0.0) < 0);
        } else {
            assert(lex_order(acc[p].0.0, acc[j].0.0) < 0);
        }
        lemma_lex_order_antisymmetric(acc[j].0.0, acc[p].0.0);
    }
}

/// Nothing kept yet keeps the latest of no item.
proof fn lemma_keeps_latest_empty(items: Seq<UpdateCandidateView>)
    ensures
        names_sorted(Seq::<UpdateCandidateView>::empty()),
        keeps_latest(items, 0, Seq::<UpdateCandidateView>::empty()),
{
    reveal(names_sorted);
    reveal(kept_from_items);
    reveal(names_covered);
    reveal(kept_versions_latest);
}

/// An item not newer than the kept entry of its name leaves the entries as
/// they are.
proof fn lemma_keep_older(all: Seq<UpdateCandidateView>, i: int, av: Seq<UpdateCandidateView>, p: int)
    requires
        names_sorted(av),
        keeps_latest(all, i, av),
        0 <= i < all.len(),
        0 <= p < av.len(),
        av[p].0.0 == all[i].0.0,
        semver_order(all[i].0.1, av[p].0.1) <= 0,
    ensures
        keeps_latest(all, i + 1, av),
{
    lemma_names_distinct(av, p);
    assert(kept_from_items(all, i + 1, av)) by {
        reveal(kept_from_items);
        assert forall|j: int| 0 <= j < av.len() implies exists|k: int| 0 <= k < i + 1 && all[k] == #[trigger] av[j] by {
            let k = choose|k: int| 0 <= k < i && all[k] == av[j];
        }
    }
    assert(names_covered(all, i + 1, av)) by {
        reveal(names_covered);
        assert forall|k: int| 0 <= k < i + 1 implies exists|j: int|
            0 <= j < av.len() && av[j].0.0 == (#[trigger] all[k]).0.0 by {
            if k == i {
                assert(av[p].0.0 == all[k].0.0);
            }
        }
    }
    assert(kept_versions_latest(all, i + 1, av)) by {
        reveal(kept_versions_latest);
        assert forall|j: int, k: int|
            0 <= j < av.len() && 0 <= k < i + 1 && (#[trigger] all[k]).0.0 == (#[trigger] av[j]).0.0 && all[k].0.1
                != av[j].0.1 implies semver_order(all[k].0.1, av[j].0.1) <= 0 by {
            if k == i && j != p {
                assert(av[j].0.0 != av[p].0.0);
            }
        }
    }
}

/// An item newer than the kept entry of its name takes that entry's place.
proof fn lemma_replace_older(all: Seq<UpdateCandidateView>, i: int, av: Seq<UpdateCandidateView>, p: int)
    requires
        names_sorted(av),
        keeps_latest(all, i, av),
        0 <= i < all.len(),
        0 <= p < av.len(),
        av[p].0.0 == all[i].0.0,
        semver_order(av[p].0.1, all[i].0.1) <= 0,
        forall|k: int| 0 <= k < all.len() ==> crate::package::version::semver_accepts((#[trigger] all[k]).0.1),
        forall|c: Seq<char>|
            crate::package::version::semver_accepts(c) && #[trigger] semver_order(c, av[p].0.1) <= 0 ==> semver_order(
                c,
                all[i].0.1,
            ) <= 0,
    ensures
        names_sorted(av.update(p, all[i])),
        keeps_latest(all, i + 1, av.update(p, all[i])),
{
    lemma_names_distinct(av, p);
    let nv = av.update(p, all[i]);
    assert(names_sorted(nv)) by {
        reveal(names_sorted);
        assert forall|a: int, b: int| 0 <= a < b < nv.len() implies lex_order(#[trigger] nv[a].0.0, #[trigger] nv[b].0.0)
            < 0 by {
            assert(av[a].0.0 == nv[a].0.0 && av[b].0.0 == nv[b].0.0);
        }
    }
    assert(kept_from_items(all, i + 1, nv)) by {
        reveal(kept_from_items);
        assert forall|j: int| 0 <= j < nv.len() implies exists|k: int| 0 <= k < i + 1 && all[k] == #[trigger] nv[j] by {
            if j == p {
                assert(all[i] == nv[j]);
            } else {
                assert(nv[j] == av[j]);
                let k = choose|k: int| 0 <= k < i && all[k] == av[j];
            }
        }
    }
    assert(names_covered(all, i + 1, nv)) by {
        reveal(names_covered);
        assert forall|k: int| 0 <= k < i + 1 implies exists|j: int|
            0 <= j < nv.len() && nv[j].0.0 == (#[trigger] all[k]).0.0 by {
            if k == i {
                assert(nv[p].0.0 == all[k].0.0);
            } else {
                let j = choose|j: int| 0 <= j < av.len() && av[j].0.0 == all[k].0.0;
                assert(nv[j].0.0 == av[j].0.0);
            }
        }
    }
    assert(kept_versions_latest(all, i + 1, nv)) by {
        reveal(kept_versions_latest);
        assert forall|j: int, k: int|
            0 <= j < nv.len() && 0 <= k < i + 1 && (#[trigger] all[k]).0.0 == (#[trigger] nv[j]).0.0 && all[k].0.1
                != nv[j].0.1 implies semver_order(all[k].0.1, nv[j].0.1) <= 0 by {
            if j == p {
                if k < i {
                    assert(av[p].0.0 == all[k].0.0);
                    if all[k].0.1 != av[p].0.1 {
                        assert(semver_order(all[k].0.1, av[p].0.1) <= 0);
                        assert(semver_order(all[k].0.1, all[i].0.1) <= 0);
                    }
                }
            } else {
                assert(nv[j] == av[j]);
                if k == i {
                    assert(av[j].0.0 != av[p].0.0);
                }
            }
        }
    }
}

/// Where an item of a new name sorts against the kept entries: after those
/// before `p`, before the others, and equal to none.
proof fn lemma_new_name_position(nm: Seq<char>, av: Seq<UpdateCandidateView>, p: int)
    requires
        names_sorted(av),
        0 <= p <= av.len(),
        forall|j: int| 0 <= j < p ==> lex_order(nm, (#[trigger] av[j]).0.0) > 0,
        p < av.len() ==> lex_order(nm, av[p].0.0) <= 0 && av[p].0.0 != nm,
    ensures
        forall|j: int| 0 <= j < av.len() ==> lex_order(nm, (#[trigger] av[j]).0.0) != 0 && (j < p <==> lex_order(
            nm,
            av[j].0.0,
        ) > 0),
{
    assert forall|j: int| 0 <= j < av.len() implies lex_order(nm, (#[trigger] av[j]).0.0) != 0 && (j < p <==> lex_order(
        nm,
        av[j].0.0,
    ) > 0) by {
        reveal(names_sorted);
        lemma_lex_order_antisymmetric(nm, av[j].0.0);
        if j >= p {
            lemma_lex_order_antisymmetric(nm, av[p].0.0);
            if j > p {
                assert(lex_order(av[p].0.0, av[j].0.0) < 0);
                lemma_lex_order_transitive(nm, av[p].0.0, av[j].0.0);
            }
        }
    }
}

/// An item of a name not kept yet is inserted where its name sorts.
proof fn lemma_insert_new_name(all: Seq<UpdateCandidateView>, i: int, av: Seq<UpdateCandidateView>, p: int)
    requires
        names_sorted(av),
        keeps_latest(all, i, av),
        0 <= i < all.len(),
        0 <= p <= av.len(),
        forall|j: int| 0 <= j < p ==> lex_order(all[i].0.0, (#[trigger] av[j]).0.0) > 0,
        p < av.len() ==> lex_order(all[i].0.0, av[p].0.0) <= 0 && av[p].0.0 != all[i].0.0,
    ensures
        names_sorted(av.insert(p, all[i])),
        keeps_latest(all, i + 1, av.insert(p, all[i])),
{
    let nm = all[i].0.0;
    let nv = av.insert(p, all[i]);
    lemma_new_name_position(nm, av, p);
    assert(names_sorted(nv)) by {
        reveal(names_sorted);
        assert forall|a: int, b: int| 0 <= a < b < nv.len() implies lex_order(#[trigger] nv[a].0.0, #[trigger] nv[b].0.0)
            < 0 by {
            if a < p && b < p {
                assert(nv[a] == av[a] && nv[b] == av[b]);
            } else if a < p && b == p {
                assert(nv[a] == av[a]);
                lemma_lex_order_antisymmetric(nm, av[a].0.0);
            } else if a < p {
                assert(nv[a] == av[a] && nv[b] == av[b - 1]);
            } else if a == p {
                assert(nv[b] == av[b - 1]);
            } else {
                assert(nv[a] == av[a - 1] && nv[b] == av[b - 1]);
            }
        }
    }
    assert(kept_from_items(all, i + 1, nv)) by {
        reveal(kept_from_items);
        assert forall|j: int| 0 <= j < nv.len() implies exists|k: int| 0 <= k < i + 1 && all[k] == #[trigger] nv[j] by {
            if j == p {
                assert(all[i] == nv[j]);
            } else {
                let q = if j < p { j } else { j - 1 };
                assert(nv[j] == av[q]);
                let k = choose|k: int| 0 <= k < i && all[k] == av[q];
            }
        }
    }
    assert(names_covered(all, i + 1, nv)) by {
        reveal(names_covered);
        assert forall|k: int| 0 <= k < i + 1 implies exists|j: int|
            0 <= j < nv.len() && nv[j].0.0 == (#[trigger] all[k]).0.0 by {
            if k == i {
                assert(nv[p].0.0 == all[k].0.0);
            } else {
                let q = choose|q: int| 0 <= q < av.len() && av[q].0.0 == all[k].0.0;
                if q < p {
                    assert(nv[q] == av[q]);
                } else {
                    assert(nv[q + 1] == av[q]);
                }
            }
        }
    }
    assert(kept_versions_latest(all, i + 1, nv)) by {
        reveal(kept_versions_latest);
        reveal(names_covered);
        assert forall|j: int, k: int|
            0 <= j < nv.len() && 0 <= k < i + 1 && (#[trigger] all[k]).0.0 == (#[trigger] nv[j]).0.0 && all[k].0.1
                != nv[j].0.1 implies semver_order(all[k].0.1, nv[j].0.1) <= 0 by {
            if j == p {
                if k < i {
                    let q = choose|q: int| 0 <= q < av.len() && av[q].0.0 == all[k].0.0;
                    assert(lex_order(nm, av[q].0.0) != 0);
                    lemma_lex_order_antisymmetric(nm, av[q].0.0);
                }
            } else {
                let q = if j < p { j } else { j - 1 };
                assert(nv[j] == av[q]);
                if k == i {
                    assert(lex_order(nm, av[q].0.0) != 0);
                    lemma_lex_order_antisymmetric(nm, av[q].0.0);
                } else {
                    assert(all[k].0.0 == av[q].0.0 && all[k].0.1 != av[q].0.1);
                    assert(semver_order(all[k].0.1, av[q].0.1) <= 0);
                }
            }
        }
    }
}

/// Keeps the latest version of each name, in name order.
pub fn collect_latest_packages(items: &Vec<(PackageId, bool)>) -> (r: Vec<(PackageId, bool)>)
    requires
        forall|k: int| 0 <= k < items@.len() ==> (#[trigger] items@[k]).0.wf(),
    ensures
        candidate_views(r@) == collect_latest(candidate_views(items@)),
        forall|k: int| 0 <= k < r@.len() ==> (#[trigger] r@[k]).0.wf(),
        names_sorted(candidate_views(r@)),
        keeps_latest(candidate_views(items@), items@.len() as int, candidate_views(r@)),
{
    let ghost all = candidate_views(items@);
    let mut acc: Vec<(PackageId, bool)> = Vec::new();
    let mut i: usize = 0;
    proof {
        assert(candidate_views(acc@) =~= Seq::<UpdateCandidateView>::empty());
        lemma_keeps_latest_empty(all);
        assert forall|k: int| 0 <= k < all.len() implies crate::package::version::semver_accepts((#[trigger] all[k]).0.1) by {
            assert(items@[k].0.wf());
        }
    }
    while i < items.len()
        invariant
            i <= items@.len(),
            all == candidate_views(items@),
            forall|k: int| 0 <= k < items@.len() ==> (#[trigger] items@[k]).0.wf(),
            forall|k: int| 0 <= k < all.len() ==> crate::package::version::semver_accepts((#[trigger] all[k]).0.1),
            candidate_views(acc@) == collect_latest(all.take(i as int)),
            forall|k: int| 0 <= k < acc@.len() ==> (#[trigger] acc@[k]).0.wf(),
            names_sorted(candidate_views(acc@)),
            keeps_latest(all, i as int, candidate_views(acc@)),
        decreases items@.len() - i,
    {
        let x = &items[i];
        let ghost av = candidate_views(acc@);
        proof {
            assert(all.take(i + 1).drop_last() =~= all.take(i as int));
            assert(all.take(i + 1).last() == (x.0@, x.1));
            assert(items@[i as int].0.wf());
            assert(all[i as int] == (x.0@, x.1));
        }
        let mut p: usize = 0;
        while p < acc.len() && matches!(compare_str(x.0.name().as_str(), acc[p].0.name().as_str()), Order::Greater)
            invariant
                p <= acc@.len(),
                av == candidate_views(acc@),
                forall|j: int| 0 <= j < p ==> lex_order(x.0@.0, (#[trigger] av[j]).0.0) > 0,
            decreases acc@.len() - p,
        {
            assert(av[p as int].0 == acc@[p as int].0@);
            p = p + 1;
        }
        proof {
            if p < acc@.len() {
                assert(av[p as int].0 == acc@[p as int].0@);
            }
            lemma_name_position(av, x.0@.0, p as int);
        }
        if p < acc.len() && str_eq(acc[p].0.name().as_str(), x.0.name().as_str()) {
            proof {
                assert(av[p as int].0 == acc@[p as int].0@);
                assert(acc@[p as int].0.wf());
            }
            let order = acc[p].0.version().compare(x.0.version());
            if matches!(order, Order::Less) {
                let c = (x.0.clone(), x.1);
                acc.set(p, c);
                proof {
                    assert(candidate_views(acc@) =~= av.update(p as int, (x.0@, x.1)));
                    lemma_replace_older(all, i as int, av, p as int);
                }
            } else {
                proof {
                    lemma_keep_older(all, i as int, av, p as int);
                }
            }
        } else {
            let c = (x.0.clone(), x.1);
            acc.insert(p, c);
            proof {
                assert(candidate_views(acc@) =~= av.insert(p as int, (x.0@, x.1)));
                lemma_insert_new_name(all, i as int, av, p as int);
            }
        }
        i = i + 1;
    }
    proof {
        assert(all.take(items@.len() as int) =~= all);
    }
    acc
}

/// The installed entries among the first `n` at the given positions, as
/// update candidates.
pub open spec fn installed_candidates(s: Seq<EntryView>, idx: Seq<int>) -> Seq<UpdateCandidateView>
    decreases idx.len(),
{
    if idx.len() == 0 {
        Seq::empty()
    } else if s[idx.last()].installation == InstallationState::Installed {
        installed_candidates(s, idx.drop_last()).push((s[idx.last()].id, s[idx.last()].activation == ActivationState::Active))
    } else {
        installed_candidates(s, idx.drop_last())
    }
}

fn candidates_at(db: &PackageDatabase, idx: &Vec<usize>) -> (r: Vec<(PackageId, bool)>)
    requires
        db.wf(),
        forall|k: int| 0 <= k < idx@.len() ==> (#[trigger] idx@[k]) < db@.len(),
    ensures
        candidate_views(r@) == installed_candidates(db@, idx@.map_values(|i: usize| i as int)),
        forall|k: int| 0 <= k < r@.len() ==> (#[trigger] r@[k]).0.wf(),
{
    let ghost iv = idx@.map_values(|i: usize| i as int);
    let mut r: Vec<(PackageId, bool)> = Vec::new();
    let mut k: usize = 0;
    while k < idx.len()
        invariant
            k <= idx@.len(),
            db.wf(),
            iv == idx@.map_values(|i: usize| i as int),
            forall|j: int| 0 <= j < idx@.len() ==> (#[trigger] idx@[j]) < db@.len(),
            candidate_views(r@) == installed_candidates(db@, iv.take(k as int)),
            forall|j: int| 0 <= j < r@.len() ==> (#[trigger] r@[j]).0.wf(),
        decreases idx@.len() - k,
    {
        let i = idx[k];
        proof {
            assert(iv.take(k + 1).drop_last() =~= iv.take(k as int));
            assert(iv.take(k + 1).last() == i as int);
        }
        let e = db.entry(i);
        if e.installation_state().is_installed() {
            let ghost rv = r@;
            let c = (e.id().clone(), e.activation_state().is_active());
            r.push(c);
            proof {
                assert(valid_package_id(db@[i as int].id));
                assert(candidate_views(r@) =~= candidate_views(rv).push((c.0@, c.1)));
            }
        }
        k = k + 1;
    }
    proof {
        assert(iv.take(idx@.len() as int) =~= iv);
    }
    r
}

/// Why an update request could not be resolved.
#[derive(Debug)]
pub enum UpdateResolveError {
    NoMatchingPackage { pkg_spec: PackageSpec },
    MultipleMatchingPackages { pkg_spec: PackageSpec, pkg_ids: Vec<PackageId> },
    MultipleMatchingPackagesInRegistries { name: PackageName, pkg_ids: Vec<(RegistryId, PackageId)> },
}

pub enum UpdateErrorView {
    NoMatchingPackage { pkg_spec: PackageSpecView },
    MultipleMatchingPackages { pkg_spec: PackageSpecView, pkg_ids: Seq<PackageIdView> },
    MultipleMatchingPackagesInRegistries { name: Seq<char>, pkg_ids: Seq<(Seq<char>, PackageIdView)> },
}

impl View for UpdateResolveError {
    type V = UpdateErrorView;

    open spec fn view(&self) -> UpdateErrorView {
        match self {
            UpdateResolveError::NoMatchingPackage { pkg_spec } => UpdateErrorView::NoMatchingPackage { pkg_spec: pkg_spec@ },
            UpdateResolveError::MultipleMatchingPackages { pkg_spec, pkg_ids } => UpdateErrorView::MultipleMatchingPackages {
                pkg_spec: pkg_spec@,
                pkg_ids: pkg_ids@.map_values(|id: PackageId| id@),
            },
            UpdateResolveError::MultipleMatchingPackagesInRegistries { name, pkg_ids } => UpdateErrorView::MultipleMatchingPackagesInRegistries {
                name: name@,
                pkg_ids: pkg_ids@.map_values(|p: (RegistryId, PackageId)| (p.0@, p.1@)),
            },
        }
    }
}

pub open spec fn update_error_views(es: Seq<UpdateResolveError>) -> Seq<UpdateErrorView> {
    es.map_values(|e: UpdateResolveError| e@)
}

/// Every installed package at its latest version, in name order.
pub open spec fn all_installed_latest(s: Seq<EntryView>) -> Seq<UpdateCandidateView> {
    collect_latest(installed_candidates(s, Seq::new(s.len(), |i: int| i)))
}

/// The latest installed version that the specifier selects; an error when
/// none is installed, or when versions of several names are.
pub open spec fn installed_package_result(s: Seq<EntryView>, spec: PackageSpecView) -> Result<UpdateCandidateView, UpdateErrorView> {
    let latest = collect_latest(installed_candidates(s, candidate_indices(s, spec, false, s.len() as int)));
    if latest.len() > 1 {
        Err(UpdateErrorView::MultipleMatchingPackages { pkg_spec: spec, pkg_ids: latest.map_values(|c: UpdateCandidateView| c.0) })
    } else if latest.len() == 0 {
        Err(UpdateErrorView::NoMatchingPackage { pkg_spec: spec })
    } else {
        Ok(latest[0])
    }
}

/// All installed packages, each at its latest version, in name order.
pub fn all_installed_packages(db: &PackageDatabase) -> (r: Vec<(PackageId, bool)>)
    requires
        db.wf(),
    ensures
        candidate_views(r@) == all_installed_latest(db@),
        forall|k: int| 0 <= k < r@.len() ==> (#[trigger] r@[k]).0.wf(),
{
    let mut idx: Vec<usize> = Vec::new();
    let mut i: usize = 0;
    while i < db.len()
        invariant
            i <= db@.len(),
            idx@.len() == i,
            forall|k: int| 0 <= k < i ==> (#[trigger] idx@[k]) == k,
        decreases db@.len() - i,
    {
        idx.push(i);
        i = i + 1;
    }
    proof {
        assert(idx@.map_values(|k: usize| k as int) =~= Seq::new(db@.len(), |i: int| i));
    }
    let cs = candidates_at(db, &idx);
    collect_latest_packages(&cs)
}

/// Resolves one update request to the latest installed version.
pub fn resolve_installed_package(db: &PackageDatabase, pkg_spec: &PackageSpec) -> (r: Result<(PackageId, bool), UpdateResolveError>)
    requires
        db.wf(),
    ensures
        match (r, installed_package_result(db@, pkg_spec@)) {
            (Ok(c), Ok(v)) => (c.0@, c.1) == v && c.0.wf(),
            (Err(e), Err(v)) => e@ == v,
            _ => false,
        },
{
    let idx = find_candidates(db, pkg_spec, false);
    let cs = candidates_at(db, &idx);
    let mut latest = collect_latest_packages(&cs);
    let ghost lv = candidate_views(latest@);
    proof {
        assert(lv.len() == latest@.len());
    }
    if latest.len() > 1 {
        let mut ids: Vec<PackageId> = Vec::new();
        let mut k: usize = 0;
        while k < latest.len()
            invariant
                k <= latest@.len(),
                lv == candidate_views(latest@),
                ids@.map_values(|id: PackageId| id@) == lv.take(k as int).map_values(|c: UpdateCandidateView| c.0),
            decreases latest@.len() - k,
        {
            let ghost iv = ids@;
            ids.push(latest[k].0.clone());
            proof {
                assert(ids@.map_values(|id: PackageId| id@) =~= iv.map_values(|id: PackageId| id@).push(lv[k as int].0));
                assert(lv.take(k + 1).map_values(|c: UpdateCandidateView| c.0) =~= lv.take(k as int).map_values(|c: UpdateCandidateView| c.0).push(lv[k as int].0));
            }
            k = k + 1;
        }
        proof {
            assert(lv.take(latest@.len() as int) =~= lv);
        }
        return Err(UpdateResolveError::MultipleMatchingPackages { pkg_spec: pkg_spec.clone(), pkg_ids: ids });
    }
    match latest.pop() {
        Some(c) => {
            proof {
                assert(lv[0] == (c.0@, c.1));
            }
            Ok(c)
        },
        None => Err(UpdateResolveError::NoMatchingPackage { pkg_spec: pkg_spec.clone() }),
    }
}

/// The candidates kept by the update: each the latest of its name among
/// them, each once.
pub open spec fn dedup_candidates(cs: Seq<UpdateCandidateView>) -> Seq<UpdateCandidateView> {
    dedup_kept(cs, collect_latest(cs), cs.len() as int)
}

/// Among the first `n` candidates, those that are the latest of their name
/// and whose ID did not occur before.
pub open spec fn dedup_kept(cs: Seq<UpdateCandidateView>, latest: Seq<UpdateCandidateView>, n: int) -> Seq<UpdateCandidateView>
    decreases n,
{
    if n <= 0 {
        Seq::empty()
    } else {
        let prev = dedup_kept(cs, latest, n - 1);
        let x = cs[n - 1];
        let is_latest = exists|j: int| 0 <= j < latest.len() && latest[j].0.0 == x.0.0 && latest[j].0 == x.0;
        let seen = exists|j: int| 0 <= j < prev.len() && prev[j].0 == x.0;
        if is_latest && !seen {
            prev.push(x)
        } else {
            prev
        }
    }
}

/// Keeps each candidate that is the latest of its name, each ID once.
pub fn dedup(candidates: &Vec<(PackageId, bool)>) -> (r: Vec<(PackageId, bool)>)
    requires
        forall|k: int| 0 <= k < candidates@.len() ==> (#[trigger] candidates@[k]).0.wf(),
    ensures
        candidate_views(r@) == dedup_candidates(candidate_views(candidates@)),
        forall|k: int| 0 <= k < r@.len() ==> (#[trigger] r@[k]).0.wf(),
{
    let ghost cv = candidate_views(candidates@);
    let latest = collect_latest_packages(candidates);
    let ghost lv = candidate_views(latest@);
    let mut kept: Vec<(PackageId, bool)> = Vec::new();
    let mut i: usize = 0;
    while i < candidates.len()
        invariant
            i <= candidates@.len(),
            cv == candidate_views(candidates@),
            lv == candidate_views(latest@),
            lv == collect_latest(cv),
            forall|k: int| 0 <= k < candidates@.len() ==> (#[trigger] candidates@[k]).0.wf(),
            candidate_views(kept@) == dedup_kept(cv, lv, i as int),
            forall|k: int| 0 <= k < kept@.len() ==> (#[trigger] kept@[k]).0.wf(),
        decreases candidates@.len() - i,
    {
        let x = &candidates[i];
        let ghost kv = candidate_views(kept@);
        proof {
            assert(cv[i as int] == (x.0@, x.1));
        }
        let mut is_latest = false;
        let mut j: usize = 0;
        while j < latest.len()
            invariant
                j <= latest@.len(),
                lv == candidate_views(latest@),
                is_latest <==> exists|m: int| 0 <= m < j && lv[m].0.0 == x.0@.0 && lv[m].0 == x.0@,
            decreases latest@.len() - j,
        {
            proof {
                assert(lv[j as int] == (latest@[j as int].0@, latest@[j as int].1));
            }
            if str_eq(latest[j].0.name().as_str(), x.0.name().as_str()) && latest[j].0.equals(&x.0) {
                is_latest = true;
            }
            j = j + 1;
        }
        let mut seen = false;
        let mut m: usize = 0;
        while m < kept.len()
            invariant
                m <= kept@.len(),
                kv == candidate_views(kept@),
                seen <==> exists|q: int| 0 <= q < m && kv[q].0 == x.0@,
            decreases kept@.len() - m,
        {
            proof {
                assert(kv[m as int] == (kept@[m as int].0@, kept@[m as int].1));
            }
            if kept[m].0.equals(&x.0) {
                seen = true;
            }
            m = m + 1;
        }
        if is_latest && !seen {
            let c = (x.0.clone(), x.1);
            kept.push(c);
            proof {
                assert(candidate_views(kept@) =~= kv.push((c.0@, c.1)));
                assert(candidates@[i as int].0.wf());
            }
        }
        i = i + 1;
    }
    kept
}

/// The newer version of the package that each index offers, if any.
pub open spec fn update_matches(indexes: Seq<RegistryIndex>, id: PackageIdView, include_pre_release: bool) -> Seq<(Seq<char>, PackageDefinition)>
    decreases indexes.len(),
{
    if indexes.len() == 0 {
        Seq::empty()
    } else {
        let rest = update_matches(indexes.drop_last(), id, include_pre_release);
        let index = indexes.last();
        match latest_candidate(index.package_ids(), PackageSpecView::Name(id.0), include_pre_release, index.package_ids().len() as int) {
            Some(i) => if semver_order(index.definitions()[i].id@.1, id.1) > 0 {
                rest.push((index.id_view(), index.definitions()[i]))
            } else {
                rest
            },
            None => rest,
        }
    }
}

/// An update is always a newer version of the same package: every version
/// the registries offer as an update of `id` has its name and a version
/// that `semver` orders after it.
pub proof fn law_updates_are_newer_versions_of_the_same_package(
    indexes: Seq<RegistryIndex>,
    id: PackageIdView,
    include_pre_release: bool,
)
    ensures
        forall|k: int|
            0 <= k < update_matches(indexes, id, include_pre_release).len() ==> {
                let def = (#[trigger] update_matches(indexes, id, include_pre_release)[k]).1;
                def.id@.0 == id.0 && semver_order(def.id@.1, id.1) > 0
            },
        update_target_result(indexes, id, include_pre_release) matches Ok(Some(m)) ==> m.1.id@.0 == id.0
            && semver_order(m.1.id@.1, id.1) > 0,
    decreases indexes.len(),
{
    if indexes.len() > 0 {
        let init = indexes.drop_last();
        law_updates_are_newer_versions_of_the_same_package(init, id, include_pre_release);
        let rest = update_matches(init, id, include_pre_release);
        let index = indexes.last();
        let ids = index.package_ids();
        crate::registry::lemma_latest_candidate_is_candidate(
            ids,
            PackageSpecView::Name(id.0),
            include_pre_release,
            ids.len() as int,
        );
        let ms = update_matches(indexes, id, include_pre_release);
        assert forall|k: int| 0 <= k < ms.len() implies {
            let def = (#[trigger] ms[k]).1;
            def.id@.0 == id.0 && semver_order(def.id@.1, id.1) > 0
        } by {
            if k < rest.len() {
                assert(ms[k] == rest[k]);
            } else {
                let i = latest_candidate(ids, PackageSpecView::Name(id.0), include_pre_release, ids.len() as int)->0;
                assert(ids[i] == index.definitions()[i].id@);
            }
        }
    }
    let ms = update_matches(indexes, id, include_pre_release);
    if ms.len() == 1 {
        assert(ms[0] == ms[0]);
    }
}

/// The update of one package: the one registry's newer version, if any;
/// an error when several registries have one.
pub open spec fn update_target_result(indexes: Seq<RegistryIndex>, id: PackageIdView, include_pre_release: bool) -> Result<Option<(Seq<char>, PackageDefinition)>, UpdateErrorView> {
    let ms = update_matches(indexes, id, include_pre_release);
    if ms.len() > 1 {
        Err(UpdateErrorView::MultipleMatchingPackagesInRegistries {
            name: id.0,
            pkg_ids: ms.map_values(|m: (Seq<char>, PackageDefinition)| (m.0, m.1.id@)),
        })
    } else if ms.len() == 1 {
        Ok(Some(ms[0]))
    } else {
        Ok(None)
    }
}

/// Finds the update of one package in the registries' indexes.
pub fn find_update_target(indexes: &Vec<RegistryIndex>, pkg_id: &PackageId, include_pre_release: bool) -> (r: Result<Option<(RegistryId, PackageDefinition)>, UpdateResolveError>)
    requires
        indexes_wf(indexes@),
        pkg_id.wf(),
    ensures
        match (r, update_target_result(indexes@, pkg_id@, include_pre_release)) {
            (Ok(Some(m)), Ok(Some(v))) => m.0@ == v.0 && definition_view(m.1) == definition_view(v.1) && m.1.wf(),
            (Ok(None), Ok(None)) => true,
            (Err(e), Err(v)) => e@ == v,
            _ => false,
        },
{
    let ghost ms = update_matches(indexes@, pkg_id@, include_pre_release);
    let mut found: Vec<(RegistryId, PackageDefinition)> = Vec::new();
    let mut i: usize = 0;
    while i < indexes.len()
        invariant
            i <= indexes@.len(),
            indexes_wf(indexes@),
            pkg_id.wf(),
            found@.map_values(|m: (RegistryId, PackageDefinition)| (m.0@, definition_view(m.1))) == update_matches(indexes@.take(i as int), pkg_id@, include_pre_release).map_values(|m: (Seq<char>, PackageDefinition)| (m.0, definition_view(m.1))),
            forall|k: int| 0 <= k < found@.len() ==> (#[trigger] found@[k]).1.wf(),
        decreases indexes@.len() - i,
    {
        let index = &indexes[i];
        proof {
            assert(indexes@.take(i + 1).drop_last() =~= indexes@.take(i as int));
            assert(indexes@.take(i + 1).last() == *index);
            assert(index.wf());
        }
        match index.find_latest_package_by_name(pkg_id.name(), include_pre_release) {
            Some(pkg) => {
                if matches!(pkg.id.version().compare(pkg_id.version()), Order::Greater) {
                    let ghost fv = found@;
                    let m = (index.id().clone(), copy_definition(pkg));
                    found.push(m);
                    proof {
                        let f = |m: (RegistryId, PackageDefinition)| (m.0@, definition_view(m.1));
                        let g = |m: (Seq<char>, PackageDefinition)| (m.0, definition_view(m.1));
                        let prev = update_matches(indexes@.take(i as int), pkg_id@, include_pre_release);
                        assert(found@.map_values(f) =~= fv.map_values(f).push(f(m)));
                        assert(prev.push((index.id_view(), *pkg)).map_values(g) =~= prev.map_values(g).push(g((index.id_view(), *pkg))));
                    }
                }
            },
            None => {},
        }
        i = i + 1;
    }
    proof {
        assert(indexes@.take(indexes@.len() as int) =~= indexes@);
        let g = |m: (Seq<char>, PackageDefinition)| (m.0, definition_view(m.1));
        assert(ms.map_values(g).len() == ms.len());
        assert(found@.map_values(|m: (RegistryId, PackageDefinition)| (m.0@, definition_view(m.1))).len() == found@.len());
    }
    if found.len() > 1 {
        let mut pkg_ids: Vec<(RegistryId, PackageId)> = Vec::new();
        let mut k: usize = 0;
        while k < found.len()
            invariant
                k <= found@.len(),
                ms.len() == found@.len(),
                found@.map_values(|m: (RegistryId, PackageDefinition)| (m.0@, definition_view(m.1))) == ms.map_values(|m: (Seq<char>, PackageDefinition)| (m.0, definition_view(m.1))),
                pkg_ids@.map_values(|p: (RegistryId, PackageId)| (p.0@, p.1@)) == ms.take(k as int).map_values(|m: (Seq<char>, PackageDefinition)| (m.0, m.1.id@)),
            decreases found@.len() - k,
        {
            let ghost pv = pkg_ids@;
            let p = (found[k].0.clone(), found[k].1.id.clone());
            pkg_ids.push(p);
            proof {
                let f = |m: (RegistryId, PackageDefinition)| (m.0@, definition_view(m.1));
                let g = |m: (Seq<char>, PackageDefinition)| (m.0, definition_view(m.1));
                assert(found@.map_values(f)[k as int] == ms.map_values(g)[k as int]);
                assert(pkg_ids@.map_values(|p: (RegistryId, PackageId)| (p.0@, p.1@)) =~= pv.map_values(|p: (RegistryId, PackageId)| (p.0@, p.1@)).push((p.0@, p.1@)));
                assert(ms.take(k + 1).map_values(|m: (Seq<char>, PackageDefinition)| (m.0, m.1.id@)) =~= ms.take(k as int).map_values(|m: (Seq<char>, PackageDefinition)| (m.0, m.1.id@)).push((ms[k as int].0, ms[k as int].1.id@)));
            }
            k = k + 1;
        }
        proof {
            assert(ms.take(ms.len() as int) =~= ms);
        }
        return Err(UpdateResolveError::MultipleMatchingPackagesInRegistries { name: pkg_id.name().clone(), pkg_ids });
    }
    let mut found = found;
    proof {
        if found@.len() == 1 {
            let f = |m: (RegistryId, PackageDefinition)| (m.0@, definition_view(m.1));
            let g = |m: (Seq<char>, PackageDefinition)| (m.0, definition_view(m.1));
            assert(found@.map_values(f)[0] == ms.map_values(g)[0]);
        }
    }
    Ok(found.pop())
}

pub open spec fn update_target_view(m: (Seq<char>, PackageDefinition), should_activate: bool) -> InstallTargetView {
    InstallTargetView {
        kind: KindView::Install { pkg: definition_view(m.1) },
        detail: DetailView::Registry { reg_id: m.0, pkg_spec: PackageSpecView::Name(m.1.id@.0) },
        should_activate,
    }
}

/// The updates of the candidates in order, candidates without a newer
/// version dropped; the first error stops the search.
pub open spec fn update_targets(indexes: Seq<RegistryIndex>, cs: Seq<UpdateCandidateView>, include_pre_release: bool) -> Result<Seq<InstallTargetView>, UpdateErrorView>
    decreases cs.len(),
{
    if cs.len() == 0 {
        Ok(Seq::empty())
    } else {
        match update_targets(indexes, cs.drop_last(), include_pre_release) {
            Err(e) => Err(e),
            Ok(ts) => match update_target_result(indexes, cs.last().0, include_pre_release) {
                Err(e) => Err(e),
                Ok(None) => Ok(ts),
                Ok(Some(m)) => Ok(ts.push(update_target_view(m, cs.last().1))),
            },
        }
    }
}

proof fn lemma_update_targets_err(indexes: Seq<RegistryIndex>, cs: Seq<UpdateCandidateView>, include_pre_release: bool, n: int)
    requires
        0 <= n <= cs.len(),
        update_targets(indexes, cs.take(n), include_pre_release) is Err,
    ensures
        update_targets(indexes, cs, include_pre_release) == update_targets(indexes, cs.take(n), include_pre_release),
    decreases cs.len() - n,
{
    if n < cs.len() {
        assert(cs.take(n + 1).drop_last() =~= cs.take(n));
        lemma_update_targets_err(indexes, cs, include_pre_release, n + 1);
    } else {
        assert(cs.take(n) =~= cs);
    }
}

/// Finds the updates of the candidates in the registries' indexes.
pub fn find_update_targets(indexes: &Vec<RegistryIndex>, candidates: &Vec<(PackageId, bool)>, include_pre_release: bool) -> (r: Result<Vec<ResolvedInstallTarget>, UpdateResolveError>)
    requires
        indexes_wf(indexes@),
        forall|k: int| 0 <= k < candidates@.len() ==> (#[trigger] candidates@[k]).0.wf(),
    ensures
        match (r, update_targets(indexes@, candidate_views(candidates@), include_pre_release)) {
            (Ok(ts), Ok(vs)) => install_target_views(ts@) == vs && forall|k: int| 0 <= k < ts@.len() ==> (#[trigger] ts@[k]).kind.wf(),
            (Err(e), Err(v)) => e@ == v,
            _ => false,
        },
{
    let ghost cv = candidate_views(candidates@);
    let mut targets: Vec<ResolvedInstallTarget> = Vec::new();
    let mut i: usize = 0;
    proof {
        assert(cv.take(0) =~= Seq::<UpdateCandidateView>::empty());
        assert(install_target_views(targets@) =~= Seq::<InstallTargetView>::empty());
    }
    while i < candidates.len()
        invariant
            i <= candidates@.len(),
            cv == candidate_views(candidates@),
            indexes_wf(indexes@),
            forall|k: int| 0 <= k < candidates@.len() ==> (#[trigger] candidates@[k]).0.wf(),
            update_targets(indexes@, cv.take(i as int), include_pre_release) == Ok::<Seq<InstallTargetView>, UpdateErrorView>(install_target_views(targets@)),
            forall|k: int| 0 <= k < targets@.len() ==> (#[trigger] targets@[k]).kind.wf(),
        decreases candidates@.len() - i,
    {
        let c = &candidates[i];
        proof {
            assert(cv.take(i + 1).drop_last() =~= cv.take(i as int));
            assert(cv.take(i + 1).last() == (c.0@, c.1));
            assert(candidates@[i as int].0.wf());
        }
        match find_update_target(indexes, &c.0, include_pre_release) {
            Err(e) => {
                proof {
                    lemma_update_targets_err(indexes@, cv, include_pre_release, i + 1);
                }
                return Err(e);
            },
            Ok(None) => {},
            Ok(Some((reg_id, pkg))) => {
                let name = pkg.id.name().clone();
                let t = ResolvedInstallTarget {
                    kind: InstallTargetKind::Install { pkg },
                    detail: InstallResolutionDetail::Registry { reg_id, pkg_spec: PackageSpec::Name(name) },
                    should_activate: c.1,
                };
                let ghost tv = targets@;
                targets.push(t);
                proof {
                    assert(install_target_views(targets@) =~= install_target_views(tv).push(install_target_view(t)));
                }
            },
        }
        i = i + 1;
    }
    proof {
        assert(cv.take(candidates@.len() as int) =~= cv);
    }
    Ok(targets)
}

pub open spec fn installed_package_results(s: Seq<EntryView>, specs: Seq<PackageSpecView>) -> Seq<Result<UpdateCandidateView, UpdateErrorView>> {
    specs.map_values(|sp: PackageSpecView| installed_package_result(s, sp))
}

/// The packages an update considers: every installed package when no
/// specifier is given, else the latest installed version of each; every
/// request's error if any failed; repeats and older versions dropped.
pub open spec fn update_candidates_result(s: Seq<EntryView>, specs: Seq<PackageSpecView>) -> Result<Seq<UpdateCandidateView>, Seq<UpdateErrorView>> {
    if specs.len() == 0 {
        Ok(dedup_candidates(all_installed_latest(s)))
    } else {
        let rs = installed_package_results(s, specs);
        if errs(rs).len() > 0 {
            Err(errs(rs))
        } else {
            Ok(dedup_candidates(oks(rs)))
        }
    }
}

/// Resolves the packages an update considers.
pub fn resolve_update_candidates(db: &PackageDatabase, pkg_specs: &Vec<PackageSpec>) -> (r: Result<Vec<(PackageId, bool)>, Vec<UpdateResolveError>>)
    requires
        db.wf(),
    ensures
        match (r, update_candidates_result(db@, spec_views(pkg_specs@))) {
            (Ok(cs), Ok(vs)) => candidate_views(cs@) == vs && forall|k: int| 0 <= k < cs@.len() ==> (#[trigger] cs@[k]).0.wf(),
            (Err(es), Err(vs)) => update_error_views(es@) == vs,
            _ => false,
        },
{
    let ghost specs = spec_views(pkg_specs@);
    if pkg_specs.len() == 0 {
        let all = all_installed_packages(db);
        return Ok(dedup(&all));
    }
    let ghost rs = installed_package_results(db@, specs);
    let mut found: Vec<(PackageId, bool)> = Vec::new();
    let mut errors: Vec<UpdateResolveError> = Vec::new();
    let mut i: usize = 0;
    while i < pkg_specs.len()
        invariant
            i <= pkg_specs@.len(),
            db.wf(),
            specs == spec_views(pkg_specs@),
            rs == installed_package_results(db@, specs),
            candidate_views(found@) == oks(rs.take(i as int)),
            forall|k: int| 0 <= k < found@.len() ==> (#[trigger] found@[k]).0.wf(),
            update_error_views(errors@) == errs(rs.take(i as int)),
        decreases pkg_specs@.len() - i,
    {
        proof {
            assert(rs.take(i + 1).drop_last() =~= rs.take(i as int));
            assert(rs.take(i + 1).last() == rs[i as int]);
        }
        match resolve_installed_package(db, &pkg_specs[i]) {
            Ok(c) => {
                let ghost fv = found@;
                found.push(c);
                proof {
                    assert(candidate_views(found@) =~= candidate_views(fv).push((c.0@, c.1)));
                }
            },
            Err(e) => {
                let ghost ev = errors@;
                errors.push(e);
                proof {
                    assert(update_error_views(errors@) =~= update_error_views(ev).push(e@));
                }
            },
        }
        i = i + 1;
    }
    proof {
        assert(rs.take(pkg_specs@.len() as int) =~= rs);
        assert(update_error_views(errors@).len() == errors@.len());
    }
    if errors.len() > 0 {
        return Err(errors);
    }
    Ok(dedup(&found))
}

/// Resolves an update against the registries' indexes: the packages it
/// considers, then the newer version of each.
pub fn resolve_update_targets(
    db: &PackageDatabase,
    pkg_specs: &Vec<PackageSpec>,
    indexes: &Vec<RegistryIndex>,
    include_pre_release: bool,
) -> (r: Result<Vec<ResolvedInstallTarget>, Vec<UpdateResolveError>>)
    requires
        db.wf(),
        indexes_wf(indexes@),
    ensures
        match update_candidates_result(db@, spec_views(pkg_specs@)) {
            Err(vs) => r matches Err(es) && update_error_views(es@) == vs,
            Ok(cs) => match (r, update_targets(indexes@, cs, include_pre_release)) {
                (Ok(ts), Ok(vs)) => install_target_views(ts@) == vs,
                (Err(es), Err(v)) => update_error_views(es@) == seq![v],
                _ => false,
            },
        },
{
    let candidates = match resolve_update_candidates(db, pkg_specs) {
        Ok(cs) => cs,
        Err(es) => return Err(es),
    };
    match find_update_targets(indexes, &candidates, include_pre_release) {
        Ok(ts) => Ok(ts),
        Err(e) => {
            let mut es: Vec<UpdateResolveError> = Vec::new();
            es.push(e);
            proof {
                assert(update_error_views(es@) =~= seq![e@]);
            }
            Err(es)
        },
    }
}

} // verus!
