//! What the resolvers share: the database entries that a specifier
//! selects, the collection of per-request results, and the grouping of
//! package IDs by name.
use vstd::prelude::*;

use crate::db::{EntryView, PackageDatabase};
use crate::package::id::{id_order, valid_package_id, PackageId, PackageIdView};
use crate::package::spec::{spec_selects, PackageSpec, PackageSpecView};
use crate::package::state::InstallationState;
use crate::text::{compare_str, lemma_lex_order_antisymmetric, lex_order, str_eq, Order};

verus! {

/// Whether the entry counts as a candidate for the specifier: selected by
/// it, and installed when `installed_only`.
pub open spec fn is_candidate(e: EntryView, spec: PackageSpecView, installed_only: bool) -> bool {
    spec_selects(spec, e.id) && (!installed_only || e.installation == InstallationState::Installed)
}

/// The indices of the candidates among the first `n` entries, in order.
pub open spec fn candidate_indices(s: Seq<EntryView>, spec: PackageSpecView, installed_only: bool, n: int) -> Seq<int>
    decreases n,
{
    if n <= 0 {
        Seq::empty()
    } else if is_candidate(s[n - 1], spec, installed_only) {
        candidate_indices(s, spec, installed_only, n - 1).push(n - 1)
    } else {
        candidate_indices(s, spec, installed_only, n - 1)
    }
}

/// The IDs of the candidates, in database order.
pub open spec fn candidate_ids(s: Seq<EntryView>, spec: PackageSpecView, installed_only: bool) -> Seq<PackageIdView> {
    candidate_indices(s, spec, installed_only, s.len() as int).map_values(|i: int| s[i].id)
}

/// The indices of the candidate entries, in order.
pub fn find_candidates(db: &PackageDatabase, spec: &PackageSpec, installed_only: bool) -> (r: Vec<usize>)
    ensures
        r@.map_values(|i: usize| i as int) == candidate_indices(db@, spec@, installed_only, db@.len() as int),
        forall|k: int| 0 <= k < r@.len() ==> (#[trigger] r@[k]) < db@.len(),
{
    let mut r: Vec<usize> = Vec::new();
    let mut i: usize = 0;
    while i < db.len()
        invariant
            i <= db@.len(),
            r@.map_values(|i: usize| i as int) == candidate_indices(db@, spec@, installed_only, i as int),
            forall|k: int| 0 <= k < r@.len() ==> (#[trigger] r@[k]) < i,
        decreases db@.len() - i,
    {
        let e = db.entry(i);
        if spec.selects(e.id()) && (!installed_only || e.installation_state().is_installed()) {
            let ghost prev = r@;
            r.push(i);
            proof {
                assert(r@.map_values(|i: usize| i as int) =~= prev.map_values(|i: usize| i as int).push(i as int));
            }
        }
        i = i + 1;
    }
    r
}

/// The IDs of the candidate entries, in database order.
pub fn candidate_package_ids(db: &PackageDatabase, spec: &PackageSpec, installed_only: bool) -> (r: Vec<PackageId>)
    ensures
        r@.map_values(|id: PackageId| id@) == candidate_ids(db@, spec@, installed_only),
        forall|k: int| 0 <= k < r@.len() ==> exists|i: int| 0 <= i < db@.len() && db@[i].id == (#[trigger] r@[k])@,
{
    let idx = find_candidates(db, spec, installed_only);
    let ghost iv = idx@.map_values(|i: usize| i as int);
    let mut r: Vec<PackageId> = Vec::new();
    let mut k: usize = 0;
    while k < idx.len()
        invariant
            k <= idx@.len(),
            iv == idx@.map_values(|i: usize| i as int),
            iv == candidate_indices(db@, spec@, installed_only, db@.len() as int),
            forall|j: int| 0 <= j < idx@.len() ==> (#[trigger] idx@[j]) < db@.len(),
            r@.map_values(|id: PackageId| id@) == iv.take(k as int).map_values(|i: int| db@[i].id),
            forall|j: int| 0 <= j < r@.len() ==> exists|i: int| 0 <= i < db@.len() && db@[i].id == (#[trigger] r@[j])@,
        decreases idx@.len() - k,
    {
        let i = idx[k];
        let id = db.entry(i).id().clone();
        let ghost prev = r@;
        r.push(id);
        proof {
            assert(iv[k as int] == i as int);
            assert(iv.take(k + 1) =~= iv.take(k as int).push(i as int));
            assert(r@.map_values(|id: PackageId| id@) =~= prev.map_values(|id: PackageId| id@).push(db@[i as int].id));
            assert forall|j: int| 0 <= j < r@.len() implies exists|m: int| 0 <= m < db@.len() && db@[m].id == (#[trigger] r@[j])@ by {
                if j == prev.len() {
                    assert(db@[i as int].id == r@[j]@);
                } else {
                    assert(r@[j] == prev[j]);
                }
            }
        }
        k = k + 1;
    }
    proof {
        assert(iv.take(iv.len() as int) =~= iv);
    }
    r
}

/// The successes among the results, in order.
pub open spec fn oks<T, E>(rs: Seq<Result<T, E>>) -> Seq<T>
    decreases rs.len(),
{
    if rs.len() == 0 {
        Seq::empty()
    } else {
        match rs.last() {
            Ok(t) => oks(rs.drop_last()).push(t),
            Err(_) => oks(rs.drop_last()),
        }
    }
}

/// The errors among the results, in order.
pub open spec fn errs<T, E>(rs: Seq<Result<T, E>>) -> Seq<E>
    decreases rs.len(),
{
    if rs.len() == 0 {
        Seq::empty()
    } else {
        match rs.last() {
            Ok(_) => errs(rs.drop_last()),
            Err(e) => errs(rs.drop_last()).push(e),
        }
    }
}

/// IDs grouped by package name: groups ordered by name, each holding the
/// IDs of that name in the order they came.
pub open spec fn group_by_name(ids: Seq<PackageIdView>) -> Seq<Seq<PackageIdView>>
    decreases ids.len(),
{
    if ids.len() == 0 {
        Seq::empty()
    } else {
        add_to_group(group_by_name(ids.drop_last()), ids.last())
    }
}

/// The position of the group of `name`, or where it belongs.
pub open spec fn group_position(groups: Seq<Seq<PackageIdView>>, name: Seq<char>) -> int
    decreases groups.len(),
{
    if groups.len() == 0 {
        0
    } else if groups[0].len() > 0 && lex_order(name, groups[0][0].0) <= 0 {
        0
    } else {
        1 + group_position(groups.drop_first(), name)
    }
}

/// Adds `id` to the group of its name, or starts that group in name order.
pub open spec fn add_to_group(groups: Seq<Seq<PackageIdView>>, id: PackageIdView) -> Seq<Seq<PackageIdView>> {
    let p = group_position(groups, id.0);
    if p < groups.len() && groups[p].len() > 0 && groups[p][0].0 == id.0 {
        groups.update(p, groups[p].push(id))
    } else {
        groups.insert(p, seq![id])
    }
}

pub open spec fn groups_view(groups: Seq<Vec<PackageId>>) -> Seq<Seq<PackageIdView>> {
    groups.map_values(|g: Vec<PackageId>| g@.map_values(|id: PackageId| id@))
}

proof fn lemma_group_position(groups: Seq<Seq<PackageIdView>>, name: Seq<char>, p: int)
    requires
        0 <= p <= groups.len(),
        forall|j: int| 0 <= j < p ==> (#[trigger] groups[j]).len() > 0 && lex_order(name, groups[j][0].0) > 0,
        p < groups.len() ==> groups[p].len() > 0 && lex_order(name, groups[p][0].0) <= 0,
    ensures
        group_position(groups, name) == p,
    decreases p,
{
    if p > 0 {
        let t = groups.drop_first();
        assert forall|j: int| 0 <= j < p - 1 implies (#[trigger] t[j]).len() > 0 && lex_order(name, t[j][0].0) > 0 by {
            assert(t[j] == groups[j + 1]);
        }
        if p < groups.len() {
            assert(t[p - 1] == groups[p]);
        }
        lemma_group_position(t, name, p - 1);
    }
}

/// Groups package IDs by name, in name order.
pub fn group_ids_by_name(ids: &Vec<PackageId>) -> (r: Vec<Vec<PackageId>>)
    ensures
        groups_view(r@) == group_by_name(ids@.map_values(|id: PackageId| id@)),
{
    let ghost all = ids@.map_values(|id: PackageId| id@);
    let mut groups: Vec<Vec<PackageId>> = Vec::new();
    let mut i: usize = 0;
    while i < ids.len()
        invariant
            i <= ids@.len(),
            all == ids@.map_values(|id: PackageId| id@),
            groups_view(groups@) == group_by_name(all.take(i as int)),
            forall|j: int| 0 <= j < groups@.len() ==> (#[trigger] groups@[j])@.len() > 0,
        decreases ids@.len() - i,
    {
        let id = &ids[i];
        let ghost gv = groups_view(groups@);
        proof {
            assert(all.take(i + 1).drop_last() =~= all.take(i as int));
            assert(all.take(i + 1).last() == id@);
        }
        let mut p: usize = 0;
        while p < groups.len() && matches!(compare_str(id.name().as_str(), groups[p][0].name().as_str()), Order::Greater)
            invariant
                p <= groups@.len(),
                gv == groups_view(groups@),
                forall|j: int| 0 <= j < groups@.len() ==> (#[trigger] groups@[j])@.len() > 0,
                forall|j: int| 0 <= j < p ==> (#[trigger] gv[j]).len() > 0 && lex_order(id@.0, gv[j][0].0) > 0,
            decreases groups@.len() - p,
        {
            proof {
                assert(gv[p as int][0] == groups@[p as int]@[0]@);
            }
            p = p + 1;
        }
        proof {
            if p < groups@.len() {
                assert(gv[p as int][0] == groups@[p as int]@[0]@);
            }
            lemma_group_position(gv, id@.0, p as int);
        }
        let same = p < groups.len() && crate::text::str_eq(id.name().as_str(), groups[p][0].name().as_str());
        if same {
            proof {
                assert(gv[p as int][0] == groups@[p as int]@[0]@);
            }
            let mut g = groups.remove(p);
            let ghost gprev = g@;
            g.push(id.clone());
            groups.insert(p, g);
            proof {
                assert(g@.map_values(|id: PackageId| id@) =~= gprev.map_values(|id: PackageId| id@).push(id@));
                assert(groups_view(groups@) =~= gv.update(p as int, gv[p as int].push(id@)));
            }
        } else {
            proof {
                if p < groups@.len() {
                    assert(gv[p as int][0] == groups@[p as int]@[0]@);
                }
            }
            let mut g: Vec<PackageId> = Vec::new();
            g.push(id.clone());
            groups.insert(p, g);
            proof {
                assert(g@.map_values(|id: PackageId| id@) =~= seq![id@]);
                assert(groups_view(groups@) =~= gv.insert(p as int, seq![id@]));
            }
        }
        i = i + 1;
    }
    proof {
        assert(all.take(ids@.len() as int) =~= all);
    }
    groups
}

/// The order that groups are kept in: by ID, or by name alone.
pub open spec fn key_order(by_id: bool, a: PackageIdView, b: PackageIdView) -> int {
    if by_id {
        id_order(a, b)
    } else {
        lex_order(a.0, b.0)
    }
}

/// Whether two IDs fall in one group: the same ID, or the same name.
pub open spec fn same_key(by_id: bool, a: PackageIdView, b: PackageIdView) -> bool {
    if by_id {
        a == b
    } else {
        a.0 == b.0
    }
}

/// Where the group of `x` is, or belongs, among groups of positions.
pub open spec fn key_position(groups: Seq<Seq<int>>, ids: Seq<PackageIdView>, by_id: bool, x: PackageIdView) -> int
    decreases groups.len(),
{
    if groups.len() == 0 {
        0
    } else if groups[0].len() > 0 && key_order(by_id, x, ids[groups[0][0]]) <= 0 {
        0
    } else {
        1 + key_position(groups.drop_first(), ids, by_id, x)
    }
}

/// Adds position `k` to the group of its key, or starts that group in order.
pub open spec fn add_position(groups: Seq<Seq<int>>, ids: Seq<PackageIdView>, by_id: bool, k: int) -> Seq<Seq<int>> {
    let p = key_position(groups, ids, by_id, ids[k]);
    if p < groups.len() && groups[p].len() > 0 && same_key(by_id, ids[groups[p][0]], ids[k]) {
        groups.update(p, groups[p].push(k))
    } else {
        groups.insert(p, seq![k])
    }
}

/// The positions of the first `n` IDs grouped by key, groups in key order,
/// positions in order within each group.
pub open spec fn position_groups(ids: Seq<PackageIdView>, by_id: bool, n: int) -> Seq<Seq<int>>
    decreases n,
{
    if n <= 0 {
        Seq::empty()
    } else {
        add_position(position_groups(ids, by_id, n - 1), ids, by_id, n - 1)
    }
}

pub open spec fn position_views(groups: Seq<Vec<usize>>) -> Seq<Seq<int>> {
    groups.map_values(|g: Vec<usize>| g@.map_values(|k: usize| k as int))
}

proof fn lemma_key_position(groups: Seq<Seq<int>>, ids: Seq<PackageIdView>, by_id: bool, x: PackageIdView, p: int)
    requires
        0 <= p <= groups.len(),
        forall|j: int| 0 <= j < p ==> (#[trigger] groups[j]).len() > 0 && key_order(by_id, x, ids[groups[j][0]]) > 0,
        p < groups.len() ==> groups[p].len() > 0 && key_order(by_id, x, ids[groups[p][0]]) <= 0,
    ensures
        key_position(groups, ids, by_id, x) == p,
    decreases p,
{
    if p > 0 {
        let t = groups.drop_first();
        assert forall|j: int| 0 <= j < p - 1 implies (#[trigger] t[j]).len() > 0 && key_order(by_id, x, ids[t[j][0]]) > 0 by {
            assert(t[j] == groups[j + 1]);
        }
        if p < groups.len() {
            assert(t[p - 1] == groups[p]);
        }
        lemma_key_position(t, ids, by_id, x, p - 1);
    }
}

fn compare_keys(a: &PackageId, b: &PackageId, by_id: bool) -> (r: Order)
    requires
        a.wf(),
        b.wf(),
    ensures
        r.as_int() == key_order(by_id, a@, b@),
{
    if by_id {
        a.compare(b)
    } else {
        compare_str(a.name().as_str(), b.name().as_str())
    }
}

fn same_keys(a: &PackageId, b: &PackageId, by_id: bool) -> (r: bool)
    ensures
        r == same_key(by_id, a@, b@),
{
    if by_id {
        a.equals(b)
    } else {
        str_eq(a.name().as_str(), b.name().as_str())
    }
}

/// Groups the positions of the IDs by key: by ID, or by name.
pub fn group_positions(ids: &Vec<PackageId>, by_id: bool) -> (r: Vec<Vec<usize>>)
    requires
        forall|k: int| 0 <= k < ids@.len() ==> (#[trigger] ids@[k]).wf(),
    ensures
        position_views(r@) == position_groups(ids@.map_values(|id: PackageId| id@), by_id, ids@.len() as int),
        forall|j: int, m: int| 0 <= j < r@.len() && 0 <= m < r@[j]@.len() ==> (#[trigger] r@[j]@[m]) < ids@.len(),
{
    let ghost all = ids@.map_values(|id: PackageId| id@);
    let mut groups: Vec<Vec<usize>> = Vec::new();
    let mut i: usize = 0;
    while i < ids.len()
        invariant
            i <= ids@.len(),
            all == ids@.map_values(|id: PackageId| id@),
            forall|k: int| 0 <= k < ids@.len() ==> (#[trigger] ids@[k]).wf(),
            position_views(groups@) == position_groups(all, by_id, i as int),
            forall|j: int| 0 <= j < groups@.len() ==> (#[trigger] groups@[j])@.len() > 0,
            forall|j: int, m: int| 0 <= j < groups@.len() && 0 <= m < groups@[j]@.len() ==> (#[trigger] groups@[j]@[m]) < i,
        decreases ids@.len() - i,
    {
        let id = &ids[i];
        let ghost gv = position_views(groups@);
        assert(ids@[i as int].wf());
        let mut p: usize = 0;
        while p < groups.len() && matches!(compare_keys(id, &ids[groups[p][0]], by_id), Order::Greater)
            invariant
                p <= groups@.len(),
                gv == position_views(groups@),
                i < ids@.len(),
                all == ids@.map_values(|id: PackageId| id@),
                forall|k: int| 0 <= k < ids@.len() ==> (#[trigger] ids@[k]).wf(),
                forall|j: int| 0 <= j < groups@.len() ==> (#[trigger] groups@[j])@.len() > 0,
                forall|j: int, m: int| 0 <= j < groups@.len() && 0 <= m < groups@[j]@.len() ==> (#[trigger] groups@[j]@[m]) < i,
                forall|j: int| 0 <= j < p ==> (#[trigger] gv[j]).len() > 0 && key_order(by_id, all[i as int], all[gv[j][0]]) > 0,
                id.wf(),
                id@ == all[i as int],
            decreases groups@.len() - p,
        {
            proof {
                assert(gv[p as int][0] == groups@[p as int]@[0] as int);
            }
            p = p + 1;
        }
        proof {
            if p < groups@.len() {
                assert(gv[p as int][0] == groups@[p as int]@[0] as int);
            }
            lemma_key_position(gv, all, by_id, all[i as int], p as int);
        }
        let same = p < groups.len() && same_keys(&ids[groups[p][0]], id, by_id);
        if same {
            proof {
                assert(gv[p as int][0] == groups@[p as int]@[0] as int);
            }
            let mut g = groups.remove(p);
            let ghost gprev = g@;
            g.push(i);
            groups.insert(p, g);
            proof {
                assert(g@.map_values(|k: usize| k as int) =~= gprev.map_values(|k: usize| k as int).push(i as int));
                assert(position_views(groups@) =~= gv.update(p as int, gv[p as int].push(i as int)));
            }
        } else {
            proof {
                if p < groups@.len() {
                    assert(gv[p as int][0] == groups@[p as int]@[0] as int);
                }
            }
            let mut g: Vec<usize> = Vec::new();
            g.push(i);
            groups.insert(p, g);
            proof {
                assert(g@.map_values(|k: usize| k as int) =~= seq![i as int]);
                assert(position_views(groups@) =~= gv.insert(p as int, seq![i as int]));
            }
        }
        i = i + 1;
    }
    groups
}

} // verus!
