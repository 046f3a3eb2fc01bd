//! Plans that depend on the database's states: activation and installation
//! run against a simulated copy of the database, so that each target sees
//! the effect of the ones before it.
use vstd::prelude::*;

use super::simple::free_step;
use super::step::{
    conditions_refer_back, lemma_push_step, lemma_step_id_next, lemma_step_id_offset,
    plan_ids_from, step_id_at, InstallOp, InstallReason,
    ActivateOp, ActivateReason, DeactivateOp, DeactivateReason, DeactivateReasonView,
    ExecutionPlan, OpView, PlanStep, PlanStepOp, PlanStepView, SkipOp, SkipReason, StepCondition,
    StepId, StepIdGenerator,
};
use crate::package::id::{id_order, valid_package_id, PackageId, PackageIdView};
use crate::package::spec::{PackageSpec, PackageSpecView};
use crate::package::definition::PackageDefinition;
use crate::package::equality::{definition_view, DefinitionView};
use crate::simulate::{
    ActivationConflict, ActivationResultView, SimulatedActivationResult, SimulatedInstallationResult,
};
use crate::text::Order;

verus! {

/// A version to deactivate, and why.
pub type DeactivationView = (PackageIdView, ActivationConflict);

pub open spec fn deactivation_view(d: (PackageId, ActivationConflict)) -> DeactivationView {
    (d.0@, d.1)
}

/// Inserts `x` before the first element that it precedes in ID order.
pub open spec fn insert_by_id(s: Seq<DeactivationView>, x: DeactivationView) -> Seq<DeactivationView>
    decreases s.len(),
{
    if s.len() == 0 {
        seq![x]
    } else if id_order(x.0, s[0].0) < 0 {
        seq![x] + s
    } else {
        seq![s[0]] + insert_by_id(s.drop_first(), x)
    }
}

/// The elements sorted by package ID, equal ones kept in order.
pub open spec fn sort_by_id(s: Seq<DeactivationView>) -> Seq<DeactivationView>
    decreases s.len(),
{
    if s.len() == 0 {
        Seq::empty()
    } else {
        insert_by_id(sort_by_id(s.drop_last()), s.last())
    }
}

/// Inserting at the first element that `x` precedes is `insert_by_id`.
proof fn lemma_insert_by_id_at(s: Seq<DeactivationView>, x: DeactivationView, p: int)
    requires
        0 <= p <= s.len(),
        forall|j: int| 0 <= j < p ==> id_order(x.0, #[trigger] s[j].0) >= 0,
        p < s.len() ==> id_order(x.0, s[p].0) < 0,
    ensures
        insert_by_id(s, x) == s.take(p) + seq![x] + s.skip(p),
    decreases s.len(),
{
    if s.len() == 0 {
        assert(s.take(p) + seq![x] + s.skip(p) =~= seq![x]);
    } else if p == 0 {
        assert(s.take(p) + seq![x] + s.skip(p) =~= seq![x] + s);
    } else {
        let t = s.drop_first();
        assert forall|j: int| 0 <= j < p - 1 implies id_order(x.0, #[trigger] t[j].0) >= 0 by {
            assert(t[j] == s[j + 1]);
        }
        if p - 1 < t.len() {
            assert(t[p - 1] == s[p]);
        }
        lemma_insert_by_id_at(t, x, p - 1);
        assert(s.take(p) + seq![x] + s.skip(p) =~= seq![s[0]] + (t.take(p - 1) + seq![x] + t.skip(p - 1)));
    }
}

/// Sorts the deactivations by package ID with an insertion sort.
pub fn sort_deactivations(items: Vec<(PackageId, ActivationConflict)>) -> (r: Vec<(PackageId, ActivationConflict)>)
    requires
        forall|k: int| 0 <= k < items@.len() ==> (#[trigger] items@[k]).0.wf(),
    ensures
        r@.map_values(|d: (PackageId, ActivationConflict)| deactivation_view(d)) == sort_by_id(
            items@.map_values(|d: (PackageId, ActivationConflict)| deactivation_view(d)),
        ),
        forall|k: int| 0 <= k < r@.len() ==> (#[trigger] r@[k]).0.wf(),
{
    let ghost all = items@.map_values(|d: (PackageId, ActivationConflict)| deactivation_view(d));
    let ghost all_items = items@;
    let n = items.len();
    let mut rest = items;
    let mut sorted: Vec<(PackageId, ActivationConflict)> = Vec::new();
    let mut i: usize = 0;
    while i < n
        invariant
            n == all_items.len(),
            all == all_items.map_values(|d: (PackageId, ActivationConflict)| deactivation_view(d)),
            forall|k: int| 0 <= k < all_items.len() ==> (#[trigger] all_items[k]).0.wf(),
            i <= n,
            rest@ == all_items.skip(i as int),
            sorted@.map_values(|d: (PackageId, ActivationConflict)| deactivation_view(d)) == sort_by_id(all.take(i as int)),
            forall|k: int| 0 <= k < sorted@.len() ==> (#[trigger] sorted@[k]).0.wf(),
        decreases n - i,
    {
        proof {
            assert(all_items.skip(i as int)[0] == all_items[i as int]);
        }
        let x = rest.remove(0);
        let ghost sv = sorted@.map_values(|d: (PackageId, ActivationConflict)| deactivation_view(d));
        let mut p: usize = 0;
        while p < sorted.len() && !matches!(x.0.compare(&sorted[p].0), Order::Less)
            invariant
                p <= sorted@.len(),
                x.0.wf(),
                forall|k: int| 0 <= k < sorted@.len() ==> (#[trigger] sorted@[k]).0.wf(),
                sv == sorted@.map_values(|d: (PackageId, ActivationConflict)| deactivation_view(d)),
                forall|j: int| 0 <= j < p ==> id_order(x.0@, #[trigger] sv[j].0) >= 0,
            decreases sorted@.len() - p,
        {
            p = p + 1;
        }
        proof {
            if p < sorted@.len() {
                assert(id_order(x.0@, sv[p as int].0) < 0);
            }
            lemma_insert_by_id_at(sv, deactivation_view(x), p as int);
            assert(all.take(i + 1).drop_last() =~= all.take(i as int));
            assert(all.take(i + 1).last() == deactivation_view(x));
        }
        sorted.insert(p, x);
        proof {
            assert(sorted@.map_values(|d: (PackageId, ActivationConflict)| deactivation_view(d)) =~= sv.take(p as int) + seq![deactivation_view(x)] + sv.skip(p as int));
            assert(rest@ =~= all_items.skip(i + 1));
        }
        i = i + 1;
    }
    proof {
        assert(all.take(n as int) =~= all);
    }
    sorted
}

/// Why a conflicting version is deactivated.
pub open spec fn conflict_reason(c: ActivationConflict, target: PackageIdView) -> DeactivateReasonView {
    match c {
        ActivationConflict::ActiveOtherVersion => DeactivateReasonView::ConflictWithActivation { pkg_id: target },
        ActivationConflict::IncompleteActivation => DeactivateReasonView::CleanupIncompleteActivation,
        ActivationConflict::IncompleteDeactivation => DeactivateReasonView::CleanupIncompleteDeactivation,
    }
}

/// The condition of a step that runs after an optional earlier step.
pub open spec fn dependency_conditions(dependency: Option<u64>) -> Seq<StepCondition> {
    match dependency {
        Some(d) => seq![StepCondition::AfterSuccess(StepId(d))],
        None => Seq::empty(),
    }
}

/// The deactivations that follow an activation step `activate_id`, each
/// waiting for its success.
pub open spec fn deactivation_steps(ds: Seq<DeactivationView>, target: PackageIdView, activate_id: u64) -> Seq<PlanStepView> {
    Seq::new(
        ds.len(),
        |k: int|
            PlanStepView {
                step_id: step_id_at(activate_id, k + 1),
                op: OpView::Deactivate { pkg_id: ds[k].0, reason: conflict_reason(ds[k].1, target) },
                conditions: seq![StepCondition::AfterSuccess(StepId(activate_id))],
            },
    )
}

/// The steps that carry out an activation, the first under `id`: the
/// activation, after `dependency` when given, then the deactivation of each
/// conflicting version in ID order; or a skip when already active.
pub open spec fn activation_steps(
    target: PackageIdView,
    dependency: Option<u64>,
    result: ActivationResultView,
    id: u64,
) -> Seq<PlanStepView> {
    match result {
        ActivationResultView::Activated { deactivated } => seq![
            PlanStepView {
                step_id: id,
                op: OpView::Activate { pkg_id: target, reason: ActivateReason::RequestedByUser },
                conditions: dependency_conditions(dependency),
            },
        ] + deactivation_steps(sort_by_id(deactivated), target, id),
        ActivationResultView::AlreadyActive => seq![
            free_step(id, OpView::Skip { pkg_spec: PackageSpecView::Id(target), reason: SkipReason::AlreadyActive }),
        ],
        ActivationResultView::NotInstalled => Seq::empty(),
    }
}

pub open spec fn step_views(steps: Seq<PlanStep>) -> Seq<PlanStepView> {
    steps.map_values(|s: PlanStep| s@)
}

/// Appends the steps of an activation whose simulated result is `result`.
pub fn emit_activation_steps(
    target_id: &PackageId,
    dependency: Option<StepId>,
    result: SimulatedActivationResult,
    steps: &mut Vec<PlanStep>,
    ids: &mut StepIdGenerator,
)
    requires
        !(result@ is NotInstalled),
        result@ matches ActivationResultView::Activated { deactivated } ==> forall|k: int|
            0 <= k < deactivated.len() ==> valid_package_id(#[trigger] deactivated[k].0),
    ensures
        step_views(final(steps)@) == step_views(old(steps)@) + activation_steps(
            target_id@,
            match dependency {
                Some(d) => Some(d.0),
                None => None,
            },
            result@,
            old(ids).next_id(),
        ),
        final(ids).next_id() == step_id_at(
            old(ids).next_id(),
            activation_steps(
                target_id@,
                match dependency {
                    Some(d) => Some(d.0),
                    None => None,
                },
                result@,
                old(ids).next_id(),
            ).len() as int,
        ),
{
    let ghost start = ids.next_id();
    let ghost dep = match dependency {
        Some(d) => Some(d.0),
        None => None,
    };
    let ghost prev = step_views(steps@);
    let ghost rv = result@;
    match result {
        SimulatedActivationResult::Activated { deactivated } => {
            let ghost dv = deactivated@.map_values(|d: (PackageId, ActivationConflict)| deactivation_view(d));
            proof {
                let dw = deactivated@.map_values(|d: (PackageId, ActivationConflict)| (d.0@, d.1));
                assert(rv == ActivationResultView::Activated { deactivated: dw });
                assert(dw =~= dv);
                assert forall|k: int| 0 <= k < deactivated@.len() implies (#[trigger] deactivated@[k]).0.wf() by {
                    assert(dw[k].0 == deactivated@[k].0@);
                }
            }
            let mut conditions: Vec<StepCondition> = Vec::new();
            match dependency {
                Some(d) => conditions.push(StepCondition::AfterSuccess(d)),
                None => {},
            }
            assert(conditions@ == dependency_conditions(dep));
            let activate = PlanStep::with_conditions(
                PlanStepOp::Activate(ActivateOp { pkg_id: target_id.clone(), reason: ActivateReason::RequestedByUser }),
                conditions,
                ids,
            );
            let activate_id = activate.step_id();
            steps.push(activate);
            let sorted = sort_deactivations(deactivated);
            let ghost sv = sorted@.map_values(|d: (PackageId, ActivationConflict)| deactivation_view(d));
            let ghost all = activation_steps(target_id@, dep, result@, start);
            let mut k: usize = 0;
            while k < sorted.len()
                invariant
                    k <= sorted@.len(),
                    sv == sorted@.map_values(|d: (PackageId, ActivationConflict)| deactivation_view(d)),
                    sv == sort_by_id(dv),
                    activate_id.0 == start,
                    all == activation_steps(target_id@, dep, result@, start),
                    rv == (ActivationResultView::Activated { deactivated: dv }),
                    rv == result@,
                    step_views(steps@) == prev + all.take(k + 1),
                    ids.next_id() == step_id_at(start, k + 1),
                decreases sorted@.len() - k,
            {
                let (pkg_id, conflict) = (&sorted[k].0, sorted[k].1);
                let reason = match conflict {
                    ActivationConflict::ActiveOtherVersion => DeactivateReason::ConflictWithActivation { pkg_id: target_id.clone() },
                    ActivationConflict::IncompleteActivation => DeactivateReason::CleanupIncompleteActivation,
                    ActivationConflict::IncompleteDeactivation => DeactivateReason::CleanupIncompleteDeactivation,
                };
                let mut conditions: Vec<StepCondition> = Vec::new();
                conditions.push(StepCondition::AfterSuccess(activate_id));
                let step = PlanStep::with_conditions(
                    PlanStepOp::Deactivate(DeactivateOp { pkg_id: pkg_id.clone(), reason }),
                    conditions,
                    ids,
                );
                let ghost sw = step@;
                let ghost before = step_views(steps@);
                steps.push(step);
                proof {
                    lemma_step_id_offset(start, 1, k as int);
                    lemma_step_id_next(start, k + 1);
                    assert(sv[k as int] == deactivation_view(sorted@[k as int]));
                    assert(all[k + 1] == sw);
                    assert(step_views(steps@) =~= before.push(sw));
                    assert(all.take(k + 2) =~= all.take(k + 1).push(all[k + 1]));
                }
                k = k + 1;
            }
            proof {
                assert(all.take(k + 1) =~= all);
            }
        },
        SimulatedActivationResult::AlreadyActive => {
            let step = PlanStep::new(
                PlanStepOp::Skip(SkipOp { pkg_spec: PackageSpec::from_id(target_id.clone()), reason: SkipReason::AlreadyActive }),
                ids,
            );
            let ghost sw = step@;
            steps.push(step);
            proof {
                assert(step_views(steps@) =~= prev.push(sw));
            }
        },
        SimulatedActivationResult::NotInstalled => {},
    }
}

/// The step that skips a package that is installed already, under `id`.
pub open spec fn skip_installed_step(pkg_id: PackageIdView, id: u64) -> PlanStepView {
    free_step(id, OpView::Skip { pkg_spec: PackageSpecView::Id(pkg_id), reason: SkipReason::AlreadyInstalled })
}

/// The steps that carry out the installation of the definition `pkg`, whose
/// simulated result is `result`, under `id`: the install step carries that
/// very definition.
pub open spec fn install_steps(pkg: DefinitionView, result: SimulatedInstallationResult, id: u64) -> Seq<PlanStepView> {
    match result {
        SimulatedInstallationResult::AlreadyInstalled => seq![skip_installed_step(pkg.id, id)],
        _ => seq![free_step(id, OpView::Install { pkg, reason: InstallReason::RequestedByUser })],
    }
}

/// Appends the step of an installation whose simulated result is `result`,
/// and returns the step that later steps must wait for, if any.
pub fn emit_install_steps(
    pkg: &PackageDefinition,
    result: SimulatedInstallationResult,
    steps: &mut Vec<PlanStep>,
    ids: &mut StepIdGenerator,
) -> (r: Option<StepId>)
    ensures
        step_views(final(steps)@) == step_views(old(steps)@) + install_steps(definition_view(*pkg), result, old(ids).next_id()),
        final(ids).next_id() == step_id_at(old(ids).next_id(), 1),
        r == (match result {
            SimulatedInstallationResult::AlreadyInstalled => None,
            _ => Some(StepId(old(ids).next_id())),
        }),
{
    let ghost prev = step_views(steps@);
    let (op, waits) = match result {
        SimulatedInstallationResult::AlreadyInstalled => (
            PlanStepOp::Skip(SkipOp { pkg_spec: PackageSpec::from_id(pkg.id.clone()), reason: SkipReason::AlreadyInstalled }),
            false,
        ),
        _ => (PlanStepOp::Install(InstallOp { pkg: pkg.clone(), reason: InstallReason::RequestedByUser }), true),
    };
    let step = PlanStep::new(op, ids);
    let step_id = step.step_id();
    let ghost sw = step@;
    steps.push(step);
    proof {
        assert(step_views(steps@) =~= prev.push(sw));
    }
    if waits {
        Some(step_id)
    } else {
        None
    }
}

/// Appending the steps of an activation keeps a plan's identifiers in order
/// and every condition pointing back, when the dependency is an earlier step.
pub proof fn lemma_activation_steps_wf(
    p: Seq<PlanStepView>,
    start: u64,
    target: PackageIdView,
    dependency: Option<u64>,
    result: ActivationResultView,
)
    requires
        plan_ids_from(p, start),
        conditions_refer_back(p),
        dependency matches Some(d) ==> exists|j: int| 0 <= j < p.len() && p[j].step_id == d,
    ensures
        plan_ids_from(p + activation_steps(target, dependency, result, step_id_at(start, p.len() as int)), start),
        conditions_refer_back(p + activation_steps(target, dependency, result, step_id_at(start, p.len() as int))),
{
    let n = p.len() as int;
    let id0 = step_id_at(start, n);
    let a = activation_steps(target, dependency, result, id0);
    let q = p + a;
    assert forall|k: int| 0 <= k < q.len() implies #[trigger] q[k].step_id == step_id_at(start, k) by {
        if k >= n {
            assert(q[k] == a[k - n]);
            if k > n {
                lemma_step_id_offset(start, n, k - n);
            }
        }
    }
    assert forall|k: int, c: int| 0 <= k < q.len() && 0 <= c < q[k].conditions.len() implies match #[trigger] q[k].conditions[c] {
        StepCondition::AfterSuccess(id) => exists|j: int| 0 <= j < k && q[j].step_id == id.0,
        StepCondition::Never => true,
    } by {
        if k < n {
            assert(q[k] == p[k]);
            match p[k].conditions[c] {
                StepCondition::AfterSuccess(id) => {
                    let j = choose|j: int| 0 <= j < k && p[j].step_id == id.0;
                    assert(q[j] == p[j]);
                },
                StepCondition::Never => {},
            }
        } else if k == n {
            assert(q[k] == a[0]);
            match dependency {
                Some(d) => {
                    let j = choose|j: int| 0 <= j < p.len() && p[j].step_id == d;
                    assert(q[j] == p[j]);
                },
                None => {},
            }
        } else {
            assert(q[k] == a[k - n]);
            assert(q[n] == a[0]);
        }
    }
}

/// The activation plan, and the simulated state it leaves: each target in
/// turn is activated against the state the earlier ones left.
pub open spec fn activate_plan(
    ts: Seq<crate::engine::target::ResolvedActivateTarget>,
    s: Seq<crate::simulate::SimEntryView>,
    start: u64,
) -> (Seq<PlanStepView>, Seq<crate::simulate::SimEntryView>)
    decreases ts.len(),
{
    if ts.len() == 0 {
        (Seq::empty(), s)
    } else {
        let (p, s1) = activate_plan(ts.drop_last(), s, start);
        let id = ts.last().pkg_id@;
        (
            p + activation_steps(id, None, crate::simulate::activation_result(s1, id), step_id_at(start, p.len() as int)),
            crate::simulate::after_activation(s1, id),
        )
    }
}

/// Plans the activation of each target against a simulated copy of the
/// database: a target already active is skipped, and every other version of
/// its package that is active or half-way through a change is deactivated
/// after the activation succeeded.
pub fn plan_activate(
    db: &crate::db::PackageDatabase,
    targets: &Vec<crate::engine::target::ResolvedActivateTarget>,
    ids: &mut StepIdGenerator,
) -> (r: ExecutionPlan)
    requires
        db.wf(),
        forall|k: int| 0 <= k < targets@.len() ==> crate::simulate::sim_installed(
            crate::simulate::sim_of_db(db@),
            (#[trigger] targets@[k]).pkg_id@,
        ),
    ensures
        r@ == activate_plan(targets@, crate::simulate::sim_of_db(db@), old(ids).next_id()).0,
        final(ids).next_id() == step_id_at(old(ids).next_id(), r@.len() as int),
        plan_ids_from(r@, old(ids).next_id()),
        conditions_refer_back(r@),
{
    let ghost start = ids.next_id();
    let mut sim = crate::simulate::SimulatedPackageDbState::from_db(db);
    let mut steps: Vec<PlanStep> = Vec::new();
    let mut i: usize = 0;
    while i < targets.len()
        invariant
            i <= targets@.len(),
            sim.wf(),
            (step_views(steps@), sim@) == activate_plan(targets@.take(i as int), crate::simulate::sim_of_db(db@), start),
            ids.next_id() == step_id_at(start, steps@.len() as int),
            plan_ids_from(step_views(steps@), start),
            conditions_refer_back(step_views(steps@)),
            forall|k: int| 0 <= k < targets@.len() ==> crate::simulate::sim_installed(sim@, (#[trigger] targets@[k]).pkg_id@),
        decreases targets@.len() - i,
    {
        let ghost s0 = sim@;
        let ghost p0 = step_views(steps@);
        let target_id = &targets[i].pkg_id;
        let result = sim.activate(target_id);
        proof {
            crate::simulate::lemma_conflicts_are_entries(s0, target_id@, s0.len() as int);
            lemma_activation_steps_wf(p0, start, target_id@, None, result@);
            assert forall|k: int| 0 <= k < targets@.len() implies crate::simulate::sim_installed(sim@, (#[trigger] targets@[k]).pkg_id@) by {
                crate::simulate::lemma_activation_keeps_installed(s0, target_id@, targets@[k].pkg_id@);
            }
            assert(targets@.take(i + 1).drop_last() =~= targets@.take(i as int));
        }
        let ghost a = activation_steps(target_id@, None, result@, step_id_at(start, p0.len() as int));
        emit_activation_steps(target_id, None, result, &mut steps, ids);
        proof {
            lemma_step_id_offset(start, p0.len() as int, a.len() as int);
            assert(step_views(steps@).len() == steps@.len());
        }
        i = i + 1;
    }
    proof {
        assert(targets@.take(targets@.len() as int) =~= targets@);
    }
    ExecutionPlan::new(steps)
}

/// The installation steps of an install target: a skip when it names an
/// installed package, else the steps of its definition.
pub open spec fn target_install_steps(
    kind: crate::engine::target::InstallTargetKind,
    res: SimulatedInstallationResult,
    id: u64,
) -> Seq<PlanStepView> {
    match kind {
        crate::engine::target::InstallTargetKind::AlreadyInstalled { pkg_id } => seq![skip_installed_step(pkg_id@, id)],
        crate::engine::target::InstallTargetKind::Install { pkg } => install_steps(definition_view(pkg), res, id),
    }
}

/// What one install target adds to a plan `p` built against the state `s`:
/// its installation step unless it is installed already, then its
/// activation when asked, after that installation step.
pub open spec fn install_target_plan(
    p: Seq<PlanStepView>,
    s: Seq<crate::simulate::SimEntryView>,
    t: crate::engine::target::ResolvedInstallTarget,
    start: u64,
) -> (Seq<PlanStepView>, Seq<crate::simulate::SimEntryView>) {
    let id = t.kind.pkg_id_view();
    let res = match t.kind {
        crate::engine::target::InstallTargetKind::AlreadyInstalled { .. } => SimulatedInstallationResult::AlreadyInstalled,
        crate::engine::target::InstallTargetKind::Install { .. } => crate::simulate::installation_result(s, id),
    };
    let s2 = match t.kind {
        crate::engine::target::InstallTargetKind::AlreadyInstalled { .. } => s,
        crate::engine::target::InstallTargetKind::Install { .. } => crate::simulate::after_installation(s, id),
    };
    let id0 = step_id_at(start, p.len() as int);
    let p2 = p + target_install_steps(t.kind, res, id0);
    let dep = if res == SimulatedInstallationResult::AlreadyInstalled {
        None
    } else {
        Some(id0)
    };
    if t.should_activate {
        (
            p2 + activation_steps(id, dep, crate::simulate::activation_result(s2, id), step_id_at(start, p2.len() as int)),
            crate::simulate::after_activation(s2, id),
        )
    } else {
        (p2, s2)
    }
}

/// The installation plan, and the simulated state it leaves: the targets in
/// turn, each against the state the earlier ones left.
pub open spec fn install_plan(
    ts: Seq<crate::engine::target::ResolvedInstallTarget>,
    s: Seq<crate::simulate::SimEntryView>,
    start: u64,
) -> (Seq<PlanStepView>, Seq<crate::simulate::SimEntryView>)
    decreases ts.len(),
{
    if ts.len() == 0 {
        (Seq::empty(), s)
    } else {
        let (p, s1) = install_plan(ts.drop_last(), s, start);
        install_target_plan(p, s1, ts.last(), start)
    }
}

/// A target that is to be activated without being installed here is
/// installed already, or by an earlier target.
pub open spec fn activations_installed(
    ts: Seq<crate::engine::target::ResolvedInstallTarget>,
    s: Seq<crate::simulate::SimEntryView>,
    from: int,
) -> bool {
    forall|k: int|
        from <= k < ts.len() && (#[trigger] ts[k]).should_activate && ts[k].kind is AlreadyInstalled
            ==> crate::simulate::sim_installed(s, ts[k].kind.pkg_id_view()) || exists|j: int|
            from <= j < k && ts[j].kind is Install && ts[j].kind.pkg_id_view() == ts[k].kind.pkg_id_view()
}

/// Target `k` asks for the activation of a package that it does not
/// install, and that is neither installed in `s` nor installed by a target
/// from `from` on before it.
pub open spec fn activation_unmet(
    ts: Seq<crate::engine::target::ResolvedInstallTarget>,
    s: Seq<crate::simulate::SimEntryView>,
    from: int,
    k: int,
) -> bool {
    &&& ts[k].should_activate
    &&& ts[k].kind is AlreadyInstalled
    &&& !crate::simulate::sim_installed(s, ts[k].kind.pkg_id_view())
    &&& !exists|j: int| from <= j < k && ts[j].kind is Install && ts[j].kind.pkg_id_view() == ts[k].kind.pkg_id_view()
}

/// Finds the first install target whose activation `plan_install` could not
/// plan: one that asks to activate a package that is neither installed nor
/// installed by an earlier target. `None` exactly when `plan_install` may be
/// called with these targets.
pub fn first_unmet_activation(
    db: &crate::db::PackageDatabase,
    targets: &Vec<crate::engine::target::ResolvedInstallTarget>,
) -> (r: Option<usize>)
    requires
        db.wf(),
    ensures
        r is None <==> activations_installed(targets@, crate::simulate::sim_of_db(db@), 0),
        r matches Some(k) ==> k < targets@.len() && activation_unmet(targets@, crate::simulate::sim_of_db(db@), 0, k as int)
            && forall|j: int| 0 <= j < k ==> !activation_unmet(targets@, crate::simulate::sim_of_db(db@), 0, j),
{
    let ghost s = crate::simulate::sim_of_db(db@);
    let sim = crate::simulate::SimulatedPackageDbState::from_db(db);
    let mut k: usize = 0;
    while k < targets.len()
        invariant
            k <= targets@.len(),
            sim@ == s,
            sim.wf(),
            s == crate::simulate::sim_of_db(db@),
            forall|j: int| 0 <= j < k ==> !activation_unmet(targets@, s, 0, j),
        decreases targets@.len() - k,
    {
        let target = &targets[k];
        if target.should_activate {
            if let crate::engine::target::InstallTargetKind::AlreadyInstalled { pkg_id } = &target.kind {
                if !sim.is_installed(pkg_id) {
                    let mut found = false;
                    let mut j: usize = 0;
                    while j < k
                        invariant
                            j <= k,
                            k < targets@.len(),
                            pkg_id@ == targets@[k as int].kind.pkg_id_view(),
                            found <==> exists|i: int|
                                0 <= i < j && targets@[i].kind is Install && targets@[i].kind.pkg_id_view() == pkg_id@,
                        decreases k - j,
                    {
                        if let crate::engine::target::InstallTargetKind::Install { pkg } = &targets[j].kind {
                            if pkg.id.equals(pkg_id) {
                                found = true;
                            }
                        }
                        j = j + 1;
                    }
                    if !found {
                        return Some(k);
                    }
                }
            }
        }
        k = k + 1;
    }
    proof {
        assert forall|k: int|
            0 <= k < targets@.len() && (#[trigger] targets@[k]).should_activate && targets@[k].kind is AlreadyInstalled
                implies crate::simulate::sim_installed(s, targets@[k].kind.pkg_id_view()) || exists|j: int|
                0 <= j < k && targets@[j].kind is Install && targets@[j].kind.pkg_id_view() == targets@[k].kind.pkg_id_view() by {
            assert(!activation_unmet(targets@, s, 0, k));
        }
    }
    None
}

/// The installation part of one install target: a skip when it is
/// installed already, else the simulated installation's step.
fn plan_install_part(
    sim: &mut crate::simulate::SimulatedPackageDbState,
    target: &crate::engine::target::ResolvedInstallTarget,
    steps: &mut Vec<PlanStep>,
    ids: &mut StepIdGenerator,
    Ghost(start): Ghost<u64>,
) -> (r: Option<StepId>)
    requires
        old(sim).wf(),
        target.kind.wf(),
        old(ids).next_id() == step_id_at(start, old(steps)@.len() as int),
        plan_ids_from(step_views(old(steps)@), start),
        conditions_refer_back(step_views(old(steps)@)),
    ensures
        final(sim).wf(),
        ({
            let id = target.kind.pkg_id_view();
            let res = match target.kind {
                crate::engine::target::InstallTargetKind::AlreadyInstalled { .. } => SimulatedInstallationResult::AlreadyInstalled,
                crate::engine::target::InstallTargetKind::Install { .. } => crate::simulate::installation_result(old(sim)@, id),
            };
            let id0 = step_id_at(start, old(steps)@.len() as int);
            &&& step_views(final(steps)@) == step_views(old(steps)@) + target_install_steps(target.kind, res, id0)
            &&& final(sim)@ == match target.kind {
                crate::engine::target::InstallTargetKind::AlreadyInstalled { .. } => old(sim)@,
                crate::engine::target::InstallTargetKind::Install { .. } => crate::simulate::after_installation(old(sim)@, id),
            }
            &&& r == if res == SimulatedInstallationResult::AlreadyInstalled {
                None
            } else {
                Some(StepId(id0))
            }
        }),
        final(steps)@.len() == old(steps)@.len() + 1,
        final(ids).next_id() == step_id_at(start, final(steps)@.len() as int),
        plan_ids_from(step_views(final(steps)@), start),
        conditions_refer_back(step_views(final(steps)@)),
        forall|x: PackageIdView|
            crate::simulate::sim_installed(old(sim)@, x) || (target.kind is Install && x == target.kind.pkg_id_view())
                ==> crate::simulate::sim_installed(final(sim)@, x),
{
    let ghost s0 = sim@;
    let ghost p0 = step_views(steps@);
    let ghost id = target.kind.pkg_id_view();
    let dependency = match &target.kind {
        crate::engine::target::InstallTargetKind::AlreadyInstalled { pkg_id } => {
            let step = PlanStep::new(
                PlanStepOp::Skip(SkipOp { pkg_spec: PackageSpec::from_id(pkg_id.clone()), reason: SkipReason::AlreadyInstalled }),
                ids,
            );
            let ghost sw = step@;
            steps.push(step);
            proof {
                assert(step_views(steps@) =~= p0.push(sw));
                assert(step_views(steps@) =~= p0 + target_install_steps(target.kind, SimulatedInstallationResult::AlreadyInstalled, step_id_at(start, p0.len() as int)));
            }
            None
        },
        crate::engine::target::InstallTargetKind::Install { pkg } => {
            let result = sim.install(&pkg.id);
            proof {
                assert forall|x: PackageIdView|
                    crate::simulate::sim_installed(s0, x) || x == id
                        implies crate::simulate::sim_installed(sim@, x) by {
                    crate::simulate::lemma_installation_keeps_installed(s0, id, x);
                }
            }
            emit_install_steps(pkg, result, steps, ids)
        },
    };
    proof {
        let p1 = step_views(steps@);
        lemma_step_id_next(start, p0.len() as int);
        lemma_push_step(p0, start, p1[p0.len() as int]);
        assert(p1 =~= p0.push(p1[p0.len() as int]));
    }
    dependency
}

/// The activation part of one install target, against the state that its
/// installation left.
fn plan_activation_part(
    sim: &mut crate::simulate::SimulatedPackageDbState,
    target_id: &PackageId,
    dependency: Option<StepId>,
    steps: &mut Vec<PlanStep>,
    ids: &mut StepIdGenerator,
    Ghost(start): Ghost<u64>,
)
    requires
        old(sim).wf(),
        crate::simulate::sim_installed(old(sim)@, target_id@),
        old(ids).next_id() == step_id_at(start, old(steps)@.len() as int),
        plan_ids_from(step_views(old(steps)@), start),
        conditions_refer_back(step_views(old(steps)@)),
        dependency matches Some(d) ==> exists|j: int| 0 <= j < old(steps)@.len() && step_views(old(steps)@)[j].step_id == d.0,
    ensures
        final(sim).wf(),
        step_views(final(steps)@) == step_views(old(steps)@) + activation_steps(
            target_id@,
            match dependency {
                Some(d) => Some(d.0),
                None => None,
            },
            crate::simulate::activation_result(old(sim)@, target_id@),
            step_id_at(start, old(steps)@.len() as int),
        ),
        final(sim)@ == crate::simulate::after_activation(old(sim)@, target_id@),
        final(ids).next_id() == step_id_at(start, final(steps)@.len() as int),
        plan_ids_from(step_views(final(steps)@), start),
        conditions_refer_back(step_views(final(steps)@)),
        forall|x: PackageIdView|
            crate::simulate::sim_installed(old(sim)@, x) ==> crate::simulate::sim_installed(final(sim)@, x),
{
    let ghost s0 = sim@;
    let ghost p0 = step_views(steps@);
    let result = sim.activate(target_id);
    proof {
        crate::simulate::lemma_conflicts_are_entries(s0, target_id@, s0.len() as int);
        lemma_activation_steps_wf(p0, start, target_id@, match dependency { Some(d) => Some(d.0), None => None }, result@);
        assert forall|x: PackageIdView| crate::simulate::sim_installed(s0, x) implies crate::simulate::sim_installed(sim@, x) by {
            crate::simulate::lemma_activation_keeps_installed(s0, target_id@, x);
        }
    }
    emit_activation_steps(target_id, dependency, result, steps, ids);
    proof {
        let a = activation_steps(target_id@, match dependency { Some(d) => Some(d.0), None => None }, result@, step_id_at(start, p0.len() as int));
        lemma_step_id_offset(start, p0.len() as int, a.len() as int);
        assert(step_views(steps@).len() == steps@.len());
        assert(p0.len() == old(steps)@.len());
    }
}

/// Plans one install target.
fn plan_install_target(
    sim: &mut crate::simulate::SimulatedPackageDbState,
    target: &crate::engine::target::ResolvedInstallTarget,
    steps: &mut Vec<PlanStep>,
    ids: &mut StepIdGenerator,
    Ghost(start): Ghost<u64>,
)
    requires
        old(sim).wf(),
        target.kind.wf(),
        old(ids).next_id() == step_id_at(start, old(steps)@.len() as int),
        plan_ids_from(step_views(old(steps)@), start),
        conditions_refer_back(step_views(old(steps)@)),
        target.should_activate && target.kind is AlreadyInstalled ==> crate::simulate::sim_installed(
            old(sim)@,
            target.kind.pkg_id_view(),
        ),
    ensures
        final(sim).wf(),
        (step_views(final(steps)@), final(sim)@) == install_target_plan(step_views(old(steps)@), old(sim)@, *target, start),
        final(ids).next_id() == step_id_at(start, final(steps)@.len() as int),
        plan_ids_from(step_views(final(steps)@), start),
        conditions_refer_back(step_views(final(steps)@)),
        forall|x: PackageIdView|
            crate::simulate::sim_installed(old(sim)@, x) || (target.kind is Install && x == target.kind.pkg_id_view())
                ==> crate::simulate::sim_installed(final(sim)@, x),
{
    let ghost s0 = sim@;
    let ghost p0 = step_views(steps@);
    let ghost id = target.kind.pkg_id_view();
    let dependency = plan_install_part(sim, target, steps, ids, Ghost(start));
    proof {
        if target.kind is Install {
            crate::simulate::lemma_installation_keeps_installed(s0, id, id);
        }
        if dependency is Some {
            assert(step_views(steps@)[p0.len() as int].step_id == step_id_at(start, p0.len() as int));
        }
    }
    if target.should_activate {
        plan_activation_part(sim, target.kind.pkg_id(), dependency, steps, ids, Ghost(start));
    }
}

/// Plans the installation of each target against a simulated copy of the
/// database, with the activation of the targets that ask for it.
pub fn plan_install(
    db: &crate::db::PackageDatabase,
    targets: &Vec<crate::engine::target::ResolvedInstallTarget>,
    ids: &mut StepIdGenerator,
) -> (r: ExecutionPlan)
    requires
        db.wf(),
        forall|k: int| 0 <= k < targets@.len() ==> (#[trigger] targets@[k]).kind.wf(),
        activations_installed(targets@, crate::simulate::sim_of_db(db@), 0),
    ensures
        r@ == install_plan(targets@, crate::simulate::sim_of_db(db@), old(ids).next_id()).0,
        final(ids).next_id() == step_id_at(old(ids).next_id(), r@.len() as int),
        plan_ids_from(r@, old(ids).next_id()),
        conditions_refer_back(r@),
{
    let ghost start = ids.next_id();
    let mut sim = crate::simulate::SimulatedPackageDbState::from_db(db);
    let mut steps: Vec<PlanStep> = Vec::new();
    let mut i: usize = 0;
    while i < targets.len()
        invariant
            i <= targets@.len(),
            sim.wf(),
            forall|k: int| 0 <= k < targets@.len() ==> (#[trigger] targets@[k]).kind.wf(),
            (step_views(steps@), sim@) == install_plan(targets@.take(i as int), crate::simulate::sim_of_db(db@), start),
            ids.next_id() == step_id_at(start, steps@.len() as int),
            plan_ids_from(step_views(steps@), start),
            conditions_refer_back(step_views(steps@)),
            activations_installed(targets@, sim@, i as int),
        decreases targets@.len() - i,
    {
        let ghost s0 = sim@;
        proof {
            assert(targets@.take(i + 1).drop_last() =~= targets@.take(i as int));
            assert(targets@.take(i + 1).last() == targets@[i as int]);
        }
        plan_install_target(&mut sim, &targets[i], &mut steps, ids, Ghost(start));
        proof {
            assert forall|k: int| i + 1 <= k < targets@.len() && (#[trigger] targets@[k]).should_activate && targets@[k].kind is AlreadyInstalled
                implies crate::simulate::sim_installed(sim@, targets@[k].kind.pkg_id_view()) || exists|j: int|
                    i + 1 <= j < k && targets@[j].kind is Install && targets@[j].kind.pkg_id_view() == targets@[k].kind.pkg_id_view() by {
                let x = targets@[k].kind.pkg_id_view();
                if !crate::simulate::sim_installed(s0, x) {
                    let j = choose|j: int| i <= j < k && targets@[j].kind is Install && targets@[j].kind.pkg_id_view() == x;
                    if j > i {
                        assert(i + 1 <= j < k);
                    }
                }
            }
        }
        i = i + 1;
    }
    proof {
        assert(targets@.take(targets@.len() as int) =~= targets@);
    }
    ExecutionPlan::new(steps)
}

} // verus!
