//! Plans whose steps follow from each target alone: deactivation, repair
//! and uninstallation.
use vstd::prelude::*;

use super::step::{
    conditions_refer_back, lemma_push_step, lemma_step_id_next, plan_ids_from, step_id_at,
    DeactivateOp, DeactivateReason, DeactivateReasonView, ExecutionPlan, OpView, PlanStep,
    PlanStepOp, PlanStepView, SkipOp, SkipReason, StepCondition, StepId, StepIdGenerator,
    UninstallOp, UninstallReason,
};
use crate::engine::target::{
    ActivationRepairKind, InstallationRepairKind, ResolvedDeactivateTarget, ResolvedRepairTarget,
    ResolvedUninstallTarget,
};

verus! {

/// A step with no condition.
pub open spec fn free_step(id: u64, op: OpView) -> PlanStepView {
    PlanStepView { step_id: id, op, conditions: Seq::empty() }
}

/// The step that carries out one deactivate target.
pub open spec fn deactivate_target_step(t: ResolvedDeactivateTarget, id: u64) -> PlanStepView {
    match t {
        ResolvedDeactivateTarget::Deactivate { pkg_id } => free_step(
            id,
            OpView::Deactivate { pkg_id: pkg_id@, reason: DeactivateReasonView::RequestedByUser },
        ),
        ResolvedDeactivateTarget::AlreadyInactive { pkg_spec } => free_step(
            id,
            OpView::Skip { pkg_spec: pkg_spec@, reason: SkipReason::AlreadyInactive },
        ),
    }
}

/// The deactivation plan: one step per target, in order.
pub open spec fn deactivate_plan(ts: Seq<ResolvedDeactivateTarget>, start: u64) -> Seq<PlanStepView> {
    Seq::new(ts.len(), |k: int| deactivate_target_step(ts[k], step_id_at(start, k)))
}

/// Plans the deactivation of each target; a target with nothing active is
/// skipped.
pub fn plan_deactivate(targets: &Vec<ResolvedDeactivateTarget>, ids: &mut StepIdGenerator) -> (r: ExecutionPlan)
    ensures
        r@ == deactivate_plan(targets@, old(ids).next_id()),
        final(ids).next_id() == step_id_at(old(ids).next_id(), r@.len() as int),
        plan_ids_from(r@, old(ids).next_id()),
        conditions_refer_back(r@),
{
    let ghost start = ids.next_id();
    let mut steps: Vec<PlanStep> = Vec::new();
    let mut i: usize = 0;
    while i < targets.len()
        invariant
            i <= targets@.len(),
            steps@.map_values(|s: PlanStep| s@) == deactivate_plan(targets@.take(i as int), start),
            ids.next_id() == step_id_at(start, i as int),
        decreases targets@.len() - i,
    {
        let step = match &targets[i] {
            ResolvedDeactivateTarget::Deactivate { pkg_id } => PlanStep::new(
                PlanStepOp::Deactivate(DeactivateOp { pkg_id: pkg_id.clone(), reason: DeactivateReason::RequestedByUser }),
                ids,
            ),
            ResolvedDeactivateTarget::AlreadyInactive { pkg_spec } => PlanStep::new(
                PlanStepOp::Skip(SkipOp { pkg_spec: pkg_spec.clone(), reason: SkipReason::AlreadyInactive }),
                ids,
            ),
        };
        let ghost prev = steps@.map_values(|s: PlanStep| s@);
        steps.push(step);
        proof {
            lemma_step_id_next(start, i as int);
            assert(steps@.map_values(|s: PlanStep| s@) =~= prev.push(step@));
            assert(steps@.map_values(|s: PlanStep| s@) =~= deactivate_plan(targets@.take(i + 1), start));
        }
        i = i + 1;
    }
    proof {
        assert(targets@.take(targets@.len() as int) =~= targets@);
    }
    ExecutionPlan::new(steps)
}

/// The step that carries out one repair target.
pub open spec fn repair_target_step(t: ResolvedRepairTarget, id: u64) -> PlanStepView {
    match t {
        ResolvedRepairTarget::NotBroken { pkg_spec } => free_step(
            id,
            OpView::Skip { pkg_spec: pkg_spec@, reason: SkipReason::NotBroken },
        ),
        ResolvedRepairTarget::Deactivate { pkg_id, kind } => free_step(
            id,
            OpView::Deactivate {
                pkg_id: pkg_id@,
                reason: match kind {
                    ActivationRepairKind::IncompleteActivation => DeactivateReasonView::RepairIncompleteActivation,
                    ActivationRepairKind::IncompleteDeactivation => DeactivateReasonView::RepairIncompleteDeactivation,
                },
            },
        ),
        ResolvedRepairTarget::Uninstall { pkg_id, kind } => free_step(
            id,
            OpView::Uninstall {
                pkg_id: pkg_id@,
                reason: match kind {
                    InstallationRepairKind::IncompleteInstall => UninstallReason::RepairIncompleteInstall,
                    InstallationRepairKind::IncompleteUninstall => UninstallReason::RepairIncompleteUninstall,
                },
            },
        ),
        ResolvedRepairTarget::AlreadyUninstalled { pkg_spec } => free_step(
            id,
            OpView::Skip { pkg_spec: pkg_spec@, reason: SkipReason::NothingToRepair },
        ),
    }
}

/// The repair plan: one step per target, in order.
pub open spec fn repair_plan(ts: Seq<ResolvedRepairTarget>, start: u64) -> Seq<PlanStepView> {
    Seq::new(ts.len(), |k: int| repair_target_step(ts[k], step_id_at(start, k)))
}

/// Plans the repair of each target: an interrupted activation change is
/// finished by a deactivation, an interrupted installation change by an
/// uninstallation.
pub fn plan_repair(targets: &Vec<ResolvedRepairTarget>, ids: &mut StepIdGenerator) -> (r: ExecutionPlan)
    ensures
        r@ == repair_plan(targets@, old(ids).next_id()),
        final(ids).next_id() == step_id_at(old(ids).next_id(), r@.len() as int),
        plan_ids_from(r@, old(ids).next_id()),
        conditions_refer_back(r@),
{
    let ghost start = ids.next_id();
    let mut steps: Vec<PlanStep> = Vec::new();
    let mut i: usize = 0;
    while i < targets.len()
        invariant
            i <= targets@.len(),
            steps@.map_values(|s: PlanStep| s@) == repair_plan(targets@.take(i as int), start),
            ids.next_id() == step_id_at(start, i as int),
        decreases targets@.len() - i,
    {
        let op = match &targets[i] {
            ResolvedRepairTarget::NotBroken { pkg_spec } => PlanStepOp::Skip(
                SkipOp { pkg_spec: pkg_spec.clone(), reason: SkipReason::NotBroken },
            ),
            ResolvedRepairTarget::Deactivate { pkg_id, kind } => {
                let reason = match kind {
                    ActivationRepairKind::IncompleteActivation => DeactivateReason::RepairIncompleteActivation,
                    ActivationRepairKind::IncompleteDeactivation => DeactivateReason::RepairIncompleteDeactivation,
                };
                PlanStepOp::Deactivate(DeactivateOp { pkg_id: pkg_id.clone(), reason })
            },
            ResolvedRepairTarget::Uninstall { pkg_id, kind } => {
                let reason = match kind {
                    InstallationRepairKind::IncompleteInstall => UninstallReason::RepairIncompleteInstall,
                    InstallationRepairKind::IncompleteUninstall => UninstallReason::RepairIncompleteUninstall,
                };
                PlanStepOp::Uninstall(UninstallOp { pkg_id: pkg_id.clone(), reason })
            },
            ResolvedRepairTarget::AlreadyUninstalled { pkg_spec } => PlanStepOp::Skip(
                SkipOp { pkg_spec: pkg_spec.clone(), reason: SkipReason::NothingToRepair },
            ),
        };
        let step = PlanStep::new(op, ids);
        let ghost prev = steps@.map_values(|s: PlanStep| s@);
        steps.push(step);
        proof {
            lemma_step_id_next(start, i as int);
            assert(steps@.map_values(|s: PlanStep| s@) =~= prev.push(step@));
            assert(steps@.map_values(|s: PlanStep| s@) =~= repair_plan(targets@.take(i + 1), start));
        }
        i = i + 1;
    }
    proof {
        assert(targets@.take(targets@.len() as int) =~= targets@);
    }
    ExecutionPlan::new(steps)
}

/// The steps that carry out one uninstall target, the first under `id`:
/// a deactivation first when the package is active, and the uninstallation
/// only after it succeeded.
pub open spec fn uninstall_target_steps(t: ResolvedUninstallTarget, id: u64) -> Seq<PlanStepView> {
    match t {
        ResolvedUninstallTarget::Uninstall { pkg_id, should_deactivate } => if should_deactivate {
            seq![
                free_step(id, OpView::Deactivate { pkg_id: pkg_id@, reason: DeactivateReasonView::RequestedByUser }),
                PlanStepView {
                    step_id: step_id_at(id, 1),
                    op: OpView::Uninstall { pkg_id: pkg_id@, reason: UninstallReason::RequestedByUser },
                    conditions: seq![StepCondition::AfterSuccess(StepId(id))],
                },
            ]
        } else {
            seq![free_step(id, OpView::Uninstall { pkg_id: pkg_id@, reason: UninstallReason::RequestedByUser })]
        },
        ResolvedUninstallTarget::AlreadyUninstalled { pkg_spec } => seq![
            free_step(id, OpView::Skip { pkg_spec: pkg_spec@, reason: SkipReason::AlreadyUninstalled }),
        ],
    }
}

/// The uninstallation plan: the steps of each target, in order.
pub open spec fn uninstall_plan(ts: Seq<ResolvedUninstallTarget>, start: u64) -> Seq<PlanStepView>
    decreases ts.len(),
{
    if ts.len() == 0 {
        Seq::empty()
    } else {
        let p = uninstall_plan(ts.drop_last(), start);
        p + uninstall_target_steps(ts.last(), step_id_at(start, p.len() as int))
    }
}

/// Plans the uninstallation of each target; an active package is
/// deactivated first, and a target with nothing installed is skipped.
pub fn plan_uninstall(targets: &Vec<ResolvedUninstallTarget>, ids: &mut StepIdGenerator) -> (r: ExecutionPlan)
    ensures
        r@ == uninstall_plan(targets@, old(ids).next_id()),
        final(ids).next_id() == step_id_at(old(ids).next_id(), r@.len() as int),
        plan_ids_from(r@, old(ids).next_id()),
        conditions_refer_back(r@),
{
    let ghost start = ids.next_id();
    let mut steps: Vec<PlanStep> = Vec::new();
    let mut i: usize = 0;
    while i < targets.len()
        invariant
            i <= targets@.len(),
            steps@.map_values(|s: PlanStep| s@) == uninstall_plan(targets@.take(i as int), start),
            steps@.len() <= 2 * i,
            ids.next_id() == step_id_at(start, steps@.len() as int),
            plan_ids_from(steps@.map_values(|s: PlanStep| s@), start),
            conditions_refer_back(steps@.map_values(|s: PlanStep| s@)),
        decreases targets@.len() - i,
    {
        let ghost prev = steps@.map_values(|s: PlanStep| s@);
        let ghost n = prev.len() as int;
        proof {
            assert(targets@.take(i + 1).drop_last() =~= targets@.take(i as int));
            lemma_step_id_next(start, n);
        }
        match &targets[i] {
            ResolvedUninstallTarget::Uninstall { pkg_id, should_deactivate } => {
                if *should_deactivate {
                    let step = PlanStep::new(
                        PlanStepOp::Deactivate(DeactivateOp { pkg_id: pkg_id.clone(), reason: DeactivateReason::RequestedByUser }),
                        ids,
                    );
                    let step_id = step.step_id();
                    let ghost s1 = step@;
                    steps.push(step);
                    proof {
                        lemma_push_step(prev, start, s1);
                        lemma_step_id_next(start, n + 1);
                        assert(steps@.map_values(|s: PlanStep| s@) =~= prev.push(s1));
                    }
                    let mut conditions: Vec<StepCondition> = Vec::new();
                    conditions.push(StepCondition::AfterSuccess(step_id));
                    let step2 = PlanStep::with_conditions(
                        PlanStepOp::Uninstall(UninstallOp { pkg_id: pkg_id.clone(), reason: UninstallReason::RequestedByUser }),
                        conditions,
                        ids,
                    );
                    let ghost s2 = step2@;
                    steps.push(step2);
                    proof {
                        assert(prev.push(s1)[n] == s1);
                        assert(s2.conditions[0] == StepCondition::AfterSuccess(StepId(s1.step_id)));
                        lemma_push_step(prev.push(s1), start, s2);
                        assert(steps@.map_values(|s: PlanStep| s@) =~= prev.push(s1).push(s2));
                        assert(steps@.map_values(|s: PlanStep| s@) =~= uninstall_plan(targets@.take(i + 1), start));
                    }
                } else {
                    let step = PlanStep::new(
                        PlanStepOp::Uninstall(UninstallOp { pkg_id: pkg_id.clone(), reason: UninstallReason::RequestedByUser }),
                        ids,
                    );
                    let ghost s1 = step@;
                    steps.push(step);
                    proof {
                        lemma_push_step(prev, start, s1);
                        assert(steps@.map_values(|s: PlanStep| s@) =~= prev.push(s1));
                        assert(steps@.map_values(|s: PlanStep| s@) =~= uninstall_plan(targets@.take(i + 1), start));
                    }
                }
            },
            ResolvedUninstallTarget::AlreadyUninstalled { pkg_spec } => {
                let step = PlanStep::new(
                    PlanStepOp::Skip(SkipOp { pkg_spec: pkg_spec.clone(), reason: SkipReason::AlreadyUninstalled }),
                    ids,
                );
                let ghost s1 = step@;
                steps.push(step);
                proof {
                    lemma_push_step(prev, start, s1);
                    assert(steps@.map_values(|s: PlanStep| s@) =~= prev.push(s1));
                    assert(steps@.map_values(|s: PlanStep| s@) =~= uninstall_plan(targets@.take(i + 1), start));
                }
            },
        }
        i = i + 1;
    }
    proof {
        assert(targets@.take(targets@.len() as int) =~= targets@);
    }
    ExecutionPlan::new(steps)
}

} // verus!
