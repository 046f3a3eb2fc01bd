//! What a plan is about to do, as lines of a report: one line per step,
//! grouped by what the step does.
use vstd::prelude::*;

use crate::engine::plan::step::{
    activate_reason_text, deactivate_reason_text, install_reason_text, skip_reason_text, uninstall_reason_text,
    ExecutionPlan, OpView, PlanStep, PlanStepOp, PlanStepView,
};
use crate::package::id::package_id_text;
use crate::package::spec::package_spec_text;

verus! {

/// The line of a step: its package or specifier, and the reason in
/// parentheses.
pub open spec fn op_line(op: OpView) -> Seq<char> {
    let (subject, reason) = match op {
        OpView::Install { pkg, reason } => (package_id_text(pkg.id), install_reason_text(reason)),
        OpView::Uninstall { pkg_id, reason } => (package_id_text(pkg_id), uninstall_reason_text(reason)),
        OpView::Activate { pkg_id, reason } => (package_id_text(pkg_id), activate_reason_text(reason)),
        OpView::Deactivate { pkg_id, reason } => (package_id_text(pkg_id), deactivate_reason_text(reason)),
        OpView::Skip { pkg_spec, reason } => (package_spec_text(pkg_spec), skip_reason_text(reason)),
    };
    subject + " ("@ + reason + ")"@
}

/// The group of a step: install, uninstall, activate, deactivate, skip.
pub open spec fn op_kind(op: OpView) -> int {
    match op {
        OpView::Install { .. } => 0,
        OpView::Uninstall { .. } => 1,
        OpView::Activate { .. } => 2,
        OpView::Deactivate { .. } => 3,
        OpView::Skip { .. } => 4,
    }
}

/// The lines of the steps of one group, in plan order.
pub open spec fn report_lines(steps: Seq<PlanStepView>, kind: int) -> Seq<Seq<char>>
    decreases steps.len(),
{
    if steps.len() == 0 {
        Seq::empty()
    } else {
        let rest = report_lines(steps.drop_last(), kind);
        if op_kind(steps.last().op) == kind {
            rest.push(op_line(steps.last().op))
        } else {
            rest
        }
    }
}

pub open spec fn texts(v: Seq<String>) -> Seq<Seq<char>> {
    v.map_values(|s: String| s@)
}

/// The lines of a plan, by group.
#[derive(Debug, Clone, PartialEq, Eq)]
pub struct PlanReport {
    pub install: Vec<String>,
    pub uninstall: Vec<String>,
    pub activate: Vec<String>,
    pub deactivate: Vec<String>,
    pub skip: Vec<String>,
}

fn op_line_of(op: &PlanStepOp) -> (r: String)
    ensures
        r@ == op_line(op@),
{
    let mut line = match op {
        PlanStepOp::Install(op) => op.pkg.id.to_string(),
        PlanStepOp::Uninstall(op) => op.pkg_id.to_string(),
        PlanStepOp::Activate(op) => op.pkg_id.to_string(),
        PlanStepOp::Deactivate(op) => op.pkg_id.to_string(),
        PlanStepOp::Skip(op) => op.pkg_spec.to_string(),
    };
    line.append(" (");
    match op {
        PlanStepOp::Install(op) => line.append(op.reason.message()),
        PlanStepOp::Uninstall(op) => line.append(op.reason.message()),
        PlanStepOp::Activate(op) => line.append(op.reason.message()),
        PlanStepOp::Deactivate(op) => {
            let reason = op.reason.to_string();
            line.append(reason.as_str());
        },
        PlanStepOp::Skip(op) => line.append(op.reason.message()),
    }
    line.append(")");
    line
}

fn push_line(v: &mut Vec<String>, line: String)
    ensures
        texts(final(v)@) == texts(old(v)@).push(line@),
{
    let ghost before = v@;
    v.push(line);
    assert(texts(v@) =~= texts(before).push(line@));
}

/// The lines of each group of the plan's steps.
pub fn report_plan(plan: &ExecutionPlan) -> (r: PlanReport)
    ensures
        texts(r.install@) == report_lines(plan@, 0),
        texts(r.uninstall@) == report_lines(plan@, 1),
        texts(r.activate@) == report_lines(plan@, 2),
        texts(r.deactivate@) == report_lines(plan@, 3),
        texts(r.skip@) == report_lines(plan@, 4),
{
    let steps = plan.steps();
    let mut r = PlanReport { install: vec![], uninstall: vec![], activate: vec![], deactivate: vec![], skip: vec![] };
    assert(texts(r.install@) =~= Seq::<Seq<char>>::empty());
    assert(texts(r.uninstall@) =~= Seq::<Seq<char>>::empty());
    assert(texts(r.activate@) =~= Seq::<Seq<char>>::empty());
    assert(texts(r.deactivate@) =~= Seq::<Seq<char>>::empty());
    assert(texts(r.skip@) =~= Seq::<Seq<char>>::empty());
    let mut i: usize = 0;
    while i < steps.len()
        invariant
            i <= steps@.len(),
            steps@.map_values(|s: PlanStep| s@) == plan@,
            texts(r.install@) == report_lines(plan@.take(i as int), 0),
            texts(r.uninstall@) == report_lines(plan@.take(i as int), 1),
            texts(r.activate@) == report_lines(plan@.take(i as int), 2),
            texts(r.deactivate@) == report_lines(plan@.take(i as int), 3),
            texts(r.skip@) == report_lines(plan@.take(i as int), 4),
        decreases steps@.len() - i,
    {
        let op = steps[i].op();
        let line = op_line_of(op);
        proof {
            assert(plan@[i as int] == steps@[i as int]@);
            assert(plan@.take(i + 1).drop_last() =~= plan@.take(i as int));
            assert(plan@.take(i + 1).last() == plan@[i as int]);
        }
        match op {
            PlanStepOp::Install(_) => push_line(&mut r.install, line),
            PlanStepOp::Uninstall(_) => push_line(&mut r.uninstall, line),
            PlanStepOp::Activate(_) => push_line(&mut r.activate, line),
            PlanStepOp::Deactivate(_) => push_line(&mut r.deactivate, line),
            PlanStepOp::Skip(_) => push_line(&mut r.skip, line),
        }
        i = i + 1;
    }
    proof {
        assert(plan@.take(steps@.len() as int) =~= plan@);
    }
    r
}

/// Every step of a plan is reported once, in exactly one group.
pub proof fn law_report_lists_every_step_once(steps: Seq<PlanStepView>)
    ensures
        report_lines(steps, 0).len() + report_lines(steps, 1).len() + report_lines(steps, 2).len()
            + report_lines(steps, 3).len() + report_lines(steps, 4).len() == steps.len(),
    decreases steps.len(),
{
    if steps.len() > 0 {
        law_report_lists_every_step_once(steps.drop_last());
    }
}

} // verus!
