//! Plan steps: what each step does, why, and what it waits for.
use vstd::prelude::*;

use crate::package::definition::PackageDefinition;
use crate::package::equality::{definition_view, DefinitionView};
use crate::package::id::{package_id_text, PackageId, PackageIdView};
use crate::package::spec::{PackageSpec, PackageSpecView};

verus! {

/// The identifier of a plan step, unique among the steps of a plan.
#[derive(Debug, Clone, Copy, PartialEq, Eq, Hash, Structural)]
pub struct StepId(pub u64);

/// Hands out step identifiers in order.
#[derive(Debug)]
pub struct StepIdGenerator {
    next: u64,
}

/// The identifier handed out `k` places after `start`, wrapping at 2^64.
pub open spec fn step_id_at(start: u64, k: int) -> u64 {
    ((start + k) % 0x1_0000_0000_0000_0000) as u64
}

impl StepIdGenerator {
    pub closed spec fn next_id(&self) -> u64 {
        self.next
    }

    /// A generator whose first identifier is 0.
    pub fn new() -> (r: StepIdGenerator)
        ensures
            r.next_id() == 0,
    {
        StepIdGenerator { next: 0 }
    }
}

impl StepId {
    /// The next identifier of the generator.
    pub fn new(ids: &mut StepIdGenerator) -> (r: StepId)
        ensures
            r.0 == old(ids).next_id(),
            final(ids).next_id() == step_id_at(old(ids).next_id(), 1),
    {
        let id = ids.next;
        ids.next = if ids.next == u64::MAX {
            0
        } else {
            ids.next + 1
        };
        assert(ids.next == step_id_at(id, 1));
        StepId(id)
    }
}

/// Two of the identifiers handed out in a row differ, for fewer than 2^64
/// of them.
pub proof fn lemma_step_ids_distinct(start: u64, a: int, b: int)
    requires
        0 <= a < b < 0x1_0000_0000_0000_0000,
    ensures
        step_id_at(start, a) != step_id_at(start, b),
{
    let m: int = 0x1_0000_0000_0000_0000;
    let x: int = start + a;
    let y: int = start + b;
    if x % m == y % m {
        vstd::arithmetic::div_mod::lemma_fundamental_div_mod(x, m);
        vstd::arithmetic::div_mod::lemma_fundamental_div_mod(y, m);
        assert(false) by (nonlinear_arith)
            requires
                x == m * (x / m) + x % m,
                y == m * (y / m) + y % m,
                x % m == y % m,
                0 < y - x < m,
                m > 0;
    }
}

/// Handing out one more identifier after `k` gives the one at `k + 1`.
pub proof fn lemma_step_id_next(start: u64, k: int)
    requires
        0 <= k,
    ensures
        step_id_at(step_id_at(start, k), 1) == step_id_at(start, k + 1),
{
    let m: int = 0x1_0000_0000_0000_0000;
    let x: int = start + k;
    assert(((x % m) + 1) % m == (x + 1) % m) by {
        vstd::arithmetic::div_mod::lemma_add_mod_noop(x, 1, m);
        vstd::arithmetic::div_mod::lemma_mod_twice(1, m);
    }
}

/// Identifiers handed out one after another by one generator increase, for
/// as long as they do not wrap past the largest `u64`.
pub proof fn law_step_ids_increase(start: u64, j: int, k: int)
    requires
        0 <= j < k,
        start + k < 0x1_0000_0000_0000_0000,
    ensures
        step_id_at(start, j) < step_id_at(start, k),
{
    vstd::arithmetic::div_mod::lemma_small_mod((start + j) as nat, 0x1_0000_0000_0000_0000);
    vstd::arithmetic::div_mod::lemma_small_mod((start + k) as nat, 0x1_0000_0000_0000_0000);
}

/// Step `k` of the plan carries the `k`-th identifier handed out from `start`.
pub open spec fn plan_ids_from(steps: Seq<PlanStepView>, start: u64) -> bool {
    forall|k: int| 0 <= k < steps.len() ==> #[trigger] steps[k].step_id == step_id_at(start, k)
}

/// Every step waits only for steps planned before it.
pub open spec fn conditions_refer_back(steps: Seq<PlanStepView>) -> bool {
    forall|k: int, c: int|
        0 <= k < steps.len() && 0 <= c < steps[k].conditions.len() ==> match #[trigger] steps[k].conditions[c] {
            StepCondition::AfterSuccess(id) => exists|j: int| 0 <= j < k && steps[j].step_id == id.0,
            StepCondition::Never => true,
        }
}

/// The steps of a plan whose identifiers were handed out in order are
/// pairwise distinct.
pub proof fn law_plan_step_ids_unique(steps: Seq<PlanStepView>, start: u64, a: int, b: int)
    requires
        plan_ids_from(steps, start),
        steps.len() <= 0x1_0000_0000_0000_0000,
        0 <= a < steps.len(),
        0 <= b < steps.len(),
        a != b,
    ensures
        steps[a].step_id != steps[b].step_id,
{
    if a < b {
        lemma_step_ids_distinct(start, a, b);
    } else {
        lemma_step_ids_distinct(start, b, a);
    }
}

/// Appending a step that waits on nothing, or only on earlier steps, keeps
/// the plan well ordered.
pub proof fn lemma_push_step(steps: Seq<PlanStepView>, start: u64, step: PlanStepView)
    requires
        plan_ids_from(steps, start),
        conditions_refer_back(steps),
        step.step_id == step_id_at(start, steps.len() as int),
        forall|c: int| 0 <= c < step.conditions.len() ==> match #[trigger] step.conditions[c] {
            StepCondition::AfterSuccess(id) => exists|j: int| 0 <= j < steps.len() && steps[j].step_id == id.0,
            StepCondition::Never => true,
        },
    ensures
        plan_ids_from(steps.push(step), start),
        conditions_refer_back(steps.push(step)),
{
    let t = steps.push(step);
    assert forall|k: int, c: int| 0 <= k < t.len() && 0 <= c < t[k].conditions.len() implies match #[trigger] t[k].conditions[c] {
        StepCondition::AfterSuccess(id) => exists|j: int| 0 <= j < k && t[j].step_id == id.0,
        StepCondition::Never => true,
    } by {
        if k < steps.len() {
            assert(t[k] == steps[k]);
            match steps[k].conditions[c] {
                StepCondition::AfterSuccess(id) => {
                    let j = choose|j: int| 0 <= j < k && steps[j].step_id == id.0;
                    assert(t[j] == steps[j]);
                },
                StepCondition::Never => {},
            }
        } else {
            match step.conditions[c] {
                StepCondition::AfterSuccess(id) => {
                    let j = choose|j: int| 0 <= j < steps.len() && steps[j].step_id == id.0;
                    assert(t[j] == steps[j]);
                },
                StepCondition::Never => {},
            }
        }
    }
}

/// Counting `b` identifiers on from the `a`-th one gives the `(a + b)`-th.
pub proof fn lemma_step_id_offset(start: u64, a: int, b: int)
    requires
        0 <= a,
        0 <= b,
    ensures
        step_id_at(step_id_at(start, a), b) == step_id_at(start, a + b),
{
    let m: int = 0x1_0000_0000_0000_0000;
    let x: int = start + a;
    assert(((x % m) + b) % m == (x + b) % m) by {
        vstd::arithmetic::div_mod::lemma_add_mod_noop(x, b, m);
        vstd::arithmetic::div_mod::lemma_mod_twice(x, m);
        vstd::arithmetic::div_mod::lemma_add_mod_noop(x % m, b, m);
    }
}

/// What a step waits for before it may run.
#[derive(Debug, Clone, Copy, PartialEq, Eq, Structural)]
pub enum StepCondition {
    AfterSuccess(StepId),
    Never,
}

/// How a finished step ended.
#[derive(Debug, Clone, Copy, PartialEq, Eq, Structural)]
pub enum StepResult {
    Success,
    Failure,
}

#[derive(Debug, Clone, Copy, PartialEq, Eq, Structural)]
pub enum InstallReason {
    RequestedByUser,
}

#[derive(Debug, Clone, Copy, PartialEq, Eq, Structural)]
pub enum UninstallReason {
    RequestedByUser,
    RepairIncompleteInstall,
    RepairIncompleteUninstall,
}

#[derive(Debug, Clone, Copy, PartialEq, Eq, Structural)]
pub enum ActivateReason {
    RequestedByUser,
}

#[derive(Debug, PartialEq, Eq)]
pub enum DeactivateReason {
    RequestedByUser,
    ConflictWithActivation { pkg_id: PackageId },
    CleanupIncompleteActivation,
    CleanupIncompleteDeactivation,
    RepairIncompleteActivation,
    RepairIncompleteDeactivation,
}

pub enum DeactivateReasonView {
    RequestedByUser,
    ConflictWithActivation { pkg_id: PackageIdView },
    CleanupIncompleteActivation,
    CleanupIncompleteDeactivation,
    RepairIncompleteActivation,
    RepairIncompleteDeactivation,
}

impl View for DeactivateReason {
    type V = DeactivateReasonView;

    open spec fn view(&self) -> DeactivateReasonView {
        match self {
            DeactivateReason::RequestedByUser => DeactivateReasonView::RequestedByUser,
            DeactivateReason::ConflictWithActivation { pkg_id } => DeactivateReasonView::ConflictWithActivation { pkg_id: pkg_id@ },
            DeactivateReason::CleanupIncompleteActivation => DeactivateReasonView::CleanupIncompleteActivation,
            DeactivateReason::CleanupIncompleteDeactivation => DeactivateReasonView::CleanupIncompleteDeactivation,
            DeactivateReason::RepairIncompleteActivation => DeactivateReasonView::RepairIncompleteActivation,
            DeactivateReason::RepairIncompleteDeactivation => DeactivateReasonView::RepairIncompleteDeactivation,
        }
    }
}

#[derive(Debug, Clone, Copy, PartialEq, Eq, Structural)]
pub enum SkipReason {
    AlreadyInstalled,
    AlreadyUninstalled,
    AlreadyActive,
    AlreadyInactive,
    NotBroken,
    NothingToRepair,
}

pub open spec fn install_reason_text(r: InstallReason) -> Seq<char> {
    match r {
        InstallReason::RequestedByUser => "requested by user"@,
    }
}

pub open spec fn uninstall_reason_text(r: UninstallReason) -> Seq<char> {
    match r {
        UninstallReason::RequestedByUser => "requested by user"@,
        UninstallReason::RepairIncompleteInstall => "repairing incomplete install"@,
        UninstallReason::RepairIncompleteUninstall => "repairing incomplete uninstall"@,
    }
}

pub open spec fn activate_reason_text(r: ActivateReason) -> Seq<char> {
    match r {
        ActivateReason::RequestedByUser => "requested by user"@,
    }
}

pub open spec fn deactivate_reason_text(r: DeactivateReasonView) -> Seq<char> {
    match r {
        DeactivateReasonView::RequestedByUser => "requested by user"@,
        DeactivateReasonView::ConflictWithActivation { pkg_id } => "conflicts with package "@ + package_id_text(
            pkg_id,
        ) + " activation"@,
        DeactivateReasonView::CleanupIncompleteActivation => "cleanup after incomplete activation"@,
        DeactivateReasonView::CleanupIncompleteDeactivation => "cleanup after incomplete deactivation"@,
        DeactivateReasonView::RepairIncompleteActivation => "repairing incomplete activation"@,
        DeactivateReasonView::RepairIncompleteDeactivation => "repairing incomplete deactivation"@,
    }
}

pub open spec fn skip_reason_text(r: SkipReason) -> Seq<char> {
    match r {
        SkipReason::AlreadyInstalled => "already installed"@,
        SkipReason::AlreadyUninstalled => "already uninstalled"@,
        SkipReason::AlreadyActive => "already active"@,
        SkipReason::AlreadyInactive => "already inactive"@,
        SkipReason::NotBroken => "not broken"@,
        SkipReason::NothingToRepair => "nothing to repair"@,
    }
}

impl InstallReason {
    /// How the reason reads in a report.
    pub fn message(&self) -> (r: &'static str)
        ensures
            r@ == install_reason_text(*self),
    {
        match self {
            InstallReason::RequestedByUser => "requested by user",
        }
    }
}

impl ActivateReason {
    /// How the reason reads in a report.
    pub fn message(&self) -> (r: &'static str)
        ensures
            r@ == activate_reason_text(*self),
    {
        match self {
            ActivateReason::RequestedByUser => "requested by user",
        }
    }
}

impl DeactivateReason {
    /// How the reason reads in a report.
    pub fn to_string(&self) -> (r: String)
        ensures
            r@ == deactivate_reason_text(self@),
    {
        match self {
            DeactivateReason::RequestedByUser => "requested by user".to_owned(),
            DeactivateReason::ConflictWithActivation { pkg_id } => {
                let mut s = "conflicts with package ".to_owned();
                let id = pkg_id.to_string();
                s.append(id.as_str());
                s.append(" activation");
                s
            },
            DeactivateReason::CleanupIncompleteActivation => "cleanup after incomplete activation".to_owned(),
            DeactivateReason::CleanupIncompleteDeactivation => "cleanup after incomplete deactivation".to_owned(),
            DeactivateReason::RepairIncompleteActivation => "repairing incomplete activation".to_owned(),
            DeactivateReason::RepairIncompleteDeactivation => "repairing incomplete deactivation".to_owned(),
        }
    }
}

impl UninstallReason {
    /// How the reason reads in a report.
    pub fn message(&self) -> (r: &'static str)
        ensures
            r@ == uninstall_reason_text(*self),
    {
        match self {
            UninstallReason::RequestedByUser => "requested by user",
            UninstallReason::RepairIncompleteInstall => "repairing incomplete install",
            UninstallReason::RepairIncompleteUninstall => "repairing incomplete uninstall",
        }
    }
}

impl SkipReason {
    /// How the reason reads in a report.
    pub fn message(&self) -> (r: &'static str)
        ensures
            r@ == skip_reason_text(*self),
    {
        match self {
            SkipReason::AlreadyInstalled => "already installed",
            SkipReason::AlreadyUninstalled => "already uninstalled",
            SkipReason::AlreadyActive => "already active",
            SkipReason::AlreadyInactive => "already inactive",
            SkipReason::NotBroken => "not broken",
            SkipReason::NothingToRepair => "nothing to repair",
        }
    }
}

#[derive(Debug, PartialEq, Eq)]
pub struct InstallOp {
    pub pkg: PackageDefinition,
    pub reason: InstallReason,
}

#[derive(Debug, PartialEq, Eq)]
pub struct UninstallOp {
    pub pkg_id: PackageId,
    pub reason: UninstallReason,
}

#[derive(Debug, PartialEq, Eq)]
pub struct ActivateOp {
    pub pkg_id: PackageId,
    pub reason: ActivateReason,
}

#[derive(Debug, PartialEq, Eq)]
pub struct DeactivateOp {
    pub pkg_id: PackageId,
    pub reason: DeactivateReason,
}

#[derive(Debug, PartialEq, Eq)]
pub struct SkipOp {
    pub pkg_spec: PackageSpec,
    pub reason: SkipReason,
}

/// What a step does.
#[derive(Debug, PartialEq, Eq)]
pub enum PlanStepOp {
    Install(InstallOp),
    Uninstall(UninstallOp),
    Activate(ActivateOp),
    Deactivate(DeactivateOp),
    Skip(SkipOp),
}

/// The view of a step's operation: the package it acts on and why; an
/// installation carries the whole definition it installs.
pub enum OpView {
    Install { pkg: DefinitionView, reason: InstallReason },
    Uninstall { pkg_id: PackageIdView, reason: UninstallReason },
    Activate { pkg_id: PackageIdView, reason: ActivateReason },
    Deactivate { pkg_id: PackageIdView, reason: DeactivateReasonView },
    Skip { pkg_spec: PackageSpecView, reason: SkipReason },
}

impl View for PlanStepOp {
    type V = OpView;

    open spec fn view(&self) -> OpView {
        match self {
            PlanStepOp::Install(op) => OpView::Install { pkg: definition_view(op.pkg), reason: op.reason },
            PlanStepOp::Uninstall(op) => OpView::Uninstall { pkg_id: op.pkg_id@, reason: op.reason },
            PlanStepOp::Activate(op) => OpView::Activate { pkg_id: op.pkg_id@, reason: op.reason },
            PlanStepOp::Deactivate(op) => OpView::Deactivate { pkg_id: op.pkg_id@, reason: op.reason@ },
            PlanStepOp::Skip(op) => OpView::Skip { pkg_spec: op.pkg_spec@, reason: op.reason },
        }
    }
}

impl PlanStepOp {
    pub fn is_skip(&self) -> (r: bool)
        ensures
            r == (self@ is Skip),
    {
        match self {
            PlanStepOp::Skip(_) => true,
            _ => false,
        }
    }
}

/// The view of a plan step.
pub struct PlanStepView {
    pub step_id: u64,
    pub op: OpView,
    pub conditions: Seq<StepCondition>,
}

/// One step of a plan.
#[derive(Debug, PartialEq, Eq)]
pub struct PlanStep {
    step_id: StepId,
    op: PlanStepOp,
    conditions: Vec<StepCondition>,
}

impl View for PlanStep {
    type V = PlanStepView;

    closed spec fn view(&self) -> PlanStepView {
        PlanStepView { step_id: self.step_id.0, op: self.op@, conditions: self.conditions@ }
    }
}

/// The conditions left after a step finished: a success clears the
/// conditions that wait for it, a failure turns them into `Never`.
pub open spec fn notified_conditions(cs: Seq<StepCondition>, id: u64, result: StepResult) -> Seq<StepCondition>
    decreases cs.len(),
{
    if cs.len() == 0 {
        Seq::empty()
    } else {
        let rest = notified_conditions(cs.drop_last(), id, result);
        if cs.last() == StepCondition::AfterSuccess(StepId(id)) {
            match result {
                StepResult::Success => rest,
                StepResult::Failure => rest.push(StepCondition::Never),
            }
        } else {
            rest.push(cs.last())
        }
    }
}

/// A step that can never run stays so: once a condition is `Never`, no
/// result of any step removes it.
pub proof fn law_blocked_step_stays_blocked(cs: Seq<StepCondition>, id: u64, result: StepResult)
    requires
        cs.contains(StepCondition::Never),
    ensures
        notified_conditions(cs, id, result).contains(StepCondition::Never),
    decreases cs.len(),
{
    let rest = notified_conditions(cs.drop_last(), id, result);
    if cs.last() == StepCondition::Never {
        assert(notified_conditions(cs, id, result) == rest.push(StepCondition::Never));
        assert(rest.push(StepCondition::Never).last() == StepCondition::Never);
    } else {
        let k = choose|k: int| 0 <= k < cs.len() && cs[k] == StepCondition::Never;
        assert(cs.drop_last()[k] == StepCondition::Never);
        law_blocked_step_stays_blocked(cs.drop_last(), id, result);
        let j = choose|j: int| 0 <= j < rest.len() && rest[j] == StepCondition::Never;
        let n = notified_conditions(cs, id, result);
        if n != rest {
            assert(n[j] == rest[j]);
        }
    }
}

/// A step that waits for the success of a step that failed can never run.
pub proof fn law_failed_dependency_blocks(cs: Seq<StepCondition>, id: u64)
    requires
        cs.contains(StepCondition::AfterSuccess(StepId(id))),
    ensures
        notified_conditions(cs, id, StepResult::Failure).contains(StepCondition::Never),
    decreases cs.len(),
{
    let rest = notified_conditions(cs.drop_last(), id, StepResult::Failure);
    let n = notified_conditions(cs, id, StepResult::Failure);
    if cs.last() == StepCondition::AfterSuccess(StepId(id)) {
        assert(n == rest.push(StepCondition::Never));
        assert(n.last() == StepCondition::Never);
    } else {
        let k = choose|k: int| 0 <= k < cs.len() && cs[k] == StepCondition::AfterSuccess(StepId(id));
        assert(cs.drop_last()[k] == StepCondition::AfterSuccess(StepId(id)));
        law_failed_dependency_blocks(cs.drop_last(), id);
        let j = choose|j: int| 0 <= j < rest.len() && rest[j] == StepCondition::Never;
        assert(n[j] == rest[j]);
    }
}

/// A step that waits only for the success of one step may run once that
/// step succeeded.
pub proof fn law_success_of_dependency_unblocks(cs: Seq<StepCondition>, id: u64)
    requires
        forall|k: int| 0 <= k < cs.len() ==> cs[k] == StepCondition::AfterSuccess(StepId(id)),
    ensures
        notified_conditions(cs, id, StepResult::Success).len() == 0,
    decreases cs.len(),
{
    if cs.len() > 0 {
        assert(cs.last() == cs[cs.len() - 1]);
        law_success_of_dependency_unblocks(cs.drop_last(), id);
    }
}

/// The result of a step no condition waits for changes no condition.
pub proof fn law_unrelated_result_changes_nothing(cs: Seq<StepCondition>, id: u64, result: StepResult)
    requires
        !cs.contains(StepCondition::AfterSuccess(StepId(id))),
    ensures
        notified_conditions(cs, id, result) == cs,
    decreases cs.len(),
{
    if cs.len() > 0 {
        assert(cs.last() == cs[cs.len() - 1]);
        assert forall|k: int| 0 <= k < cs.drop_last().len() implies cs.drop_last()[k] != StepCondition::AfterSuccess(
            StepId(id),
        ) by {
            assert(cs.drop_last()[k] == cs[k]);
        }
        law_unrelated_result_changes_nothing(cs.drop_last(), id, result);
        assert(cs.drop_last().push(cs.last()) =~= cs);
    }
}

/// The result of another step leaves a wait for this one in place.
proof fn lemma_other_result_keeps_wait(cs: Seq<StepCondition>, waited: u64, id: u64, result: StepResult)
    requires
        cs.contains(StepCondition::AfterSuccess(StepId(waited))),
        waited != id,
    ensures
        notified_conditions(cs, id, result).contains(StepCondition::AfterSuccess(StepId(waited))),
    decreases cs.len(),
{
    let w = StepCondition::AfterSuccess(StepId(waited));
    let rest = notified_conditions(cs.drop_last(), id, result);
    let n = notified_conditions(cs, id, result);
    if cs.last() == w {
        assert(n == rest.push(w));
        assert(n.last() == w);
    } else {
        let k = choose|k: int| 0 <= k < cs.len() && cs[k] == w;
        assert(cs.drop_last()[k] == w);
        lemma_other_result_keeps_wait(cs.drop_last(), waited, id, result);
        let j = choose|j: int| 0 <= j < rest.len() && rest[j] == w;
        if n != rest {
            assert(n[j] == rest[j]);
        }
    }
}

/// The conditions left after the results of finished steps, one after
/// another, each given by the step's identifier and how it ended.
pub open spec fn notified_all(cs: Seq<StepCondition>, results: Seq<(u64, StepResult)>) -> Seq<StepCondition>
    decreases results.len(),
{
    if results.len() == 0 {
        cs
    } else {
        notified_conditions(notified_all(cs, results.drop_last()), results.last().0, results.last().1)
    }
}

/// Over any run, a wait for a step is either still there, or turned the
/// waiting step into one that can never run, or was met by that step's
/// success.
proof fn lemma_wait_outcome(cs: Seq<StepCondition>, results: Seq<(u64, StepResult)>, waited: u64)
    requires
        cs.contains(StepCondition::AfterSuccess(StepId(waited))),
    ensures
        notified_all(cs, results).contains(StepCondition::AfterSuccess(StepId(waited)))
            || notified_all(cs, results).contains(StepCondition::Never)
            || exists|k: int| 0 <= k < results.len() && results[k] == (waited, StepResult::Success),
    decreases results.len(),
{
    if results.len() > 0 {
        let init = results.drop_last();
        let (id, result) = results.last();
        let prev = notified_all(cs, init);
        lemma_wait_outcome(cs, init, waited);
        if exists|k: int| 0 <= k < init.len() && init[k] == (waited, StepResult::Success) {
            let k = choose|k: int| 0 <= k < init.len() && init[k] == (waited, StepResult::Success);
            assert(results[k] == init[k]);
        } else if prev.contains(StepCondition::Never) {
            law_blocked_step_stays_blocked(prev, id, result);
        } else if id != waited {
            lemma_other_result_keeps_wait(prev, waited, id, result);
        } else if result == StepResult::Failure {
            law_failed_dependency_blocks(prev, id);
        } else {
            assert(results[results.len() - 1] == (waited, StepResult::Success));
        }
    }
}

/// Over a whole run, a step is left with nothing to wait for only if every
/// step it waits for has succeeded: each wait in its conditions is met by a
/// success of that step among the results.
pub proof fn law_step_runs_only_after_its_dependencies_succeed(
    cs: Seq<StepCondition>,
    results: Seq<(u64, StepResult)>,
    waited: u64,
)
    requires
        cs.contains(StepCondition::AfterSuccess(StepId(waited))),
        notified_all(cs, results).len() == 0,
    ensures
        exists|k: int| 0 <= k < results.len() && results[k] == (waited, StepResult::Success),
{
    lemma_wait_outcome(cs, results, waited);
    let n = notified_all(cs, results);
    if n.contains(StepCondition::AfterSuccess(StepId(waited))) || n.contains(StepCondition::Never) {
        assert(false);
    }
}

/// Over a whole run, a step that waits for a step that failed before it
/// ever succeeded can never run: its conditions hold `Never` after that
/// failure and every later result.
pub proof fn law_step_never_runs_after_a_dependency_fails(
    cs: Seq<StepCondition>,
    results: Seq<(u64, StepResult)>,
    waited: u64,
    failed_at: int,
)
    requires
        cs.contains(StepCondition::AfterSuccess(StepId(waited))),
        0 <= failed_at < results.len(),
        results[failed_at] == (waited, StepResult::Failure),
        forall|j: int| 0 <= j < failed_at ==> results[j] != (waited, StepResult::Success),
    ensures
        notified_all(cs, results).contains(StepCondition::Never),
        notified_all(cs, results).len() > 0,
    decreases results.len(),
{
    let init = results.drop_last();
    let (id, result) = results.last();
    let prev = notified_all(cs, init);
    if failed_at < results.len() - 1 {
        assert forall|j: int| 0 <= j < failed_at implies init[j] != (waited, StepResult::Success) by {
            assert(init[j] == results[j]);
        }
        assert(init[failed_at] == results[failed_at]);
        law_step_never_runs_after_a_dependency_fails(cs, init, waited, failed_at);
        law_blocked_step_stays_blocked(prev, id, result);
    } else {
        lemma_wait_outcome(cs, init, waited);
        if exists|k: int| 0 <= k < init.len() && init[k] == (waited, StepResult::Success) {
            let k = choose|k: int| 0 <= k < init.len() && init[k] == (waited, StepResult::Success);
            assert(results[k] == init[k]);
            assert(false);
        } else if prev.contains(StepCondition::Never) {
            law_blocked_step_stays_blocked(prev, id, result);
        } else {
            assert(results.last() == results[failed_at]);
            law_failed_dependency_blocks(prev, waited);
        }
    }
    let n = notified_all(cs, results);
    assert(n.len() > 0) by {
        let j = choose|j: int| 0 <= j < n.len() && n[j] == StepCondition::Never;
    }
}

impl PlanStep {
    /// A step with no condition, under the next identifier.
    pub fn new(op: PlanStepOp, ids: &mut StepIdGenerator) -> (r: PlanStep)
        ensures
            r@.step_id == old(ids).next_id(),
            r@.op == op@,
            r@.conditions == Seq::<StepCondition>::empty(),
            final(ids).next_id() == step_id_at(old(ids).next_id(), 1),
    {
        PlanStep::with_conditions(op, Vec::new(), ids)
    }

    /// A step with the given conditions, under the next identifier.
    pub fn with_conditions(op: PlanStepOp, conditions: Vec<StepCondition>, ids: &mut StepIdGenerator) -> (r: PlanStep)
        ensures
            r@.step_id == old(ids).next_id(),
            r@.op == op@,
            r@.conditions == conditions@,
            final(ids).next_id() == step_id_at(old(ids).next_id(), 1),
    {
        PlanStep { step_id: StepId::new(ids), op, conditions }
    }

    pub fn step_id(&self) -> (r: StepId)
        ensures
            r.0 == self@.step_id,
    {
        self.step_id
    }

    pub fn op(&self) -> (r: &PlanStepOp)
        ensures
            r@ == self@.op,
    {
        &self.op
    }

    pub fn into_op(self) -> (r: PlanStepOp)
        ensures
            r@ == self@.op,
    {
        self.op
    }

    pub fn conditions(&self) -> (r: &Vec<StepCondition>)
        ensures
            r@ == self@.conditions,
    {
        &self.conditions
    }

    /// A step may run once nothing is left to wait for.
    pub fn can_execute(&self) -> (r: bool)
        ensures
            r == (self@.conditions.len() == 0),
    {
        self.conditions.len() == 0
    }

    /// Records that the step `step_id` finished with `result`.
    pub fn notify_result(&mut self, step_id: StepId, result: StepResult)
        ensures
            final(self)@ == (PlanStepView {
                conditions: notified_conditions(old(self)@.conditions, step_id.0, result),
                ..old(self)@
            }),
    {
        let ghost old_cs = self.conditions@;
        let mut kept: Vec<StepCondition> = Vec::new();
        let mut i: usize = 0;
        while i < self.conditions.len()
            invariant
                self.conditions@ == old_cs,
                i <= old_cs.len(),
                kept@ == notified_conditions(old_cs.take(i as int), step_id.0, result),
            decreases old_cs.len() - i,
        {
            let c = self.conditions[i];
            proof {
                assert(old_cs.take(i + 1).drop_last() =~= old_cs.take(i as int));
                assert(old_cs.take(i + 1).last() == c);
            }
            match c {
                StepCondition::AfterSuccess(id) => {
                    if id.0 == step_id.0 {
                        match result {
                            StepResult::Success => {},
                            StepResult::Failure => kept.push(StepCondition::Never),
                        }
                    } else {
                        kept.push(c);
                    }
                },
                StepCondition::Never => kept.push(c),
            }
            i = i + 1;
        }
        proof {
            assert(old_cs.take(old_cs.len() as int) =~= old_cs);
        }
        self.conditions = kept;
    }
}

/// The steps of a plan, in the order they were planned.
#[derive(Debug, PartialEq, Eq)]
pub struct ExecutionPlan {
    steps: Vec<PlanStep>,
}

impl View for ExecutionPlan {
    type V = Seq<PlanStepView>;

    closed spec fn view(&self) -> Seq<PlanStepView> {
        self.steps@.map_values(|s: PlanStep| s@)
    }
}

impl ExecutionPlan {
    pub fn new(steps: Vec<PlanStep>) -> (r: ExecutionPlan)
        ensures
            r@ == steps@.map_values(|s: PlanStep| s@),
    {
        ExecutionPlan { steps }
    }

    pub fn steps(&self) -> (r: &Vec<PlanStep>)
        ensures
            r@.map_values(|s: PlanStep| s@) == self@,
    {
        &self.steps
    }

    pub fn into_steps(self) -> (r: Vec<PlanStep>)
        ensures
            r@.map_values(|s: PlanStep| s@) == self@,
    {
        self.steps
    }

    /// Whether any step does more than skip.
    pub fn has_side_effects(&self) -> (r: bool)
        ensures
            r == exists|i: int| 0 <= i < self@.len() && !(self@[i].op is Skip),
    {
        let mut i: usize = 0;
        while i < self.steps.len()
            invariant
                i <= self@.len(),
                self.steps@.len() == self@.len(),
                forall|j: int| 0 <= j < i ==> self@[j].op is Skip,
            decreases self@.len() - i,
        {
            if !self.steps[i].op.is_skip() {
                assert(!(self@[i as int].op is Skip));
                return true;
            }
            i = i + 1;
        }
        false
    }
}

} // verus!
