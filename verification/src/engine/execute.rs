//! The scheduling of a plan's steps against the database: which steps are
//! ready, the state transition that starts each one, and the transitions
//! that record how it ended.
use vstd::prelude::*;

use super::plan::step::{
    law_step_never_runs_after_a_dependency_fails, law_step_runs_only_after_its_dependencies_succeed, notified_all, notified_conditions, ExecutionPlan, OpView, PlanStep, PlanStepOp, PlanStepView, StepCondition,
    StepId, StepResult,
};
use crate::db::{
    has_id, spec_begin_install, spec_cancel_install, spec_complete_install, spec_remove,
    spec_set_activation, spec_set_installation, entry_of, PackageDatabase, PackageDatabaseError, EntryView,
};
use crate::package::definition::PackageDefinition;
use crate::package::equality::{definition_view, DefinitionView};
use crate::package::file_name::FontEntry;
use crate::package::id::{valid_package_id, PackageId, PackageIdView};
use crate::package::state::{ActivationState, InstallationState};

verus! {

/// What a prepared step carries out.
#[derive(Debug)]
pub enum PreparedOp {
    Install { pkg: PackageDefinition },
    Uninstall { pkg_id: PackageId },
    Activate { pkg_id: PackageId },
    Deactivate { pkg_id: PackageId },
}

/// The view of a prepared operation; an installation carries the whole
/// definition it installs.
pub enum PreparedOpView {
    Install { pkg: DefinitionView },
    Uninstall { pkg_id: PackageIdView },
    Activate { pkg_id: PackageIdView },
    Deactivate { pkg_id: PackageIdView },
}

impl View for PreparedOp {
    type V = PreparedOpView;

    open spec fn view(&self) -> PreparedOpView {
        match self {
            PreparedOp::Install { pkg } => PreparedOpView::Install { pkg: definition_view(*pkg) },
            PreparedOp::Uninstall { pkg_id } => PreparedOpView::Uninstall { pkg_id: pkg_id@ },
            PreparedOp::Activate { pkg_id } => PreparedOpView::Activate { pkg_id: pkg_id@ },
            PreparedOp::Deactivate { pkg_id } => PreparedOpView::Deactivate { pkg_id: pkg_id@ },
        }
    }
}

impl PreparedOpView {
    pub open spec fn pkg_id(self) -> PackageIdView {
        match self {
            PreparedOpView::Install { pkg } => pkg.id,
            PreparedOpView::Uninstall { pkg_id } => pkg_id,
            PreparedOpView::Activate { pkg_id } => pkg_id,
            PreparedOpView::Deactivate { pkg_id } => pkg_id,
        }
    }
}

/// A step whose starting transition has been recorded.
#[derive(Debug)]
pub struct PreparedStep {
    pub step_id: StepId,
    pub op: PreparedOp,
}

pub struct PreparedStepView {
    pub step_id: u64,
    pub op: PreparedOpView,
}

impl View for PreparedStep {
    type V = PreparedStepView;

    open spec fn view(&self) -> PreparedStepView {
        PreparedStepView { step_id: self.step_id.0, op: self.op@ }
    }
}

/// Why a step could not be started.
#[derive(Debug)]
pub enum PrepareError {
    BeginUninstall { pkg_id: PackageId, source: PackageDatabaseError },
    BeginActivate { pkg_id: PackageId, source: PackageDatabaseError },
    BeginDeactivate { pkg_id: PackageId, source: PackageDatabaseError },
}

pub enum PrepareErrorView {
    BeginUninstall { pkg_id: PackageIdView, source: PackageDatabaseError },
    BeginActivate { pkg_id: PackageIdView, source: PackageDatabaseError },
    BeginDeactivate { pkg_id: PackageIdView, source: PackageDatabaseError },
}

impl View for PrepareError {
    type V = PrepareErrorView;

    open spec fn view(&self) -> PrepareErrorView {
        match self {
            PrepareError::BeginUninstall { pkg_id, source } => PrepareErrorView::BeginUninstall { pkg_id: pkg_id@, source: *source },
            PrepareError::BeginActivate { pkg_id, source } => PrepareErrorView::BeginActivate { pkg_id: pkg_id@, source: *source },
            PrepareError::BeginDeactivate { pkg_id, source } => PrepareErrorView::BeginDeactivate { pkg_id: pkg_id@, source: *source },
        }
    }
}

/// The package an operation names has a well-formed ID.
pub open spec fn op_valid(op: OpView) -> bool {
    match op {
        OpView::Install { pkg, .. } => valid_package_id(pkg.id),
        OpView::Uninstall { pkg_id, .. } => valid_package_id(pkg_id),
        OpView::Activate { pkg_id, .. } => valid_package_id(pkg_id),
        OpView::Deactivate { pkg_id, .. } => valid_package_id(pkg_id),
        OpView::Skip { .. } => true,
    }
}

/// What starting an operation gives, and the database it leaves: an install
/// records an incomplete install; an uninstall, an incomplete uninstall of a
/// known package; an activation, an incomplete activation of an installed
/// package; a deactivation, an incomplete deactivation of a known package;
/// a skip starts nothing.
pub open spec fn prepare_outcome(op: OpView, s: Seq<EntryView>) -> (Result<Option<PreparedOpView>, PrepareErrorView>, Seq<EntryView>) {
    match op {
        OpView::Install { pkg, .. } => (Ok(Some(PreparedOpView::Install { pkg })), spec_begin_install(s, pkg.id)),
        OpView::Uninstall { pkg_id, .. } => if has_id(s, pkg_id) {
            (Ok(Some(PreparedOpView::Uninstall { pkg_id })), spec_set_installation(s, pkg_id, InstallationState::IncompleteUninstall))
        } else {
            (Err(PrepareErrorView::BeginUninstall { pkg_id, source: PackageDatabaseError::NotFound }), s)
        },
        OpView::Activate { pkg_id, .. } => if !has_id(s, pkg_id) {
            (Err(PrepareErrorView::BeginActivate { pkg_id, source: PackageDatabaseError::NotFound }), s)
        } else if entry_of(s, pkg_id)->0.installation != InstallationState::Installed {
            (Err(PrepareErrorView::BeginActivate { pkg_id, source: PackageDatabaseError::NotInstalled }), s)
        } else {
            (Ok(Some(PreparedOpView::Activate { pkg_id })), spec_set_activation(s, pkg_id, ActivationState::IncompleteActivation))
        },
        OpView::Deactivate { pkg_id, .. } => if has_id(s, pkg_id) {
            (Ok(Some(PreparedOpView::Deactivate { pkg_id })), spec_set_activation(s, pkg_id, ActivationState::IncompleteDeactivation))
        } else {
            (Err(PrepareErrorView::BeginDeactivate { pkg_id, source: PackageDatabaseError::NotFound }), s)
        },
        OpView::Skip { .. } => (Ok(None), s),
    }
}

impl PreparedStep {
    /// Records the transition that starts an executable step; a skip gives
    /// no prepared step.
    pub fn from_plan_step(db: &mut PackageDatabase, step: PlanStep) -> (r: Result<Option<PreparedStep>, PrepareError>)
        requires
            old(db).wf(),
            step@.conditions.len() == 0,
            op_valid(step@.op),
        ensures
            final(db).wf(),
            final(db)@ == prepare_outcome(step@.op, old(db)@).1,
            match (r, prepare_outcome(step@.op, old(db)@).0) {
                (Ok(Some(p)), Ok(Some(v))) => p@ == (PreparedStepView { step_id: step@.step_id, op: v }),
                (Ok(None), Ok(None)) => true,
                (Err(e), Err(v)) => e@ == v,
                _ => false,
            },
    {
        let step_id = step.step_id();
        match step.into_op() {
            PlanStepOp::Install(op) => {
                db.begin_install(&op.pkg.id);
                Ok(Some(PreparedStep { step_id, op: PreparedOp::Install { pkg: op.pkg } }))
            },
            PlanStepOp::Uninstall(op) => match db.begin_uninstall(&op.pkg_id) {
                Ok(()) => Ok(Some(PreparedStep { step_id, op: PreparedOp::Uninstall { pkg_id: op.pkg_id } })),
                Err(source) => Err(PrepareError::BeginUninstall { pkg_id: op.pkg_id, source }),
            },
            PlanStepOp::Activate(op) => match db.begin_activate(&op.pkg_id) {
                Ok(()) => Ok(Some(PreparedStep { step_id, op: PreparedOp::Activate { pkg_id: op.pkg_id } })),
                Err(source) => Err(PrepareError::BeginActivate { pkg_id: op.pkg_id, source }),
            },
            PlanStepOp::Deactivate(op) => match db.begin_deactivate(&op.pkg_id) {
                Ok(()) => Ok(Some(PreparedStep { step_id, op: PreparedOp::Deactivate { pkg_id: op.pkg_id } })),
                Err(source) => Err(PrepareError::BeginDeactivate { pkg_id: op.pkg_id, source }),
            },
            PlanStepOp::Skip(_) => Ok(None),
        }
    }

    pub fn step_id(&self) -> (r: StepId)
        ensures
            r == self.step_id,
    {
        self.step_id
    }

    /// The package that the step acts on.
    pub fn pkg_id(&self) -> (r: &PackageId)
        ensures
            r@ == self@.op.pkg_id(),
    {
        match &self.op {
            PreparedOp::Install { pkg } => &pkg.id,
            PreparedOp::Uninstall { pkg_id } => pkg_id,
            PreparedOp::Activate { pkg_id } => pkg_id,
            PreparedOp::Deactivate { pkg_id } => pkg_id,
        }
    }
}

/// The database after a step succeeded: an install is recorded installed
/// with its fonts, an uninstall drops the entry, an activation is recorded
/// active, a deactivation inactive.
pub open spec fn completed_db(op: PreparedOpView, s: Seq<EntryView>, fonts: Seq<Seq<char>>) -> Seq<EntryView> {
    match op {
        PreparedOpView::Install { pkg } => spec_complete_install(s, pkg.id, fonts),
        PreparedOpView::Uninstall { pkg_id } => spec_remove(s, pkg_id),
        PreparedOpView::Activate { pkg_id } => spec_set_activation(s, pkg_id, ActivationState::Active),
        PreparedOpView::Deactivate { pkg_id } => spec_set_activation(s, pkg_id, ActivationState::Inactive),
    }
}

/// The database after a step failed: an install or an activation is rolled
/// back, or left for a repair when cleanup is required; an uninstall or a
/// deactivation stays incomplete.
pub open spec fn failed_db(op: PreparedOpView, s: Seq<EntryView>, cleanup_required: bool) -> Seq<EntryView> {
    match op {
        PreparedOpView::Install { pkg } => spec_cancel_install(s, pkg.id, cleanup_required),
        PreparedOpView::Activate { pkg_id } => spec_set_activation(
            s,
            pkg_id,
            if cleanup_required { ActivationState::IncompleteDeactivation } else { ActivationState::Inactive },
        ),
        _ => s,
    }
}

impl PreparedStep {
    /// Records that the step succeeded; `fonts` are the fonts an install
    /// placed, and are not read for other steps.
    pub fn on_complete(&self, db: &mut PackageDatabase, fonts: Vec<FontEntry>)
        requires
            old(db).wf(),
            has_id(old(db)@, self@.op.pkg_id()),
        ensures
            final(db).wf(),
            final(db)@ == completed_db(self@.op, old(db)@, fonts@.map_values(|f: FontEntry| f@)),
    {
        match &self.op {
            PreparedOp::Install { pkg } => db.complete_install(&pkg.id, fonts),
            PreparedOp::Uninstall { pkg_id } => db.complete_uninstall(pkg_id),
            PreparedOp::Activate { pkg_id } => db.complete_activate(pkg_id),
            PreparedOp::Deactivate { pkg_id } => db.complete_deactivate(pkg_id),
        }
    }

    /// Records that the step failed.
    pub fn on_failure(&self, db: &mut PackageDatabase, cleanup_required: bool)
        requires
            old(db).wf(),
            has_id(old(db)@, self@.op.pkg_id()),
        ensures
            final(db).wf(),
            final(db)@ == failed_db(self@.op, old(db)@, cleanup_required),
    {
        match &self.op {
            PreparedOp::Install { pkg } => db.cancel_install(&pkg.id, cleanup_required),
            PreparedOp::Activate { pkg_id } => db.cancel_activate(pkg_id, cleanup_required),
            _ => {},
        }
    }
}

/// Where a pass over the pending steps stands: the steps kept waiting, the
/// steps prepared, the database, the error that stopped the pass and the
/// steps it left unvisited.
pub struct PrepareFold {
    pub kept: Seq<PlanStepView>,
    pub ready: Seq<PreparedStepView>,
    pub db: Seq<EntryView>,
    pub error: Option<PrepareErrorView>,
    pub rest: Seq<PlanStepView>,
}

/// A pass over `steps` in order: a step still waiting is kept; an
/// executable one is started, and becomes ready unless it is a skip; the
/// first error stops the pass.
pub open spec fn prepare_fold(steps: Seq<PlanStepView>, s: Seq<EntryView>) -> PrepareFold
    decreases steps.len(),
{
    if steps.len() == 0 {
        PrepareFold { kept: Seq::empty(), ready: Seq::empty(), db: s, error: None, rest: Seq::empty() }
    } else {
        let f = prepare_fold(steps.drop_last(), s);
        let step = steps.last();
        if f.error is Some {
            PrepareFold { rest: f.rest.push(step), ..f }
        } else if step.conditions.len() > 0 {
            PrepareFold { kept: f.kept.push(step), ..f }
        } else {
            let (res, db) = prepare_outcome(step.op, f.db);
            match res {
                Ok(Some(op)) => PrepareFold { ready: f.ready.push(PreparedStepView { step_id: step.step_id, op }), db, ..f },
                Ok(None) => PrepareFold { db, ..f },
                Err(e) => PrepareFold { error: Some(e), db, ..f },
            }
        }
    }
}

/// Some step of `steps` with the ID `id` waits for nothing.
pub open spec fn unblocked_step_with_id(steps: Seq<PlanStepView>, id: u64) -> bool {
    exists|k: int| 0 <= k < steps.len() && (#[trigger] steps[k]).step_id == id && steps[k].conditions.len() == 0
}

/// A pass starts only steps that wait for nothing: each step it makes ready
/// is a step of the pass with no condition left, under the same ID.
pub proof fn law_only_unblocked_steps_start(steps: Seq<PlanStepView>, s: Seq<EntryView>)
    ensures
        forall|r: int|
            0 <= r < prepare_fold(steps, s).ready.len() ==> unblocked_step_with_id(
                steps,
                (#[trigger] prepare_fold(steps, s).ready[r]).step_id,
            ),
    decreases steps.len(),
{
    if steps.len() > 0 {
        let init = steps.drop_last();
        law_only_unblocked_steps_start(init, s);
        let f = prepare_fold(init, s);
        let g = prepare_fold(steps, s);
        assert forall|r: int| 0 <= r < g.ready.len() implies unblocked_step_with_id(steps, (#[trigger] g.ready[r]).step_id) by {
            if r < f.ready.len() {
                assert(g.ready[r] == f.ready[r]);
                assert(unblocked_step_with_id(init, f.ready[r].step_id));
                let k = choose|k: int|
                    0 <= k < init.len() && (#[trigger] init[k]).step_id == f.ready[r].step_id && init[k].conditions.len()
                        == 0;
                assert(steps[k] == init[k]);
            } else {
                assert(steps[steps.len() - 1] == steps.last());
            }
        }
    }
}

/// The view of an execution: the steps waiting, and the steps started and
/// waiting to run.
pub struct ExecutionStateView {
    pub pending: Seq<PlanStepView>,
    pub ready: Seq<PreparedStepView>,
}

/// The steps of a plan on their way through execution.
#[derive(Debug)]
pub struct ExecutionState {
    ready: Vec<PreparedStep>,
    pending: Vec<PlanStep>,
}

impl View for ExecutionState {
    type V = ExecutionStateView;

    closed spec fn view(&self) -> ExecutionStateView {
        ExecutionStateView {
            pending: self.pending@.map_values(|s: PlanStep| s@),
            ready: self.ready@.map_values(|s: PreparedStep| s@),
        }
    }
}

impl ExecutionState {
    /// All the plan's steps pending, none ready.
    pub fn new(plan: ExecutionPlan) -> (r: ExecutionState)
        ensures
            r@.pending == plan@,
            r@.ready == Seq::<PreparedStepView>::empty(),
    {
        let r = ExecutionState { ready: Vec::new(), pending: plan.into_steps() };
        assert(r@.ready =~= Seq::<PreparedStepView>::empty());
        r
    }

    pub fn pending_len(&self) -> (r: usize)
        ensures
            r == self@.pending.len(),
    {
        self.pending.len()
    }

    pub fn ready_len(&self) -> (r: usize)
        ensures
            r == self@.ready.len(),
    {
        self.ready.len()
    }

    /// Starts every pending step that waits for nothing, in order, and
    /// returns how many became ready; the first step that cannot be started
    /// stops the pass with its error.
    pub fn prepare_ready_steps(&mut self, db: &mut PackageDatabase) -> (r: Result<usize, PrepareError>)
        requires
            old(db).wf(),
            forall|k: int| 0 <= k < old(self)@.pending.len() ==> op_valid(#[trigger] old(self)@.pending[k].op),
        ensures
            final(db).wf(),
            ({
                let f = prepare_fold(old(self)@.pending, old(db)@);
                &&& final(db)@ == f.db
                &&& final(self)@.ready == old(self)@.ready + f.ready
                &&& match r {
                    Ok(n) => f.error is None && n == f.ready.len() && final(self)@.pending == f.kept,
                    Err(e) => f.error == Some(e@) && final(self)@.pending == f.rest + f.kept,
                }
            }),
    {
        let ghost orig = self@.pending;
        let ghost old_ready = self@.ready;
        let ghost s0 = db@;
        let count = self.pending.len();
        let mut prepared: usize = 0;
        let mut i: usize = 0;
        while i < count
            invariant
                count == orig.len(),
                orig == old(self)@.pending,
                s0 == old(db)@,
                old_ready == old(self)@.ready,
                i <= count,
                db.wf(),
                forall|k: int| 0 <= k < orig.len() ==> op_valid(#[trigger] orig[k].op),
                ({
                    let f = prepare_fold(orig.take(i as int), s0);
                    &&& f.error is None
                    &&& f.rest == Seq::<PlanStepView>::empty()
                    &&& db@ == f.db
                    &&& self@.ready == old_ready + f.ready
                    &&& self@.pending == orig.skip(i as int) + f.kept
                    &&& prepared == f.ready.len()
                }),
                prepared <= i,
            decreases count - i,
        {
            let ghost f = prepare_fold(orig.take(i as int), s0);
            proof {
                assert(orig.take(i + 1).drop_last() =~= orig.take(i as int));
                assert(orig.take(i + 1).last() == orig[i as int]);
                assert(self@.pending[0] == orig[i as int]);
            }
            let ghost pv = self.pending@;
            assert(pv.map_values(|s: PlanStep| s@).len() == pv.len());
            assert(pv.len() > 0);
            let step = self.pending.remove(0);
            proof {
                assert(self.pending@ =~= pv.subrange(1, pv.len() as int));
                assert(self@.pending =~= pv.map_values(|s: PlanStep| s@).drop_first());
                assert(self@.pending =~= orig.skip(i + 1) + f.kept);
            }
            if !step.can_execute() {
                let ghost sv = step@;
                let ghost before = self@.pending;
                self.pending.push(step);
                proof {
                    assert(self@.pending =~= before.push(sv));
                    assert(self@.pending =~= orig.skip(i + 1) + f.kept.push(sv));
                }
            } else {
                let ghost sv = step@;
                match PreparedStep::from_plan_step(db, step) {
                    Ok(Some(p)) => {
                        let ghost pw = p@;
                        let ghost rb = self@.ready;
                        self.ready.push(p);
                        proof {
                            assert(self@.ready =~= rb.push(pw));
                            assert(self@.ready =~= old_ready + f.ready.push(pw));
                        }
                        prepared = prepared + 1;
                    },
                    Ok(None) => {},
                    Err(e) => {
                        proof {
                            let g = prepare_fold(orig.take(i + 1), s0);
                            assert(g.error == Some(e@));
                            assert(g.rest == f.rest);
                            assert(g.kept == f.kept);
                            assert(g.ready == f.ready);
                            assert(g.db == db@);
                            let h = prepare_fold(orig, s0);
                            lemma_prepare_fold_stops(orig, s0, i + 1);
                            assert(h.rest =~= orig.skip(i + 1));
                            assert(h.kept == f.kept);
                            assert(h.ready == f.ready);
                            assert(h.db == db@);
                            assert(h.error == Some(e@));
                            assert(self@.pending == h.rest + h.kept);
                            assert(self@.ready == old_ready + h.ready);
                            assert(orig == old(self)@.pending);
                            assert(s0 == old(db)@);
                            assert(old_ready == old(self)@.ready);
                        }
                        return Err(e);
                    },
                }
            }
            i = i + 1;
        }
        proof {
            assert(orig.take(count as int) =~= orig);
            assert(orig.skip(count as int) =~= Seq::<PlanStepView>::empty());
            assert(self@.pending =~= prepare_fold(orig, s0).kept);
        }
        Ok(prepared)
    }

    /// Takes the first ready step.
    pub fn pop_ready(&mut self) -> (r: Option<PreparedStep>)
        ensures
            old(self)@.ready.len() == 0 ==> r is None && final(self)@ == old(self)@,
            old(self)@.ready.len() > 0 ==> (r matches Some(p) && p@ == old(self)@.ready[0]
                && final(self)@.ready == old(self)@.ready.drop_first()
                && final(self)@.pending == old(self)@.pending),
    {
        if self.ready.len() == 0 {
            None
        } else {
            let ghost rv = self.ready@;
            let p = self.ready.remove(0);
            proof {
                assert(self.ready@.map_values(|s: PreparedStep| s@) =~= rv.map_values(|s: PreparedStep| s@).drop_first());
            }
            Some(p)
        }
    }

    /// Tells every pending step that the step `step_id` finished.
    pub fn notify_result(&mut self, step_id: StepId, result: StepResult)
        ensures
            final(self)@.ready == old(self)@.ready,
            final(self)@.pending.len() == old(self)@.pending.len(),
            forall|k: int| 0 <= k < old(self)@.pending.len() ==> (#[trigger] final(self)@.pending[k]) == (PlanStepView {
                conditions: notified_conditions(old(self)@.pending[k].conditions, step_id.0, result),
                ..old(self)@.pending[k]
            }),
    {
        let ghost old_pending = self@.pending;
        let n = self.pending.len();
        let mut rest: Vec<PlanStep> = Vec::new();
        std::mem::swap(&mut rest, &mut self.pending);
        let mut done: Vec<PlanStep> = Vec::new();
        let mut i: usize = 0;
        while i < n
            invariant
                n == old_pending.len(),
                i <= n,
                rest@.map_values(|s: PlanStep| s@) == old_pending.skip(i as int),
                done@.len() == i,
                forall|k: int| 0 <= k < i ==> (#[trigger] done@[k])@ == (PlanStepView {
                    conditions: notified_conditions(old_pending[k].conditions, step_id.0, result),
                    ..old_pending[k]
                }),
            decreases n - i,
        {
            let ghost rv = rest@;
            assert(rv.map_values(|s: PlanStep| s@).len() == rv.len());
            assert(rv.len() > 0);
            let mut step = rest.remove(0);
            proof {
                assert(rv.map_values(|s: PlanStep| s@)[0] == old_pending[i as int]);
                assert(rest@ =~= rv.subrange(1, rv.len() as int));
                assert(rest@.map_values(|s: PlanStep| s@) =~= rv.map_values(|s: PlanStep| s@).drop_first());
                assert(rest@.map_values(|s: PlanStep| s@) =~= old_pending.skip(i + 1));
            }
            step.notify_result(step_id, result);
            done.push(step);
            i = i + 1;
        }
        self.pending = done;
        proof {
            assert forall|k: int| 0 <= k < old_pending.len() implies (#[trigger] self@.pending[k]) == (PlanStepView {
                conditions: notified_conditions(old_pending[k].conditions, step_id.0, result),
                ..old_pending[k]
            }) by {
                assert(self@.pending[k] == done@[k]@);
            }
        }
    }
}

/// Once a pass has stopped at an error, the later steps are left unvisited.
proof fn lemma_prepare_fold_stops(steps: Seq<PlanStepView>, s: Seq<EntryView>, n: int)
    requires
        0 <= n <= steps.len(),
        prepare_fold(steps.take(n), s).error is Some,
    ensures
        prepare_fold(steps, s).error == prepare_fold(steps.take(n), s).error,
        prepare_fold(steps, s).kept == prepare_fold(steps.take(n), s).kept,
        prepare_fold(steps, s).ready == prepare_fold(steps.take(n), s).ready,
        prepare_fold(steps, s).db == prepare_fold(steps.take(n), s).db,
        prepare_fold(steps, s).rest == prepare_fold(steps.take(n), s).rest + steps.skip(n),
    decreases steps.len() - n,
{
    if n < steps.len() {
        assert(steps.take(n + 1).drop_last() =~= steps.take(n));
        assert(steps.take(n + 1).last() == steps[n]);
        lemma_prepare_fold_stops(steps, s, n + 1);
        assert(prepare_fold(steps.take(n + 1), s).rest + steps.skip(n + 1) =~= prepare_fold(steps.take(n), s).rest + steps.skip(n));
    } else {
        assert(steps.take(n) =~= steps);
        assert(steps.skip(n) =~= Seq::<PlanStepView>::empty());
        assert(prepare_fold(steps, s).rest + steps.skip(n) =~= prepare_fold(steps, s).rest);
    }
}

/// How the run of a step ended.
#[derive(Debug)]
pub enum StepOutcome {
    /// It went through; an install reports the fonts it placed.
    Succeeded { fonts: Vec<FontEntry> },
    /// It failed; `cleanup_required` says whether it may have left state
    /// behind.
    Failed { cleanup_required: bool },
}

impl ExecutionState {
    /// Records how a ready step ended: its completion or its rollback in the
    /// database, the result handed to the pending steps, and the start of
    /// the steps that this made executable.
    pub fn finish_step(&mut self, db: &mut PackageDatabase, step: &PreparedStep, outcome: StepOutcome) -> (r: (StepResult, Result<usize, PrepareError>))
        requires
            old(db).wf(),
            has_id(old(db)@, step@.op.pkg_id()),
            forall|k: int| 0 <= k < old(self)@.pending.len() ==> op_valid(#[trigger] old(self)@.pending[k].op),
        ensures
            final(db).wf(),
            r.0 == (match outcome {
                StepOutcome::Succeeded { .. } => StepResult::Success,
                StepOutcome::Failed { .. } => StepResult::Failure,
            }),
            ({
                let db1 = match outcome {
                    StepOutcome::Succeeded { fonts } => completed_db(step@.op, old(db)@, fonts@.map_values(|f: FontEntry| f@)),
                    StepOutcome::Failed { cleanup_required } => failed_db(step@.op, old(db)@, cleanup_required),
                };
                let pending1 = Seq::new(
                    old(self)@.pending.len(),
                    |k: int| PlanStepView {
                        conditions: notified_conditions(old(self)@.pending[k].conditions, step@.step_id, r.0),
                        ..old(self)@.pending[k]
                    },
                );
                let f = prepare_fold(pending1, db1);
                &&& final(db)@ == f.db
                &&& final(self)@.ready == old(self)@.ready + f.ready
                &&& match r.1 {
                    Ok(n) => f.error is None && n == f.ready.len() && final(self)@.pending == f.kept,
                    Err(e) => f.error == Some(e@) && final(self)@.pending == f.rest + f.kept,
                }
            }),
            finish_transition(
                old(self)@.pending,
                step@.step_id,
                r.0,
                final(self)@.pending,
                final(self)@.ready.skip(old(self)@.ready.len() as int),
            ),
    {
        let result = match outcome {
            StepOutcome::Succeeded { fonts } => {
                step.on_complete(db, fonts);
                StepResult::Success
            },
            StepOutcome::Failed { cleanup_required } => {
                step.on_failure(db, cleanup_required);
                StepResult::Failure
            },
        };
        let ghost before = self@.pending;
        self.notify_result(step.step_id(), result);
        proof {
            let pending1 = Seq::new(
                before.len(),
                |k: int| PlanStepView {
                    conditions: notified_conditions(before[k].conditions, step@.step_id, result),
                    ..before[k]
                },
            );
            assert(self@.pending =~= pending1);
            assert forall|k: int| 0 <= k < self@.pending.len() implies op_valid(#[trigger] self@.pending[k].op) by {
                assert(self@.pending[k].op == before[k].op);
            }
        }
        let ghost db1 = db@;
        let ghost ready_before = self@.ready;
        let prepared = self.prepare_ready_steps(db);
        proof {
            let pending1 = Seq::new(
                before.len(),
                |k: int| PlanStepView {
                    conditions: notified_conditions(before[k].conditions, step@.step_id, result),
                    ..before[k]
                },
            );
            let f = prepare_fold(pending1, db1);
            assert(Seq::new(before.len(), |k: int| notified_step(before[k], step@.step_id, result)) =~= pending1);
            assert(self@.ready.skip(ready_before.len() as int) =~= f.ready);
            lemma_finish_transition(before, step@.step_id, result, db1, self@.pending, f.ready);
        }
        (result, prepared)
    }
}

/// A pass keeps, or leaves unvisited, only steps it was given, and every
/// step it was given that still waits for something.
proof fn lemma_prepare_fold_keeps_waiting_steps(steps: Seq<PlanStepView>, s: Seq<EntryView>)
    ensures
        forall|v: PlanStepView| #[trigger] prepare_fold(steps, s).kept.contains(v) ==> steps.contains(v),
        forall|v: PlanStepView| #[trigger] prepare_fold(steps, s).rest.contains(v) ==> steps.contains(v),
        forall|p: int|
            0 <= p < steps.len() && (#[trigger] steps[p]).conditions.len() > 0 ==> prepare_fold(steps, s).kept.contains(
                steps[p],
            ) || prepare_fold(steps, s).rest.contains(steps[p]),
        prepare_fold(steps, s).error is None ==> prepare_fold(steps, s).rest.len() == 0,
    decreases steps.len(),
{
    if steps.len() > 0 {
        let init = steps.drop_last();
        let last = steps.last();
        lemma_prepare_fold_keeps_waiting_steps(init, s);
        let f = prepare_fold(init, s);
        let g = prepare_fold(steps, s);
        assert forall|v: PlanStepView| g.kept.contains(v) implies steps.contains(v) by {
            let q = choose|q: int| 0 <= q < g.kept.len() && g.kept[q] == v;
            if q < f.kept.len() {
                if g.kept != f.kept {
                    assert(g.kept[q] == f.kept[q]);
                }
                assert(f.kept.contains(v));
                let p = choose|p: int| 0 <= p < init.len() && init[p] == v;
                assert(steps[p] == v);
            } else {
                assert(steps[steps.len() - 1] == v);
            }
        }
        assert forall|v: PlanStepView| g.rest.contains(v) implies steps.contains(v) by {
            let q = choose|q: int| 0 <= q < g.rest.len() && g.rest[q] == v;
            if q < f.rest.len() {
                if g.rest != f.rest {
                    assert(g.rest[q] == f.rest[q]);
                }
                assert(f.rest.contains(v));
                let p = choose|p: int| 0 <= p < init.len() && init[p] == v;
                assert(steps[p] == v);
            } else {
                assert(steps[steps.len() - 1] == v);
            }
        }
        assert forall|p: int| 0 <= p < steps.len() && (#[trigger] steps[p]).conditions.len() > 0 implies g.kept.contains(
            steps[p],
        ) || g.rest.contains(steps[p]) by {
            if p < init.len() {
                assert(init[p] == steps[p]);
                if f.kept.contains(steps[p]) {
                    let q = choose|q: int| 0 <= q < f.kept.len() && f.kept[q] == steps[p];
                    if g.kept != f.kept {
                        assert(g.kept[q] == f.kept[q]);
                    }
                } else {
                    let q = choose|q: int| 0 <= q < f.rest.len() && f.rest[q] == steps[p];
                    if g.rest != f.rest {
                        assert(g.rest[q] == f.rest[q]);
                    }
                }
            } else {
                assert(steps[p] == last);
                if f.error is Some {
                    assert(g.rest[g.rest.len() - 1] == last);
                } else {
                    assert(g.kept[g.kept.len() - 1] == last);
                }
            }
        }
    }
}

/// A pending step as it is after the step `id` ended with `result`.
pub open spec fn notified_step(p: PlanStepView, id: u64, result: StepResult) -> PlanStepView {
    PlanStepView { conditions: notified_conditions(p.conditions, id, result), ..p }
}

/// What `finish_step` does to the steps of an execution when the step `id`
/// ends with `result`: each step still pending afterwards is a step pending
/// before, told of the result; each step it starts was pending before and
/// waits for nothing once told; and each step pending before that still
/// waits for something once told stays pending.
pub open spec fn finish_transition(
    before: Seq<PlanStepView>,
    id: u64,
    result: StepResult,
    after: Seq<PlanStepView>,
    started: Seq<PreparedStepView>,
) -> bool {
    &&& forall|v: PlanStepView|
        #[trigger] after.contains(v) ==> exists|p: int| 0 <= p < before.len() && v == notified_step(before[p], id, result)
    &&& forall|q: int|
        0 <= q < started.len() ==> exists|p: int|
            0 <= p < before.len() && before[p].step_id == (#[trigger] started[q]).step_id && notified_conditions(
                before[p].conditions,
                id,
                result,
            ).len() == 0
    &&& forall|p: int|
        0 <= p < before.len() && notified_conditions((#[trigger] before[p]).conditions, id, result).len() > 0
            ==> after.contains(notified_step(before[p], id, result))
}

proof fn lemma_finish_transition(
    before: Seq<PlanStepView>,
    id: u64,
    result: StepResult,
    s: Seq<EntryView>,
    after: Seq<PlanStepView>,
    started: Seq<PreparedStepView>,
)
    requires
        ({
            let f = prepare_fold(Seq::new(before.len(), |k: int| notified_step(before[k], id, result)), s);
            &&& started == f.ready
            &&& f.error is None ==> after == f.kept
            &&& f.error is Some ==> after == f.rest + f.kept
        }),
    ensures
        finish_transition(before, id, result, after, started),
{
    let pending1 = Seq::new(before.len(), |k: int| notified_step(before[k], id, result));
    let f = prepare_fold(pending1, s);
    lemma_prepare_fold_keeps_waiting_steps(pending1, s);
    law_only_unblocked_steps_start(pending1, s);
    assert forall|v: PlanStepView| #[trigger] after.contains(v) implies exists|p: int|
        0 <= p < before.len() && v == notified_step(before[p], id, result) by {
        let q = choose|q: int| 0 <= q < after.len() && after[q] == v;
        if f.error is None {
            assert(f.kept.contains(v));
        } else if q < f.rest.len() {
            assert(after[q] == f.rest[q]);
            assert(f.rest.contains(v));
        } else {
            assert(after[q] == f.kept[q - f.rest.len()]);
            assert(f.kept.contains(v));
        }
        let p = choose|p: int| 0 <= p < pending1.len() && pending1[p] == v;
        assert(pending1[p] == notified_step(before[p], id, result));
    }
    assert forall|q: int| 0 <= q < started.len() implies exists|p: int|
        0 <= p < before.len() && before[p].step_id == (#[trigger] started[q]).step_id && notified_conditions(
            before[p].conditions,
            id,
            result,
        ).len() == 0 by {
        assert(unblocked_step_with_id(pending1, f.ready[q].step_id));
        let p = choose|p: int|
            0 <= p < pending1.len() && (#[trigger] pending1[p]).step_id == f.ready[q].step_id && pending1[p].conditions.len()
                == 0;
        assert(pending1[p] == notified_step(before[p], id, result));
    }
    assert forall|p: int|
        0 <= p < before.len() && notified_conditions((#[trigger] before[p]).conditions, id, result).len() > 0
            implies after.contains(notified_step(before[p], id, result)) by {
        let v = notified_step(before[p], id, result);
        assert(pending1[p] == v);
        if f.kept.contains(v) {
            let q = choose|q: int| 0 <= q < f.kept.len() && f.kept[q] == v;
            if f.error is None {
                assert(after[q] == v);
            } else {
                assert(after[f.rest.len() + q] == v);
            }
        } else {
            let q = choose|q: int| 0 <= q < f.rest.len() && f.rest[q] == v;
            assert(after[q] == v);
        }
    }
}


/// A run of an execution: `pendings[i]` are the pending steps before the
/// `i`-th call of `finish_step`, `results[i]` the identifier of the step it
/// finished and how that step ended, `started[i]` the steps it started, and
/// `pendings[i + 1]` the pending steps after it.
pub open spec fn execution_run(
    pendings: Seq<Seq<PlanStepView>>,
    results: Seq<(u64, StepResult)>,
    started: Seq<Seq<PreparedStepView>>,
) -> bool {
    &&& pendings.len() == results.len() + 1
    &&& started.len() == results.len()
    &&& forall|i: int|
        0 <= i < results.len() ==> finish_transition(pendings[i], (#[trigger] results[i]).0, results[i].1, pendings[i + 1], started[i])
}

/// Telling conditions of the first `i + 1` results is telling them of the
/// first `i`, then of the next one.
proof fn lemma_notified_all_take(cs: Seq<StepCondition>, results: Seq<(u64, StepResult)>, i: int)
    requires
        0 <= i < results.len(),
    ensures
        notified_all(cs, results.take(i + 1)) == notified_conditions(
            notified_all(cs, results.take(i)),
            results[i].0,
            results[i].1,
        ),
{
    assert(results.take(i + 1).drop_last() =~= results.take(i));
    assert(results.take(i + 1).last() == results[i]);
}

/// Every step pending during a run is a step pending at its start, told of
/// the results so far.
proof fn lemma_run_pending_from_start(
    pendings: Seq<Seq<PlanStepView>>,
    results: Seq<(u64, StepResult)>,
    started: Seq<Seq<PreparedStepView>>,
    i: int,
    v: PlanStepView,
)
    requires
        execution_run(pendings, results, started),
        0 <= i < pendings.len(),
        pendings[i].contains(v),
    ensures
        exists|p: int|
            0 <= p < pendings[0].len() && v.step_id == pendings[0][p].step_id && v.conditions == notified_all(
                pendings[0][p].conditions,
                results.take(i),
            ),
    decreases i,
{
    if i == 0 {
        let p = choose|p: int| 0 <= p < pendings[0].len() && pendings[0][p] == v;
        assert(results.take(0) =~= Seq::<(u64, StepResult)>::empty());
    } else {
        let k = i - 1;
        assert(finish_transition(pendings[k], results[k].0, results[k].1, pendings[k + 1], started[k]));
        let p = choose|p: int| 0 <= p < pendings[k].len() && v == notified_step(pendings[k][p], results[k].0, results[k].1);
        let u = pendings[k][p];
        lemma_run_pending_from_start(pendings, results, started, k, u);
        let p0 = choose|p0: int|
            0 <= p0 < pendings[0].len() && u.step_id == pendings[0][p0].step_id && u.conditions == notified_all(
                pendings[0][p0].conditions,
                results.take(k),
            );
        lemma_notified_all_take(pendings[0][p0].conditions, results, k);
    }
}

/// A step started during a run was, at its start, a pending step that the
/// results so far left waiting for nothing.
proof fn lemma_run_started_from_start(
    pendings: Seq<Seq<PlanStepView>>,
    results: Seq<(u64, StepResult)>,
    started: Seq<Seq<PreparedStepView>>,
    k: int,
    q: int,
) -> (p0: int)
    requires
        execution_run(pendings, results, started),
        0 <= k < results.len(),
        0 <= q < started[k].len(),
    ensures
        0 <= p0 < pendings[0].len(),
        pendings[0][p0].step_id == started[k][q].step_id,
        notified_all(pendings[0][p0].conditions, results.take(k + 1)).len() == 0,
{
    assert(finish_transition(pendings[k], results[k].0, results[k].1, pendings[k + 1], started[k]));
    let p = choose|p: int|
        0 <= p < pendings[k].len() && pendings[k][p].step_id == started[k][q].step_id && notified_conditions(
            pendings[k][p].conditions,
            results[k].0,
            results[k].1,
        ).len() == 0;
    let u = pendings[k][p];
    assert(pendings[k][p] == u);
    lemma_run_pending_from_start(pendings, results, started, k, u);
    let p0 = choose|p0: int|
        0 <= p0 < pendings[0].len() && u.step_id == pendings[0][p0].step_id && u.conditions == notified_all(
            pendings[0][p0].conditions,
            results.take(k),
        );
    lemma_notified_all_take(pendings[0][p0].conditions, results, k);
    p0
}

/// Over a run of `finish_step` calls, a step that waits for the success of
/// the step `waited` is started only after that step has succeeded: when it
/// is started by the `k`-th call, one of the first `k + 1` results is the
/// success of `waited`.
pub proof fn law_run_starts_a_step_only_after_its_dependency_succeeds(
    pendings: Seq<Seq<PlanStepView>>,
    results: Seq<(u64, StepResult)>,
    started: Seq<Seq<PreparedStepView>>,
    b: int,
    waited: u64,
    k: int,
    q: int,
)
    requires
        execution_run(pendings, results, started),
        0 <= b < pendings[0].len(),
        forall|p: int| 0 <= p < pendings[0].len() && pendings[0][p].step_id == pendings[0][b].step_id ==> p == b,
        pendings[0][b].conditions.contains(StepCondition::AfterSuccess(StepId(waited))),
        0 <= k < results.len(),
        0 <= q < started[k].len(),
        started[k][q].step_id == pendings[0][b].step_id,
    ensures
        exists|j: int| 0 <= j <= k && results[j] == (waited, StepResult::Success),
{
    let p0 = lemma_run_started_from_start(pendings, results, started, k, q);
    assert(p0 == b);
    let rs = results.take(k + 1);
    law_step_runs_only_after_its_dependencies_succeed(pendings[0][b].conditions, rs, waited);
    let j = choose|j: int| 0 <= j < rs.len() && rs[j] == (waited, StepResult::Success);
    assert(results[j] == rs[j]);
}

/// Over a run of `finish_step` calls, a step that waits for the success of
/// the step `waited` stays pending from start to end and is never started
/// once `waited` has failed without having succeeded before.
pub proof fn law_run_keeps_a_step_pending_after_its_dependency_fails(
    pendings: Seq<Seq<PlanStepView>>,
    results: Seq<(u64, StepResult)>,
    started: Seq<Seq<PreparedStepView>>,
    b: int,
    waited: u64,
    failed_at: int,
)
    requires
        execution_run(pendings, results, started),
        0 <= b < pendings[0].len(),
        forall|p: int| 0 <= p < pendings[0].len() && pendings[0][p].step_id == pendings[0][b].step_id ==> p == b,
        pendings[0][b].conditions.contains(StepCondition::AfterSuccess(StepId(waited))),
        0 <= failed_at < results.len(),
        results[failed_at] == (waited, StepResult::Failure),
        forall|j: int| 0 <= j < failed_at ==> results[j] != (waited, StepResult::Success),
    ensures
        forall|k: int, q: int|
            failed_at <= k < results.len() && 0 <= q < started[k].len() ==> (#[trigger] started[k][q]).step_id
                != pendings[0][b].step_id,
        forall|i: int|
            #![trigger pendings[i]]
            0 <= i < pendings.len() ==> exists|q: int|
                0 <= q < pendings[i].len() && (#[trigger] pendings[i][q]).step_id == pendings[0][b].step_id,
{
    let cs = pendings[0][b].conditions;
    assert forall|m: int| 1 <= m <= results.len() implies #[trigger] notified_all(cs, results.take(m)).len() > 0 by {
        if m <= failed_at {
            if notified_all(cs, results.take(m)).len() == 0 {
                let rs = results.take(m);
                law_step_runs_only_after_its_dependencies_succeed(cs, rs, waited);
                let j = choose|j: int| 0 <= j < rs.len() && rs[j] == (waited, StepResult::Success);
                assert(results[j] == rs[j]);
            }
        } else {
            assert forall|j: int| 0 <= j < failed_at implies results.take(m)[j] != (waited, StepResult::Success) by {
                assert(results.take(m)[j] == results[j]);
            }
            assert(results.take(m)[failed_at] == results[failed_at]);
            law_step_never_runs_after_a_dependency_fails(cs, results.take(m), waited, failed_at);
        }
    }
    assert forall|k: int, q: int|
        failed_at <= k < results.len() && 0 <= q < started[k].len() implies (#[trigger] started[k][q]).step_id
            != pendings[0][b].step_id by {
        if started[k][q].step_id == pendings[0][b].step_id {
            let p0 = lemma_run_started_from_start(pendings, results, started, k, q);
            assert(p0 == b);
            assert(notified_all(cs, results.take(k + 1)).len() > 0);
        }
    }
    assert forall|i: int| #![trigger pendings[i]] 0 <= i < pendings.len() implies exists|q: int|
        0 <= q < pendings[i].len() && (#[trigger] pendings[i][q]).step_id == pendings[0][b].step_id by {
        lemma_run_keeps_step(pendings, results, started, b, i);
        let v = PlanStepView { conditions: notified_all(cs, results.take(i)), ..pendings[0][b] };
        let q = choose|q: int| 0 <= q < pendings[i].len() && pendings[i][q] == v;
    }
}

/// A step whose conditions stay unmet by the results of a run stays pending
/// through it, told of each result.
proof fn lemma_run_keeps_step(
    pendings: Seq<Seq<PlanStepView>>,
    results: Seq<(u64, StepResult)>,
    started: Seq<Seq<PreparedStepView>>,
    b: int,
    i: int,
)
    requires
        execution_run(pendings, results, started),
        0 <= b < pendings[0].len(),
        0 <= i < pendings.len(),
        forall|m: int|
            1 <= m <= results.len() ==> #[trigger] notified_all(pendings[0][b].conditions, results.take(m)).len() > 0,
    ensures
        pendings[i].contains(PlanStepView { conditions: notified_all(pendings[0][b].conditions, results.take(i)), ..pendings[0][b] }),
    decreases i,
{
    let cs = pendings[0][b].conditions;
    if i == 0 {
        assert(results.take(0) =~= Seq::<(u64, StepResult)>::empty());
        assert(PlanStepView { conditions: notified_all(cs, results.take(0)), ..pendings[0][b] } == pendings[0][b]);
    } else {
        let k = i - 1;
        lemma_run_keeps_step(pendings, results, started, b, k);
        let w = PlanStepView { conditions: notified_all(cs, results.take(k)), ..pendings[0][b] };
        let p = choose|p: int| 0 <= p < pendings[k].len() && pendings[k][p] == w;
        lemma_notified_all_take(cs, results, k);
        assert(notified_all(cs, results.take(i)).len() > 0);
        assert(finish_transition(pendings[k], results[k].0, results[k].1, pendings[k + 1], started[k]));
        assert(notified_conditions((pendings[k][p]).conditions, results[k].0, results[k].1).len() > 0);
        assert(notified_step(pendings[k][p], results[k].0, results[k].1) == PlanStepView {
            conditions: notified_all(cs, results.take(i)),
            ..pendings[0][b]
        });
    }
}


/// The error a run of a plan ends with: the first failure of a step. Later
/// steps still run, and their failures are not what the run reports.
pub struct FirstFailure<E> {
    first: Option<E>,
}

impl<E> FirstFailure<E> {
    /// The failure kept so far.
    pub closed spec fn kept(&self) -> Option<E> {
        self.first
    }

    /// No failure yet.
    pub fn new() -> (r: FirstFailure<E>)
        ensures
            r.kept() is None,
    {
        FirstFailure { first: None }
    }

    /// Records a failure; only the first one is kept.
    pub fn record(&mut self, e: E)
        ensures
            final(self).kept() == match old(self).kept() {
                Some(f) => Some(f),
                None => Some(e),
            },
    {
        if self.first.is_none() {
            self.first = Some(e);
        }
    }

    /// What the run ends with: its first failure, if any.
    pub fn into_result(self) -> (r: Result<(), E>)
        ensures
            match self.kept() {
                Some(e) => r == Err::<(), E>(e),
                None => r is Ok,
            },
    {
        match self.first {
            Some(e) => Err(e),
            None => Ok(()),
        }
    }
}

} // verus!
