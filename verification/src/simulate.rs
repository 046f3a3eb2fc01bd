//! A copy of the database's states that planning updates as it decides, so
//! that each decision sees the effect of the earlier ones.
use vstd::prelude::*;

use crate::db::{db_wf, EntryView, PackageDatabase};
use crate::package::id::{valid_package_id, PackageId, PackageIdView};
use crate::package::state::{ActivationState, InstallationState};

verus! {

/// The view of a simulated entry.
pub struct SimEntryView {
    pub id: PackageIdView,
    pub installation: InstallationState,
    pub activation: ActivationState,
}

#[derive(Debug)]
pub struct SimEntry {
    id: PackageId,
    installation: InstallationState,
    activation: ActivationState,
}

impl View for SimEntry {
    type V = SimEntryView;

    closed spec fn view(&self) -> SimEntryView {
        SimEntryView { id: self.id@, installation: self.installation, activation: self.activation }
    }
}

/// Why another version is deactivated when a package is activated.
#[derive(Debug, Clone, Copy, PartialEq, Eq, Structural)]
pub enum ActivationConflict {
    ActiveOtherVersion,
    IncompleteActivation,
    IncompleteDeactivation,
}

/// What activating a package in the simulated state gives.
#[derive(Debug)]
pub enum SimulatedActivationResult {
    Activated { deactivated: Vec<(PackageId, ActivationConflict)> },
    AlreadyActive,
    NotInstalled,
}

/// The view of an activation result.
pub enum ActivationResultView {
    Activated { deactivated: Seq<(PackageIdView, ActivationConflict)> },
    AlreadyActive,
    NotInstalled,
}

impl View for SimulatedActivationResult {
    type V = ActivationResultView;

    open spec fn view(&self) -> ActivationResultView {
        match self {
            SimulatedActivationResult::Activated { deactivated } => ActivationResultView::Activated {
                deactivated: deactivated@.map_values(|d: (PackageId, ActivationConflict)| (d.0@, d.1)),
            },
            SimulatedActivationResult::AlreadyActive => ActivationResultView::AlreadyActive,
            SimulatedActivationResult::NotInstalled => ActivationResultView::NotInstalled,
        }
    }
}

/// What installing a package in the simulated state gives.
#[derive(Debug, Clone, Copy, PartialEq, Eq, Structural)]
pub enum SimulatedInstallationResult {
    Installed,
    Reinstalled,
    AlreadyInstalled,
}

pub open spec fn sim_ids_unique(s: Seq<SimEntryView>) -> bool {
    forall|i: int, j: int|
        0 <= i < s.len() && 0 <= j < s.len() && i != j ==> #[trigger] s[i].id != #[trigger] s[j].id
}

pub open spec fn sim_wf(s: Seq<SimEntryView>) -> bool {
    &&& sim_ids_unique(s)
    &&& forall|i: int| 0 <= i < s.len() ==> valid_package_id(#[trigger] s[i].id)
}

pub open spec fn sim_index_of(s: Seq<SimEntryView>, id: PackageIdView) -> Option<int> {
    if exists|i: int| 0 <= i < s.len() && s[i].id == id {
        Some(choose|i: int| 0 <= i < s.len() && s[i].id == id)
    } else {
        None
    }
}

pub proof fn lemma_sim_index_of_unique(s: Seq<SimEntryView>, id: PackageIdView, i: int)
    requires
        sim_ids_unique(s),
        0 <= i < s.len(),
        s[i].id == id,
    ensures
        sim_index_of(s, id) == Some(i),
{
    let k = choose|k: int| 0 <= k < s.len() && s[k].id == id;
    assert(s[k].id == s[i].id);
}

/// The simulated view of the database.
pub open spec fn sim_of_db(s: Seq<EntryView>) -> Seq<SimEntryView> {
    s.map_values(|e: EntryView| SimEntryView { id: e.id, installation: e.installation, activation: e.activation })
}

/// Whether the package is installed in the simulated state.
pub open spec fn sim_installed(s: Seq<SimEntryView>, id: PackageIdView) -> bool {
    match sim_index_of(s, id) {
        Some(i) => s[i].installation == InstallationState::Installed,
        None => false,
    }
}

/// The conflict an entry's activation state makes with another version's
/// activation, if any.
pub open spec fn conflict_of(a: ActivationState) -> Option<ActivationConflict> {
    match a {
        ActivationState::Active => Some(ActivationConflict::ActiveOtherVersion),
        ActivationState::IncompleteActivation => Some(ActivationConflict::IncompleteActivation),
        ActivationState::IncompleteDeactivation => Some(ActivationConflict::IncompleteDeactivation),
        ActivationState::Inactive => None,
    }
}

/// Another version of the same package whose activation must be undone
/// when `id` is activated.
pub open spec fn is_conflict(e: SimEntryView, id: PackageIdView) -> bool {
    e.id.0 == id.0 && e.id != id && conflict_of(e.activation) is Some
}

/// The conflicting entries among the first `n`, in order.
pub open spec fn conflicts_prefix(s: Seq<SimEntryView>, id: PackageIdView, n: int) -> Seq<(PackageIdView, ActivationConflict)>
    decreases n,
{
    if n <= 0 {
        Seq::empty()
    } else if is_conflict(s[n - 1], id) {
        conflicts_prefix(s, id, n - 1).push((s[n - 1].id, conflict_of(s[n - 1].activation)->0))
    } else {
        conflicts_prefix(s, id, n - 1)
    }
}

/// The state after activating `id`: it is active, and every conflicting
/// version is inactive.
pub open spec fn activated_state(s: Seq<SimEntryView>, id: PackageIdView) -> Seq<SimEntryView> {
    Seq::new(
        s.len(),
        |j: int|
            if s[j].id == id {
                SimEntryView { activation: ActivationState::Active, ..s[j] }
            } else if is_conflict(s[j], id) {
                SimEntryView { activation: ActivationState::Inactive, ..s[j] }
            } else {
                s[j]
            },
    )
}

/// The state after installing `id`: installed and inactive, added at the
/// end when absent.
pub open spec fn installed_state(s: Seq<SimEntryView>, id: PackageIdView) -> Seq<SimEntryView> {
    let e = SimEntryView {
        id,
        installation: InstallationState::Installed,
        activation: ActivationState::Inactive,
    };
    match sim_index_of(s, id) {
        Some(i) => s.update(i, e),
        None => s.push(e),
    }
}

/// What activating `id` in the state `s` reports.
pub open spec fn activation_result(s: Seq<SimEntryView>, id: PackageIdView) -> ActivationResultView {
    if !sim_installed(s, id) {
        ActivationResultView::NotInstalled
    } else if s[sim_index_of(s, id)->0].activation == ActivationState::Active {
        ActivationResultView::AlreadyActive
    } else {
        ActivationResultView::Activated { deactivated: conflicts_prefix(s, id, s.len() as int) }
    }
}

/// The state after activating `id` in `s`.
pub open spec fn after_activation(s: Seq<SimEntryView>, id: PackageIdView) -> Seq<SimEntryView> {
    match activation_result(s, id) {
        ActivationResultView::Activated { .. } => activated_state(s, id),
        _ => s,
    }
}

/// What installing `id` in the state `s` reports.
pub open spec fn installation_result(s: Seq<SimEntryView>, id: PackageIdView) -> SimulatedInstallationResult {
    match sim_index_of(s, id) {
        None => SimulatedInstallationResult::Installed,
        Some(i) => if s[i].installation == InstallationState::Installed {
            SimulatedInstallationResult::AlreadyInstalled
        } else {
            SimulatedInstallationResult::Reinstalled
        },
    }
}

/// The state after installing `id` in `s`.
pub open spec fn after_installation(s: Seq<SimEntryView>, id: PackageIdView) -> Seq<SimEntryView> {
    match installation_result(s, id) {
        SimulatedInstallationResult::AlreadyInstalled => s,
        _ => installed_state(s, id),
    }
}

/// The simulated state of the database during planning.
#[derive(Debug)]
pub struct SimulatedPackageDbState {
    entries: Vec<SimEntry>,
}

impl View for SimulatedPackageDbState {
    type V = Seq<SimEntryView>;

    closed spec fn view(&self) -> Seq<SimEntryView> {
        self.entries@.map_values(|e: SimEntry| e@)
    }
}

impl SimulatedPackageDbState {
    pub open spec fn wf(&self) -> bool {
        sim_wf(self@)
    }

    /// A simulated copy of the database's states.
    pub fn from_db(db: &PackageDatabase) -> (r: SimulatedPackageDbState)
        requires
            db.wf(),
        ensures
            r@ == sim_of_db(db@),
            r.wf(),
    {
        let mut entries: Vec<SimEntry> = Vec::new();
        let mut i: usize = 0;
        while i < db.len()
            invariant
                i <= db@.len(),
                entries@.map_values(|e: SimEntry| e@) =~= sim_of_db(db@).take(i as int),
            decreases db@.len() - i,
        {
            let e = db.entry(i);
            let se = SimEntry { id: e.id().clone(), installation: e.installation_state(), activation: e.activation_state() };
            assert(se@ == sim_of_db(db@)[i as int]);
            let ghost prev = entries@;
            entries.push(se);
            proof {
                assert(entries@.map_values(|e: SimEntry| e@) =~= prev.map_values(|e: SimEntry| e@).push(se@));
                assert(entries@.map_values(|e: SimEntry| e@) =~= sim_of_db(db@).take(i + 1));
            }
            i = i + 1;
        }
        proof {
            assert(sim_of_db(db@).take(db@.len() as int) =~= sim_of_db(db@));
            let t = sim_of_db(db@);
            assert forall|a: int, b: int| 0 <= a < t.len() && 0 <= b < t.len() && a != b implies #[trigger] t[a].id != #[trigger] t[b].id by {
                assert(t[a].id == db@[a].id && t[b].id == db@[b].id);
            }
            assert forall|a: int| 0 <= a < t.len() implies valid_package_id(#[trigger] t[a].id) by {
                assert(t[a].id == db@[a].id);
            }
        }
        SimulatedPackageDbState { entries }
    }

    /// Whether the package is installed in the simulated state.
    pub fn is_installed(&self, id: &PackageId) -> (r: bool)
        requires
            self.wf(),
        ensures
            r == sim_installed(self@, id@),
    {
        match self.find(id) {
            Some(i) => self.entries[i].installation.is_installed(),
            None => false,
        }
    }

    fn find(&self, id: &PackageId) -> (r: Option<usize>)
        requires
            self.wf(),
        ensures
            match r {
                Some(i) => i < self@.len() && self@[i as int].id == id@ && sim_index_of(self@, id@) == Some(i as int),
                None => sim_index_of(self@, id@) is None,
            },
    {
        let mut i: usize = 0;
        while i < self.entries.len()
            invariant
                i <= self@.len(),
                self.entries@.len() == self@.len(),
                sim_wf(self@),
                forall|j: int| 0 <= j < i ==> self@[j].id != id@,
            decreases self@.len() - i,
        {
            if self.entries[i].id.equals(id) {
                proof {
                    lemma_sim_index_of_unique(self@, id@, i as int);
                }
                return Some(i);
            }
            i = i + 1;
        }
        None
    }

    /// Installs `id` in the simulated state.
    pub fn install(&mut self, id: &PackageId) -> (r: SimulatedInstallationResult)
        requires
            old(self).wf(),
            id.wf(),
        ensures
            final(self).wf(),
            r == installation_result(old(self)@, id@),
            final(self)@ == after_installation(old(self)@, id@),
            match sim_index_of(old(self)@, id@) {
                None => r == SimulatedInstallationResult::Installed && final(self)@ == installed_state(old(self)@, id@),
                Some(i) => if old(self)@[i].installation == InstallationState::Installed {
                    r == SimulatedInstallationResult::AlreadyInstalled && final(self)@ == old(self)@
                } else {
                    r == SimulatedInstallationResult::Reinstalled && final(self)@ == installed_state(old(self)@, id@)
                },
            },
    {
        let ghost old_view = self@;
        match self.find(id) {
            Some(i) => {
                if self.entries[i].installation.is_installed() {
                    return SimulatedInstallationResult::AlreadyInstalled;
                }
                let e = SimEntry { id: id.clone(), installation: InstallationState::Installed, activation: ActivationState::Inactive };
                let ghost ev = e@;
                self.entries.set(i, e);
                proof {
                    assert(self@ =~= old_view.update(i as int, ev));
                    let t = self@;
                    assert forall|a: int, b: int| 0 <= a < t.len() && 0 <= b < t.len() && a != b implies #[trigger] t[a].id != #[trigger] t[b].id by {
                        assert(t[a].id == old_view[a].id && t[b].id == old_view[b].id);
                    }
                    assert forall|a: int| 0 <= a < t.len() implies valid_package_id(#[trigger] t[a].id) by {
                        assert(t[a].id == old_view[a].id);
                    }
                }
                SimulatedInstallationResult::Reinstalled
            },
            None => {
                let e = SimEntry { id: id.clone(), installation: InstallationState::Installed, activation: ActivationState::Inactive };
                let ghost ev = e@;
                self.entries.push(e);
                proof {
                    assert(self@ =~= old_view.push(ev));
                    let t = self@;
                    assert forall|j: int| 0 <= j < old_view.len() implies old_view[j].id != id@ by {
                        if old_view[j].id == id@ {
                            assert(exists|i: int| 0 <= i < old_view.len() && old_view[i].id == id@);
                        }
                    }
                    assert forall|a: int, b: int| 0 <= a < t.len() && 0 <= b < t.len() && a != b implies #[trigger] t[a].id != #[trigger] t[b].id by {
                        if a == old_view.len() {
                            assert(old_view[b].id != id@);
                        } else if b == old_view.len() {
                            assert(old_view[a].id != id@);
                        }
                    }
                }
                SimulatedInstallationResult::Installed
            },
        }
    }

    /// Activates `id` in the simulated state, deactivating every conflicting
    /// version of the same package.
    pub fn activate(&mut self, id: &PackageId) -> (r: SimulatedActivationResult)
        requires
            old(self).wf(),
        ensures
            final(self).wf(),
            r@ == activation_result(old(self)@, id@),
            final(self)@ == after_activation(old(self)@, id@),
            !sim_installed(old(self)@, id@) <==> r is NotInstalled,
            r is NotInstalled ==> final(self)@ == old(self)@,
            r is AlreadyActive <==> sim_installed(old(self)@, id@) && old(self)@[sim_index_of(old(self)@, id@)->0].activation == ActivationState::Active,
            r is AlreadyActive ==> final(self)@ == old(self)@,
            r matches SimulatedActivationResult::Activated { deactivated } ==> final(self)@ == activated_state(old(self)@, id@)
                && deactivated@.map_values(|d: (PackageId, ActivationConflict)| (d.0@, d.1)) == conflicts_prefix(old(self)@, id@, old(self)@.len() as int),
    {
        let ghost old_view = self@;
        let i = match self.find(id) {
            Some(i) => i,
            None => return SimulatedActivationResult::NotInstalled,
        };
        if !self.entries[i].installation.is_installed() {
            return SimulatedActivationResult::NotInstalled;
        }
        if self.entries[i].activation.is_active() {
            return SimulatedActivationResult::AlreadyActive;
        }
        let mut deactivated: Vec<(PackageId, ActivationConflict)> = Vec::new();
        let mut j: usize = 0;
        while j < self.entries.len()
            invariant
                j <= self@.len(),
                self@.len() == old_view.len(),
                self.entries@.len() == old_view.len(),
                forall|k: int| 0 <= k < j ==> self@[k] == activated_state(old_view, id@)[k],
                forall|k: int| j <= k < old_view.len() ==> self@[k] == old_view[k],
                deactivated@.map_values(|d: (PackageId, ActivationConflict)| (d.0@, d.1)) == conflicts_prefix(old_view, id@, j as int),
            decreases old_view.len() - j,
        {
            let ghost before = self@;
            let is_target = self.entries[j].id.equals(id);
            let same_name = crate::text::str_eq(self.entries[j].id.name().as_str(), id.name().as_str());
            let conflict = match self.entries[j].activation {
                ActivationState::Active => Some(ActivationConflict::ActiveOtherVersion),
                ActivationState::IncompleteActivation => Some(ActivationConflict::IncompleteActivation),
                ActivationState::IncompleteDeactivation => Some(ActivationConflict::IncompleteDeactivation),
                ActivationState::Inactive => None,
            };
            if is_target {
                let mut e = self.entries.remove(j);
                e.activation = ActivationState::Active;
                self.entries.insert(j, e);
            } else if same_name && conflict.is_some() {
                let mut e = self.entries.remove(j);
                let pid = e.id.clone();
                e.activation = ActivationState::Inactive;
                self.entries.insert(j, e);
                let ghost dv = deactivated@;
                deactivated.push((pid, conflict.unwrap()));
                proof {
                    assert(deactivated@.map_values(|d: (PackageId, ActivationConflict)| (d.0@, d.1)) =~= dv.map_values(|d: (PackageId, ActivationConflict)| (d.0@, d.1)).push((old_view[j as int].id, conflict_of(old_view[j as int].activation)->0)));
                }
            }
            proof {
                assert(self@[j as int] == activated_state(old_view, id@)[j as int]);
                assert forall|k: int| 0 <= k < j + 1 implies self@[k] == activated_state(old_view, id@)[k] by {
                    if k < j {
                        assert(self@[k] == before[k]);
                    }
                }
                assert forall|k: int| j + 1 <= k < old_view.len() implies self@[k] == old_view[k] by {
                    assert(self@[k] == before[k]);
                }
            }
            j = j + 1;
        }
        proof {
            assert(self@ =~= activated_state(old_view, id@));
            let t = self@;
            assert forall|a: int, b: int| 0 <= a < t.len() && 0 <= b < t.len() && a != b implies #[trigger] t[a].id != #[trigger] t[b].id by {
                assert(t[a].id == old_view[a].id && t[b].id == old_view[b].id);
            }
            assert forall|a: int| 0 <= a < t.len() implies valid_package_id(#[trigger] t[a].id) by {
                assert(t[a].id == old_view[a].id);
            }
        }
        SimulatedActivationResult::Activated { deactivated }
    }
}

/// Activation changes no entry's ID or installation state.
pub proof fn lemma_activation_keeps_installed(s: Seq<SimEntryView>, id: PackageIdView, x: PackageIdView)
    requires
        sim_wf(s),
        sim_installed(s, x),
    ensures
        sim_installed(after_activation(s, id), x),
        sim_wf(after_activation(s, id)),
{
    let i = sim_index_of(s, x)->0;
    let t = after_activation(s, id);
    assert(t.len() == s.len());
    assert forall|j: int| 0 <= j < t.len() implies #[trigger] t[j].id == s[j].id && t[j].installation == s[j].installation by {}
    assert(sim_wf(t)) by {
        assert forall|a: int, b: int| 0 <= a < t.len() && 0 <= b < t.len() && a != b implies #[trigger] t[a].id != #[trigger] t[b].id by {
            assert(t[a].id == s[a].id && t[b].id == s[b].id);
        }
        assert forall|a: int| 0 <= a < t.len() implies valid_package_id(#[trigger] t[a].id) by {
            assert(t[a].id == s[a].id);
        }
    }
    lemma_sim_index_of_unique(s, x, i);
    lemma_sim_index_of_unique(t, x, i);
}

/// Installation keeps every installed package installed, and installs `id`.
pub proof fn lemma_installation_keeps_installed(s: Seq<SimEntryView>, id: PackageIdView, x: PackageIdView)
    requires
        sim_wf(s),
        valid_package_id(id),
        sim_installed(s, x) || x == id,
    ensures
        sim_installed(after_installation(s, id), x),
        sim_wf(after_installation(s, id)),
{
    let t = after_installation(s, id);
    match sim_index_of(s, id) {
        Some(k) => {
            lemma_sim_index_of_unique(s, id, k);
        },
        None => {
            assert forall|j: int| 0 <= j < s.len() implies s[j].id != id by {
                if s[j].id == id {
                    assert(exists|i: int| 0 <= i < s.len() && s[i].id == id);
                }
            }
        },
    }
    assert(sim_wf(t)) by {
        assert forall|a: int, b: int| 0 <= a < t.len() && 0 <= b < t.len() && a != b implies #[trigger] t[a].id != #[trigger] t[b].id by {
            if a < s.len() && b < s.len() {
                assert(t[a].id == s[a].id && t[b].id == s[b].id);
            }
        }
    }
    if x == id {
        let i = if sim_index_of(s, id) is Some { sim_index_of(s, id)->0 } else { s.len() as int };
        assert(t[i].id == id);
        lemma_sim_index_of_unique(t, id, i);
    } else {
        let i = sim_index_of(s, x)->0;
        lemma_sim_index_of_unique(s, x, i);
        assert(t[i] == s[i]);
        lemma_sim_index_of_unique(t, x, i);
    }
}

/// The versions that an activation deactivates are entries of the state.
pub proof fn lemma_conflicts_are_entries(s: Seq<SimEntryView>, id: PackageIdView, n: int)
    requires
        sim_wf(s),
        0 <= n <= s.len(),
    ensures
        forall|k: int| 0 <= k < conflicts_prefix(s, id, n).len() ==> valid_package_id(#[trigger] conflicts_prefix(s, id, n)[k].0),
    decreases n,
{
    if n > 0 {
        lemma_conflicts_are_entries(s, id, n - 1);
        assert(valid_package_id(s[n - 1].id));
        let prev = conflicts_prefix(s, id, n - 1);
        let cur = conflicts_prefix(s, id, n);
        assert forall|k: int| 0 <= k < cur.len() implies valid_package_id(#[trigger] cur[k].0) by {
            if k < prev.len() {
                assert(cur[k] == prev[k]);
            }
        }
    }
}

/// Once a package is activated in the simulated state, activating it again
/// is a no-op that reports it as already active.
pub proof fn law_second_activation_is_already_active(s: Seq<SimEntryView>, id: PackageIdView)
    requires
        sim_wf(s),
        sim_installed(s, id),
    ensures
        sim_installed(activated_state(s, id), id),
        activated_state(s, id)[sim_index_of(activated_state(s, id), id)->0].activation == ActivationState::Active,
{
    let i = sim_index_of(s, id)->0;
    let t = activated_state(s, id);
    assert(t[i].id == id);
    assert(sim_ids_unique(t)) by {
        assert forall|a: int, b: int| 0 <= a < t.len() && 0 <= b < t.len() && a != b implies #[trigger] t[a].id != #[trigger] t[b].id by {
            assert(t[a].id == s[a].id && t[b].id == s[b].id);
        }
    }
    lemma_sim_index_of_unique(t, id, i);
}

/// After an activation, no other version of the package is active or
/// half-way through an activation change: at most one version is active.
pub proof fn law_activation_leaves_one_version(s: Seq<SimEntryView>, id: PackageIdView, j: int)
    requires
        sim_wf(s),
        0 <= j < s.len(),
        s[j].id.0 == id.0,
        s[j].id != id,
    ensures
        activated_state(s, id)[j].activation == ActivationState::Inactive,
{
}

} // verus!
