//! The package database: one entry per package ID, recording where its
//! installation and activation stand, and the state transitions that the
//! execution of a plan applies to it.
use vstd::prelude::*;

use crate::package::file_name::FontEntry;
use crate::package::id::{valid_package_id, PackageId, PackageIdView};
use crate::package::spec::{spec_selects, PackageSpec, PackageSpecView};
use crate::package::state::{ActivationState, InstallationState};

verus! {

/// The view of a database entry.
pub struct EntryView {
    pub id: PackageIdView,
    pub installation: InstallationState,
    pub activation: ActivationState,
    pub fonts: Seq<Seq<char>>,
}

/// One package's record in the database.
#[derive(Debug)]
pub struct DbEntry {
    id: PackageId,
    installation: InstallationState,
    activation: ActivationState,
    fonts: Vec<FontEntry>,
}

impl View for DbEntry {
    type V = EntryView;

    closed spec fn view(&self) -> EntryView {
        EntryView {
            id: self.id@,
            installation: self.installation,
            activation: self.activation,
            fonts: self.fonts@.map_values(|f: FontEntry| f@),
        }
    }
}

impl DbEntry {
    /// A record with the given states and fonts.
    pub fn new(
        id: PackageId,
        installation: InstallationState,
        activation: ActivationState,
        fonts: Vec<FontEntry>,
    ) -> (r: DbEntry)
        ensures
            r@ == (EntryView {
                id: id@,
                installation,
                activation,
                fonts: fonts@.map_values(|f: FontEntry| f@),
            }),
    {
        DbEntry { id, installation, activation, fonts }
    }

    pub fn id(&self) -> (r: &PackageId)
        ensures
            r@ == self@.id,
    {
        &self.id
    }

    pub fn installation_state(&self) -> (r: InstallationState)
        ensures
            r == self@.installation,
    {
        self.installation
    }

    pub fn activation_state(&self) -> (r: ActivationState)
        ensures
            r == self@.activation,
    {
        self.activation
    }

    pub fn fonts(&self) -> (r: &Vec<FontEntry>)
        ensures
            r@.map_values(|f: FontEntry| f@) == self@.fonts,
    {
        &self.fonts
    }
}

/// No two entries share an ID.
pub open spec fn ids_unique(s: Seq<EntryView>) -> bool {
    forall|i: int, j: int|
        0 <= i < s.len() && 0 <= j < s.len() && i != j ==> #[trigger] s[i].id != #[trigger] s[j].id
}

/// The database invariant: unique, well-formed IDs.
pub open spec fn db_wf(s: Seq<EntryView>) -> bool {
    &&& ids_unique(s)
    &&& forall|i: int| 0 <= i < s.len() ==> valid_package_id(#[trigger] s[i].id)
}

/// The index of the entry with the given ID.
pub open spec fn index_of(s: Seq<EntryView>, id: PackageIdView) -> Option<int> {
    if exists|i: int| 0 <= i < s.len() && s[i].id == id {
        Some(choose|i: int| 0 <= i < s.len() && s[i].id == id)
    } else {
        None
    }
}

pub open spec fn has_id(s: Seq<EntryView>, id: PackageIdView) -> bool {
    index_of(s, id) is Some
}

/// The entry with the given ID, if any.
pub open spec fn entry_of(s: Seq<EntryView>, id: PackageIdView) -> Option<EntryView> {
    match index_of(s, id) {
        Some(i) => Some(s[i]),
        None => None,
    }
}

pub proof fn lemma_index_of_unique(s: Seq<EntryView>, id: PackageIdView, i: int)
    requires
        ids_unique(s),
        0 <= i < s.len(),
        s[i].id == id,
    ensures
        index_of(s, id) == Some(i),
{
    let k = choose|k: int| 0 <= k < s.len() && s[k].id == id;
    assert(s[k].id == s[i].id);
}

/// `s` with the entry at `i` set to `(installation, activation)`.
pub open spec fn with_states(
    s: Seq<EntryView>,
    i: int,
    installation: InstallationState,
    activation: ActivationState,
) -> Seq<EntryView> {
    s.update(i, EntryView { installation, activation, ..s[i] })
}

/// Starting an install: the entry becomes an incomplete, inactive install
/// with no fonts, added at the end if it was absent.
pub open spec fn spec_begin_install(s: Seq<EntryView>, id: PackageIdView) -> Seq<EntryView> {
    let fresh = EntryView {
        id,
        installation: InstallationState::IncompleteInstall,
        activation: ActivationState::Inactive,
        fonts: Seq::empty(),
    };
    match index_of(s, id) {
        Some(i) => s.update(i, fresh),
        None => s.push(fresh),
    }
}

/// Completing an install: the entry is installed, inactive, with its fonts.
pub open spec fn spec_complete_install(
    s: Seq<EntryView>,
    id: PackageIdView,
    fonts: Seq<Seq<char>>,
) -> Seq<EntryView> {
    let i = index_of(s, id)->0;
    s.update(
        i,
        EntryView {
            id,
            installation: InstallationState::Installed,
            activation: ActivationState::Inactive,
            fonts,
        },
    )
}

/// Cancelling an install: the entry is dropped when nothing was left behind,
/// else kept as an incomplete uninstall for a later repair.
pub open spec fn spec_cancel_install(
    s: Seq<EntryView>,
    id: PackageIdView,
    cleanup_required: bool,
) -> Seq<EntryView> {
    let i = index_of(s, id)->0;
    if cleanup_required {
        with_states(s, i, InstallationState::IncompleteUninstall, ActivationState::Inactive)
    } else {
        s.remove(i)
    }
}

pub open spec fn spec_set_installation(
    s: Seq<EntryView>,
    id: PackageIdView,
    installation: InstallationState,
) -> Seq<EntryView> {
    let i = index_of(s, id)->0;
    with_states(s, i, installation, s[i].activation)
}

pub open spec fn spec_set_activation(
    s: Seq<EntryView>,
    id: PackageIdView,
    activation: ActivationState,
) -> Seq<EntryView> {
    let i = index_of(s, id)->0;
    with_states(s, i, s[i].installation, activation)
}

/// Dropping the entry with the given ID.
pub open spec fn spec_remove(s: Seq<EntryView>, id: PackageIdView) -> Seq<EntryView> {
    s.remove(index_of(s, id)->0)
}

/// Why a transition was refused.
#[derive(Debug, Clone, Copy, PartialEq, Eq, Structural)]
pub enum PackageDatabaseError {
    NotFound,
    NotInstalled,
    AlreadyExists,
}

/// The package database.
#[derive(Debug)]
pub struct PackageDatabase {
    entries: Vec<DbEntry>,
}

impl View for PackageDatabase {
    type V = Seq<EntryView>;

    closed spec fn view(&self) -> Seq<EntryView> {
        self.entries@.map_values(|e: DbEntry| e@)
    }
}

impl PackageDatabase {
    pub open spec fn wf(&self) -> bool {
        db_wf(self@)
    }

    pub fn new() -> (r: PackageDatabase)
        ensures
            r@ == Seq::<EntryView>::empty(),
            r.wf(),
    {
        let r = PackageDatabase { entries: Vec::new() };
        assert(r@ =~= Seq::<EntryView>::empty());
        r
    }

    pub fn len(&self) -> (r: usize)
        ensures
            r == self@.len(),
    {
        self.entries.len()
    }

    pub fn entry(&self, i: usize) -> (r: &DbEntry)
        requires
            i < self@.len(),
        ensures
            r@ == self@[i as int],
    {
        &self.entries[i]
    }

    /// The index of the entry with the given ID.
    pub fn find(&self, id: &PackageId) -> (r: Option<usize>)
        requires
            self.wf(),
        ensures
            match r {
                Some(i) => i < self@.len() && self@[i as int].id == id@ && index_of(self@, id@) == Some(
                    i as int,
                ),
                None => index_of(self@, id@) is None,
            },
    {
        let mut i: usize = 0;
        while i < self.entries.len()
            invariant
                i <= self@.len(),
                self.entries@.len() == self@.len(),
                db_wf(self@),
                forall|j: int| 0 <= j < i ==> self@[j].id != id@,
            decreases self@.len() - i,
        {
            if self.entries[i].id.equals(id) {
                proof {
                    lemma_index_of_unique(self@, id@, i as int);
                }
                return Some(i);
            }
            i = i + 1;
        }
        None
    }

    /// The entry with the given ID.
    pub fn entry_by_id(&self, id: &PackageId) -> (r: Option<&DbEntry>)
        requires
            self.wf(),
        ensures
            match r {
                Some(e) => entry_of(self@, id@) == Some(e@),
                None => entry_of(self@, id@) is None,
            },
    {
        match self.find(id) {
            Some(i) => Some(&self.entries[i]),
            None => None,
        }
    }

    /// Adds a record; refused when the ID is already recorded.
    pub fn insert(&mut self, entry: DbEntry) -> (r: Result<(), PackageDatabaseError>)
        requires
            old(self).wf(),
            valid_package_id(entry@.id),
        ensures
            final(self).wf(),
            r is Ok <==> !has_id(old(self)@, entry@.id),
            r is Ok ==> final(self)@ == old(self)@.push(entry@),
            r is Err ==> final(self)@ == old(self)@ && r == Err::<(), _>(PackageDatabaseError::AlreadyExists),
    {
        if self.find(&entry.id).is_some() {
            return Err(PackageDatabaseError::AlreadyExists);
        }
        let ghost old_view = self@;
        let ghost ev = entry@;
        self.entries.push(entry);
        proof {
            assert(self@ =~= old_view.push(ev));
            if exists|i: int| 0 <= i < old_view.len() && old_view[i].id == ev.id {
                let i = choose|i: int| 0 <= i < old_view.len() && old_view[i].id == ev.id;
                assert(false);
            }
        }
        Ok(())
    }

    /// The indices of the entries that the specifier selects, in order.
    pub fn entries_by_spec(&self, spec: &PackageSpec) -> (r: Vec<usize>)
        ensures
            forall|k: int| 0 <= k < r@.len() ==> r@[k] < self@.len() && spec_selects(spec@, self@[#[trigger] r@[k] as int].id),
            forall|i: int| 0 <= i < self@.len() && spec_selects(spec@, #[trigger] self@[i].id) ==> r@.contains(i as usize),
            forall|k1: int, k2: int| 0 <= k1 < k2 < r@.len() ==> r@[k1] < r@[k2],
    {
        let mut r: Vec<usize> = Vec::new();
        let mut i: usize = 0;
        while i < self.entries.len()
            invariant
                i <= self@.len(),
                self.entries@.len() == self@.len(),
                forall|k: int| 0 <= k < r@.len() ==> r@[k] < i && spec_selects(spec@, self@[#[trigger] r@[k] as int].id),
                forall|j: int| 0 <= j < i && spec_selects(spec@, #[trigger] self@[j].id) ==> r@.contains(j as usize),
                forall|k1: int, k2: int| 0 <= k1 < k2 < r@.len() ==> r@[k1] < r@[k2],
            decreases self@.len() - i,
        {
            if spec.selects(&self.entries[i].id) {
                let ghost r_old = r@;
                r.push(i);
                proof {
                    assert(r@[r@.len() - 1] == i);
                    assert forall|j: int| 0 <= j < i && spec_selects(spec@, #[trigger] self@[j].id) implies r@.contains(j as usize) by {
                        assert(r_old.contains(j as usize));
                        let k = choose|k: int| 0 <= k < r_old.len() && r_old[k] == j as usize;
                        assert(r@[k] == j as usize);
                    }
                }
            }
            proof {
                assert forall|j: int| 0 <= j < i + 1 && spec_selects(spec@, #[trigger] self@[j].id) implies r@.contains(j as usize) by {
                    if j == i {
                        assert(r@[r@.len() - 1] == i);
                    }
                }
            }
            i = i + 1;
        }
        r
    }

    fn set_states(&mut self, i: usize, installation: InstallationState, activation: ActivationState)
        requires
            i < old(self)@.len(),
        ensures
            final(self)@ == with_states(old(self)@, i as int, installation, activation),
    {
        let ghost old_view = self@;
        let mut e = self.entries.remove(i);
        e.installation = installation;
        e.activation = activation;
        let ghost ev = e@;
        self.entries.insert(i, e);
        proof {
            assert(self@ =~= with_states(old_view, i as int, installation, activation));
        }
    }

    fn remove_at(&mut self, i: usize)
        requires
            i < old(self)@.len(),
        ensures
            final(self)@ == old(self)@.remove(i as int),
    {
        let ghost old_view = self@;
        self.entries.remove(i);
        proof {
            assert(self@ =~= old_view.remove(i as int));
        }
    }
}


pub proof fn lemma_with_states_wf(
    s: Seq<EntryView>,
    i: int,
    installation: InstallationState,
    activation: ActivationState,
)
    requires
        db_wf(s),
        0 <= i < s.len(),
    ensures
        db_wf(with_states(s, i, installation, activation)),
        with_states(s, i, installation, activation).len() == s.len(),
        forall|j: int| 0 <= j < s.len() ==> #[trigger] with_states(s, i, installation, activation)[j].id == s[j].id,
{
    let t = with_states(s, i, installation, activation);
    assert forall|j: int| 0 <= j < s.len() implies #[trigger] t[j].id == s[j].id by {}
}

pub proof fn lemma_remove_wf(s: Seq<EntryView>, i: int)
    requires
        db_wf(s),
        0 <= i < s.len(),
    ensures
        db_wf(s.remove(i)),
{
    let t = s.remove(i);
    assert forall|a: int, b: int| 0 <= a < t.len() && 0 <= b < t.len() && a != b implies #[trigger] t[a].id != #[trigger] t[b].id by {
        let a2 = if a < i { a } else { a + 1 };
        let b2 = if b < i { b } else { b + 1 };
        assert(t[a] == s[a2]);
        assert(t[b] == s[b2]);
    }
    assert forall|a: int| 0 <= a < t.len() implies valid_package_id(#[trigger] t[a].id) by {
        let a2 = if a < i { a } else { a + 1 };
        assert(t[a] == s[a2]);
    }
}

impl PackageDatabase {
    fn replace_entry(&mut self, i: usize, e: DbEntry)
        requires
            i < old(self)@.len(),
        ensures
            final(self)@ == old(self)@.update(i as int, e@),
    {
        let ghost old_view = self@;
        let ghost ev = e@;
        self.entries.remove(i);
        self.entries.insert(i, e);
        proof {
            assert(self@ =~= old_view.update(i as int, ev));
        }
    }

    /// Records the start of an install.
    pub fn begin_install(&mut self, id: &PackageId)
        requires
            old(self).wf(),
            id.wf(),
        ensures
            final(self).wf(),
            final(self)@ == spec_begin_install(old(self)@, id@),
    {
        let ghost old_view = self@;
        let fresh = DbEntry {
            id: id.clone(),
            installation: InstallationState::IncompleteInstall,
            activation: ActivationState::Inactive,
            fonts: Vec::new(),
        };
        proof {
            assert(fresh@.fonts =~= Seq::<Seq<char>>::empty());
        }
        match self.find(id) {
            Some(i) => {
                self.replace_entry(i, fresh);
                proof {
                    let t = self@;
                    assert forall|a: int, b: int| 0 <= a < t.len() && 0 <= b < t.len() && a != b implies #[trigger] t[a].id != #[trigger] t[b].id by {
                        assert(t[a].id == old_view[a].id);
                        assert(t[b].id == old_view[b].id);
                    }
                    assert forall|a: int| 0 <= a < t.len() implies valid_package_id(#[trigger] t[a].id) by {
                        assert(t[a].id == old_view[a].id);
                    }
                }
            },
            None => {
                let ghost ev = fresh@;
                self.entries.push(fresh);
                proof {
                    let t = self@;
                    assert(t =~= old_view.push(ev));
                    assert forall|a: int, b: int| 0 <= a < t.len() && 0 <= b < t.len() && a != b implies #[trigger] t[a].id != #[trigger] t[b].id by {
                        if a == old_view.len() {
                            assert(old_view[b].id != id@);
                        } else if b == old_view.len() {
                            assert(old_view[a].id != id@);
                        }
                    }
                }
            },
        }
    }

    /// Records that an install finished with the given fonts.
    pub fn complete_install(&mut self, id: &PackageId, fonts: Vec<FontEntry>)
        requires
            old(self).wf(),
            has_id(old(self)@, id@),
        ensures
            final(self).wf(),
            final(self)@ == spec_complete_install(old(self)@, id@, fonts@.map_values(|f: FontEntry| f@)),
    {
        let ghost old_view = self@;
        let i = self.find(id).unwrap();
        let e = DbEntry {
            id: id.clone(),
            installation: InstallationState::Installed,
            activation: ActivationState::Inactive,
            fonts,
        };
        self.replace_entry(i, e);
        proof {
            let t = self@;
            assert forall|a: int, b: int| 0 <= a < t.len() && 0 <= b < t.len() && a != b implies #[trigger] t[a].id != #[trigger] t[b].id by {
                assert(t[a].id == old_view[a].id);
                assert(t[b].id == old_view[b].id);
            }
            assert forall|a: int| 0 <= a < t.len() implies valid_package_id(#[trigger] t[a].id) by {
                assert(t[a].id == old_view[a].id);
            }
        }
    }

    /// Records that an install was given up: the entry goes when nothing was
    /// left behind, else it stays as an incomplete uninstall.
    pub fn cancel_install(&mut self, id: &PackageId, cleanup_required: bool)
        requires
            old(self).wf(),
            has_id(old(self)@, id@),
        ensures
            final(self).wf(),
            final(self)@ == spec_cancel_install(old(self)@, id@, cleanup_required),
    {
        let ghost old_view = self@;
        let i = self.find(id).unwrap();
        if cleanup_required {
            proof {
                lemma_with_states_wf(old_view, i as int, InstallationState::IncompleteUninstall, ActivationState::Inactive);
            }
            self.set_states(i, InstallationState::IncompleteUninstall, ActivationState::Inactive);
        } else {
            proof {
                lemma_remove_wf(old_view, i as int);
            }
            self.remove_at(i);
        }
    }

    /// Records the start of an uninstall; refused when the ID is unknown.
    pub fn begin_uninstall(&mut self, id: &PackageId) -> (r: Result<(), PackageDatabaseError>)
        requires
            old(self).wf(),
        ensures
            final(self).wf(),
            r is Ok <==> has_id(old(self)@, id@),
            r is Ok ==> final(self)@ == spec_set_installation(old(self)@, id@, InstallationState::IncompleteUninstall),
            r is Err ==> final(self)@ == old(self)@ && r == Err::<(), _>(PackageDatabaseError::NotFound),
    {
        self.set_installation(id, InstallationState::IncompleteUninstall)
    }

    fn set_installation(&mut self, id: &PackageId, installation: InstallationState) -> (r: Result<(), PackageDatabaseError>)
        requires
            old(self).wf(),
        ensures
            final(self).wf(),
            r is Ok <==> has_id(old(self)@, id@),
            r is Ok ==> final(self)@ == spec_set_installation(old(self)@, id@, installation),
            r is Err ==> final(self)@ == old(self)@ && r == Err::<(), _>(PackageDatabaseError::NotFound),
    {
        let ghost old_view = self@;
        match self.find(id) {
            Some(i) => {
                let act = self.entries[i].activation;
                proof {
                    lemma_with_states_wf(old_view, i as int, installation, act);
                }
                self.set_states(i, installation, act);
                Ok(())
            },
            None => Err(PackageDatabaseError::NotFound),
        }
    }

    fn set_activation(&mut self, id: &PackageId, activation: ActivationState) -> (r: Result<(), PackageDatabaseError>)
        requires
            old(self).wf(),
        ensures
            final(self).wf(),
            r is Ok <==> has_id(old(self)@, id@),
            r is Ok ==> final(self)@ == spec_set_activation(old(self)@, id@, activation),
            r is Err ==> final(self)@ == old(self)@ && r == Err::<(), _>(PackageDatabaseError::NotFound),
    {
        let ghost old_view = self@;
        match self.find(id) {
            Some(i) => {
                let inst = self.entries[i].installation;
                proof {
                    lemma_with_states_wf(old_view, i as int, inst, activation);
                }
                self.set_states(i, inst, activation);
                Ok(())
            },
            None => Err(PackageDatabaseError::NotFound),
        }
    }

    /// Records that an uninstall finished: the entry goes.
    pub fn complete_uninstall(&mut self, id: &PackageId)
        requires
            old(self).wf(),
            has_id(old(self)@, id@),
        ensures
            final(self).wf(),
            final(self)@ == spec_remove(old(self)@, id@),
    {
        let ghost old_view = self@;
        let i = self.find(id).unwrap();
        proof {
            lemma_remove_wf(old_view, i as int);
        }
        self.remove_at(i);
    }

    /// Records the start of an activation; refused unless the package is
    /// installed.
    pub fn begin_activate(&mut self, id: &PackageId) -> (r: Result<(), PackageDatabaseError>)
        requires
            old(self).wf(),
        ensures
            final(self).wf(),
            r is Ok <==> has_id(old(self)@, id@) && entry_of(old(self)@, id@)->0.installation == InstallationState::Installed,
            r == Err::<(), _>(PackageDatabaseError::NotFound) <==> !has_id(old(self)@, id@),
            r == Err::<(), _>(PackageDatabaseError::NotInstalled) <==> has_id(old(self)@, id@) && entry_of(
                old(self)@,
                id@,
            )->0.installation != InstallationState::Installed,
            r is Ok ==> final(self)@ == spec_set_activation(old(self)@, id@, ActivationState::IncompleteActivation),
            r is Err ==> final(self)@ == old(self)@,
    {
        match self.find(id) {
            Some(i) => {
                if !self.entries[i].installation.is_installed() {
                    return Err(PackageDatabaseError::NotInstalled);
                }
                self.set_activation(id, ActivationState::IncompleteActivation)
            },
            None => Err(PackageDatabaseError::NotFound),
        }
    }

    /// Records that an activation finished.
    pub fn complete_activate(&mut self, id: &PackageId)
        requires
            old(self).wf(),
            has_id(old(self)@, id@),
        ensures
            final(self).wf(),
            final(self)@ == spec_set_activation(old(self)@, id@, ActivationState::Active),
    {
        let _ = self.set_activation(id, ActivationState::Active);
    }

    /// Records that an activation was given up: back to inactive when nothing
    /// was left registered, else an incomplete deactivation for a repair.
    pub fn cancel_activate(&mut self, id: &PackageId, cleanup_required: bool)
        requires
            old(self).wf(),
            has_id(old(self)@, id@),
        ensures
            final(self).wf(),
            final(self)@ == spec_set_activation(
                old(self)@,
                id@,
                if cleanup_required { ActivationState::IncompleteDeactivation } else { ActivationState::Inactive },
            ),
    {
        if cleanup_required {
            let _ = self.set_activation(id, ActivationState::IncompleteDeactivation);
        } else {
            let _ = self.set_activation(id, ActivationState::Inactive);
        }
    }

    /// Records the start of a deactivation; refused when the ID is unknown.
    pub fn begin_deactivate(&mut self, id: &PackageId) -> (r: Result<(), PackageDatabaseError>)
        requires
            old(self).wf(),
        ensures
            final(self).wf(),
            r is Ok <==> has_id(old(self)@, id@),
            r is Ok ==> final(self)@ == spec_set_activation(old(self)@, id@, ActivationState::IncompleteDeactivation),
            r is Err ==> final(self)@ == old(self)@ && r == Err::<(), _>(PackageDatabaseError::NotFound),
    {
        self.set_activation(id, ActivationState::IncompleteDeactivation)
    }

    /// Records that a deactivation finished.
    pub fn complete_deactivate(&mut self, id: &PackageId)
        requires
            old(self).wf(),
            has_id(old(self)@, id@),
        ensures
            final(self).wf(),
            final(self)@ == spec_set_activation(old(self)@, id@, ActivationState::Inactive),
    {
        let _ = self.set_activation(id, ActivationState::Inactive);
    }
}


/// An install that starts on a package the database does not know and is
/// cancelled with nothing left behind leaves the database as it was.
pub proof fn law_cancelled_install_leaves_no_trace(s: Seq<EntryView>, id: PackageIdView)
    requires
        db_wf(s),
        !has_id(s, id),
    ensures
        spec_cancel_install(spec_begin_install(s, id), id, false) == s,
{
    let t = spec_begin_install(s, id);
    assert(t[s.len() as int].id == id);
    assert forall|j: int| 0 <= j < s.len() implies t[j].id != id by {
        if s[j].id == id {
            assert(has_id(s, id));
        }
    }
    assert(ids_unique(t)) by {
        assert forall|a: int, b: int| 0 <= a < t.len() && 0 <= b < t.len() && a != b implies #[trigger] t[a].id != #[trigger] t[b].id by {
            if a == s.len() {
                assert(t[b].id != id);
            } else if b == s.len() {
                assert(t[a].id != id);
            }
        }
    }
    lemma_index_of_unique(t, id, s.len() as int);
    assert(t.remove(s.len() as int) =~= s);
}

/// An activation that starts on an inactive, installed package and is
/// cancelled with nothing left registered leaves the database as it was.
pub proof fn law_cancelled_activation_restores(s: Seq<EntryView>, id: PackageIdView)
    requires
        db_wf(s),
        has_id(s, id),
        entry_of(s, id)->0.activation == ActivationState::Inactive,
    ensures
        spec_set_activation(
            spec_set_activation(s, id, ActivationState::IncompleteActivation),
            id,
            ActivationState::Inactive,
        ) == s,
{
    let i = index_of(s, id)->0;
    let t = spec_set_activation(s, id, ActivationState::IncompleteActivation);
    lemma_with_states_wf(s, i, s[i].installation, ActivationState::IncompleteActivation);
    lemma_index_of_unique(t, id, i);
    assert(with_states(t, i, t[i].installation, ActivationState::Inactive) =~= s);
}

/// After an install starts and completes, the package is installed and
/// inactive with the recorded fonts, and every other entry is unchanged.
pub proof fn law_completed_install_is_installed_inactive(
    s: Seq<EntryView>,
    id: PackageIdView,
    fonts: Seq<Seq<char>>,
    other: PackageIdView,
)
    requires
        db_wf(s),
        valid_package_id(id),
        other != id,
    ensures
        entry_of(spec_complete_install(spec_begin_install(s, id), id, fonts), id) == Some(
            EntryView {
                id,
                installation: InstallationState::Installed,
                activation: ActivationState::Inactive,
                fonts,
            },
        ),
        entry_of(spec_complete_install(spec_begin_install(s, id), id, fonts), other) == entry_of(
            s,
            other,
        ),
{
    let t = spec_begin_install(s, id);
    let i = match index_of(s, id) {
        Some(i) => i,
        None => s.len() as int,
    };
    if index_of(s, id) is None {
        assert forall|j: int| 0 <= j < s.len() implies s[j].id != id by {
            if s[j].id == id {
                assert(has_id(s, id));
            }
        }
    }
    assert(t.len() == if index_of(s, id) is None { s.len() + 1 } else { s.len() + 0 });
    assert forall|j: int| 0 <= j < t.len() && j != i implies #[trigger] t[j] == s[j] by {}
    assert(t[i].id == id);
    assert(ids_unique(t)) by {
        assert forall|a: int, b: int| 0 <= a < t.len() && 0 <= b < t.len() && a != b implies #[trigger] t[a].id != #[trigger] t[b].id by {
            if a == i {
                assert(t[b] == s[b]);
                if s[b].id == id {
                    lemma_index_of_unique(s, id, b);
                }
            } else if b == i {
                assert(t[a] == s[a]);
                if s[a].id == id {
                    lemma_index_of_unique(s, id, a);
                }
            } else {
                assert(t[a] == s[a] && t[b] == s[b]);
            }
        }
    }
    lemma_index_of_unique(t, id, i);
    let u = spec_complete_install(t, id, fonts);
    assert(u[i].id == id);
    assert forall|j: int| 0 <= j < u.len() && j != i implies #[trigger] u[j] == s[j] by {}
    assert(ids_unique(u)) by {
        assert forall|a: int, b: int| 0 <= a < u.len() && 0 <= b < u.len() && a != b implies #[trigger] u[a].id != #[trigger] u[b].id by {
            assert(u[a].id == t[a].id && u[b].id == t[b].id);
        }
    }
    lemma_index_of_unique(u, id, i);
    if has_id(s, other) {
        let k = index_of(s, other)->0;
        assert(s[k].id == other);
        assert(k != i) by {
            if k == i {
                assert(t[i].id == id);
            }
        }
        lemma_index_of_unique(u, other, k);
    } else {
        if has_id(u, other) {
            let k = index_of(u, other)->0;
            assert(u[k].id == other);
            assert(k != i);
            assert(s[k].id == other);
            assert(has_id(s, other));
        }
    }
}

/// A completed uninstall drops exactly the package's entry and keeps the
/// others in their order.
pub proof fn law_uninstall_removes_only_that_entry(s: Seq<EntryView>, id: PackageIdView)
    requires
        db_wf(s),
        has_id(s, id),
    ensures
        !has_id(spec_remove(spec_set_installation(s, id, InstallationState::IncompleteUninstall), id), id),
        spec_remove(spec_set_installation(s, id, InstallationState::IncompleteUninstall), id) == s.remove(index_of(s, id)->0),
{
    let i = index_of(s, id)->0;
    let t = spec_set_installation(s, id, InstallationState::IncompleteUninstall);
    lemma_with_states_wf(s, i, InstallationState::IncompleteUninstall, s[i].activation);
    lemma_index_of_unique(t, id, i);
    let u = t.remove(i);
    assert(u =~= s.remove(i));
    if has_id(u, id) {
        let k = index_of(u, id)->0;
        let k2 = if k < i { k } else { k + 1 };
        assert(u[k] == s[k2]);
        assert(k2 != i);
    }
}

} // verus!
