//! What a failed install or activation may have left behind, and the guards
//! that undo a half-finished step.
use vstd::prelude::*;

use crate::package::dirs::PackageDirs;
use crate::package::id::{PackageId, PackageIdView};

verus! {

/// Tracks whether a failed install or activation can be treated as cleanly
/// rolled back. When some step may have left registry or file-system state
/// behind, the database entry stays recoverable as an incomplete uninstall
/// or deactivation instead of being dropped.
///
/// One tracker serves a whole step: the guards and the cleanup code borrow it
/// mutably, so every part of the step reads and records into the same state.
/// Once cleanup is required it stays required.
#[derive(Debug)]
pub struct CleanupTracker {
    base_cleanup_failed: bool,
    rollback_cleanup_failed: bool,
    cleanup_requested: bool,
}

/// A call on a cleanup tracker that can change it: a request for cleanup,
/// or a cleanup runner whose closure failed or went through.
pub enum TrackerCall {
    Request,
    Cleanup { failed: bool },
}

/// Whether cleanup is required after a call, given whether it was before.
pub open spec fn required_after_call(before: bool, call: TrackerCall) -> bool {
    match call {
        TrackerCall::Request => true,
        TrackerCall::Cleanup { failed } => before || failed,
    }
}

/// Some call of the sequence requested cleanup or ran a cleanup that failed.
pub open spec fn cleanup_called_for(calls: Seq<TrackerCall>) -> bool {
    exists|i: int|
        0 <= i < calls.len() && match #[trigger] calls[i] {
            TrackerCall::Request => true,
            TrackerCall::Cleanup { failed } => failed,
        }
}

/// Over any sequence of calls on a fresh tracker, cleanup is required
/// exactly when some call requested it or ran a cleanup that failed, and
/// once required it stays required: `states[i]` is what `cleanup_required`
/// answers after the first `i` calls.
pub proof fn law_cleanup_required_tracks_the_calls(states: Seq<bool>, calls: Seq<TrackerCall>, i: int, j: int)
    requires
        states.len() == calls.len() + 1,
        !states[0],
        forall|k: int| 0 <= k < calls.len() ==> states[k + 1] == required_after_call(states[k], #[trigger] calls[k]),
        0 <= i <= j < states.len(),
    ensures
        states[j] == cleanup_called_for(calls.take(j)),
        states[i] ==> states[j],
    decreases j,
{
    if j == 0 {
        assert(calls.take(0) =~= Seq::<TrackerCall>::empty());
    } else {
        let k = j - 1;
        law_cleanup_required_tracks_the_calls(states, calls, if i < j { i } else { k }, k);
        assert(states[k + 1] == required_after_call(states[k], calls[k]));
        let t = calls.take(j);
        assert(t[k] == calls[k]);
        if cleanup_called_for(calls.take(k)) {
            let m = choose|m: int| 0 <= m < calls.take(k).len() && match #[trigger] calls.take(k)[m] {
                TrackerCall::Request => true,
                TrackerCall::Cleanup { failed } => failed,
            };
            assert(t[m] == calls.take(k)[m]);
        }
        if cleanup_called_for(t) {
            let m = choose|m: int| 0 <= m < t.len() && match #[trigger] t[m] {
                TrackerCall::Request => true,
                TrackerCall::Cleanup { failed } => failed,
            };
            if m < k {
                assert(t[m] == calls.take(k)[m]);
            }
        }
    }
}

impl CleanupTracker {
    /// Whether cleanup was requested or some cleanup failed.
    pub closed spec fn required(&self) -> bool {
        self.base_cleanup_failed || self.rollback_cleanup_failed || self.cleanup_requested
    }

    /// A tracker for a step that has left nothing behind yet.
    pub fn new() -> (r: CleanupTracker)
        ensures
            !r.required(),
    {
        CleanupTracker { base_cleanup_failed: false, rollback_cleanup_failed: false, cleanup_requested: false }
    }

    /// Whether anything may have been left behind.
    pub fn cleanup_required(&self) -> (r: bool)
        ensures
            r == self.required(),
    {
        self.base_cleanup_failed || self.rollback_cleanup_failed || self.cleanup_requested
    }

    /// Records that cleanup is needed whatever else happens.
    pub fn request_cleanup(&mut self)
        ensures
            final(self).required() == required_after_call(old(self).required(), TrackerCall::Request),
    {
        self.cleanup_requested = true;
    }

    /// Runs the cleanup that precedes a step; its failure is recorded.
    pub fn do_base_cleanup<F, T, E>(&mut self, f: F) -> (r: Result<T, E>)
        where
            F: FnOnce() -> Result<T, E>,
        requires
            f.requires(()),
        ensures
            f.ensures((), r),
            final(self).required() == required_after_call(old(self).required(), TrackerCall::Cleanup { failed: r is Err }),
    {
        let res = f();
        if res.is_err() {
            self.base_cleanup_failed = true;
        }
        res
    }

    /// Runs the cleanup that rolls a failed step back; its failure is
    /// recorded.
    pub fn do_rollback_cleanup<F, T, E>(&mut self, f: F) -> (r: Result<T, E>)
        where
            F: FnOnce() -> Result<T, E>,
        requires
            f.requires(()),
        ensures
            f.ensures((), r),
            final(self).required() == required_after_call(old(self).required(), TrackerCall::Cleanup { failed: r is Err }),
    {
        let res = f();
        if res.is_err() {
            self.rollback_cleanup_failed = true;
        }
        res
    }
}

/// Undoes the creation of a package's directories unless disarmed: an
/// install that fails leaves no directories behind.
#[derive(Debug)]
pub struct PackageDirsGuard {
    armed: bool,
    pkg_dirs: PackageDirs,
}

impl PackageDirsGuard {
    pub closed spec fn is_armed(&self) -> bool {
        self.armed
    }

    pub closed spec fn dirs(&self) -> PackageDirs {
        self.pkg_dirs
    }

    /// A guard over newly created directories.
    pub fn new(pkg_dirs: PackageDirs) -> (r: PackageDirsGuard)
        ensures
            r.is_armed(),
            r.dirs() == pkg_dirs,
    {
        PackageDirsGuard { armed: true, pkg_dirs }
    }

    pub fn pkg_dirs(&self) -> (r: &PackageDirs)
        ensures
            *r == self.dirs(),
    {
        &self.pkg_dirs
    }

    /// Keeps the directories: the install went through.
    pub fn disarm(&mut self)
        ensures
            !final(self).is_armed(),
            final(self).dirs() == old(self).dirs(),
    {
        self.armed = false;
    }

    /// The directories to remove when the guard goes away.
    pub fn dirs_to_remove(&self) -> (r: Option<&PackageDirs>)
        ensures
            r is Some <==> self.is_armed(),
            r matches Some(d) ==> *d == self.dirs(),
    {
        if self.armed {
            Some(&self.pkg_dirs)
        } else {
            None
        }
    }
}

/// What a registration guard does when it goes away.
#[derive(Debug, Clone, Copy, PartialEq, Eq, Structural)]
pub enum RegistrationRelease {
    /// Disarmed: the activation went through.
    Keep,
    /// The registration did not finish: some registry state may remain.
    RequestCleanup,
    /// The registration finished but the activation failed: unregister.
    Unregister,
}

/// Undoes the registration of a package's fonts unless disarmed.
#[derive(Debug)]
pub struct RegistrationGuard {
    armed: bool,
    registered: bool,
    pkg_id: PackageId,
}

impl RegistrationGuard {
    pub closed spec fn is_armed(&self) -> bool {
        self.armed
    }

    pub closed spec fn is_registered(&self) -> bool {
        self.registered
    }

    pub closed spec fn guarded_id(&self) -> PackageIdView {
        self.pkg_id@
    }

    /// A guard set up before the registration starts.
    pub fn new(pkg_id: PackageId) -> (r: RegistrationGuard)
        ensures
            r.is_armed(),
            !r.is_registered(),
            r.guarded_id() == pkg_id@,
    {
        RegistrationGuard { armed: true, registered: false, pkg_id }
    }

    pub fn pkg_id(&self) -> (r: &PackageId)
        ensures
            r@ == self.guarded_id(),
    {
        &self.pkg_id
    }

    /// Records that the registration finished.
    pub fn mark_registered(&mut self)
        ensures
            final(self).is_registered(),
            final(self).is_armed() == old(self).is_armed(),
            final(self).guarded_id() == old(self).guarded_id(),
    {
        self.registered = true;
    }

    /// Keeps the registration: the activation went through.
    pub fn disarm(&mut self)
        ensures
            !final(self).is_armed(),
            final(self).is_registered() == old(self).is_registered(),
            final(self).guarded_id() == old(self).guarded_id(),
    {
        self.armed = false;
    }

    /// What to do when the guard goes away: nothing once disarmed; when
    /// the registration did not finish, ask for a cleanup, since it may have
    /// left registry state behind; else unregister the fonts.
    pub fn release(&self) -> (r: RegistrationRelease)
        ensures
            !self.is_armed() ==> r == RegistrationRelease::Keep,
            self.is_armed() && !self.is_registered() ==> r == RegistrationRelease::RequestCleanup,
            self.is_armed() && self.is_registered() ==> r == RegistrationRelease::Unregister,
    {
        if !self.armed {
            RegistrationRelease::Keep
        } else if !self.registered {
            RegistrationRelease::RequestCleanup
        } else {
            RegistrationRelease::Unregister
        }
    }
}

} // verus!
