use vstd::prelude::*;

verus! {

/// Where a package's installation stands in the database.
#[derive(Debug, Clone, Copy, PartialEq, Eq, Structural)]
pub enum InstallationState {
    Installed,
    IncompleteInstall,
    IncompleteUninstall,
}

/// Where a package's activation (its fonts' registration) stands.
#[derive(Debug, Clone, Copy, PartialEq, Eq, Structural)]
pub enum ActivationState {
    Active,
    Inactive,
    IncompleteActivation,
    IncompleteDeactivation,
}

pub open spec fn installation_state_name(s: InstallationState) -> Seq<char> {
    match s {
        InstallationState::Installed => "installed"@,
        InstallationState::IncompleteInstall => "incomplete-install"@,
        InstallationState::IncompleteUninstall => "incomplete-uninstall"@,
    }
}

pub open spec fn activation_state_name(s: ActivationState) -> Seq<char> {
    match s {
        ActivationState::Active => "active"@,
        ActivationState::Inactive => "inactive"@,
        ActivationState::IncompleteActivation => "incomplete-activation"@,
        ActivationState::IncompleteDeactivation => "incomplete-deactivation"@,
    }
}

impl InstallationState {
    pub fn is_installed(&self) -> (r: bool)
        ensures
            r == (*self == InstallationState::Installed),
    {
        match self {
            InstallationState::Installed => true,
            _ => false,
        }
    }

    /// The kebab-case name of the state.
    pub fn name(&self) -> (r: &'static str)
        ensures
            r@ == installation_state_name(*self),
    {
        match self {
            InstallationState::Installed => "installed",
            InstallationState::IncompleteInstall => "incomplete-install",
            InstallationState::IncompleteUninstall => "incomplete-uninstall",
        }
    }
}

impl ActivationState {
    pub fn is_active(&self) -> (r: bool)
        ensures
            r == (*self == ActivationState::Active),
    {
        match self {
            ActivationState::Active => true,
            _ => false,
        }
    }

    pub fn is_inactive(&self) -> (r: bool)
        ensures
            r == (*self == ActivationState::Inactive),
    {
        match self {
            ActivationState::Inactive => true,
            _ => false,
        }
    }

    /// The kebab-case name of the state.
    pub fn name(&self) -> (r: &'static str)
        ensures
            r@ == activation_state_name(*self),
    {
        match self {
            ActivationState::Active => "active",
            ActivationState::Inactive => "inactive",
            ActivationState::IncompleteActivation => "incomplete-activation",
            ActivationState::IncompleteDeactivation => "incomplete-deactivation",
        }
    }
}

} // verus!
