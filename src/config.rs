//! User configuration, handed to every operation that needs it.
use vstd::prelude::*;
use crate::backend::{AnyBackend, backend_named};

verus! {

/// Whether a command must run with elevated privileges.
#[derive(Debug, Clone, Copy, PartialEq, Eq, Structural)]
pub enum Perms {
    /// Prefix the command with a privilege-elevation wrapper unless already root.
    AsRoot,
    /// Run the command as the current user; it elevates itself where needed.
    Same,
}

/// Which of the interchangeable front-ends to the Arch package database to invoke.
#[derive(Debug, Clone, Copy, PartialEq, Eq, Structural)]
pub enum ArchPackageManager {
    Pacman,
    Paru,
    Yay,
}

impl ArchPackageManager {
    pub open spec fn spec_command(self) -> Seq<char> {
        match self {
            ArchPackageManager::Pacman => "pacman"@,
            ArchPackageManager::Paru => "paru"@,
            ArchPackageManager::Yay => "yay"@,
        }
    }

    /// The executable of this front-end.
    pub fn as_command(&self) -> (r: &'static str)
        ensures
            r@ == self.spec_command(),
    {
        match self {
            ArchPackageManager::Pacman => "pacman",
            ArchPackageManager::Paru => "paru",
            ArchPackageManager::Yay => "yay",
        }
    }

    pub open spec fn spec_perms(self) -> Perms {
        match self {
            ArchPackageManager::Pacman => Perms::AsRoot,
            _ => Perms::Same,
        }
    }

    /// The privilege policy of this front-end: pacman must be run as root, the
    /// AUR helpers elevate themselves.
    pub fn change_perms(&self) -> (r: Perms)
        ensures
            r == self.spec_perms(),
    {
        match self {
            ArchPackageManager::Pacman => Perms::AsRoot,
            ArchPackageManager::Paru => Perms::Same,
            ArchPackageManager::Yay => Perms::Same,
        }
    }
}

impl Default for ArchPackageManager {
    fn default() -> (r: Self)
        ensures
            r == ArchPackageManager::Pacman,
    {
        ArchPackageManager::Pacman
    }
}

/// The user's configuration.
#[derive(Debug, Clone)]
pub struct Config {
    /// The front-end used for the Arch backend.
    pub arch_package_manager: ArchPackageManager,
    /// Extra arguments passed when the Arch backend removes packages.
    pub arch_rm_args: Vec<String>,
    /// Whether flatpak installs system-wide rather than per user.
    pub flatpak_systemwide: bool,
    /// Names of backends to leave alone, matched without regard to case.
    pub disabled_backends: Vec<String>,
    /// Whether the active groups are chosen by hostname.
    pub hostname_groups_enabled: bool,
    /// For each hostname, the names of its groups.
    pub hostname_groups: Vec<(String, Vec<String>)>,
}

impl Default for Config {
    fn default() -> (r: Self)
        ensures
            r.arch_package_manager == ArchPackageManager::Pacman,
            r.arch_rm_args@.len() == 0,
            r.flatpak_systemwide,
            r.disabled_backends@.len() == 0,
            !r.hostname_groups_enabled,
            r.hostname_groups@.len() == 0,
    {
        Config {
            arch_package_manager: ArchPackageManager::Pacman,
            arch_rm_args: Vec::new(),
            flatpak_systemwide: true,
            disabled_backends: Vec::new(),
            hostname_groups_enabled: false,
            hostname_groups: Vec::new(),
        }
    }
}

/// A backend is enabled unless one of the disabled names denotes it.
pub open spec fn enabled_in(backend: AnyBackend, disabled: Seq<String>) -> bool {
    !exists|i: int| 0 <= i < disabled.len() && backend_named(#[trigger] disabled[i]@) == Some(backend)
}

/// Whether `backend` is enabled under `config`.
pub fn is_enabled(backend: AnyBackend, config: &Config) -> (r: bool)
    ensures
        r == enabled_in(backend, config.disabled_backends@),
{
    let mut i: usize = 0;
    while i < config.disabled_backends.len()
        invariant
            i <= config.disabled_backends@.len(),
            forall|j: int| 0 <= j < i ==> backend_named(#[trigger] config.disabled_backends@[j]@) != Some(backend),
        decreases config.disabled_backends@.len() - i,
    {
        let named = AnyBackend::from_name(config.disabled_backends[i].as_str());
        if named == Some(backend) {
            assert(backend_named(config.disabled_backends@[i as int]@) == Some(backend));
            assert(!enabled_in(backend, config.disabled_backends@));
            return false;
        }
        i = i + 1;
    }
    true
}

} // verus!
