//! The command-line surface, as plain data.
use vstd::prelude::*;
use crate::backend::AnyBackend;

verus! {

/// The arguments of a run.
#[derive(Debug, Clone)]
pub struct MainArguments {
    /// Use this hostname instead of the machine's.
    pub hostname: Option<String>,
    /// Use this configuration directory instead of the default one.
    pub config_dir: Option<String>,
    pub subcommand: MainSubcommand,
}

/// What a run does.
#[derive(Debug, Clone)]
pub enum MainSubcommand {
    Clean(CleanPackage),
    Add(AddPackage),
    Review(ReviewPackage),
    Sync(SyncPackage),
    Unmanaged(UnmanagedPackage),
}

/// Remove unmanaged packages.
#[derive(Debug, Clone, Copy, PartialEq, Eq, Structural)]
pub struct CleanPackage {
    /// Do not ask for any confirmation.
    pub no_confirm: bool,
}

/// Add a package for a backend to a group file, creating the file if needed.
#[derive(Debug, Clone)]
pub struct AddPackage {
    pub backend: AnyBackend,
    pub package: String,
    pub group: String,
}

/// Review unmanaged packages.
#[derive(Debug, Clone, Copy, PartialEq, Eq, Structural)]
pub struct ReviewPackage {}

/// Install the missing packages.
#[derive(Debug, Clone, Copy, PartialEq, Eq, Structural)]
pub struct SyncPackage {
    /// Do not ask for any confirmation.
    pub no_confirm: bool,
}

/// Show the explicitly installed packages that no group declares.
#[derive(Debug, Clone, Copy, PartialEq, Eq, Structural)]
pub struct UnmanagedPackage {}

} // verus!
