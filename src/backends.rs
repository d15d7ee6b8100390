//! Per-backend typed data: install options, query information, and the
//! options of modification and removal.
use vstd::prelude::*;
use crate::backend::AnyBackend;

verus! {

/// The Arch backend (pacman and its compatible front-ends).
#[derive(Debug, Clone, Copy, PartialEq, Eq, Structural)]
pub struct Arch;

/// The Debian backend (apt).
#[derive(Debug, Clone, Copy, PartialEq, Eq, Structural)]
pub struct Apt;

/// The Rust crate backend (cargo install).
#[derive(Debug, Clone, Copy, PartialEq, Eq, Structural)]
pub struct Cargo;

/// The Fedora backend (dnf).
#[derive(Debug, Clone, Copy, PartialEq, Eq, Structural)]
pub struct Dnf;

/// The flatpak application backend.
#[derive(Debug, Clone, Copy, PartialEq, Eq, Structural)]
pub struct Flatpak;

/// The pipx Python application backend.
#[derive(Debug, Clone, Copy, PartialEq, Eq, Structural)]
pub struct Pipx;

/// The rustup toolchain backend.
#[derive(Debug, Clone, Copy, PartialEq, Eq, Structural)]
pub struct Rustup;

/// The Void Linux backend (xbps).
#[derive(Debug, Clone, Copy, PartialEq, Eq, Structural)]
pub struct Xbps;

/// The `package` field of a structured declaration.
#[derive(Debug, Clone)]
pub struct StringPackageStruct {
    pub package: String,
}

/// What the Arch backend reports of an installed package.
#[derive(Debug, Clone, Copy, PartialEq, Eq, Structural)]
pub struct ArchQueryInfo {
    /// Installed on request rather than as a dependency.
    pub explicit: bool,
}

/// Install options of the Arch backend.
#[derive(Debug, Clone)]
pub struct ArchInstallOptions {
    /// Optional dependencies to install alongside.
    pub optional_deps: Vec<String>,
}

/// Reclassification of an installed Arch package.
#[derive(Debug, Clone, Copy, PartialEq, Eq, Structural)]
pub struct ArchModification {
    /// Mark the package as installed only as a dependency.
    pub make_implicit: bool,
}

/// Removal options of the Arch backend.
#[derive(Debug, Clone, Copy, PartialEq, Eq, Structural)]
pub struct ArchRemoveOptions {}

/// What apt reports of an installed package (only manually installed ones are listed).
#[derive(Debug, Clone, Copy, PartialEq, Eq, Structural)]
pub struct AptQueryInfo {}

/// Install options of apt.
#[derive(Debug, Clone, Copy, PartialEq, Eq, Structural)]
pub struct AptInstallOptions {}

/// What cargo records of an installed crate.
#[derive(Debug, Clone)]
pub struct CargoQueryInfo {
    pub version: String,
    pub git: Option<String>,
    pub all_features: bool,
    pub no_default_features: bool,
    pub features: Vec<String>,
}

/// Install options of cargo.
#[derive(Debug, Clone)]
pub struct CargoInstallOptions {
    /// Install from this git repository instead of the registry.
    pub git: Option<String>,
    pub all_features: bool,
    pub no_default_features: bool,
    pub features: Vec<String>,
}

/// Reclassification of an installed crate (cargo has none).
#[derive(Debug, Clone, Copy, PartialEq, Eq, Structural)]
pub struct CargoModificationOptions {}

/// Removal options of cargo.
#[derive(Debug, Clone, Copy, PartialEq, Eq, Structural)]
pub struct CargoRemoveOptions {}

/// What dnf reports of an installed package.
#[derive(Debug, Clone, Copy, PartialEq, Eq, Structural)]
pub struct DnfQueryInfo {
    /// Installed on the user's request.
    pub user: bool,
}

/// Install options of dnf.
#[derive(Debug, Clone)]
pub struct DnfInstallOptions {
    /// Install from this repository.
    pub repo: Option<String>,
}

/// What flatpak reports of an installed application.
#[derive(Debug, Clone, Copy, PartialEq, Eq, Structural)]
pub struct FlatpakQueryInfo {
    /// Installed for the whole system rather than for the user.
    pub systemwide: bool,
}

/// Install options of flatpak.
#[derive(Debug, Clone, Copy, PartialEq, Eq, Structural)]
pub struct FlatpakInstallOptions {}

/// What pipx reports of an installed application.
#[derive(Debug, Clone, Copy, PartialEq, Eq, Structural)]
pub struct PipxQueryOptions {}

/// Install options of pipx.
#[derive(Debug, Clone, Copy, PartialEq, Eq, Structural)]
pub struct PipxInstallOptions {}

/// Reclassification of a pipx application (pipx has none).
#[derive(Debug, Clone, Copy, PartialEq, Eq, Structural)]
pub struct PipxModificationOptions {}

/// Removal options of pipx.
#[derive(Debug, Clone, Copy, PartialEq, Eq, Structural)]
pub struct PipxRemoveOptions {}

/// What rustup reports of an installed toolchain.
#[derive(Debug, Clone)]
pub struct RustupQueryInfo {
    /// The components installed for the toolchain.
    pub components: Vec<String>,
}

/// Install options of rustup.
#[derive(Debug, Clone)]
pub struct RustupInstallOptions {
    /// Components to install for the toolchain.
    pub components: Vec<String>,
}

/// What xbps reports of an installed package.
#[derive(Debug, Clone, Copy, PartialEq, Eq, Structural)]
pub struct XbpsQueryInfo {}

/// Install options of xbps.
#[derive(Debug, Clone, Copy, PartialEq, Eq, Structural)]
pub struct XbpsInstallOptions {}

/// Reclassification of an installed xbps package.
#[derive(Debug, Clone, Copy, PartialEq, Eq, Structural)]
pub struct XbpsModificationOptions {
    /// Mark the package as installed automatically.
    pub make_implicit: bool,
}

/// Removal options of xbps.
#[derive(Debug, Clone, Copy, PartialEq, Eq, Structural)]
pub struct XbpsRemoveOptions {}

/// Why a package is installed, as far as its backend can tell.
#[derive(Debug, Clone, Copy, PartialEq, Eq, Structural)]
pub enum InstallReason {
    Explicit,
    Dependency,
    /// The backend cannot tell; treated as explicit.
    Unknown,
}

impl InstallReason {
    /// Whether the package counts as explicitly installed: unknown counts as explicit.
    pub open spec fn spec_counts_as_explicit(self) -> bool {
        self != InstallReason::Dependency
    }
}

/// Query information of any backend.
#[derive(Debug, Clone)]
pub enum AnyQueryInfo {
    Arch(ArchQueryInfo),
    Apt(AptQueryInfo),
    Cargo(CargoQueryInfo),
    Dnf(DnfQueryInfo),
    Flatpak(FlatpakQueryInfo),
    Pipx(PipxQueryOptions),
    Rustup(RustupQueryInfo),
    Xbps(XbpsQueryInfo),
}

impl AnyQueryInfo {
    /// What the information says of explicit installation.
    pub open spec fn spec_reason(&self) -> InstallReason {
        match self {
            AnyQueryInfo::Arch(i) => if i.explicit { InstallReason::Explicit } else { InstallReason::Dependency },
            AnyQueryInfo::Dnf(i) => if i.user { InstallReason::Explicit } else { InstallReason::Dependency },
            _ => InstallReason::Unknown,
        }
    }

    /// What the information says of explicit installation.
    pub fn reason(&self) -> (r: InstallReason)
        ensures
            r == self.spec_reason(),
    {
        match self {
            AnyQueryInfo::Arch(i) => if i.explicit { InstallReason::Explicit } else { InstallReason::Dependency },
            AnyQueryInfo::Dnf(i) => if i.user { InstallReason::Explicit } else { InstallReason::Dependency },
            _ => InstallReason::Unknown,
        }
    }
}

/// The model of a backend's install options.
pub enum InstallOptionsView {
    Arch { optional_deps: Seq<Seq<char>> },
    Cargo { git: Option<Seq<char>>, all_features: bool, no_default_features: bool, features: Seq<Seq<char>> },
    Dnf { repo: Option<Seq<char>> },
    Rustup { components: Seq<Seq<char>> },
    /// A backend without install options.
    Plain(AnyBackend),
}

pub open spec fn strings_view(v: Seq<String>) -> Seq<Seq<char>> {
    v.map_values(|s: String| s@)
}

pub open spec fn opt_string_view(o: Option<String>) -> Option<Seq<char>> {
    match o {
        Some(s) => Some(s@),
        None => None,
    }
}

/// The options a backend uses when a declaration names none.
pub open spec fn default_options(backend: AnyBackend) -> InstallOptionsView {
    match backend {
        AnyBackend::Arch => InstallOptionsView::Arch { optional_deps: Seq::empty() },
        AnyBackend::Cargo => InstallOptionsView::Cargo {
            git: None,
            all_features: false,
            no_default_features: false,
            features: Seq::empty(),
        },
        AnyBackend::Dnf => InstallOptionsView::Dnf { repo: None },
        AnyBackend::Rustup => InstallOptionsView::Rustup { components: Seq::empty() },
        _ => InstallOptionsView::Plain(backend),
    }
}

/// Install options of any backend.
#[derive(Debug, Clone)]
pub enum AnyInstallOptions {
    Arch(ArchInstallOptions),
    Apt(AptInstallOptions),
    Cargo(CargoInstallOptions),
    Dnf(DnfInstallOptions),
    Flatpak(FlatpakInstallOptions),
    Pipx(PipxInstallOptions),
    Rustup(RustupInstallOptions),
    Xbps(XbpsInstallOptions),
}

impl View for AnyInstallOptions {
    type V = InstallOptionsView;

    open spec fn view(&self) -> InstallOptionsView {
        match self {
            AnyInstallOptions::Arch(o) => InstallOptionsView::Arch { optional_deps: strings_view(o.optional_deps@) },
            AnyInstallOptions::Apt(_) => InstallOptionsView::Plain(AnyBackend::Apt),
            AnyInstallOptions::Cargo(o) => InstallOptionsView::Cargo {
                git: opt_string_view(o.git),
                all_features: o.all_features,
                no_default_features: o.no_default_features,
                features: strings_view(o.features@),
            },
            AnyInstallOptions::Dnf(o) => InstallOptionsView::Dnf { repo: opt_string_view(o.repo) },
            AnyInstallOptions::Flatpak(_) => InstallOptionsView::Plain(AnyBackend::Flatpak),
            AnyInstallOptions::Pipx(_) => InstallOptionsView::Plain(AnyBackend::Pipx),
            AnyInstallOptions::Rustup(o) => InstallOptionsView::Rustup { components: strings_view(o.components@) },
            AnyInstallOptions::Xbps(_) => InstallOptionsView::Plain(AnyBackend::Xbps),
        }
    }
}

impl AnyInstallOptions {
    /// The backend these options belong to.
    pub open spec fn spec_backend(&self) -> AnyBackend {
        match self {
            AnyInstallOptions::Arch(_) => AnyBackend::Arch,
            AnyInstallOptions::Apt(_) => AnyBackend::Apt,
            AnyInstallOptions::Cargo(_) => AnyBackend::Cargo,
            AnyInstallOptions::Dnf(_) => AnyBackend::Dnf,
            AnyInstallOptions::Flatpak(_) => AnyBackend::Flatpak,
            AnyInstallOptions::Pipx(_) => AnyBackend::Pipx,
            AnyInstallOptions::Rustup(_) => AnyBackend::Rustup,
            AnyInstallOptions::Xbps(_) => AnyBackend::Xbps,
        }
    }

    /// The options of `backend` for a declaration that names none.
    pub fn default_for(backend: AnyBackend) -> (r: AnyInstallOptions)
        ensures
            r@ == default_options(backend),
            r.spec_backend() == backend,
    {
        let r = match backend {
            AnyBackend::Arch => AnyInstallOptions::Arch(ArchInstallOptions { optional_deps: Vec::new() }),
            AnyBackend::Apt => AnyInstallOptions::Apt(AptInstallOptions {}),
            AnyBackend::Cargo => AnyInstallOptions::Cargo(CargoInstallOptions {
                git: None,
                all_features: false,
                no_default_features: false,
                features: Vec::new(),
            }),
            AnyBackend::Dnf => AnyInstallOptions::Dnf(DnfInstallOptions { repo: None }),
            AnyBackend::Flatpak => AnyInstallOptions::Flatpak(FlatpakInstallOptions {}),
            AnyBackend::Pipx => AnyInstallOptions::Pipx(PipxInstallOptions {}),
            AnyBackend::Rustup => AnyInstallOptions::Rustup(RustupInstallOptions { components: Vec::new() }),
            AnyBackend::Xbps => AnyInstallOptions::Xbps(XbpsInstallOptions {}),
        };
        assert(strings_view(Seq::<String>::empty()) =~= Seq::<Seq<char>>::empty());
        r
    }
}

} // verus!
