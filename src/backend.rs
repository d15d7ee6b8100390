//! The closed set of supported package managers, and how names resolve to them.
use vstd::prelude::*;
use crate::text::str_eq;

verus! {

/// How many backends there are.
pub const NUM_BACKENDS: usize = 8;

/// The package managers this library knows how to drive.
#[derive(Debug, Clone, Copy, PartialEq, Eq, Structural, PartialOrd, Ord, Hash)]
pub enum AnyBackend {
    Arch,
    Apt,
    Cargo,
    Dnf,
    Flatpak,
    Pipx,
    Rustup,
    Xbps,
}

/// The name of a string after Unicode lower-casing.
pub uninterp spec fn lower_of(s: Seq<char>) -> Seq<char>;

/// Relies on `str::to_lowercase`: the lower-case form of `s`, which depends on its
/// characters alone.
#[verifier::external_body]
fn lowercase(s: &str) -> (r: String)
    ensures
        r@ == lower_of(s@),
{
    s.to_lowercase()
}

/// The backend whose lower-case name is exactly `s`.
pub open spec fn backend_with_folded_name(s: Seq<char>) -> Option<AnyBackend> {
    if s == "arch"@ {
        Some(AnyBackend::Arch)
    } else if s == "apt"@ {
        Some(AnyBackend::Apt)
    } else if s == "cargo"@ {
        Some(AnyBackend::Cargo)
    } else if s == "dnf"@ {
        Some(AnyBackend::Dnf)
    } else if s == "flatpak"@ {
        Some(AnyBackend::Flatpak)
    } else if s == "pipx"@ {
        Some(AnyBackend::Pipx)
    } else if s == "rustup"@ {
        Some(AnyBackend::Rustup)
    } else if s == "xbps"@ {
        Some(AnyBackend::Xbps)
    } else {
        None
    }
}

/// The backend that a name denotes, compared without regard to case.
pub open spec fn backend_named(s: Seq<char>) -> Option<AnyBackend> {
    backend_with_folded_name(lower_of(s))
}

impl AnyBackend {
    /// The position of the backend in the fixed order of all backends.
    pub open spec fn spec_index(self) -> int {
        match self {
            AnyBackend::Arch => 0,
            AnyBackend::Apt => 1,
            AnyBackend::Cargo => 2,
            AnyBackend::Dnf => 3,
            AnyBackend::Flatpak => 4,
            AnyBackend::Pipx => 5,
            AnyBackend::Rustup => 6,
            AnyBackend::Xbps => 7,
        }
    }

    /// The backend at a position of the fixed order.
    pub open spec fn spec_at(i: int) -> AnyBackend {
        if i == 0 {
            AnyBackend::Arch
        } else if i == 1 {
            AnyBackend::Apt
        } else if i == 2 {
            AnyBackend::Cargo
        } else if i == 3 {
            AnyBackend::Dnf
        } else if i == 4 {
            AnyBackend::Flatpak
        } else if i == 5 {
            AnyBackend::Pipx
        } else if i == 6 {
            AnyBackend::Rustup
        } else {
            AnyBackend::Xbps
        }
    }

    /// The canonical (capitalised) name of the backend.
    pub open spec fn spec_name(self) -> Seq<char> {
        match self {
            AnyBackend::Arch => "Arch"@,
            AnyBackend::Apt => "Apt"@,
            AnyBackend::Cargo => "Cargo"@,
            AnyBackend::Dnf => "Dnf"@,
            AnyBackend::Flatpak => "Flatpak"@,
            AnyBackend::Pipx => "Pipx"@,
            AnyBackend::Rustup => "Rustup"@,
            AnyBackend::Xbps => "Xbps"@,
        }
    }

    /// The position of the backend in the fixed order of all backends.
    pub fn index(&self) -> (r: usize)
        ensures
            r == self.spec_index(),
            r < NUM_BACKENDS,
    {
        match self {
            AnyBackend::Arch => 0,
            AnyBackend::Apt => 1,
            AnyBackend::Cargo => 2,
            AnyBackend::Dnf => 3,
            AnyBackend::Flatpak => 4,
            AnyBackend::Pipx => 5,
            AnyBackend::Rustup => 6,
            AnyBackend::Xbps => 7,
        }
    }

    /// Every backend, once each, in the fixed order.
    pub fn all() -> (r: Vec<AnyBackend>)
        ensures
            r@.len() == NUM_BACKENDS,
            forall|i: int| 0 <= i < NUM_BACKENDS ==> #[trigger] r@[i] == AnyBackend::spec_at(i),
            forall|i: int| 0 <= i < NUM_BACKENDS ==> (#[trigger] r@[i]).spec_index() == i,
    {
        vec![
            AnyBackend::Arch,
            AnyBackend::Apt,
            AnyBackend::Cargo,
            AnyBackend::Dnf,
            AnyBackend::Flatpak,
            AnyBackend::Pipx,
            AnyBackend::Rustup,
            AnyBackend::Xbps,
        ]
    }

    /// The canonical (capitalised) name of the backend.
    pub fn name(&self) -> (r: String)
        ensures
            r@ == self.spec_name(),
    {
        let s: &str = match self {
            AnyBackend::Arch => "Arch",
            AnyBackend::Apt => "Apt",
            AnyBackend::Cargo => "Cargo",
            AnyBackend::Dnf => "Dnf",
            AnyBackend::Flatpak => "Flatpak",
            AnyBackend::Pipx => "Pipx",
            AnyBackend::Rustup => "Rustup",
            AnyBackend::Xbps => "Xbps",
        };
        s.to_owned()
    }

    /// The backend whose lower-case name is `folded`, if any.
    pub fn from_folded_name(folded: &str) -> (r: Option<AnyBackend>)
        ensures
            r == backend_with_folded_name(folded@),
    {
        if str_eq(folded, "arch") {
            Some(AnyBackend::Arch)
        } else if str_eq(folded, "apt") {
            Some(AnyBackend::Apt)
        } else if str_eq(folded, "cargo") {
            Some(AnyBackend::Cargo)
        } else if str_eq(folded, "dnf") {
            Some(AnyBackend::Dnf)
        } else if str_eq(folded, "flatpak") {
            Some(AnyBackend::Flatpak)
        } else if str_eq(folded, "pipx") {
            Some(AnyBackend::Pipx)
        } else if str_eq(folded, "rustup") {
            Some(AnyBackend::Rustup)
        } else if str_eq(folded, "xbps") {
            Some(AnyBackend::Xbps)
        } else {
            None
        }
    }

    /// The backend that `name` denotes, compared without regard to case.
    pub fn from_name(name: &str) -> (r: Option<AnyBackend>)
        ensures
            r == backend_named(name@),
    {
        let folded = lowercase(name);
        AnyBackend::from_folded_name(folded.as_str())
    }
}

} // verus!
