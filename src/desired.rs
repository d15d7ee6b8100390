//! Desired state: the packages to have, each with the options it was declared with.
use vstd::prelude::*;
use crate::backend::AnyBackend;
use crate::backends::{AnyInstallOptions, default_options, opt_string_view, strings_view};
use crate::groups::{DeclView, decl_view, decls_view, decl_ids};
use crate::ids::{IdView, PackageIds};
use crate::text::str_eq;

verus! {

fn strings_eq(a: &Vec<String>, b: &Vec<String>) -> (r: bool)
    ensures
        r == (strings_view(a@) == strings_view(b@)),
{
    if a.len() != b.len() {
        assert(strings_view(a@).len() != strings_view(b@).len());
        return false;
    }
    let mut i: usize = 0;
    while i < a.len()
        invariant
            a@.len() == b@.len(),
            i <= a@.len(),
            forall|j: int| 0 <= j < i ==> #[trigger] a@[j]@ == b@[j]@,
        decreases a@.len() - i,
    {
        if !str_eq(a[i].as_str(), b[i].as_str()) {
            assert(strings_view(a@)[i as int] != strings_view(b@)[i as int]);
            return false;
        }
        i = i + 1;
    }
    assert(strings_view(a@) =~= strings_view(b@));
    true
}

fn opt_eq(a: &Option<String>, b: &Option<String>) -> (r: bool)
    ensures
        r == (opt_string_view(*a) == opt_string_view(*b)),
{
    match (a, b) {
        (Some(x), Some(y)) => str_eq(x.as_str(), y.as_str()),
        (None, None) => true,
        _ => false,
    }
}

/// Whether two sets of install options are the same.
pub fn same_options(a: &AnyInstallOptions, b: &AnyInstallOptions) -> (r: bool)
    ensures
        r == (a@ == b@),
{
    match (a, b) {
        (AnyInstallOptions::Arch(x), AnyInstallOptions::Arch(y)) => strings_eq(&x.optional_deps, &y.optional_deps),
        (AnyInstallOptions::Cargo(x), AnyInstallOptions::Cargo(y)) => {
            opt_eq(&x.git, &y.git) && x.all_features == y.all_features
                && x.no_default_features == y.no_default_features && strings_eq(&x.features, &y.features)
        },
        (AnyInstallOptions::Dnf(x), AnyInstallOptions::Dnf(y)) => opt_eq(&x.repo, &y.repo),
        (AnyInstallOptions::Rustup(x), AnyInstallOptions::Rustup(y)) => strings_eq(&x.components, &y.components),
        (AnyInstallOptions::Apt(_), AnyInstallOptions::Apt(_)) => true,
        (AnyInstallOptions::Flatpak(_), AnyInstallOptions::Flatpak(_)) => true,
        (AnyInstallOptions::Pipx(_), AnyInstallOptions::Pipx(_)) => true,
        (AnyInstallOptions::Xbps(_), AnyInstallOptions::Xbps(_)) => true,
        _ => false,
    }
}

pub proof fn lemma_decls_push(s: Seq<(AnyBackend, String, AnyInstallOptions)>, e: (AnyBackend, String, AnyInstallOptions))
    ensures
        decl_ids(s.push(e)) == decl_ids(s).insert((e.0, e.1@)),
        decls_view(s.push(e)) == decls_view(s).push(decl_view(e)),
{
    let t = s.push(e);
    assert forall|i: int| 0 <= i < s.len() implies t[i] == s[i] by {}
    assert(t[s.len() as int] == e);
    assert(decl_ids(t) =~= decl_ids(s).insert((e.0, e.1@)));
    assert(decls_view(t) =~= decls_view(s).push(decl_view(e)));
}

/// The declarations of one backend, as identifier and options, in order.
pub open spec fn decls_for(s: Seq<DeclView>, backend: AnyBackend) -> Seq<(Seq<char>, crate::backends::InstallOptionsView)>
    decreases s.len(),
{
    if s.len() == 0 {
        Seq::empty()
    } else if s.last().0 == backend {
        decls_for(s.drop_last(), backend).push((s.last().1, s.last().2))
    } else {
        decls_for(s.drop_last(), backend)
    }
}

/// No identifier is declared twice.
pub open spec fn keys_unique(d: Seq<DeclView>) -> bool {
    forall|i: int, j: int| 0 <= i < j < d.len() ==> !(#[trigger] d[i].0 == #[trigger] d[j].0 && d[i].1 == d[j].1)
}

/// Packages to install, each with its options; a package appears once.
#[derive(Debug, Clone)]
pub struct PackagesInstall {
    entries: Vec<(AnyBackend, String, AnyInstallOptions)>,
}

impl PackagesInstall {
    /// The packages, without options.
    pub closed spec fn spec_ids(&self) -> Set<IdView> {
        decl_ids(self.entries@)
    }

    /// The packages with their options, in the order they were added.
    pub closed spec fn spec_decls(&self) -> Seq<DeclView> {
        decls_view(self.entries@)
    }

    /// Every declared package is among the identifiers.
    pub proof fn lemma_decl_keys_in_ids(&self)
        ensures
            forall|i: int| 0 <= i < self.spec_decls().len() ==> self.spec_ids().contains(
                (#[trigger] self.spec_decls()[i].0, self.spec_decls()[i].1)),
    {
        assert forall|i: int| 0 <= i < self.spec_decls().len() implies self.spec_ids().contains(
            (#[trigger] self.spec_decls()[i].0, self.spec_decls()[i].1)) by {
            assert(self.spec_decls()[i] == decl_view(self.entries@[i]));
        }
    }

    /// Nothing to install.
    pub fn new() -> (r: PackagesInstall)
        ensures
            r.spec_ids() == Set::<IdView>::empty(),
            r.spec_decls().len() == 0,
            keys_unique(r.spec_decls()),
    {
        let r = PackagesInstall { entries: Vec::new() };
        assert(r.spec_ids() =~= Set::<IdView>::empty());
        r
    }

    /// How many packages there are.
    pub fn len(&self) -> (r: usize)
        ensures
            r == self.spec_decls().len(),
    {
        self.entries.len()
    }

    /// The options `package` of `backend` was added with, if it was.
    pub fn options_of(&self, backend: AnyBackend, package: &str) -> (r: Option<&AnyInstallOptions>)
        ensures
            match r {
                Some(o) => exists|i: int| 0 <= i < self.spec_decls().len()
                    && #[trigger] self.spec_decls()[i] == (backend, package@, o@),
                None => !self.spec_ids().contains((backend, package@)),
            },
            r is Some <==> self.spec_ids().contains((backend, package@)),
    {
        let mut k: usize = 0;
        while k < self.entries.len()
            invariant
                k <= self.entries@.len(),
                forall|j: int| 0 <= j < k ==> !(self.entries@[j].0 == backend && #[trigger] self.entries@[j].1@ == package@),
            decreases self.entries@.len() - k,
        {
            if self.entries[k].0 == backend && str_eq(self.entries[k].1.as_str(), package) {
                assert(self.spec_decls()[k as int] == decl_view(self.entries@[k as int]));
                assert(self.spec_ids().contains((backend, package@)));
                return Some(&self.entries[k].2);
            }
            k = k + 1;
        }
        None
    }

    /// Adds `package` of `backend` with `options`, unless it is there already,
    /// in which case the options it has stay. True iff it was added.
    pub fn insert(&mut self, backend: AnyBackend, package: String, options: AnyInstallOptions) -> (r: bool)
        requires
            keys_unique(old(self).spec_decls()),
        ensures
            keys_unique(final(self).spec_decls()),
            r == !old(self).spec_ids().contains((backend, package@)),
            final(self).spec_ids() == old(self).spec_ids().insert((backend, package@)),
            final(self).spec_decls() == (if r {
                old(self).spec_decls().push((backend, package@, options@))
            } else {
                old(self).spec_decls()
            }),
    {
        match self.options_of(backend, package.as_str()) {
            Some(o) => {
                proof {
                    let i = choose|i: int| 0 <= i < self.spec_decls().len()
                        && #[trigger] self.spec_decls()[i] == (backend, package@, o@);
                    assert(decl_view(self.entries@[i]) == self.spec_decls()[i]);
                    assert(self.spec_ids().contains((backend, package@)));
                }
                assert(old(self).spec_ids().insert((backend, package@)) =~= old(self).spec_ids());
                false
            },
            None => {
                proof {
                    lemma_decls_push(self.entries@, (backend, package, options));
                    assert forall|i: int| 0 <= i < self.spec_decls().len() implies
                        !(self.spec_decls()[i].0 == backend && self.spec_decls()[i].1 == package@) by {
                        assert(self.spec_decls()[i] == decl_view(self.entries@[i]));
                        assert(decl_ids(self.entries@).contains((self.entries@[i].0, self.entries@[i].1@)));
                    }
                }
                self.entries.push((backend, package, options));
                true
            },
        }
    }

    /// The packages of one backend with their options, in order.
    pub fn backend_entries(&self, backend: AnyBackend) -> (r: Vec<(String, AnyInstallOptions)>)
        ensures
            crate::commands::entries_view(r@) == decls_for(self.spec_decls(), backend),
    {
        let mut r: Vec<(String, AnyInstallOptions)> = Vec::new();
        let mut k: usize = 0;
        while k < self.entries.len()
            invariant
                k <= self.entries@.len(),
                crate::commands::entries_view(r@) == decls_for(decls_view(self.entries@.subrange(0, k as int)), backend),
            decreases self.entries@.len() - k,
        {
            assert(decls_view(self.entries@.subrange(0, k + 1)).drop_last() =~= decls_view(self.entries@.subrange(0, k as int)));
            assert(decls_view(self.entries@.subrange(0, k + 1)).last() == decl_view(self.entries@[k as int]));
            if self.entries[k].0 == backend {
                let ghost before = r@;
                r.push((self.entries[k].1.clone(), self.entries[k].2.clone_options()));
                assert(crate::commands::entries_view(r@) =~= crate::commands::entries_view(before).push(
                    (self.entries@[k as int].1@, self.entries@[k as int].2@)));
            }
            k = k + 1;
        }
        assert(self.entries@.subrange(0, self.entries@.len() as int) == self.entries@);
        r
    }

    /// The packages, without options.
    pub fn to_package_ids(&self) -> (r: PackageIds)
        ensures
            r@ == self.spec_ids(),
    {
        let mut r = PackageIds::new();
        let mut k: usize = 0;
        while k < self.entries.len()
            invariant
                k <= self.entries@.len(),
                r@ == decl_ids(self.entries@.subrange(0, k as int)),
            decreases self.entries@.len() - k,
        {
            proof {
                assert(self.entries@.subrange(0, k + 1) =~= self.entries@.subrange(0, k as int).push(self.entries@[k as int]));
                lemma_decls_push(self.entries@.subrange(0, k as int), self.entries@[k as int]);
            }
            r.insert(self.entries[k].0, self.entries[k].1.clone());
            k = k + 1;
        }
        assert(self.entries@.subrange(0, self.entries@.len() as int) == self.entries@);
        r
    }

    /// The packages that `keep` lists, with the options they have here: for
    /// the missing packages, the install action.
    pub fn restrict(&self, keep: &PackageIds) -> (r: PackagesInstall)
        ensures
            r.spec_ids() == self.spec_ids().intersect(keep@),
            forall|i: int| 0 <= i < r.spec_decls().len() ==> self.spec_decls().contains(#[trigger] r.spec_decls()[i]),
            keys_unique(r.spec_decls()),
    {
        let mut r = PackagesInstall::new();
        let mut k: usize = 0;
        while k < self.entries.len()
            invariant
                k <= self.entries@.len(),
                r.spec_ids() == decl_ids(self.entries@.subrange(0, k as int)).intersect(keep@),
                forall|i: int| 0 <= i < r.spec_decls().len() ==> self.spec_decls().contains(#[trigger] r.spec_decls()[i]),
                keys_unique(r.spec_decls()),
            decreases self.entries@.len() - k,
        {
            proof {
                assert(self.entries@.subrange(0, k + 1) =~= self.entries@.subrange(0, k as int).push(self.entries@[k as int]));
                lemma_decls_push(self.entries@.subrange(0, k as int), self.entries@[k as int]);
            }
            let b = self.entries[k].0;
            if keep.contains(b, self.entries[k].1.as_str()) {
                let id = self.entries[k].1.clone();
                let o = self.entries[k].2.clone_options();
                assert(self.spec_decls()[k as int] == (b, id@, o@));
                r.insert(b, id, o);
            }
            assert(r.spec_ids() =~= decl_ids(self.entries@.subrange(0, k + 1)).intersect(keep@));
            k = k + 1;
        }
        assert(self.entries@.subrange(0, self.entries@.len() as int) == self.entries@);
        r
    }

    /// Every package of `ids`, with its backend's default options.
    pub fn from_packages_ids_defaults(ids: &PackageIds) -> (r: PackagesInstall)
        ensures
            r.spec_ids() == ids@,
            forall|i: int| 0 <= i < r.spec_decls().len() ==> (#[trigger] r.spec_decls()[i]).2
                == default_options(r.spec_decls()[i].0),
            keys_unique(r.spec_decls()),
    {
        let mut r = PackagesInstall::new();
        let backends = AnyBackend::all();
        let mut b: usize = 0;
        while b < backends.len()
            invariant
                b <= backends@.len(),
                backends@.len() == 8,
                forall|i: int| 0 <= i < 8 ==> (#[trigger] backends@[i]).spec_index() == i,
                r.spec_ids() == ids@.filter(|p: IdView| p.0.spec_index() < b),
                keys_unique(r.spec_decls()),
                forall|i: int| 0 <= i < r.spec_decls().len() ==> (#[trigger] r.spec_decls()[i]).2
                    == default_options(r.spec_decls()[i].0),
            decreases backends@.len() - b,
        {
            let backend = backends[b];
            let names = ids.backend_ids(backend);
            let ghost start = r.spec_ids();
            let mut k: usize = 0;
            while k < names.len()
                invariant
                    k <= names@.len(),
                    r.spec_ids() == start.union(Set::new(|p: IdView| p.0 == backend
                        && exists|j: int| 0 <= j < k && #[trigger] names@[j]@ == p.1)),
                    keys_unique(r.spec_decls()),
                    forall|i: int| 0 <= i < r.spec_decls().len() ==> (#[trigger] r.spec_decls()[i]).2
                        == default_options(r.spec_decls()[i].0),
                decreases names@.len() - k,
            {
                let ghost before = r.spec_ids();
                let id = names[k].clone();
                r.insert(backend, id, AnyInstallOptions::default_for(backend));
                assert(r.spec_ids() =~= start.union(Set::new(|p: IdView| p.0 == backend
                    && exists|j: int| 0 <= j < k + 1 && #[trigger] names@[j]@ == p.1))) by {
                    assert forall|p: IdView| p.0 == backend && (exists|j: int| 0 <= j < k + 1 && #[trigger] names@[j]@ == p.1)
                        implies r.spec_ids().contains(p) by {
                        let j = choose|j: int| 0 <= j < k + 1 && #[trigger] names@[j]@ == p.1;
                        if j < k {
                            assert(before.contains(p));
                        }
                    }
                }
                k = k + 1;
            }
            assert(r.spec_ids() =~= ids@.filter(|p: IdView| p.0.spec_index() < b + 1)) by {
                assert forall|p: IdView| ids@.filter(|p: IdView| p.0.spec_index() < b + 1).contains(p)
                    implies r.spec_ids().contains(p) by {
                    if p.0.spec_index() == b {
                        assert(p.0 == backend);
                        assert(crate::ids::ids_of(ids@, backend).contains(p.1));
                        assert(crate::ids::name_set(names@).contains(p.1));
                    }
                }
                assert forall|p: IdView| r.spec_ids().contains(p)
                    implies ids@.filter(|p: IdView| p.0.spec_index() < b + 1).contains(p) by {
                    if !start.contains(p) {
                        let j = choose|j: int| 0 <= j < names@.len() && #[trigger] names@[j]@ == p.1;
                        assert(crate::ids::name_set(names@).contains(p.1));
                        assert(crate::ids::ids_of(ids@, backend).contains(p.1));
                    }
                }
            }
            b = b + 1;
        }
        assert(r.spec_ids() =~= ids@);
        r
    }
}

impl AnyInstallOptions {
    /// A copy of these options.
    pub fn clone_options(&self) -> (r: AnyInstallOptions)
        ensures
            r@ == self@,
            r.spec_backend() == self.spec_backend(),
    {
        let r = match self {
            AnyInstallOptions::Arch(o) => AnyInstallOptions::Arch(crate::backends::ArchInstallOptions {
                optional_deps: clone_strings(&o.optional_deps),
            }),
            AnyInstallOptions::Apt(_) => AnyInstallOptions::Apt(crate::backends::AptInstallOptions {}),
            AnyInstallOptions::Cargo(o) => AnyInstallOptions::Cargo(crate::backends::CargoInstallOptions {
                git: match &o.git {
                    Some(g) => Some(g.clone()),
                    None => None,
                },
                all_features: o.all_features,
                no_default_features: o.no_default_features,
                features: clone_strings(&o.features),
            }),
            AnyInstallOptions::Dnf(o) => AnyInstallOptions::Dnf(crate::backends::DnfInstallOptions {
                repo: match &o.repo {
                    Some(g) => Some(g.clone()),
                    None => None,
                },
            }),
            AnyInstallOptions::Flatpak(_) => AnyInstallOptions::Flatpak(crate::backends::FlatpakInstallOptions {}),
            AnyInstallOptions::Pipx(_) => AnyInstallOptions::Pipx(crate::backends::PipxInstallOptions {}),
            AnyInstallOptions::Rustup(o) => AnyInstallOptions::Rustup(crate::backends::RustupInstallOptions {
                components: clone_strings(&o.components),
            }),
            AnyInstallOptions::Xbps(_) => AnyInstallOptions::Xbps(crate::backends::XbpsInstallOptions {}),
        };
        r
    }
}

/// A copy of a list of strings.
pub fn clone_strings(v: &Vec<String>) -> (r: Vec<String>)
    ensures
        r@.len() == v@.len(),
        forall|i: int| 0 <= i < v@.len() ==> #[trigger] r@[i]@ == v@[i]@,
        strings_view(r@) == strings_view(v@),
{
    let mut r: Vec<String> = Vec::new();
    let mut i: usize = 0;
    while i < v.len()
        invariant
            i <= v@.len(),
            r@.len() == i,
            forall|j: int| 0 <= j < i ==> #[trigger] r@[j]@ == v@[j]@,
        decreases v@.len() - i,
    {
        r.push(v[i].clone());
        i = i + 1;
    }
    assert(strings_view(r@) =~= strings_view(v@));
    r
}

} // verus!
