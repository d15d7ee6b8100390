//! Installed state: what every backend reports, with the reason each package is
//! installed for.
use vstd::prelude::*;
use crate::backend::AnyBackend;
use crate::backends::{AnyQueryInfo, InstallReason};
use crate::config::{Config, enabled_in, is_enabled};
use crate::ids::{IdView, PackageIds};
use crate::text::str_eq;

verus! {

/// The identifiers among `s`.
pub open spec fn query_ids(s: Seq<(AnyBackend, String, AnyQueryInfo)>) -> Set<IdView> {
    Set::new(|p: IdView| exists|i: int| 0 <= i < s.len() && s[i].0 == p.0 && #[trigger] s[i].1@ == p.1)
}

/// The identifiers among `s` whose information counts as explicit.
pub open spec fn query_explicit_ids(s: Seq<(AnyBackend, String, AnyQueryInfo)>) -> Set<IdView> {
    Set::new(|p: IdView| exists|i: int| 0 <= i < s.len() && s[i].0 == p.0 && #[trigger] s[i].1@ == p.1
        && s[i].2.spec_reason().spec_counts_as_explicit())
}

proof fn lemma_query_push(s: Seq<(AnyBackend, String, AnyQueryInfo)>, e: (AnyBackend, String, AnyQueryInfo))
    ensures
        query_ids(s.push(e)) == query_ids(s).insert((e.0, e.1@)),
        query_explicit_ids(s.push(e)) == (if e.2.spec_reason().spec_counts_as_explicit() {
            query_explicit_ids(s).insert((e.0, e.1@))
        } else {
            query_explicit_ids(s)
        }),
{
    let t = s.push(e);
    assert forall|i: int| 0 <= i < s.len() implies t[i] == s[i] by {}
    assert(t[s.len() as int] == e);
    assert(query_ids(t) =~= query_ids(s).insert((e.0, e.1@)));
    if e.2.spec_reason().spec_counts_as_explicit() {
        assert(query_explicit_ids(t) =~= query_explicit_ids(s).insert((e.0, e.1@)));
    } else {
        assert(query_explicit_ids(t) =~= query_explicit_ids(s));
    }
}

/// The names a report lists.
pub open spec fn report_names(report: Seq<(String, AnyQueryInfo)>) -> Set<Seq<char>> {
    Set::new(|id: Seq<char>| exists|i: int| 0 <= i < report.len() && #[trigger] report[i].0@ == id)
}

/// The packages that recording `report` for `backend` on top of `known` adds as
/// explicitly installed: each newly recorded package whose first report counts
/// as explicit.
pub open spec fn report_explicit(backend: AnyBackend, known: Set<IdView>, report: Seq<(String, AnyQueryInfo)>) -> Set<IdView>
    decreases report.len(),
{
    if report.len() == 0 {
        Set::empty()
    } else {
        let prev = report.drop_last();
        let e = report.last();
        let fresh = !known.contains((backend, e.0@)) && !report_names(prev).contains(e.0@);
        if fresh && e.1.spec_reason().spec_counts_as_explicit() {
            report_explicit(backend, known, prev).insert((backend, e.0@))
        } else {
            report_explicit(backend, known, prev)
        }
    }
}

/// The installed packages of every backend, each with what its backend reports.
#[derive(Debug, Clone)]
pub struct PackagesQuery {
    entries: Vec<(AnyBackend, String, AnyQueryInfo)>,
}

impl PackagesQuery {
    /// Every installed package.
    pub closed spec fn spec_ids(&self) -> Set<IdView> {
        query_ids(self.entries@)
    }

    /// The installed packages that count as explicitly installed: those whose
    /// backend says so, and those whose backend cannot tell.
    pub closed spec fn spec_explicit_ids(&self) -> Set<IdView> {
        query_explicit_ids(self.entries@)
    }

    /// Nothing installed.
    pub fn new() -> (r: PackagesQuery)
        ensures
            r.spec_ids() == Set::<IdView>::empty(),
            r.spec_explicit_ids() == Set::<IdView>::empty(),
    {
        let r = PackagesQuery { entries: Vec::new() };
        assert(r.spec_ids() =~= Set::<IdView>::empty());
        assert(r.spec_explicit_ids() =~= Set::<IdView>::empty());
        r
    }

    /// Whether `package` of `backend` is recorded.
    pub fn contains(&self, backend: AnyBackend, package: &str) -> (r: bool)
        ensures
            r == self.spec_ids().contains((backend, package@)),
    {
        let mut k: usize = 0;
        while k < self.entries.len()
            invariant
                k <= self.entries@.len(),
                forall|j: int| 0 <= j < k ==> !(self.entries@[j].0 == backend && #[trigger] self.entries@[j].1@ == package@),
            decreases self.entries@.len() - k,
        {
            if self.entries[k].0 == backend && str_eq(self.entries[k].1.as_str(), package) {
                return true;
            }
            k = k + 1;
        }
        false
    }

    /// Records an installed package; a package already recorded keeps what was
    /// first reported of it. True iff it was not recorded before.
    pub fn insert(&mut self, backend: AnyBackend, package: String, info: AnyQueryInfo) -> (r: bool)
        ensures
            r == !old(self).spec_ids().contains((backend, package@)),
            final(self).spec_ids() == old(self).spec_ids().insert((backend, package@)),
            final(self).spec_explicit_ids() == (if r && info.spec_reason().spec_counts_as_explicit() {
                old(self).spec_explicit_ids().insert((backend, package@))
            } else {
                old(self).spec_explicit_ids()
            }),
    {
        if self.contains(backend, package.as_str()) {
            assert(old(self).spec_ids().insert((backend, package@)) =~= old(self).spec_ids());
            false
        } else {
            proof { lemma_query_push(self.entries@, (backend, package, info)); }
            self.entries.push((backend, package, info));
            true
        }
    }

    /// Records what one backend reports, unless `config` disables that backend.
    pub fn insert_report(&mut self, backend: AnyBackend, report: Vec<(String, AnyQueryInfo)>, config: &Config)
        ensures
            enabled_in(backend, config.disabled_backends@) ==> final(self).spec_ids()
                == old(self).spec_ids().union(Set::new(|p: IdView| p.0 == backend
                    && exists|i: int| 0 <= i < report@.len() && #[trigger] report@[i].0@ == p.1)),
            enabled_in(backend, config.disabled_backends@) ==> final(self).spec_explicit_ids()
                == old(self).spec_explicit_ids().union(report_explicit(backend, old(self).spec_ids(), report@)),
            !enabled_in(backend, config.disabled_backends@) ==> final(self).spec_ids() == old(self).spec_ids(),
            !enabled_in(backend, config.disabled_backends@) ==> final(self).spec_explicit_ids() == old(self).spec_explicit_ids(),
    {
        if !is_enabled(backend, config) {
            return;
        }
        let ghost start = self.spec_ids();
        let ghost start_explicit = self.spec_explicit_ids();
        let mut k: usize = 0;
        while k < report.len()
            invariant
                k <= report@.len(),
                self.spec_explicit_ids() == start_explicit.union(report_explicit(backend, start, report@.subrange(0, k as int))),
                self.spec_ids() == start.union(Set::new(|p: IdView| p.0 == backend
                    && exists|i: int| 0 <= i < k && #[trigger] report@[i].0@ == p.1)),
            decreases report@.len() - k,
        {
            let id = report[k].0.clone();
            let info = report[k].1.copy_info();
            let ghost before = self.spec_ids();
            let ghost before_explicit = self.spec_explicit_ids();
            let ghost prev = report@.subrange(0, k as int);
            let ghost next = report@.subrange(0, k + 1);
            assert(next.drop_last() =~= prev);
            assert(next.last() == report@[k as int]);
            assert(before.contains((backend, id@)) <==> (start.contains((backend, id@)) || report_names(prev).contains(id@))) by {
                if report_names(prev).contains(id@) {
                    let i = choose|i: int| 0 <= i < prev.len() && #[trigger] prev[i].0@ == id@;
                    assert(report@[i] == prev[i]);
                }
                if before.contains((backend, id@)) && !start.contains((backend, id@)) {
                    let i = choose|i: int| 0 <= i < k && #[trigger] report@[i].0@ == id@;
                    assert(prev[i] == report@[i]);
                }
            }
            self.insert(backend, id, info);
            assert(self.spec_explicit_ids() =~= start_explicit.union(report_explicit(backend, start, next)));
            assert(self.spec_ids() =~= start.union(Set::new(|p: IdView| p.0 == backend
                && exists|i: int| 0 <= i < k + 1 && #[trigger] report@[i].0@ == p.1))) by {
                assert forall|p: IdView| p.0 == backend && (exists|i: int| 0 <= i < k + 1 && #[trigger] report@[i].0@ == p.1)
                    implies self.spec_ids().contains(p) by {
                    let i = choose|i: int| 0 <= i < k + 1 && #[trigger] report@[i].0@ == p.1;
                    if i < k {
                        assert(before.contains(p));
                    }
                }
            }
            k = k + 1;
        }
        assert(report@.subrange(0, report@.len() as int) == report@);
    }

    /// The identifiers of every installed package.
    pub fn to_package_ids(&self) -> (r: PackageIds)
        ensures
            r@ == self.spec_ids(),
    {
        let mut r = PackageIds::new();
        let mut k: usize = 0;
        while k < self.entries.len()
            invariant
                k <= self.entries@.len(),
                r@ == query_ids(self.entries@.subrange(0, k as int)),
            decreases self.entries@.len() - k,
        {
            proof {
                assert(self.entries@.subrange(0, k + 1) =~= self.entries@.subrange(0, k as int).push(self.entries@[k as int]));
                lemma_query_push(self.entries@.subrange(0, k as int), self.entries@[k as int]);
            }
            let b = self.entries[k].0;
            let id = self.entries[k].1.clone();
            r.insert(b, id);
            k = k + 1;
        }
        assert(self.entries@.subrange(0, self.entries@.len() as int) == self.entries@);
        r
    }

    /// The identifiers of the packages that count as explicitly installed.
    pub fn explicit_package_ids(&self) -> (r: PackageIds)
        ensures
            r@ == self.spec_explicit_ids(),
    {
        let mut r = PackageIds::new();
        let mut k: usize = 0;
        while k < self.entries.len()
            invariant
                k <= self.entries@.len(),
                r@ == query_explicit_ids(self.entries@.subrange(0, k as int)),
            decreases self.entries@.len() - k,
        {
            proof {
                assert(self.entries@.subrange(0, k + 1) =~= self.entries@.subrange(0, k as int).push(self.entries@[k as int]));
                lemma_query_push(self.entries@.subrange(0, k as int), self.entries@[k as int]);
            }
            let b = self.entries[k].0;
            let id = self.entries[k].1.clone();
            let reason = self.entries[k].2.reason();
            if reason != InstallReason::Dependency {
                r.insert(b, id);
            }
            k = k + 1;
        }
        assert(self.entries@.subrange(0, self.entries@.len() as int) == self.entries@);
        r
    }
}

/// Installed packages that no active group declares and that count as
/// explicitly installed: the ones that can go without stranding a dependent.
pub fn unmanaged_explicit(desired: &PackageIds, installed: &PackagesQuery) -> (r: PackageIds)
    ensures
        r@ == installed.spec_explicit_ids().difference(desired@),
{
    installed.explicit_package_ids().difference(desired)
}

/// Installed packages that no active group declares.
pub fn unmanaged(desired: &PackageIds, installed: &PackagesQuery) -> (r: PackageIds)
    ensures
        r@ == installed.spec_ids().difference(desired@),
{
    installed.to_package_ids().difference(desired)
}

/// Declared packages that are not installed.
pub fn missing(desired: &PackageIds, installed: &PackagesQuery) -> (r: PackageIds)
    ensures
        r@ == desired@.difference(installed.spec_ids()),
{
    desired.difference(&installed.to_package_ids())
}

impl AnyQueryInfo {
    /// A copy that says the same of explicit installation.
    pub fn copy_info(&self) -> (r: AnyQueryInfo)
        ensures
            r.spec_reason() == self.spec_reason(),
    {
        match self {
            AnyQueryInfo::Arch(i) => AnyQueryInfo::Arch(*i),
            AnyQueryInfo::Apt(i) => AnyQueryInfo::Apt(*i),
            AnyQueryInfo::Cargo(i) => AnyQueryInfo::Cargo(crate::backends::CargoQueryInfo {
                version: i.version.clone(),
                git: match &i.git {
                    Some(g) => Some(g.clone()),
                    None => None,
                },
                all_features: i.all_features,
                no_default_features: i.no_default_features,
                features: crate::desired::clone_strings(&i.features),
            }),
            AnyQueryInfo::Dnf(i) => AnyQueryInfo::Dnf(*i),
            AnyQueryInfo::Flatpak(i) => AnyQueryInfo::Flatpak(*i),
            AnyQueryInfo::Pipx(i) => AnyQueryInfo::Pipx(*i),
            AnyQueryInfo::Rustup(i) => AnyQueryInfo::Rustup(crate::backends::RustupQueryInfo {
                components: crate::desired::clone_strings(&i.components),
            }),
            AnyQueryInfo::Xbps(i) => AnyQueryInfo::Xbps(*i),
        }
    }
}

} // verus!
