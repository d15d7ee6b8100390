//! Identifier-only package sets: for each backend, which packages.
use vstd::prelude::*;
use crate::backend::AnyBackend;
use crate::config::{Config, enabled_in, is_enabled};
use crate::text::str_eq;

verus! {

/// A package identifier together with the backend it belongs to.
pub type IdView = (AnyBackend, Seq<char>);

/// The identifiers that a list of entries holds.
pub open spec fn pairs_view(s: Seq<(AnyBackend, String)>) -> Set<IdView> {
    Set::new(|p: IdView| exists|i: int| 0 <= i < s.len() && s[i].0 == p.0 && #[trigger] s[i].1@ == p.1)
}

/// The identifiers that a list of names holds.
pub open spec fn name_set(s: Seq<String>) -> Set<Seq<char>> {
    Set::new(|id: Seq<char>| exists|i: int| 0 <= i < s.len() && #[trigger] s[i]@ == id)
}

pub proof fn lemma_name_set_push(s: Seq<String>, e: String)
    ensures
        name_set(s.push(e)) == name_set(s).insert(e@),
{
    let t = s.push(e);
    assert forall|id: Seq<char>| name_set(t).contains(id) implies name_set(s).insert(e@).contains(id) by {
        let i = choose|i: int| 0 <= i < t.len() && #[trigger] t[i]@ == id;
        if i < s.len() {
            assert(s[i] == t[i]);
        }
    }
    assert forall|id: Seq<char>| name_set(s).insert(e@).contains(id) implies name_set(t).contains(id) by {
        if id == e@ {
            assert(t[s.len() as int] == e);
        } else {
            let i = choose|i: int| 0 <= i < s.len() && #[trigger] s[i]@ == id;
            assert(t[i] == s[i]);
        }
    }
    assert(name_set(t) =~= name_set(s).insert(e@));
}

/// The identifiers that `s` holds for `backend`.
pub open spec fn ids_of(s: Set<IdView>, backend: AnyBackend) -> Set<Seq<char>> {
    Set::new(|id: Seq<char>| s.contains((backend, id)))
}

/// The part of `s` that belongs to enabled backends.
pub open spec fn enabled_part(s: Set<IdView>, disabled: Seq<String>) -> Set<IdView> {
    s.filter(|p: IdView| enabled_in(p.0, disabled))
}

/// Declared but not installed.
pub open spec fn spec_missing(desired: Set<IdView>, installed: Set<IdView>) -> Set<IdView> {
    desired.difference(installed)
}

/// Installed but not declared.
pub open spec fn spec_unmanaged(desired: Set<IdView>, installed: Set<IdView>) -> Set<IdView> {
    installed.difference(desired)
}

proof fn lemma_pairs_view_push(s: Seq<(AnyBackend, String)>, e: (AnyBackend, String))
    ensures
        pairs_view(s.push(e)) == pairs_view(s).insert((e.0, e.1@)),
{
    let t = s.push(e);
    assert forall|p: IdView| pairs_view(t).contains(p) implies pairs_view(s).insert((e.0, e.1@)).contains(p) by {
        let i = choose|i: int| 0 <= i < t.len() && t[i].0 == p.0 && #[trigger] t[i].1@ == p.1;
        if i < s.len() {
            assert(s[i] == t[i]);
        }
    }
    assert forall|p: IdView| pairs_view(s).insert((e.0, e.1@)).contains(p) implies pairs_view(t).contains(p) by {
        if p == (e.0, e.1@) {
            assert(t[s.len() as int] == e);
        } else {
            let i = choose|i: int| 0 <= i < s.len() && s[i].0 == p.0 && #[trigger] s[i].1@ == p.1;
            assert(t[i] == s[i]);
        }
    }
    assert(pairs_view(t) =~= pairs_view(s).insert((e.0, e.1@)));
}

proof fn lemma_pairs_view_prefix(s: Seq<(AnyBackend, String)>, k: int)
    requires
        0 <= k < s.len(),
    ensures
        pairs_view(s.subrange(0, k + 1)) == pairs_view(s.subrange(0, k)).insert((s[k].0, s[k].1@)),
{
    assert(s.subrange(0, k + 1) =~= s.subrange(0, k).push(s[k]));
    lemma_pairs_view_push(s.subrange(0, k), s[k]);
}

/// Packages per backend, without options.
#[derive(Debug, Clone)]
pub struct PackageIds {
    entries: Vec<(AnyBackend, String)>,
}

impl View for PackageIds {
    type V = Set<IdView>;

    closed spec fn view(&self) -> Set<IdView> {
        pairs_view(self.entries@)
    }
}

impl PackageIds {
    /// No packages at all.
    pub fn new() -> (r: PackageIds)
        ensures
            r@ == Set::<IdView>::empty(),
    {
        let r = PackageIds { entries: Vec::new() };
        assert(r@ =~= Set::<IdView>::empty());
        r
    }

    /// The identifiers of one backend.
    pub fn backend_ids(&self, backend: AnyBackend) -> (r: Vec<String>)
        ensures
            name_set(r@) == ids_of(self@, backend),
    {
        let mut r: Vec<String> = Vec::new();
        let mut k: usize = 0;
        while k < self.entries.len()
            invariant
                k <= self.entries@.len(),
                name_set(r@) == ids_of(pairs_view(self.entries@.subrange(0, k as int)), backend),
            decreases self.entries@.len() - k,
        {
            proof { lemma_pairs_view_prefix(self.entries@, k as int); }
            if self.entries[k].0 == backend {
                let id = self.entries[k].1.clone();
                proof { lemma_name_set_push(r@, id); }
                r.push(id);
            }
            assert(name_set(r@) =~= ids_of(pairs_view(self.entries@.subrange(0, k + 1)), backend));
            k = k + 1;
        }
        assert(self.entries@.subrange(0, self.entries@.len() as int) == self.entries@);
        r
    }

    /// Whether `package` is listed for `backend`.
    pub fn contains(&self, backend: AnyBackend, package: &str) -> (r: bool)
        ensures
            r == self@.contains((backend, package@)),
    {
        let mut k: usize = 0;
        while k < self.entries.len()
            invariant
                k <= self.entries@.len(),
                forall|j: int| 0 <= j < k ==> !(self.entries@[j].0 == backend && #[trigger] self.entries@[j].1@ == package@),
            decreases self.entries@.len() - k,
        {
            if self.entries[k].0 == backend && str_eq(self.entries[k].1.as_str(), package) {
                assert(self@.contains((backend, package@)));
                return true;
            }
            k = k + 1;
        }
        false
    }

    /// Adds `package` for `backend`; true iff it was not there before.
    pub fn insert(&mut self, backend: AnyBackend, package: String) -> (r: bool)
        ensures
            final(self)@ == old(self)@.insert((backend, package@)),
            r == !old(self)@.contains((backend, package@)),
    {
        if self.contains(backend, package.as_str()) {
            assert(old(self)@.insert((backend, package@)) =~= old(self)@);
            false
        } else {
            proof { lemma_pairs_view_push(self.entries@, (backend, package)); }
            self.entries.push((backend, package));
            true
        }
    }

    /// Removes `package` from `backend`; true iff it was there.
    pub fn remove(&mut self, backend: AnyBackend, package: &str) -> (r: bool)
        ensures
            final(self)@ == old(self)@.remove((backend, package@)),
            r == old(self)@.contains((backend, package@)),
    {
        let was = self.contains(backend, package);
        let mut kept: Vec<(AnyBackend, String)> = Vec::new();
        let mut k: usize = 0;
        while k < self.entries.len()
            invariant
                k <= self.entries@.len(),
                self.entries@ == old(self).entries@,
                pairs_view(kept@) == pairs_view(self.entries@.subrange(0, k as int)).remove((backend, package@)),
            decreases self.entries@.len() - k,
        {
            proof { lemma_pairs_view_prefix(self.entries@, k as int); }
            let e_backend = self.entries[k].0;
            let e_id = self.entries[k].1.clone();
            if e_backend == backend && str_eq(e_id.as_str(), package) {
                assert(pairs_view(kept@) =~= pairs_view(self.entries@.subrange(0, k + 1)).remove((backend, package@)));
            } else {
                proof { lemma_pairs_view_push(kept@, (e_backend, e_id)); }
                kept.push((e_backend, e_id));
                assert(pairs_view(kept@) =~= pairs_view(self.entries@.subrange(0, k + 1)).remove((backend, package@)));
            }
            k = k + 1;
        }
        assert(self.entries@.subrange(0, self.entries@.len() as int) == self.entries@);
        self.entries = kept;
        was
    }

    /// Whether no backend lists any package.
    pub fn is_empty(&self) -> (r: bool)
        ensures
            r == (self@ == Set::<IdView>::empty()),
    {
        if self.entries.len() == 0 {
            assert(self@ =~= Set::<IdView>::empty());
            true
        } else {
            assert(self@.contains((self.entries@[0].0, self.entries@[0].1@)));
            false
        }
    }

    /// Moves every package of `other` into `self`, leaving `other` empty.
    pub fn append(&mut self, other: &mut Self)
        ensures
            final(self)@ == old(self)@.union(old(other)@),
            final(other)@ == Set::<IdView>::empty(),
    {
        let mut taken: Vec<(AnyBackend, String)> = Vec::new();
        std::mem::swap(&mut taken, &mut other.entries);
        let ghost start = self@;
        let mut k: usize = 0;
        while k < taken.len()
            invariant
                k <= taken@.len(),
                taken@ == old(other).entries@,
                other.entries@.len() == 0,
                self@ == start.union(pairs_view(taken@.subrange(0, k as int))),
            decreases taken@.len() - k,
        {
            proof { lemma_pairs_view_prefix(taken@, k as int); }
            let b = taken[k].0;
            let id = taken[k].1.clone();
            self.insert(b, id);
            assert(self@ =~= start.union(pairs_view(taken@.subrange(0, k + 1))));
            k = k + 1;
        }
        assert(taken@.subrange(0, taken@.len() as int) == taken@);
        assert(other@ =~= Set::<IdView>::empty());
    }

    /// The packages of `self` that `other` does not list, backend by backend.
    pub fn difference(&self, other: &Self) -> (r: Self)
        ensures
            r@ == self@.difference(other@),
    {
        let mut r = PackageIds::new();
        let mut k: usize = 0;
        while k < self.entries.len()
            invariant
                k <= self.entries@.len(),
                r@ == pairs_view(self.entries@.subrange(0, k as int)).difference(other@),
            decreases self.entries@.len() - k,
        {
            proof { lemma_pairs_view_prefix(self.entries@, k as int); }
            let b = self.entries[k].0;
            let id = self.entries[k].1.clone();
            if !other.contains(b, id.as_str()) {
                r.insert(b, id);
            }
            assert(r@ =~= pairs_view(self.entries@.subrange(0, k + 1)).difference(other@));
            k = k + 1;
        }
        assert(self.entries@.subrange(0, self.entries@.len() as int) == self.entries@);
        r
    }

    /// The packages of the backends that `config` leaves enabled.
    pub fn only_enabled(&self, config: &Config) -> (r: Self)
        ensures
            r@ == enabled_part(self@, config.disabled_backends@),
    {
        let mut r = PackageIds::new();
        let mut k: usize = 0;
        while k < self.entries.len()
            invariant
                k <= self.entries@.len(),
                r@ == enabled_part(pairs_view(self.entries@.subrange(0, k as int)), config.disabled_backends@),
            decreases self.entries@.len() - k,
        {
            proof { lemma_pairs_view_prefix(self.entries@, k as int); }
            let b = self.entries[k].0;
            let id = self.entries[k].1.clone();
            if is_enabled(b, config) {
                r.insert(b, id);
            }
            assert(r@ =~= enabled_part(pairs_view(self.entries@.subrange(0, k + 1)), config.disabled_backends@));
            k = k + 1;
        }
        assert(self.entries@.subrange(0, self.entries@.len() as int) == self.entries@);
        r
    }

    /// The declared packages that are not installed.
    pub fn missing(desired: &PackageIds, installed: &PackageIds) -> (r: PackageIds)
        ensures
            r@ == spec_missing(desired@, installed@),
    {
        desired.difference(installed)
    }

    /// The installed packages that are not declared.
    pub fn unmanaged(desired: &PackageIds, installed: &PackageIds) -> (r: PackageIds)
        ensures
            r@ == spec_unmanaged(desired@, installed@),
    {
        installed.difference(desired)
    }
}

/// Packages to remove (no backend takes removal options).
#[derive(Debug, Clone)]
pub struct PackagesRemove {
    pub ids: PackageIds,
}

impl PackagesRemove {
    /// Removal of every package of `ids`.
    pub fn from_packages_ids_defaults(ids: &PackageIds) -> (r: PackagesRemove)
        ensures
            r.ids@ == ids@,
    {
        let r = PackagesRemove { ids: ids.difference(&PackageIds::new()) };
        assert(r.ids@ =~= ids@);
        r
    }
}

/// Missing is desired minus installed, unmanaged is installed minus desired, for
/// every backend, and no package is ever both missing and unmanaged.
pub proof fn law_missing_unmanaged_disjoint(desired: Set<IdView>, installed: Set<IdView>)
    ensures
        forall|b: AnyBackend| #[trigger] ids_of(spec_missing(desired, installed), b)
            == ids_of(desired, b).difference(ids_of(installed, b)),
        forall|b: AnyBackend| #[trigger] ids_of(spec_unmanaged(desired, installed), b)
            == ids_of(installed, b).difference(ids_of(desired, b)),
        spec_missing(desired, installed).intersect(spec_unmanaged(desired, installed))
            == Set::<IdView>::empty(),
{
    assert forall|b: AnyBackend| #[trigger] ids_of(spec_missing(desired, installed), b)
        == ids_of(desired, b).difference(ids_of(installed, b)) by {
        assert(ids_of(spec_missing(desired, installed), b) =~= ids_of(desired, b).difference(ids_of(installed, b)));
    }
    assert forall|b: AnyBackend| #[trigger] ids_of(spec_unmanaged(desired, installed), b)
        == ids_of(installed, b).difference(ids_of(desired, b)) by {
        assert(ids_of(spec_unmanaged(desired, installed), b) =~= ids_of(installed, b).difference(ids_of(desired, b)));
    }
    assert(spec_missing(desired, installed).intersect(spec_unmanaged(desired, installed))
        =~= Set::<IdView>::empty());
}

/// Once every missing package has been installed (and nothing installed went
/// away), nothing is missing any more.
pub proof fn law_sync_leaves_nothing_missing(desired: Set<IdView>, installed: Set<IdView>, after: Set<IdView>)
    requires
        installed.union(spec_missing(desired, installed)).subset_of(after),
    ensures
        spec_missing(desired, after) == Set::<IdView>::empty(),
{
    assert forall|p: IdView| desired.contains(p) implies after.contains(p) by {
        if !installed.contains(p) {
            assert(spec_missing(desired, installed).contains(p));
        }
        assert(installed.union(spec_missing(desired, installed)).contains(p));
    }
    assert(spec_missing(desired, after) =~= Set::<IdView>::empty());
}

/// Changing whether one backend is disabled changes nothing that any other
/// backend contributes: not its desired or installed packages, nor what is
/// missing or unmanaged for it.
pub proof fn law_disabled_backend_isolation(
    desired: Set<IdView>,
    installed: Set<IdView>,
    disabled_before: Seq<String>,
    disabled_after: Seq<String>,
    toggled: AnyBackend,
)
    requires
        forall|b: AnyBackend| b != toggled ==> enabled_in(b, disabled_before) == enabled_in(b, disabled_after),
    ensures
        forall|b: AnyBackend| b != toggled ==> #[trigger] ids_of(enabled_part(desired, disabled_before), b)
            == ids_of(enabled_part(desired, disabled_after), b),
        forall|b: AnyBackend| b != toggled ==> #[trigger] ids_of(enabled_part(installed, disabled_before), b)
            == ids_of(enabled_part(installed, disabled_after), b),
        forall|b: AnyBackend| b != toggled ==> #[trigger] ids_of(spec_missing(
            enabled_part(desired, disabled_before), enabled_part(installed, disabled_before)), b)
            == ids_of(spec_missing(enabled_part(desired, disabled_after), enabled_part(installed, disabled_after)), b),
        forall|b: AnyBackend| b != toggled ==> #[trigger] ids_of(spec_unmanaged(
            enabled_part(desired, disabled_before), enabled_part(installed, disabled_before)), b)
            == ids_of(spec_unmanaged(enabled_part(desired, disabled_after), enabled_part(installed, disabled_after)), b),
{
    let d1 = enabled_part(desired, disabled_before);
    let d2 = enabled_part(desired, disabled_after);
    let i1 = enabled_part(installed, disabled_before);
    let i2 = enabled_part(installed, disabled_after);
    assert forall|b: AnyBackend| b != toggled implies #[trigger] ids_of(d1, b) == ids_of(d2, b)
        && ids_of(i1, b) == ids_of(i2, b) by {
        assert(ids_of(d1, b) =~= ids_of(d2, b));
        assert(ids_of(i1, b) =~= ids_of(i2, b));
    }
    assert forall|b: AnyBackend| b != toggled implies #[trigger] ids_of(spec_missing(d1, i1), b)
        == ids_of(spec_missing(d2, i2), b) by {
        assert(ids_of(d1, b) == ids_of(d2, b) && ids_of(i1, b) == ids_of(i2, b));
        assert forall|id: Seq<char>| ids_of(spec_missing(d1, i1), b).contains(id) == ids_of(spec_missing(d2, i2), b).contains(id) by {
            assert(ids_of(d1, b).contains(id) == ids_of(d2, b).contains(id));
            assert(ids_of(i1, b).contains(id) == ids_of(i2, b).contains(id));
        }
        assert(ids_of(spec_missing(d1, i1), b) =~= ids_of(spec_missing(d2, i2), b));
    }
    assert forall|b: AnyBackend| b != toggled implies #[trigger] ids_of(spec_unmanaged(d1, i1), b)
        == ids_of(spec_unmanaged(d2, i2), b) by {
        assert(ids_of(d1, b) == ids_of(d2, b) && ids_of(i1, b) == ids_of(i2, b));
        assert forall|id: Seq<char>| ids_of(spec_unmanaged(d1, i1), b).contains(id) == ids_of(spec_unmanaged(d2, i2), b).contains(id) by {
            assert(ids_of(d1, b).contains(id) == ids_of(d2, b).contains(id));
            assert(ids_of(i1, b).contains(id) == ids_of(i2, b).contains(id));
        }
        assert(ids_of(spec_unmanaged(d1, i1), b) =~= ids_of(spec_unmanaged(d2, i2), b));
    }
}

} // verus!
