//! Groups: parsing a group's table, choosing the active groups, and uniting
//! their declarations into the desired state.
use vstd::prelude::*;
use crate::backend::{AnyBackend, backend_named};
use crate::backends::{AnyInstallOptions, InstallOptionsView};
use crate::declaration::{GroupValue, DeclarationErrorKind, spec_parse_declaration, parse_declaration};
use crate::ids::{IdView, name_set, lemma_name_set_push};
use crate::text::str_eq;
use crate::config::Config;
use crate::desired::{PackagesInstall, same_options, keys_unique};
use crate::backends::strings_view;
use crate::desired::clone_strings;

verus! {

/// A declaration as the model sees it: backend, identifier, options.
pub type DeclView = (AnyBackend, Seq<char>, InstallOptionsView);

pub open spec fn decl_view(d: (AnyBackend, String, AnyInstallOptions)) -> DeclView {
    (d.0, d.1@, d.2@)
}

pub open spec fn decls_view(s: Seq<(AnyBackend, String, AnyInstallOptions)>) -> Seq<DeclView> {
    s.map_values(|d: (AnyBackend, String, AnyInstallOptions)| decl_view(d))
}

/// The identifiers that a list of declarations names.
pub open spec fn decl_ids(s: Seq<(AnyBackend, String, AnyInstallOptions)>) -> Set<IdView> {
    Set::new(|p: IdView| exists|i: int| 0 <= i < s.len() && s[i].0 == p.0 && #[trigger] s[i].1@ == p.1)
}

/// The declarations of a list of entries under `backend`, or the first error.
pub open spec fn spec_parse_entries(backend: AnyBackend, items: Seq<GroupValue>) -> Result<Seq<DeclView>, DeclarationErrorKind>
    decreases items.len(),
{
    if items.len() == 0 {
        Ok(Seq::empty())
    } else {
        match spec_parse_entries(backend, items.drop_last()) {
            Err(e) => Err(e),
            Ok(prev) => match spec_parse_declaration(backend, items.last()) {
                Ok(d) => Ok(prev.push((backend, d.0, d.1))),
                Err(e) => Err(e),
            },
        }
    }
}

/// Why a group's table was refused.
#[derive(Debug, Clone, Copy, PartialEq, Eq, Structural)]
pub enum GroupErrorKind {
    /// The value under a backend's key is not a list.
    NotArray,
    /// An entry of the list is not a valid declaration.
    Declaration(DeclarationErrorKind),
}

/// A refused group table: the backend whose key was at fault, and why.
#[derive(Debug, Clone, Copy, PartialEq, Eq, Structural)]
pub struct GroupError {
    pub backend: AnyBackend,
    pub kind: GroupErrorKind,
}

/// The declarations of a group's table, key by key, or the first error. A key
/// that names no backend contributes nothing.
pub open spec fn spec_parse_group(fields: Seq<(String, GroupValue)>) -> Result<Seq<DeclView>, GroupError>
    decreases fields.len(),
{
    if fields.len() == 0 {
        Ok(Seq::empty())
    } else {
        match spec_parse_group(fields.drop_last()) {
            Err(e) => Err(e),
            Ok(prev) => match backend_named(fields.last().0@) {
                None => Ok(prev),
                Some(b) => match fields.last().1 {
                    GroupValue::Array(items) => match spec_parse_entries(b, items@) {
                        Ok(ds) => Ok(prev + ds),
                        Err(e) => Err(GroupError { backend: b, kind: GroupErrorKind::Declaration(e) }),
                    },
                    _ => Err(GroupError { backend: b, kind: GroupErrorKind::NotArray }),
                },
            },
        }
    }
}

/// The keys of a table that name no backend.
pub open spec fn unrecognized_keys(fields: Seq<(String, GroupValue)>) -> Set<Seq<char>> {
    Set::new(|k: Seq<char>| exists|i: int| 0 <= i < fields.len() && #[trigger] fields[i].0@ == k
        && backend_named(k) is None)
}

/// The declarations of one group, in the order written.
#[derive(Debug, Clone)]
pub struct RawInstallOptions {
    pub entries: Vec<(AnyBackend, String, AnyInstallOptions)>,
}

/// The identifiers of one group, in the order written.
#[derive(Debug, Clone)]
pub struct RawPackageIds {
    pub entries: Vec<(AnyBackend, String)>,
}

impl RawPackageIds {
    /// Whether `package` is declared for `backend`.
    pub fn contains(&self, backend: AnyBackend, package: &String) -> (r: bool)
        ensures
            r == exists|i: int| 0 <= i < self.entries@.len() && self.entries@[i].0 == backend
                && #[trigger] self.entries@[i].1@ == package@,
    {
        let mut k: usize = 0;
        while k < self.entries.len()
            invariant
                k <= self.entries@.len(),
                forall|j: int| 0 <= j < k ==> !(self.entries@[j].0 == backend && #[trigger] self.entries@[j].1@ == package@),
            decreases self.entries@.len() - k,
        {
            if self.entries[k].0 == backend && str_eq(self.entries[k].1.as_str(), package.as_str()) {
                return true;
            }
            k = k + 1;
        }
        false
    }
}

impl RawInstallOptions {
    /// The identifiers declared, without their options.
    pub fn to_raw_package_ids(&self) -> (r: RawPackageIds)
        ensures
            r.entries@.len() == self.entries@.len(),
            forall|i: int| 0 <= i < r.entries@.len() ==> (#[trigger] r.entries@[i]).0 == self.entries@[i].0
                && r.entries@[i].1@ == self.entries@[i].1@,
    {
        let mut out: Vec<(AnyBackend, String)> = Vec::new();
        let mut k: usize = 0;
        while k < self.entries.len()
            invariant
                k <= self.entries@.len(),
                out@.len() == k,
                forall|i: int| 0 <= i < k ==> (#[trigger] out@[i]).0 == self.entries@[i].0
                    && out@[i].1@ == self.entries@[i].1@,
            decreases self.entries@.len() - k,
        {
            out.push((self.entries[k].0, self.entries[k].1.clone()));
            k = k + 1;
        }
        RawPackageIds { entries: out }
    }
}

proof fn lemma_entries_error_persists(backend: AnyBackend, items: Seq<GroupValue>, j: int)
    requires
        0 <= j <= items.len(),
        spec_parse_entries(backend, items.subrange(0, j)) is Err,
    ensures
        spec_parse_entries(backend, items) == spec_parse_entries(backend, items.subrange(0, j)),
    decreases items.len(),
{
    if j == items.len() {
        assert(items.subrange(0, j) =~= items);
    } else {
        assert(items.drop_last().subrange(0, j) =~= items.subrange(0, j));
        lemma_entries_error_persists(backend, items.drop_last(), j);
    }
}

proof fn lemma_group_error_persists(fields: Seq<(String, GroupValue)>, j: int)
    requires
        0 <= j <= fields.len(),
        spec_parse_group(fields.subrange(0, j)) is Err,
    ensures
        spec_parse_group(fields) == spec_parse_group(fields.subrange(0, j)),
    decreases fields.len(),
{
    if j == fields.len() {
        assert(fields.subrange(0, j) =~= fields);
    } else {
        assert(fields.drop_last().subrange(0, j) =~= fields.subrange(0, j));
        lemma_group_error_persists(fields.drop_last(), j);
    }
}

fn parse_entries(backend: AnyBackend, items: &Vec<GroupValue>, out: &mut Vec<(AnyBackend, String, AnyInstallOptions)>)
    -> (r: Result<(), DeclarationErrorKind>)
    ensures
        match (r, spec_parse_entries(backend, items@)) {
            (Ok(_), Ok(ds)) => decls_view(final(out)@) == decls_view(old(out)@) + ds,
            (Err(e), Err(k)) => e == k,
            _ => false,
        },
{
    let ghost start = decls_view(out@);
    let mut k: usize = 0;
    while k < items.len()
        invariant
            k <= items@.len(),
            spec_parse_entries(backend, items@.subrange(0, k as int)) is Ok,
            decls_view(out@) == start + spec_parse_entries(backend, items@.subrange(0, k as int))->Ok_0,
        decreases items@.len() - k,
    {
        assert(items@.subrange(0, k + 1).drop_last() =~= items@.subrange(0, k as int));
        assert(items@.subrange(0, k + 1).last() == items@[k as int]);
        match parse_declaration(backend, &items[k]) {
            Ok((id, options)) => {
                let ghost before = out@;
                out.push((backend, id, options));
                assert(decls_view(out@) =~= decls_view(before).push(decl_view((backend, id, options))));
            },
            Err(e) => {
                proof { lemma_entries_error_persists(backend, items@, k + 1); }
                return Err(e.kind);
            },
        }
        k = k + 1;
    }
    assert(items@.subrange(0, items@.len() as int) == items@);
    Ok(())
}

/// Parses a group's table. Keys are backend names, compared without regard to
/// case; the keys that name no backend are skipped and handed back, so that the
/// caller can warn of them.
pub fn parse_group_file(fields: &Vec<(String, GroupValue)>) -> (r: Result<(RawInstallOptions, Vec<String>), GroupError>)
    ensures
        match (r, spec_parse_group(fields@)) {
            (Ok((group, skipped)), Ok(ds)) => decls_view(group.entries@) == ds
                && name_set(skipped@) == unrecognized_keys(fields@),
            (Err(e), Err(want)) => e == want,
            _ => false,
        },
{
    let mut entries: Vec<(AnyBackend, String, AnyInstallOptions)> = Vec::new();
    let mut skipped: Vec<String> = Vec::new();
    let mut k: usize = 0;
    while k < fields.len()
        invariant
            k <= fields@.len(),
            spec_parse_group(fields@.subrange(0, k as int)) is Ok,
            decls_view(entries@) == spec_parse_group(fields@.subrange(0, k as int))->Ok_0,
            name_set(skipped@) == unrecognized_keys(fields@.subrange(0, k as int)),
        decreases fields@.len() - k,
    {
        let ghost prefix = fields@.subrange(0, k as int);
        let ghost next = fields@.subrange(0, k + 1);
        assert(next.drop_last() =~= prefix);
        assert(next.last() == fields@[k as int]);
        let key = &fields[k].0;
        match AnyBackend::from_name(key.as_str()) {
            None => {
                proof { lemma_name_set_push(skipped@, *key); }
                skipped.push(key.clone());
                assert(unrecognized_keys(next) =~= unrecognized_keys(prefix).insert(key@)) by {
                    assert forall|x: Seq<char>| unrecognized_keys(next).contains(x) implies
                        unrecognized_keys(prefix).insert(key@).contains(x) by {
                        let i = choose|i: int| 0 <= i < next.len() && #[trigger] next[i].0@ == x && backend_named(x) is None;
                        if i < k {
                            assert(prefix[i] == next[i]);
                        }
                    }
                    assert forall|x: Seq<char>| unrecognized_keys(prefix).contains(x) implies
                        unrecognized_keys(next).contains(x) by {
                        let i = choose|i: int| 0 <= i < prefix.len() && #[trigger] prefix[i].0@ == x && backend_named(x) is None;
                        assert(prefix[i] == next[i]);
                    }
                    assert(next[k as int].0@ == key@);
                }
            },
            Some(b) => {
                assert(unrecognized_keys(next) =~= unrecognized_keys(prefix)) by {
                    assert forall|x: Seq<char>| unrecognized_keys(next).contains(x) implies
                        unrecognized_keys(prefix).contains(x) by {
                        let i = choose|i: int| 0 <= i < next.len() && #[trigger] next[i].0@ == x && backend_named(x) is None;
                        if i < k {
                            assert(prefix[i] == next[i]);
                        }
                    }
                    assert forall|x: Seq<char>| unrecognized_keys(prefix).contains(x) implies
                        unrecognized_keys(next).contains(x) by {
                        let i = choose|i: int| 0 <= i < prefix.len() && #[trigger] prefix[i].0@ == x && backend_named(x) is None;
                        assert(prefix[i] == next[i]);
                    }
                }
                match &fields[k].1 {
                    GroupValue::Array(items) => {
                        match parse_entries(b, items, &mut entries) {
                            Ok(_) => {},
                            Err(e) => {
                                proof { lemma_group_error_persists(fields@, k + 1); }
                                return Err(GroupError { backend: b, kind: GroupErrorKind::Declaration(e) });
                            },
                        }
                    },
                    _ => {
                        proof { lemma_group_error_persists(fields@, k + 1); }
                        return Err(GroupError { backend: b, kind: GroupErrorKind::NotArray });
                    },
                }
            },
        }
        k = k + 1;
    }
    assert(fields@.subrange(0, fields@.len() as int) == fields@);
    Ok((RawInstallOptions { entries }, skipped))
}

/// A key that names no backend has no effect on what a group declares: the
/// group parses as if the key were not there.
pub proof fn law_unrecognized_key_ignored(fields: Seq<(String, GroupValue)>, k: int)
    requires
        0 <= k < fields.len(),
        backend_named(fields[k].0@) is None,
    ensures
        spec_parse_group(fields) == spec_parse_group(fields.remove(k)),
    decreases fields.len(),
{
    if k == fields.len() - 1 {
        assert(fields.remove(k) =~= fields.drop_last());
    } else {
        let shorter = fields.remove(k);
        assert(shorter.drop_last() =~= fields.drop_last().remove(k));
        assert(shorter.last() == fields.last());
        law_unrecognized_key_ignored(fields.drop_last(), k);
    }
}

/// Every identifier that some group of `groups` declares.
pub open spec fn spec_desired_ids(groups: Seq<(String, RawInstallOptions)>) -> Set<IdView> {
    Set::new(|p: IdView| exists|i: int| 0 <= i < groups.len() && #[trigger] decl_ids(groups[i].1.entries@).contains(p))
}

/// All declarations of the groups, group after group, each in written order.
pub open spec fn group_decls(groups: Seq<(String, RawInstallOptions)>) -> Seq<DeclView>
    decreases groups.len(),
{
    if groups.len() == 0 {
        Seq::empty()
    } else {
        group_decls(groups.drop_last()) + decls_view(groups.last().1.entries@)
    }
}

/// The options of the first declaration of `p` among `s`.
pub open spec fn first_options(s: Seq<DeclView>, p: IdView) -> Option<InstallOptionsView>
    decreases s.len(),
{
    if s.len() == 0 {
        None
    } else {
        match first_options(s.drop_last(), p) {
            Some(o) => Some(o),
            None => if s.last().0 == p.0 && s.last().1 == p.1 {
                Some(s.last().2)
            } else {
                None
            },
        }
    }
}

/// The names of the groups that declare `p`, in group order.
pub open spec fn groups_declaring(groups: Seq<(String, RawInstallOptions)>, p: IdView) -> Seq<Seq<char>>
    decreases groups.len(),
{
    if groups.len() == 0 {
        Seq::empty()
    } else if decl_ids(groups.last().1.entries@).contains(p) {
        groups_declaring(groups.drop_last(), p).push(groups.last().0@)
    } else {
        groups_declaring(groups.drop_last(), p)
    }
}

/// Some group before position `limit` declares `d`.
pub open spec fn declared_before(groups: Seq<(String, RawInstallOptions)>, limit: int, d: DeclView) -> bool {
    exists|h: int| 0 <= h < limit && #[trigger] decls_view(groups[h].1.entries@).contains(d)
}

/// A package declared by two groups with different options.
#[derive(Debug, Clone)]
pub struct OptionConflict {
    pub backend: AnyBackend,
    pub package: String,
    /// The group whose options were kept (the first in order).
    pub kept_group: String,
    /// The group whose options were dropped.
    pub dropped_group: String,
}

/// `c` names a package that the group `c.kept_group` declares, and that the
/// group `c.dropped_group` declares with options other than those in `decls`.
pub open spec fn conflict_holds(groups: Seq<(String, RawInstallOptions)>, decls: Seq<DeclView>, c: OptionConflict) -> bool {
    (exists|h: int| 0 <= h < groups.len() && #[trigger] groups[h].0@ == c.kept_group@
        && decl_ids(groups[h].1.entries@).contains((c.backend, c.package@)))
    && exists|g: int, k: int| 0 <= g < groups.len() && #[trigger] groups[g].0@ == c.dropped_group@
        && 0 <= k < groups[g].1.entries@.len() && #[trigger] groups[g].1.entries@[k].0 == c.backend
        && groups[g].1.entries@[k].1@ == c.package@
        && exists|i: int| 0 <= i < decls.len() && #[trigger] decls[i].0 == c.backend && decls[i].1 == c.package@
            && decls[i].2 != groups[g].1.entries@[k].2@
}

/// Some conflict says that `group` declares package `id` of `backend` with
/// options that were not kept.
pub open spec fn reported(conflicts: Seq<OptionConflict>, backend: AnyBackend, id: Seq<char>, group: Seq<char>) -> bool {
    exists|j: int| 0 <= j < conflicts.len() && #[trigger] conflicts[j].backend == backend
        && conflicts[j].package@ == id && conflicts[j].dropped_group@ == group
}

/// If the declaration at position `k` of group `g` has options other than the
/// ones kept in `decls` for its package, a conflict reports it.
pub open spec fn covered(
    groups: Seq<(String, RawInstallOptions)>,
    decls: Seq<DeclView>,
    conflicts: Seq<OptionConflict>,
    g: int,
    k: int,
) -> bool {
    let e = groups[g].1.entries@[k];
    forall|i: int| 0 <= i < decls.len() && (#[trigger] decls[i]).0 == e.0 && decls[i].1 == e.1@
        && decls[i].2 != e.2@ ==> reported(conflicts, e.0, e.1@, groups[g].0@)
}

proof fn lemma_covered_grows(
    groups: Seq<(String, RawInstallOptions)>,
    d0: Seq<DeclView>,
    d1: Seq<DeclView>,
    c0: Seq<OptionConflict>,
    c1: Seq<OptionConflict>,
    g: int,
    k: int,
)
    requires
        covered(groups, d0, c0, g, k),
        c0.len() <= c1.len(),
        forall|j: int| 0 <= j < c0.len() ==> c1[j] == c0[j],
        d0.len() <= d1.len(),
        forall|i: int| 0 <= i < d0.len() ==> d1[i] == d0[i],
        forall|i: int| d0.len() <= i < d1.len() ==> !(d1[i].0 == groups[g].1.entries@[k].0
            && d1[i].1 == groups[g].1.entries@[k].1@),
    ensures
        covered(groups, d1, c1, g, k),
{
    let e = groups[g].1.entries@[k];
    assert forall|i: int| 0 <= i < d1.len() && (#[trigger] d1[i]).0 == e.0 && d1[i].1 == e.1@
        && d1[i].2 != e.2@ implies reported(c1, e.0, e.1@, groups[g].0@) by {
        assert(d0[i] == d1[i]);
        assert(reported(c0, e.0, e.1@, groups[g].0@));
        let j = choose|j: int| 0 <= j < c0.len() && #[trigger] c0[j].backend == e.0
            && c0[j].package@ == e.1@ && c0[j].dropped_group@ == groups[g].0@;
        assert(c1[j] == c0[j]);
    }
}

/// The loaded groups, by name, in a fixed order.
#[derive(Debug, Clone)]
pub struct Groups {
    pub groups: Vec<(String, RawInstallOptions)>,
}

/// Where the entry for `hostname` lists its groups.
pub open spec fn hostname_entry(entries: Seq<(String, Vec<String>)>, hostname: Seq<char>) -> Option<Vec<String>>
    decreases entries.len(),
{
    if entries.len() == 0 {
        None
    } else if entries[0].0@ == hostname {
        Some(entries[0].1)
    } else {
        hostname_entry(entries.drop_first(), hostname)
    }
}

/// A configuration that cannot be acted upon.
#[derive(Debug, Clone, Copy, PartialEq, Eq, Structural)]
pub enum ConfigurationError {
    /// Groups are chosen by hostname, but the hostname has no entry.
    NoHostnameEntry,
}

/// The names of the active groups. By hostname, they are those of the
/// hostname's entry, and no entry is an error; otherwise every group found
/// (`found`) is active.
pub fn active_group_names(config: &Config, hostname: &str, found: &Vec<String>) -> (r: Result<Vec<String>, ConfigurationError>)
    ensures
        !config.hostname_groups_enabled ==> r is Ok && strings_view(r->Ok_0@) == strings_view(found@),
        config.hostname_groups_enabled ==> match (r, hostname_entry(config.hostname_groups@, hostname@)) {
            (Ok(names), Some(want)) => strings_view(names@) == strings_view(want@),
            (Err(e), None) => e == ConfigurationError::NoHostnameEntry,
            _ => false,
        },
{
    if !config.hostname_groups_enabled {
        return Ok(clone_strings(found));
    }
    let entries = &config.hostname_groups;
    let mut i: usize = 0;
    assert(entries@.subrange(0, entries@.len() as int) == entries@);
    while i < entries.len()
        invariant
            i <= entries@.len(),
            entries == &config.hostname_groups,
            config.hostname_groups_enabled,
            hostname_entry(entries@, hostname@) == hostname_entry(entries@.subrange(i as int, entries@.len() as int), hostname@),
        decreases entries@.len() - i,
    {
        assert(entries@.subrange(i as int, entries@.len() as int).drop_first()
            =~= entries@.subrange(i + 1, entries@.len() as int));
        if str_eq(entries[i].0.as_str(), hostname) {
            return Ok(clone_strings(&entries[i].1));
        }
        i = i + 1;
    }
    Err(ConfigurationError::NoHostnameEntry)
}

impl Groups {
    /// The names of the groups that declare `package` for `backend`, in order.
    pub fn contains(&self, backend: AnyBackend, package: &String) -> (r: Vec<String>)
        ensures
            strings_view(r@) == groups_declaring(self.groups@, (backend, package@)),
    {
        let mut r: Vec<String> = Vec::new();
        let mut g: usize = 0;
        while g < self.groups.len()
            invariant
                g <= self.groups@.len(),
                strings_view(r@) == groups_declaring(self.groups@.subrange(0, g as int), (backend, package@)),
            decreases self.groups@.len() - g,
        {
            let ghost pre = self.groups@.subrange(0, g as int);
            let ghost next = self.groups@.subrange(0, g + 1);
            assert(next.drop_last() =~= pre);
            assert(next.last() == self.groups@[g as int]);
            let ids = self.groups[g].1.to_raw_package_ids();
            let found = ids.contains(backend, package);
            let ghost before = r@;
            if found {
                proof {
                    let j = choose|j: int| 0 <= j < ids.entries@.len() && ids.entries@[j].0 == backend
                        && #[trigger] ids.entries@[j].1@ == package@;
                    assert(self.groups@[g as int].1.entries@[j].1@ == package@);
                    assert(decl_ids(self.groups@[g as int].1.entries@).contains((backend, package@)));
                }
                r.push(self.groups[g].0.clone());
                assert(strings_view(r@) =~= strings_view(before).push(self.groups@[g as int].0@));
            } else {
                assert(!decl_ids(self.groups@[g as int].1.entries@).contains((backend, package@))) by {
                    if decl_ids(self.groups@[g as int].1.entries@).contains((backend, package@)) {
                        let j = choose|j: int| 0 <= j < self.groups@[g as int].1.entries@.len()
                            && self.groups@[g as int].1.entries@[j].0 == backend
                            && #[trigger] self.groups@[g as int].1.entries@[j].1@ == package@;
                        assert(ids.entries@[j].1@ == package@);
                    }
                }
            }
            g = g + 1;
        }
        assert(self.groups@.subrange(0, self.groups@.len() as int) == self.groups@);
        r
    }

    /// The union of all groups' declarations: every declared package once, with
    /// the options of the first group that declares it. A package that a later
    /// group declares with other options is reported as a conflict.
    pub fn to_install_options(&self) -> (r: (PackagesInstall, Vec<OptionConflict>))
        ensures
            r.0.spec_ids() == spec_desired_ids(self.groups@),
            forall|i: int| 0 <= i < r.0.spec_decls().len() ==> declared_before(self.groups@, self.groups@.len() as int,
                #[trigger] r.0.spec_decls()[i]),
            forall|i: int| 0 <= i < r.0.spec_decls().len() ==> first_options(group_decls(self.groups@),
                (r.0.spec_decls()[i].0, r.0.spec_decls()[i].1)) == Some(#[trigger] r.0.spec_decls()[i].2),
            forall|j: int| 0 <= j < r.1@.len() ==> conflict_holds(self.groups@, r.0.spec_decls(), #[trigger] r.1@[j]),
            keys_unique(r.0.spec_decls()),
            forall|g: int, k: int| 0 <= g < self.groups@.len() && 0 <= k < self.groups@[g].1.entries@.len()
                ==> #[trigger] covered(self.groups@, r.0.spec_decls(), r.1@, g, k),
    {
        let mut result = PackagesInstall::new();
        let mut conflicts: Vec<OptionConflict> = Vec::new();
        assert(self.groups@.subrange(0, 0) =~= Seq::<(String, RawInstallOptions)>::empty());
        let mut g: usize = 0;
        while g < self.groups.len()
            invariant
                g <= self.groups@.len(),
                result.spec_ids() == spec_desired_ids(self.groups@.subrange(0, g as int)),
                keys_unique(result.spec_decls()),
                forall|g2: int, k2: int| 0 <= g2 < g && 0 <= k2 < self.groups@[g2].1.entries@.len()
                    ==> #[trigger] covered(self.groups@, result.spec_decls(), conflicts@, g2, k2),
                forall|i: int| 0 <= i < result.spec_decls().len() ==> declared_before(self.groups@, g as int,
                    #[trigger] result.spec_decls()[i]),
                forall|p: IdView| #[trigger] result.spec_ids().contains(p)
                    <==> first_options(group_decls(self.groups@.subrange(0, g as int)), p) is Some,
                forall|j: int| 0 <= j < conflicts@.len() ==> conflict_holds(self.groups@, result.spec_decls(), #[trigger] conflicts@[j]),
                forall|i: int| 0 <= i < result.spec_decls().len() ==> first_options(group_decls(self.groups@.subrange(0, g as int)),
                    (result.spec_decls()[i].0, result.spec_decls()[i].1)) == Some(#[trigger] result.spec_decls()[i].2),
            decreases self.groups@.len() - g,
        {
            let entries = &self.groups[g].1.entries;
            let ghost start = result.spec_ids();
            let ghost flat_start = group_decls(self.groups@.subrange(0, g as int));
            let upto = g + 1;
            assert(decls_view(entries@.subrange(0, 0)) =~= Seq::<DeclView>::empty());
            assert(flat_start + decls_view(entries@.subrange(0, 0)) =~= flat_start);
            let mut k: usize = 0;
            while k < entries.len()
                invariant
                    g < self.groups@.len(),
                    entries == &self.groups@[g as int].1.entries,
                    k <= entries@.len(),
                    result.spec_ids() == start.union(decl_ids(entries@.subrange(0, k as int))),
                    keys_unique(result.spec_decls()),
                    forall|g2: int, k2: int| 0 <= g2 < g && 0 <= k2 < self.groups@[g2].1.entries@.len()
                        ==> #[trigger] covered(self.groups@, result.spec_decls(), conflicts@, g2, k2),
                    forall|k2: int| 0 <= k2 < k ==> #[trigger] covered(self.groups@, result.spec_decls(), conflicts@, g as int, k2),
                    start.subset_of(result.spec_ids()),
                    start == spec_desired_ids(self.groups@.subrange(0, g as int)),
                    upto == g + 1,
                    forall|i: int| 0 <= i < result.spec_decls().len() ==> declared_before(self.groups@, g + 1,
                        #[trigger] result.spec_decls()[i]),
                    forall|p: IdView| #[trigger] result.spec_ids().contains(p)
                        <==> first_options(flat_start + decls_view(entries@.subrange(0, k as int)), p) is Some,
                    forall|j: int| 0 <= j < conflicts@.len() ==> conflict_holds(self.groups@, result.spec_decls(), #[trigger] conflicts@[j]),
                    forall|i: int| 0 <= i < result.spec_decls().len() ==> first_options(flat_start + decls_view(entries@.subrange(0, k as int)),
                        (result.spec_decls()[i].0, result.spec_decls()[i].1)) == Some(#[trigger] result.spec_decls()[i].2),
                decreases entries@.len() - k,
            {
                proof {
                    assert(entries@.subrange(0, k + 1) =~= entries@.subrange(0, k as int).push(entries@[k as int]));
                    crate::desired::lemma_decls_push(entries@.subrange(0, k as int), entries@[k as int]);
                    assert(decls_view(entries@)[k as int] == decl_view(entries@[k as int]));
                }
                let backend = entries[k].0;
                let ghost c0 = conflicts@;
                let ghost d0 = result.spec_decls();
                let ghost ids0 = result.spec_ids();
                proof { result.lemma_decl_keys_in_ids(); }
                match result.options_of(backend, entries[k].1.as_str()) {
                    Some(kept) => {
                        proof {
                            let i0 = choose|i: int| 0 <= i < d0.len()
                                && #[trigger] d0[i] == (backend, entries@[k as int].1@, kept@);
                            assert forall|i: int| 0 <= i < d0.len() && (#[trigger] d0[i]).0 == backend
                                && d0[i].1 == entries@[k as int].1@ implies d0[i].2 == kept@ by {
                                if i < i0 {
                                    assert(!(d0[i].0 == d0[i0].0 && d0[i].1 == d0[i0].1));
                                } else if i > i0 {
                                    assert(!(d0[i0].0 == d0[i].0 && d0[i0].1 == d0[i].1));
                                }
                            }
                        }
                        if !same_options(kept, &entries[k].2) {
                            let kept_group = self.first_group_declaring(backend, &entries[k].1, upto);
                            let c = OptionConflict {
                                backend,
                                package: entries[k].1.clone(),
                                kept_group,
                                dropped_group: self.groups[g].0.clone(),
                            };
                            proof {
                                let i = choose|i: int| 0 <= i < result.spec_decls().len()
                                    && #[trigger] result.spec_decls()[i] == (backend, entries@[k as int].1@, kept@);
                                assert(self.groups@[g as int].1.entries@[k as int].0 == c.backend);
                                assert(result.spec_decls()[i].0 == c.backend);
                                assert(self.groups@[g as int].0@ == c.dropped_group@);
                                assert(self.groups@[g as int].1.entries@[k as int] == entries@[k as int]);
                                assert(self.groups@[g as int].1.entries@[k as int].1@ == c.package@);
                                assert(result.spec_decls()[i].2 != self.groups@[g as int].1.entries@[k as int].2@);
                                assert(result.spec_ids().contains((backend, c.package@)));
                                let key = (backend, c.package@);
                                if start.contains(key) {
                                    let pre = self.groups@.subrange(0, g as int);
                                    let h = choose|h: int| 0 <= h < pre.len() && #[trigger] decl_ids(pre[h].1.entries@).contains(key);
                                    assert(pre[h] == self.groups@[h]);
                                    assert(decl_ids(self.groups@[h].1.entries@).contains(key));
                                } else {
                                    assert(decl_ids(entries@.subrange(0, k as int)).contains(key));
                                    let j = choose|j: int| 0 <= j < entries@.subrange(0, k as int).len()
                                        && entries@.subrange(0, k as int)[j].0 == key.0 && #[trigger] entries@.subrange(0, k as int)[j].1@ == key.1;
                                    assert(entries@[j] == entries@.subrange(0, k as int)[j]);
                                    assert(decl_ids(self.groups@[g as int].1.entries@).contains(key));
                                }
                                assert(conflict_holds(self.groups@, result.spec_decls(), c));
                            }
                            conflicts.push(c);
                            assert(conflicts@[c0.len() as int] == c);
                            assert(reported(conflicts@, backend, entries@[k as int].1@, self.groups@[g as int].0@));
                        }
                    },
                    None => {
                        assert forall|i: int| 0 <= i < d0.len() implies !((#[trigger] d0[i]).0 == backend
                            && d0[i].1 == entries@[k as int].1@) by {
                            assert(ids0.contains((d0[i].0, d0[i].1)));
                        }
                    },
                }
                let ghost c1 = conflicts@;
                assert forall|j: int| 0 <= j < c0.len() implies c1[j] == c0[j] by {}
                let ghost before_len = result.spec_decls().len();
                let ghost before_ids = result.spec_ids();
                let ghost before_decls = result.spec_decls();
                let ghost flat = flat_start + decls_view(entries@.subrange(0, k as int));
                let ghost e = decl_view(entries@[k as int]);
                let ghost flat2 = flat_start + decls_view(entries@.subrange(0, k + 1));
                assert(flat2 =~= flat.push(e));
                assert(flat2.drop_last() =~= flat);
                let inserted = result.insert(backend, entries[k].1.clone(), entries[k].2.clone_options());
                let ghost d1 = result.spec_decls();
                assert forall|g2: int, k2: int| 0 <= g2 < g && 0 <= k2 < self.groups@[g2].1.entries@.len()
                    implies #[trigger] covered(self.groups@, d1, c1, g2, k2) by {
                    let e2 = self.groups@[g2].1.entries@[k2];
                    assert(decl_ids(self.groups@[g2].1.entries@).contains((e2.0, e2.1@)));
                    assert(self.groups@.subrange(0, g as int)[g2] == self.groups@[g2]);
                    assert(start.contains((e2.0, e2.1@)));
                    assert forall|i: int| d0.len() <= i < d1.len() implies !(d1[i].0 == e2.0 && d1[i].1 == e2.1@) by {
                        assert(inserted);
                    }
                    lemma_covered_grows(self.groups@, d0, d1, c0, c1, g2, k2);
                }
                assert forall|k2: int| 0 <= k2 < k + 1 implies #[trigger] covered(self.groups@, d1, c1, g as int, k2) by {
                    if k2 < k {
                        let e2 = self.groups@[g as int].1.entries@[k2];
                        assert(entries@.subrange(0, k as int)[k2] == e2);
                        assert(decl_ids(entries@.subrange(0, k as int)).contains((e2.0, e2.1@)));
                        assert(ids0.contains((e2.0, e2.1@)));
                        assert forall|i: int| d0.len() <= i < d1.len() implies !(d1[i].0 == e2.0 && d1[i].1 == e2.1@) by {
                            assert(inserted);
                        }
                        lemma_covered_grows(self.groups@, d0, d1, c0, c1, g as int, k2);
                    } else {
                        let e2 = self.groups@[g as int].1.entries@[k as int];
                        assert(e2 == entries@[k as int]);
                        assert forall|i: int| 0 <= i < d1.len() && (#[trigger] d1[i]).0 == e2.0 && d1[i].1 == e2.1@
                            && d1[i].2 != e2.2@ implies reported(c1, e2.0, e2.1@, self.groups@[g as int].0@) by {
                            if i < d0.len() {
                                assert(d1[i] == d0[i]);
                            }
                        }
                    }
                }
                assert forall|j: int| 0 <= j < conflicts@.len() implies conflict_holds(self.groups@, result.spec_decls(),
                    #[trigger] conflicts@[j]) by {
                    let c = conflicts@[j];
                    assert(conflict_holds(self.groups@, before_decls, c));
                    let h = choose|h: int| 0 <= h < self.groups@.len() && #[trigger] self.groups@[h].0@ == c.kept_group@
                        && decl_ids(self.groups@[h].1.entries@).contains((c.backend, c.package@));
                    let (g0, k0) = choose|g0: int, k0: int| 0 <= g0 < self.groups@.len() && #[trigger] self.groups@[g0].0@ == c.dropped_group@
                        && 0 <= k0 < self.groups@[g0].1.entries@.len() && #[trigger] self.groups@[g0].1.entries@[k0].0 == c.backend
                        && self.groups@[g0].1.entries@[k0].1@ == c.package@
                        && exists|i: int| 0 <= i < before_decls.len() && #[trigger] before_decls[i].0 == c.backend
                            && before_decls[i].1 == c.package@ && before_decls[i].2 != self.groups@[g0].1.entries@[k0].2@;
                    let i = choose|i: int| 0 <= i < before_decls.len() && #[trigger] before_decls[i].0 == c.backend
                        && before_decls[i].1 == c.package@ && before_decls[i].2 != self.groups@[g0].1.entries@[k0].2@;
                    assert(result.spec_decls()[i] == before_decls[i]);
                    assert(result.spec_decls()[i].0 == c.backend);
                }
                assert forall|p: IdView| #[trigger] result.spec_ids().contains(p) <==> first_options(flat2, p) is Some by {
                    assert(first_options(flat2, p) == (match first_options(flat, p) {
                        Some(o) => Some(o),
                        None => if e.0 == p.0 && e.1 == p.1 { Some(e.2) } else { None },
                    }));
                    assert(before_ids.contains(p) <==> first_options(flat, p) is Some);
                }
                assert forall|i: int| 0 <= i < result.spec_decls().len() implies first_options(flat2,
                    (result.spec_decls()[i].0, result.spec_decls()[i].1)) == Some(#[trigger] result.spec_decls()[i].2) by {
                    let q = (result.spec_decls()[i].0, result.spec_decls()[i].1);
                    assert(first_options(flat2, q) == (match first_options(flat, q) {
                        Some(o) => Some(o),
                        None => if e.0 == q.0 && e.1 == q.1 { Some(e.2) } else { None },
                    }));
                    if i < before_len {
                        assert(result.spec_decls()[i] == before_decls[i]);
                    } else {
                        assert(before_ids.contains((e.0, e.1)) == false);
                    }
                }
                assert forall|i: int| 0 <= i < result.spec_decls().len() implies declared_before(self.groups@, g + 1,
                    #[trigger] result.spec_decls()[i]) by {
                    if i == before_len {
                        assert(decls_view(self.groups@[g as int].1.entries@)[k as int] == result.spec_decls()[i]);
                        assert(decls_view(self.groups@[g as int].1.entries@).contains(result.spec_decls()[i]));
                    }
                }
                k = k + 1;
            }
            assert(entries@.subrange(0, entries@.len() as int) == entries@);
            assert forall|g2: int, k2: int| 0 <= g2 < g + 1 && 0 <= k2 < self.groups@[g2].1.entries@.len()
                implies #[trigger] covered(self.groups@, result.spec_decls(), conflicts@, g2, k2) by {
                if g2 == g {
                    assert(covered(self.groups@, result.spec_decls(), conflicts@, g as int, k2));
                }
            }
            assert(self.groups@.subrange(0, g + 1).drop_last() =~= self.groups@.subrange(0, g as int));
            assert(self.groups@.subrange(0, g + 1).last() == self.groups@[g as int]);
            assert(group_decls(self.groups@.subrange(0, g + 1)) == flat_start + decls_view(entries@));
            assert(result.spec_ids() =~= spec_desired_ids(self.groups@.subrange(0, g + 1))) by {
                let pre = self.groups@.subrange(0, g as int);
                let next = self.groups@.subrange(0, g + 1);
                assert forall|p: IdView| result.spec_ids().contains(p) implies spec_desired_ids(next).contains(p) by {
                    if spec_desired_ids(pre).contains(p) {
                        let i = choose|i: int| 0 <= i < pre.len() && #[trigger] decl_ids(pre[i].1.entries@).contains(p);
                        assert(next[i] == pre[i]);
                    } else {
                        assert(next[g as int] == self.groups@[g as int]);
                    }
                }
                assert forall|p: IdView| spec_desired_ids(next).contains(p) implies result.spec_ids().contains(p) by {
                    let i = choose|i: int| 0 <= i < next.len() && #[trigger] decl_ids(next[i].1.entries@).contains(p);
                    if i < g {
                        assert(pre[i] == next[i]);
                        assert(decl_ids(pre[i].1.entries@).contains(p));
                        assert(spec_desired_ids(pre).contains(p));
                    } else {
                        assert(i == g);
                        assert(next[i] == self.groups@[g as int]);
                        assert(decl_ids(entries@).contains(p));
                    }
                }
            }
            g = g + 1;
        }
        assert(self.groups@.subrange(0, self.groups@.len() as int) == self.groups@);
        (result, conflicts)
    }

    /// The name of the first group before `limit` that declares `package`.
    fn first_group_declaring(&self, backend: AnyBackend, package: &String, limit: usize) -> (r: String)
        requires
            limit <= self.groups@.len(),
        ensures
            (exists|h: int| 0 <= h < limit && #[trigger] decl_ids(self.groups@[h].1.entries@).contains((backend, package@)))
                ==> exists|h: int| 0 <= h < limit && #[trigger] self.groups@[h].0@ == r@
                    && decl_ids(self.groups@[h].1.entries@).contains((backend, package@)),
    {
        let mut g: usize = 0;
        while g < limit
            invariant
                limit <= self.groups@.len(),
                forall|h: int| 0 <= h < g ==> !(#[trigger] decl_ids(self.groups@[h].1.entries@).contains((backend, package@))),
            decreases limit - g,
        {
            let ids = self.groups[g].1.to_raw_package_ids();
            if ids.contains(backend, package) {
                proof {
                    let j = choose|j: int| 0 <= j < ids.entries@.len() && ids.entries@[j].0 == backend
                        && #[trigger] ids.entries@[j].1@ == package@;
                    assert(self.groups@[g as int].1.entries@[j].1@ == package@);
                    assert(decl_ids(self.groups@[g as int].1.entries@).contains((backend, package@)));
                }
                let name = self.groups[g].0.clone();
                assert(self.groups@[g as int].0@ == name@);
                return name;
            }
            assert(!decl_ids(self.groups@[g as int].1.entries@).contains((backend, package@))) by {
                if decl_ids(self.groups@[g as int].1.entries@).contains((backend, package@)) {
                    let j = choose|j: int| 0 <= j < self.groups@[g as int].1.entries@.len()
                        && self.groups@[g as int].1.entries@[j].0 == backend
                        && #[trigger] self.groups@[g as int].1.entries@[j].1@ == package@;
                    assert(ids.entries@[j].1@ == package@);
                }
            }
            g = g + 1;
        }
        String::new()
    }
}

/// The identifiers that a list of groups declares do not depend on the order
/// of the list: two lists that hold the same groups give the same union.
pub proof fn law_group_union_order_independent(
    first: Seq<(String, RawInstallOptions)>,
    second: Seq<(String, RawInstallOptions)>,
)
    requires
        forall|g: (String, RawInstallOptions)| first.contains(g) <==> second.contains(g),
    ensures
        spec_desired_ids(first) == spec_desired_ids(second),
{
    assert forall|p: IdView| spec_desired_ids(first).contains(p) implies spec_desired_ids(second).contains(p) by {
        let i = choose|i: int| 0 <= i < first.len() && #[trigger] decl_ids(first[i].1.entries@).contains(p);
        assert(first.contains(first[i]));
        let j = choose|j: int| 0 <= j < second.len() && second[j] == first[i];
        assert(decl_ids(second[j].1.entries@).contains(p));
    }
    assert forall|p: IdView| spec_desired_ids(second).contains(p) implies spec_desired_ids(first).contains(p) by {
        let i = choose|i: int| 0 <= i < second.len() && #[trigger] decl_ids(second[i].1.entries@).contains(p);
        assert(second.contains(second[i]));
        let j = choose|j: int| 0 <= j < first.len() && first[j] == second[i];
        assert(decl_ids(first[j].1.entries@).contains(p));
    }
    assert(spec_desired_ids(first) =~= spec_desired_ids(second));
}

/// Uniting two groups in either order declares the same identifiers.
pub proof fn law_two_group_union_commutes(a: (String, RawInstallOptions), b: (String, RawInstallOptions))
    ensures
        spec_desired_ids(seq![a, b]) == spec_desired_ids(seq![b, a]),
{
    assert forall|g: (String, RawInstallOptions)| seq![a, b].contains(g) <==> seq![b, a].contains(g) by {
        if seq![a, b].contains(g) {
            let i = choose|i: int| 0 <= i < 2 && seq![a, b][i] == g;
            if i == 0 { assert(seq![b, a][1] == g); } else { assert(seq![b, a][0] == g); }
        }
        if seq![b, a].contains(g) {
            let i = choose|i: int| 0 <= i < 2 && seq![b, a][i] == g;
            if i == 0 { assert(seq![a, b][1] == g); } else { assert(seq![a, b][0] == g); }
        }
    }
    law_group_union_order_independent(seq![a, b], seq![b, a]);
}

} // verus!
