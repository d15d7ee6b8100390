//! Group-file declarations: a bare identifier, or a record with a `package`
//! field and backend-specific option fields.
use vstd::prelude::*;
use crate::backend::AnyBackend;
use crate::backends::{AnyInstallOptions, ArchInstallOptions, CargoInstallOptions, DnfInstallOptions, RustupInstallOptions, InstallOptionsView, default_options, opt_string_view, strings_view};
use crate::text::str_eq;

verus! {

/// A structured value: an entry of a group file, or what a package manager
/// prints in a structured format.
#[derive(Debug)]
pub enum GroupValue {
    String(String),
    Integer(i64),
    Boolean(bool),
    Array(Vec<GroupValue>),
    Table(Vec<(String, GroupValue)>),
    /// Any other kind of value (a date, a fraction).
    Other,
}

/// The value of the first field named `key`.
pub open spec fn field_of(fields: Seq<(String, GroupValue)>, key: Seq<char>) -> Option<GroupValue>
    decreases fields.len(),
{
    if fields.len() == 0 {
        None
    } else if fields[0].0@ == key {
        Some(fields[0].1)
    } else {
        field_of(fields.drop_first(), key)
    }
}

/// An optional text field: `None` if it has another type.
pub open spec fn spec_opt_text(v: Option<GroupValue>) -> Option<Option<Seq<char>>> {
    match v {
        None => Some(None),
        Some(GroupValue::String(s)) => Some(Some(s@)),
        Some(_) => None,
    }
}

/// A flag, false when absent: `None` if it has another type.
pub open spec fn spec_flag(v: Option<GroupValue>) -> Option<bool> {
    match v {
        None => Some(false),
        Some(GroupValue::Boolean(b)) => Some(b),
        Some(_) => None,
    }
}

pub open spec fn is_text(v: GroupValue) -> bool {
    v is String
}

pub open spec fn text_view(v: GroupValue) -> Seq<char> {
    match v {
        GroupValue::String(s) => s@,
        _ => Seq::empty(),
    }
}

/// The texts of a list of values.
pub open spec fn texts_view(items: Seq<GroupValue>) -> Seq<Seq<char>> {
    items.map_values(|g: GroupValue| text_view(g))
}

/// A list of texts, empty when absent: `None` if it has another type.
pub open spec fn spec_text_list(v: Option<GroupValue>) -> Option<Seq<Seq<char>>> {
    match v {
        None => Some(Seq::empty()),
        Some(GroupValue::Array(items)) => if forall|i: int| 0 <= i < items@.len() ==> is_text(#[trigger] items@[i]) {
            Some(texts_view(items@))
        } else {
            None
        },
        Some(_) => None,
    }
}

/// The install options that a record's fields give `backend`; fields that the
/// backend does not know are ignored.
pub open spec fn spec_record_options(backend: AnyBackend, fields: Seq<(String, GroupValue)>) -> Option<InstallOptionsView> {
    match backend {
        AnyBackend::Arch => match spec_text_list(field_of(fields, "optional_deps"@)) {
            Some(deps) => Some(InstallOptionsView::Arch { optional_deps: deps }),
            None => None,
        },
        AnyBackend::Cargo => match (
            spec_opt_text(field_of(fields, "git"@)),
            spec_flag(field_of(fields, "all_features"@)),
            spec_flag(field_of(fields, "no_default_features"@)),
            spec_text_list(field_of(fields, "features"@)),
        ) {
            (Some(git), Some(all), Some(no_default), Some(features)) => Some(InstallOptionsView::Cargo {
                git: git,
                all_features: all,
                no_default_features: no_default,
                features: features,
            }),
            _ => None,
        },
        AnyBackend::Dnf => match spec_opt_text(field_of(fields, "repo"@)) {
            Some(repo) => Some(InstallOptionsView::Dnf { repo: repo }),
            None => None,
        },
        AnyBackend::Rustup => match spec_text_list(field_of(fields, "components"@)) {
            Some(components) => Some(InstallOptionsView::Rustup { components: components }),
            None => None,
        },
        _ => Some(InstallOptionsView::Plain(backend)),
    }
}

/// Why a declaration was refused.
#[derive(Debug, Clone, Copy, PartialEq, Eq, Structural)]
pub enum DeclarationErrorKind {
    /// The entry is neither a text nor a record.
    NotStringOrTable,
    /// The record has no text `package` field.
    MissingPackage,
    /// An option field has the wrong type.
    InvalidOption,
}

/// What a declaration for `backend` denotes: the identifier and its options.
pub open spec fn spec_parse_declaration(backend: AnyBackend, value: GroupValue)
    -> Result<(Seq<char>, InstallOptionsView), DeclarationErrorKind>
{
    match value {
        GroupValue::String(s) => Ok((s@, default_options(backend))),
        GroupValue::Table(fields) => match field_of(fields@, "package"@) {
            Some(GroupValue::String(p)) => match spec_record_options(backend, fields@) {
                Some(o) => Ok((p@, o)),
                None => Err(DeclarationErrorKind::InvalidOption),
            },
            _ => Err(DeclarationErrorKind::MissingPackage),
        },
        _ => Err(DeclarationErrorKind::NotStringOrTable),
    }
}

/// The value of the first field named `key`.
pub fn field<'a>(fields: &'a Vec<(String, GroupValue)>, key: &str) -> (r: Option<&'a GroupValue>)
    ensures
        match r {
            Some(v) => field_of(fields@, key@) == Some(*v),
            None => field_of(fields@, key@) is None,
        },
{
    let mut i: usize = 0;
    assert(fields@.subrange(0, fields@.len() as int) == fields@);
    while i < fields.len()
        invariant
            i <= fields@.len(),
            field_of(fields@, key@) == field_of(fields@.subrange(i as int, fields@.len() as int), key@),
        decreases fields@.len() - i,
    {
        assert(fields@.subrange(i as int, fields@.len() as int).drop_first()
            =~= fields@.subrange(i + 1, fields@.len() as int));
        if str_eq(fields[i].0.as_str(), key) {
            return Some(&fields[i].1);
        }
        i = i + 1;
    }
    None
}

fn opt_text(v: Option<&GroupValue>) -> (r: Result<Option<String>, ()>)
    ensures
        match (r, spec_opt_text(match v { Some(x) => Some(*x), None => None })) {
            (Ok(got), Some(want)) => opt_string_view(got) == want,
            (Err(_), None) => true,
            _ => false,
        },
{
    match v {
        None => Ok(None),
        Some(GroupValue::String(s)) => Ok(Some(s.clone())),
        Some(_) => Err(()),
    }
}

pub(crate) fn flag(v: Option<&GroupValue>) -> (r: Result<bool, ()>)
    ensures
        match (r, spec_flag(match v { Some(x) => Some(*x), None => None })) {
            (Ok(got), Some(want)) => got == want,
            (Err(_), None) => true,
            _ => false,
        },
{
    match v {
        None => Ok(false),
        Some(GroupValue::Boolean(b)) => Ok(*b),
        Some(_) => Err(()),
    }
}

pub(crate) fn text_list(v: Option<&GroupValue>) -> (r: Result<Vec<String>, ()>)
    ensures
        match (r, spec_text_list(match v { Some(x) => Some(*x), None => None })) {
            (Ok(got), Some(want)) => strings_view(got@) == want,
            (Err(_), None) => true,
            _ => false,
        },
{
    match v {
        None => {
            let out: Vec<String> = Vec::new();
            assert(strings_view(out@) =~= Seq::<Seq<char>>::empty());
            Ok(out)
        },
        Some(GroupValue::Array(items)) => {
            let ghost given = match v { Some(x) => Some(*x), None => None };
            let mut out: Vec<String> = Vec::new();
            let mut i: usize = 0;
            while i < items.len()
                invariant
                    given == Some(GroupValue::Array(*items)),
                    given == (match v { Some(x) => Some(*x), None => None }),
                    out@.len() == i,
                    i <= items@.len(),
                    forall|j: int| 0 <= j < i ==> is_text(#[trigger] items@[j]),
                    strings_view(out@) == texts_view(items@.subrange(0, i as int)),
                decreases items@.len() - i,
            {
                match &items[i] {
                    GroupValue::String(s) => {
                        assert(text_view(items@[i as int]) == s@);
                        let ghost before = out@;
                        let t = s.clone();
                        assert(t@ == s@);
                        out.push(t);
                        assert(out@[i as int]@ == s@);
                        assert(items@.subrange(0, i + 1)[i as int] == items@[i as int]);
                        assert forall|j: int| 0 <= j < i + 1 implies strings_view(out@)[j] == texts_view(items@.subrange(0, i + 1))[j] by {
                            if j < i {
                                assert(strings_view(before)[j] == texts_view(items@.subrange(0, i as int))[j]);
                            }
                        }
                        assert(strings_view(out@) =~= texts_view(items@.subrange(0, i + 1)));
                    },
                    _ => {
                        assert(!is_text(items@[i as int]));
                        assert(spec_text_list(Some(GroupValue::Array(*items))) is None);
                        return Err(());
                    },
                }
                i = i + 1;
            }
            assert(items@.subrange(0, items@.len() as int) == items@);
            Ok(out)
        },
        Some(_) => Err(()),
    }
}

/// The install options that a record's fields give `backend`.
pub fn record_options(backend: AnyBackend, fields: &Vec<(String, GroupValue)>) -> (r: Option<AnyInstallOptions>)
    ensures
        match (r, spec_record_options(backend, fields@)) {
            (Some(got), Some(want)) => got@ == want && got.spec_backend() == backend,
            (None, None) => true,
            _ => false,
        },
{
    match backend {
        AnyBackend::Arch => match text_list(field(fields, "optional_deps")) {
            Ok(deps) => Some(AnyInstallOptions::Arch(ArchInstallOptions { optional_deps: deps })),
            Err(_) => None,
        },
        AnyBackend::Cargo => {
            let git = opt_text(field(fields, "git"));
            let all = flag(field(fields, "all_features"));
            let no_default = flag(field(fields, "no_default_features"));
            let features = text_list(field(fields, "features"));
            match (git, all, no_default, features) {
                (Ok(git), Ok(all_features), Ok(no_default_features), Ok(features)) => Some(
                    AnyInstallOptions::Cargo(CargoInstallOptions { git, all_features, no_default_features, features }),
                ),
                _ => None,
            }
        },
        AnyBackend::Dnf => match opt_text(field(fields, "repo")) {
            Ok(repo) => Some(AnyInstallOptions::Dnf(DnfInstallOptions { repo })),
            Err(_) => None,
        },
        AnyBackend::Rustup => match text_list(field(fields, "components")) {
            Ok(components) => Some(AnyInstallOptions::Rustup(RustupInstallOptions { components })),
            Err(_) => None,
        },
        _ => Some(AnyInstallOptions::default_for(backend)),
    }
}

/// A refused declaration: which backend it was declared under, and why.
#[derive(Debug, Clone, Copy, PartialEq, Eq, Structural)]
pub struct DeclarationError {
    pub backend: AnyBackend,
    pub kind: DeclarationErrorKind,
}

/// Parses one declaration under `backend`: a bare identifier takes the
/// backend's default options; a record takes its `package` field and options.
pub fn parse_declaration(backend: AnyBackend, value: &GroupValue) -> (r: Result<(String, AnyInstallOptions), DeclarationError>)
    ensures
        match (r, spec_parse_declaration(backend, *value)) {
            (Ok(got), Ok(want)) => got.0@ == want.0 && got.1@ == want.1 && got.1.spec_backend() == backend,
            (Err(e), Err(k)) => e.backend == backend && e.kind == k,
            _ => false,
        },
{
    match value {
        GroupValue::String(s) => Ok((s.clone(), AnyInstallOptions::default_for(backend))),
        GroupValue::Table(fields) => match field(fields, "package") {
            Some(GroupValue::String(p)) => match record_options(backend, fields) {
                Some(o) => Ok((p.clone(), o)),
                None => Err(DeclarationError { backend, kind: DeclarationErrorKind::InvalidOption }),
            },
            _ => Err(DeclarationError { backend, kind: DeclarationErrorKind::MissingPackage }),
        },
        _ => Err(DeclarationError { backend, kind: DeclarationErrorKind::NotStringOrTable }),
    }
}

/// A bare identifier and a record that holds only that identifier, with every
/// option field left out, denote the same package with the same options.
pub proof fn law_bare_equals_minimal_record(backend: AnyBackend, id: String, fields: Vec<(String, GroupValue)>)
    requires
        field_of(fields@, "package"@) == Some(GroupValue::String(id)),
        field_of(fields@, "optional_deps"@) is None,
        field_of(fields@, "git"@) is None,
        field_of(fields@, "all_features"@) is None,
        field_of(fields@, "no_default_features"@) is None,
        field_of(fields@, "features"@) is None,
        field_of(fields@, "repo"@) is None,
        field_of(fields@, "components"@) is None,
    ensures
        spec_parse_declaration(backend, GroupValue::String(id))
            == spec_parse_declaration(backend, GroupValue::Table(fields)),
{
}

} // verus!
