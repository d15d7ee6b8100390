use metapac::backend::AnyBackend;
use metapac::backends::{AnyInstallOptions, AnyQueryInfo, ArchQueryInfo, DnfQueryInfo, XbpsQueryInfo};
use metapac::commands::CommandLine;
use metapac::config::{is_enabled, Config};
use metapac::declaration::{parse_declaration, DeclarationErrorKind, GroupValue};
use metapac::groups::{
    active_group_names, parse_group_file, ConfigurationError, GroupErrorKind, Groups, RawInstallOptions,
};
use metapac::ids::{PackageIds, PackagesRemove};
use metapac::query::{missing, unmanaged, unmanaged_explicit, PackagesQuery};
use metapac::backends::Cargo;

fn s(x: &str) -> String {
    x.to_string()
}

fn ids(pairs: &[(AnyBackend, &str)]) -> PackageIds {
    let mut r = PackageIds::new();
    for (b, p) in pairs {
        r.insert(*b, s(p));
    }
    r
}

fn sorted(ids: &PackageIds, b: AnyBackend) -> Vec<String> {
    let mut v = ids.backend_ids(b);
    v.sort();
    v
}

fn group(fields: Vec<(String, GroupValue)>) -> RawInstallOptions {
    parse_group_file(&fields).expect("valid group").0
}

fn strings(v: &[&str]) -> GroupValue {
    GroupValue::Array(v.iter().map(|x| GroupValue::String(s(x))).collect())
}

fn args(c: &CommandLine) -> Vec<&str> {
    c.args.iter().map(|x| x.as_str()).collect()
}

#[test]
fn package_ids_set_operations() {
    let mut a = PackageIds::new();
    assert!(a.is_empty());
    assert!(a.insert(AnyBackend::Cargo, s("ripgrep")));
    assert!(!a.insert(AnyBackend::Cargo, s("ripgrep")));
    assert!(a.contains(AnyBackend::Cargo, "ripgrep"));
    assert!(!a.contains(AnyBackend::Apt, "ripgrep"));
    assert!(!a.is_empty());
    let mut b = ids(&[(AnyBackend::Apt, "curl"), (AnyBackend::Cargo, "ripgrep")]);
    a.append(&mut b);
    assert!(b.is_empty());
    assert!(a.contains(AnyBackend::Apt, "curl"));
    assert!(a.remove(AnyBackend::Cargo, "ripgrep"));
    assert!(!a.remove(AnyBackend::Cargo, "ripgrep"));
    assert!(!a.contains(AnyBackend::Cargo, "ripgrep"));
    let copy = PackagesRemove::from_packages_ids_defaults(&a);
    assert_eq!(sorted(&copy.ids, AnyBackend::Apt), vec![s("curl")]);
}

#[test]
fn missing_and_unmanaged_are_the_two_differences() {
    let desired = ids(&[(AnyBackend::Cargo, "ripgrep"), (AnyBackend::Cargo, "bat"), (AnyBackend::Apt, "curl")]);
    let installed = ids(&[(AnyBackend::Cargo, "bat"), (AnyBackend::Cargo, "fd"), (AnyBackend::Apt, "vim")]);
    let m = PackageIds::missing(&desired, &installed);
    let u = PackageIds::unmanaged(&desired, &installed);
    assert_eq!(sorted(&m, AnyBackend::Cargo), vec![s("ripgrep")]);
    assert_eq!(sorted(&m, AnyBackend::Apt), vec![s("curl")]);
    assert_eq!(sorted(&u, AnyBackend::Cargo), vec![s("fd")]);
    assert_eq!(sorted(&u, AnyBackend::Apt), vec![s("vim")]);
    for b in AnyBackend::all() {
        for p in m.backend_ids(b) {
            assert!(!u.contains(b, &p));
        }
    }
}

#[test]
fn identifiers_match_exactly() {
    let desired = ids(&[(AnyBackend::Dnf, "vim")]);
    let installed = ids(&[(AnyBackend::Dnf, "copr/vim"), (AnyBackend::Dnf, "Vim")]);
    let m = PackageIds::missing(&desired, &installed);
    assert_eq!(sorted(&m, AnyBackend::Dnf), vec![s("vim")]);
}

#[test]
fn nothing_missing_after_sync() {
    let desired = ids(&[(AnyBackend::Cargo, "ripgrep"), (AnyBackend::Apt, "curl")]);
    let mut installed = ids(&[(AnyBackend::Apt, "curl"), (AnyBackend::Apt, "vim")]);
    let mut m = PackageIds::missing(&desired, &installed);
    assert!(!m.is_empty());
    installed.append(&mut m);
    assert!(PackageIds::missing(&desired, &installed).is_empty());
}

#[test]
fn disabling_a_backend_only_affects_that_backend() {
    let all = ids(&[(AnyBackend::Cargo, "ripgrep"), (AnyBackend::Apt, "curl"), (AnyBackend::Dnf, "vim")]);
    let open = Config::default();
    let mut closed = Config::default();
    closed.disabled_backends = vec![s("CARGO")];
    assert!(is_enabled(AnyBackend::Cargo, &open));
    assert!(!is_enabled(AnyBackend::Cargo, &closed));
    assert!(is_enabled(AnyBackend::Apt, &closed));
    let a = all.only_enabled(&open);
    let b = all.only_enabled(&closed);
    assert_eq!(sorted(&a, AnyBackend::Cargo), vec![s("ripgrep")]);
    assert!(sorted(&b, AnyBackend::Cargo).is_empty());
    for backend in [AnyBackend::Apt, AnyBackend::Dnf, AnyBackend::Arch] {
        assert_eq!(sorted(&a, backend), sorted(&b, backend));
    }
}

#[test]
fn backend_names_ignore_case() {
    assert_eq!(AnyBackend::from_name("CarGo"), Some(AnyBackend::Cargo));
    assert_eq!(AnyBackend::from_name("FLATPAK"), Some(AnyBackend::Flatpak));
    assert_eq!(AnyBackend::from_name("foobar"), None);
    assert_eq!(AnyBackend::from_folded_name("xbps"), Some(AnyBackend::Xbps));
    assert_eq!(AnyBackend::from_folded_name("Xbps"), None);
    assert_eq!(AnyBackend::Rustup.name(), "Rustup");
    assert_eq!(AnyBackend::all().len(), 8);
}

#[test]
fn bare_identifier_equals_minimal_record() {
    for backend in AnyBackend::all() {
        let bare = parse_declaration(backend, &GroupValue::String(s("ripgrep"))).unwrap();
        let record = GroupValue::Table(vec![(s("package"), GroupValue::String(s("ripgrep")))]);
        let rec = parse_declaration(backend, &record).unwrap();
        assert_eq!(bare.0, rec.0);
        assert_eq!(format!("{:?}", bare.1), format!("{:?}", rec.1));
    }
}

#[test]
fn record_options_are_read() {
    let record = GroupValue::Table(vec![
        (s("package"), GroupValue::String(s("foo"))),
        (s("git"), GroupValue::String(s("https://example.org/foo"))),
        (s("all_features"), GroupValue::Boolean(true)),
        (s("features"), strings(&["a", "b"])),
        (s("unknown"), GroupValue::Integer(3)),
    ]);
    let (id, options) = parse_declaration(AnyBackend::Cargo, &record).unwrap();
    assert_eq!(id, "foo");
    match options {
        AnyInstallOptions::Cargo(o) => {
            assert_eq!(o.git.as_deref(), Some("https://example.org/foo"));
            assert!(o.all_features);
            assert!(!o.no_default_features);
            assert_eq!(o.features, vec![s("a"), s("b")]);
        }
        _ => panic!("cargo options expected"),
    }
}

#[test]
fn malformed_declarations_are_refused() {
    let e = parse_declaration(AnyBackend::Apt, &GroupValue::Integer(1)).unwrap_err();
    assert_eq!(e.backend, AnyBackend::Apt);
    assert_eq!(e.kind, DeclarationErrorKind::NotStringOrTable);
    let no_package = GroupValue::Table(vec![(s("repo"), GroupValue::String(s("x")))]);
    let e = parse_declaration(AnyBackend::Dnf, &no_package).unwrap_err();
    assert_eq!(e.kind, DeclarationErrorKind::MissingPackage);
    let bad = GroupValue::Table(vec![
        (s("package"), GroupValue::String(s("foo"))),
        (s("features"), GroupValue::Boolean(true)),
    ]);
    let e = parse_declaration(AnyBackend::Cargo, &bad).unwrap_err();
    assert_eq!(e.kind, DeclarationErrorKind::InvalidOption);
    let not_list = vec![(s("cargo"), GroupValue::String(s("ripgrep")))];
    let e = parse_group_file(&not_list).unwrap_err();
    assert_eq!(e.backend, AnyBackend::Cargo);
    assert_eq!(e.kind, GroupErrorKind::NotArray);
    let bad_entry = vec![(s("Apt"), GroupValue::Array(vec![GroupValue::Boolean(false)]))];
    let e = parse_group_file(&bad_entry).unwrap_err();
    assert_eq!(e.kind, GroupErrorKind::Declaration(DeclarationErrorKind::NotStringOrTable));
}

#[test]
fn sync_installs_missing_crate_with_defaults() {
    let default_group = group(vec![(s("cargo"), strings(&["ripgrep"]))]);
    let groups = Groups { groups: vec![(s("default"), default_group)] };
    let (desired, conflicts) = groups.to_install_options();
    assert!(conflicts.is_empty());
    let installed = PackagesQuery::new();
    let m = missing(&desired.to_package_ids(), &installed);
    assert_eq!(sorted(&m, AnyBackend::Cargo), vec![s("ripgrep")]);
    for b in AnyBackend::all() {
        if b != AnyBackend::Cargo {
            assert!(m.backend_ids(b).is_empty());
        }
    }
    let action = desired.restrict(&m);
    assert_eq!(action.len(), 1);
    let entries = action.backend_entries(AnyBackend::Cargo);
    let commands = Cargo::install_packages(&entries);
    assert_eq!(commands.len(), 1);
    assert_eq!(args(&commands[0]), vec!["cargo", "install", "ripgrep"]);
}

#[test]
fn unmanaged_explicit_spares_dependencies() {
    let mut installed = PackagesQuery::new();
    installed.insert(AnyBackend::Arch, s("curl"), AnyQueryInfo::Arch(ArchQueryInfo { explicit: true }));
    installed.insert(AnyBackend::Arch, s("libcurl4"), AnyQueryInfo::Arch(ArchQueryInfo { explicit: false }));
    let desired = PackageIds::new();
    assert_eq!(sorted(&unmanaged(&desired, &installed), AnyBackend::Arch), vec![s("curl"), s("libcurl4")]);
    assert_eq!(sorted(&unmanaged_explicit(&desired, &installed), AnyBackend::Arch), vec![s("curl")]);
}

#[test]
fn unknown_reason_counts_as_explicit() {
    let mut installed = PackagesQuery::new();
    installed.insert(AnyBackend::Xbps, s("vim"), AnyQueryInfo::Xbps(XbpsQueryInfo {}));
    installed.insert(AnyBackend::Dnf, s("glibc"), AnyQueryInfo::Dnf(DnfQueryInfo { user: false }));
    let e = unmanaged_explicit(&PackageIds::new(), &installed);
    assert_eq!(sorted(&e, AnyBackend::Xbps), vec![s("vim")]);
    assert!(sorted(&e, AnyBackend::Dnf).is_empty());
}

#[test]
fn unrecognized_key_is_dropped() {
    let fields = vec![
        (s("foobar"), strings(&["ghost"])),
        (s("Cargo"), strings(&["ripgrep"])),
    ];
    let (raw, skipped) = parse_group_file(&fields).unwrap();
    assert_eq!(skipped, vec![s("foobar")]);
    assert_eq!(raw.entries.len(), 1);
    assert_eq!(raw.entries[0].0, AnyBackend::Cargo);
    assert_eq!(raw.entries[0].1, "ripgrep");
    let groups = Groups { groups: vec![(s("g"), raw)] };
    let (desired, _) = groups.to_install_options();
    let d = desired.to_package_ids();
    for b in AnyBackend::all() {
        assert!(!d.contains(b, "ghost"));
    }
}

#[test]
fn hostname_without_entry_is_a_configuration_error() {
    let mut config = Config::default();
    config.hostname_groups_enabled = true;
    config.hostname_groups = vec![(s("other"), vec![s("base")])];
    let found = vec![s("base"), s("desktop")];
    assert_eq!(active_group_names(&config, "laptop", &found), Err(ConfigurationError::NoHostnameEntry));
    assert_eq!(active_group_names(&config, "other", &found), Ok(vec![s("base")]));
    config.hostname_groups_enabled = false;
    assert_eq!(active_group_names(&config, "laptop", &found), Ok(found.clone()));
}

#[test]
fn group_union_ignores_order_and_keeps_first_options() {
    let a = group(vec![
        (s("cargo"), GroupValue::Array(vec![GroupValue::Table(vec![
            (s("package"), GroupValue::String(s("ripgrep"))),
            (s("all_features"), GroupValue::Boolean(true)),
        ])])),
        (s("apt"), strings(&["curl"])),
    ]);
    let b = group(vec![(s("cargo"), strings(&["ripgrep", "bat"]))]);
    let ab = Groups { groups: vec![(s("a"), a.clone()), (s("b"), b.clone())] };
    let ba = Groups { groups: vec![(s("b"), b), (s("a"), a)] };
    let (x, cx) = ab.to_install_options();
    let (y, cy) = ba.to_install_options();
    for backend in AnyBackend::all() {
        assert_eq!(sorted(&x.to_package_ids(), backend), sorted(&y.to_package_ids(), backend));
    }
    assert_eq!(cx.len(), 1);
    assert_eq!(cx[0].package, "ripgrep");
    assert_eq!(cx[0].kept_group, "a");
    assert_eq!(cx[0].dropped_group, "b");
    assert_eq!(cy[0].kept_group, "b");
    match x.options_of(AnyBackend::Cargo, "ripgrep") {
        Some(AnyInstallOptions::Cargo(o)) => assert!(o.all_features),
        _ => panic!("cargo options expected"),
    }
    assert_eq!(ab.contains(AnyBackend::Cargo, &s("ripgrep")), vec![s("a"), s("b")]);
    assert_eq!(ab.contains(AnyBackend::Apt, &s("curl")), vec![s("a")]);
}

#[test]
fn defaults_for_identifiers() {
    let m = ids(&[(AnyBackend::Dnf, "vim")]);
    let install = metapac::desired::PackagesInstall::from_packages_ids_defaults(&m);
    match install.options_of(AnyBackend::Dnf, "vim") {
        Some(AnyInstallOptions::Dnf(o)) => assert!(o.repo.is_none()),
        _ => panic!("dnf options expected"),
    }
}

#[test]
fn disabled_backend_drops_out_of_unmanaged() {
    let report = |names: &[&str]| -> Vec<(String, AnyQueryInfo)> {
        names.iter().map(|n| (s(n), AnyQueryInfo::Xbps(XbpsQueryInfo {}))).collect()
    };
    let unmanaged_under = |config: &Config| {
        let mut installed = PackagesQuery::new();
        installed.insert_report(AnyBackend::Cargo, report(&["ripgrep", "bat"]), config);
        installed.insert_report(AnyBackend::Apt, report(&["curl", "vim"]), config);
        unmanaged(&ids(&[(AnyBackend::Apt, "vim")]), &installed)
    };
    let open = Config::default();
    let mut closed = Config::default();
    closed.disabled_backends = vec![s("cargo")];
    let a = unmanaged_under(&open);
    let b = unmanaged_under(&closed);
    assert_eq!(sorted(&a, AnyBackend::Cargo), vec![s("bat"), s("ripgrep")]);
    assert!(sorted(&b, AnyBackend::Cargo).is_empty());
    assert_eq!(sorted(&a, AnyBackend::Apt), vec![s("curl")]);
    assert_eq!(sorted(&a, AnyBackend::Apt), sorted(&b, AnyBackend::Apt));
}
