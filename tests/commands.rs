use metapac::backends::{
    AnyInstallOptions, AnyQueryInfo, Apt, Arch, ArchInstallOptions, ArchModification, Cargo, Dnf, DnfInstallOptions,
    Flatpak, FlatpakQueryInfo, Pipx, Rustup, RustupInstallOptions, Xbps, XbpsModificationOptions,
};
use metapac::commands::CommandLine;
use metapac::declaration::GroupValue;
use metapac::config::{ArchPackageManager, Config, Perms};
use metapac::rustup::{
    group_components_by_toolchains, install_components, toolchain_of_component_was_already_removed, RustupPackage,
};

fn s(x: &str) -> String {
    x.to_string()
}

fn args(c: &CommandLine) -> Vec<&str> {
    c.args.iter().map(|x| x.as_str()).collect()
}

#[test]
fn arch_front_ends() {
    assert_eq!(ArchPackageManager::Pacman.as_command(), "pacman");
    assert_eq!(ArchPackageManager::Paru.as_command(), "paru");
    assert_eq!(ArchPackageManager::Yay.as_command(), "yay");
    assert_eq!(ArchPackageManager::Pacman.change_perms(), Perms::AsRoot);
    assert_eq!(ArchPackageManager::Yay.change_perms(), Perms::Same);
}

#[test]
fn arch_install_lists_packages_then_optional_dependencies() {
    let mut config = Config::default();
    config.arch_package_manager = ArchPackageManager::Paru;
    let packages = vec![
        (s("mpv"), AnyInstallOptions::Arch(ArchInstallOptions { optional_deps: vec![s("yt-dlp")] })),
        (s("git"), AnyInstallOptions::Arch(ArchInstallOptions { optional_deps: vec![] })),
    ];
    let c = Arch::install_packages(&packages, true, &config).unwrap();
    assert_eq!(args(&c), vec!["paru", "--sync", "--asexplicit", "--noconfirm", "mpv", "git", "yt-dlp"]);
    assert_eq!(c.perms, Perms::Same);
    assert!(Arch::install_packages(&vec![], true, &config).is_none());
}

#[test]
fn arch_removal_marks_then_sweeps_orphans() {
    let mut config = Config::default();
    config.arch_rm_args = vec![s("--cascade")];
    let c = Arch::remove_packages(&vec![s("vim")], &config).unwrap();
    assert_eq!(args(&c), vec!["pacman", "--database", "--asdeps", "vim"]);
    assert_eq!(c.perms, Perms::AsRoot);
    assert_eq!(args(&Arch::orphans_query(&config)), vec!["pacman", "--query", "--deps", "--unrequired", "--quiet"]);
    let sweep = Arch::remove_orphans("vim\ngpm\n", false, &config).unwrap();
    assert_eq!(args(&sweep), vec!["pacman", "--remove", "--nosave", "--recursive", "--cascade", "vim", "gpm"]);
    assert!(Arch::remove_orphans("", true, &config).is_none());
    let m = vec![(s("a"), ArchModification { make_implicit: true }), (s("b"), ArchModification { make_implicit: false })];
    assert_eq!(args(&Arch::modify_packages(&m, &config).unwrap()), vec!["pacman", "--database", "--asdeps", "a"]);
}

#[test]
fn arch_query_reads_both_listings() {
    let r = Arch::query_installed_packages("curl\r\nvim\n", "libcurl4\n");
    let names: Vec<&str> = r.iter().map(|(n, _)| n.as_str()).collect();
    assert_eq!(names, vec!["curl", "vim", "libcurl4"]);
    assert!(matches!(r[0].1, AnyQueryInfo::Arch(i) if i.explicit));
    assert!(matches!(r[2].1, AnyQueryInfo::Arch(i) if !i.explicit));
    let (explicit, deps) = Arch::queries(&Config::default());
    assert_eq!(args(&explicit), vec!["pacman", "--query", "--explicit", "--quiet"]);
    assert_eq!(args(&deps), vec!["pacman", "--query", "--deps", "--quiet"]);
}

#[test]
fn simple_backends_build_name_lists() {
    let p = vec![s("a"), s("b")];
    assert_eq!(args(&Apt::install_packages(&p, true).unwrap()), vec!["apt-get", "install", "--yes", "a", "b"]);
    assert_eq!(args(&Apt::remove_packages(&p, false).unwrap()), vec!["apt-get", "remove", "a", "b"]);
    assert_eq!(args(&Pipx::install_packages(&p).unwrap()), vec!["pipx", "install", "a", "b"]);
    assert_eq!(args(&Pipx::remove_packages(&p).unwrap()), vec!["pipx", "uninstall", "a", "b"]);
    assert_eq!(args(&Xbps::install_packages(&p, true).unwrap()), vec!["xbps-install", "-S", "-y", "a", "b"]);
    assert_eq!(args(&Xbps::remove_packages(&p, false).unwrap()), vec!["xbps-remove", "-R", "a", "b"]);
    assert_eq!(args(&Cargo::remove_packages(&p).unwrap()), vec!["cargo", "uninstall", "a", "b"]);
    assert_eq!(args(&Dnf::remove_packages(&p, true).unwrap()), vec!["dnf", "remove", "--assumeyes", "a", "b"]);
    assert!(Apt::install_packages(&vec![], true).is_none());
    let m = vec![(s("x"), XbpsModificationOptions { make_implicit: true })];
    assert_eq!(args(&Xbps::modify_packages(&m).unwrap()), vec!["xbps-pkgdb", "-m", "auto", "x"]);
    let q = Apt::query_installed_packages("bash\ncoreutils\n");
    assert_eq!(q.len(), 2);
    assert_eq!(q[1].0, "coreutils");
    let n = Pipx::query_installed_packages(&vec![s("black")]);
    assert_eq!(n[0].0, "black");
}

#[test]
fn flatpak_scope_follows_config() {
    let mut config = Config::default();
    let p = vec![s("org.gimp.GIMP")];
    let c = Flatpak::install_packages(&p, false, &config).unwrap();
    assert_eq!(args(&c), vec!["flatpak", "install", "--system", "org.gimp.GIMP"]);
    config.flatpak_systemwide = false;
    let c = Flatpak::remove_packages(&p, true, &config).unwrap();
    assert_eq!(args(&c), vec!["flatpak", "uninstall", "--user", "--assumeyes", "org.gimp.GIMP"]);
    let q = Flatpak::query_installed_packages("a\nboth\n", "both\n");
    assert_eq!(q[0].0, "both");
    assert!(matches!(q[0].1, AnyQueryInfo::Flatpak(FlatpakQueryInfo { systemwide: false })));
    assert!(matches!(q[1].1, AnyQueryInfo::Flatpak(FlatpakQueryInfo { systemwide: true })));
    let mut installed = metapac::query::PackagesQuery::new();
    installed.insert_report(metapac::backend::AnyBackend::Flatpak, q, &config);
    let explicit = installed.explicit_package_ids();
    assert!(explicit.contains(metapac::backend::AnyBackend::Flatpak, "both"));
}

#[test]
fn cargo_install_batches_crates_by_options() {
    let git = || AnyInstallOptions::Cargo(metapac::backends::CargoInstallOptions {
        git: Some(s("https://example.org/foo")),
        all_features: false,
        no_default_features: true,
        features: vec![s("x"), s("y")],
    });
    let default = || AnyInstallOptions::default_for(metapac::backend::AnyBackend::Cargo);
    let packages = vec![(s("foo"), git()), (s("bar"), default()), (s("baz"), default()), (s("qux"), git())];
    let c = Cargo::install_packages(&packages);
    assert_eq!(c.len(), 2);
    assert_eq!(args(&c[0]), vec![
        "cargo", "install", "--git", "https://example.org/foo", "--no-default-features", "--features", "x", "y", "foo",
        "qux",
    ]);
    assert_eq!(args(&c[1]), vec!["cargo", "install", "bar", "baz"]);
    assert_eq!(c[1].perms, Perms::AsRoot);
    assert!(Cargo::install_packages(&vec![]).is_empty());
}

#[test]
fn cargo_crate_keys() {
    let (n, v, g) = Cargo::parse_crate_key("ripgrep 14.1.0 (registry+https://github.com/rust-lang/crates.io-index)").unwrap();
    assert_eq!((n.as_str(), v.as_str(), g), ("ripgrep", "14.1.0", None));
    let (n, _, g) = Cargo::parse_crate_key("foo 0.1.0 (git+https://github.com/a/foo#abcdef)").unwrap();
    assert_eq!(n, "foo");
    assert_eq!(g, Some(s("https://github.com/a/foo")));
    assert!(Cargo::parse_crate_key("nospace").is_none());
}

#[test]
fn dnf_packages_and_repositories() {
    assert_eq!(Dnf::parse_package("fedora/vim"), "vim");
    assert_eq!(Dnf::parse_package("@System/bash"), "bash");
    assert_eq!(Dnf::parse_package("copr:fedora/foo"), "copr:fedora/foo");
    assert_eq!(Dnf::parse_package("rpmfusion/mpv"), "rpmfusion/mpv");
    let dnf = |repo: Option<&str>| AnyInstallOptions::Dnf(DnfInstallOptions { repo: repo.map(s) });
    let packages = vec![
        (s("vim"), dnf(None)),
        (s("mpv"), dnf(Some("rpmfusion"))),
        (s("code"), dnf(Some("vscode"))),
        (s("git"), dnf(None)),
        (s("vlc"), dnf(Some("rpmfusion"))),
    ];
    let c = Dnf::install_packages(&packages, false);
    let all: Vec<Vec<&str>> = c.iter().map(args).collect();
    assert_eq!(all, vec![
        vec!["dnf", "install", "--repo", "updates", "--repo", "fedora", "vim", "git"],
        vec!["dnf", "install", "--repo", "rpmfusion", "mpv", "vlc"],
        vec!["dnf", "install", "--repo", "vscode", "code"],
    ]);
    let c = Dnf::install_packages(&vec![(s("vim"), dnf(None))], true);
    assert_eq!(args(&c[0]), vec!["dnf", "install", "--repo", "updates", "--repo", "fedora", "--assumeyes", "vim"]);
    assert!(Dnf::install_packages(&vec![], true).is_empty());
    let q = Dnf::query_installed_packages("updates/git\n", "fedora/git\nfedora/glibc\n");
    let names: Vec<&str> = q.iter().map(|(n, _)| n.as_str()).collect();
    assert_eq!(names, vec!["git", "git", "glibc"]);
}

#[test]
fn xbps_lines_give_names() {
    assert_eq!(Xbps::package_name("ii vim-9.0.1_1    Vi IMproved"), "vim");
    assert_eq!(Xbps::package_name("?? xorg-server-21.1_2 X server"), "xorg-server");
    let q = Xbps::query_installed_packages("ii a-1_1 x\nuu b-c-2_1 y\n");
    assert_eq!(q[0].0, "a");
    assert_eq!(q[1].0, "b-c");
}

#[test]
fn rustup_helpers() {
    let mut val = vec![];
    install_components("cargo-x86_64-unknown-linux-gnu", "stable", &mut val);
    install_components("rust-docs-x86_64-unknown-linux-gnu", "stable", &mut val);
    assert_eq!(val, vec![s("stable/cargo"), s("stable/rust-docs")]);
    let c = |t: &str, n: &str| RustupPackage { toolchain: s(t), component: s(n) };
    let groups = group_components_by_toolchains(vec![c("stable", "a"), c("nightly", "b"), c("stable", "c")]);
    assert_eq!(groups.len(), 2);
    assert_eq!(groups[0].iter().map(|p| p.component.as_str()).collect::<Vec<_>>(), vec!["a", "c"]);
    assert_eq!(groups[1][0].toolchain, "nightly");
    assert!(toolchain_of_component_was_already_removed(&vec![s("nightly")], &c("nightly", "x")));
    assert!(!toolchain_of_component_was_already_removed(&vec![s("beta")], &c("nightly", "x")));
    let packages = vec![
        (s("stable"), AnyInstallOptions::Rustup(RustupInstallOptions { components: vec![s("clippy")] })),
        (s("nightly"), AnyInstallOptions::Rustup(RustupInstallOptions { components: vec![] })),
    ];
    let cmds = Rustup::install_packages(&packages);
    let all: Vec<Vec<&str>> = cmds.iter().map(args).collect();
    assert_eq!(all, vec![
        vec!["rustup", "toolchain", "install", "stable"],
        vec!["rustup", "component", "add", "--toolchain", "stable", "clippy"],
        vec!["rustup", "toolchain", "install", "nightly"],
    ]);
    assert_eq!(args(&Rustup::remove_packages(&vec![s("beta")])[0]), vec!["rustup", "toolchain", "remove", "beta"]);
    assert_eq!(Rustup::parse_toolchains("stable-x86_64 (default)\nnightly\n"), vec![s("stable-x86_64"), s("nightly")]);
    let (name, info) = Rustup::query_toolchain(&s("stable"), "cargo\nrustc\n");
    assert_eq!(name, "stable");
    assert!(matches!(info, AnyQueryInfo::Rustup(ref i) if i.components.len() == 2));
}

#[test]
fn cargo_record_lists_installed_crates() {
    let entry = |all: bool, features: Vec<&str>| {
        GroupValue::Table(vec![
            (s("all_features"), GroupValue::Boolean(all)),
            (s("no_default_features"), GroupValue::Boolean(false)),
            (s("features"), GroupValue::Array(features.into_iter().map(|f| GroupValue::String(s(f))).collect())),
        ])
    };
    let record = GroupValue::Table(vec![(
        s("installs"),
        GroupValue::Table(vec![
            (s("ripgrep 14.1.0 (registry+https://github.com/rust-lang/crates.io-index)"), entry(false, vec![])),
            (s("foo 0.2.0 (git+https://github.com/a/foo#0123)"), entry(true, vec!["x"])),
        ]),
    )]);
    let found = Cargo::extract_packages(&record).unwrap();
    assert_eq!(found.len(), 2);
    assert_eq!(found[0].0, "ripgrep");
    match &found[1].1 {
        AnyQueryInfo::Cargo(i) => {
            assert_eq!(i.version, "0.2.0");
            assert_eq!(i.git.as_deref(), Some("https://github.com/a/foo"));
            assert!(i.all_features);
            assert_eq!(i.features, vec![s("x")]);
        }
        _ => panic!("cargo information expected"),
    }
    let broken = GroupValue::Table(vec![(
        s("installs"),
        GroupValue::Table(vec![(s("bar 1.0.0 (registry+x)"), GroupValue::Table(vec![]))]),
    )]);
    assert!(Cargo::extract_packages(&broken).is_none());
    assert!(Cargo::extract_packages(&GroupValue::Table(vec![])).is_none());
}

#[test]
fn pipx_listing_names_applications() {
    let listing = GroupValue::Table(vec![(
        s("venvs"),
        GroupValue::Table(vec![(s("black"), GroupValue::Table(vec![])), (s("ruff"), GroupValue::Other)]),
    )]);
    assert_eq!(Pipx::extract_package_names(&listing), Some(vec![s("black"), s("ruff")]));
    assert_eq!(Pipx::extract_package_names(&GroupValue::Integer(1)), None);
}

#[test]
fn query_commands_and_probes() {
    let config = Config::default();
    assert_eq!(metapac::commands::probe_command(metapac::backend::AnyBackend::Xbps, &config), "xbps-query");
    assert_eq!(metapac::commands::probe_command(metapac::backend::AnyBackend::Arch, &config), "pacman");
    assert_eq!(args(&Apt::query()), vec!["apt-mark", "showmanual"]);
    assert_eq!(args(&Pipx::query()), vec!["pipx", "list", "--json"]);
    assert_eq!(args(&Xbps::query()), vec!["xbps-query", "-l"]);
    let (user, all) = Dnf::queries();
    assert_eq!(args(&user), vec!["dnf", "repoquery", "--userinstalled", "--queryformat", "%{from_repo}/%{name}"]);
    assert_eq!(args(&all)[2], "--installed");
    let (system, per_user) = Flatpak::queries();
    assert_eq!(args(&system), vec!["flatpak", "list", "--system", "--app", "--columns=application"]);
    assert_eq!(args(&per_user)[2], "--user");
    assert_eq!(args(&Rustup::toolchains_query()), vec!["rustup", "toolchain", "list"]);
    assert_eq!(
        args(&Rustup::components_query("stable")),
        vec!["rustup", "component", "list", "--installed", "--toolchain", "stable"]
    );
}
