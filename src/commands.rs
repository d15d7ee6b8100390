//! The command lines that carry out each backend's actions, and the parsing of
//! what each backend prints about installed packages.
use vstd::prelude::*;
use crate::backends::{
    AnyInstallOptions, AnyQueryInfo, Apt, AptQueryInfo, Arch, ArchModification, ArchQueryInfo, Cargo, CargoQueryInfo, Dnf,
    DnfQueryInfo, Flatpak, FlatpakQueryInfo, InstallOptionsView, Pipx, PipxQueryOptions, Rustup, Xbps,
    XbpsModificationOptions, XbpsQueryInfo, strings_view,
};
use crate::backend::AnyBackend;
use crate::config::{Config, Perms};
use crate::desired::same_options;
use crate::declaration::{GroupValue, field, field_of, flag, spec_flag, spec_text_list, text_list};
use crate::text::{lines, spec_lines, split_once, split_once_spec, before_char, before_char_owned, starts_with, str_contains, occurs_at};

verus! {

/// A command to run: its argument vector and whether it needs elevation.
#[derive(Debug, Clone)]
pub struct CommandLine {
    pub args: Vec<String>,
    pub perms: Perms,
}

impl CommandLine {
    pub open spec fn spec_args(&self) -> Seq<Seq<char>> {
        strings_view(self.args@)
    }
}

/// `flag` if `on`, nothing otherwise.
pub open spec fn flag_if(on: bool, flag: Seq<char>) -> Seq<Seq<char>> {
    if on {
        seq![flag]
    } else {
        Seq::empty()
    }
}

/// The concatenation of a list of lists.
pub open spec fn concat_all<A>(s: Seq<Seq<A>>) -> Seq<A>
    decreases s.len(),
{
    if s.len() == 0 {
        Seq::empty()
    } else {
        concat_all(s.drop_last()) + s.last()
    }
}

fn push_str(v: &mut Vec<String>, s: &str)
    ensures
        strings_view(final(v)@) == strings_view(old(v)@).push(s@),
{
    let ghost before = v@;
    v.push(s.to_owned());
    assert(strings_view(v@) =~= strings_view(before).push(s@));
}

fn push_flag(v: &mut Vec<String>, on: bool, flag: &str)
    ensures
        strings_view(final(v)@) == strings_view(old(v)@) + flag_if(on, flag@),
{
    if on {
        push_str(v, flag);
        assert(strings_view(v@) =~= strings_view(old(v)@) + flag_if(on, flag@));
    } else {
        assert(strings_view(v@) =~= strings_view(old(v)@) + flag_if(on, flag@));
    }
}

fn push_all(v: &mut Vec<String>, xs: &Vec<String>)
    ensures
        strings_view(final(v)@) == strings_view(old(v)@) + strings_view(xs@),
{
    let mut i: usize = 0;
    while i < xs.len()
        invariant
            i <= xs@.len(),
            strings_view(v@) == strings_view(old(v)@) + strings_view(xs@.subrange(0, i as int)),
        decreases xs@.len() - i,
    {
        let ghost before = v@;
        let t = xs[i].clone();
        v.push(t);
        assert(strings_view(v@) =~= strings_view(before).push(xs@[i as int]@));
        assert(strings_view(xs@.subrange(0, i + 1)) =~= strings_view(xs@.subrange(0, i as int)).push(xs@[i as int]@));
        assert(strings_view(v@) =~= strings_view(old(v)@) + strings_view(xs@.subrange(0, i + 1)));
        i = i + 1;
    }
    assert(xs@.subrange(0, xs@.len() as int) == xs@);
}

fn words2(a: &str, b: &str) -> (r: Vec<String>)
    ensures
        strings_view(r@) == seq![a@, b@],
{
    let mut v: Vec<String> = Vec::new();
    push_str(&mut v, a);
    push_str(&mut v, b);
    assert(strings_view(v@) =~= seq![a@, b@]);
    v
}

fn words3(a: &str, b: &str, c: &str) -> (r: Vec<String>)
    ensures
        strings_view(r@) == seq![a@, b@, c@],
{
    let mut v = words2(a, b);
    push_str(&mut v, c);
    assert(strings_view(v@) =~= seq![a@, b@, c@]);
    v
}

/// `head`, then `flag` if `on`, then `names`.
pub open spec fn spec_names_command(head: Seq<Seq<char>>, on: bool, flag: Seq<char>, names: Seq<String>) -> Seq<Seq<char>> {
    head + flag_if(on, flag) + strings_view(names)
}

fn names_command(head: Vec<String>, on: bool, flag: &str, names: &Vec<String>, perms: Perms) -> (r: CommandLine)
    ensures
        r.spec_args() == spec_names_command(strings_view(head@), on, flag@, names@),
        r.perms == perms,
{
    let mut args = head;
    push_flag(&mut args, on, flag);
    push_all(&mut args, names);
    CommandLine { args, perms }
}

/// Pairs of identifier and options, as the model sees them.
pub open spec fn entries_view(s: Seq<(String, AnyInstallOptions)>) -> Seq<(Seq<char>, InstallOptionsView)> {
    s.map_values(|e: (String, AnyInstallOptions)| (e.0@, e.1@))
}

/// The optional dependencies that options name for the Arch backend.
pub open spec fn arch_deps(o: InstallOptionsView) -> Seq<Seq<char>> {
    match o {
        InstallOptionsView::Arch { optional_deps } => optional_deps,
        _ => Seq::empty(),
    }
}

/// The Arch install command: the front-end's sync operation, marking the
/// packages explicit, then every package, then every optional dependency.
pub open spec fn spec_arch_install(command: Seq<char>, no_confirm: bool, entries: Seq<(Seq<char>, InstallOptionsView)>) -> Seq<Seq<char>> {
    seq![command, "--sync"@, "--asexplicit"@] + flag_if(no_confirm, "--noconfirm"@)
        + entries.map_values(|e: (Seq<char>, InstallOptionsView)| e.0)
        + concat_all(entries.map_values(|e: (Seq<char>, InstallOptionsView)| arch_deps(e.1)))
}

/// Query entries for every line of `output`, each with the same information.
fn entries_for_lines(output: &str, info: AnyQueryInfo, into: &mut Vec<(String, AnyQueryInfo)>)
    requires
        info.spec_is_plain(),
    ensures
        final(into)@.len() == old(into)@.len() + spec_lines(output@).len(),
        forall|i: int| 0 <= i < old(into)@.len() ==> #[trigger] final(into)@[i] == old(into)@[i],
        forall|i: int| 0 <= i < spec_lines(output@).len() ==> (#[trigger] final(into)@[old(into)@.len() + i]).0@
            == spec_lines(output@)[i] && final(into)@[old(into)@.len() + i].1 == info,
{
    let ls = lines(output);
    assert(ls@.len() == spec_lines(output@).len());
    let mut i: usize = 0;
    while i < ls.len()
        invariant
            i <= ls@.len(),
            info.spec_is_plain(),
            ls@.map_values(|l: String| l@) == spec_lines(output@),
            into@.len() == old(into)@.len() + i,
            forall|j: int| 0 <= j < old(into)@.len() ==> #[trigger] into@[j] == old(into)@[j],
            forall|j: int| 0 <= j < i ==> (#[trigger] into@[old(into)@.len() + j]).0@ == spec_lines(output@)[j]
                && into@[old(into)@.len() + j].1 == info,
        decreases ls@.len() - i,
    {
        assert(ls@.map_values(|l: String| l@)[i as int] == ls@[i as int]@);
        into.push((ls[i].clone(), info.copy_plain()));
        i = i + 1;
    }
}

impl AnyQueryInfo {
    /// Whether the information is a plain value, copied whole.
    pub open spec fn spec_is_plain(&self) -> bool {
        !(self is Cargo) && !(self is Rustup)
    }

    /// A copy of plain information.
    pub fn copy_plain(&self) -> (r: AnyQueryInfo)
        requires
            self.spec_is_plain(),
        ensures
            r == *self,
    {
        match self {
            AnyQueryInfo::Arch(i) => AnyQueryInfo::Arch(*i),
            AnyQueryInfo::Apt(i) => AnyQueryInfo::Apt(*i),
            AnyQueryInfo::Dnf(i) => AnyQueryInfo::Dnf(*i),
            AnyQueryInfo::Flatpak(i) => AnyQueryInfo::Flatpak(*i),
            AnyQueryInfo::Pipx(i) => AnyQueryInfo::Pipx(*i),
            AnyQueryInfo::Xbps(i) => AnyQueryInfo::Xbps(*i),
            AnyQueryInfo::Cargo(_) | AnyQueryInfo::Rustup(_) => {
                proof {
                    assert(false);
                }
                AnyQueryInfo::Xbps(XbpsQueryInfo {})
            },
        }
    }
}

/// The Arch packages marked to become dependencies.
pub open spec fn arch_implicit(s: Seq<(String, ArchModification)>) -> Seq<Seq<char>>
    decreases s.len(),
{
    if s.len() == 0 {
        Seq::empty()
    } else {
        arch_implicit(s.drop_last()) + flag_if(s.last().1.make_implicit, s.last().0@)
    }
}

/// The xbps packages marked to become automatic.
pub open spec fn xbps_implicit(s: Seq<(String, XbpsModificationOptions)>) -> Seq<Seq<char>>
    decreases s.len(),
{
    if s.len() == 0 {
        Seq::empty()
    } else {
        xbps_implicit(s.drop_last()) + flag_if(s.last().1.make_implicit, s.last().0@)
    }
}

/// The installed-package entries that a list of lines gives, all with `info`.
pub open spec fn lines_with(output: Seq<char>, info: AnyQueryInfo, got: Seq<(String, AnyQueryInfo)>) -> bool {
    got.len() == spec_lines(output).len()
        && forall|i: int| 0 <= i < got.len() ==> (#[trigger] got[i]).0@ == spec_lines(output)[i] && got[i].1 == info
}

/// Two lists of query entries, one after the other.
pub open spec fn two_outputs(
    first: Seq<char>, first_info: AnyQueryInfo,
    second: Seq<char>, second_info: AnyQueryInfo,
    got: Seq<(String, AnyQueryInfo)>,
) -> bool {
    let n = spec_lines(first).len() as int;
    n <= got.len() && lines_with(first, first_info, got.subrange(0, n))
        && lines_with(second, second_info, got.subrange(n, got.len() as int))
}

fn two_outputs_exec(first: &str, first_info: AnyQueryInfo, second: &str, second_info: AnyQueryInfo) -> (r: Vec<(String, AnyQueryInfo)>)
    requires
        first_info.spec_is_plain(),
        second_info.spec_is_plain(),
    ensures
        two_outputs(first@, first_info, second@, second_info, r@),
{
    let mut r: Vec<(String, AnyQueryInfo)> = Vec::new();
    entries_for_lines(first, first_info, &mut r);
    let ghost mid = r@;
    entries_for_lines(second, second_info, &mut r);
    let ghost n = spec_lines(first@).len() as int;
    assert forall|i: int| 0 <= i < n implies (#[trigger] r@.subrange(0, n as int)[i]).0@ == spec_lines(first@)[i]
        && r@.subrange(0, n as int)[i].1 == first_info by {
        assert(r@[i] == mid[i]);
        assert(mid[0 + i] == mid[i]);
    }
    assert forall|i: int| 0 <= i < spec_lines(second@).len() implies (#[trigger] r@.subrange(n as int, r@.len() as int)[i]).0@
        == spec_lines(second@)[i] && r@.subrange(n as int, r@.len() as int)[i].1 == second_info by {
        assert(r@.subrange(n as int, r@.len() as int)[i] == r@[n + i]);
    }
    r
}

impl Arch {
    /// Installs the packages, marked explicit, with their optional dependencies;
    /// nothing to run when there are no packages.
    pub fn install_packages(packages: &Vec<(String, AnyInstallOptions)>, no_confirm: bool, config: &Config) -> (r: Option<CommandLine>)
        ensures
            r is None <==> packages@.len() == 0,
            r matches Some(c) ==> c.spec_args() == spec_arch_install(config.arch_package_manager.spec_command(),
                no_confirm, entries_view(packages@)) && c.perms == config.arch_package_manager.spec_perms(),
    {
        if packages.len() == 0 {
            return None;
        }
        let mut args = words3(config.arch_package_manager.as_command(), "--sync", "--asexplicit");
        push_flag(&mut args, no_confirm, "--noconfirm");
        let ghost head = strings_view(args@);
        let ghost ev = entries_view(packages@);
        let mut i: usize = 0;
        while i < packages.len()
            invariant
                i <= packages@.len(),
                ev == entries_view(packages@),
                strings_view(args@) == head + ev.subrange(0, i as int).map_values(|e: (Seq<char>, InstallOptionsView)| e.0),
            decreases packages@.len() - i,
        {
            push_str(&mut args, packages[i].0.as_str());
            assert(ev.subrange(0, i + 1).map_values(|e: (Seq<char>, InstallOptionsView)| e.0)
                =~= ev.subrange(0, i as int).map_values(|e: (Seq<char>, InstallOptionsView)| e.0).push(packages@[i as int].0@));
            i = i + 1;
        }
        assert(ev.subrange(0, ev.len() as int) == ev);
        let ghost names = strings_view(args@);
        let mut j: usize = 0;
        while j < packages.len()
            invariant
                j <= packages@.len(),
                ev == entries_view(packages@),
                strings_view(args@) == names + concat_all(ev.subrange(0, j as int).map_values(
                    |e: (Seq<char>, InstallOptionsView)| arch_deps(e.1))),
            decreases packages@.len() - j,
        {
            let ghost deps_before = ev.subrange(0, j as int).map_values(|e: (Seq<char>, InstallOptionsView)| arch_deps(e.1));
            let ghost deps_after = ev.subrange(0, j + 1).map_values(|e: (Seq<char>, InstallOptionsView)| arch_deps(e.1));
            assert(deps_after.drop_last() =~= deps_before);
            assert(deps_after.last() == arch_deps(packages@[j as int].1@));
            match &packages[j].1 {
                AnyInstallOptions::Arch(o) => {
                    push_all(&mut args, &o.optional_deps);
                },
                _ => {
                    assert(arch_deps(packages@[j as int].1@) =~= Seq::<Seq<char>>::empty());
                },
            }
            assert(strings_view(args@) =~= names + concat_all(deps_after));
            j = j + 1;
        }
        Some(CommandLine { args, perms: config.arch_package_manager.change_perms() })
    }

    /// Marks installed packages as dependencies; nothing to run when none is marked.
    pub fn modify_packages(packages: &Vec<(String, ArchModification)>, config: &Config) -> (r: Option<CommandLine>)
        ensures
            r is None <==> arch_implicit(packages@).len() == 0,
            r matches Some(c) ==> c.spec_args() == seq![config.arch_package_manager.spec_command(),
                "--database"@, "--asdeps"@] + arch_implicit(packages@) && c.perms == config.arch_package_manager.spec_perms(),
    {
        let mut marked: Vec<String> = Vec::new();
        let mut i: usize = 0;
        while i < packages.len()
            invariant
                i <= packages@.len(),
                strings_view(marked@) == arch_implicit(packages@.subrange(0, i as int)),
            decreases packages@.len() - i,
        {
            assert(packages@.subrange(0, i + 1).drop_last() =~= packages@.subrange(0, i as int));
            push_flag(&mut marked, packages[i].1.make_implicit, packages[i].0.as_str());
            i = i + 1;
        }
        assert(packages@.subrange(0, packages@.len() as int) == packages@);
        if marked.len() == 0 {
            return None;
        }
        let head = words3(config.arch_package_manager.as_command(), "--database", "--asdeps");
        Some(names_command(head, false, "", &marked, config.arch_package_manager.change_perms()))
    }

    /// The first step of removal: mark the packages as dependencies, so that the
    /// orphan sweep that follows removes them with whatever only they needed.
    pub fn remove_packages(packages: &Vec<String>, config: &Config) -> (r: Option<CommandLine>)
        ensures
            r is None <==> packages@.len() == 0,
            r matches Some(c) ==> c.spec_args() == seq![config.arch_package_manager.spec_command(),
                "--database"@, "--asdeps"@] + strings_view(packages@) && c.perms == config.arch_package_manager.spec_perms(),
    {
        if packages.len() == 0 {
            return None;
        }
        let head = words3(config.arch_package_manager.as_command(), "--database", "--asdeps");
        Some(names_command(head, false, "", packages, config.arch_package_manager.change_perms()))
    }

    /// The query for orphans: dependencies that nothing requires any more.
    pub fn orphans_query(config: &Config) -> (r: CommandLine)
        ensures
            r.spec_args() == seq![config.arch_package_manager.spec_command(), "--query"@, "--deps"@,
                "--unrequired"@, "--quiet"@],
            r.perms == Perms::Same,
    {
        let mut args = words3(config.arch_package_manager.as_command(), "--query", "--deps");
        push_str(&mut args, "--unrequired");
        push_str(&mut args, "--quiet");
        CommandLine { args, perms: Perms::Same }
    }

    /// Removes the orphans that the orphan query printed, with the configured
    /// extra arguments; nothing to run when there are none.
    pub fn remove_orphans(orphans_output: &str, no_confirm: bool, config: &Config) -> (r: Option<CommandLine>)
        ensures
            r is None <==> spec_lines(orphans_output@).len() == 0,
            r matches Some(c) ==> c.spec_args() == seq![config.arch_package_manager.spec_command(), "--remove"@,
                "--nosave"@, "--recursive"@] + strings_view(config.arch_rm_args@) + flag_if(no_confirm, "--noconfirm"@)
                + spec_lines(orphans_output@) && c.perms == config.arch_package_manager.spec_perms(),
    {
        let orphans = lines(orphans_output);
        if orphans.len() == 0 {
            return None;
        }
        let mut args = words3(config.arch_package_manager.as_command(), "--remove", "--nosave");
        push_str(&mut args, "--recursive");
        push_all(&mut args, &config.arch_rm_args);
        push_flag(&mut args, no_confirm, "--noconfirm");
        push_all(&mut args, &orphans);
        assert(strings_view(orphans@) =~= spec_lines(orphans_output@));
        Some(CommandLine { args, perms: config.arch_package_manager.change_perms() })
    }

    /// The queries for explicitly installed packages and for dependencies.
    pub fn queries(config: &Config) -> (r: (CommandLine, CommandLine))
        ensures
            r.0.spec_args() == seq![config.arch_package_manager.spec_command(), "--query"@, "--explicit"@, "--quiet"@],
            r.1.spec_args() == seq![config.arch_package_manager.spec_command(), "--query"@, "--deps"@, "--quiet"@],
            r.0.perms == Perms::Same && r.1.perms == Perms::Same,
    {
        let mut explicit = words3(config.arch_package_manager.as_command(), "--query", "--explicit");
        push_str(&mut explicit, "--quiet");
        let mut deps = words3(config.arch_package_manager.as_command(), "--query", "--deps");
        push_str(&mut deps, "--quiet");
        (CommandLine { args: explicit, perms: Perms::Same }, CommandLine { args: deps, perms: Perms::Same })
    }

    /// The installed packages that the two queries printed: explicit ones first.
    pub fn query_installed_packages(explicit_output: &str, deps_output: &str) -> (r: Vec<(String, AnyQueryInfo)>)
        ensures
            two_outputs(explicit_output@, AnyQueryInfo::Arch(ArchQueryInfo { explicit: true }),
                deps_output@, AnyQueryInfo::Arch(ArchQueryInfo { explicit: false }), r@),
    {
        two_outputs_exec(explicit_output, AnyQueryInfo::Arch(ArchQueryInfo { explicit: true }),
            deps_output, AnyQueryInfo::Arch(ArchQueryInfo { explicit: false }))
    }
}

impl Apt {
    /// Installs the packages; nothing to run when there are none.
    pub fn install_packages(packages: &Vec<String>, no_confirm: bool) -> (r: Option<CommandLine>)
        ensures
            r is None <==> packages@.len() == 0,
            r matches Some(c) ==> c.spec_args() == spec_names_command(seq!["apt-get"@, "install"@], no_confirm,
                "--yes"@, packages@) && c.perms == Perms::AsRoot,
    {
        if packages.len() == 0 {
            return None;
        }
        Some(names_command(words2("apt-get", "install"), no_confirm, "--yes", packages, Perms::AsRoot))
    }

    /// Removes the packages; nothing to run when there are none.
    pub fn remove_packages(packages: &Vec<String>, no_confirm: bool) -> (r: Option<CommandLine>)
        ensures
            r is None <==> packages@.len() == 0,
            r matches Some(c) ==> c.spec_args() == spec_names_command(seq!["apt-get"@, "remove"@], no_confirm,
                "--yes"@, packages@) && c.perms == Perms::AsRoot,
    {
        if packages.len() == 0 {
            return None;
        }
        Some(names_command(words2("apt-get", "remove"), no_confirm, "--yes", packages, Perms::AsRoot))
    }

    /// The manually installed packages that `apt-mark showmanual` printed.
    pub fn query_installed_packages(output: &str) -> (r: Vec<(String, AnyQueryInfo)>)
        ensures
            lines_with(output@, AnyQueryInfo::Apt(AptQueryInfo {}), r@),
    {
        let mut r: Vec<(String, AnyQueryInfo)> = Vec::new();
        entries_for_lines(output, AnyQueryInfo::Apt(AptQueryInfo {}), &mut r);
        assert forall|i: int| 0 <= i < r@.len() implies (#[trigger] r@[i]).0@ == spec_lines(output@)[i]
            && r@[i].1 == AnyQueryInfo::Apt(AptQueryInfo {}) by {
            assert(r@[0 + i] == r@[i]);
        }
        r
    }
}

/// The installation scope flag of flatpak.
pub open spec fn flatpak_scope(systemwide: bool) -> Seq<char> {
    if systemwide {
        "--system"@
    } else {
        "--user"@
    }
}

impl Flatpak {
    /// Installs the applications in the configured scope; nothing to run when
    /// there are none.
    pub fn install_packages(packages: &Vec<String>, no_confirm: bool, config: &Config) -> (r: Option<CommandLine>)
        ensures
            r is None <==> packages@.len() == 0,
            r matches Some(c) ==> c.spec_args() == spec_names_command(seq!["flatpak"@, "install"@,
                flatpak_scope(config.flatpak_systemwide)], no_confirm, "--assumeyes"@, packages@) && c.perms == Perms::AsRoot,
    {
        if packages.len() == 0 {
            return None;
        }
        let scope = if config.flatpak_systemwide { "--system" } else { "--user" };
        Some(names_command(words3("flatpak", "install", scope), no_confirm, "--assumeyes", packages, Perms::AsRoot))
    }

    /// Removes the applications from the configured scope; nothing to run when
    /// there are none.
    pub fn remove_packages(packages: &Vec<String>, no_confirm: bool, config: &Config) -> (r: Option<CommandLine>)
        ensures
            r is None <==> packages@.len() == 0,
            r matches Some(c) ==> c.spec_args() == spec_names_command(seq!["flatpak"@, "uninstall"@,
                flatpak_scope(config.flatpak_systemwide)], no_confirm, "--assumeyes"@, packages@) && c.perms == Perms::AsRoot,
    {
        if packages.len() == 0 {
            return None;
        }
        let scope = if config.flatpak_systemwide { "--system" } else { "--user" };
        Some(names_command(words3("flatpak", "uninstall", scope), no_confirm, "--assumeyes", packages, Perms::AsRoot))
    }

    /// The installed applications that the system-wide and the per-user listing
    /// printed, the per-user ones first: an application installed in both
    /// scopes is recorded as installed for the user.
    pub fn query_installed_packages(system_output: &str, user_output: &str) -> (r: Vec<(String, AnyQueryInfo)>)
        ensures
            two_outputs(user_output@, AnyQueryInfo::Flatpak(FlatpakQueryInfo { systemwide: false }),
                system_output@, AnyQueryInfo::Flatpak(FlatpakQueryInfo { systemwide: true }), r@),
    {
        two_outputs_exec(user_output, AnyQueryInfo::Flatpak(FlatpakQueryInfo { systemwide: false }),
            system_output, AnyQueryInfo::Flatpak(FlatpakQueryInfo { systemwide: true }))
    }
}

impl Pipx {
    /// Installs the applications; nothing to run when there are none.
    pub fn install_packages(packages: &Vec<String>) -> (r: Option<CommandLine>)
        ensures
            r is None <==> packages@.len() == 0,
            r matches Some(c) ==> c.spec_args() == seq!["pipx"@, "install"@] + strings_view(packages@)
                && c.perms == Perms::AsRoot,
    {
        if packages.len() == 0 {
            return None;
        }
        Some(names_command(words2("pipx", "install"), false, "", packages, Perms::AsRoot))
    }

    /// Removes the applications; nothing to run when there are none.
    pub fn remove_packages(packages: &Vec<String>) -> (r: Option<CommandLine>)
        ensures
            r is None <==> packages@.len() == 0,
            r matches Some(c) ==> c.spec_args() == seq!["pipx"@, "uninstall"@] + strings_view(packages@)
                && c.perms == Perms::AsRoot,
    {
        if packages.len() == 0 {
            return None;
        }
        Some(names_command(words2("pipx", "uninstall"), false, "", packages, Perms::AsRoot))
    }

    /// Installed-package entries for the application names pipx listed.
    pub fn query_installed_packages(names: &Vec<String>) -> (r: Vec<(String, AnyQueryInfo)>)
        ensures
            r@.len() == names@.len(),
            forall|i: int| 0 <= i < names@.len() ==> (#[trigger] r@[i]).0@ == names@[i]@
                && r@[i].1 == AnyQueryInfo::Pipx(PipxQueryOptions {}),
    {
        let mut r: Vec<(String, AnyQueryInfo)> = Vec::new();
        let mut i: usize = 0;
        while i < names.len()
            invariant
                i <= names@.len(),
                r@.len() == i,
                forall|j: int| 0 <= j < i ==> (#[trigger] r@[j]).0@ == names@[j]@
                    && r@[j].1 == AnyQueryInfo::Pipx(PipxQueryOptions {}),
            decreases names@.len() - i,
        {
            r.push((names[i].clone(), AnyQueryInfo::Pipx(PipxQueryOptions {})));
            i = i + 1;
        }
        r
    }
}

impl Xbps {
    /// Installs the packages; nothing to run when there are none.
    pub fn install_packages(packages: &Vec<String>, no_confirm: bool) -> (r: Option<CommandLine>)
        ensures
            r is None <==> packages@.len() == 0,
            r matches Some(c) ==> c.spec_args() == spec_names_command(seq!["xbps-install"@, "-S"@], no_confirm,
                "-y"@, packages@) && c.perms == Perms::AsRoot,
    {
        if packages.len() == 0 {
            return None;
        }
        Some(names_command(words2("xbps-install", "-S"), no_confirm, "-y", packages, Perms::AsRoot))
    }

    /// Removes the packages with their no longer needed dependencies; nothing to
    /// run when there are none.
    pub fn remove_packages(packages: &Vec<String>, no_confirm: bool) -> (r: Option<CommandLine>)
        ensures
            r is None <==> packages@.len() == 0,
            r matches Some(c) ==> c.spec_args() == spec_names_command(seq!["xbps-remove"@, "-R"@], no_confirm,
                "-y"@, packages@) && c.perms == Perms::AsRoot,
    {
        if packages.len() == 0 {
            return None;
        }
        Some(names_command(words2("xbps-remove", "-R"), no_confirm, "-y", packages, Perms::AsRoot))
    }

    /// Marks installed packages as automatically installed; nothing to run when
    /// none is marked.
    pub fn modify_packages(packages: &Vec<(String, XbpsModificationOptions)>) -> (r: Option<CommandLine>)
        ensures
            r is None <==> xbps_implicit(packages@).len() == 0,
            r matches Some(c) ==> c.spec_args() == seq!["xbps-pkgdb"@, "-m"@, "auto"@] + xbps_implicit(packages@)
                && c.perms == Perms::AsRoot,
    {
        let mut marked: Vec<String> = Vec::new();
        let mut i: usize = 0;
        while i < packages.len()
            invariant
                i <= packages@.len(),
                strings_view(marked@) == xbps_implicit(packages@.subrange(0, i as int)),
            decreases packages@.len() - i,
        {
            assert(packages@.subrange(0, i + 1).drop_last() =~= packages@.subrange(0, i as int));
            push_flag(&mut marked, packages[i].1.make_implicit, packages[i].0.as_str());
            i = i + 1;
        }
        assert(packages@.subrange(0, packages@.len() as int) == packages@);
        if marked.len() == 0 {
            return None;
        }
        Some(names_command(words3("xbps-pkgdb", "-m", "auto"), false, "", &marked, Perms::AsRoot))
    }
}

/// The options flags of `cargo install`.
pub open spec fn cargo_flags(o: InstallOptionsView) -> Seq<Seq<char>> {
    match o {
        InstallOptionsView::Cargo { git, all_features, no_default_features, features } =>
            (match git {
                Some(g) => seq!["--git"@, g],
                None => Seq::empty(),
            }) + flag_if(all_features, "--all-features"@) + flag_if(no_default_features, "--no-default-features"@)
                + flag_if(features.len() > 0, "--features"@) + features,
        _ => Seq::empty(),
    }
}

/// The distinct keys of `keys`, in order of first appearance.
pub open spec fn first_occurrences<K>(keys: Seq<K>) -> Seq<K>
    decreases keys.len(),
{
    if keys.len() == 0 {
        Seq::empty()
    } else {
        let prev = first_occurrences(keys.drop_last());
        if prev.contains(keys.last()) {
            prev
        } else {
            prev.push(keys.last())
        }
    }
}

/// The identifiers whose key is `k`, in order (`ids` and `keys` side by side).
pub open spec fn ids_keyed<K>(ids: Seq<Seq<char>>, keys: Seq<K>, k: K) -> Seq<Seq<char>>
    decreases ids.len(),
{
    if ids.len() == 0 || keys.len() == 0 {
        Seq::empty()
    } else if keys.last() == k {
        ids_keyed(ids.drop_last(), keys.drop_last(), k).push(ids.last())
    } else {
        ids_keyed(ids.drop_last(), keys.drop_last(), k)
    }
}

pub open spec fn entry_ids(ev: Seq<(Seq<char>, InstallOptionsView)>) -> Seq<Seq<char>> {
    ev.map_values(|e: (Seq<char>, InstallOptionsView)| e.0)
}

pub open spec fn entry_options(ev: Seq<(Seq<char>, InstallOptionsView)>) -> Seq<InstallOptionsView> {
    ev.map_values(|e: (Seq<char>, InstallOptionsView)| e.1)
}

pub open spec fn entry_repos(ev: Seq<(Seq<char>, InstallOptionsView)>) -> Seq<Option<Seq<char>>> {
    ev.map_values(|e: (Seq<char>, InstallOptionsView)| dnf_repo(e.1))
}

proof fn lemma_first_occurrences_step<K>(keys: Seq<K>, k: int)
    requires
        0 <= k < keys.len(),
    ensures
        first_occurrences(keys.subrange(0, k + 1)) == (if first_occurrences(keys.subrange(0, k)).contains(keys[k]) {
            first_occurrences(keys.subrange(0, k))
        } else {
            first_occurrences(keys.subrange(0, k)).push(keys[k])
        }),
{
    assert(keys.subrange(0, k + 1).drop_last() =~= keys.subrange(0, k));
}

proof fn lemma_ids_keyed_step<K>(ids: Seq<Seq<char>>, keys: Seq<K>, key: K, j: int)
    requires
        0 <= j < ids.len(),
        ids.len() == keys.len(),
    ensures
        ids_keyed(ids.subrange(0, j + 1), keys.subrange(0, j + 1), key) == (if keys[j] == key {
            ids_keyed(ids.subrange(0, j), keys.subrange(0, j), key).push(ids[j])
        } else {
            ids_keyed(ids.subrange(0, j), keys.subrange(0, j), key)
        }),
{
    assert(ids.subrange(0, j + 1).drop_last() =~= ids.subrange(0, j));
    assert(keys.subrange(0, j + 1).drop_last() =~= keys.subrange(0, j));
}

fn cargo_head(o: &AnyInstallOptions) -> (r: Vec<String>)
    ensures
        strings_view(r@) == seq!["cargo"@, "install"@] + cargo_flags(o@),
{
    let mut args = words2("cargo", "install");
    match o {
        AnyInstallOptions::Cargo(o) => {
            match &o.git {
                Some(g) => {
                    push_str(&mut args, "--git");
                    push_str(&mut args, g.as_str());
                },
                None => {},
            }
            push_flag(&mut args, o.all_features, "--all-features");
            push_flag(&mut args, o.no_default_features, "--no-default-features");
            push_flag(&mut args, o.features.len() > 0, "--features");
            push_all(&mut args, &o.features);
        },
        _ => {},
    }
    assert(strings_view(args@) =~= seq!["cargo"@, "install"@] + cargo_flags(o@));
    args
}

/// Positions of the first entry of each distinct options value, in order.
fn option_representatives(packages: &Vec<(String, AnyInstallOptions)>) -> (r: Vec<usize>)
    ensures
        r@.len() == first_occurrences(entry_options(entries_view(packages@))).len(),
        forall|t: int| 0 <= t < r@.len() ==> #[trigger] r@[t] < packages@.len()
            && packages@[r@[t] as int].1@ == first_occurrences(entry_options(entries_view(packages@)))[t],
{
    let ghost keys = entry_options(entries_view(packages@));
    let mut reps: Vec<usize> = Vec::new();
    let mut k: usize = 0;
    while k < packages.len()
        invariant
            k <= packages@.len(),
            keys == entry_options(entries_view(packages@)),
            reps@.len() == first_occurrences(keys.subrange(0, k as int)).len(),
            forall|t: int| 0 <= t < reps@.len() ==> #[trigger] reps@[t] < k
                && packages@[reps@[t] as int].1@ == first_occurrences(keys.subrange(0, k as int))[t],
        decreases packages@.len() - k,
    {
        proof { lemma_first_occurrences_step(keys, k as int); }
        let ghost prev = first_occurrences(keys.subrange(0, k as int));
        assert(keys[k as int] == packages@[k as int].1@);
        let mut t: usize = 0;
        let mut found = false;
        while t < reps.len()
            invariant
                t <= reps@.len(),
                k < packages@.len(),
                reps@.len() == prev.len(),
                forall|u: int| 0 <= u < reps@.len() ==> #[trigger] reps@[u] < k
                    && packages@[reps@[u] as int].1@ == prev[u],
                found ==> prev.contains(packages@[k as int].1@),
                !found ==> forall|u: int| 0 <= u < t ==> prev[u] != packages@[k as int].1@,
            decreases reps@.len() - t,
        {
            if same_options(&packages[reps[t]].1, &packages[k].1) {
                found = true;
                assert(prev[t as int] == packages@[k as int].1@);
            }
            t = t + 1;
        }
        if !found {
            reps.push(k);
            assert forall|u: int| 0 <= u < reps@.len() implies #[trigger] reps@[u] < k + 1
                && packages@[reps@[u] as int].1@ == first_occurrences(keys.subrange(0, k + 1))[u] by {
                if u < prev.len() {
                    assert(prev.push(keys[k as int])[u] == prev[u]);
                }
            }
        }
        k = k + 1;
    }
    assert(keys.subrange(0, packages@.len() as int) == keys);
    reps
}

/// The identifiers of the entries whose options are those of `o`, in order.
fn ids_with_options(packages: &Vec<(String, AnyInstallOptions)>, o: &AnyInstallOptions) -> (r: Vec<String>)
    ensures
        strings_view(r@) == ids_keyed(entry_ids(entries_view(packages@)), entry_options(entries_view(packages@)), o@),
{
    let ghost ids = entry_ids(entries_view(packages@));
    let ghost keys = entry_options(entries_view(packages@));
    let mut r: Vec<String> = Vec::new();
    let mut j: usize = 0;
    while j < packages.len()
        invariant
            j <= packages@.len(),
            ids == entry_ids(entries_view(packages@)),
            keys == entry_options(entries_view(packages@)),
            strings_view(r@) == ids_keyed(ids.subrange(0, j as int), keys.subrange(0, j as int), o@),
        decreases packages@.len() - j,
    {
        proof { lemma_ids_keyed_step(ids, keys, o@, j as int); }
        if same_options(&packages[j].1, o) {
            let ghost before = r@;
            r.push(packages[j].0.clone());
            assert(strings_view(r@) =~= strings_view(before).push(ids[j as int]));
        }
        j = j + 1;
    }
    assert(ids.subrange(0, packages@.len() as int) == ids);
    assert(keys.subrange(0, packages@.len() as int) == keys);
    r
}

/// The name, version and git source of an entry key of cargo's record of
/// installed crates (`name version (source)`).
pub open spec fn spec_crate_key(key: Seq<char>) -> Option<(Seq<char>, Seq<char>, Option<Seq<char>>)> {
    match split_once_spec(key, ' ') {
        Some((name, rest)) => match split_once_spec(rest, ' ') {
            Some((version, source)) => Some((name, version, if source.len() >= 5 && source.subrange(0, 5) == "(git+"@ {
                Some(before_char(before_char(split_once_spec(source, '+')->Some_0.1, '+'), '#'))
            } else {
                None
            })),
            None => None,
        },
        None => None,
    }
}

impl Cargo {
    /// One `cargo install` per distinct set of options, in order of first
    /// appearance, each carrying every crate declared with those options.
    pub fn install_packages(packages: &Vec<(String, AnyInstallOptions)>) -> (r: Vec<CommandLine>)
        ensures
            r@.len() == first_occurrences(entry_options(entries_view(packages@))).len(),
            forall|t: int| 0 <= t < r@.len() ==> (#[trigger] r@[t]).spec_args()
                == seq!["cargo"@, "install"@] + cargo_flags(first_occurrences(entry_options(entries_view(packages@)))[t])
                    + ids_keyed(entry_ids(entries_view(packages@)), entry_options(entries_view(packages@)),
                        first_occurrences(entry_options(entries_view(packages@)))[t])
                && r@[t].perms == Perms::AsRoot,
    {
        let reps = option_representatives(packages);
        let ghost firsts = first_occurrences(entry_options(entries_view(packages@)));
        let mut r: Vec<CommandLine> = Vec::new();
        let mut t: usize = 0;
        while t < reps.len()
            invariant
                t <= reps@.len(),
                reps@.len() == firsts.len(),
                firsts == first_occurrences(entry_options(entries_view(packages@))),
                forall|u: int| 0 <= u < reps@.len() ==> #[trigger] reps@[u] < packages@.len()
                    && packages@[reps@[u] as int].1@ == firsts[u],
                r@.len() == t,
                forall|u: int| 0 <= u < t ==> (#[trigger] r@[u]).spec_args()
                    == seq!["cargo"@, "install"@] + cargo_flags(firsts[u])
                        + ids_keyed(entry_ids(entries_view(packages@)), entry_options(entries_view(packages@)), firsts[u])
                    && r@[u].perms == Perms::AsRoot,
            decreases reps@.len() - t,
        {
            let options = &packages[reps[t]].1;
            let mut args = cargo_head(options);
            let ids = ids_with_options(packages, options);
            push_all(&mut args, &ids);
            r.push(CommandLine { args, perms: Perms::AsRoot });
            t = t + 1;
        }
        r
    }

    /// Uninstalls the crates; nothing to run when there are none.
    pub fn remove_packages(packages: &Vec<String>) -> (r: Option<CommandLine>)
        ensures
            r is None <==> packages@.len() == 0,
            r matches Some(c) ==> c.spec_args() == seq!["cargo"@, "uninstall"@] + strings_view(packages@)
                && c.perms == Perms::AsRoot,
    {
        if packages.len() == 0 {
            return None;
        }
        Some(names_command(words2("cargo", "uninstall"), false, "", packages, Perms::AsRoot))
    }

    /// Splits an entry key of cargo's record of installed crates into name,
    /// version and, for a crate installed from git, the repository.
    pub fn parse_crate_key(key: &str) -> (r: Option<(String, String, Option<String>)>)
        ensures
            match (r, spec_crate_key(key@)) {
                (Some(got), Some(want)) => got.0@ == want.0 && got.1@ == want.1 && match (got.2, want.2) {
                    (Some(a), Some(b)) => a@ == b,
                    (None, None) => true,
                    _ => false,
                },
                (None, None) => true,
                _ => false,
            },
    {
        match split_once(key, ' ') {
            None => None,
            Some((name, rest)) => match split_once(rest.as_str(), ' ') {
                None => None,
                Some((version, source)) => {
                    proof { reveal_strlit("(git+"); }
                    if starts_with(source.as_str(), "(git+") {
                        match split_once(source.as_str(), '+') {
                            Some((_, after)) => {
                                let segment = before_char_owned(after.as_str(), '+');
                                let git = before_char_owned(segment.as_str(), '#');
                                Some((name, version, Some(git)))
                            },
                            None => {
                                proof {
                                    let lit = "(git+"@;
                                    assert(lit.len() == 5 && lit[0] == '(' && lit[1] == 'g' && lit[2] == 'i' && lit[3] == 't' && lit[4] == '+');
                                    assert(source@.subrange(0, 5) == lit);
                                    assert(source@.subrange(0, 5)[4] == source@[4]);
                                    assert forall|j: int| 0 <= j < 4 implies source@[j] != '+' by {
                                        assert(source@.subrange(0, 5)[j] == source@[j]);
                                    }
                                    assert(crate::text::is_first_at(source@, '+', 4));
                                }
                                None
                            },
                        }
                    } else {
                        Some((name, version, None))
                    }
                },
            },
        }
    }
}

/// Whether a dnf package is from one of the repositories that every Fedora
/// system has, and so is kept by name alone.
pub open spec fn from_default_repo(s: Seq<char>) -> bool {
    ((exists|i: int| occurs_at(s, "koji"@, i)) || (exists|i: int| occurs_at(s, "fedora"@, i))
        || (exists|i: int| occurs_at(s, "updates"@, i)) || (exists|i: int| occurs_at(s, "anaconda"@, i))
        || (exists|i: int| occurs_at(s, "@"@, i))) && !(exists|i: int| occurs_at(s, "copr"@, i))
}

/// How dnf's `repo/name` line is kept: the name alone for the default
/// repositories, the whole line otherwise.
pub open spec fn spec_dnf_package(s: Seq<char>) -> Seq<char> {
    if from_default_repo(s) {
        match split_once_spec(s, '/') {
            Some(parts) => before_char(parts.1, '/'),
            None => s,
        }
    } else {
        s
    }
}

/// The repository that options pin a dnf package to.
pub open spec fn dnf_repo(o: InstallOptionsView) -> Option<Seq<char>> {
    match o {
        InstallOptionsView::Dnf { repo } => repo,
        _ => None,
    }
}

/// The head of a `dnf install` from one repository: the default repositories
/// where none is pinned.
pub open spec fn dnf_install_head(repo: Option<Seq<char>>) -> Seq<Seq<char>> {
    match repo {
        Some(r) => seq!["dnf"@, "install"@, "--repo"@, r],
        None => seq!["dnf"@, "install"@, "--repo"@, "updates"@, "--repo"@, "fedora"@],
    }
}

fn repo_of(o: &AnyInstallOptions) -> (r: Option<String>)
    ensures
        crate::backends::opt_string_view(r) == dnf_repo(o@),
{
    match o {
        AnyInstallOptions::Dnf(d) => match &d.repo {
            Some(g) => Some(g.clone()),
            None => None,
        },
        _ => None,
    }
}

fn repo_eq(a: &Option<String>, b: &Option<String>) -> (r: bool)
    ensures
        r == (crate::backends::opt_string_view(*a) == crate::backends::opt_string_view(*b)),
{
    match (a, b) {
        (Some(x), Some(y)) => crate::text::str_eq(x.as_str(), y.as_str()),
        (None, None) => true,
        _ => false,
    }
}

impl Dnf {
    /// Keeps a package of `repoquery` output by name alone when it comes from a
    /// default repository.
    pub fn parse_package(package: &str) -> (r: String)
        ensures
            r@ == spec_dnf_package(package@),
    {
        let default_repo = (str_contains(package, "koji") || str_contains(package, "fedora")
            || str_contains(package, "updates") || str_contains(package, "anaconda") || str_contains(package, "@"))
            && !str_contains(package, "copr");
        if default_repo {
            match split_once(package, '/') {
                Some((_, after)) => before_char_owned(after.as_str(), '/'),
                None => package.to_owned(),
            }
        } else {
            package.to_owned()
        }
    }

    /// One `dnf install` per distinct repository, in order of first appearance,
    /// each carrying exactly the packages pinned to it; the packages pinned to
    /// none come from the default repositories.
    pub fn install_packages(packages: &Vec<(String, AnyInstallOptions)>, no_confirm: bool) -> (r: Vec<CommandLine>)
        ensures
            r@.len() == first_occurrences(entry_repos(entries_view(packages@))).len(),
            forall|t: int| 0 <= t < r@.len() ==> (#[trigger] r@[t]).spec_args()
                == dnf_install_head(first_occurrences(entry_repos(entries_view(packages@)))[t])
                    + flag_if(no_confirm, "--assumeyes"@)
                    + ids_keyed(entry_ids(entries_view(packages@)), entry_repos(entries_view(packages@)),
                        first_occurrences(entry_repos(entries_view(packages@)))[t])
                && r@[t].perms == Perms::AsRoot,
    {
        let ghost ids = entry_ids(entries_view(packages@));
        let ghost keys = entry_repos(entries_view(packages@));
        let mut repos: Vec<Option<String>> = Vec::new();
        let mut k: usize = 0;
        while k < packages.len()
            invariant
                k <= packages@.len(),
                keys == entry_repos(entries_view(packages@)),
                repos@.len() == first_occurrences(keys.subrange(0, k as int)).len(),
                forall|t: int| 0 <= t < repos@.len() ==> crate::backends::opt_string_view(#[trigger] repos@[t])
                    == first_occurrences(keys.subrange(0, k as int))[t],
            decreases packages@.len() - k,
        {
            proof { lemma_first_occurrences_step(keys, k as int); }
            let ghost prev = first_occurrences(keys.subrange(0, k as int));
            let repo = repo_of(&packages[k].1);
            assert(keys[k as int] == crate::backends::opt_string_view(repo));
            let mut t: usize = 0;
            let mut found = false;
            while t < repos.len()
                invariant
                    t <= repos@.len(),
                    repos@.len() == prev.len(),
                    forall|u: int| 0 <= u < repos@.len() ==> crate::backends::opt_string_view(#[trigger] repos@[u]) == prev[u],
                    found ==> prev.contains(crate::backends::opt_string_view(repo)),
                    !found ==> forall|u: int| 0 <= u < t ==> prev[u] != crate::backends::opt_string_view(repo),
                decreases repos@.len() - t,
            {
                if repo_eq(&repos[t], &repo) {
                    found = true;
                    assert(prev[t as int] == crate::backends::opt_string_view(repo));
                }
                t = t + 1;
            }
            if !found {
                repos.push(repo);
                assert forall|u: int| 0 <= u < repos@.len() implies crate::backends::opt_string_view(#[trigger] repos@[u])
                    == first_occurrences(keys.subrange(0, k + 1))[u] by {
                    if u < prev.len() {
                        assert(prev.push(keys[k as int])[u] == prev[u]);
                    }
                }
            }
            k = k + 1;
        }
        assert(keys.subrange(0, packages@.len() as int) == keys);
        let ghost firsts = first_occurrences(keys);
        let mut r: Vec<CommandLine> = Vec::new();
        let mut t: usize = 0;
        while t < repos.len()
            invariant
                t <= repos@.len(),
                ids == entry_ids(entries_view(packages@)),
                keys == entry_repos(entries_view(packages@)),
                firsts == first_occurrences(keys),
                repos@.len() == firsts.len(),
                forall|u: int| 0 <= u < repos@.len() ==> crate::backends::opt_string_view(#[trigger] repos@[u]) == firsts[u],
                r@.len() == t,
                forall|u: int| 0 <= u < t ==> (#[trigger] r@[u]).spec_args()
                    == dnf_install_head(firsts[u]) + flag_if(no_confirm, "--assumeyes"@) + ids_keyed(ids, keys, firsts[u])
                    && r@[u].perms == Perms::AsRoot,
            decreases repos@.len() - t,
        {
            let ghost key = firsts[t as int];
            let mut args = match &repos[t] {
                Some(repo) => {
                    let mut a = words3("dnf", "install", "--repo");
                    push_str(&mut a, repo.as_str());
                    a
                },
                None => {
                    let mut a = words3("dnf", "install", "--repo");
                    push_str(&mut a, "updates");
                    push_str(&mut a, "--repo");
                    push_str(&mut a, "fedora");
                    a
                },
            };
            assert(strings_view(args@) =~= dnf_install_head(key));
            push_flag(&mut args, no_confirm, "--assumeyes");
            let mut j: usize = 0;
            let ghost head = strings_view(args@);
            while j < packages.len()
                invariant
                    j <= packages@.len(),
                    t < repos@.len(),
                    ids == entry_ids(entries_view(packages@)),
                    keys == entry_repos(entries_view(packages@)),
                    crate::backends::opt_string_view(repos@[t as int]) == key,
                    strings_view(args@) == head + ids_keyed(ids.subrange(0, j as int), keys.subrange(0, j as int), key),
                decreases packages@.len() - j,
            {
                proof { lemma_ids_keyed_step(ids, keys, key, j as int); }
                let repo = repo_of(&packages[j].1);
                if repo_eq(&repo, &repos[t]) {
                    let ghost before = args@;
                    push_str(&mut args, packages[j].0.as_str());
                    assert(ids[j as int] == packages@[j as int].0@);
                }
                j = j + 1;
            }
            assert(ids.subrange(0, packages@.len() as int) == ids);
            assert(keys.subrange(0, packages@.len() as int) == keys);
            r.push(CommandLine { args, perms: Perms::AsRoot });
            t = t + 1;
        }
        r
    }

    /// Removes the packages; nothing to run when there are none.
    pub fn remove_packages(packages: &Vec<String>, no_confirm: bool) -> (r: Option<CommandLine>)
        ensures
            r is None <==> packages@.len() == 0,
            r matches Some(c) ==> c.spec_args() == spec_names_command(seq!["dnf"@, "remove"@], no_confirm,
                "--assumeyes"@, packages@) && c.perms == Perms::AsRoot,
    {
        if packages.len() == 0 {
            return None;
        }
        Some(names_command(words2("dnf", "remove"), no_confirm, "--assumeyes", packages, Perms::AsRoot))
    }

    /// The installed packages that the two `repoquery` listings printed: those
    /// the user installed first, then all installed ones as dependencies.
    pub fn query_installed_packages(user_output: &str, installed_output: &str) -> (r: Vec<(String, AnyQueryInfo)>)
        ensures
            r@.len() == spec_lines(user_output@).len() + spec_lines(installed_output@).len(),
            forall|i: int| 0 <= i < spec_lines(user_output@).len() ==> (#[trigger] r@[i]).0@
                == spec_dnf_package(spec_lines(user_output@)[i]) && r@[i].1 == AnyQueryInfo::Dnf(DnfQueryInfo { user: true }),
            forall|i: int| 0 <= i < spec_lines(installed_output@).len() ==>
                (#[trigger] r@[spec_lines(user_output@).len() + i]).0@ == spec_dnf_package(spec_lines(installed_output@)[i])
                && r@[spec_lines(user_output@).len() + i].1 == AnyQueryInfo::Dnf(DnfQueryInfo { user: false }),
    {
        let mut r: Vec<(String, AnyQueryInfo)> = Vec::new();
        dnf_entries(user_output, true, &mut r);
        assert forall|i: int| 0 <= i < spec_lines(user_output@).len() implies (#[trigger] r@[i]).0@
            == spec_dnf_package(spec_lines(user_output@)[i]) && r@[i].1 == AnyQueryInfo::Dnf(DnfQueryInfo { user: true }) by {
            assert(r@[0 + i] == r@[i]);
        }
        dnf_entries(installed_output, false, &mut r);
        r
    }
}

fn dnf_entries(output: &str, user: bool, into: &mut Vec<(String, AnyQueryInfo)>)
    ensures
        final(into)@.len() == old(into)@.len() + spec_lines(output@).len(),
        forall|i: int| 0 <= i < old(into)@.len() ==> #[trigger] final(into)@[i] == old(into)@[i],
        forall|i: int| 0 <= i < spec_lines(output@).len() ==> (#[trigger] final(into)@[old(into)@.len() + i]).0@
            == spec_dnf_package(spec_lines(output@)[i]) && final(into)@[old(into)@.len() + i].1
            == AnyQueryInfo::Dnf(DnfQueryInfo { user }),
{
    let ls = lines(output);
    assert(ls@.len() == spec_lines(output@).len());
    let mut i: usize = 0;
    while i < ls.len()
        invariant
            i <= ls@.len(),
            ls@.map_values(|l: String| l@) == spec_lines(output@),
            into@.len() == old(into)@.len() + i,
            forall|j: int| 0 <= j < old(into)@.len() ==> #[trigger] into@[j] == old(into)@[j],
            forall|j: int| 0 <= j < i ==> (#[trigger] into@[old(into)@.len() + j]).0@
                == spec_dnf_package(spec_lines(output@)[j]) && into@[old(into)@.len() + j].1
                == AnyQueryInfo::Dnf(DnfQueryInfo { user }),
        decreases ls@.len() - i,
    {
        assert(ls@.map_values(|l: String| l@)[i as int] == ls@[i as int]@);
        into.push((Dnf::parse_package(ls[i].as_str()), AnyQueryInfo::Dnf(DnfQueryInfo { user })));
        i = i + 1;
    }
}

/// `s` without its last `-` and what follows it (a version), if it has a `-`.
pub open spec fn strip_version(s: Seq<char>) -> Seq<char> {
    if exists|k: int| 0 <= k < s.len() && s[k] == '-' && forall|j: int| k < j < s.len() ==> s[j] != '-' {
        let k = choose|k: int| 0 <= k < s.len() && s[k] == '-' && forall|j: int| k < j < s.len() ==> s[j] != '-';
        s.subrange(0, k)
    } else {
        s
    }
}

/// Whether a line of `xbps-query -l` begins with a state marker and a space.
pub open spec fn has_state_marker(line: Seq<char>) -> bool {
    line.len() >= 3 && (line.subrange(0, 3) == "ii "@ || line.subrange(0, 3) == "uu "@
        || line.subrange(0, 3) == "hr "@ || line.subrange(0, 3) == "?? "@)
}

/// The package name on a line of `xbps-query -l` (`ii name-version description`):
/// without the state marker, the description and the version.
pub open spec fn spec_xbps_name(line: Seq<char>) -> Seq<char> {
    let rest = if has_state_marker(line) { line.subrange(3, line.len() as int) } else { line };
    strip_version(before_char(rest, ' '))
}

fn strip_version_owned(s: &str) -> (r: String)
    ensures
        r@ == strip_version(s@),
{
    let n = s.unicode_len();
    let mut i: usize = n;
    while i > 0
        invariant
            i <= n,
            n == s@.len(),
            forall|j: int| i <= j < n ==> s@[j] != '-',
        decreases i,
    {
        if s.get_char(i - 1) == '-' {
            let k = i - 1;
            proof {
                let c = choose|c: int| 0 <= c < s@.len() && s@[c] == '-' && forall|j: int| c < j < s@.len() ==> s@[j] != '-';
                if c < k {
                    assert(s@[k as int] == '-');
                } else if c > k {
                    assert(s@[c] != '-');
                }
            }
            return crate::text::slice_owned(s, 0, k);
        }
        i = i - 1;
    }
    assert(s@.subrange(0, n as int) == s@);
    crate::text::slice_owned(s, 0, n)
}

impl Xbps {
    /// The package name on a line of `xbps-query -l`.
    pub fn package_name(line: &str) -> (r: String)
        ensures
            r@ == spec_xbps_name(line@),
    {
        let n = line.unicode_len();
        proof {
            reveal_strlit("ii ");
            reveal_strlit("uu ");
            reveal_strlit("hr ");
            reveal_strlit("?? ");
        }
        let marked = starts_with(line, "ii ") || starts_with(line, "uu ") || starts_with(line, "hr ")
            || starts_with(line, "?? ");
        let rest = if marked {
            crate::text::slice_owned(line, 3, n)
        } else {
            assert(line@.subrange(0, n as int) == line@);
            crate::text::slice_owned(line, 0, n)
        };
        let name = before_char_owned(rest.as_str(), ' ');
        strip_version_owned(name.as_str())
    }

    /// The installed packages that `xbps-query -l` printed.
    pub fn query_installed_packages(output: &str) -> (r: Vec<(String, AnyQueryInfo)>)
        ensures
            r@.len() == spec_lines(output@).len(),
            forall|i: int| 0 <= i < r@.len() ==> (#[trigger] r@[i]).0@ == spec_xbps_name(spec_lines(output@)[i])
                && r@[i].1 == AnyQueryInfo::Xbps(XbpsQueryInfo {}),
    {
        let ls = lines(output);
        let mut r: Vec<(String, AnyQueryInfo)> = Vec::new();
        let mut i: usize = 0;
        while i < ls.len()
            invariant
                i <= ls@.len(),
                r@.len() == i,
                ls@.map_values(|l: String| l@) == spec_lines(output@),
                forall|j: int| 0 <= j < i ==> (#[trigger] r@[j]).0@ == spec_xbps_name(spec_lines(output@)[j])
                    && r@[j].1 == AnyQueryInfo::Xbps(XbpsQueryInfo {}),
            decreases ls@.len() - i,
        {
            assert(ls@.map_values(|l: String| l@)[i as int] == ls@[i as int]@);
            r.push((Xbps::package_name(ls[i].as_str()), AnyQueryInfo::Xbps(XbpsQueryInfo {})));
            i = i + 1;
        }
        r
    }
}

/// What cargo records of an installed crate: version, git source, the two
/// feature flags and the features.
pub type CrateRecordView = (Seq<char>, Option<Seq<char>>, bool, bool, Seq<Seq<char>>);

pub open spec fn cargo_info_view(i: CargoQueryInfo) -> CrateRecordView {
    (i.version@, crate::backends::opt_string_view(i.git), i.all_features, i.no_default_features, strings_view(i.features@))
}

/// `q` is cargo's information, and says `want`.
pub open spec fn is_crate_record(q: AnyQueryInfo, want: CrateRecordView) -> bool {
    match q {
        AnyQueryInfo::Cargo(info) => cargo_info_view(info) == want,
        _ => false,
    }
}

/// One entry of cargo's record of installed crates: its key names the crate,
/// its value holds both feature flags and the feature list.
pub open spec fn spec_crate_record(key: Seq<char>, value: GroupValue) -> Option<(Seq<char>, CrateRecordView)> {
    match (spec_crate_key(key), value) {
        (Some(k), GroupValue::Table(fields)) => match (
            field_of(fields@, "all_features"@),
            field_of(fields@, "no_default_features"@),
            field_of(fields@, "features"@),
        ) {
            (Some(a), Some(n), Some(f)) => match (spec_flag(Some(a)), spec_flag(Some(n)), spec_text_list(Some(f))) {
                (Some(all), Some(no_default), Some(features)) => Some((k.0, (k.1, k.2, all, no_default, features))),
                _ => None,
            },
            _ => None,
        },
        _ => None,
    }
}

/// The entries of cargo's record, or `None` if any is malformed.
pub open spec fn spec_crate_records(entries: Seq<(String, GroupValue)>) -> Option<Seq<(Seq<char>, CrateRecordView)>>
    decreases entries.len(),
{
    if entries.len() == 0 {
        Some(Seq::empty())
    } else {
        match (spec_crate_records(entries.drop_last()), spec_crate_record(entries.last().0@, entries.last().1)) {
            (Some(prev), Some(e)) => Some(prev.push(e)),
            _ => None,
        }
    }
}

/// The installed crates that cargo's record (`.crates2.json`) lists under `installs`.
pub open spec fn spec_installed_crates(record: GroupValue) -> Option<Seq<(Seq<char>, CrateRecordView)>> {
    match record {
        GroupValue::Table(fields) => match field_of(fields@, "installs"@) {
            Some(GroupValue::Table(entries)) => spec_crate_records(entries@),
            _ => None,
        },
        _ => None,
    }
}

proof fn lemma_records_error_persists(entries: Seq<(String, GroupValue)>, j: int)
    requires
        0 <= j <= entries.len(),
        spec_crate_records(entries.subrange(0, j)) is None,
    ensures
        spec_crate_records(entries) is None,
    decreases entries.len(),
{
    if j == entries.len() {
        assert(entries.subrange(0, j) =~= entries);
    } else {
        assert(entries.drop_last().subrange(0, j) =~= entries.subrange(0, j));
        lemma_records_error_persists(entries.drop_last(), j);
    }
}

fn crate_record(key: &String, value: &GroupValue) -> (r: Option<(String, CargoQueryInfo)>)
    ensures
        match (r, spec_crate_record(key@, *value)) {
            (Some(got), Some(want)) => got.0@ == want.0 && cargo_info_view(got.1) == want.1,
            (None, None) => true,
            _ => false,
        },
{
    let (name, version, git) = match Cargo::parse_crate_key(key.as_str()) {
        Some(k) => k,
        None => return None,
    };
    let fields = match value {
        GroupValue::Table(fields) => fields,
        _ => return None,
    };
    let a = field(fields, "all_features");
    let n = field(fields, "no_default_features");
    let f = field(fields, "features");
    if a.is_none() || n.is_none() || f.is_none() {
        return None;
    }
    match (flag(a), flag(n), text_list(f)) {
        (Ok(all_features), Ok(no_default_features), Ok(features)) => Some((name, CargoQueryInfo {
            version,
            git,
            all_features,
            no_default_features,
            features,
        })),
        _ => None,
    }
}

impl Cargo {
    /// The installed crates that cargo's record (`.crates2.json`) lists; `None`
    /// if the record is malformed.
    pub fn extract_packages(record: &GroupValue) -> (r: Option<Vec<(String, AnyQueryInfo)>>)
        ensures
            match (r, spec_installed_crates(*record)) {
                (Some(got), Some(want)) => got@.len() == want.len() && forall|i: int| 0 <= i < want.len() ==>
                    (#[trigger] got@[i]).0@ == want[i].0 && is_crate_record(got@[i].1, want[i].1),
                (None, None) => true,
                _ => false,
            },
    {
        let fields = match record {
            GroupValue::Table(fields) => fields,
            _ => return None,
        };
        let entries = match field(fields, "installs") {
            Some(GroupValue::Table(entries)) => entries,
            _ => return None,
        };
        let ghost want = spec_crate_records(entries@);
        let mut out: Vec<(String, AnyQueryInfo)> = Vec::new();
        let mut i: usize = 0;
        while i < entries.len()
            invariant
                i <= entries@.len(),
                want == spec_crate_records(entries@),
                spec_installed_crates(*record) == want,
                spec_crate_records(entries@.subrange(0, i as int)) is Some,
                spec_crate_records(entries@.subrange(0, i as int))->Some_0.len() == i,
                out@.len() == i,
                forall|j: int| 0 <= j < i ==> (#[trigger] out@[j]).0@ == spec_crate_records(entries@.subrange(0, i as int))->Some_0[j].0
                    && is_crate_record(out@[j].1, spec_crate_records(entries@.subrange(0, i as int))->Some_0[j].1),
            decreases entries@.len() - i,
        {
            let ghost prev = entries@.subrange(0, i as int);
            let ghost next = entries@.subrange(0, i + 1);
            assert(next.drop_last() =~= prev);
            assert(next.last() == entries@[i as int]);
            match crate_record(&entries[i].0, &entries[i].1) {
                Some((name, info)) => {
                    let ghost pr = spec_crate_records(prev)->Some_0;
                    let ghost e = spec_crate_record(entries@[i as int].0@, entries@[i as int].1)->Some_0;
                    assert(spec_crate_records(next) == Some(pr.push(e)));
                    let ghost old_out = out@;
                    out.push((name, AnyQueryInfo::Cargo(info)));
                    assert forall|j: int| 0 <= j < i + 1 implies (#[trigger] out@[j]).0@ == spec_crate_records(next)->Some_0[j].0
                        && is_crate_record(out@[j].1, spec_crate_records(next)->Some_0[j].1) by {
                        if j < i {
                            assert(out@[j] == old_out[j]);
                            assert(pr.push(e)[j] == pr[j]);
                        }
                    }
                },
                None => {
                    proof { lemma_records_error_persists(entries@, i + 1); }
                    return None;
                },
            }
            i = i + 1;
        }
        assert(entries@.subrange(0, entries@.len() as int) == entries@);
        assert(out@.len() == want->Some_0.len());
        Some(out)
    }
}

/// The applications that `pipx list --json` lists: the keys of its `venvs` table.
pub open spec fn spec_pipx_names(listing: GroupValue) -> Option<Seq<Seq<char>>> {
    match listing {
        GroupValue::Table(fields) => match field_of(fields@, "venvs"@) {
            Some(GroupValue::Table(venvs)) => Some(venvs@.map_values(|e: (String, GroupValue)| e.0@)),
            _ => None,
        },
        _ => None,
    }
}

impl Pipx {
    /// The application names of pipx's JSON listing; `None` if it has no
    /// `venvs` table.
    pub fn extract_package_names(listing: &GroupValue) -> (r: Option<Vec<String>>)
        ensures
            match (r, spec_pipx_names(*listing)) {
                (Some(got), Some(want)) => strings_view(got@) == want,
                (None, None) => true,
                _ => false,
            },
    {
        let fields = match listing {
            GroupValue::Table(fields) => fields,
            _ => return None,
        };
        let venvs = match field(fields, "venvs") {
            Some(GroupValue::Table(venvs)) => venvs,
            _ => return None,
        };
        let mut out: Vec<String> = Vec::new();
        let mut i: usize = 0;
        while i < venvs.len()
            invariant
                i <= venvs@.len(),
                out@.len() == i,
                forall|j: int| 0 <= j < i ==> #[trigger] out@[j]@ == venvs@[j].0@,
            decreases venvs@.len() - i,
        {
            out.push(venvs[i].0.clone());
            i = i + 1;
        }
        assert(strings_view(out@) =~= venvs@.map_values(|e: (String, GroupValue)| e.0@));
        Some(out)
    }
}

/// The executable whose presence on the search path shows that a backend's
/// package manager is installed.
pub open spec fn spec_probe(backend: AnyBackend, config: Config) -> Seq<char> {
    match backend {
        AnyBackend::Arch => config.arch_package_manager.spec_command(),
        AnyBackend::Apt => "apt-mark"@,
        AnyBackend::Cargo => "cargo"@,
        AnyBackend::Dnf => "dnf"@,
        AnyBackend::Flatpak => "flatpak"@,
        AnyBackend::Pipx => "pipx"@,
        AnyBackend::Rustup => "rustup"@,
        AnyBackend::Xbps => "xbps-query"@,
    }
}

/// The executable whose presence on the search path shows that a backend's
/// package manager is installed; without it, nothing of the backend is installed.
pub fn probe_command(backend: AnyBackend, config: &Config) -> (r: &'static str)
    ensures
        r@ == spec_probe(backend, *config),
{
    match backend {
        AnyBackend::Arch => config.arch_package_manager.as_command(),
        AnyBackend::Apt => "apt-mark",
        AnyBackend::Cargo => "cargo",
        AnyBackend::Dnf => "dnf",
        AnyBackend::Flatpak => "flatpak",
        AnyBackend::Pipx => "pipx",
        AnyBackend::Rustup => "rustup",
        AnyBackend::Xbps => "xbps-query",
    }
}

fn plain_command(args: Vec<String>) -> (r: CommandLine)
    ensures
        r.args@ == args@,
        r.perms == Perms::Same,
{
    CommandLine { args, perms: Perms::Same }
}

impl Apt {
    /// The query for manually installed packages.
    pub fn query() -> (r: CommandLine)
        ensures
            r.spec_args() == seq!["apt-mark"@, "showmanual"@],
            r.perms == Perms::Same,
    {
        plain_command(words2("apt-mark", "showmanual"))
    }
}

impl Dnf {
    /// The queries for user-installed and for all installed packages, each
    /// printed as `repo/name`.
    pub fn queries() -> (r: (CommandLine, CommandLine))
        ensures
            r.0.spec_args() == seq!["dnf"@, "repoquery"@, "--userinstalled"@, "--queryformat"@, "%{from_repo}/%{name}"@],
            r.1.spec_args() == seq!["dnf"@, "repoquery"@, "--installed"@, "--queryformat"@, "%{from_repo}/%{name}"@],
            r.0.perms == Perms::Same && r.1.perms == Perms::Same,
    {
        let mut user = words3("dnf", "repoquery", "--userinstalled");
        push_str(&mut user, "--queryformat");
        push_str(&mut user, "%{from_repo}/%{name}");
        let mut all = words3("dnf", "repoquery", "--installed");
        push_str(&mut all, "--queryformat");
        push_str(&mut all, "%{from_repo}/%{name}");
        (plain_command(user), plain_command(all))
    }
}

impl Flatpak {
    /// The listings of system-wide and of per-user applications.
    pub fn queries() -> (r: (CommandLine, CommandLine))
        ensures
            r.0.spec_args() == seq!["flatpak"@, "list"@, "--system"@, "--app"@, "--columns=application"@],
            r.1.spec_args() == seq!["flatpak"@, "list"@, "--user"@, "--app"@, "--columns=application"@],
            r.0.perms == Perms::Same && r.1.perms == Perms::Same,
    {
        let mut system = words3("flatpak", "list", "--system");
        push_str(&mut system, "--app");
        push_str(&mut system, "--columns=application");
        let mut user = words3("flatpak", "list", "--user");
        push_str(&mut user, "--app");
        push_str(&mut user, "--columns=application");
        (plain_command(system), plain_command(user))
    }
}

impl Pipx {
    /// The listing of installed applications, as JSON.
    pub fn query() -> (r: CommandLine)
        ensures
            r.spec_args() == seq!["pipx"@, "list"@, "--json"@],
            r.perms == Perms::Same,
    {
        plain_command(words3("pipx", "list", "--json"))
    }
}

impl Xbps {
    /// The listing of installed packages.
    pub fn query() -> (r: CommandLine)
        ensures
            r.spec_args() == seq!["xbps-query"@, "-l"@],
            r.perms == Perms::Same,
    {
        plain_command(words2("xbps-query", "-l"))
    }
}

} // verus!
