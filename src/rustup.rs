//! Rustup: toolchains as packages, components as their options.
use vstd::prelude::*;
use crate::backends::{AnyInstallOptions, AnyQueryInfo, InstallOptionsView, Rustup, RustupQueryInfo, strings_view};
use crate::commands::{CommandLine, concat_all, entries_view};
use crate::config::Perms;
use crate::desired::clone_strings;
use crate::text::{before_char, before_char_owned, lines, spec_lines, split_once, split_once_spec, str_eq};

verus! {

/// A component of a toolchain.
#[derive(Debug, Clone)]
pub struct RustupPackage {
    pub toolchain: String,
    pub component: String,
}

impl RustupPackage {
    pub open spec fn spec_view(&self) -> (Seq<char>, Seq<char>) {
        (self.toolchain@, self.component@)
    }

    fn copy(&self) -> (r: RustupPackage)
        ensures
            r.spec_view() == self.spec_view(),
    {
        RustupPackage { toolchain: self.toolchain.clone(), component: self.component.clone() }
    }
}

/// Whether the toolchain of `component` is among those removed.
pub fn toolchain_of_component_was_already_removed(removed_toolchains: &Vec<String>, component: &RustupPackage) -> (r: bool)
    ensures
        r == exists|i: int| 0 <= i < removed_toolchains@.len() && #[trigger] removed_toolchains@[i]@ == component.toolchain@,
{
    let mut i: usize = 0;
    while i < removed_toolchains.len()
        invariant
            i <= removed_toolchains@.len(),
            forall|j: int| 0 <= j < i ==> #[trigger] removed_toolchains@[j]@ != component.toolchain@,
        decreases removed_toolchains@.len() - i,
    {
        if str_eq(removed_toolchains[i].as_str(), component.toolchain.as_str()) {
            return true;
        }
        i = i + 1;
    }
    false
}

/// The components whose name is a single word.
pub open spec fn single_word_component(c: Seq<char>) -> bool {
    c == "cargo"@ || c == "rustfmt"@ || c == "clippy"@ || c == "miri"@ || c == "rls"@ || c == "rustc"@
}

/// The component name at the start of a line of `rustup component list`
/// (`name-target`): one word for the single-word components, two otherwise.
pub open spec fn spec_component_name(line: Seq<char>) -> Option<Seq<char>> {
    let first = before_char(line, '-');
    if single_word_component(first) {
        Some(first)
    } else {
        match split_once_spec(line, '-') {
            Some(parts) => Some(first + seq!['-'] + before_char(parts.1, '-')),
            None => None,
        }
    }
}

/// Adds the component that `line` names, qualified by `toolchain`
/// (`toolchain/component`), to `val`.
pub fn install_components(line: &str, toolchain: &str, val: &mut Vec<String>)
    requires
        spec_component_name(line@) is Some,
    ensures
        strings_view(final(val)@) == strings_view(old(val)@).push(toolchain@ + seq!['/'] + spec_component_name(line@)->Some_0),
{
    let first = before_char_owned(line, '-');
    let ghost want = toolchain@ + seq!['/'] + spec_component_name(line@)->Some_0;
    let single = str_eq(first.as_str(), "cargo") || str_eq(first.as_str(), "rustfmt") || str_eq(first.as_str(), "clippy")
        || str_eq(first.as_str(), "miri") || str_eq(first.as_str(), "rls") || str_eq(first.as_str(), "rustc");
    let mut out = toolchain.to_owned();
    out.append("/");
    proof { reveal_strlit("/"); reveal_strlit("-"); }
    if single {
        out.append(first.as_str());
    } else {
        match split_once(line, '-') {
            Some((_, rest)) => {
                let second = before_char_owned(rest.as_str(), '-');
                out.append(first.as_str());
                out.append("-");
                out.append(second.as_str());
            },
            None => {
                proof { assert(false); }
            },
        }
    }
    assert(out@ =~= want);
    let ghost before = val@;
    val.push(out);
    assert(strings_view(val@) =~= strings_view(before).push(want));
}

/// The distinct toolchains of `s`, in order of first appearance.
pub open spec fn toolchains_in(s: Seq<RustupPackage>) -> Seq<Seq<char>>
    decreases s.len(),
{
    if s.len() == 0 {
        Seq::empty()
    } else {
        let prev = toolchains_in(s.drop_last());
        if prev.contains(s.last().toolchain@) {
            prev
        } else {
            prev.push(s.last().toolchain@)
        }
    }
}

/// The components of `s` that belong to `toolchain`, in order.
pub open spec fn of_toolchain(s: Seq<RustupPackage>, toolchain: Seq<char>) -> Seq<(Seq<char>, Seq<char>)>
    decreases s.len(),
{
    if s.len() == 0 {
        Seq::empty()
    } else if s.last().toolchain@ == toolchain {
        of_toolchain(s.drop_last(), toolchain).push(s.last().spec_view())
    } else {
        of_toolchain(s.drop_last(), toolchain)
    }
}

pub open spec fn packages_view(s: Seq<RustupPackage>) -> Seq<(Seq<char>, Seq<char>)> {
    s.map_values(|p: RustupPackage| p.spec_view())
}

fn index_of_toolchain(toolchains: &Vec<String>, t: &String) -> (r: Option<usize>)
    ensures
        match r {
            Some(i) => i < toolchains@.len() && toolchains@[i as int]@ == t@,
            None => !strings_view(toolchains@).contains(t@),
        },
{
    let mut i: usize = 0;
    while i < toolchains.len()
        invariant
            i <= toolchains@.len(),
            forall|j: int| 0 <= j < i ==> #[trigger] toolchains@[j]@ != t@,
        decreases toolchains@.len() - i,
    {
        if str_eq(toolchains[i].as_str(), t.as_str()) {
            return Some(i);
        }
        i = i + 1;
    }
    assert forall|j: int| 0 <= j < strings_view(toolchains@).len() implies strings_view(toolchains@)[j] != t@ by {
        assert(strings_view(toolchains@)[j] == toolchains@[j]@);
    }
    None
}

fn filter_toolchain(components: &Vec<RustupPackage>, toolchain: &String) -> (r: Vec<RustupPackage>)
    ensures
        packages_view(r@) == of_toolchain(components@, toolchain@),
{
    let mut r: Vec<RustupPackage> = Vec::new();
    let mut i: usize = 0;
    while i < components.len()
        invariant
            i <= components@.len(),
            packages_view(r@) == of_toolchain(components@.subrange(0, i as int), toolchain@),
        decreases components@.len() - i,
    {
        assert(components@.subrange(0, i + 1).drop_last() =~= components@.subrange(0, i as int));
        if str_eq(components[i].toolchain.as_str(), toolchain.as_str()) {
            let ghost before = r@;
            r.push(components[i].copy());
            assert(packages_view(r@) =~= packages_view(before).push(components@[i as int].spec_view()));
        }
        i = i + 1;
    }
    assert(components@.subrange(0, components@.len() as int) == components@);
    r
}

/// The components grouped by toolchain: one group per toolchain, in order of
/// first appearance, each holding that toolchain's components in order.
pub fn group_components_by_toolchains(components: Vec<RustupPackage>) -> (r: Vec<Vec<RustupPackage>>)
    ensures
        r@.len() == toolchains_in(components@).len(),
        forall|g: int| 0 <= g < r@.len() ==> packages_view(#[trigger] r@[g]@)
            == of_toolchain(components@, toolchains_in(components@)[g]),
{
    let mut toolchains: Vec<String> = Vec::new();
    let mut i: usize = 0;
    while i < components.len()
        invariant
            i <= components@.len(),
            strings_view(toolchains@) == toolchains_in(components@.subrange(0, i as int)),
        decreases components@.len() - i,
    {
        assert(components@.subrange(0, i + 1).drop_last() =~= components@.subrange(0, i as int));
        match index_of_toolchain(&toolchains, &components[i].toolchain) {
            Some(k) => {
                assert(strings_view(toolchains@)[k as int] == components@[i as int].toolchain@);
            },
            None => {
                let ghost before = toolchains@;
                toolchains.push(components[i].toolchain.clone());
                assert(strings_view(toolchains@) =~= strings_view(before).push(components@[i as int].toolchain@));
            },
        }
        i = i + 1;
    }
    assert(components@.subrange(0, components@.len() as int) == components@);
    let mut r: Vec<Vec<RustupPackage>> = Vec::new();
    let mut g: usize = 0;
    while g < toolchains.len()
        invariant
            g <= toolchains@.len(),
            strings_view(toolchains@) == toolchains_in(components@),
            r@.len() == g,
            forall|h: int| 0 <= h < g ==> packages_view(#[trigger] r@[h]@)
                == of_toolchain(components@, toolchains_in(components@)[h]),
        decreases toolchains@.len() - g,
    {
        assert(strings_view(toolchains@)[g as int] == toolchains@[g as int]@);
        r.push(filter_toolchain(&components, &toolchains[g]));
        g = g + 1;
    }
    r
}

/// The components that options name for rustup.
pub open spec fn rustup_components(o: InstallOptionsView) -> Seq<Seq<char>> {
    match o {
        InstallOptionsView::Rustup { components } => components,
        _ => Seq::empty(),
    }
}

/// The commands that install one toolchain: the toolchain, then its components
/// if any are named.
pub open spec fn spec_rustup_install(e: (Seq<char>, InstallOptionsView)) -> Seq<Seq<Seq<char>>> {
    seq![seq!["rustup"@, "toolchain"@, "install"@, e.0]] + if rustup_components(e.1).len() > 0 {
        seq![seq!["rustup"@, "component"@, "add"@, "--toolchain"@, e.0] + rustup_components(e.1)]
    } else {
        Seq::empty()
    }
}

pub open spec fn commands_view(s: Seq<CommandLine>) -> Seq<Seq<Seq<char>>> {
    s.map_values(|c: CommandLine| c.spec_args())
}

fn words(parts: Vec<&str>) -> (r: Vec<String>)
    ensures
        strings_view(r@) == parts@.map_values(|p: &str| p@),
{
    let mut r: Vec<String> = Vec::new();
    let mut i: usize = 0;
    while i < parts.len()
        invariant
            i <= parts@.len(),
            r@.len() == i,
            strings_view(r@) == parts@.subrange(0, i as int).map_values(|p: &str| p@),
        decreases parts@.len() - i,
    {
        let ghost before = r@;
        r.push(parts[i].to_owned());
        assert forall|j: int| 0 <= j < i + 1 implies strings_view(r@)[j] == parts@.subrange(0, i + 1).map_values(|p: &str| p@)[j] by {
            if j < i {
                assert(strings_view(before)[j] == parts@.subrange(0, i as int).map_values(|p: &str| p@)[j]);
                assert(r@[j] == before[j]);
            }
        }
        assert(strings_view(r@) =~= parts@.subrange(0, i + 1).map_values(|p: &str| p@));
        i = i + 1;
    }
    assert(parts@.subrange(0, parts@.len() as int) == parts@);
    r
}

impl Rustup {
    /// The commands that install the toolchains and their components.
    pub fn install_packages(packages: &Vec<(String, AnyInstallOptions)>) -> (r: Vec<CommandLine>)
        ensures
            commands_view(r@) == concat_all(entries_view(packages@).map_values(
                |e: (Seq<char>, InstallOptionsView)| spec_rustup_install(e))),
            forall|i: int| 0 <= i < r@.len() ==> (#[trigger] r@[i]).perms == Perms::Same,
    {
        let ghost ev = entries_view(packages@);
        let mut r: Vec<CommandLine> = Vec::new();
        let mut i: usize = 0;
        while i < packages.len()
            invariant
                i <= packages@.len(),
                ev == entries_view(packages@),
                commands_view(r@) == concat_all(ev.subrange(0, i as int).map_values(
                    |e: (Seq<char>, InstallOptionsView)| spec_rustup_install(e))),
                forall|j: int| 0 <= j < r@.len() ==> (#[trigger] r@[j]).perms == Perms::Same,
            decreases packages@.len() - i,
        {
            let ghost before_cmds = commands_view(r@);
            let ghost prev = ev.subrange(0, i as int).map_values(|e: (Seq<char>, InstallOptionsView)| spec_rustup_install(e));
            let ghost next = ev.subrange(0, i + 1).map_values(|e: (Seq<char>, InstallOptionsView)| spec_rustup_install(e));
            assert(next.drop_last() =~= prev);
            assert(next.last() == spec_rustup_install(ev[i as int]));
            let toolchain = packages[i].0.as_str();
            let install = words(vec!["rustup", "toolchain", "install", toolchain]);
            proof { reveal_strlit("rustup"); }
            assert(strings_view(install@) =~= seq!["rustup"@, "toolchain"@, "install"@, toolchain@]);
            r.push(CommandLine { args: install, perms: Perms::Same });
            let components = match &packages[i].1 {
                AnyInstallOptions::Rustup(o) => clone_strings(&o.components),
                _ => Vec::new(),
            };
            assert(strings_view(components@) =~= rustup_components(ev[i as int].1));
            if components.len() > 0 {
                let mut add = words(vec!["rustup", "component", "add", "--toolchain", toolchain]);
                let ghost head = strings_view(add@);
                assert(head =~= seq!["rustup"@, "component"@, "add"@, "--toolchain"@, toolchain@]);
                let mut k: usize = 0;
                while k < components.len()
                    invariant
                        k <= components@.len(),
                        strings_view(add@) == head + strings_view(components@.subrange(0, k as int)),
                    decreases components@.len() - k,
                {
                    let ghost b = add@;
                    let t = components[k].clone();
                    add.push(t);
                    assert(strings_view(add@) =~= strings_view(b).push(components@[k as int]@));
                    assert(strings_view(components@.subrange(0, k + 1))
                        =~= strings_view(components@.subrange(0, k as int)).push(components@[k as int]@));
                    assert(strings_view(add@) =~= head + strings_view(components@.subrange(0, k + 1)));
                    k = k + 1;
                }
                assert(components@.subrange(0, components@.len() as int) == components@);
                r.push(CommandLine { args: add, perms: Perms::Same });
            }
            assert(commands_view(r@) =~= before_cmds + spec_rustup_install(ev[i as int]));
            i = i + 1;
        }
        assert(ev.subrange(0, ev.len() as int) == ev);
        r
    }

    /// One `rustup toolchain remove` per toolchain.
    pub fn remove_packages(toolchains: &Vec<String>) -> (r: Vec<CommandLine>)
        ensures
            r@.len() == toolchains@.len(),
            forall|i: int| 0 <= i < r@.len() ==> (#[trigger] r@[i]).spec_args()
                == seq!["rustup"@, "toolchain"@, "remove"@, toolchains@[i]@] && r@[i].perms == Perms::Same,
    {
        let mut r: Vec<CommandLine> = Vec::new();
        let mut i: usize = 0;
        while i < toolchains.len()
            invariant
                i <= toolchains@.len(),
                r@.len() == i,
                forall|j: int| 0 <= j < i ==> (#[trigger] r@[j]).spec_args()
                    == seq!["rustup"@, "toolchain"@, "remove"@, toolchains@[j]@] && r@[j].perms == Perms::Same,
            decreases toolchains@.len() - i,
        {
            let args = words(vec!["rustup", "toolchain", "remove", toolchains[i].as_str()]);
            assert(strings_view(args@) =~= seq!["rustup"@, "toolchain"@, "remove"@, toolchains@[i as int]@]);
            r.push(CommandLine { args, perms: Perms::Same });
            i = i + 1;
        }
        r
    }

    /// The listing of toolchains.
    pub fn toolchains_query() -> (r: CommandLine)
        ensures
            r.spec_args() == seq!["rustup"@, "toolchain"@, "list"@],
            r.perms == Perms::Same,
    {
        let args = words(vec!["rustup", "toolchain", "list"]);
        assert(strings_view(args@) =~= seq!["rustup"@, "toolchain"@, "list"@]);
        CommandLine { args, perms: Perms::Same }
    }

    /// The listing of the components installed for `toolchain`.
    pub fn components_query(toolchain: &str) -> (r: CommandLine)
        ensures
            r.spec_args() == seq!["rustup"@, "component"@, "list"@, "--installed"@, "--toolchain"@, toolchain@],
            r.perms == Perms::Same,
    {
        let args = words(vec!["rustup", "component", "list", "--installed", "--toolchain", toolchain]);
        assert(strings_view(args@) =~= seq!["rustup"@, "component"@, "list"@, "--installed"@, "--toolchain"@, toolchain@]);
        CommandLine { args, perms: Perms::Same }
    }

    /// The toolchains that `rustup toolchain list` printed: the first word of each line.
    pub fn parse_toolchains(output: &str) -> (r: Vec<String>)
        ensures
            strings_view(r@) == spec_lines(output@).map_values(|l: Seq<char>| before_char(l, ' ')),
    {
        let ls = lines(output);
        let mut r: Vec<String> = Vec::new();
        let mut i: usize = 0;
        while i < ls.len()
            invariant
                i <= ls@.len(),
                r@.len() == i,
                ls@.map_values(|l: String| l@) == spec_lines(output@),
                strings_view(r@) == spec_lines(output@).subrange(0, i as int).map_values(|l: Seq<char>| before_char(l, ' ')),
            decreases ls@.len() - i,
        {
            assert(ls@.map_values(|l: String| l@)[i as int] == ls@[i as int]@);
            let ghost before = r@;
            r.push(before_char_owned(ls[i].as_str(), ' '));
            assert forall|j: int| 0 <= j < i + 1 implies strings_view(r@)[j]
                == spec_lines(output@).subrange(0, i + 1).map_values(|l: Seq<char>| before_char(l, ' '))[j] by {
                if j < i {
                    assert(strings_view(before)[j] == spec_lines(output@).subrange(0, i as int).map_values(|l: Seq<char>| before_char(l, ' '))[j]);
                    assert(r@[j] == before[j]);
                }
            }
            assert(strings_view(r@) =~= spec_lines(output@).subrange(0, i + 1).map_values(|l: Seq<char>| before_char(l, ' ')));
            i = i + 1;
        }
        assert(spec_lines(output@).subrange(0, spec_lines(output@).len() as int) == spec_lines(output@));
        r
    }

    /// The installed-package entry of a toolchain, with the components that
    /// `rustup component list --installed` printed for it.
    pub fn query_toolchain(toolchain: &String, components_output: &str) -> (r: (String, AnyQueryInfo))
        ensures
            r.0@ == toolchain@,
            r.1 matches AnyQueryInfo::Rustup(info) && strings_view(info.components@) == spec_lines(components_output@),
    {
        let ls = lines(components_output);
        assert(strings_view(ls@) =~= ls@.map_values(|l: String| l@));
        (toolchain.clone(), AnyQueryInfo::Rustup(RustupQueryInfo { components: ls }))
    }
}

} // verus!
