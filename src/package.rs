//! A package identifier that may be qualified by a repository (`repo/name`).
use vstd::prelude::*;
use vstd::string::*;
use crate::text::{split_once, split_once_spec, trim, trimmed};

verus! {

/// A package: its name and, optionally, the repository it comes from.
#[derive(Debug, Clone)]
pub struct Package {
    /// The name of the package.
    pub name: String,
    /// The repository the package belongs to, if one is named.
    pub repo: Option<String>,
}

/// The part of a line before its first `#`.
pub open spec fn before_comment(s: Seq<char>) -> Seq<char> {
    match split_once_spec(s, '#') {
        Some(parts) => parts.0,
        None => s,
    }
}

/// The name and the repository of a possibly qualified identifier: split at the
/// first `/`, repository first.
pub open spec fn spec_name_and_repo(s: Seq<char>) -> (Seq<char>, Option<Seq<char>>) {
    match split_once_spec(s, '/') {
        Some(parts) => (parts.1, Some(parts.0)),
        None => (s, None),
    }
}

/// How a package is written: `repo/name`, or `name` alone.
pub open spec fn spec_render(name: Seq<char>, repo: Option<Seq<char>>) -> Seq<char> {
    match repo {
        Some(r) => r + seq!['/'] + name,
        None => name,
    }
}

/// The package that a cleaned-up line denotes.
pub open spec fn package_of_trimmed(t: Seq<char>) -> Option<(Seq<char>, Option<Seq<char>>)> {
    if t.len() == 0 {
        None
    } else {
        Some(spec_name_and_repo(t))
    }
}

/// The text of a group-file line that denotes a package.
pub open spec fn line_content(s: Seq<char>) -> Seq<char> {
    trimmed(before_comment(s))
}

impl Package {
    /// The model of this package: its name and its repository.
    pub open spec fn spec_parts(&self) -> (Seq<char>, Option<Seq<char>>) {
        (self.name@, match self.repo {
            Some(r) => Some(r@),
            None => None,
        })
    }

    /// Splits a possibly qualified identifier into name and repository.
    pub fn split_into_name_and_repo(string: &str) -> (r: (String, Option<String>))
        ensures
            r.0@ == spec_name_and_repo(string@).0,
            match (r.1, spec_name_and_repo(string@).1) {
                (Some(got), Some(want)) => got@ == want,
                (None, None) => true,
                _ => false,
            },
    {
        match split_once(string, '/') {
            Some((before, after)) => (after, Some(before)),
            None => (string.to_owned(), None),
        }
    }

    /// The package that an already cleaned-up line denotes; `None` for an empty one.
    pub fn from_trimmed(trimmed: &str) -> (r: Option<Package>)
        ensures
            match (r, package_of_trimmed(trimmed@)) {
                (Some(p), Some(want)) => p.spec_parts() == want,
                (None, None) => true,
                _ => false,
            },
    {
        if trimmed.unicode_len() == 0 {
            return None;
        }
        let (name, repo) = Package::split_into_name_and_repo(trimmed);
        Some(Package { name, repo })
    }

    /// Parses a line of a group file: the comment is dropped and white space
    /// trimmed; `None` if nothing is left.
    pub fn try_from(s: &str) -> (r: Option<Package>)
        ensures
            match (r, package_of_trimmed(line_content(s@))) {
                (Some(p), Some(want)) => p.spec_parts() == want,
                (None, None) => true,
                _ => false,
            },
    {
        let trimmed = remove_comment_and_trim_whitespace(s);
        Package::from_trimmed(trimmed.as_str())
    }

    /// How the package is written: `repo/name`, or `name` alone.
    pub fn render(&self) -> (r: String)
        ensures
            r@ == spec_render(self.spec_parts().0, self.spec_parts().1),
    {
        match &self.repo {
            Some(repo) => {
                let mut out = repo.clone();
                out.append("/");
                out.append(self.name.as_str());
                proof { reveal_strlit("/"); }
                out
            },
            None => self.name.clone(),
        }
    }
}

/// The line without its comment, and trimmed of white space.
pub fn remove_comment_and_trim_whitespace(s: &str) -> (r: String)
    ensures
        r@ == line_content(s@),
{
    match split_once(s, '#') {
        Some((before, _)) => trim(before.as_str()),
        None => trim(s),
    }
}

/// Splitting an identifier into name and repository and writing the two out
/// again gives back the identifier.
pub proof fn law_render_round_trip(s: Seq<char>)
    ensures
        spec_render(spec_name_and_repo(s).0, spec_name_and_repo(s).1) == s,
{
    if exists|k: int| crate::text::is_first_at(s, '/', k) {
        let k = choose|k: int| crate::text::is_first_at(s, '/', k);
        assert(s.subrange(0, k) + seq!['/'] + s.subrange(k + 1, s.len() as int) =~= s);
    }
}

} // verus!
