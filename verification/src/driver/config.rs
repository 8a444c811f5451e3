//! The build descriptor of a project: the package, its profiles and its
//! dependencies, as read from `Concrete.toml`.
use crate::text::{lemma_position, opt_text, position};
use vstd::prelude::*;

verus! {

/// What the descriptor says of the package itself.
#[derive(Clone, Debug, PartialEq, Eq)]
pub struct Package {
    pub name: String,
    pub version: String,
    pub license: String,
}

/// A named bundle of code generation settings.
#[derive(Clone, Copy, Debug, PartialEq, Eq, Structural)]
pub struct Profile {
    pub release: bool,
    pub opt_level: u8,
    pub debug_info: bool,
}

/// Where the sources of a dependency come from: a directory on this machine,
/// or a repository, at a pinned revision or at its head.
#[derive(Clone, Debug, PartialEq, Eq)]
pub struct Dependency {
    pub path: Option<String>,
    pub git: Option<String>,
    pub rev: Option<String>,
}

/// The mathematical value of a [`Dependency`].
pub struct DependencyView {
    pub path: Option<Seq<char>>,
    pub git: Option<Seq<char>>,
    pub rev: Option<Seq<char>>,
}

impl View for Dependency {
    type V = DependencyView;

    open spec fn view(&self) -> DependencyView {
        DependencyView { path: opt_text(self.path), git: opt_text(self.git), rev: opt_text(self.rev) }
    }
}

/// A build descriptor. Profiles and dependencies are tables from a name to an
/// entry, kept in the order in which they are to be walked; a name that is
/// listed twice is found at its first entry.
#[derive(Clone, Debug, PartialEq, Eq)]
pub struct Config {
    pub package: Package,
    pub profile: Vec<(String, Profile)>,
    pub dependencies: Vec<(String, Dependency)>,
}

/// The mathematical value of a [`Package`].
pub struct PackageView {
    pub name: Seq<char>,
    pub version: Seq<char>,
    pub license: Seq<char>,
}

impl View for Package {
    type V = PackageView;

    open spec fn view(&self) -> PackageView {
        PackageView { name: self.name@, version: self.version@, license: self.license@ }
    }
}

/// The mathematical value of a [`Config`]: its tables as sequences of names and
/// entries.
pub struct ConfigView {
    pub package: PackageView,
    pub profile: Seq<(Seq<char>, Profile)>,
    pub dependencies: Seq<(Seq<char>, DependencyView)>,
}

/// The dependencies of a table, each with its name, in the order of its
/// entries.
pub open spec fn dependency_views(table: Seq<(String, Dependency)>) -> Seq<
    (Seq<char>, DependencyView),
> {
    Seq::new(table.len(), |i: int| (table[i].0@, table[i].1@))
}

impl View for Config {
    type V = ConfigView;

    open spec fn view(&self) -> ConfigView {
        ConfigView {
            package: self.package@,
            profile: Seq::new(self.profile@.len(), |i: int| (self.profile@[i].0@, self.profile@[i].1)),
            dependencies: dependency_views(self.dependencies@),
        }
    }
}

/// The names of a table, in the order of its entries.
pub open spec fn names_of<E>(table: Seq<(String, E)>) -> Seq<Seq<char>> {
    Seq::new(table.len(), |i: int| table[i].0@)
}

/// The profile that `table` holds under `name`, if any.
pub open spec fn profile_of(table: Seq<(String, Profile)>, name: Seq<char>) -> Option<Profile> {
    let at = position(names_of(table), name);
    if at < table.len() {
        Some(table[at].1)
    } else {
        None
    }
}

impl Config {
    /// The profile listed under `name`, if any.
    pub fn profile_named(&self, name: &str) -> (found: Option<Profile>)
        ensures
            found == profile_of(self.profile@, name@),
    {
        let ghost names = names_of(self.profile@);
        proof {
            lemma_position(names, name@);
        }
        let mut i: usize = 0;
        while i < self.profile.len()
            invariant
                i <= self.profile.len(),
                names == names_of(self.profile@),
                forall|j: int| 0 <= j < i ==> names[j] != name@,
                0 <= position(names, name@) <= names.len(),
                position(names, name@) < names.len() ==> names[position(names, name@)] == name@,
                forall|j: int| 0 <= j < position(names, name@) ==> names[j] != name@,
            decreases self.profile.len() - i,
        {
            if crate::text::str_eq(self.profile[i].0.as_str(), name) {
                assert(names[i as int] == name@);
                return Some(self.profile[i].1);
            }
            i += 1;
        }
        None
    }
}

} // verus!
