//! Resolution of the dependency graph of a project.
//!
//! A project is resolved by loading its descriptor, resolving each dependency
//! that no project has brought in before, and then parsing its own entry
//! files; a dependency contributes its library entry only. A name is marked
//! as resolved before its project is entered, so a name is entered once,
//! however many projects declare it and whatever cycles they form.
//!
//! Loading descriptors, fetching repositories and parsing files is the
//! caller's part. The resolver is a step function: it is handed what the last
//! action brought and answers with the next action.
use crate::ast::{CompilationUnit, ModuleView};
use crate::driver::config::{dependency_views, Config, Dependency, DependencyView, ConfigView};
use crate::driver::{descriptor_of, descriptor_path, entry_files, lib_entry_of, main_entry_of};
use crate::parser::error::{Error, ErrorView};
use crate::paths::{join, joined_path};
use crate::text::{contains_name, opt_text, texts};
use vstd::prelude::*;
use vstd::string::*;

pub mod laws;

verus! {

/// Where the sources of a dependency are, or how they get there.
#[derive(Clone, Debug, PartialEq, Eq)]
pub enum Checkout {
    /// In a directory of this machine, as the descriptor says.
    Local(String),
    /// In the cache, from an earlier build.
    Cached(String),
    /// In the repository at `url`: to be fetched into `dir`, and to be set to
    /// the revision `rev` where one is pinned.
    Fetch { url: String, dir: String, rev: Option<String> },
}

/// The mathematical value of a [`Checkout`].
pub enum CheckoutView {
    Local(Seq<char>),
    Cached(Seq<char>),
    Fetch { url: Seq<char>, dir: Seq<char>, rev: Option<Seq<char>> },
}

impl View for Checkout {
    type V = CheckoutView;

    open spec fn view(&self) -> CheckoutView {
        match *self {
            Checkout::Local(dir) => CheckoutView::Local(dir@),
            Checkout::Cached(dir) => CheckoutView::Cached(dir@),
            Checkout::Fetch { url, dir, rev } => CheckoutView::Fetch {
                url: url@,
                dir: dir@,
                rev: opt_text(rev),
            },
        }
    }
}

/// Why a dependency graph cannot be resolved.
#[derive(Clone, Debug, PartialEq, Eq)]
pub enum ResolveError {
    /// The dependency `name` has neither a path nor a repository.
    NoSource { name: String },
    /// The resolver was handed an event that answers no action of its own.
    OutOfTurn,
}

/// The mathematical value of a [`ResolveError`].
pub enum ResolveErrorView {
    NoSource { name: Seq<char> },
    OutOfTurn,
}

impl View for ResolveError {
    type V = ResolveErrorView;

    open spec fn view(&self) -> ResolveErrorView {
        match *self {
            ResolveError::NoSource { name } => ResolveErrorView::NoSource { name: name@ },
            ResolveError::OutOfTurn => ResolveErrorView::OutOfTurn,
        }
    }
}

impl ResolveErrorView {
    pub open spec fn message(self) -> Seq<char> {
        match self {
            ResolveErrorView::NoSource { .. } => "No path or git specified for dependency."@,
            ResolveErrorView::OutOfTurn => "event out of turn"@,
        }
    }
}

impl ResolveError {
    /// The line shown to the user.
    pub fn message(&self) -> (line: String)
        ensures
            line@ == self@.message(),
    {
        match self {
            ResolveError::NoSource { .. } => String::from_str(
                "No path or git specified for dependency.",
            ),
            ResolveError::OutOfTurn => String::from_str("event out of turn"),
        }
    }
}

/// The directory that caches the dependency `name` of the project in `base`.
pub open spec fn cache_dir_of(base: Seq<char>, name: Seq<char>) -> Seq<char> {
    joined_path(joined_path(base, ".bricks"@), name)
}

/// Where the sources of the dependency `name` of the project in `base` are.
///
/// A path wins over a repository. A repository is cached under the name of
/// the dependency; what is in the cache is taken as it is, and only a
/// repository that is not there is fetched. A dependency with neither has no
/// sources.
pub open spec fn checkout_of(base: Seq<char>, name: Seq<char>, dep: DependencyView, cached: bool) -> Result<
    CheckoutView,
    ResolveErrorView,
> {
    match dep.path {
        Some(path) => Ok(CheckoutView::Local(path)),
        None => match dep.git {
            Some(url) => if cached {
                Ok(CheckoutView::Cached(cache_dir_of(base, name)))
            } else {
                Ok(CheckoutView::Fetch { url, dir: cache_dir_of(base, name), rev: dep.rev })
            },
            None => Err(ResolveErrorView::NoSource { name }),
        },
    }
}

/// The mathematical value of what a checkout came to.
pub open spec fn checkout_view(found: Result<Checkout, ResolveError>) -> Result<
    CheckoutView,
    ResolveErrorView,
> {
    match found {
        Ok(checkout) => Ok(checkout@),
        Err(e) => Err(e@),
    }
}

fn copy_text(text: &Option<String>) -> (copy: Option<String>)
    ensures
        opt_text(copy) == opt_text(*text),
{
    match text {
        Some(text) => Some(text.clone()),
        None => None,
    }
}

/// The directory that caches the dependency `name` of the project in `base`.
pub fn cache_dir(base: &str, name: &str) -> (dir: String)
    ensures
        dir@ == cache_dir_of(base@, name@),
{
    let bricks = join(base, ".bricks");
    join(bricks.as_str(), name)
}

/// Where the sources of the dependency `name` of the project in `base_dir`
/// are, given whether its cache directory exists.
pub fn checkout_dependency(base_dir: &str, name: &str, dep: &Dependency, cached: bool) -> (found:
    Result<Checkout, ResolveError>)
    ensures
        checkout_view(found) == checkout_of(base_dir@, name@, dep@, cached),
{
    match &dep.path {
        Some(path) => Ok(Checkout::Local(path.clone())),
        None => match &dep.git {
            Some(url) => {
                let dir = cache_dir(base_dir, name);
                if cached {
                    Ok(Checkout::Cached(dir))
                } else {
                    Ok(Checkout::Fetch { url: url.clone(), dir, rev: copy_text(&dep.rev) })
                }
            },
            None => Err(ResolveError::NoSource { name: name.to_owned() }),
        },
    }
}

/// A project that is being resolved: where it is, whether it is resolved as
/// a dependency, what its descriptor says, and the first of its dependencies
/// that has not been looked at.
#[derive(Clone, Debug, PartialEq, Eq)]
pub struct Project {
    pub dir: String,
    pub is_dep: bool,
    pub package: String,
    pub version: String,
    pub dependencies: Vec<(String, Dependency)>,
    pub next: usize,
}

/// The mathematical value of a [`Project`].
pub struct ProjectView {
    pub dir: Seq<char>,
    pub is_dep: bool,
    pub package: Seq<char>,
    pub version: Seq<char>,
    pub dependencies: Seq<(Seq<char>, DependencyView)>,
    pub next: nat,
}

impl View for Project {
    type V = ProjectView;

    open spec fn view(&self) -> ProjectView {
        ProjectView {
            dir: self.dir@,
            is_dep: self.is_dep,
            package: self.package@,
            version: self.version@,
            dependencies: dependency_views(self.dependencies@),
            next: self.next as nat,
        }
    }
}

/// What the resolver waits for.
#[derive(Clone, Copy, Debug, PartialEq, Eq, Structural)]
pub enum Phase {
    /// The descriptor of the project on top.
    Descriptor,
    /// Whether the cache holds the next dependency of the project on top.
    Cache,
    /// The end of the fetch of that dependency.
    Fetch,
    /// Which entry files the project on top has.
    Entries,
    /// The parsed form of an entry file of the project on top; the library
    /// entry is still to come if `lib_follows`.
    Unit { lib_follows: bool },
    /// Nothing: the graph is resolved, or resolving it has failed.
    Finished,
}

/// The state of a resolution: the names that are resolved, in the order in
/// which they were entered; the projects under way, each below the
/// dependency it waits for; and the units parsed so far.
#[derive(Debug, PartialEq, Eq)]
pub struct Resolver<T> {
    pub resolved: Vec<String>,
    pub stack: Vec<Project>,
    pub units: Vec<CompilationUnit<T>>,
    pub phase: Phase,
}

/// The mathematical value of a [`Resolver`].
pub struct ResolverView<T> {
    pub resolved: Seq<Seq<char>>,
    pub stack: Seq<ProjectView>,
    pub units: Seq<Seq<ModuleView<T>>>,
    pub phase: Phase,
}

/// The mathematical values of projects, in order.
pub open spec fn project_views(projects: Seq<Project>) -> Seq<ProjectView> {
    Seq::new(projects.len(), |i: int| projects[i]@)
}

/// The mathematical values of units, in order.
pub open spec fn unit_views<T>(units: Seq<CompilationUnit<T>>) -> Seq<Seq<ModuleView<T>>> {
    Seq::new(units.len(), |i: int| units[i]@)
}

impl<T> View for Resolver<T> {
    type V = ResolverView<T>;

    open spec fn view(&self) -> ResolverView<T> {
        ResolverView {
            resolved: texts(self.resolved@),
            stack: project_views(self.stack@),
            units: unit_views(self.units@),
            phase: self.phase,
        }
    }
}

/// What the caller did for the resolver.
#[derive(Debug, PartialEq, Eq)]
pub enum ResolveEvent<T> {
    /// The descriptor was loaded.
    Descriptor(Config),
    /// The cache directory was looked at: it exists, or it does not.
    Cache(bool),
    /// The repository was fetched.
    Fetched,
    /// The entry files were looked at: each exists, or it does not.
    Entries { main: bool, lib: bool },
    /// The tree of the file was built.
    Parsed(CompilationUnit<T>),
    /// The tree of the file needs `file`, which does not parse.
    Rejected { file: String, failure: Error },
}

/// The mathematical value of a [`ResolveEvent`].
pub enum ResolveEventView<T> {
    Descriptor(ConfigView),
    Cache(bool),
    Fetched,
    Entries { main: bool, lib: bool },
    Parsed(Seq<ModuleView<T>>),
    Rejected { file: Seq<char>, failure: ErrorView },
}

impl<T> View for ResolveEvent<T> {
    type V = ResolveEventView<T>;

    open spec fn view(&self) -> ResolveEventView<T> {
        match *self {
            ResolveEvent::Descriptor(config) => ResolveEventView::Descriptor(config@),
            ResolveEvent::Cache(cached) => ResolveEventView::Cache(cached),
            ResolveEvent::Fetched => ResolveEventView::Fetched,
            ResolveEvent::Entries { main, lib } => ResolveEventView::Entries { main, lib },
            ResolveEvent::Parsed(unit) => ResolveEventView::Parsed(unit@),
            ResolveEvent::Rejected { file, failure } => ResolveEventView::Rejected {
                file: file@,
                failure: failure@,
            },
        }
    }
}

/// What the caller is to do next.
#[derive(Debug, PartialEq, Eq)]
pub enum ResolveAction<T> {
    /// Load the descriptor at this path, and hand it back.
    Load { descriptor: String },
    /// Say whether the cache directory `dir` exists.
    ProbeCache { dir: String },
    /// Fetch the repository at `url` into `dir`, set it to `rev` where one is
    /// pinned, and say when it is done. A failure is of the dependency `name`.
    Fetch { name: String, url: String, dir: String, rev: Option<String> },
    /// Say which entry files of the package in `dir` exist; its dependencies
    /// are resolved, and its own files are next.
    Entries { package: String, version: String, dir: String, main: String, lib: String },
    /// Build the tree of `file`, and hand it back.
    Parse { file: String },
    /// Nothing more: these are the units, dependencies first.
    Done(Vec<CompilationUnit<T>>),
    /// Nothing more: `file` does not parse, and this is the failure to
    /// report.
    Reject { file: String, failure: Error },
    /// Nothing more: the graph cannot be resolved.
    Fail(ResolveError),
}

/// The mathematical value of a [`ResolveAction`].
pub enum ResolveActionView<T> {
    Load { descriptor: Seq<char> },
    ProbeCache { dir: Seq<char> },
    Fetch { name: Seq<char>, url: Seq<char>, dir: Seq<char>, rev: Option<Seq<char>> },
    Entries { package: Seq<char>, version: Seq<char>, dir: Seq<char>, main: Seq<char>, lib: Seq<char> },
    Parse { file: Seq<char> },
    Done(Seq<Seq<ModuleView<T>>>),
    Reject { file: Seq<char>, failure: ErrorView },
    Fail(ResolveErrorView),
}

impl<T> View for ResolveAction<T> {
    type V = ResolveActionView<T>;

    open spec fn view(&self) -> ResolveActionView<T> {
        match *self {
            ResolveAction::Load { descriptor } => ResolveActionView::Load { descriptor: descriptor@ },
            ResolveAction::ProbeCache { dir } => ResolveActionView::ProbeCache { dir: dir@ },
            ResolveAction::Fetch { name, url, dir, rev } => ResolveActionView::Fetch {
                name: name@,
                url: url@,
                dir: dir@,
                rev: opt_text(rev),
            },
            ResolveAction::Entries { package, version, dir, main, lib } => ResolveActionView::Entries {
                package: package@,
                version: version@,
                dir: dir@,
                main: main@,
                lib: lib@,
            },
            ResolveAction::Parse { file } => ResolveActionView::Parse { file: file@ },
            ResolveAction::Done(units) => ResolveActionView::Done(unit_views(units@)),
            ResolveAction::Reject { file, failure } => ResolveActionView::Reject {
                file: file@,
                failure: failure@,
            },
            ResolveAction::Fail(e) => ResolveActionView::Fail(e@),
        }
    }
}

/// The index of the first dependency at or behind `from` whose name is not
/// resolved, or the number of dependencies where every such name is.
pub open spec fn unresolved_from(
    dependencies: Seq<(Seq<char>, DependencyView)>,
    resolved: Seq<Seq<char>>,
    from: nat,
) -> nat
    decreases dependencies.len() - from,
{
    if from >= dependencies.len() {
        dependencies.len()
    } else if !resolved.contains(dependencies[from as int].0) {
        from
    } else {
        unresolved_from(dependencies, resolved, from + 1)
    }
}

/// A project that has just been entered: nothing is known of it but where it
/// is.
pub open spec fn entered(dir: Seq<char>, is_dep: bool) -> ProjectView {
    ProjectView {
        dir,
        is_dep,
        package: Seq::empty(),
        version: Seq::empty(),
        dependencies: Seq::empty(),
        next: 0,
    }
}

/// The resolver that waits for nothing. It keeps the names it has resolved.
pub open spec fn stopped<T>(pre: ResolverView<T>) -> ResolverView<T> {
    ResolverView {
        resolved: pre.resolved,
        stack: Seq::empty(),
        units: Seq::empty(),
        phase: Phase::Finished,
    }
}

/// Enters the project in `dir` as a dependency: its descriptor is loaded.
pub open spec fn descended<T>(pre: ResolverView<T>, dir: Seq<char>) -> (
    ResolverView<T>,
    ResolveActionView<T>,
) {
    (
        ResolverView {
            resolved: pre.resolved,
            stack: pre.stack.push(entered(dir, true)),
            units: pre.units,
            phase: Phase::Descriptor,
        },
        ResolveActionView::Load { descriptor: descriptor_of(dir) },
    )
}

/// Goes on with the dependencies of the project on top.
///
/// Dependencies whose names are resolved are passed over. The first that is
/// not is marked as resolved and entered: at its path, or, for a repository,
/// once the cache has been looked at. A dependency without sources fails the
/// resolution. Where no dependency is left, the entry files of the project
/// are next.
pub open spec fn advanced<T>(pre: ResolverView<T>) -> (ResolverView<T>, ResolveActionView<T>) {
    if pre.stack.len() == 0 {
        (stopped(pre), ResolveActionView::Fail(ResolveErrorView::OutOfTurn))
    } else {
        let top = pre.stack.last();
        let at = unresolved_from(top.dependencies, pre.resolved, top.next);
        let stack = pre.stack.update(pre.stack.len() - 1, ProjectView { next: at, ..top });
        if at >= top.dependencies.len() {
            (
                ResolverView { resolved: pre.resolved, stack, units: pre.units, phase: Phase::Entries },
                ResolveActionView::Entries {
                    package: top.package,
                    version: top.version,
                    dir: top.dir,
                    main: main_entry_of(top.dir),
                    lib: lib_entry_of(top.dir),
                },
            )
        } else {
            let name = top.dependencies[at as int].0;
            let dep = top.dependencies[at as int].1;
            let marked = ResolverView {
                resolved: pre.resolved.push(name),
                stack,
                units: pre.units,
                phase: Phase::Cache,
            };
            match dep.path {
                Some(path) => descended(marked, path),
                None => if dep.git is Some {
                    (marked, ResolveActionView::ProbeCache { dir: cache_dir_of(top.dir, name) })
                } else {
                    (stopped(pre), ResolveActionView::Fail(ResolveErrorView::NoSource { name }))
                },
            }
        }
    }
}

/// Leaves the project on top: the resolution is done where it was the root,
/// and else the project below goes on with its dependencies.
pub open spec fn closed<T>(pre: ResolverView<T>) -> (ResolverView<T>, ResolveActionView<T>) {
    if pre.stack.len() <= 1 {
        (stopped(pre), ResolveActionView::Done(pre.units))
    } else {
        advanced(
            ResolverView {
                resolved: pre.resolved,
                stack: pre.stack.drop_last(),
                units: pre.units,
                phase: pre.phase,
            },
        )
    }
}

/// The first step of resolving the project in `dir`, with the names in
/// `resolved` taken as resolved already: its descriptor is loaded.
pub open spec fn started<T>(dir: Seq<char>, is_dep: bool, resolved: Seq<Seq<char>>) -> (
    ResolverView<T>,
    ResolveActionView<T>,
) {
    (
        ResolverView {
            resolved,
            stack: seq![entered(dir, is_dep)],
            units: Seq::empty(),
            phase: Phase::Descriptor,
        },
        ResolveActionView::Load { descriptor: descriptor_of(dir) },
    )
}

/// One step of the resolver: the state and the action that follow on
/// `event`.
///
/// A descriptor gives the project on top its dependencies, and the resolver
/// goes on with them. A cache that holds the dependency, and a fetch that is
/// done, are followed by entering the dependency; a cache that does not hold
/// it, by the fetch. Of the entry files that exist, the binary entry is
/// parsed first, and only for the root; the library entry follows. Each
/// parsed unit is added to the units. A project without entry files left is
/// closed. A file that does not parse ends the resolution with the failure
/// to report. An event that answers no action fails the resolution.
pub open spec fn stepped<T>(pre: ResolverView<T>, event: ResolveEventView<T>) -> (
    ResolverView<T>,
    ResolveActionView<T>,
) {
    if pre.stack.len() == 0 {
        (stopped(pre), ResolveActionView::Fail(ResolveErrorView::OutOfTurn))
    } else {
        let top = pre.stack.last();
        match (pre.phase, event) {
            (Phase::Descriptor, ResolveEventView::Descriptor(config)) => advanced(
                ResolverView {
                    resolved: pre.resolved,
                    stack: pre.stack.update(
                        pre.stack.len() - 1,
                        ProjectView {
                            dir: top.dir,
                            is_dep: top.is_dep,
                            package: config.package.name,
                            version: config.package.version,
                            dependencies: config.dependencies,
                            next: 0,
                        },
                    ),
                    units: pre.units,
                    phase: pre.phase,
                },
            ),
            (Phase::Cache, ResolveEventView::Cache(cached)) => if top.next < top.dependencies.len() {
                let name = top.dependencies[top.next as int].0;
                match checkout_of(top.dir, name, top.dependencies[top.next as int].1, cached) {
                    Ok(CheckoutView::Local(dir)) => descended(pre, dir),
                    Ok(CheckoutView::Cached(dir)) => descended(pre, dir),
                    Ok(CheckoutView::Fetch { url, dir, rev }) => (
                        ResolverView {
                            resolved: pre.resolved,
                            stack: pre.stack,
                            units: pre.units,
                            phase: Phase::Fetch,
                        },
                        ResolveActionView::Fetch { name, url, dir, rev },
                    ),
                    Err(e) => (stopped(pre), ResolveActionView::Fail(e)),
                }
            } else {
                (stopped(pre), ResolveActionView::Fail(ResolveErrorView::OutOfTurn))
            },
            (Phase::Fetch, ResolveEventView::Fetched) => if top.next < top.dependencies.len() {
                descended(pre, cache_dir_of(top.dir, top.dependencies[top.next as int].0))
            } else {
                (stopped(pre), ResolveActionView::Fail(ResolveErrorView::OutOfTurn))
            },
            (Phase::Entries, ResolveEventView::Entries { main, lib }) => if main && !top.is_dep {
                (
                    ResolverView {
                        resolved: pre.resolved,
                        stack: pre.stack,
                        units: pre.units,
                        phase: Phase::Unit { lib_follows: lib },
                    },
                    ResolveActionView::Parse { file: main_entry_of(top.dir) },
                )
            } else if lib {
                (
                    ResolverView {
                        resolved: pre.resolved,
                        stack: pre.stack,
                        units: pre.units,
                        phase: Phase::Unit { lib_follows: false },
                    },
                    ResolveActionView::Parse { file: lib_entry_of(top.dir) },
                )
            } else {
                closed(pre)
            },
            (Phase::Unit { lib_follows }, ResolveEventView::Parsed(unit)) => if lib_follows {
                (
                    ResolverView {
                        resolved: pre.resolved,
                        stack: pre.stack,
                        units: pre.units.push(unit),
                        phase: Phase::Unit { lib_follows: false },
                    },
                    ResolveActionView::Parse { file: lib_entry_of(top.dir) },
                )
            } else {
                closed(
                    ResolverView {
                        resolved: pre.resolved,
                        stack: pre.stack,
                        units: pre.units.push(unit),
                        phase: pre.phase,
                    },
                )
            },
            (Phase::Unit { lib_follows }, ResolveEventView::Rejected { file, failure }) => (
                stopped(pre),
                ResolveActionView::Reject { file, failure },
            ),
            _ => (stopped(pre), ResolveActionView::Fail(ResolveErrorView::OutOfTurn)),
        }
    }
}

fn stop<T>(resolved: Vec<String>, error: ResolveError) -> (next: (Resolver<T>, ResolveAction<T>))
    ensures
        next.0@ == (ResolverView::<T> {
            resolved: texts(resolved@),
            stack: Seq::empty(),
            units: Seq::empty(),
            phase: Phase::Finished,
        }),
        next.1@ == ResolveActionView::<T>::Fail(error@),
{
    let state = Resolver { resolved, stack: Vec::new(), units: Vec::new(), phase: Phase::Finished };
    assert(state@.stack =~= Seq::empty());
    assert(state@.units =~= Seq::empty());
    (state, ResolveAction::Fail(error))
}

fn enter(dir: String, is_dep: bool) -> (project: Project)
    ensures
        project@ == entered(dir@, is_dep),
{
    let project = Project {
        dir,
        is_dep,
        package: String::new(),
        version: String::new(),
        dependencies: Vec::new(),
        next: 0,
    };
    assert(project@.dependencies =~= Seq::empty());
    project
}

fn descend<T>(state: Resolver<T>, dir: String) -> (next: (Resolver<T>, ResolveAction<T>))
    ensures
        (next.0@, next.1@) == descended(state@, dir@),
{
    let mut state = state;
    let ghost before = state@;
    let descriptor = descriptor_path(dir.as_str());
    let project = enter(dir, true);
    state.stack.push(project);
    state.phase = Phase::Descriptor;
    assert(state@.stack =~= before.stack.push(project@));
    (state, ResolveAction::Load { descriptor })
}

proof fn lemma_unresolved_skip(
    dependencies: Seq<(Seq<char>, DependencyView)>,
    resolved: Seq<Seq<char>>,
    from: nat,
    to: nat,
)
    requires
        from <= to <= dependencies.len(),
        forall|k: int| from <= k < to ==> resolved.contains(dependencies[k].0),
    ensures
        unresolved_from(dependencies, resolved, from) == unresolved_from(dependencies, resolved, to),
    decreases to - from,
{
    if from < to {
        lemma_unresolved_skip(dependencies, resolved, from + 1, to);
    }
}

fn advance<T>(state: Resolver<T>) -> (next: (Resolver<T>, ResolveAction<T>))
    ensures
        (next.0@, next.1@) == advanced(state@),
{
    let mut state = state;
    let ghost before = state@;
    if state.stack.len() == 0 {
        return stop(state.resolved, ResolveError::OutOfTurn);
    }
    let mut top = state.stack.pop().unwrap();
    let ghost first = top@;
    assert(first == before.stack.last());
    let count = top.dependencies.len();
    let mut at = if top.next < count {
        top.next
    } else {
        count
    };
    let mut open = false;
    while at < count && !open
        invariant
            at <= count,
            count == top.dependencies@.len(),
            top@ == first,
            texts(state.resolved@) == before.resolved,
            first.next <= at || first.next >= count,
            first.next >= count ==> at == count,
            forall|k: int| first.next <= k < at ==> before.resolved.contains(first.dependencies[k].0),
            open ==> at < count && !before.resolved.contains(first.dependencies[at as int].0),
        decreases count - at, (if open { 0int } else { 1int }),
    {
        assert(first.dependencies[at as int].0 == top.dependencies@[at as int].0@);
        if contains_name(&state.resolved, top.dependencies[at].0.as_str()) {
            at += 1;
        } else {
            open = true;
        }
    }
    proof {
        if first.next < count {
            lemma_unresolved_skip(first.dependencies, before.resolved, first.next, at as nat);
        }
        assert(first.dependencies.len() == count);
        assert(unresolved_from(first.dependencies, before.resolved, first.next) == at);
    }
    top.next = at;
    let ghost here = ProjectView { next: at as nat, ..first };
    assert(top@ == here);
    let ghost stack = before.stack.update(before.stack.len() - 1, here);
    if at >= count {
        let (main, lib) = entry_files(top.dir.as_str());
        let action = ResolveAction::Entries {
            package: top.package.clone(),
            version: top.version.clone(),
            dir: top.dir.clone(),
            main,
            lib,
        };
        state.stack.push(top);
        state.phase = Phase::Entries;
        assert(state@.stack =~= stack);
        return (state, action);
    }
    let name = top.dependencies[at].0.clone();
    let path = copy_text(&top.dependencies[at].1.path);
    let has_git = top.dependencies[at].1.git.is_some();
    let cache = cache_dir(top.dir.as_str(), name.as_str());
    assert(first.dependencies[at as int] == (
        top.dependencies@[at as int].0@,
        top.dependencies@[at as int].1@,
    ));
    state.stack.push(top);
    assert(state@.stack =~= stack);
    match path {
        Some(path) => {
            state.resolved.push(name);
            assert(state@.resolved =~= before.resolved.push(name@));
            descend(state, path)
        },
        None => {
            if has_git {
                state.resolved.push(name);
                state.phase = Phase::Cache;
                assert(state@.resolved =~= before.resolved.push(name@));
                (state, ResolveAction::ProbeCache { dir: cache })
            } else {
                stop(state.resolved, ResolveError::NoSource { name })
            }
        },
    }
}

fn close<T>(state: Resolver<T>) -> (next: (Resolver<T>, ResolveAction<T>))
    ensures
        (next.0@, next.1@) == closed(state@),
{
    let mut state = state;
    let ghost before = state@;
    if state.stack.len() <= 1 {
        let done = Resolver {
            resolved: state.resolved,
            stack: Vec::new(),
            units: Vec::new(),
            phase: Phase::Finished,
        };
        assert(done@.stack =~= Seq::empty());
        assert(done@.units =~= Seq::empty());
        (done, ResolveAction::Done(state.units))
    } else {
        let _ = state.stack.pop();
        assert(state@.stack =~= before.stack.drop_last());
        advance(state)
    }
}

/// Begins to resolve the project in `project_dir`, as a dependency if
/// `is_dep` says so, with the names in `added_deps` taken as resolved
/// already: the first action is to load its descriptor.
pub fn compile_project<T>(project_dir: &str, is_dep: bool, added_deps: Vec<String>) -> (next: (
    Resolver<T>,
    ResolveAction<T>,
))
    ensures
        (next.0@, next.1@) == started::<T>(project_dir@, is_dep, texts(added_deps@)),
{
    let descriptor = descriptor_path(project_dir);
    let project = enter(project_dir.to_owned(), is_dep);
    let mut stack: Vec<Project> = Vec::new();
    stack.push(project);
    let state = Resolver { resolved: added_deps, stack, units: Vec::new(), phase: Phase::Descriptor };
    assert(state@.stack =~= seq![entered(project_dir@, is_dep)]);
    assert(state@.units =~= Seq::empty());
    (state, ResolveAction::Load { descriptor })
}

impl<T> Resolver<T> {
    /// Takes what the last action brought and says what to do next.
    pub fn step(self, event: ResolveEvent<T>) -> (next: (Resolver<T>, ResolveAction<T>))
        ensures
            (next.0@, next.1@) == stepped(self@, event@),
    {
        let mut state = self;
        let ghost before = state@;
        let n = state.stack.len();
        if n == 0 {
            return stop(state.resolved, ResolveError::OutOfTurn);
        }
        assert(before.stack.last() == state.stack@[n - 1]@);
        match (state.phase, event) {
            (Phase::Descriptor, ResolveEvent::Descriptor(config)) => {
                let top = state.stack.pop().unwrap();
                let loaded = Project {
                    dir: top.dir,
                    is_dep: top.is_dep,
                    package: config.package.name,
                    version: config.package.version,
                    dependencies: config.dependencies,
                    next: 0,
                };
                state.stack.push(loaded);
                assert(state@.stack =~= before.stack.update(n - 1, loaded@));
                advance(state)
            },
            (Phase::Cache, ResolveEvent::Cache(cached)) => {
                let top = &state.stack[n - 1];
                if top.next < top.dependencies.len() {
                    let entry = &top.dependencies[top.next];
                    assert(top@.dependencies[top.next as int] == (entry.0@, entry.1@));
                    match checkout_dependency(top.dir.as_str(), entry.0.as_str(), &entry.1, cached) {
                        Ok(Checkout::Local(dir)) => descend(state, dir),
                        Ok(Checkout::Cached(dir)) => descend(state, dir),
                        Ok(Checkout::Fetch { url, dir, rev }) => {
                            let name = entry.0.clone();
                            state.phase = Phase::Fetch;
                            (state, ResolveAction::Fetch { name, url, dir, rev })
                        },
                        Err(error) => stop(state.resolved, error),
                    }
                } else {
                    stop(state.resolved, ResolveError::OutOfTurn)
                }
            },
            (Phase::Fetch, ResolveEvent::Fetched) => {
                let top = &state.stack[n - 1];
                if top.next < top.dependencies.len() {
                    let entry = &top.dependencies[top.next];
                    assert(top@.dependencies[top.next as int] == (entry.0@, entry.1@));
                    let dir = cache_dir(top.dir.as_str(), entry.0.as_str());
                    descend(state, dir)
                } else {
                    stop(state.resolved, ResolveError::OutOfTurn)
                }
            },
            (Phase::Entries, ResolveEvent::Entries { main, lib }) => {
                let top = &state.stack[n - 1];
                let (main_file, lib_file) = entry_files(top.dir.as_str());
                if main && !top.is_dep {
                    state.phase = Phase::Unit { lib_follows: lib };
                    (state, ResolveAction::Parse { file: main_file })
                } else if lib {
                    state.phase = Phase::Unit { lib_follows: false };
                    (state, ResolveAction::Parse { file: lib_file })
                } else {
                    close(state)
                }
            },
            (Phase::Unit { lib_follows }, ResolveEvent::Parsed(unit)) => {
                let top = &state.stack[n - 1];
                let (_, lib_file) = entry_files(top.dir.as_str());
                state.units.push(unit);
                assert(state@.units =~= before.units.push(unit@));
                if lib_follows {
                    state.phase = Phase::Unit { lib_follows: false };
                    (state, ResolveAction::Parse { file: lib_file })
                } else {
                    close(state)
                }
            },
            (Phase::Unit { lib_follows }, ResolveEvent::Rejected { file, failure }) => {
                let ended = Resolver {
                    resolved: state.resolved,
                    stack: Vec::new(),
                    units: Vec::new(),
                    phase: Phase::Finished,
                };
                assert(ended@.stack =~= Seq::empty());
                assert(ended@.units =~= Seq::empty());
                (ended, ResolveAction::Reject { file, failure })
            },
            _ => stop(state.resolved, ResolveError::OutOfTurn),
        }
    }
}

} // verus!
