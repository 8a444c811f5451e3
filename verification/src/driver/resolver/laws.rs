//! What holds of every resolution: no dependency is entered or fetched
//! twice, every resolution ends, and the resolver that is handed what is on
//! disk ends with the units of the project and of all it depends on.
use crate::ast::ModuleView;
use crate::driver::config::{ConfigView, DependencyView};
use crate::driver::resolver::{
    Phase,
    ProjectView,
    ResolveActionView,
    ResolveErrorView,
    ResolveEventView,
    ResolverView,
    advanced,
    cache_dir_of,
    closed,
    descended,
    entered,
    started,
    stepped,
    unresolved_from,
};
use crate::driver::{descriptor_of, lib_entry_of, main_entry_of};
use vstd::prelude::*;

verus! {

/// What `unresolved_from` finds: an index at or behind `from`, with none but
/// resolved names between the two, that holds a name which is not resolved
/// unless it is past the last dependency.
pub proof fn lemma_unresolved_from(
    dependencies: Seq<(Seq<char>, DependencyView)>,
    resolved: Seq<Seq<char>>,
    from: nat,
)
    ensures
        unresolved_from(dependencies, resolved, from) <= dependencies.len(),
        from <= dependencies.len() ==> from <= unresolved_from(dependencies, resolved, from),
        unresolved_from(dependencies, resolved, from) < dependencies.len() ==> !resolved.contains(
            dependencies[unresolved_from(dependencies, resolved, from) as int].0,
        ),
        forall|k: int|
            from <= k < unresolved_from(dependencies, resolved, from) ==> resolved.contains(
                #[trigger] dependencies[k].0,
            ),
    decreases dependencies.len() - from,
{
    if from < dependencies.len() && resolved.contains(dependencies[from as int].0) {
        lemma_unresolved_from(dependencies, resolved, from + 1);
    }
}

impl<T> ResolverView<T> {
    /// One while a dependency is marked as resolved and its project is not
    /// entered yet, else none.
    pub open spec fn pending(self) -> nat {
        if self.phase == Phase::Cache || self.phase == Phase::Fetch {
            1
        } else {
            0
        }
    }

    /// No name is resolved twice, and every project under way but the first
    /// was entered for a name of its own.
    pub open spec fn well_formed(self) -> bool {
        &&& self.resolved.no_duplicates()
        &&& self.stack.len() + self.pending() <= self.resolved.len() + 1
    }
}

/// The state after the steps on `events`, one after the other.
pub open spec fn run<T>(start: ResolverView<T>, events: Seq<ResolveEventView<T>>) -> ResolverView<T>
    decreases events.len(),
{
    if events.len() == 0 {
        start
    } else {
        stepped(run(start, events.drop_last()), events.last()).0
    }
}

proof fn lemma_push_fresh(names: Seq<Seq<char>>, name: Seq<char>)
    requires
        names.no_duplicates(),
        !names.contains(name),
    ensures
        names.push(name).no_duplicates(),
{
    assert forall|i: int, j: int|
        0 <= i < names.push(name).len() && 0 <= j < names.push(name).len() && i != j implies names.push(
        name,
    )[i] != names.push(name)[j] by {
        if i < names.len() && j < names.len() {
        } else if i < names.len() {
            assert(names.contains(names[i]));
        } else {
            assert(names.contains(names[j]));
        }
    }
}

/// Going on with the dependencies of the project on top marks at most one
/// name, and only one that was not resolved: the name of the dependency that
/// is entered or whose cache is looked at. Where every dependency that is
/// left is resolved already, none is entered and no name is marked: the entry
/// files of the project are next.
pub proof fn lemma_advanced<T>(pre: ResolverView<T>)
    requires
        pre.stack.len() > 0,
    ensures
        ({
            let top = pre.stack.last();
            let at = unresolved_from(top.dependencies, pre.resolved, top.next);
            let next = advanced(pre);
            if at < top.dependencies.len() {
                let name = top.dependencies[at as int].0;
                let dep = top.dependencies[at as int].1;
                &&& !pre.resolved.contains(name)
                &&& if dep.path is Some || dep.git is Some {
                    &&& next.0.resolved == pre.resolved.push(name)
                    &&& next.1 is Load || next.1 is ProbeCache
                } else {
                    &&& next.0.resolved == pre.resolved
                    &&& next.1 == ResolveActionView::<T>::Fail(ResolveErrorView::NoSource { name })
                }
            } else {
                &&& next.0.resolved == pre.resolved
                &&& next.0.stack.len() == pre.stack.len()
                &&& next.1 is Entries
            }
        }),
        pre.well_formed() && pre.pending() == 0 ==> advanced(pre).0.well_formed(),
{
    let top = pre.stack.last();
    lemma_unresolved_from(top.dependencies, pre.resolved, top.next);
    let at = unresolved_from(top.dependencies, pre.resolved, top.next);
    if at < top.dependencies.len() && pre.resolved.no_duplicates() {
        lemma_push_fresh(pre.resolved, top.dependencies[at as int].0);
    }
}

/// A dependency whose name is resolved already is passed over: where every
/// dependency of the project on top has a resolved name, none of them is
/// entered, fetched or marked again, and the entry files of the project are
/// next.
pub proof fn lemma_resolved_names_are_skipped<T>(pre: ResolverView<T>)
    requires
        pre.stack.len() > 0,
        forall|k: int|
            pre.stack.last().next <= k < pre.stack.last().dependencies.len() ==> pre.resolved.contains(
                #[trigger] pre.stack.last().dependencies[k].0,
            ),
    ensures
        advanced(pre).1 is Entries,
        advanced(pre).0.resolved == pre.resolved,
        advanced(pre).0.stack.len() == pre.stack.len(),
{
    let top = pre.stack.last();
    lemma_unresolved_from(top.dependencies, pre.resolved, top.next);
}

/// One step keeps the resolved names free of duplicates. It leaves them as
/// they are or adds one name that was not among them, and it never enters
/// more projects than it has marked names for.
pub proof fn lemma_step_marks_once<T>(pre: ResolverView<T>, event: ResolveEventView<T>)
    requires
        pre.resolved.no_duplicates(),
    ensures
        stepped(pre, event).0.resolved.no_duplicates(),
        stepped(pre, event).0.resolved == pre.resolved || exists|name: Seq<char>|
            !pre.resolved.contains(name) && stepped(pre, event).0.resolved == pre.resolved.push(name),
        pre.well_formed() ==> stepped(pre, event).0.well_formed(),
{
    if pre.stack.len() > 0 {
        let top = pre.stack.last();
        match (pre.phase, event) {
            (Phase::Descriptor, ResolveEventView::Descriptor(config)) => {
                let loaded = ResolverView {
                    resolved: pre.resolved,
                    stack: pre.stack.update(
                        pre.stack.len() - 1,
                        ProjectView {
                            dir: top.dir,
                            is_dep: top.is_dep,
                            package: config.package.name,
                            version: config.package.version,
                            dependencies: config.dependencies,
                            next: 0,
                        },
                    ),
                    units: pre.units,
                    phase: pre.phase,
                };
                lemma_advanced(loaded);
                lemma_marked(loaded);
            },
            (Phase::Entries, ResolveEventView::Entries { main, lib }) => {
                if !(main && !top.is_dep) && !lib {
                    lemma_closed(pre);
                }
            },
            (Phase::Unit { lib_follows }, ResolveEventView::Parsed(unit)) => {
                if !lib_follows {
                    lemma_closed(
                        ResolverView {
                            resolved: pre.resolved,
                            stack: pre.stack,
                            units: pre.units.push(unit),
                            phase: pre.phase,
                        },
                    );
                }
            },
            _ => {},
        }
    }
}

proof fn lemma_marked<T>(pre: ResolverView<T>)
    requires
        pre.stack.len() > 0,
        pre.resolved.no_duplicates(),
    ensures
        advanced(pre).0.resolved.no_duplicates(),
        advanced(pre).0.resolved == pre.resolved || exists|name: Seq<char>|
            !pre.resolved.contains(name) && advanced(pre).0.resolved == pre.resolved.push(name),
{
    let top = pre.stack.last();
    lemma_advanced(pre);
    let at = unresolved_from(top.dependencies, pre.resolved, top.next);
    if at < top.dependencies.len() {
        let name = top.dependencies[at as int].0;
        lemma_push_fresh(pre.resolved, name);
        if advanced(pre).0.resolved != pre.resolved {
            assert(!pre.resolved.contains(name) && advanced(pre).0.resolved == pre.resolved.push(
                name,
            ));
        }
    }
}

proof fn lemma_closed<T>(pre: ResolverView<T>)
    requires
        pre.resolved.no_duplicates(),
    ensures
        closed(pre).0.resolved.no_duplicates(),
        closed(pre).0.resolved == pre.resolved || exists|name: Seq<char>|
            !pre.resolved.contains(name) && closed(pre).0.resolved == pre.resolved.push(name),
        pre.well_formed() && pre.pending() == 0 ==> closed(pre).0.well_formed(),
{
    if pre.stack.len() > 1 {
        let below = ResolverView {
            resolved: pre.resolved,
            stack: pre.stack.drop_last(),
            units: pre.units,
            phase: pre.phase,
        };
        lemma_advanced(below);
        lemma_marked(below);
    }
}

/// Whatever the events, no name is resolved twice: the names that a run has
/// marked are pairwise distinct, and the names that were resolved at the
/// start still lead them, in their order.
pub proof fn lemma_run_marks_once<T>(start: ResolverView<T>, events: Seq<ResolveEventView<T>>)
    requires
        start.resolved.no_duplicates(),
    ensures
        run(start, events).resolved.no_duplicates(),
        start.resolved.is_prefix_of(run(start, events).resolved),
        start.well_formed() ==> run(start, events).well_formed(),
    decreases events.len(),
{
    if events.len() > 0 {
        let before = run(start, events.drop_last());
        lemma_run_marks_once(start, events.drop_last());
        lemma_step_marks_once(before, events.last());
        let after = stepped(before, events.last()).0;
        assert(start.resolved.is_prefix_of(after.resolved)) by {
            if after.resolved != before.resolved {
                let name = choose|name: Seq<char>|
                    !before.resolved.contains(name) && after.resolved == before.resolved.push(name);
                assert(before.resolved.push(name).subrange(0, start.resolved.len() as int)
                    =~= before.resolved.subrange(0, start.resolved.len() as int));
            }
        }
    }
}

/// Resolution does not recurse without end. In every run that starts with a
/// fresh resolver, the projects under way are at most one more than the
/// names resolved; so where every name that can occur belongs to a finite
/// set, they are at most one more than that set has members, whatever cycles
/// the dependencies form.
pub proof fn lemma_depth_is_bounded<T>(
    dir: Seq<char>,
    is_dep: bool,
    events: Seq<ResolveEventView<T>>,
    names: Set<Seq<char>>,
)
    requires
        names.finite(),
        forall|k: int|
            0 <= k < run(started::<T>(dir, is_dep, Seq::empty()).0, events).resolved.len()
                ==> names.contains(
                #[trigger] run(started::<T>(dir, is_dep, Seq::empty()).0, events).resolved[k],
            ),
    ensures
        run(started::<T>(dir, is_dep, Seq::empty()).0, events).stack.len() <= run(
            started::<T>(dir, is_dep, Seq::empty()).0,
            events,
        ).resolved.len() + 1,
        run(started::<T>(dir, is_dep, Seq::empty()).0, events).stack.len() <= names.len() + 1,
{
    let start = started::<T>(dir, is_dep, Seq::empty()).0;
    assert(start.well_formed());
    lemma_run_marks_once(start, events);
    let end = run(start, events);
    end.resolved.unique_seq_to_set();
    assert(end.resolved.to_set().subset_of(names)) by {
        assert forall|name: Seq<char>| end.resolved.to_set().contains(name) implies names.contains(
            name,
        ) by {
            let k = choose|k: int| 0 <= k < end.resolved.len() && end.resolved[k] == name;
            assert(names.contains(end.resolved[k]));
        }
    }
    vstd::set_lib::lemma_len_subset(end.resolved.to_set(), names);
}

/// Whether every dependency of `dependencies` has a name of `names`.
pub open spec fn names_within(
    dependencies: Seq<(Seq<char>, DependencyView)>,
    names: Set<Seq<char>>,
) -> bool {
    forall|k: int| 0 <= k < dependencies.len() ==> names.contains(#[trigger] dependencies[k].0)
}

/// Whether every descriptor among `events` names its dependencies within
/// `names`.
pub open spec fn events_within<T>(events: Seq<ResolveEventView<T>>, names: Set<Seq<char>>) -> bool {
    forall|k: int|
        0 <= k < events.len() ==> match #[trigger] events[k] {
            ResolveEventView::Descriptor(config) => names_within(config.dependencies, names),
            _ => true,
        }
}

/// How many of `names` are not resolved.
pub open spec fn unresolved(names: Set<Seq<char>>, resolved: Seq<Seq<char>>) -> nat {
    names.difference(resolved.to_set()).len()
}

/// The steps that a project on top of the stack has before it, at most,
/// until it is closed or a dependency of its own is marked.
pub open spec fn phase_cost(phase: Phase) -> int {
    match phase {
        Phase::Descriptor => 4,
        Phase::Cache => 9,
        Phase::Fetch => 8,
        Phase::Entries => 3,
        Phase::Unit { lib_follows } => if lib_follows {
            2
        } else {
            1
        },
        Phase::Finished => 1,
    }
}

impl<T> ResolverView<T> {
    /// Whether every project under way names its dependencies within `names`.
    pub open spec fn within(self, names: Set<Seq<char>>) -> bool {
        forall|i: int|
            0 <= i < self.stack.len() ==> names_within(
                (#[trigger] self.stack[i]).dependencies,
                names,
            )
    }

    /// Whether the resolution is over: no project is under way.
    pub open spec fn finished(self) -> bool {
        self.stack.len() == 0
    }

    /// A bound on the steps that are left, if no dependency has a name
    /// outside `names`: six for each name that can still be marked, three for
    /// each project that waits for a dependency, and what the project on top
    /// has before it.
    pub open spec fn work_left(self, names: Set<Seq<char>>) -> int {
        6 * unresolved(names, self.resolved) + if self.stack.len() == 0 {
            0
        } else {
            3 * (self.stack.len() - 1) + phase_cost(self.phase)
        }
    }
}

proof fn lemma_mark_shrinks(names: Set<Seq<char>>, resolved: Seq<Seq<char>>, name: Seq<char>)
    requires
        names.finite(),
        names.contains(name),
        !resolved.contains(name),
    ensures
        unresolved(names, resolved.push(name)) + 1 == unresolved(names, resolved),
{
    broadcast use vstd::set::group_set_axioms;

    resolved.lemma_push_to_set_commute(name);
    let before = names.difference(resolved.to_set());
    let after = names.difference(resolved.push(name).to_set());
    assert(!resolved.to_set().contains(name));
    assert(before.contains(name));
    assert(after =~= before.remove(name));
}

proof fn lemma_advanced_works<T>(pre: ResolverView<T>, names: Set<Seq<char>>)
    requires
        names.finite(),
        pre.within(names),
        pre.stack.len() > 0,
    ensures
        advanced(pre).0.within(names),
        advanced(pre).0.work_left(names) < 6 * unresolved(names, pre.resolved) + 3 * (
        pre.stack.len() - 1) + 4,
{
    let top = pre.stack.last();
    lemma_unresolved_from(top.dependencies, pre.resolved, top.next);
    let at = unresolved_from(top.dependencies, pre.resolved, top.next);
    let post = advanced(pre).0;
    if at < top.dependencies.len() {
        let name = top.dependencies[at as int].0;
        assert(names_within(top.dependencies, names));
        assert(names.contains(name));
        lemma_mark_shrinks(names, pre.resolved, name);
    }
    assert forall|i: int| 0 <= i < post.stack.len() implies names_within(
        (#[trigger] post.stack[i]).dependencies,
        names,
    ) by {
        if i < pre.stack.len() {
            assert(post.stack[i].dependencies == pre.stack[i].dependencies);
        }
    }
}

proof fn lemma_closed_works<T>(pre: ResolverView<T>, names: Set<Seq<char>>)
    requires
        names.finite(),
        pre.within(names),
        pre.stack.len() > 0,
    ensures
        closed(pre).0.within(names),
        closed(pre).0.work_left(names) < 6 * unresolved(names, pre.resolved) + 3 * (
        pre.stack.len() - 1) + 1,
{
    if pre.stack.len() > 1 {
        let below = ResolverView {
            resolved: pre.resolved,
            stack: pre.stack.drop_last(),
            units: pre.units,
            phase: pre.phase,
        };
        assert forall|i: int| 0 <= i < below.stack.len() implies names_within(
            (#[trigger] below.stack[i]).dependencies,
            names,
        ) by {
            assert(below.stack[i] == pre.stack[i]);
        }
        lemma_advanced_works(below, names);
    }
}

/// Every step brings the resolution nearer to its end: as long as no
/// descriptor names a dependency outside `names`, the work that is left
/// grows less with every step.
pub proof fn lemma_step_works<T>(
    pre: ResolverView<T>,
    event: ResolveEventView<T>,
    names: Set<Seq<char>>,
)
    requires
        names.finite(),
        pre.within(names),
        match event {
            ResolveEventView::Descriptor(config) => names_within(config.dependencies, names),
            _ => true,
        },
    ensures
        stepped(pre, event).0.within(names),
        pre.finished() ==> stepped(pre, event).0.finished(),
        !pre.finished() ==> stepped(pre, event).0.work_left(names) < pre.work_left(names),
{
    if pre.stack.len() > 0 {
        let top = pre.stack.last();
        let post = stepped(pre, event).0;
        match (pre.phase, event) {
            (Phase::Descriptor, ResolveEventView::Descriptor(config)) => {
                let loaded = ResolverView {
                    resolved: pre.resolved,
                    stack: pre.stack.update(
                        pre.stack.len() - 1,
                        ProjectView {
                            dir: top.dir,
                            is_dep: top.is_dep,
                            package: config.package.name,
                            version: config.package.version,
                            dependencies: config.dependencies,
                            next: 0,
                        },
                    ),
                    units: pre.units,
                    phase: pre.phase,
                };
                assert forall|i: int| 0 <= i < loaded.stack.len() implies names_within(
                    (#[trigger] loaded.stack[i]).dependencies,
                    names,
                ) by {
                    if i < pre.stack.len() - 1 {
                        assert(loaded.stack[i] == pre.stack[i]);
                    }
                }
                lemma_advanced_works(loaded, names);
            },
            (Phase::Entries, ResolveEventView::Entries { main, lib }) => {
                if !(main && !top.is_dep) && !lib {
                    lemma_closed_works(pre, names);
                }
            },
            (Phase::Unit { lib_follows }, ResolveEventView::Parsed(unit)) => {
                if !lib_follows {
                    let added = ResolverView {
                        resolved: pre.resolved,
                        stack: pre.stack,
                        units: pre.units.push(unit),
                        phase: pre.phase,
                    };
                    lemma_closed_works(added, names);
                }
            },
            (Phase::Cache, ResolveEventView::Cache(cached)) => {
                lemma_descended_within(pre, names);
            },
            (Phase::Fetch, ResolveEventView::Fetched) => {
                lemma_descended_within(pre, names);
            },
            _ => {},
        }
    }
}

proof fn lemma_descended_within<T>(pre: ResolverView<T>, names: Set<Seq<char>>)
    requires
        pre.within(names),
    ensures
        forall|dir: Seq<char>| (#[trigger] descended(pre, dir)).0.within(names),
{
    assert forall|dir: Seq<char>| (#[trigger] descended(pre, dir)).0.within(names) by {
        let post = descended(pre, dir).0;
        assert forall|i: int| 0 <= i < post.stack.len() implies names_within(
            (#[trigger] post.stack[i]).dependencies,
            names,
        ) by {
            if i < pre.stack.len() {
                assert(post.stack[i] == pre.stack[i]);
            }
        }
    }
}

/// A run uses up the work that was left at its start: it is over, or the
/// events it has taken and the work that is left are together no more than
/// the work that was left at first.
pub proof fn lemma_run_works<T>(
    start: ResolverView<T>,
    events: Seq<ResolveEventView<T>>,
    names: Set<Seq<char>>,
)
    requires
        names.finite(),
        start.within(names),
        events_within(events, names),
    ensures
        run(start, events).within(names),
        run(start, events).finished() || run(start, events).work_left(names) + events.len()
            <= start.work_left(names),
    decreases events.len(),
{
    if events.len() > 0 {
        let before = run(start, events.drop_last());
        assert(events_within(events.drop_last(), names)) by {
            assert forall|k: int| 0 <= k < events.drop_last().len() implies match #[trigger] events.drop_last()[k] {
                ResolveEventView::Descriptor(config) => names_within(config.dependencies, names),
                _ => true,
            } by {
                assert(events.drop_last()[k] == events[k]);
            }
        }
        lemma_run_works(start, events.drop_last(), names);
        assert(events.last() == events[events.len() - 1]);
        lemma_step_works(before, events.last(), names);
    }
}

/// Resolution ends, whatever cycles the dependencies form. Where the
/// dependencies of all descriptors take their names from a finite set, a
/// resolution that starts afresh is over after at most six steps for each
/// name of that set and four more: no sequence of events, however chosen,
/// keeps it going any longer.
pub proof fn lemma_resolution_ends<T>(
    dir: Seq<char>,
    is_dep: bool,
    events: Seq<ResolveEventView<T>>,
    names: Set<Seq<char>>,
)
    requires
        names.finite(),
        events_within(events, names),
        events.len() > 6 * names.len() + 4,
    ensures
        run(started::<T>(dir, is_dep, Seq::empty()).0, events).finished(),
{
    broadcast use vstd::set::group_set_axioms;

    let start = started::<T>(dir, is_dep, Seq::empty()).0;
    assert(start.within(names)) by {
        assert forall|i: int| 0 <= i < start.stack.len() implies names_within(
            (#[trigger] start.stack[i]).dependencies,
            names,
        ) by {
            assert(start.stack[i].dependencies.len() == 0);
        }
    }
    lemma_run_works(start, events, names);
    assert(names.difference(Seq::<Seq<char>>::empty().to_set()) =~= names);
    assert(start.work_left(names) == 6 * names.len() + 4);
    assert(run(start, events).work_left(names) >= 0);
}

impl<T> ResolverView<T> {
    /// What the resolver waits for goes with its stack: it waits for nothing
    /// exactly when no project is under way, and it waits for a cache or a
    /// fetch only of a dependency of the project on top that comes from a
    /// repository.
    pub open spec fn consistent(self) -> bool {
        &&& self.phase == Phase::Finished <==> self.stack.len() == 0
        &&& self.phase == Phase::Cache || self.phase == Phase::Fetch ==> {
            let top = self.stack.last();
            &&& top.next < top.dependencies.len()
            &&& top.dependencies[top.next as int].1.path is None
            &&& top.dependencies[top.next as int].1.git is Some
        }
    }

    /// Whether `event` answers what the resolver waits for.
    pub open spec fn expects(self, event: ResolveEventView<T>) -> bool {
        match (self.phase, event) {
            (Phase::Descriptor, ResolveEventView::Descriptor(_)) => true,
            (Phase::Cache, ResolveEventView::Cache(_)) => true,
            (Phase::Fetch, ResolveEventView::Fetched) => true,
            (Phase::Entries, ResolveEventView::Entries { .. }) => true,
            (Phase::Unit { .. }, ResolveEventView::Parsed(_)) => true,
            (Phase::Unit { .. }, ResolveEventView::Rejected { .. }) => true,
            _ => false,
        }
    }
}

proof fn lemma_advanced_consistent<T>(pre: ResolverView<T>)
    requires
        pre.stack.len() > 0,
    ensures
        advanced(pre).0.consistent(),
        advanced(pre).1 != ResolveActionView::<T>::Fail(ResolveErrorView::OutOfTurn),
{
    let top = pre.stack.last();
    lemma_unresolved_from(top.dependencies, pre.resolved, top.next);
}

/// The resolver stays consistent from step to step, and in a consistent
/// resolver an event that answers what the resolver waits for is never out
/// of turn. What is found in the cache, and a fetch that is done, never fail
/// the resolution.
pub proof fn lemma_step_keeps_consistent<T>(pre: ResolverView<T>, event: ResolveEventView<T>)
    requires
        pre.consistent(),
    ensures
        stepped(pre, event).0.consistent(),
        pre.expects(event) ==> stepped(pre, event).1 != ResolveActionView::<T>::Fail(
            ResolveErrorView::OutOfTurn,
        ),
        pre.expects(event) && (pre.phase == Phase::Cache || pre.phase == Phase::Fetch) ==> !(stepped(
            pre,
            event,
        ).1 is Fail),
{
    if pre.stack.len() > 0 {
        let top = pre.stack.last();
        match (pre.phase, event) {
            (Phase::Descriptor, ResolveEventView::Descriptor(config)) => {
                lemma_advanced_consistent(
                    ResolverView {
                        resolved: pre.resolved,
                        stack: pre.stack.update(
                            pre.stack.len() - 1,
                            ProjectView {
                                dir: top.dir,
                                is_dep: top.is_dep,
                                package: config.package.name,
                                version: config.package.version,
                                dependencies: config.dependencies,
                                next: 0,
                            },
                        ),
                        units: pre.units,
                        phase: pre.phase,
                    },
                );
            },
            (Phase::Entries, ResolveEventView::Entries { main, lib }) => {
                if !(main && !top.is_dep) && !lib && pre.stack.len() > 1 {
                    lemma_advanced_consistent(
                        ResolverView {
                            resolved: pre.resolved,
                            stack: pre.stack.drop_last(),
                            units: pre.units,
                            phase: pre.phase,
                        },
                    );
                }
            },
            (Phase::Unit { lib_follows }, ResolveEventView::Parsed(unit)) => {
                if !lib_follows && pre.stack.len() > 1 {
                    lemma_advanced_consistent(
                        ResolverView {
                            resolved: pre.resolved,
                            stack: pre.stack.drop_last(),
                            units: pre.units.push(unit),
                            phase: pre.phase,
                        },
                    );
                }
            },
            _ => {},
        }
    }
}

/// The resolver is consistent and well formed when it starts afresh.
pub proof fn lemma_started_consistent<T>(dir: Seq<char>, is_dep: bool)
    ensures
        started::<T>(dir, is_dep, Seq::empty()).0.consistent(),
        started::<T>(dir, is_dep, Seq::empty()).0.well_formed(),
{
}

/// The dependency that a step enters, if it enters one: the step answers
/// with the request to load a descriptor, and the project below the one it
/// has put on top names the dependency.
pub open spec fn entered_by<T>(post: ResolverView<T>, action: ResolveActionView<T>) -> Option<
    Seq<char>,
> {
    if action is Load && post.stack.len() >= 2 {
        let parent = post.stack[post.stack.len() - 2];
        Some(parent.dependencies[parent.next as int].0)
    } else {
        None
    }
}

/// The dependency that a step has fetched, if it asks for a fetch.
pub open spec fn fetched_by<T>(action: ResolveActionView<T>) -> Option<Seq<char>> {
    match action {
        ResolveActionView::Fetch { name, .. } => Some(name),
        _ => None,
    }
}

/// `names` with `name` behind them, if there is one.
pub open spec fn with_name(names: Seq<Seq<char>>, name: Option<Seq<char>>) -> Seq<Seq<char>> {
    match name {
        Some(name) => names.push(name),
        None => names,
    }
}

/// The dependencies that the steps on `events` enter, in order.
pub open spec fn entered_names<T>(start: ResolverView<T>, events: Seq<ResolveEventView<T>>) -> Seq<
    Seq<char>,
>
    decreases events.len(),
{
    if events.len() == 0 {
        Seq::empty()
    } else {
        let next = stepped(run(start, events.drop_last()), events.last());
        with_name(entered_names(start, events.drop_last()), entered_by(next.0, next.1))
    }
}

/// The dependencies for which the steps on `events` ask for a fetch, in
/// order.
pub open spec fn fetched_names<T>(start: ResolverView<T>, events: Seq<ResolveEventView<T>>) -> Seq<
    Seq<char>,
>
    decreases events.len(),
{
    if events.len() == 0 {
        Seq::empty()
    } else {
        let next = stepped(run(start, events.drop_last()), events.last());
        with_name(fetched_names(start, events.drop_last()), fetched_by(next.1))
    }
}

/// What holds of a run that has entered `entered` and fetched `fetched`:
/// both hold resolved names only, and no name twice; and a dependency whose
/// cache or fetch the resolver waits for is the name that was marked last,
/// is not entered yet and, until its cache is looked at, not fetched.
spec fn cleared<T>(state: ResolverView<T>, entered: Seq<Seq<char>>, fetched: Seq<Seq<char>>) -> bool {
    &&& state.consistent()
    &&& state.resolved.no_duplicates()
    &&& entered.no_duplicates()
    &&& fetched.no_duplicates()
    &&& forall|k: int| 0 <= k < entered.len() ==> state.resolved.contains(#[trigger] entered[k])
    &&& forall|k: int| 0 <= k < fetched.len() ==> state.resolved.contains(#[trigger] fetched[k])
    &&& state.phase == Phase::Cache || state.phase == Phase::Fetch ==> {
        let top = state.stack.last();
        &&& state.resolved.len() > 0
        &&& top.dependencies[top.next as int].0 == state.resolved.last()
        &&& !entered.contains(state.resolved.last())
        &&& state.phase == Phase::Cache ==> !fetched.contains(state.resolved.last())
    }
}

proof fn lemma_contains_pushed(names: Seq<Seq<char>>, name: Seq<char>)
    ensures
        names.push(name).contains(name),
        forall|other: Seq<char>| names.contains(other) ==> names.push(name).contains(other),
        names.push(name).last() == name,
{
    assert(names.push(name)[names.len() as int] == name);
    assert forall|other: Seq<char>| names.contains(other) implies names.push(name).contains(
        other,
    ) by {
        let k = choose|k: int| 0 <= k < names.len() && names[k] == other;
        assert(names.push(name)[k] == other);
    }
}

proof fn lemma_advanced_clears<T>(
    pre: ResolverView<T>,
    entered: Seq<Seq<char>>,
    fetched: Seq<Seq<char>>,
)
    requires
        pre.stack.len() > 0,
        pre.resolved.no_duplicates(),
        entered.no_duplicates(),
        fetched.no_duplicates(),
        forall|k: int| 0 <= k < entered.len() ==> pre.resolved.contains(#[trigger] entered[k]),
        forall|k: int| 0 <= k < fetched.len() ==> pre.resolved.contains(#[trigger] fetched[k]),
    ensures
        cleared(
            advanced(pre).0,
            with_name(entered, entered_by(advanced(pre).0, advanced(pre).1)),
            with_name(fetched, fetched_by(advanced(pre).1)),
        ),
{
    let top = pre.stack.last();
    lemma_unresolved_from(top.dependencies, pre.resolved, top.next);
    lemma_advanced_consistent(pre);
    let at = unresolved_from(top.dependencies, pre.resolved, top.next);
    let post = advanced(pre).0;
    let action = advanced(pre).1;
    let entered2 = with_name(entered, entered_by(post, action));
    if at < top.dependencies.len() {
        let name = top.dependencies[at as int].0;
        lemma_push_fresh(pre.resolved, name);
        lemma_contains_pushed(pre.resolved, name);
        if !entered.contains(name) {
            lemma_push_fresh(entered, name);
        }
        assert(!entered.contains(name)) by {
            if entered.contains(name) {
                let k = choose|k: int| 0 <= k < entered.len() && entered[k] == name;
                assert(pre.resolved.contains(entered[k]));
            }
        }
        assert(!fetched.contains(name)) by {
            if fetched.contains(name) {
                let k = choose|k: int| 0 <= k < fetched.len() && fetched[k] == name;
                assert(pre.resolved.contains(fetched[k]));
            }
        }
        lemma_push_fresh(entered, name);
        if top.dependencies[at as int].1.path is Some {
            assert(post.stack[post.stack.len() - 2].next == at);
            assert(entered_by(post, action) == Some(name));
            lemma_contains_pushed(entered, name);
        }
    }
    assert forall|k: int| 0 <= k < entered2.len() implies post.resolved.contains(
        #[trigger] entered2[k],
    ) by {
        if k < entered.len() {
            assert(pre.resolved.contains(entered[k]));
        }
    }
    assert forall|k: int| 0 <= k < fetched.len() implies post.resolved.contains(
        #[trigger] fetched[k],
    ) by {
        assert(pre.resolved.contains(fetched[k]));
    }
}

proof fn lemma_descended_clears<T>(
    pre: ResolverView<T>,
    dir: Seq<char>,
    entered: Seq<Seq<char>>,
    fetched: Seq<Seq<char>>,
)
    requires
        cleared(pre, entered, fetched),
        pre.phase == Phase::Cache || pre.phase == Phase::Fetch,
    ensures
        cleared(
            descended(pre, dir).0,
            with_name(entered, entered_by(descended(pre, dir).0, descended(pre, dir).1)),
            fetched,
        ),
{
    let post = descended(pre, dir).0;
    let name = pre.resolved.last();
    assert(post.stack[post.stack.len() - 2] == pre.stack.last());
    assert(entered_by(post, descended(pre, dir).1) == Some(name));
    lemma_push_fresh(entered, name);
    assert(pre.resolved.contains(name)) by {
        assert(pre.resolved[pre.resolved.len() - 1] == name);
    }
}

proof fn lemma_closed_clears<T>(
    pre: ResolverView<T>,
    entered: Seq<Seq<char>>,
    fetched: Seq<Seq<char>>,
)
    requires
        pre.stack.len() > 0,
        pre.resolved.no_duplicates(),
        entered.no_duplicates(),
        fetched.no_duplicates(),
        forall|k: int| 0 <= k < entered.len() ==> pre.resolved.contains(#[trigger] entered[k]),
        forall|k: int| 0 <= k < fetched.len() ==> pre.resolved.contains(#[trigger] fetched[k]),
    ensures
        cleared(
            closed(pre).0,
            with_name(entered, entered_by(closed(pre).0, closed(pre).1)),
            with_name(fetched, fetched_by(closed(pre).1)),
        ),
{
    if pre.stack.len() > 1 {
        lemma_advanced_clears(
            ResolverView {
                resolved: pre.resolved,
                stack: pre.stack.drop_last(),
                units: pre.units,
                phase: pre.phase,
            },
            entered,
            fetched,
        );
    }
}

proof fn lemma_step_clears<T>(
    pre: ResolverView<T>,
    event: ResolveEventView<T>,
    entered: Seq<Seq<char>>,
    fetched: Seq<Seq<char>>,
)
    requires
        cleared(pre, entered, fetched),
    ensures
        cleared(
            stepped(pre, event).0,
            with_name(entered, entered_by(stepped(pre, event).0, stepped(pre, event).1)),
            with_name(fetched, fetched_by(stepped(pre, event).1)),
        ),
{
    lemma_step_keeps_consistent(pre, event);
    if pre.stack.len() > 0 {
        let top = pre.stack.last();
        match (pre.phase, event) {
            (Phase::Descriptor, ResolveEventView::Descriptor(config)) => {
                lemma_advanced_clears(
                    ResolverView {
                        resolved: pre.resolved,
                        stack: pre.stack.update(
                            pre.stack.len() - 1,
                            ProjectView {
                                dir: top.dir,
                                is_dep: top.is_dep,
                                package: config.package.name,
                                version: config.package.version,
                                dependencies: config.dependencies,
                                next: 0,
                            },
                        ),
                        units: pre.units,
                        phase: pre.phase,
                    },
                    entered,
                    fetched,
                );
            },
            (Phase::Cache, ResolveEventView::Cache(cached)) => {
                let name = top.dependencies[top.next as int].0;
                if cached {
                    lemma_descended_clears(pre, cache_dir_of(top.dir, name), entered, fetched);
                } else {
                    lemma_push_fresh(fetched, name);
                    assert(pre.resolved.contains(name)) by {
                        assert(pre.resolved[pre.resolved.len() - 1] == name);
                    }
                }
            },
            (Phase::Fetch, ResolveEventView::Fetched) => {
                lemma_descended_clears(
                    pre,
                    cache_dir_of(top.dir, top.dependencies[top.next as int].0),
                    entered,
                    fetched,
                );
            },
            (Phase::Entries, ResolveEventView::Entries { main, lib }) => {
                if !(main && !top.is_dep) && !lib {
                    lemma_closed_clears(pre, entered, fetched);
                }
            },
            (Phase::Unit { lib_follows }, ResolveEventView::Parsed(unit)) => {
                if !lib_follows {
                    lemma_closed_clears(
                        ResolverView {
                            resolved: pre.resolved,
                            stack: pre.stack,
                            units: pre.units.push(unit),
                            phase: pre.phase,
                        },
                        entered,
                        fetched,
                    );
                }
            },
            _ => {},
        }
    }
}

proof fn lemma_run_clears<T>(dir: Seq<char>, is_dep: bool, events: Seq<ResolveEventView<T>>)
    ensures
        cleared(
            run(started::<T>(dir, is_dep, Seq::empty()).0, events),
            entered_names(started::<T>(dir, is_dep, Seq::empty()).0, events),
            fetched_names(started::<T>(dir, is_dep, Seq::empty()).0, events),
        ),
    decreases events.len(),
{
    let start = started::<T>(dir, is_dep, Seq::empty()).0;
    if events.len() > 0 {
        lemma_run_clears::<T>(dir, is_dep, events.drop_last());
        lemma_step_clears(
            run(start, events.drop_last()),
            events.last(),
            entered_names(start, events.drop_last()),
            fetched_names(start, events.drop_last()),
        );
    }
}

/// However many projects declare a dependency, it is entered once and
/// fetched once. In every run of a resolution that starts afresh, whatever
/// the events, no name occurs twice among the dependencies that are entered,
/// none occurs twice among those that are fetched, and each of them is a name
/// that the run has marked as resolved.
pub proof fn lemma_entered_once<T>(dir: Seq<char>, is_dep: bool, events: Seq<ResolveEventView<T>>)
    ensures
        ({
            let start = started::<T>(dir, is_dep, Seq::empty()).0;
            &&& entered_names(start, events).no_duplicates()
            &&& fetched_names(start, events).no_duplicates()
            &&& forall|k: int|
                0 <= k < entered_names(start, events).len() ==> run(start, events).resolved.contains(
                    #[trigger] entered_names(start, events)[k],
                )
            &&& forall|k: int|
                0 <= k < fetched_names(start, events).len() ==> run(start, events).resolved.contains(
                    #[trigger] fetched_names(start, events)[k],
                )
        }),
{
    lemma_run_clears::<T>(dir, is_dep, events);
}

/// What the resolver can learn of the projects it asks for: the descriptor
/// at each path, whether a cache directory exists, whether an entry file
/// exists, and the tree of each file.
pub struct Projects<T> {
    pub descriptor: spec_fn(Seq<char>) -> ConfigView,
    pub cached: spec_fn(Seq<char>) -> bool,
    pub exists: spec_fn(Seq<char>) -> bool,
    pub tree: spec_fn(Seq<char>) -> Seq<ModuleView<T>>,
}

/// Units, and the names that are resolved once they are there.
pub type Resolved<T> = (Seq<Seq<ModuleView<T>>>, Seq<Seq<char>>);

/// The directory in which the dependency `name` of the project in `dir` is
/// entered, if it has sources: its path, or else its cache directory.
pub open spec fn location_of(dir: Seq<char>, name: Seq<char>, dep: DependencyView) -> Option<
    Seq<char>,
> {
    match dep.path {
        Some(path) => Some(path),
        None => if dep.git is Some {
            Some(cache_dir_of(dir, name))
        } else {
            None
        },
    }
}

impl<T> Projects<T> {
    /// What the caller hands back for `action`.
    pub open spec fn answer(self, action: ResolveActionView<T>) -> ResolveEventView<T> {
        match action {
            ResolveActionView::Load { descriptor } => ResolveEventView::Descriptor(
                (self.descriptor)(descriptor),
            ),
            ResolveActionView::ProbeCache { dir } => ResolveEventView::Cache((self.cached)(dir)),
            ResolveActionView::Entries { main, lib, .. } => ResolveEventView::Entries {
                main: (self.exists)(main),
                lib: (self.exists)(lib),
            },
            ResolveActionView::Parse { file } => ResolveEventView::Parsed((self.tree)(file)),
            _ => ResolveEventView::Fetched,
        }
    }

    /// The resolver after at most `steps` steps, each on the answer to the
    /// action before it; it stands still once an action asks for nothing.
    pub open spec fn driven(
        self,
        state: ResolverView<T>,
        action: ResolveActionView<T>,
        steps: nat,
    ) -> (ResolverView<T>, ResolveActionView<T>)
        decreases steps,
    {
        if steps == 0 || action is Done || action is Reject || action is Fail {
            (state, action)
        } else {
            let next = stepped(state, self.answer(action));
            self.driven(next.0, next.1, (steps - 1) as nat)
        }
    }

    /// The units that the project in `dir` contributes itself: its binary
    /// entry, unless it is a dependency, and its library entry, as far as
    /// they exist.
    pub open spec fn own_units(self, dir: Seq<char>, is_dep: bool) -> Seq<Seq<ModuleView<T>>> {
        (if (self.exists)(main_entry_of(dir)) && !is_dep {
            seq![(self.tree)(main_entry_of(dir))]
        } else {
            Seq::empty()
        }) + (if (self.exists)(lib_entry_of(dir)) {
            seq![(self.tree)(lib_entry_of(dir))]
        } else {
            Seq::empty()
        })
    }

    /// The units of the project in `dir` and of every dependency that is not
    /// resolved yet, the dependencies first, and the names that are resolved
    /// after that; if nothing lacks sources and no chain of dependencies is
    /// longer than `depth`.
    pub open spec fn project(self, dir: Seq<char>, is_dep: bool, resolved: Seq<Seq<char>>, depth: nat) -> Option<
        Resolved<T>,
    >
        decreases depth, 0nat,
    {
        if depth == 0 {
            None
        } else {
            let config = (self.descriptor)(descriptor_of(dir));
            match self.dependencies(dir, config.dependencies, 0, resolved, (depth - 1) as nat) {
                None => None,
                Some(found) => Some((found.0 + self.own_units(dir, is_dep), found.1)),
            }
        }
    }

    /// The units of the dependencies `dependencies` of the project in `dir`,
    /// from the `k`-th on, in their order: a dependency whose name is
    /// resolved contributes nothing, and any other is marked as resolved and
    /// contributes its project.
    pub open spec fn dependencies(
        self,
        dir: Seq<char>,
        dependencies: Seq<(Seq<char>, DependencyView)>,
        k: nat,
        resolved: Seq<Seq<char>>,
        depth: nat,
    ) -> Option<Resolved<T>>
        decreases depth, dependencies.len() - k + 1,
    {
        if k >= dependencies.len() {
            Some((Seq::empty(), resolved))
        } else if resolved.contains(dependencies[k as int].0) {
            self.dependencies(dir, dependencies, k + 1, resolved, depth)
        } else {
            let name = dependencies[k as int].0;
            match location_of(dir, name, dependencies[k as int].1) {
                None => None,
                Some(place) => match self.project(place, true, resolved.push(name), depth) {
                    None => None,
                    Some(first) => match self.dependencies(dir, dependencies, k + 1, first.1, depth) {
                        None => None,
                        Some(rest) => Some((first.0 + rest.0, rest.1)),
                    },
                },
            }
        }
    }

    /// The steps that resolving the project in `dir` takes.
    pub open spec fn steps_of(self, dir: Seq<char>, is_dep: bool, resolved: Seq<Seq<char>>, depth: nat) -> nat
        decreases depth, 0nat,
    {
        if depth == 0 {
            0
        } else {
            let config = (self.descriptor)(descriptor_of(dir));
            2 + self.steps_from(dir, config.dependencies, 0, resolved, (depth - 1) as nat)
                + self.own_units(dir, is_dep).len()
        }
    }

    /// The steps that resolving the dependencies of the project in `dir`
    /// takes, from the `k`-th on.
    pub open spec fn steps_from(
        self,
        dir: Seq<char>,
        dependencies: Seq<(Seq<char>, DependencyView)>,
        k: nat,
        resolved: Seq<Seq<char>>,
        depth: nat,
    ) -> nat
        decreases depth, dependencies.len() - k + 1,
    {
        if k >= dependencies.len() {
            0
        } else if resolved.contains(dependencies[k as int].0) {
            self.steps_from(dir, dependencies, k + 1, resolved, depth)
        } else {
            let name = dependencies[k as int].0;
            let dep = dependencies[k as int].1;
            match location_of(dir, name, dep) {
                None => 0,
                Some(place) => match self.project(place, true, resolved.push(name), depth) {
                    None => 0,
                    Some(first) => (if dep.path is Some {
                        0nat
                    } else if (self.cached)(place) {
                        1nat
                    } else {
                        2nat
                    }) + self.steps_of(place, true, resolved.push(name), depth) + self.steps_from(
                        dir,
                        dependencies,
                        k + 1,
                        first.1,
                        depth,
                    ),
                },
            }
        }
    }
}

proof fn lemma_advanced_skips<T>(
    below: Seq<ProjectView>,
    frame: ProjectView,
    resolved: Seq<Seq<char>>,
    units: Seq<Seq<ModuleView<T>>>,
)
    requires
        frame.next < frame.dependencies.len(),
        resolved.contains(frame.dependencies[frame.next as int].0),
    ensures
        advanced(ResolverView { resolved, stack: below.push(frame), units, phase: Phase::Descriptor })
            == advanced(
            ResolverView {
                resolved,
                stack: below.push(ProjectView { next: frame.next + 1, ..frame }),
                units,
                phase: Phase::Descriptor,
            },
        ),
{
    let other = ProjectView { next: frame.next + 1, ..frame };
    let at = unresolved_from(frame.dependencies, resolved, frame.next);
    assert(at == unresolved_from(frame.dependencies, resolved, frame.next + 1));
    let here = ProjectView { next: at, ..frame };
    assert(below.push(frame).update(below.len() as int, here) =~= below.push(other).update(
        below.len() as int,
        here,
    ));
}

impl<T> Projects<T> {
    proof fn lemma_driven_add(
        self,
        state: ResolverView<T>,
        action: ResolveActionView<T>,
        a: nat,
        b: nat,
    )
        ensures
            self.driven(state, action, a + b) == self.driven(
                self.driven(state, action, a).0,
                self.driven(state, action, a).1,
                b,
            ),
        decreases a,
    {
        if a > 0 && !(action is Done || action is Reject || action is Fail) {
            let next = stepped(state, self.answer(action));
            self.lemma_driven_add(next.0, next.1, (a - 1) as nat, b);
            assert((a + b - 1) as nat == (a - 1) as nat + b);
        }
    }

    proof fn lemma_project_marks(self, dir: Seq<char>, is_dep: bool, resolved: Seq<Seq<char>>, depth: nat)
        requires
            self.project(dir, is_dep, resolved, depth) is Some,
        ensures
            resolved.is_prefix_of((self.project(dir, is_dep, resolved, depth)->0).1),
        decreases depth, 0nat,
    {
        let config = (self.descriptor)(descriptor_of(dir));
        self.lemma_dependencies_mark(dir, config.dependencies, 0, resolved, (depth - 1) as nat);
    }

    proof fn lemma_dependencies_mark(
        self,
        dir: Seq<char>,
        dependencies: Seq<(Seq<char>, DependencyView)>,
        k: nat,
        resolved: Seq<Seq<char>>,
        depth: nat,
    )
        requires
            self.dependencies(dir, dependencies, k, resolved, depth) is Some,
        ensures
            resolved.is_prefix_of((self.dependencies(dir, dependencies, k, resolved, depth)->0).1),
        decreases depth, dependencies.len() - k + 1,
    {
        if k >= dependencies.len() {
            assert(resolved.subrange(0, resolved.len() as int) =~= resolved);
        } else if resolved.contains(dependencies[k as int].0) {
            self.lemma_dependencies_mark(dir, dependencies, k + 1, resolved, depth);
        } else {
            let name = dependencies[k as int].0;
            let place = location_of(dir, name, dependencies[k as int].1)->0;
            let marked = resolved.push(name);
            let first = self.project(place, true, marked, depth)->0;
            let rest = self.dependencies(dir, dependencies, k + 1, first.1, depth)->0;
            self.lemma_project_marks(place, true, marked, depth);
            self.lemma_dependencies_mark(dir, dependencies, k + 1, first.1, depth);
            assert(resolved =~= marked.subrange(0, resolved.len() as int));
            assert(marked =~= first.1.subrange(0, marked.len() as int));
            assert(first.1 =~= rest.1.subrange(0, first.1.len() as int));
            assert(resolved =~= rest.1.subrange(0, resolved.len() as int));
        }
    }

    proof fn lemma_project_is_resolved(
        self,
        below: Seq<ProjectView>,
        units: Seq<Seq<ModuleView<T>>>,
        dir: Seq<char>,
        is_dep: bool,
        resolved: Seq<Seq<char>>,
        depth: nat,
    )
        requires
            self.project(dir, is_dep, resolved, depth) is Some,
        ensures
            ({
                let config = (self.descriptor)(descriptor_of(dir));
                let found = self.project(dir, is_dep, resolved, depth)->0;
                let start = ResolverView {
                    resolved,
                    stack: below.push(entered(dir, is_dep)),
                    units,
                    phase: Phase::Descriptor,
                };
                let done = ResolverView {
                    resolved: found.1,
                    stack: below.push(
                        ProjectView {
                            dir,
                            is_dep,
                            package: config.package.name,
                            version: config.package.version,
                            dependencies: config.dependencies,
                            next: config.dependencies.len(),
                        },
                    ),
                    units: units + found.0,
                    phase: Phase::Entries,
                };
                self.driven(
                    start,
                    ResolveActionView::Load { descriptor: descriptor_of(dir) },
                    self.steps_of(dir, is_dep, resolved, depth),
                ) == closed(done)
            }),
        decreases depth, 0nat,
    {
        let config = (self.descriptor)(descriptor_of(dir));
        let deps = config.dependencies;
        let inner = (depth - 1) as nat;
        let found = self.dependencies(dir, deps, 0, resolved, inner)->0;
        let own = self.own_units(dir, is_dep);
        let start = ResolverView {
            resolved,
            stack: below.push(entered(dir, is_dep)),
            units,
            phase: Phase::Descriptor,
        };
        let load = ResolveActionView::<T>::Load { descriptor: descriptor_of(dir) };
        let frame = ProjectView {
            dir,
            is_dep,
            package: config.package.name,
            version: config.package.version,
            dependencies: deps,
            next: 0,
        };
        let full = ProjectView { next: deps.len(), ..frame };
        let loaded = ResolverView { resolved, stack: below.push(frame), units, phase: Phase::Descriptor };
        assert(start.stack.update(start.stack.len() - 1, frame) =~= below.push(frame));
        let first = stepped(start, self.answer(load));
        assert(first == advanced(loaded));
        let n = self.steps_from(dir, deps, 0, resolved, inner);
        self.lemma_dependencies_are_resolved(below, units, frame, resolved, inner);
        let waiting = ResolverView {
            resolved: found.1,
            stack: below.push(full),
            units: units + found.0,
            phase: Phase::Entries,
        };
        let ask = ResolveActionView::<T>::Entries {
            package: frame.package,
            version: frame.version,
            dir,
            main: main_entry_of(dir),
            lib: lib_entry_of(dir),
        };
        assert(self.driven(first.0, first.1, n) == (waiting, ask));
        let m = own.len();
        assert(self.steps_of(dir, is_dep, resolved, depth) == 1 + (n + (1 + m)));
        assert(self.driven(start, load, 1 + (n + (1 + m))) == self.driven(
            first.0,
            first.1,
            n + (1 + m),
        ));
        self.lemma_driven_add(first.0, first.1, n, 1 + m);
        let main = (self.exists)(main_entry_of(dir));
        let lib = (self.exists)(lib_entry_of(dir));
        let second = stepped(waiting, self.answer(ask));
        assert(waiting.stack.last() == full);
        assert(self.driven(waiting, ask, 1 + m) == self.driven(second.0, second.1, m));
        let done = ResolverView {
            resolved: found.1,
            stack: below.push(full),
            units: units + (found.0 + own),
            phase: Phase::Entries,
        };
        if main && !is_dep {
            let third = stepped(second.0, self.answer(second.1));
            assert(second.0.stack.last() == full);
            assert(self.driven(second.0, second.1, m) == self.driven(third.0, third.1, (m - 1) as nat));
            if lib {
                let fourth = stepped(third.0, self.answer(third.1));
                assert(third.0.stack.last() == full);
                assert(own =~= seq![(self.tree)(main_entry_of(dir)), (self.tree)(lib_entry_of(dir))]);
                assert((units + found.0).push((self.tree)(main_entry_of(dir))).push(
                    (self.tree)(lib_entry_of(dir)),
                ) =~= units + (found.0 + own));
                assert(fourth == closed(done));
                assert(self.driven(third.0, third.1, 1) == self.driven(fourth.0, fourth.1, 0));
            } else {
                assert(own =~= seq![(self.tree)(main_entry_of(dir))]);
                assert((units + found.0).push((self.tree)(main_entry_of(dir))) =~= units + (found.0
                    + own));
                assert(third == closed(done));
            }
        } else if lib {
            let third = stepped(second.0, self.answer(second.1));
            assert(second.0.stack.last() == full);
            assert(own =~= seq![(self.tree)(lib_entry_of(dir))]);
            assert((units + found.0).push((self.tree)(lib_entry_of(dir))) =~= units + (found.0 + own));
            assert(third == closed(done));
            assert(self.driven(second.0, second.1, 1) == self.driven(third.0, third.1, 0));
        } else {
            assert(own =~= Seq::empty());
            assert(units + found.0 =~= units + (found.0 + own));
            assert(second == closed(done));
        }
    }

    proof fn lemma_dependencies_are_resolved(
        self,
        below: Seq<ProjectView>,
        units: Seq<Seq<ModuleView<T>>>,
        frame: ProjectView,
        resolved: Seq<Seq<char>>,
        depth: nat,
    )
        requires
            frame.next <= frame.dependencies.len(),
            self.dependencies(frame.dir, frame.dependencies, frame.next, resolved, depth) is Some,
        ensures
            ({
                let found = self.dependencies(
                    frame.dir,
                    frame.dependencies,
                    frame.next,
                    resolved,
                    depth,
                )->0;
                let from = advanced(
                    ResolverView { resolved, stack: below.push(frame), units, phase: Phase::Descriptor },
                );
                self.driven(
                    from.0,
                    from.1,
                    self.steps_from(frame.dir, frame.dependencies, frame.next, resolved, depth),
                ) == (
                    ResolverView {
                        resolved: found.1,
                        stack: below.push(ProjectView { next: frame.dependencies.len(), ..frame }),
                        units: units + found.0,
                        phase: Phase::Entries,
                    },
                    ResolveActionView::<T>::Entries {
                        package: frame.package,
                        version: frame.version,
                        dir: frame.dir,
                        main: main_entry_of(frame.dir),
                        lib: lib_entry_of(frame.dir),
                    },
                )
            }),
        decreases depth, frame.dependencies.len() - frame.next + 1,
    {
        let deps = frame.dependencies;
        let dir = frame.dir;
        let k = frame.next;
        let pre = ResolverView { resolved, stack: below.push(frame), units, phase: Phase::Descriptor };
        let from = advanced(pre);
        let next_frame = ProjectView { next: k + 1, ..frame };
        assert(pre.stack.last() == frame);
        if k >= deps.len() {
            assert(unresolved_from(deps, resolved, k) == deps.len());
            assert(pre.stack.update(pre.stack.len() - 1, frame) =~= pre.stack);
            assert(units + Seq::<Seq<ModuleView<T>>>::empty() =~= units);
        } else if resolved.contains(deps[k as int].0) {
            lemma_advanced_skips(below, frame, resolved, units);
            self.lemma_dependencies_are_resolved(below, units, next_frame, resolved, depth);
        } else {
            let name = deps[k as int].0;
            let dep = deps[k as int].1;
            let place = location_of(dir, name, dep)->0;
            let marked = resolved.push(name);
            let first = self.project(place, true, marked, depth)->0;
            let rest = self.dependencies(dir, deps, k + 1, first.1, depth)->0;
            assert(unresolved_from(deps, resolved, k) == k);
            assert(pre.stack.update(pre.stack.len() - 1, frame) =~= pre.stack);
            let child = ResolverView {
                resolved: marked,
                stack: below.push(frame).push(entered(place, true)),
                units,
                phase: Phase::Descriptor,
            };
            let load = ResolveActionView::<T>::Load { descriptor: descriptor_of(place) };
            let extra: nat = if dep.path is Some {
                0
            } else if (self.cached)(place) {
                1
            } else {
                2
            };
            let inner = self.steps_of(place, true, marked, depth);
            let later = self.steps_from(dir, deps, k + 1, first.1, depth);
            assert(self.steps_from(dir, deps, k, resolved, depth) == extra + (inner + later));
            assert(self.driven(from.0, from.1, extra) == (child, load)) by {
                if dep.path is Some {
                } else {
                    let probed = stepped(from.0, self.answer(from.1));
                    assert(from.0.stack.last() == frame);
                    assert(self.driven(from.0, from.1, extra) == self.driven(
                        probed.0,
                        probed.1,
                        (extra - 1) as nat,
                    ));
                    if !(self.cached)(place) {
                        let fetched = stepped(probed.0, self.answer(probed.1));
                        assert(probed.0.stack.last() == frame);
                        assert(fetched == (child, load));
                        assert(self.driven(probed.0, probed.1, 1) == self.driven(
                            fetched.0,
                            fetched.1,
                            0,
                        ));
                    }
                }
            }
            self.lemma_driven_add(from.0, from.1, extra, inner + later);
            self.lemma_project_is_resolved(below.push(frame), units, place, true, marked, depth);
            self.lemma_driven_add(child, load, inner, later);
            self.lemma_project_marks(place, true, marked, depth);
            assert(first.1.contains(name)) by {
                assert(marked =~= first.1.subrange(0, marked.len() as int));
                assert(first.1[resolved.len() as int] == marked[resolved.len() as int]);
            }
            let back = ResolverView {
                resolved: first.1,
                stack: below.push(frame),
                units: units + first.0,
                phase: Phase::Descriptor,
            };
            let config = (self.descriptor)(descriptor_of(place));
            let full = ProjectView {
                dir: place,
                is_dep: true,
                package: config.package.name,
                version: config.package.version,
                dependencies: config.dependencies,
                next: config.dependencies.len(),
            };
            let done = ResolverView {
                resolved: first.1,
                stack: below.push(frame).push(full),
                units: units + first.0,
                phase: Phase::Entries,
            };
            assert(done.stack.drop_last() =~= below.push(frame));
            assert(closed(done) == advanced(back));
            lemma_advanced_skips(below, frame, first.1, units + first.0);
            self.lemma_dependencies_are_resolved(below, units + first.0, next_frame, first.1, depth);
            assert((units + first.0) + rest.0 =~= units + (first.0 + rest.0));
        }
    }

    /// The resolver resolves the graph. Where every dependency that can be
    /// reached has sources, and no chain of dependencies is longer than
    /// `depth`, the resolver that is handed what is on disk, step by step,
    /// ends with the units of the project and of everything it depends on:
    /// for each dependency, in the order of the descriptor, the units of its
    /// own dependencies first and its library entry after them, unless its
    /// name was resolved before; and last the entries of the project itself.
    pub proof fn lemma_resolver_resolves(self, dir: Seq<char>, is_dep: bool, depth: nat)
        requires
            self.project(dir, is_dep, Seq::empty(), depth) is Some,
        ensures
            ({
                let found = self.project(dir, is_dep, Seq::empty(), depth)->0;
                let start = started::<T>(dir, is_dep, Seq::empty());
                let end = self.driven(
                    start.0,
                    start.1,
                    self.steps_of(dir, is_dep, Seq::empty(), depth),
                );
                &&& end.1 == ResolveActionView::Done(found.0)
                &&& end.0.resolved == found.1
                &&& end.0.finished()
            }),
    {
        let found = self.project(dir, is_dep, Seq::empty(), depth)->0;
        self.lemma_project_is_resolved(
            Seq::empty(),
            Seq::empty(),
            dir,
            is_dep,
            Seq::empty(),
            depth,
        );
        assert(Seq::<ProjectView>::empty().push(entered(dir, is_dep)) =~= seq![
            entered(dir, is_dep),
        ]);
        assert(Seq::<Seq<ModuleView<T>>>::empty() + found.0 =~= found.0);
    }
}

} // verus!
