//! What holds of every build of a module tree: splicing appends and
//! declares nothing, the builder stays well formed, and the builder that is
//! handed what is on disk ends with the tree of the file.
use crate::ast::{ItemView, ModuleView};
use crate::driver::modules::{
    FrameView,
    ModuleErrorView,
    Presence,
    RequestView,
    TreeActionView,
    TreeBuilderView,
    TreeEventView,
    WaitingView,
    declared_in,
    fallback_of,
    halted,
    lemma_declared_in_push,
    nested,
    primary_of,
    requests_of,
    settled,
    source_file_of,
    spliced,
    started,
    stepped,
};
use crate::paths::{file_name_of, has_stem, joined_path, lemma_join_splits, parent_of, trimmed};
use vstd::prelude::*;

verus! {

/// Every external module is declared by a top-level module of the unit.
pub proof fn lemma_requests_in_range<T>(modules: Seq<ModuleView<T>>)
    ensures
        forall|k: int|
            0 <= k < requests_of(modules).len() ==> 0 <= (#[trigger] requests_of(modules)[k]).module
                < modules.len(),
    decreases modules.len(),
{
    if modules.len() > 0 {
        let head = requests_of(modules.drop_last());
        let tail = declared_in(modules.len() - 1, modules.last().contents);
        lemma_requests_in_range(modules.drop_last());
        lemma_declared_in_module(modules.len() - 1, modules.last().contents);
        assert forall|k: int| 0 <= k < requests_of(modules).len() implies 0 <= (
        #[trigger] requests_of(modules)[k]).module < modules.len() by {
            if k < head.len() {
                assert(requests_of(modules)[k] == head[k]);
            } else {
                assert(requests_of(modules)[k] == tail[k - head.len()]);
            }
        }
    }
}

proof fn lemma_declared_in_module<T>(at: int, items: Seq<ItemView<T>>)
    ensures
        forall|k: int|
            0 <= k < declared_in(at, items).len() ==> (#[trigger] declared_in(at, items)[k]).module
                == at,
    decreases items.len(),
{
    if items.len() > 0 {
        let head = declared_in(at, items.drop_last());
        lemma_declared_in_module(at, items.drop_last());
        assert forall|k: int| 0 <= k < declared_in(at, items).len() implies (
        #[trigger] declared_in(at, items)[k]).module == at by {
            if k < head.len() {
                assert(declared_in(at, items)[k] == head[k]);
            }
        }
    }
}

/// Splicing appends. The declaring module keeps its name and its own items
/// in their order; behind them stand the top-level modules of the target, in
/// their order; every other module of the unit is as it was.
pub proof fn lemma_splice_appends<T>(unit: Seq<ModuleView<T>>, at: int, sub: Seq<ModuleView<T>>)
    requires
        0 <= at < unit.len(),
    ensures
        spliced(unit, at, sub).len() == unit.len(),
        spliced(unit, at, sub)[at].name == unit[at].name,
        spliced(unit, at, sub)[at].contents.len() == unit[at].contents.len() + sub.len(),
        forall|k: int|
            0 <= k < unit[at].contents.len() ==> spliced(unit, at, sub)[at].contents[k]
                == unit[at].contents[k],
        forall|k: int|
            0 <= k < sub.len() ==> spliced(unit, at, sub)[at].contents[unit[at].contents.len() + k]
                == ItemView::Module(sub[k]),
        forall|i: int| 0 <= i < unit.len() && i != at ==> spliced(unit, at, sub)[i] == unit[i],
{
}

/// A file `file` that declares one external module, whose file declares
/// none, is built in three steps: its parsed form is answered with a probe of the two
/// places of that module; what is found there, with the request to parse the
/// file behind it; and the parsed form of that file, with the tree: the unit
/// with the modules of the target appended to the items of the declaring
/// module.
pub proof fn lemma_one_external_module<T>(
    file: Seq<char>,
    unit: Seq<ModuleView<T>>,
    sub: Seq<ModuleView<T>>,
    primary: Presence,
    fallback: Presence,
)
    requires
        requests_of(unit).len() == 1,
        requests_of(sub).len() == 0,
        primary != Presence::Missing || fallback != Presence::Missing,
    ensures
        ({
            let request = requests_of(unit)[0];
            let dir = parent_of(file);
            let begun = TreeBuilderView::<T> {
                stack: Seq::empty(),
                waiting: WaitingView::Source { file },
            };
            let first = stepped(begun, TreeEventView::Parsed(unit));
            let second = stepped(first.0, TreeEventView::Probed { primary, fallback });
            let third = stepped(second.0, TreeEventView::Parsed(sub));
            &&& 0 <= request.module < unit.len()
            &&& first.1 == TreeActionView::<T>::Probe {
                primary: primary_of(dir, request.name),
                fallback: fallback_of(dir, request.name),
            }
            &&& second.1 is Parse
            &&& third.1 == TreeActionView::Done(spliced(unit, request.module, sub))
            &&& third.0 == halted::<T>()
        }),
{
    lemma_requests_in_range(unit);
    let request = requests_of(unit)[0];
    let dir = parent_of(file);
    let frame = FrameView { dir, unit, requests: requests_of(unit), next: 0 };
    let begun = TreeBuilderView::<T> { stack: Seq::empty(), waiting: WaitingView::Source { file } };
    let stack = Seq::<FrameView<T>>::empty().push(frame);
    let first = stepped(begun, TreeEventView::Parsed(unit));
    assert(first == settled(stack));
    assert(first.0.stack == stack);
    let second = stepped(first.0, TreeEventView::Probed { primary, fallback });
    assert(second.0.stack == stack);
    let dir2 = parent_of(second.0.waiting->Source_file);
    let child = FrameView { dir: dir2, unit: sub, requests: requests_of(sub), next: 0 };
    let third = stepped(second.0, TreeEventView::Parsed(sub));
    assert(third == settled(stack.push(child)));
    let merged = FrameView {
        dir,
        unit: spliced(unit, request.module, sub),
        requests: requests_of(unit),
        next: 1,
    };
    assert(stack.push(child).subrange(0, 0).push(merged) =~= seq![merged]);
    assert(settled(stack.push(child)) == settled(seq![merged])) by {
        reveal_with_fuel(settled, 2);
    }
    assert(settled(seq![merged]).1 == TreeActionView::Done(merged.unit));
}

/// Every external module is spliced where it is declared, whatever stands
/// around it. When the builder has asked for the places of a declaration and
/// something is found there, it asks for the file behind it; and when that
/// file declares no external modules itself, its top-level modules are
/// appended to the items of the declaring module, the declaration counts as
/// answered, and the builder goes on from there: with the next declaration
/// of the file if there is one, and with the finished tree if the file was
/// the first and this was its last declaration.
pub proof fn lemma_external_module_is_spliced<T>(
    pre: TreeBuilderView<T>,
    primary: Presence,
    fallback: Presence,
    sub: Seq<ModuleView<T>>,
)
    requires
        pre.waiting == WaitingView::Probe,
        pre.stack.len() > 0,
        0 <= pre.stack.last().next < pre.stack.last().requests.len(),
        requests_of(sub).len() == 0,
        primary != Presence::Missing || fallback != Presence::Missing,
    ensures
        ({
            let top = pre.stack.last();
            let request = top.requests[top.next];
            let asked = stepped(pre, TreeEventView::Probed { primary, fallback });
            let answered = stepped(asked.0, TreeEventView::Parsed(sub));
            let merged = FrameView {
                dir: top.dir,
                unit: spliced(top.unit, request.module, sub),
                requests: top.requests,
                next: top.next + 1,
            };
            &&& asked.1 is Parse
            &&& answered == settled(pre.stack.drop_last().push(merged))
            &&& top.next + 1 < top.requests.len() ==> {
                &&& answered.0.stack == pre.stack.drop_last().push(merged)
                &&& answered.1 == TreeActionView::<T>::Probe {
                    primary: primary_of(top.dir, top.requests[top.next + 1].name),
                    fallback: fallback_of(top.dir, top.requests[top.next + 1].name),
                }
            }
            &&& top.next + 1 == top.requests.len() && pre.stack.len() == 1 ==> answered.1
                == TreeActionView::Done(merged.unit)
        }),
{
    let top = pre.stack.last();
    let request = top.requests[top.next];
    let asked = stepped(pre, TreeEventView::Probed { primary, fallback });
    assert(asked.0.stack == pre.stack);
    let file = asked.0.waiting->Source_file;
    let child = FrameView { dir: parent_of(file), unit: sub, requests: requests_of(sub), next: 0 };
    let answered = stepped(asked.0, TreeEventView::Parsed(sub));
    let stack = pre.stack.push(child);
    assert(answered == settled(stack));
    let merged = FrameView {
        dir: top.dir,
        unit: spliced(top.unit, request.module, sub),
        requests: top.requests,
        next: top.next + 1,
    };
    assert(stack[stack.len() - 2] == top);
    assert(stack.subrange(0, stack.len() - 2) =~= pre.stack.drop_last());
    assert(settled(stack) == settled(pre.stack.drop_last().push(merged)));
}

/// An external module of which neither place holds anything fails the build
/// with an error that names the module and both places, and so does the line
/// shown for it.
pub proof fn lemma_missing_module_fails<T>(pre: TreeBuilderView<T>)
    requires
        pre.waiting == WaitingView::Probe,
        pre.stack.len() > 0,
        0 <= pre.stack.last().next < pre.stack.last().requests.len(),
    ensures
        ({
            let top = pre.stack.last();
            let name = top.requests[top.next].name;
            let error = ModuleErrorView::NotFound {
                name,
                primary: primary_of(top.dir, name),
                fallback: fallback_of(top.dir, name),
            };
            &&& stepped(
                pre,
                TreeEventView::Probed { primary: Presence::Missing, fallback: Presence::Missing },
            ) == (halted::<T>(), TreeActionView::<T>::Fail(error))
            &&& error.message() == "External module '"@ + name + "' not found at "@ + primary_of(
                top.dir,
                name,
            ) + " or "@ + fallback_of(top.dir, name)
        }),
{
}

proof fn lemma_declared_in_nested<T>(at: int, items: Seq<ItemView<T>>, sub: Seq<ModuleView<T>>)
    ensures
        declared_in(at, items + nested(sub)) == declared_in(at, items),
    decreases sub.len(),
{
    if sub.len() == 0 {
        assert(items + nested(sub) =~= items);
    } else {
        let shorter = sub.drop_last();
        lemma_declared_in_nested(at, items, shorter);
        assert(items + nested(sub) =~= (items + nested(shorter)).push(ItemView::Module(sub.last())));
        lemma_declared_in_push(at, items + nested(shorter), ItemView::Module(sub.last()));
        assert(declared_in(at, items + nested(shorter)) + Seq::<RequestView>::empty()
            =~= declared_in(at, items + nested(shorter)));
    }
}

/// Splicing declares nothing: a unit declares the same external modules
/// after a splice as before it, so no declaration is answered twice.
pub proof fn lemma_splice_keeps_requests<T>(
    unit: Seq<ModuleView<T>>,
    at: int,
    sub: Seq<ModuleView<T>>,
)
    ensures
        requests_of(spliced(unit, at, sub)) == requests_of(unit),
    decreases unit.len(),
{
    if 0 <= at < unit.len() {
        let after = spliced(unit, at, sub);
        if at == unit.len() - 1 {
            assert(after.drop_last() =~= unit.drop_last());
            lemma_declared_in_nested(at, unit[at].contents, sub);
        } else {
            lemma_splice_keeps_requests(unit.drop_last(), at, sub);
            assert(after.drop_last() =~= spliced(unit.drop_last(), at, sub));
            assert(after.last() == unit.last());
        }
    }
}

impl<T> FrameView<T> {
    /// The frame keeps the external modules that its unit declares, and has
    /// answered no more of them than there are.
    pub open spec fn well_formed(self) -> bool {
        self.requests == requests_of(self.unit) && 0 <= self.next <= self.requests.len()
    }
}

impl<T> TreeBuilderView<T> {
    /// Every frame is well formed; every frame but the top has an external
    /// module that it waits for; and what the builder waits for goes with the
    /// stack.
    pub open spec fn well_formed(self) -> bool {
        &&& forall|i: int| 0 <= i < self.stack.len() ==> (#[trigger] self.stack[i]).well_formed()
        &&& forall|i: int|
            0 <= i < self.stack.len() - 1 ==> (#[trigger] self.stack[i]).next
                < self.stack[i].requests.len()
        &&& match self.waiting {
            WaitingView::Source { .. } => self.stack.len() > 0 ==> self.stack.last().next
                < self.stack.last().requests.len(),
            WaitingView::Probe => self.stack.len() > 0 && self.stack.last().next
                < self.stack.last().requests.len(),
            WaitingView::Finished => self.stack.len() == 0,
        }
    }

    /// Whether `event` answers what the builder waits for.
    pub open spec fn expects(self, event: TreeEventView<T>) -> bool {
        match (self.waiting, event) {
            (WaitingView::Source { .. }, TreeEventView::Parsed(_)) => true,
            (WaitingView::Source { .. }, TreeEventView::Rejected(_)) => true,
            (WaitingView::Probe, TreeEventView::Probed { .. }) => true,
            _ => false,
        }
    }
}

proof fn lemma_settled_well_formed<T>(stack: Seq<FrameView<T>>)
    requires
        stack.len() > 0,
        forall|i: int| 0 <= i < stack.len() ==> (#[trigger] stack[i]).well_formed(),
        forall|i: int| 0 <= i < stack.len() - 1 ==> (#[trigger] stack[i]).next < stack[i].requests.len(),
    ensures
        settled(stack).0.well_formed(),
        settled(stack).1 is Probe || settled(stack).1 is Done,
    decreases stack.len(),
{
    let top = stack.last();
    if !(0 <= top.next < top.requests.len()) && stack.len() > 1 {
        let parent = stack[stack.len() - 2];
        assert(parent.well_formed());
        assert(parent.next < parent.requests.len());
        let merged = FrameView {
            dir: parent.dir,
            unit: spliced(parent.unit, parent.requests[parent.next].module, top.unit),
            requests: parent.requests,
            next: parent.next + 1,
        };
        lemma_splice_keeps_requests(parent.unit, parent.requests[parent.next].module, top.unit);
        let rest = stack.subrange(0, stack.len() - 2).push(merged);
        assert forall|i: int| 0 <= i < rest.len() implies (#[trigger] rest[i]).well_formed() by {
            if i < rest.len() - 1 {
                assert(rest[i] == stack[i]);
            }
        }
        assert forall|i: int| 0 <= i < rest.len() - 1 implies (#[trigger] rest[i]).next
            < rest[i].requests.len() by {
            assert(rest[i] == stack[i]);
        }
        lemma_settled_well_formed(rest);
    }
}

/// The builder stays well formed from step to step, and in a well-formed
/// builder an event that answers what the builder waits for is never out of
/// turn: the build goes on, or it ends with the tree, with the failure of a
/// file that does not parse, or with an external module that is not found.
pub proof fn lemma_step_keeps_well_formed<T>(pre: TreeBuilderView<T>, event: TreeEventView<T>)
    requires
        pre.well_formed(),
    ensures
        stepped(pre, event).0.well_formed(),
        pre.expects(event) ==> stepped(pre, event).1 != TreeActionView::<T>::Fail(
            ModuleErrorView::OutOfTurn,
        ),
{
    match (pre.waiting, event) {
        (WaitingView::Source { file }, TreeEventView::Parsed(unit)) => {
            let frame = FrameView { dir: parent_of(file), unit, requests: requests_of(unit), next: 0 };
            let stack = pre.stack.push(frame);
            assert forall|i: int| 0 <= i < stack.len() implies (#[trigger] stack[i]).well_formed() by {
                if i < pre.stack.len() {
                    assert(stack[i] == pre.stack[i]);
                }
            }
            assert forall|i: int| 0 <= i < stack.len() - 1 implies (#[trigger] stack[i]).next
                < stack[i].requests.len() by {
                assert(stack[i] == pre.stack[i]);
            }
            lemma_settled_well_formed(stack);
        },
        _ => {},
    }
}

/// The builder is well formed when it starts.
pub proof fn lemma_started_well_formed<T>(path: Seq<char>, is_dir: bool)
    ensures
        started::<T>(path, is_dir).0.well_formed(),
{
}

proof fn lemma_no_separator(text: Seq<char>)
    requires
        forall|i: int| 0 <= i < text.len() ==> text[i] != '/',
    ensures
        !text.contains('/'),
{
    if text.contains('/') {
        let i = choose|i: int| 0 <= i < text.len() && text[i] == '/';
        assert(text[i] != '/');
    }
}

/// Where the file of an external module stands. Declared in a file of the
/// directory `dir`, a module `name` that is a file at its first place stands
/// in `dir` itself, under `<name>.ext`; one that is a file at its second
/// place stands in the directory `<dir>/<name>`; and one that is a directory
/// at its first place stands inside that directory. The external modules of
/// its own are looked for there.
pub proof fn lemma_external_module_dirs(dir: Seq<char>, name: Seq<char>)
    requires
        dir.len() > 0,
        trimmed(dir) == dir,
        has_stem(name),
        !name.contains('/'),
    ensures
        file_name_of(primary_of(dir, name)) == name + ".ext"@,
        parent_of(source_file_of(primary_of(dir, name), false)) == dir,
        parent_of(source_file_of(fallback_of(dir, name), false)) == joined_path(dir, name),
        parent_of(source_file_of(primary_of(dir, name), true)) == primary_of(dir, name),
{
    reveal_strlit(".ext");
    reveal_strlit("mod.ext");
    let file = name + ".ext"@;
    let inside = "mod.ext"@;
    assert forall|i: int| 0 <= i < file.len() implies file[i] != '/' by {
        if i < name.len() {
            assert(name.contains(name[i]));
        }
    }
    lemma_no_separator(file);
    lemma_no_separator(inside);
    assert(has_stem(file)) by {
        assert(file.len() >= 5);
        assert(seq!['.'].len() == 1);
        assert(seq!['.', '.'].len() == 2);
    }
    assert(has_stem(inside)) by {
        assert(inside.len() == 7);
        assert(seq!['.'].len() == 1);
        assert(seq!['.', '.'].len() == 2);
    }
    lemma_join_splits(dir, file);
    lemma_join_splits(dir, name);
    lemma_join_splits(joined_path(dir, name), inside);
    lemma_join_splits(primary_of(dir, name), inside);
}

/// What the builder can learn of the files it asks for: what each path
/// leads to, and the parsed form of each file.
pub struct Sources<T> {
    pub presence: spec_fn(Seq<char>) -> Presence,
    pub parsed: spec_fn(Seq<char>) -> Seq<ModuleView<T>>,
}

impl<T> Sources<T> {
    /// The file of the external module `name` declared in a file of the
    /// directory `dir`, if it is found.
    pub open spec fn found(self, dir: Seq<char>, name: Seq<char>) -> Option<Seq<char>> {
        let first = (self.presence)(primary_of(dir, name));
        let second = (self.presence)(fallback_of(dir, name));
        if first != Presence::Missing {
            Some(source_file_of(primary_of(dir, name), first == Presence::Directory))
        } else if second != Presence::Missing {
            Some(source_file_of(fallback_of(dir, name), second == Presence::Directory))
        } else {
            None
        }
    }

    /// What the caller hands back for `action`.
    pub open spec fn answer(self, action: TreeActionView<T>) -> TreeEventView<T> {
        match action {
            TreeActionView::Parse { file } => TreeEventView::Parsed((self.parsed)(file)),
            TreeActionView::Probe { primary, fallback } => TreeEventView::Probed {
                primary: (self.presence)(primary),
                fallback: (self.presence)(fallback),
            },
            _ => TreeEventView::Probed { primary: Presence::Missing, fallback: Presence::Missing },
        }
    }

    /// The builder after at most `steps` steps, each on the answer to the
    /// action before it; it stands still once an action asks for nothing.
    pub open spec fn driven(
        self,
        state: TreeBuilderView<T>,
        action: TreeActionView<T>,
        steps: nat,
    ) -> (TreeBuilderView<T>, TreeActionView<T>)
        decreases steps,
    {
        if steps == 0 || !(action is Parse || action is Probe) {
            (state, action)
        } else {
            let next = stepped(state, self.answer(action));
            self.driven(next.0, next.1, (steps - 1) as nat)
        }
    }

    /// The tree of `file`, if every external module that can be reached from
    /// it is found within `depth` files of it: the parsed form of the file,
    /// with the tree of each external module that its top-level modules
    /// declare spliced in at the declaring module, in the order of the
    /// declarations.
    pub open spec fn tree_of(self, file: Seq<char>, depth: nat) -> Option<Seq<ModuleView<T>>>
        decreases depth, 0nat,
    {
        if depth == 0 {
            None
        } else {
            let unit = (self.parsed)(file);
            self.spliced_from(parent_of(file), unit, requests_of(unit), 0, (depth - 1) as nat)
        }
    }

    /// `unit`, a file of the directory `dir`, with the trees of the external
    /// modules `requests` spliced in from the `k`-th on.
    pub open spec fn spliced_from(
        self,
        dir: Seq<char>,
        unit: Seq<ModuleView<T>>,
        requests: Seq<RequestView>,
        k: nat,
        depth: nat,
    ) -> Option<Seq<ModuleView<T>>>
        decreases depth, requests.len() - k + 1,
    {
        if k >= requests.len() {
            Some(unit)
        } else {
            match self.found(dir, requests[k as int].name) {
                None => None,
                Some(file) => match self.tree_of(file, depth) {
                    None => None,
                    Some(sub) => self.spliced_from(
                        dir,
                        spliced(unit, requests[k as int].module, sub),
                        requests,
                        k + 1,
                        depth,
                    ),
                },
            }
        }
    }

    /// The steps that building the tree of `file` takes.
    pub open spec fn steps_of(self, file: Seq<char>, depth: nat) -> nat
        decreases depth, 0nat,
    {
        if depth == 0 {
            0
        } else {
            1 + self.steps_from(
                parent_of(file),
                requests_of((self.parsed)(file)),
                0,
                (depth - 1) as nat,
            )
        }
    }

    /// The steps that splicing in the external modules `requests` takes, from
    /// the `k`-th on.
    pub open spec fn steps_from(self, dir: Seq<char>, requests: Seq<RequestView>, k: nat, depth: nat) -> nat
        decreases depth, requests.len() - k + 1,
    {
        if k >= requests.len() {
            0
        } else {
            match self.found(dir, requests[k as int].name) {
                None => 0,
                Some(file) => 1 + self.steps_of(file, depth) + self.steps_from(
                    dir,
                    requests,
                    k + 1,
                    depth,
                ),
            }
        }
    }
}

impl<T> Sources<T> {
    proof fn lemma_driven_add(
        self,
        state: TreeBuilderView<T>,
        action: TreeActionView<T>,
        a: nat,
        b: nat,
    )
        ensures
            self.driven(state, action, a + b) == self.driven(
                self.driven(state, action, a).0,
                self.driven(state, action, a).1,
                b,
            ),
        decreases a,
    {
        if a > 0 && (action is Parse || action is Probe) {
            let next = stepped(state, self.answer(action));
            self.lemma_driven_add(next.0, next.1, (a - 1) as nat, b);
            assert((a + b - 1) as nat == (a - 1) as nat + b);
        }
    }

    proof fn lemma_tree_is_built(self, below: Seq<FrameView<T>>, file: Seq<char>, depth: nat)
        requires
            self.tree_of(file, depth) is Some,
            below.len() > 0 ==> 0 <= below.last().next < below.last().requests.len(),
        ensures
            ({
                let requests = requests_of((self.parsed)(file));
                let done = FrameView {
                    dir: parent_of(file),
                    unit: self.tree_of(file, depth)->0,
                    requests,
                    next: requests.len() as int,
                };
                self.driven(
                    TreeBuilderView { stack: below, waiting: WaitingView::Source { file } },
                    TreeActionView::Parse { file },
                    self.steps_of(file, depth),
                ) == settled(below.push(done))
            }),
        decreases depth, 0nat,
    {
        let unit = (self.parsed)(file);
        let requests = requests_of(unit);
        let frame = FrameView { dir: parent_of(file), unit, requests, next: 0 };
        let begun = TreeBuilderView { stack: below, waiting: WaitingView::Source { file } };
        let first = stepped(begun, self.answer(TreeActionView::Parse { file }));
        assert(first == settled(below.push(frame)));
        let rest = self.steps_from(parent_of(file), requests, 0, (depth - 1) as nat);
        self.lemma_modules_are_spliced(below, parent_of(file), unit, requests, 0, (depth - 1) as nat);
        assert(self.steps_of(file, depth) == 1 + rest);
        assert(self.driven(begun, TreeActionView::Parse { file }, 1 + rest) == self.driven(
            first.0,
            first.1,
            rest,
        ));
    }

    proof fn lemma_modules_are_spliced(
        self,
        below: Seq<FrameView<T>>,
        dir: Seq<char>,
        unit: Seq<ModuleView<T>>,
        requests: Seq<RequestView>,
        k: nat,
        depth: nat,
    )
        requires
            k <= requests.len(),
            self.spliced_from(dir, unit, requests, k, depth) is Some,
        ensures
            ({
                let frame = FrameView { dir, unit, requests, next: k as int };
                let done = FrameView {
                    dir,
                    unit: self.spliced_from(dir, unit, requests, k, depth)->0,
                    requests,
                    next: requests.len() as int,
                };
                let from = settled(below.push(frame));
                self.driven(from.0, from.1, self.steps_from(dir, requests, k, depth)) == settled(
                    below.push(done),
                )
            }),
        decreases depth, requests.len() - k + 1,
    {
        if k < requests.len() {
            let request = requests[k as int];
            let frame = FrameView { dir, unit, requests, next: k as int };
            let stack = below.push(frame);
            let from = settled(stack);
            assert(stack.last() == frame);
            assert(from.0 == TreeBuilderView { stack, waiting: WaitingView::Probe });
            let file = self.found(dir, request.name)->0;
            let sub = self.tree_of(file, depth)->0;
            let asked = stepped(from.0, self.answer(from.1));
            assert(asked == (
                TreeBuilderView { stack, waiting: WaitingView::Source { file } },
                TreeActionView::<T>::Parse { file },
            ));
            self.lemma_tree_is_built(stack, file, depth);
            let child = FrameView {
                dir: parent_of(file),
                unit: sub,
                requests: requests_of((self.parsed)(file)),
                next: requests_of((self.parsed)(file)).len() as int,
            };
            let merged = FrameView {
                dir,
                unit: spliced(unit, request.module, sub),
                requests,
                next: k as int + 1,
            };
            let above = stack.push(child);
            assert(above.last() == child);
            assert(above[above.len() - 2] == frame);
            assert(above.subrange(0, above.len() - 2) =~= below);
            assert(settled(above) == settled(below.push(merged)));
            self.lemma_modules_are_spliced(below, dir, merged.unit, requests, k + 1, depth);
            let inner = self.steps_of(file, depth);
            let rest = self.steps_from(dir, requests, k + 1, depth);
            self.lemma_driven_add(asked.0, asked.1, inner, rest);
            assert(self.steps_from(dir, requests, k, depth) == 1 + inner + rest);
            assert(self.driven(from.0, from.1, 1 + inner + rest) == self.driven(
                asked.0,
                asked.1,
                inner + rest,
            ));
        }
    }

    /// The builder builds the tree. Where every external module that can be
    /// reached from the file behind `path` is found, within `depth` files of
    /// it, the builder that is handed what is on disk, step by step, ends
    /// with the tree of that file: its parsed form with the tree of every
    /// external module spliced in where it is declared.
    pub proof fn lemma_builder_builds_the_tree(self, path: Seq<char>, is_dir: bool, depth: nat)
        requires
            self.tree_of(source_file_of(path, is_dir), depth) is Some,
        ensures
            self.driven(
                started::<T>(path, is_dir).0,
                started::<T>(path, is_dir).1,
                self.steps_of(source_file_of(path, is_dir), depth),
            ) == (
                halted::<T>(),
                TreeActionView::Done(self.tree_of(source_file_of(path, is_dir), depth)->0),
            ),
    {
        let file = source_file_of(path, is_dir);
        self.lemma_tree_is_built(Seq::empty(), file, depth);
        let requests = requests_of((self.parsed)(file));
        let done = FrameView {
            dir: parent_of(file),
            unit: self.tree_of(file, depth)->0,
            requests,
            next: requests.len() as int,
        };
        assert(Seq::<FrameView<T>>::empty().push(done).last() == done);
        assert(settled(Seq::<FrameView<T>>::empty().push(done)) == (
            halted::<T>(),
            TreeActionView::Done(done.unit),
        ));
    }
}

} // verus!
