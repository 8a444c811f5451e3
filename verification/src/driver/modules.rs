//! Assembly of the module tree of one source file.
//!
//! A declaration of an external module names a module whose body stands in
//! another file: `<name>.ext` beside the declaring file, or else
//! `<name>/mod.ext`. Building the tree of a file means parsing it, finding
//! the file behind each such declaration of its top-level modules, building
//! that file's tree in turn, and appending its top-level modules to the items
//! of the declaring module.
//!
//! Reading and parsing files is the caller's part. The builder is a step
//! function: it is handed what the last action brought and answers with the
//! next action.
use crate::ast::{lemma_module_view, CompilationUnit, ItemView, ModuleDefItem, ModuleView};
use crate::parser::error::{Error, ErrorView};
use crate::paths::{join, joined_path, parent, parent_of};
use vstd::prelude::*;
use vstd::string::*;

pub mod laws;

verus! {

/// What a path leads to.
#[derive(Clone, Copy, Debug, PartialEq, Eq, Structural)]
pub enum Presence {
    Missing,
    File,
    Directory,
}

/// A declaration of an external module: the index of the top-level module
/// that declares it, and the name it declares.
#[derive(Clone, Debug, PartialEq, Eq)]
pub struct Request {
    pub module: usize,
    pub name: String,
}

/// The mathematical value of a [`Request`].
pub struct RequestView {
    pub module: int,
    pub name: Seq<char>,
}

impl View for Request {
    type V = RequestView;

    open spec fn view(&self) -> RequestView {
        RequestView { module: self.module as int, name: self.name@ }
    }
}

/// Why a module tree cannot be built.
#[derive(Clone, Debug, PartialEq, Eq)]
pub enum ModuleError {
    /// Neither file that could hold the external module `name` exists.
    NotFound { name: String, primary: String, fallback: String },
    /// The builder was handed an event that answers no action of its own.
    OutOfTurn,
}

/// The mathematical value of a [`ModuleError`].
pub enum ModuleErrorView {
    NotFound { name: Seq<char>, primary: Seq<char>, fallback: Seq<char> },
    OutOfTurn,
}

impl View for ModuleError {
    type V = ModuleErrorView;

    open spec fn view(&self) -> ModuleErrorView {
        match *self {
            ModuleError::NotFound { name, primary, fallback } => ModuleErrorView::NotFound {
                name: name@,
                primary: primary@,
                fallback: fallback@,
            },
            ModuleError::OutOfTurn => ModuleErrorView::OutOfTurn,
        }
    }
}

impl ModuleErrorView {
    pub open spec fn message(self) -> Seq<char> {
        match self {
            ModuleErrorView::NotFound { name, primary, fallback } => "External module '"@ + name
                + "' not found at "@ + primary + " or "@ + fallback,
            ModuleErrorView::OutOfTurn => "event out of turn"@,
        }
    }
}

impl ModuleError {
    /// The line shown to the user.
    pub fn message(&self) -> (line: String)
        ensures
            line@ == self@.message(),
    {
        match self {
            ModuleError::NotFound { name, primary, fallback } => {
                let mut line = String::from_str("External module '");
                line.append(name.as_str());
                line.append("' not found at ");
                line.append(primary.as_str());
                line.append(" or ");
                line.append(fallback.as_str());
                line
            },
            ModuleError::OutOfTurn => String::from_str("event out of turn"),
        }
    }
}

/// The file that is read for `path`: a directory stands for the file
/// `mod.ext` inside it.
pub open spec fn source_file_of(path: Seq<char>, is_dir: bool) -> Seq<char> {
    if is_dir {
        joined_path(path, "mod.ext"@)
    } else {
        path
    }
}

/// The first place of the external module `name` declared in a file of the
/// directory `dir`.
pub open spec fn primary_of(dir: Seq<char>, name: Seq<char>) -> Seq<char> {
    joined_path(dir, name + ".ext"@)
}

/// The second place of the external module `name` declared in a file of the
/// directory `dir`.
pub open spec fn fallback_of(dir: Seq<char>, name: Seq<char>) -> Seq<char> {
    joined_path(joined_path(dir, name), "mod.ext"@)
}

/// The modules `modules` as items of a module.
pub open spec fn nested<T>(modules: Seq<ModuleView<T>>) -> Seq<ItemView<T>> {
    Seq::new(modules.len(), |i: int| ItemView::Module(modules[i]))
}

/// `unit` with the modules of `sub` appended, as nested modules, to the items
/// of its module `at`. Nothing else changes, and nothing at all where `unit`
/// has no module `at`.
pub open spec fn spliced<T>(unit: Seq<ModuleView<T>>, at: int, sub: Seq<ModuleView<T>>) -> Seq<
    ModuleView<T>,
> {
    if 0 <= at < unit.len() {
        unit.update(
            at,
            ModuleView { name: unit[at].name, contents: unit[at].contents + nested(sub) },
        )
    } else {
        unit
    }
}

/// The external modules that `items`, the items of the top-level module `at`,
/// declare, in order.
pub open spec fn declared_in<T>(at: int, items: Seq<ItemView<T>>) -> Seq<RequestView>
    decreases items.len(),
{
    if items.len() == 0 {
        Seq::empty()
    } else {
        declared_in(at, items.drop_last()) + (match items.last() {
            ItemView::ExternalModule(name) => seq![RequestView { module: at, name }],
            _ => Seq::empty(),
        })
    }
}

/// The external modules that the top-level modules `modules` declare, module
/// by module and in the order of their items.
pub open spec fn requests_of<T>(modules: Seq<ModuleView<T>>) -> Seq<RequestView>
    decreases modules.len(),
{
    if modules.len() == 0 {
        Seq::empty()
    } else {
        requests_of(modules.drop_last()) + declared_in(
            modules.len() - 1,
            modules.last().contents,
        )
    }
}

/// The mathematical values of requests, in order.
pub open spec fn request_views(requests: Seq<Request>) -> Seq<RequestView> {
    Seq::new(requests.len(), |i: int| requests[i]@)
}

/// The file that is read for `path`.
pub fn source_file(path: &str, is_dir: bool) -> (file: String)
    ensures
        file@ == source_file_of(path@, is_dir),
{
    if is_dir {
        join(path, "mod.ext")
    } else {
        path.to_owned()
    }
}

/// The two places of the external module `name` declared in a file of the
/// directory `dir`, the first to look at first.
pub fn candidates(dir: &str, name: &str) -> (places: (String, String))
    ensures
        places.0@ == primary_of(dir@, name@),
        places.1@ == fallback_of(dir@, name@),
{
    let mut file = name.to_owned();
    file.append(".ext");
    let below = join(dir, name);
    (join(dir, file.as_str()), join(below.as_str(), "mod.ext"))
}

/// The place at which the external module `name` is found, and what is
/// there: the first place where something is, else the second. Where nothing
/// is at either, the module is not found, and the error names it and both
/// places.
pub fn locate(dir: &str, name: &str, primary: Presence, fallback: Presence) -> (found: Result<
    (String, Presence),
    ModuleError,
>)
    ensures
        match found {
            Ok((path, presence)) => if primary != Presence::Missing {
                path@ == primary_of(dir@, name@) && presence == primary
            } else {
                fallback != Presence::Missing && path@ == fallback_of(dir@, name@) && presence
                    == fallback
            },
            Err(e) => {
                &&& primary == Presence::Missing
                &&& fallback == Presence::Missing
                &&& e@ == ModuleErrorView::NotFound {
                    name: name@,
                    primary: primary_of(dir@, name@),
                    fallback: fallback_of(dir@, name@),
                }
            },
        },
{
    let (first, second) = candidates(dir, name);
    match primary {
        Presence::Missing => match fallback {
            Presence::Missing => Err(
                ModuleError::NotFound { name: name.to_owned(), primary: first, fallback: second },
            ),
            _ => Ok((second, fallback)),
        },
        _ => Ok((first, primary)),
    }
}

/// The external modules that one more item declares.
pub proof fn lemma_declared_in_push<T>(at: int, items: Seq<ItemView<T>>, item: ItemView<T>)
    ensures
        declared_in(at, items.push(item)) == declared_in(at, items) + (match item {
            ItemView::ExternalModule(name) => seq![RequestView { module: at, name }],
            _ => Seq::empty(),
        }),
{
    assert(items.push(item).drop_last() =~= items);
}

proof fn lemma_requests_of_push<T>(modules: Seq<ModuleView<T>>, module: ModuleView<T>)
    ensures
        requests_of(modules.push(module)) == requests_of(modules) + declared_in(
            modules.len() as int,
            module.contents,
        ),
{
    assert(modules.push(module).drop_last() =~= modules);
}

/// The external modules that the top-level modules of `unit` declare.
pub fn external_requests<T>(unit: &CompilationUnit<T>) -> (requests: Vec<Request>)
    ensures
        request_views(requests@) == requests_of(unit@),
{
    let mut requests: Vec<Request> = Vec::new();
    let mut i: usize = 0;
    assert(unit@.subrange(0, 0) =~= Seq::empty());
    assert(request_views(requests@) =~= Seq::empty());
    while i < unit.modules.len()
        invariant
            i <= unit.modules.len(),
            request_views(requests@) == requests_of(unit@.subrange(0, i as int)),
        decreases unit.modules.len() - i,
    {
        let module = &unit.modules[i];
        let ghost before = request_views(requests@);
        let ghost items = module@.contents;
        let mut j: usize = 0;
        proof {
            lemma_module_view(*module);
        }
        assert(items.subrange(0, 0) =~= Seq::empty());
        assert(before + declared_in(i as int, items.subrange(0, 0)) =~= before);
        while j < module.contents.len()
            invariant
                j <= module.contents.len(),
                items == module@.contents,
                items.len() == module.contents.len(),
                forall|k: int|
                    0 <= k < module.contents@.len() ==> items[k] == (#[trigger] module.contents@[k])@,
                request_views(requests@) == before + declared_in(i as int, items.subrange(0, j as int)),
            decreases module.contents.len() - j,
        {
            let ghost seen = items.subrange(0, j as int);
            proof {
                assert(items.subrange(0, j + 1) =~= seen.push(items[j as int]));
                lemma_declared_in_push(i as int, seen, items[j as int]);
                assert(items[j as int] == module.contents[j as int]@);
            }
            match &module.contents[j] {
                ModuleDefItem::ExternalModule(decl) => {
                    let ghost old_views = request_views(requests@);
                    requests.push(Request { module: i, name: decl.name.clone() });
                    assert(request_views(requests@) =~= old_views.push(
                        RequestView { module: i as int, name: decl.name@ },
                    ));
                    assert(request_views(requests@) =~= before + declared_in(
                        i as int,
                        items.subrange(0, j + 1),
                    ));
                },
                _ => {
                    assert(request_views(requests@) =~= before + declared_in(
                        i as int,
                        items.subrange(0, j + 1),
                    ));
                },
            }
            j += 1;
        }
        proof {
            assert(items.subrange(0, j as int) =~= items);
            assert(unit@.subrange(0, i + 1) =~= unit@.subrange(0, i as int).push(unit@[i as int]));
            lemma_requests_of_push(unit@.subrange(0, i as int), unit@[i as int]);
            assert(unit@[i as int] == module@);
        }
        i += 1;
    }
    assert(unit@.subrange(0, i as int) =~= unit@);
    requests
}

/// The elements of `v` in reverse.
fn reversed<E>(v: Vec<E>) -> (r: Vec<E>)
    ensures
        r@ == v@.reverse(),
{
    let mut v = v;
    let ghost original = v@;
    let mut r: Vec<E> = Vec::new();
    while v.len() > 0
        invariant
            v@.len() + r@.len() == original.len(),
            v@ == original.subrange(0, v@.len() as int),
            forall|k: int| 0 <= k < r@.len() ==> r@[k] == original[original.len() - 1 - k],
        decreases v.len(),
    {
        let last = v.pop().unwrap();
        r.push(last);
    }
    assert(r@ =~= original.reverse());
    r
}

/// Appends the top-level modules of `sub`, as nested modules and in their
/// order, to the items of the module `at` of `unit`.
pub fn splice<T>(unit: &mut CompilationUnit<T>, at: usize, sub: CompilationUnit<T>)
    ensures
        final(unit)@ == spliced(old(unit)@, at as int, sub@),
{
    if at >= unit.modules.len() {
        return ;
    }
    let ghost before = unit@;
    let ghost added = sub@;
    let ghost modules = sub.modules@;
    let mut rest = reversed(sub.modules);
    let mut target = unit.modules.remove(at);
    let ghost shell = unit.modules@;
    let ghost original = target;
    while rest.len() > 0
        invariant
            rest@.len() <= modules.len(),
            forall|k: int| 0 <= k < rest@.len() ==> rest@[k] == modules[modules.len() - 1 - k],
            target.name == original.name,
            target.contents@.len() == original.contents@.len() + modules.len() - rest@.len(),
            forall|k: int|
                0 <= k < original.contents@.len() ==> target.contents@[k] == original.contents@[k],
            forall|k: int|
                0 <= k < modules.len() - rest@.len() ==> target.contents@[original.contents@.len() + k]
                    == ModuleDefItem::Module(modules[k]),
        decreases rest.len(),
    {
        let module = rest.pop().unwrap();
        target.contents.push(ModuleDefItem::Module(module));
    }
    proof {
        lemma_module_view(original);
        lemma_module_view(target);
        assert(original@ == before[at as int]);
        assert(target@.contents =~= original@.contents + nested(added)) by {
            assert forall|k: int| 0 <= k < target@.contents.len() implies target@.contents[k] == (
            original@.contents + nested(added))[k] by {
                if k >= original.contents@.len() {
                    let d = k - original.contents@.len();
                    assert(target.contents@[k] == ModuleDefItem::Module(modules[d]));
                    assert(added[d] == modules[d]@);
                }
            }
        }
    }
    unit.modules.insert(at, target);
    assert(unit@ =~= spliced(before, at as int, added)) by {
        assert(unit.modules@ == shell.insert(at as int, target));
        assert forall|i: int| 0 <= i < before.len() implies unit@[i] == spliced(
            before,
            at as int,
            added,
        )[i] by {
            if i < at {
                assert(unit.modules@[i] == old(unit).modules@[i]);
            } else if i > at {
                assert(unit.modules@[i] == old(unit).modules@[i]);
            }
        }
    }
}

/// A file whose tree is being built: the directory it stands in, what has
/// been assembled of it, the external modules its top-level modules declare,
/// and how many of them have been spliced in.
#[derive(Debug, PartialEq, Eq)]
pub struct Frame<T> {
    pub dir: String,
    pub unit: CompilationUnit<T>,
    pub requests: Vec<Request>,
    pub next: usize,
}

/// The mathematical value of a [`Frame`].
pub struct FrameView<T> {
    pub dir: Seq<char>,
    pub unit: Seq<ModuleView<T>>,
    pub requests: Seq<RequestView>,
    pub next: int,
}

impl<T> View for Frame<T> {
    type V = FrameView<T>;

    open spec fn view(&self) -> FrameView<T> {
        FrameView {
            dir: self.dir@,
            unit: self.unit@,
            requests: request_views(self.requests@),
            next: self.next as int,
        }
    }
}

/// What the builder waits for.
#[derive(Clone, Debug, PartialEq, Eq)]
pub enum Waiting {
    /// The parsed form of `file`.
    Source { file: String },
    /// What is at the two places of the next external module.
    Probe,
    /// Nothing: the tree is built, or building it has failed.
    Finished,
}

/// The mathematical value of [`Waiting`].
pub enum WaitingView {
    Source { file: Seq<char> },
    Probe,
    Finished,
}

impl View for Waiting {
    type V = WaitingView;

    open spec fn view(&self) -> WaitingView {
        match *self {
            Waiting::Source { file } => WaitingView::Source { file: file@ },
            Waiting::Probe => WaitingView::Probe,
            Waiting::Finished => WaitingView::Finished,
        }
    }
}

/// The state of building one tree. The files whose trees are under way are
/// stacked, the declaring file below the file it waits for.
#[derive(Debug, PartialEq, Eq)]
pub struct TreeBuilder<T> {
    pub stack: Vec<Frame<T>>,
    pub waiting: Waiting,
}

/// The mathematical value of a [`TreeBuilder`].
pub struct TreeBuilderView<T> {
    pub stack: Seq<FrameView<T>>,
    pub waiting: WaitingView,
}

/// The mathematical values of frames, in order.
pub open spec fn frame_views<T>(frames: Seq<Frame<T>>) -> Seq<FrameView<T>> {
    Seq::new(frames.len(), |i: int| frames[i]@)
}

impl<T> View for TreeBuilder<T> {
    type V = TreeBuilderView<T>;

    open spec fn view(&self) -> TreeBuilderView<T> {
        TreeBuilderView { stack: frame_views(self.stack@), waiting: self.waiting@ }
    }
}

/// What the caller did for the builder.
#[derive(Debug, PartialEq, Eq)]
pub enum TreeEvent<T> {
    /// The file was read and parsed.
    Parsed(CompilationUnit<T>),
    /// The file was read, and the front end failed on it.
    Rejected(Error),
    /// The two places were looked at.
    Probed { primary: Presence, fallback: Presence },
}

/// The mathematical value of a [`TreeEvent`].
pub enum TreeEventView<T> {
    Parsed(Seq<ModuleView<T>>),
    Rejected(ErrorView),
    Probed { primary: Presence, fallback: Presence },
}

impl<T> View for TreeEvent<T> {
    type V = TreeEventView<T>;

    open spec fn view(&self) -> TreeEventView<T> {
        match *self {
            TreeEvent::Parsed(unit) => TreeEventView::Parsed(unit@),
            TreeEvent::Rejected(failure) => TreeEventView::Rejected(failure@),
            TreeEvent::Probed { primary, fallback } => TreeEventView::Probed { primary, fallback },
        }
    }
}

/// What the caller is to do next.
#[derive(Debug, PartialEq, Eq)]
pub enum TreeAction<T> {
    /// Read and parse `file`, and hand back its parsed form.
    Parse { file: String },
    /// Look at both places, and hand back what is there.
    Probe { primary: String, fallback: String },
    /// Nothing more: this is the tree.
    Done(CompilationUnit<T>),
    /// Nothing more: `file` does not parse, and this is the failure to
    /// report.
    Reject { file: String, failure: Error },
    /// Nothing more: there is no tree.
    Fail(ModuleError),
}

/// The mathematical value of a [`TreeAction`].
pub enum TreeActionView<T> {
    Parse { file: Seq<char> },
    Probe { primary: Seq<char>, fallback: Seq<char> },
    Done(Seq<ModuleView<T>>),
    Reject { file: Seq<char>, failure: ErrorView },
    Fail(ModuleErrorView),
}

impl<T> View for TreeAction<T> {
    type V = TreeActionView<T>;

    open spec fn view(&self) -> TreeActionView<T> {
        match *self {
            TreeAction::Parse { file } => TreeActionView::Parse { file: file@ },
            TreeAction::Probe { primary, fallback } => TreeActionView::Probe {
                primary: primary@,
                fallback: fallback@,
            },
            TreeAction::Done(unit) => TreeActionView::Done(unit@),
            TreeAction::Reject { file, failure } => TreeActionView::Reject {
                file: file@,
                failure: failure@,
            },
            TreeAction::Fail(e) => TreeActionView::Fail(e@),
        }
    }
}

/// The builder that waits for nothing.
pub open spec fn halted<T>() -> TreeBuilderView<T> {
    TreeBuilderView { stack: Seq::empty(), waiting: WaitingView::Finished }
}

/// The builder that has asked for the file behind `path`.
pub open spec fn entered<T>(stack: Seq<FrameView<T>>, path: Seq<char>, presence: Presence) -> (
    TreeBuilderView<T>,
    TreeActionView<T>,
) {
    let file = source_file_of(path, presence == Presence::Directory);
    (
        TreeBuilderView { stack, waiting: WaitingView::Source { file } },
        TreeActionView::Parse { file },
    )
}

/// What follows once the file on top of `stack` may have no external module
/// left to look for.
///
/// If it has one left, its two places are looked at. If it has none left, its
/// tree is built: it is the result where no file waits for it, and else it is
/// spliced into the file below, at the module that declared it, and the same
/// question is put to that file.
pub open spec fn settled<T>(stack: Seq<FrameView<T>>) -> (TreeBuilderView<T>, TreeActionView<T>)
    decreases stack.len(),
{
    if stack.len() == 0 {
        (halted(), TreeActionView::Fail(ModuleErrorView::OutOfTurn))
    } else {
        let top = stack.last();
        if 0 <= top.next < top.requests.len() {
            let name = top.requests[top.next].name;
            (
                TreeBuilderView { stack, waiting: WaitingView::Probe },
                TreeActionView::Probe {
                    primary: primary_of(top.dir, name),
                    fallback: fallback_of(top.dir, name),
                },
            )
        } else if stack.len() == 1 {
            (halted(), TreeActionView::Done(top.unit))
        } else {
            let parent = stack[stack.len() - 2];
            if 0 <= parent.next < parent.requests.len() {
                let merged = FrameView {
                    dir: parent.dir,
                    unit: spliced(parent.unit, parent.requests[parent.next].module, top.unit),
                    requests: parent.requests,
                    next: parent.next + 1,
                };
                settled(stack.subrange(0, stack.len() - 2).push(merged))
            } else {
                (halted(), TreeActionView::Fail(ModuleErrorView::OutOfTurn))
            }
        }
    }
}

/// The first step of building the tree of `path`: the file behind it is to
/// be parsed.
pub open spec fn started<T>(path: Seq<char>, is_dir: bool) -> (
    TreeBuilderView<T>,
    TreeActionView<T>,
) {
    entered(
        Seq::empty(),
        path,
        if is_dir {
            Presence::Directory
        } else {
            Presence::File
        },
    )
}

/// One step of the builder: the state and the action that follow on `event`.
///
/// A parsed file is put on top of the stack with the external modules it
/// declares; they are looked for in the directory of the file. A file that
/// the front end rejects ends the build with the failure to report. The answer to a probe decides the file of the external module:
/// what is at the first place, else what is at the second; where nothing is
/// at either, building fails. An event that answers no action fails it too.
pub open spec fn stepped<T>(pre: TreeBuilderView<T>, event: TreeEventView<T>) -> (
    TreeBuilderView<T>,
    TreeActionView<T>,
) {
    match (pre.waiting, event) {
        (WaitingView::Source { file }, TreeEventView::Parsed(unit)) => settled(
            pre.stack.push(
                FrameView { dir: parent_of(file), unit, requests: requests_of(unit), next: 0 },
            ),
        ),
        (WaitingView::Source { file }, TreeEventView::Rejected(failure)) => (
            halted(),
            TreeActionView::Reject { file, failure },
        ),
        (WaitingView::Probe, TreeEventView::Probed { primary, fallback }) => {
            if pre.stack.len() > 0 && 0 <= pre.stack.last().next < pre.stack.last().requests.len() {
                let top = pre.stack.last();
                let name = top.requests[top.next].name;
                if primary != Presence::Missing {
                    entered(pre.stack, primary_of(top.dir, name), primary)
                } else if fallback != Presence::Missing {
                    entered(pre.stack, fallback_of(top.dir, name), fallback)
                } else {
                    (
                        halted(),
                        TreeActionView::Fail(
                            ModuleErrorView::NotFound {
                                name,
                                primary: primary_of(top.dir, name),
                                fallback: fallback_of(top.dir, name),
                            },
                        ),
                    )
                }
            } else {
                (halted(), TreeActionView::Fail(ModuleErrorView::OutOfTurn))
            }
        },
        _ => (halted(), TreeActionView::Fail(ModuleErrorView::OutOfTurn)),
    }
}

fn halt<T>(error: ModuleError) -> (next: (TreeBuilder<T>, TreeAction<T>))
    ensures
        next.0@ == halted::<T>(),
        next.1@ == TreeActionView::<T>::Fail(error@),
{
    let builder = TreeBuilder { stack: Vec::new(), waiting: Waiting::Finished };
    assert(builder@.stack =~= Seq::empty());
    (builder, TreeAction::Fail(error))
}

fn enter<T>(stack: Vec<Frame<T>>, path: &str, presence: Presence) -> (next: (
    TreeBuilder<T>,
    TreeAction<T>,
))
    ensures
        (next.0@, next.1@) == entered(frame_views(stack@), path@, presence),
{
    let file = source_file(
        path,
        match presence {
            Presence::Directory => true,
            _ => false,
        },
    );
    (
        TreeBuilder { stack, waiting: Waiting::Source { file: file.clone() } },
        TreeAction::Parse { file },
    )
}

fn settle<T>(stack: Vec<Frame<T>>) -> (next: (TreeBuilder<T>, TreeAction<T>))
    ensures
        (next.0@, next.1@) == settled(frame_views(stack@)),
    decreases stack@.len(),
{
    let mut stack = stack;
    let ghost frames = frame_views(stack@);
    let n = stack.len();
    if n == 0 {
        return halt(ModuleError::OutOfTurn);
    }
    assert(frames.last() == stack@[n - 1]@);
    if stack[n - 1].next < stack[n - 1].requests.len() {
        let top = &stack[n - 1];
        let request = &top.requests[top.next];
        assert(frames.last().requests[top.next as int] == request@);
        let (primary, fallback) = candidates(top.dir.as_str(), request.name.as_str());
        return (
            TreeBuilder { stack, waiting: Waiting::Probe },
            TreeAction::Probe { primary, fallback },
        );
    }
    let top = stack.pop().unwrap();
    if n == 1 {
        let builder = TreeBuilder { stack: Vec::new(), waiting: Waiting::Finished };
        assert(builder@.stack =~= Seq::empty());
        return (builder, TreeAction::Done(top.unit));
    }
    let mut parent = stack.pop().unwrap();
    assert(parent@ == frames[n - 2]);
    if parent.next < parent.requests.len() {
        let at = parent.requests[parent.next].module;
        assert(frames[n - 2].requests[parent.next as int] == parent.requests@[parent.next as int]@);
        splice(&mut parent.unit, at, top.unit);
        parent.next = parent.next + 1;
        stack.push(parent);
        assert(frame_views(stack@) =~= frames.subrange(0, n - 2).push(parent@));
        settle(stack)
    } else {
        halt(ModuleError::OutOfTurn)
    }
}

/// Begins to build the tree of `path`, which is a directory if `is_dir` says
/// so: the first action is to parse the file behind it.
pub fn parse_file<T>(path: &str, is_dir: bool) -> (next: (TreeBuilder<T>, TreeAction<T>))
    ensures
        (next.0@, next.1@) == started::<T>(path@, is_dir),
{
    let stack: Vec<Frame<T>> = Vec::new();
    assert(frame_views(stack@) =~= Seq::empty());
    enter(
        stack,
        path,
        if is_dir {
            Presence::Directory
        } else {
            Presence::File
        },
    )
}

impl<T> TreeBuilder<T> {
    /// Takes what the last action brought and says what to do next.
    pub fn step(self, event: TreeEvent<T>) -> (next: (TreeBuilder<T>, TreeAction<T>))
        ensures
            (next.0@, next.1@) == stepped(self@, event@),
    {
        let mut stack = self.stack;
        let ghost frames = frame_views(stack@);
        match (self.waiting, event) {
            (Waiting::Source { file }, TreeEvent::Rejected(failure)) => {
                let builder = TreeBuilder { stack: Vec::new(), waiting: Waiting::Finished };
                assert(builder@.stack =~= Seq::empty());
                (builder, TreeAction::Reject { file, failure })
            },
            (Waiting::Source { file }, TreeEvent::Parsed(unit)) => {
                let dir = parent(file.as_str());
                let requests = external_requests(&unit);
                let frame = Frame { dir, unit, requests, next: 0 };
                stack.push(frame);
                assert(frame_views(stack@) =~= frames.push(frame@));
                settle(stack)
            },
            (Waiting::Probe, TreeEvent::Probed { primary, fallback }) => {
                let n = stack.len();
                if n > 0 && stack[n - 1].next < stack[n - 1].requests.len() {
                    let top = &stack[n - 1];
                    let request = &top.requests[top.next];
                    assert(frames.last() == top@);
                    assert(frames.last().requests[top.next as int] == request@);
                    match locate(top.dir.as_str(), request.name.as_str(), primary, fallback) {
                        Ok((path, presence)) => enter(stack, path.as_str(), presence),
                        Err(error) => halt(error),
                    }
                } else {
                    halt(ModuleError::OutOfTurn)
                }
            },
            _ => halt(ModuleError::OutOfTurn),
        }
    }
}

} // verus!
