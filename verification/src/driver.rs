//! The build driver: what the command line asks for, and the plan that
//! answers it.
//!
//! A build is planned from plain facts that the caller has gathered (the
//! working directory, the descriptor, which entry files exist) and comes back
//! as the compilations to run and the artifacts to link, in order.
use crate::compile_unit_info::{
    debug_info_of, optlevel_of, CompileUnitInfo, CompileUnitInfoView, DebugInfo, OptLevel,
};
use crate::driver::config::{profile_of, Config, Profile};
use crate::paths::{
    file_name_of, file_stem, has_stem, join, joined_path, stem_of, with_extension,
    with_extension_of, with_file_name, with_file_name_of,
};
use crate::text::opt_text;
use vstd::prelude::*;
use vstd::string::*;

pub mod config;
pub mod harness;
pub mod modules;
pub mod pipeline;
pub mod resolver;

pub use crate::driver::modules::parse_file;
pub use crate::driver::resolver::{checkout_dependency, compile_project};

verus! {

/// The command line as a whole.
#[derive(Debug, PartialEq, Eq)]
pub struct Cli {
    pub command: Commands,
}

/// What the command line asks for.
#[derive(Debug, PartialEq, Eq)]
pub enum Commands {
    /// Initialize a project.
    New { path: String, name: Option<String>, lib: bool },
    /// Build a project or file.
    Build(BuildArgs),
    /// Run a project or file.
    Run(BuildArgs),
    /// Test a project or file.
    Test(BuildArgs),
}

/// The arguments of a build.
#[derive(Clone, Debug, PartialEq, Eq)]
pub struct BuildArgs {
    /// The single file to build; without it the project around the working
    /// directory is built.
    pub path: Option<String>,
    /// Build the single file as a library.
    pub lib: bool,
    /// Build for release.
    pub release: bool,
    /// The profile to use, whatever `release` says.
    pub profile: Option<String>,
    pub ast: bool,
    pub ir: bool,
    pub llvm: bool,
    pub mlir: bool,
    pub assembly: bool,
    pub object: bool,
    pub check: bool,
}

/// The arguments of one compilation.
#[derive(Clone, Debug, PartialEq, Eq)]
pub struct CompilerArgs {
    pub input: String,
    pub output: String,
    pub release: bool,
    pub optlevel: Option<u8>,
    pub debug_info: Option<bool>,
    pub library: bool,
    pub ast: bool,
    pub ir: bool,
    pub llvm: bool,
    pub mlir: bool,
    pub assembly: bool,
    pub object: bool,
    pub check: bool,
}

/// The mathematical value of [`CompilerArgs`].
pub struct CompilerArgsView {
    pub input: Seq<char>,
    pub output: Seq<char>,
    pub release: bool,
    pub optlevel: Option<u8>,
    pub debug_info: Option<bool>,
    pub library: bool,
    pub ast: bool,
    pub ir: bool,
    pub llvm: bool,
    pub mlir: bool,
    pub assembly: bool,
    pub object: bool,
    pub check: bool,
}

impl View for CompilerArgs {
    type V = CompilerArgsView;

    open spec fn view(&self) -> CompilerArgsView {
        CompilerArgsView {
            input: self.input@,
            output: self.output@,
            release: self.release,
            optlevel: self.optlevel,
            debug_info: self.debug_info,
            library: self.library,
            ast: self.ast,
            ir: self.ir,
            llvm: self.llvm,
            mlir: self.mlir,
            assembly: self.assembly,
            object: self.object,
            check: self.check,
        }
    }
}

/// A test entry point: the symbol to look up and the name to show.
#[derive(Clone, Debug, PartialEq, Eq)]
pub struct TestInfo {
    pub mangled_symbol: String,
    pub symbol: String,
}

/// How an object file becomes an artifact.
#[derive(Clone, Copy, Debug, PartialEq, Eq, Structural)]
pub enum Link {
    Binary,
    SharedLib,
}

/// Why a build cannot be planned.
#[derive(Clone, Debug, PartialEq, Eq)]
pub enum BuildError {
    /// The input path has no file name to take a stem from.
    NoFileStem,
    /// No descriptor in the working directory or the two above it.
    NoDescriptor,
    /// The descriptor has no profile of the name that was asked for.
    NoRequestedProfile(String),
    /// The descriptor has no profile `release`.
    NoReleaseProfile,
    /// The descriptor has no profile `dev`.
    NoDevProfile,
}

/// The mathematical value of a [`BuildError`].
pub enum BuildErrorView {
    NoFileStem,
    NoDescriptor,
    NoRequestedProfile(Seq<char>),
    NoReleaseProfile,
    NoDevProfile,
}

impl View for BuildError {
    type V = BuildErrorView;

    open spec fn view(&self) -> BuildErrorView {
        match *self {
            BuildError::NoFileStem => BuildErrorView::NoFileStem,
            BuildError::NoDescriptor => BuildErrorView::NoDescriptor,
            BuildError::NoRequestedProfile(name) => BuildErrorView::NoRequestedProfile(name@),
            BuildError::NoReleaseProfile => BuildErrorView::NoReleaseProfile,
            BuildError::NoDevProfile => BuildErrorView::NoDevProfile,
        }
    }
}

impl BuildErrorView {
    pub open spec fn message(self) -> Seq<char> {
        match self {
            BuildErrorView::NoFileStem => "could not get file stem"@,
            BuildErrorView::NoDescriptor => "couldn't find Concrete.toml"@,
            BuildErrorView::NoRequestedProfile(_) => "couldn't get requested profile"@,
            BuildErrorView::NoReleaseProfile => "couldn't get profile: release"@,
            BuildErrorView::NoDevProfile => "couldn't get profile: dev"@,
        }
    }
}

impl BuildError {
    /// The line shown to the user.
    pub fn message(&self) -> (line: String)
        ensures
            line@ == self@.message(),
    {
        match self {
            BuildError::NoFileStem => String::from_str("could not get file stem"),
            BuildError::NoDescriptor => String::from_str("couldn't find Concrete.toml"),
            BuildError::NoRequestedProfile(_) => String::from_str("couldn't get requested profile"),
            BuildError::NoReleaseProfile => String::from_str("couldn't get profile: release"),
            BuildError::NoDevProfile => String::from_str("couldn't get profile: dev"),
        }
    }
}

/// How many directories are searched for a descriptor: the working directory
/// and the two above it.
pub const SEARCH_DEPTH: usize = 3;

/// The descriptor of the project in `dir`.
pub open spec fn descriptor_of(dir: Seq<char>) -> Seq<char> {
    joined_path(dir, "Concrete.toml"@)
}

/// The directory that holds the sources of the project in `dir`.
pub open spec fn src_dir_of(dir: Seq<char>) -> Seq<char> {
    joined_path(dir, "src"@)
}

/// The binary entry of the project in `dir`.
pub open spec fn main_entry_of(dir: Seq<char>) -> Seq<char> {
    joined_path(src_dir_of(dir), "main.ext"@)
}

/// The library entry of the project in `dir`.
pub open spec fn lib_entry_of(dir: Seq<char>) -> Seq<char> {
    joined_path(src_dir_of(dir), "lib.ext"@)
}

/// The directory that receives the artifacts of the project in `dir`.
pub open spec fn target_dir_of(dir: Seq<char>) -> Seq<char> {
    joined_path(dir, "build"@)
}

/// The executable of the package `name` of the project in `dir`.
pub open spec fn binary_output_of(dir: Seq<char>, name: Seq<char>) -> Seq<char> {
    joined_path(target_dir_of(dir), name)
}

/// The shared library that goes with the executable `output`: beside it,
/// named `lib` and the stem of `output`, with the extension `ext`.
pub open spec fn library_output_of(output: Seq<char>, ext: Seq<char>) -> Seq<char> {
    with_extension_of(with_file_name_of(output, "lib"@ + stem_of(file_name_of(output))), ext)
}

/// The index of the nearest directory that holds a descriptor, among the
/// first three of `found`; `-1` where none of them does.
pub open spec fn located(found: Seq<bool>) -> int {
    if found.len() > 0 && found[0] {
        0
    } else if found.len() > 1 && found[1] {
        1
    } else if found.len() > 2 && found[2] {
        2
    } else {
        -1
    }
}

/// Which of a table's entries say that a descriptor was found.
pub open spec fn found_in(candidates: Seq<(String, bool)>) -> Seq<bool> {
    Seq::new(candidates.len(), |i: int| candidates[i].1)
}

/// The name of the profile to build with: the one asked for, else `release`
/// for a release build, else `dev`.
pub open spec fn profile_name_of(requested: Option<Seq<char>>, release: bool) -> Seq<char> {
    match requested {
        Some(name) => name,
        None => if release {
            "release"@
        } else {
            "dev"@
        },
    }
}

/// The error for a descriptor that lacks the profile to build with.
pub open spec fn missing_profile(requested: Option<Seq<char>>, release: bool) -> BuildErrorView {
    match requested {
        Some(name) => BuildErrorView::NoRequestedProfile(name),
        None => if release {
            BuildErrorView::NoReleaseProfile
        } else {
            BuildErrorView::NoDevProfile
        },
    }
}

/// The arguments under which a single file is compiled: no explicit
/// optimization level or debug information, everything else as asked.
pub open spec fn file_args(args: BuildArgs, input: Seq<char>, output: Seq<char>) -> CompilerArgsView {
    CompilerArgsView {
        input,
        output,
        release: args.release,
        optlevel: None,
        debug_info: None,
        library: args.lib,
        ast: args.ast,
        ir: args.ir,
        llvm: args.llvm,
        mlir: args.mlir,
        assembly: args.assembly,
        object: args.object,
        check: args.check,
    }
}

/// The arguments under which an entry file of a project is compiled: the
/// optimization level and debug information of the profile.
pub open spec fn entry_args(
    args: BuildArgs,
    profile: Profile,
    input: Seq<char>,
    output: Seq<char>,
    library: bool,
) -> CompilerArgsView {
    CompilerArgsView {
        input,
        output,
        release: args.release,
        optlevel: Some(profile.opt_level),
        debug_info: Some(profile.debug_info),
        library,
        ast: args.ast,
        ir: args.ir,
        llvm: args.llvm,
        mlir: args.mlir,
        assembly: args.assembly,
        object: args.object,
        check: args.check,
    }
}

/// How the object of a compilation is linked.
pub open spec fn link_of(library: bool) -> Link {
    if library {
        Link::SharedLib
    } else {
        Link::Binary
    }
}

/// The plan for a single file.
#[derive(Clone, Debug, PartialEq, Eq)]
pub struct FileBuild {
    /// The one compilation.
    pub args: CompilerArgs,
    /// The artifact.
    pub output: String,
    /// How the object becomes the artifact.
    pub link: Link,
    /// Whether the object file stays once the artifact is linked.
    pub keep_object: bool,
}

/// One entry file of a project: its compilation and how its object is linked
/// into `args.output`.
#[derive(Clone, Debug, PartialEq, Eq)]
pub struct EntryBuild {
    pub args: CompilerArgs,
    pub link: Link,
}

/// The mathematical value of an [`EntryBuild`].
pub struct EntryBuildView {
    pub args: CompilerArgsView,
    pub link: Link,
}

impl View for EntryBuild {
    type V = EntryBuildView;

    open spec fn view(&self) -> EntryBuildView {
        EntryBuildView { args: self.args@, link: self.link }
    }
}

/// The plan for a project.
#[derive(Clone, Debug, PartialEq, Eq)]
pub struct ProjectBuild {
    /// The profile that was selected, and its name.
    pub profile: Profile,
    pub profile_name: String,
    /// The directory that receives the artifacts.
    pub target_dir: String,
    /// The entry files to compile and link, in order.
    pub entries: Vec<EntryBuild>,
    /// The artifact to report: the library where one is built, else the
    /// executable.
    pub output: String,
}

impl ProjectBuild {
    pub open spec fn entry_views(self) -> Seq<EntryBuildView> {
        Seq::new(self.entries@.len(), |i: int| self.entries@[i]@)
    }
}

/// The entries of a project, binary entry first: one for each entry file that
/// exists.
pub open spec fn entries_of(
    args: BuildArgs,
    profile: Profile,
    dir: Seq<char>,
    name: Seq<char>,
    main_exists: bool,
    lib_exists: bool,
    lib_ext: Seq<char>,
) -> Seq<EntryBuildView> {
    let output = binary_output_of(dir, name);
    let main = EntryBuildView {
        args: entry_args(args, profile, main_entry_of(dir), output, false),
        link: Link::Binary,
    };
    let lib = EntryBuildView {
        args: entry_args(args, profile, lib_entry_of(dir), library_output_of(output, lib_ext), true),
        link: Link::SharedLib,
    };
    (if main_exists {
        seq![main]
    } else {
        Seq::empty()
    }) + (if lib_exists {
        seq![lib]
    } else {
        Seq::empty()
    })
}

/// The settings of the compilation that `args` ask for. The object file is
/// the output with the extension `o`.
pub open spec fn session_of(args: CompilerArgsView) -> CompileUnitInfoView {
    CompileUnitInfoView {
        debug_info: debug_info_of(args.debug_info, args.release),
        optlevel: optlevel_of(args.optlevel, args.release),
        library: args.library,
        output_file: with_extension_of(args.output, "o"@),
        output_asm: args.assembly,
        output_ll: args.llvm,
        output_mlir: args.mlir,
    }
}

/// One compilation, planned: the settings for the back end, and the files
/// that receive the dump of the parsed tree and of the lowered form, where
/// they were asked for.
#[derive(Clone, Debug, PartialEq, Eq)]
pub struct Compilation {
    pub session: CompileUnitInfo,
    pub ast_dump: Option<String>,
    pub ir_dump: Option<String>,
}

/// What the lowered program says of one function.
#[derive(Clone, Debug, PartialEq, Eq)]
pub struct FunctionInfo {
    pub name: String,
    pub debug_name: Option<String>,
}

/// Whether every index of `tests` names a function of `functions` that is
/// there and has a name to show.
pub open spec fn tests_named(functions: Seq<Option<FunctionInfo>>, tests: Seq<usize>) -> bool {
    forall|i: int|
        0 <= i < tests.len() ==> {
            &&& (#[trigger] tests[i]) < functions.len()
            &&& functions[tests[i] as int] is Some
            &&& functions[tests[i] as int]->0.debug_name is Some
        }
}

/// The descriptor of the project in `dir`.
pub fn descriptor_path(dir: &str) -> (path: String)
    ensures
        path@ == descriptor_of(dir@),
{
    join(dir, "Concrete.toml")
}

/// The binary entry and the library entry of the project in `dir`.
pub fn entry_files(dir: &str) -> (files: (String, String))
    ensures
        files.0@ == main_entry_of(dir@),
        files.1@ == lib_entry_of(dir@),
{
    let src = join(dir, "src");
    (join(src.as_str(), "main.ext"), join(src.as_str(), "lib.ext"))
}

/// The project that a build in the first of `candidates` belongs to.
///
/// `candidates` are the working directory and the directories above it,
/// nearest first, each with whether it holds a descriptor. The nearest of the
/// first three that holds one is the project; there is no project where none
/// of them does.
pub fn find_project(candidates: &Vec<(String, bool)>) -> (found: Result<String, BuildError>)
    ensures
        match found {
            Ok(dir) => located(found_in(candidates@)) >= 0 && dir@ == candidates@[located(
                found_in(candidates@),
            )].0@,
            Err(e) => located(found_in(candidates@)) == -1 && e@ == BuildErrorView::NoDescriptor,
        },
{
    let ghost found = found_in(candidates@);
    let mut i: usize = 0;
    while i < SEARCH_DEPTH && i < candidates.len()
        invariant
            i <= SEARCH_DEPTH,
            i <= candidates.len(),
            found == found_in(candidates@),
            forall|j: int| 0 <= j < i ==> !found[j],
        decreases candidates.len() - i,
    {
        if candidates[i].1 {
            assert(found[i as int]);
            return Ok(candidates[i].0.clone());
        }
        i += 1;
    }
    Err(BuildError::NoDescriptor)
}

/// The profile to build with, and its name.
///
/// A profile that is asked for by name wins over `release`, and `release`
/// over the default `dev`; whichever it is, the descriptor must hold it.
pub fn select_profile(config: &Config, requested: &Option<String>, release: bool) -> (selected:
    Result<(Profile, String), BuildError>)
    ensures
        match selected {
            Ok((profile, name)) => {
                &&& name@ == profile_name_of(opt_text(*requested), release)
                &&& profile_of(config.profile@, name@) == Some(profile)
            },
            Err(e) => {
                &&& profile_of(
                    config.profile@,
                    profile_name_of(opt_text(*requested), release),
                ) is None
                &&& e@ == missing_profile(opt_text(*requested), release)
            },
        },
{
    match requested {
        Some(name) => match config.profile_named(name.as_str()) {
            Some(profile) => Ok((profile, name.clone())),
            None => Err(BuildError::NoRequestedProfile(name.clone())),
        },
        None => if release {
            match config.profile_named("release") {
                Some(profile) => Ok((profile, String::from_str("release"))),
                None => Err(BuildError::NoReleaseProfile),
            }
        } else {
            match config.profile_named("dev") {
                Some(profile) => Ok((profile, String::from_str("dev"))),
                None => Err(BuildError::NoDevProfile),
            }
        },
    }
}

/// The arguments of a test run: those of a build, as a library.
pub fn test_args(args: BuildArgs) -> (forced: BuildArgs)
    ensures
        forced == (BuildArgs { lib: true, ..args }),
{
    BuildArgs { lib: true, ..args }
}

/// The plan for the single file `input`, built in the directory `cwd`.
///
/// The artifact is named by the stem of `input` and stands in `cwd`; it is a
/// shared library where `args.lib` asks for one, else an executable. There is
/// no plan for an input without a file name.
pub fn build_file(args: &BuildArgs, input: &str, cwd: &str) -> (plan: Result<FileBuild, BuildError>)
    ensures
        match plan {
            Ok(build) => {
                &&& has_stem(file_name_of(input@))
                &&& build.output@ == joined_path(cwd@, stem_of(file_name_of(input@)))
                &&& build.args@ == file_args(*args, input@, build.output@)
                &&& build.link == link_of(args.lib)
                &&& build.keep_object == args.object
            },
            Err(e) => !has_stem(file_name_of(input@)) && e@ == BuildErrorView::NoFileStem,
        },
{
    match file_stem(input) {
        None => Err(BuildError::NoFileStem),
        Some(stem) => {
            let output = join(cwd, stem.as_str());
            let compile_args = CompilerArgs {
                input: input.to_owned(),
                output: output.clone(),
                release: args.release,
                optlevel: None,
                debug_info: None,
                library: args.lib,
                ast: args.ast,
                ir: args.ir,
                llvm: args.llvm,
                mlir: args.mlir,
                assembly: args.assembly,
                object: args.object,
                check: args.check,
            };
            Ok(
                FileBuild {
                    args: compile_args,
                    output,
                    link: if args.lib {
                        Link::SharedLib
                    } else {
                        Link::Binary
                    },
                    keep_object: args.object,
                },
            )
        },
    }
}

fn entry_build(args: &BuildArgs, profile: Profile, input: String, output: String, library: bool) -> (entry:
    EntryBuild)
    ensures
        entry@ == (EntryBuildView {
            args: entry_args(*args, profile, input@, output@, library),
            link: link_of(library),
        }),
{
    EntryBuild {
        args: CompilerArgs {
            input,
            output,
            release: args.release,
            optlevel: Some(profile.opt_level),
            debug_info: Some(profile.debug_info),
            library,
            ast: args.ast,
            ir: args.ir,
            llvm: args.llvm,
            mlir: args.mlir,
            assembly: args.assembly,
            object: args.object,
            check: args.check,
        },
        link: if library {
            Link::SharedLib
        } else {
            Link::Binary
        },
    }
}

/// The plan for the project in `dir`, whose descriptor is `config`.
///
/// `main_exists` and `lib_exists` say which entry files are on disk, and
/// `lib_ext` is the extension of a shared library on this platform. Each
/// entry file that exists is compiled under the selected profile and linked,
/// the binary entry first and into an executable, the library entry into a
/// shared library. The library, where there is one, is the artifact to
/// report.
///
/// There is no plan where the descriptor lacks the profile, or where a
/// library is to be built for a package whose name leaves the executable
/// without a file stem.
pub fn build_project(
    args: &BuildArgs,
    config: &Config,
    dir: &str,
    main_exists: bool,
    lib_exists: bool,
    lib_ext: &str,
) -> (plan: Result<ProjectBuild, BuildError>)
    ensures
        match plan {
            Ok(build) => {
                let name = profile_name_of(opt_text(args.profile), args.release);
                let output = binary_output_of(dir@, config.package.name@);
                &&& profile_of(config.profile@, name) == Some(build.profile)
                &&& build.profile_name@ == name
                &&& build.target_dir@ == target_dir_of(dir@)
                &&& lib_exists ==> has_stem(file_name_of(output))
                &&& build.entry_views() == entries_of(
                    *args,
                    build.profile,
                    dir@,
                    config.package.name@,
                    main_exists,
                    lib_exists,
                    lib_ext@,
                )
                &&& build.output@ == if lib_exists {
                    library_output_of(output, lib_ext@)
                } else {
                    output
                }
            },
            Err(e) => {
                let name = profile_name_of(opt_text(args.profile), args.release);
                let output = binary_output_of(dir@, config.package.name@);
                if profile_of(config.profile@, name) is None {
                    e@ == missing_profile(opt_text(args.profile), args.release)
                } else {
                    lib_exists && !has_stem(file_name_of(output)) && e@
                        == BuildErrorView::NoFileStem
                }
            },
        },
{
    let (profile, profile_name) = match select_profile(config, &args.profile, args.release) {
        Ok(selected) => selected,
        Err(e) => {
            return Err(e);
        },
    };
    let target_dir = join(dir, "build");
    let output = join(target_dir.as_str(), config.package.name.as_str());
    let (main_file, lib_file) = entry_files(dir);
    let mut entries: Vec<EntryBuild> = Vec::new();
    if main_exists {
        entries.push(entry_build(args, profile, main_file, output.clone(), false));
    }
    let mut reported = output.clone();
    if lib_exists {
        let stem = match file_stem(output.as_str()) {
            Some(stem) => stem,
            None => {
                return Err(BuildError::NoFileStem);
            },
        };
        let mut name = String::from_str("lib");
        name.append(stem.as_str());
        let beside = with_file_name(output.as_str(), name.as_str());
        let lib_output = with_extension(beside.as_str(), lib_ext);
        entries.push(entry_build(args, profile, lib_file, lib_output.clone(), true));
        reported = lib_output;
    }
    let build = ProjectBuild { profile, profile_name, target_dir, entries, output: reported };
    assert(build.entry_views() =~= entries_of(
        *args,
        build.profile,
        dir@,
        config.package.name@,
        main_exists,
        lib_exists,
        lib_ext@,
    ));
    Ok(build)
}

/// What is said of the profile once a project is built: whether it
/// optimizes, and whether it carries debug information.
pub open spec fn profile_summary_of(profile: Profile) -> Seq<char> {
    (if profile.opt_level > 0 {
        "optimized"@
    } else {
        "unoptimized"@
    }) + (if profile.debug_info {
        " + debuginfo"@
    } else {
        Seq::empty()
    })
}

/// What is said of the profile once a project is built.
pub fn profile_summary(profile: &Profile) -> (line: String)
    ensures
        line@ == profile_summary_of(*profile),
{
    let mut line = if profile.opt_level > 0 {
        String::from_str("optimized")
    } else {
        String::from_str("unoptimized")
    };
    let ghost head = line@;
    if profile.debug_info {
        line.append(" + debuginfo");
    } else {
        assert(head + Seq::<char>::empty() =~= head);
    }
    line
}

/// Plans the compilation that `args` ask for.
///
/// The settings are derived from the arguments: an explicit debug
/// information flag or optimization level wins, else the kind of build
/// decides. The dumps stand beside the object file, with the extensions `ast`
/// and `ir`.
pub fn compile(args: &CompilerArgs) -> (plan: Compilation)
    ensures
        plan.session@ == session_of(args@),
        opt_text(plan.ast_dump) == if args.ast {
            Some(with_extension_of(session_of(args@).output_file, "ast"@))
        } else {
            None
        },
        opt_text(plan.ir_dump) == if args.ir {
            Some(with_extension_of(session_of(args@).output_file, "ir"@))
        } else {
            None
        },
{
    let session = CompileUnitInfo {
        debug_info: DebugInfo::select(args.debug_info, args.release),
        optlevel: OptLevel::select(args.optlevel, args.release),
        library: args.library,
        output_file: with_extension(args.output.as_str(), "o"),
        output_asm: args.assembly,
        output_ll: args.llvm,
        output_mlir: args.mlir,
    };
    let ast_dump = if args.ast {
        Some(with_extension(session.output_file.as_str(), "ast"))
    } else {
        None
    };
    let ir_dump = if args.ir {
        Some(with_extension(session.output_file.as_str(), "ir"))
    } else {
        None
    };
    Compilation { session, ast_dump, ir_dump }
}

/// The test entry points of a lowered program: for each index of `tests`, in
/// order, the function's name as the symbol and its debug name for show.
pub fn discovered_tests(functions: &Vec<Option<FunctionInfo>>, tests: &Vec<usize>) -> (found: Vec<
    TestInfo,
>)
    requires
        tests_named(functions@, tests@),
    ensures
        found@.len() == tests@.len(),
        forall|i: int|
            0 <= i < tests@.len() ==> {
                &&& (#[trigger] found@[i]).mangled_symbol@ == functions@[tests@[i] as int]->0.name@
                &&& found@[i].symbol@ == functions@[tests@[i] as int]->0.debug_name->0@
            },
{
    let mut found: Vec<TestInfo> = Vec::new();
    let mut i: usize = 0;
    while i < tests.len()
        invariant
            i <= tests.len(),
            tests_named(functions@, tests@),
            found@.len() == i,
            forall|j: int|
                0 <= j < i ==> {
                    &&& (#[trigger] found@[j]).mangled_symbol@ == functions@[tests@[j] as int]->0.name@
                    &&& found@[j].symbol@ == functions@[tests@[j] as int]->0.debug_name->0@
                },
        decreases tests.len() - i,
    {
        let at = tests[i];
        assert(tests@[i as int] < functions@.len());
        match &functions[at] {
            Some(function) => match &function.debug_name {
                Some(symbol) => {
                    found.push(
                        TestInfo { mangled_symbol: function.name.clone(), symbol: symbol.clone() },
                    );
                },
                None => {
                    assert(false);
                },
            },
            None => {
                assert(false);
            },
        }
        i += 1;
    }
    found
}

/// A project yields one artifact for each entry file it has: with only a
/// library entry, one shared library and no executable; with only a binary
/// entry, one executable and no shared library; with both, the executable
/// first and the shared library second; with neither, nothing.
pub proof fn lemma_one_artifact_per_entry(
    args: BuildArgs,
    profile: Profile,
    dir: Seq<char>,
    name: Seq<char>,
    main_exists: bool,
    lib_exists: bool,
    lib_ext: Seq<char>,
)
    ensures
        ({
            let entries = entries_of(args, profile, dir, name, main_exists, lib_exists, lib_ext);
            &&& entries.len() == (if main_exists {
                1int
            } else {
                0int
            }) + (if lib_exists {
                1int
            } else {
                0int
            })
            &&& main_exists ==> entries[0].link == Link::Binary && !entries[0].args.library
                && entries[0].args.input == main_entry_of(dir)
            &&& lib_exists ==> entries.last().link == Link::SharedLib && entries.last().args.library
                && entries.last().args.input == lib_entry_of(dir)
            &&& forall|i: int|
                0 <= i < entries.len() ==> ((#[trigger] entries[i]).link == Link::SharedLib <==> lib_exists
                    && i == entries.len() - 1)
        }),
{
}

} // verus!
