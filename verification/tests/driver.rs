use concrete_driver::compile_unit_info::{DebugInfo, OptLevel};
use concrete_driver::driver::config::{Config, Package, Profile};
use concrete_driver::driver::{
    build_file, build_project, compile, descriptor_path, discovered_tests, entry_files,
    find_project, profile_summary, select_profile, test_args, BuildArgs, BuildError, CompilerArgs,
    FunctionInfo, Link, TestInfo,
};

fn args() -> BuildArgs {
    BuildArgs {
        path: None,
        lib: false,
        release: false,
        profile: None,
        ast: false,
        ir: false,
        llvm: false,
        mlir: false,
        assembly: false,
        object: false,
        check: false,
    }
}

fn dev() -> Profile {
    Profile { release: false, opt_level: 0, debug_info: true }
}

fn release() -> Profile {
    Profile { release: true, opt_level: 3, debug_info: false }
}

fn config(name: &str) -> Config {
    Config {
        package: Package {
            name: String::from(name),
            version: String::from("0.1.0"),
            license: String::from("MIT"),
        },
        profile: vec![(String::from("release"), release()), (String::from("dev"), dev())],
        dependencies: vec![],
    }
}

fn compiler_args(output: &str) -> CompilerArgs {
    CompilerArgs {
        input: String::from("src/main.ext"),
        output: String::from(output),
        release: false,
        optlevel: None,
        debug_info: None,
        library: false,
        ast: false,
        ir: false,
        llvm: false,
        mlir: false,
        assembly: false,
        object: false,
        check: false,
    }
}

#[test]
fn descriptor_and_entry_files_of_a_project() {
    assert_eq!(descriptor_path("/w/p"), "/w/p/Concrete.toml");
    assert_eq!(
        entry_files("/w/p"),
        (String::from("/w/p/src/main.ext"), String::from("/w/p/src/lib.ext"))
    );
    assert_eq!(entry_files(""), (String::from("src/main.ext"), String::from("src/lib.ext")));
}

#[test]
fn project_is_the_nearest_directory_with_a_descriptor() {
    let candidates = vec![
        (String::from("/w/p/src/x"), false),
        (String::from("/w/p/src"), true),
        (String::from("/w/p"), true),
    ];
    assert_eq!(find_project(&candidates), Ok(String::from("/w/p/src")));
    let candidates = vec![
        (String::from("/w/p/src/x"), false),
        (String::from("/w/p/src"), false),
        (String::from("/w/p"), true),
    ];
    assert_eq!(find_project(&candidates), Ok(String::from("/w/p")));
    let candidates = vec![(String::from("/w/p"), true)];
    assert_eq!(find_project(&candidates), Ok(String::from("/w/p")));
}

#[test]
fn project_is_not_searched_above_the_second_parent() {
    let candidates = vec![
        (String::from("/a/b/c/d"), false),
        (String::from("/a/b/c"), false),
        (String::from("/a/b"), false),
        (String::from("/a"), true),
    ];
    let found = find_project(&candidates);
    assert_eq!(found, Err(BuildError::NoDescriptor));
    assert_eq!(found.unwrap_err().message(), "couldn't find Concrete.toml");
    assert_eq!(find_project(&vec![]), Err(BuildError::NoDescriptor));
    assert_eq!(find_project(&vec![(String::from("/"), false)]), Err(BuildError::NoDescriptor));
}

#[test]
fn profile_defaults_to_dev() {
    assert_eq!(select_profile(&config("app"), &None, false), Ok((dev(), String::from("dev"))));
}

#[test]
fn release_flag_selects_the_release_profile() {
    let (profile, name) = select_profile(&config("app"), &None, true).unwrap();
    assert_eq!(name, "release");
    assert_eq!(profile.opt_level, 3);
    assert!(!profile.debug_info);
}

#[test]
fn named_profile_wins_over_the_release_flag() {
    let mut config = config("app");
    let bench = Profile { release: true, opt_level: 2, debug_info: true };
    config.profile.push((String::from("bench"), bench));
    assert_eq!(
        select_profile(&config, &Some(String::from("bench")), true),
        Ok((bench, String::from("bench")))
    );
    assert_eq!(
        select_profile(&config, &Some(String::from("dev")), true),
        Ok((dev(), String::from("dev")))
    );
}

#[test]
fn unknown_profile_is_an_error() {
    let selected = select_profile(&config("app"), &Some(String::from("nightly")), false);
    assert_eq!(selected, Err(BuildError::NoRequestedProfile(String::from("nightly"))));
    assert_eq!(selected.unwrap_err().message(), "couldn't get requested profile");
}

#[test]
fn missing_default_profiles_are_errors() {
    let mut config = config("app");
    config.profile.clear();
    let dev = select_profile(&config, &None, false);
    assert_eq!(dev, Err(BuildError::NoDevProfile));
    assert_eq!(dev.unwrap_err().message(), "couldn't get profile: dev");
    let release = select_profile(&config, &None, true);
    assert_eq!(release, Err(BuildError::NoReleaseProfile));
    assert_eq!(release.unwrap_err().message(), "couldn't get profile: release");
}

#[test]
fn profile_listed_twice_is_found_at_its_first_entry() {
    let mut config = config("app");
    config.profile.push((String::from("dev"), release()));
    assert_eq!(select_profile(&config, &None, false), Ok((dev(), String::from("dev"))));
    assert_eq!(config.profile_named("dev"), Some(dev()));
    assert_eq!(config.profile_named("none"), None);
}

#[test]
fn single_file_builds_an_executable_named_by_its_stem() {
    let build = build_file(&args(), "examples/main.ext", "/work").unwrap();
    assert_eq!(build.output, "/work/main");
    assert_eq!(build.link, Link::Binary);
    assert!(!build.keep_object);
    assert_eq!(build.args.input, "examples/main.ext");
    assert_eq!(build.args.output, "/work/main");
    assert_eq!(build.args.optlevel, None);
    assert_eq!(build.args.debug_info, None);
    assert!(!build.args.library);
    assert!(!build.args.release);
}

#[test]
fn single_file_as_a_library_keeps_the_flags() {
    let mut asked = args();
    asked.lib = true;
    asked.release = true;
    asked.object = true;
    asked.ir = true;
    asked.check = true;
    let build = build_file(&asked, "lib.ext", "/work").unwrap();
    assert_eq!(build.output, "/work/lib");
    assert_eq!(build.link, Link::SharedLib);
    assert!(build.keep_object);
    assert!(build.args.library);
    assert!(build.args.release);
    assert!(build.args.object);
    assert!(build.args.ir);
    assert!(build.args.check);
    assert!(!build.args.ast);
    assert!(!build.args.llvm);
    assert!(!build.args.mlir);
    assert!(!build.args.assembly);
}

#[test]
fn single_file_without_a_file_name_is_an_error() {
    let build = build_file(&args(), "examples/..", "/work");
    assert_eq!(build, Err(BuildError::NoFileStem));
    assert_eq!(build.unwrap_err().message(), "could not get file stem");
    assert_eq!(build_file(&args(), ".", "/work"), Err(BuildError::NoFileStem));
    assert_eq!(build_file(&args(), "/", "/work"), Err(BuildError::NoFileStem));
    assert_eq!(build_file(&args(), "", "/work"), Err(BuildError::NoFileStem));
}

#[test]
fn single_file_is_named_by_the_last_component_that_counts() {
    assert_eq!(build_file(&args(), "dir/", "/work").unwrap().output, "/work/dir");
    assert_eq!(build_file(&args(), "examples/main.ext/.", "/work").unwrap().output, "/work/main");
    assert_eq!(build_file(&args(), "./main.ext", "/work").unwrap().output, "/work/main");
}

#[test]
fn release_build_of_a_project_with_both_entries() {
    let mut asked = args();
    asked.release = true;
    let build = build_project(&asked, &config("app"), "/w/p", true, true, "so").unwrap();
    assert_eq!(build.profile, release());
    assert_eq!(build.profile_name, "release");
    assert_eq!(build.target_dir, "/w/p/build");
    assert_eq!(build.entries.len(), 2);
    let main = &build.entries[0];
    assert_eq!(main.link, Link::Binary);
    assert_eq!(main.args.input, "/w/p/src/main.ext");
    assert_eq!(main.args.output, "/w/p/build/app");
    assert_eq!(main.args.optlevel, Some(3));
    assert_eq!(main.args.debug_info, Some(false));
    assert!(!main.args.library);
    assert!(main.args.release);
    let lib = &build.entries[1];
    assert_eq!(lib.link, Link::SharedLib);
    assert_eq!(lib.args.input, "/w/p/src/lib.ext");
    assert_eq!(lib.args.output, "/w/p/build/libapp.so");
    assert_eq!(lib.args.optlevel, Some(3));
    assert_eq!(lib.args.debug_info, Some(false));
    assert!(lib.args.library);
    assert_eq!(build.output, "/w/p/build/libapp.so");
    let session = compile(&main.args).session;
    assert_eq!(session.optlevel, OptLevel::Aggressive);
    assert_eq!(session.debug_info, DebugInfo::Off);
}

#[test]
fn project_with_only_a_library_entry() {
    let build = build_project(&args(), &config("app"), "/w/p", false, true, "dylib").unwrap();
    assert_eq!(build.entries.len(), 1);
    assert_eq!(build.entries[0].link, Link::SharedLib);
    assert!(build.entries[0].args.library);
    assert_eq!(build.entries[0].args.output, "/w/p/build/libapp.dylib");
    assert_eq!(build.output, "/w/p/build/libapp.dylib");
    assert_eq!(build.profile_name, "dev");
    assert_eq!(build.entries[0].args.optlevel, Some(0));
    assert_eq!(build.entries[0].args.debug_info, Some(true));
}

#[test]
fn project_with_only_a_binary_entry() {
    let build = build_project(&args(), &config("app"), "/w/p", true, false, "so").unwrap();
    assert_eq!(build.entries.len(), 1);
    assert_eq!(build.entries[0].link, Link::Binary);
    assert!(!build.entries[0].args.library);
    assert_eq!(build.entries[0].args.output, "/w/p/build/app");
    assert_eq!(build.output, "/w/p/build/app");
}

#[test]
fn project_without_entries_builds_nothing() {
    let build = build_project(&args(), &config("app"), "/w/p", false, false, "so").unwrap();
    assert!(build.entries.is_empty());
    assert_eq!(build.output, "/w/p/build/app");
}

#[test]
fn project_with_an_unknown_profile_has_no_plan() {
    let mut asked = args();
    asked.profile = Some(String::from("nightly"));
    let build = build_project(&asked, &config("app"), "/w/p", true, true, "so");
    assert_eq!(build, Err(BuildError::NoRequestedProfile(String::from("nightly"))));
    assert_eq!(build.unwrap_err().message(), "couldn't get requested profile");
}

#[test]
fn library_of_a_package_without_a_stem_is_an_error() {
    let build = build_project(&args(), &config(".."), "/w/p", true, true, "so");
    assert_eq!(build, Err(BuildError::NoFileStem));
    let build = build_project(&args(), &config(".."), "/w/p", true, false, "so").unwrap();
    assert_eq!(build.entries.len(), 1);
}

#[test]
fn library_name_takes_the_stem_of_the_package_name() {
    let build = build_project(&args(), &config("my.app"), "/w/p", false, true, "so").unwrap();
    assert_eq!(build.output, "/w/p/build/libmy.so");
}

#[test]
fn profile_summary_says_what_the_profile_does() {
    assert_eq!(profile_summary(&dev()), "unoptimized + debuginfo");
    assert_eq!(profile_summary(&release()), "optimized");
    assert_eq!(
        profile_summary(&Profile { release: false, opt_level: 1, debug_info: true }),
        "optimized + debuginfo"
    );
    assert_eq!(
        profile_summary(&Profile { release: true, opt_level: 0, debug_info: false }),
        "unoptimized"
    );
}

#[test]
fn test_run_forces_library_mode() {
    let mut asked = args();
    asked.path = Some(String::from("a.ext"));
    asked.release = true;
    asked.mlir = true;
    let forced = test_args(asked.clone());
    assert!(forced.lib);
    asked.lib = true;
    assert_eq!(forced, asked);
}

#[test]
fn session_defaults_follow_the_kind_of_build() {
    let debug = compile(&compiler_args("/work/main")).session;
    assert_eq!(debug.debug_info, DebugInfo::Full);
    assert_eq!(debug.optlevel, OptLevel::Off);
    assert!(!debug.library);
    assert_eq!(debug.output_file, "/work/main.o");
    let mut released = compiler_args("/work/main");
    released.release = true;
    let session = compile(&released).session;
    assert_eq!(session.debug_info, DebugInfo::Off);
    assert_eq!(session.optlevel, OptLevel::Aggressive);
}

#[test]
fn session_takes_explicit_settings_first() {
    let mut asked = compiler_args("/work/main");
    asked.release = true;
    asked.debug_info = Some(true);
    asked.optlevel = Some(1);
    let session = compile(&asked).session;
    assert_eq!(session.debug_info, DebugInfo::Full);
    assert_eq!(session.optlevel, OptLevel::Less);
    asked.release = false;
    asked.debug_info = Some(false);
    asked.optlevel = Some(2);
    let session = compile(&asked).session;
    assert_eq!(session.debug_info, DebugInfo::Off);
    assert_eq!(session.optlevel, OptLevel::Default);
}

#[test]
fn optimization_levels_by_number() {
    let level = |n: u8| {
        let mut asked = compiler_args("out");
        asked.optlevel = Some(n);
        compile(&asked).session.optlevel
    };
    assert_eq!(level(0), OptLevel::Off);
    assert_eq!(level(1), OptLevel::Less);
    assert_eq!(level(2), OptLevel::Default);
    assert_eq!(level(3), OptLevel::Aggressive);
    assert_eq!(level(4), OptLevel::Aggressive);
    assert_eq!(level(255), OptLevel::Aggressive);
}

#[test]
fn session_carries_the_output_flags() {
    let mut asked = compiler_args("/w/p/build/libapp.so");
    asked.library = true;
    asked.assembly = true;
    asked.mlir = true;
    let session = compile(&asked).session;
    assert!(session.library);
    assert!(session.output_asm);
    assert!(!session.output_ll);
    assert!(session.output_mlir);
    assert_eq!(session.output_file, "/w/p/build/libapp.o");
    asked.llvm = true;
    asked.assembly = false;
    let session = compile(&asked).session;
    assert!(session.output_ll);
    assert!(!session.output_asm);
}

#[test]
fn dumps_stand_beside_the_object_file() {
    let mut asked = compiler_args("/work/main");
    let plan = compile(&asked);
    assert_eq!(plan.ast_dump, None);
    assert_eq!(plan.ir_dump, None);
    asked.ast = true;
    let plan = compile(&asked);
    assert_eq!(plan.ast_dump, Some(String::from("/work/main.ast")));
    assert_eq!(plan.ir_dump, None);
    asked.ir = true;
    let plan = compile(&asked);
    assert_eq!(plan.ast_dump, Some(String::from("/work/main.ast")));
    assert_eq!(plan.ir_dump, Some(String::from("/work/main.ir")));
}

#[test]
fn tests_are_discovered_in_order() {
    let function = |name: &str, debug: Option<&str>| {
        Some(FunctionInfo { name: String::from(name), debug_name: debug.map(String::from) })
    };
    let functions = vec![
        function("_m_main", Some("main")),
        None,
        function("_m_test_b", Some("test_b")),
        function("_m_helper", None),
        function("_m_test_a", Some("test_a")),
    ];
    let found = discovered_tests(&functions, &vec![4, 2]);
    assert_eq!(
        found,
        vec![
            TestInfo { mangled_symbol: String::from("_m_test_a"), symbol: String::from("test_a") },
            TestInfo { mangled_symbol: String::from("_m_test_b"), symbol: String::from("test_b") },
        ]
    );
    assert_eq!(discovered_tests(&functions, &vec![]), vec![]);
}
