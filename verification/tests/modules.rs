use concrete_driver::ast::{CompilationUnit, ExternalModule, Module, ModuleDefItem};
use concrete_driver::driver::modules::{
    candidates, external_requests, locate, source_file, splice, ModuleError, Presence, Request,
    TreeAction, TreeBuilder, TreeEvent,
};
use concrete_driver::driver::parse_file;
use concrete_driver::parser::error::Error;

type Item = ModuleDefItem<u32>;
type Unit = CompilationUnit<u32>;

fn external(name: &str) -> Item {
    ModuleDefItem::ExternalModule(ExternalModule { name: String::from(name) })
}

fn module(name: &str, contents: Vec<Item>) -> Module<u32> {
    Module { name: String::from(name), contents }
}

fn unit(modules: Vec<Module<u32>>) -> Unit {
    CompilationUnit { modules }
}

fn parse(builder: TreeBuilder<u32>, parsed: Unit) -> (TreeBuilder<u32>, TreeAction<u32>) {
    builder.step(TreeEvent::Parsed(parsed))
}

fn probe(
    builder: TreeBuilder<u32>,
    primary: Presence,
    fallback: Presence,
) -> (TreeBuilder<u32>, TreeAction<u32>) {
    builder.step(TreeEvent::Probed { primary, fallback })
}

#[test]
fn a_directory_stands_for_its_mod_file() {
    assert_eq!(source_file("src/foo", true), "src/foo/mod.ext");
    assert_eq!(source_file("src/foo.ext", false), "src/foo.ext");
}

#[test]
fn an_external_module_has_two_places() {
    assert_eq!(
        candidates("src", "foo"),
        (String::from("src/foo.ext"), String::from("src/foo/mod.ext"))
    );
    assert_eq!(candidates("", "foo"), (String::from("foo.ext"), String::from("foo/mod.ext")));
}

#[test]
fn the_first_place_wins() {
    assert_eq!(
        locate("src", "foo", Presence::File, Presence::File),
        Ok((String::from("src/foo.ext"), Presence::File))
    );
    assert_eq!(
        locate("src", "foo", Presence::Directory, Presence::Missing),
        Ok((String::from("src/foo.ext"), Presence::Directory))
    );
}

#[test]
fn the_second_place_is_the_fallback() {
    assert_eq!(
        locate("src", "foo", Presence::Missing, Presence::File),
        Ok((String::from("src/foo/mod.ext"), Presence::File))
    );
}

#[test]
fn a_module_at_neither_place_is_not_found() {
    let found = locate("src", "foo", Presence::Missing, Presence::Missing);
    assert_eq!(
        found,
        Err(ModuleError::NotFound {
            name: String::from("foo"),
            primary: String::from("src/foo.ext"),
            fallback: String::from("src/foo/mod.ext"),
        })
    );
    assert_eq!(
        found.unwrap_err().message(),
        "External module 'foo' not found at src/foo.ext or src/foo/mod.ext"
    );
}

#[test]
fn requests_are_the_declarations_of_top_level_modules() {
    let inner = module("inner", vec![external("hidden")]);
    let parsed = unit(vec![
        module(
            "a",
            vec![ModuleDefItem::Other(1), external("x"), ModuleDefItem::Module(inner), external("y")],
        ),
        module("b", vec![]),
        module("c", vec![external("z")]),
    ]);
    assert_eq!(
        external_requests(&parsed),
        vec![
            Request { module: 0, name: String::from("x") },
            Request { module: 0, name: String::from("y") },
            Request { module: 2, name: String::from("z") },
        ]
    );
    assert_eq!(external_requests(&unit(vec![])), vec![]);
}

#[test]
fn splice_appends_the_modules_of_the_target_in_order() {
    let mut declaring = unit(vec![
        module("a", vec![ModuleDefItem::Other(1)]),
        module("b", vec![external("foo"), ModuleDefItem::Other(2)]),
    ]);
    let target =
        unit(vec![module("m1", vec![ModuleDefItem::Other(7)]), module("m2", vec![]), module("m3", vec![])]);
    splice(&mut declaring, 1, target);
    assert_eq!(
        declaring,
        unit(vec![
            module("a", vec![ModuleDefItem::Other(1)]),
            module(
                "b",
                vec![
                    external("foo"),
                    ModuleDefItem::Other(2),
                    ModuleDefItem::Module(module("m1", vec![ModuleDefItem::Other(7)])),
                    ModuleDefItem::Module(module("m2", vec![])),
                    ModuleDefItem::Module(module("m3", vec![])),
                ]
            ),
        ])
    );
}

#[test]
fn splice_does_not_merge_modules_of_the_same_name() {
    let mut declaring = unit(vec![module("a", vec![ModuleDefItem::Module(module("m", vec![]))])]);
    splice(&mut declaring, 0, unit(vec![module("m", vec![ModuleDefItem::Other(3)])]));
    assert_eq!(
        declaring.modules[0].contents,
        vec![
            ModuleDefItem::Module(module("m", vec![])),
            ModuleDefItem::Module(module("m", vec![ModuleDefItem::Other(3)])),
        ]
    );
}

#[test]
fn splice_of_nothing_and_splice_past_the_end_change_nothing() {
    let before = unit(vec![module("a", vec![ModuleDefItem::Other(1)])]);
    let mut declaring = unit(vec![module("a", vec![ModuleDefItem::Other(1)])]);
    splice(&mut declaring, 0, unit(vec![]));
    assert_eq!(declaring, before);
    splice(&mut declaring, 1, unit(vec![module("m", vec![])]));
    assert_eq!(declaring, before);
}

#[test]
fn a_file_without_declarations_is_its_own_tree() {
    let (builder, action) = parse_file::<u32>("src/main.ext", false);
    assert_eq!(action, TreeAction::Parse { file: String::from("src/main.ext") });
    let (_, action) = parse(builder, unit(vec![module("main", vec![ModuleDefItem::Other(1)])]));
    assert_eq!(
        action,
        TreeAction::Done(unit(vec![module("main", vec![ModuleDefItem::Other(1)])]))
    );
}

#[test]
fn a_directory_is_parsed_through_its_mod_file() {
    let (builder, action) = parse_file::<u32>("src/dir", true);
    assert_eq!(action, TreeAction::Parse { file: String::from("src/dir/mod.ext") });
    let (_, action) = parse(builder, unit(vec![module("dir", vec![external("part")])]));
    assert_eq!(
        action,
        TreeAction::Probe {
            primary: String::from("src/dir/part.ext"),
            fallback: String::from("src/dir/part/mod.ext"),
        }
    );
}

#[test]
fn an_external_module_is_spliced_behind_the_items_of_the_declaring_module() {
    let (builder, _) = parse_file::<u32>("src/main.ext", false);
    let declaring = unit(vec![module("a", vec![external("foo"), ModuleDefItem::Other(1)])]);
    let (builder, action) = parse(builder, declaring);
    assert_eq!(
        action,
        TreeAction::Probe {
            primary: String::from("src/foo.ext"),
            fallback: String::from("src/foo/mod.ext"),
        }
    );
    let (builder, action) = probe(builder, Presence::File, Presence::Missing);
    assert_eq!(action, TreeAction::Parse { file: String::from("src/foo.ext") });
    let target = unit(vec![module("m1", vec![ModuleDefItem::Other(5)]), module("m2", vec![])]);
    let (builder, action) = parse(builder, target);
    assert_eq!(
        action,
        TreeAction::Done(unit(vec![module(
            "a",
            vec![
                external("foo"),
                ModuleDefItem::Other(1),
                ModuleDefItem::Module(module("m1", vec![ModuleDefItem::Other(5)])),
                ModuleDefItem::Module(module("m2", vec![])),
            ]
        )]))
    );
    assert!(builder.stack.is_empty());
}

#[test]
fn external_modules_chain_across_files() {
    let (builder, _) = parse_file::<u32>("src/main.ext", false);
    let (builder, _) = parse(
        builder,
        unit(vec![module("a", vec![external("foo")]), module("b", vec![external("bar")])]),
    );
    let (builder, action) = probe(builder, Presence::Missing, Presence::File);
    assert_eq!(action, TreeAction::Parse { file: String::from("src/foo/mod.ext") });
    let (builder, action) = parse(builder, unit(vec![module("foo", vec![external("deep")])]));
    assert_eq!(
        action,
        TreeAction::Probe {
            primary: String::from("src/foo/deep.ext"),
            fallback: String::from("src/foo/deep/mod.ext"),
        }
    );
    let (builder, action) = probe(builder, Presence::Directory, Presence::Missing);
    assert_eq!(action, TreeAction::Parse { file: String::from("src/foo/deep.ext/mod.ext") });
    let (builder, action) = parse(builder, unit(vec![module("deep", vec![ModuleDefItem::Other(9)])]));
    assert_eq!(
        action,
        TreeAction::Probe {
            primary: String::from("src/bar.ext"),
            fallback: String::from("src/bar/mod.ext"),
        }
    );
    let (builder, action) = probe(builder, Presence::File, Presence::File);
    assert_eq!(action, TreeAction::Parse { file: String::from("src/bar.ext") });
    let (_, action) = parse(builder, unit(vec![]));
    let deep = module("deep", vec![ModuleDefItem::Other(9)]);
    let foo = module("foo", vec![external("deep"), ModuleDefItem::Module(deep)]);
    assert_eq!(
        action,
        TreeAction::Done(unit(vec![
            module("a", vec![external("foo"), ModuleDefItem::Module(foo)]),
            module("b", vec![external("bar")]),
        ]))
    );
}

#[test]
fn a_missing_external_module_fails_the_build() {
    let (builder, _) = parse_file::<u32>("src/main.ext", false);
    let (builder, _) = parse(builder, unit(vec![module("a", vec![external("foo")])]));
    let (builder, action) = probe(builder, Presence::Missing, Presence::Missing);
    assert_eq!(
        action,
        TreeAction::Fail(ModuleError::NotFound {
            name: String::from("foo"),
            primary: String::from("src/foo.ext"),
            fallback: String::from("src/foo/mod.ext"),
        })
    );
    let (_, action) = parse(builder, unit(vec![]));
    assert_eq!(action, TreeAction::Fail(ModuleError::OutOfTurn));
}

#[test]
fn an_event_out_of_turn_fails_the_build() {
    let (builder, _) = parse_file::<u32>("src/main.ext", false);
    let (_, action) = probe(builder, Presence::File, Presence::File);
    assert_eq!(action, TreeAction::Fail(ModuleError::OutOfTurn));
    let (builder, _) = parse_file::<u32>("src/main.ext", false);
    let (builder, _) = parse(builder, unit(vec![module("a", vec![external("foo")])]));
    let (_, action) = parse(builder, unit(vec![]));
    assert_eq!(action, TreeAction::Fail(ModuleError::OutOfTurn));
    assert_eq!(ModuleError::OutOfTurn.message(), "event out of turn");
}

#[test]
fn a_file_that_does_not_parse_is_handed_up_with_its_failure() {
    let (builder, _) = parse_file::<u32>("src/main.ext", false);
    let (builder, _) = parse(builder, unit(vec![module("a", vec![external("foo")])]));
    let (builder, action) = probe(builder, Presence::Missing, Presence::Directory);
    assert_eq!(action, TreeAction::Parse { file: String::from("src/foo/mod.ext/mod.ext") });
    let failure = Error::UnrecognizedEof { location: 12, expected: vec![String::from("\"}\"")] };
    let (builder, action) = builder.step(TreeEvent::Rejected(failure.clone()));
    assert_eq!(
        action,
        TreeAction::Reject { file: String::from("src/foo/mod.ext/mod.ext"), failure }
    );
    assert!(builder.stack.is_empty());
}

#[test]
fn a_rejection_out_of_turn_fails_the_build() {
    let (builder, _) = parse_file::<u32>("src/main.ext", false);
    let (builder, _) = parse(builder, unit(vec![module("a", vec![external("foo")])]));
    let (_, action) = builder.step(TreeEvent::Rejected(Error::InvalidToken { location: 0 }));
    assert_eq!(action, TreeAction::Fail(ModuleError::OutOfTurn));
}

#[test]
fn external_modules_of_one_module_are_appended_in_the_order_of_their_declarations() {
    let (builder, _) = parse_file::<u32>("main.ext", false);
    let (builder, action) = parse(
        builder,
        unit(vec![module("a", vec![external("x"), ModuleDefItem::Other(1), external("y")])]),
    );
    assert_eq!(
        action,
        TreeAction::Probe { primary: String::from("x.ext"), fallback: String::from("x/mod.ext") }
    );
    let (builder, action) = probe(builder, Presence::File, Presence::Missing);
    assert_eq!(action, TreeAction::Parse { file: String::from("x.ext") });
    let (builder, action) = parse(builder, unit(vec![module("x1", vec![]), module("x2", vec![])]));
    assert_eq!(
        action,
        TreeAction::Probe { primary: String::from("y.ext"), fallback: String::from("y/mod.ext") }
    );
    let (builder, _) = probe(builder, Presence::File, Presence::Missing);
    let (_, action) = parse(builder, unit(vec![module("y1", vec![])]));
    assert_eq!(
        action,
        TreeAction::Done(unit(vec![module(
            "a",
            vec![
                external("x"),
                ModuleDefItem::Other(1),
                external("y"),
                ModuleDefItem::Module(module("x1", vec![])),
                ModuleDefItem::Module(module("x2", vec![])),
                ModuleDefItem::Module(module("y1", vec![])),
            ]
        )]))
    );
}
