use concrete_driver::paths::{
    file_name, file_stem, join, last_index_of, parent, with_extension, with_file_name,
};

#[test]
fn join_puts_one_separator_between() {
    assert_eq!(join("a/b", "c"), "a/b/c");
    assert_eq!(join("a/", "c"), "a/c");
    assert_eq!(join("/", "c"), "/c");
    assert_eq!(join("a", "b/c.ext"), "a/b/c.ext");
}

#[test]
fn join_below_the_empty_path_is_the_relative_path() {
    assert_eq!(join("", "c"), "c");
    assert_eq!(join("", ""), "");
}

#[test]
fn join_of_an_absolute_path_is_that_path() {
    assert_eq!(join("a", "/c"), "/c");
    assert_eq!(join("", "/c"), "/c");
}

#[test]
fn join_of_nothing_ends_in_a_separator() {
    assert_eq!(join("a", ""), "a/");
}

#[test]
fn last_index_finds_the_last_occurrence() {
    assert_eq!(last_index_of("a/b/c", '/'), Some(3));
    assert_eq!(last_index_of("/abc", '/'), Some(0));
    assert_eq!(last_index_of("abc", '/'), None);
    assert_eq!(last_index_of("", '/'), None);
    assert_eq!(last_index_of("é/ü/x", '/'), Some(3));
}

#[test]
fn parent_is_what_stands_before_the_last_separator() {
    assert_eq!(parent("a/b/c.ext"), "a/b");
    assert_eq!(parent("src/main.ext"), "src");
    assert_eq!(parent("main.ext"), "");
    assert_eq!(parent("/main.ext"), "/");
    assert_eq!(parent("src/dir/mod.ext"), "src/dir");
}

#[test]
fn parent_looks_past_what_does_not_count() {
    assert_eq!(parent("a/b/"), "a");
    assert_eq!(parent("a/b/."), "a");
    assert_eq!(parent("a//b"), "a");
    assert_eq!(parent("a/./b"), "a");
    assert_eq!(parent("/a/"), "/");
    assert_eq!(parent("//a"), "/");
    assert_eq!(parent("./a"), ".");
    assert_eq!(parent("a/.."), "a");
    assert_eq!(parent("."), "");
    assert_eq!(parent("a/"), "");
    assert_eq!(parent(""), "");
}

#[test]
fn file_name_is_the_last_component() {
    assert_eq!(file_name("a/b/c.ext"), Some(String::from("c.ext")));
    assert_eq!(file_name("c.ext"), Some(String::from("c.ext")));
    assert_eq!(file_name("./a"), Some(String::from("a")));
    assert_eq!(file_name("a//b"), Some(String::from("b")));
    assert_eq!(file_name("a./"), Some(String::from("a.")));
}

#[test]
fn separators_and_dots_at_the_end_do_not_count() {
    assert_eq!(file_name("a/"), Some(String::from("a")));
    assert_eq!(file_name("/usr/bin/"), Some(String::from("bin")));
    assert_eq!(file_name("a///"), Some(String::from("a")));
    assert_eq!(file_name("foo.txt/."), Some(String::from("foo.txt")));
    assert_eq!(file_name("foo.txt/./"), Some(String::from("foo.txt")));
    assert_eq!(file_name("foo.txt/.//./"), Some(String::from("foo.txt")));
}

#[test]
fn some_paths_have_no_file_name() {
    assert_eq!(file_name(""), None);
    assert_eq!(file_name("."), None);
    assert_eq!(file_name("./"), None);
    assert_eq!(file_name("./."), None);
    assert_eq!(file_name(".."), None);
    assert_eq!(file_name("a/.."), None);
    assert_eq!(file_name("a/../"), None);
    assert_eq!(file_name("/"), None);
    assert_eq!(file_name("//"), None);
    assert_eq!(file_name("/."), None);
}

#[test]
fn file_stem_drops_the_last_extension() {
    assert_eq!(file_stem("examples/main.ext"), Some(String::from("main")));
    assert_eq!(file_stem("archive.tar.gz"), Some(String::from("archive.tar")));
    assert_eq!(file_stem("plain"), Some(String::from("plain")));
    assert_eq!(file_stem("a.b/plain"), Some(String::from("plain")));
}

#[test]
fn file_stem_keeps_a_leading_dot() {
    assert_eq!(file_stem(".hidden"), Some(String::from(".hidden")));
    assert_eq!(file_stem("dir/.hidden.ext"), Some(String::from(".hidden")));
}

#[test]
fn file_stem_needs_a_file_name() {
    assert_eq!(file_stem("a/.."), None);
    assert_eq!(file_stem(".."), None);
    assert_eq!(file_stem("."), None);
    assert_eq!(file_stem("/"), None);
    assert_eq!(file_stem(""), None);
}

#[test]
fn file_stem_looks_past_the_end_of_the_path() {
    assert_eq!(file_stem("a/"), Some(String::from("a")));
    assert_eq!(file_stem("dir/main.ext/"), Some(String::from("main")));
    assert_eq!(file_stem("foo.txt/."), Some(String::from("foo")));
}

#[test]
fn with_extension_replaces_or_adds() {
    assert_eq!(with_extension("build/app", "o"), "build/app.o");
    assert_eq!(with_extension("build/libapp.so", "o"), "build/libapp.o");
    assert_eq!(with_extension("build/app.o", "ast"), "build/app.ast");
    assert_eq!(with_extension("a.b/c", "o"), "a.b/c.o");
    assert_eq!(with_extension("app", "ir"), "app.ir");
}

#[test]
fn with_extension_of_nothing_takes_it_away() {
    assert_eq!(with_extension("x.tar.gz", ""), "x.tar");
    assert_eq!(with_extension("build/app", ""), "build/app");
}

#[test]
fn with_extension_leaves_a_path_without_file_name() {
    assert_eq!(with_extension("a/..", "o"), "a/..");
    assert_eq!(with_extension(".", "o"), ".");
    assert_eq!(with_extension("/", "o"), "/");
    assert_eq!(with_extension("", "o"), "");
}

#[test]
fn with_extension_cuts_the_path_behind_the_stem() {
    assert_eq!(with_extension("a/", "o"), "a.o");
    assert_eq!(with_extension("dir/x.ext/.", "o"), "dir/x.o");
    assert_eq!(with_extension("dir/x.ext//", ""), "dir/x");
}

#[test]
fn with_file_name_replaces_the_last_component() {
    assert_eq!(with_file_name("build/app", "libapp"), "build/libapp");
    assert_eq!(with_file_name("app", "libapp"), "libapp");
    assert_eq!(with_file_name("/app", "libapp"), "/libapp");
    assert_eq!(with_file_name("build/app/", "libapp"), "build/libapp");
    assert_eq!(with_file_name("a/", "x"), "x");
}

#[test]
fn with_file_name_goes_below_a_path_without_file_name() {
    assert_eq!(with_file_name("a/..", "x"), "a/../x");
    assert_eq!(with_file_name("", "x"), "x");
    assert_eq!(with_file_name("/", "x"), "/x");
}

fn samples() -> Vec<&'static str> {
    vec![
        "", ".", "..", "/", "//", "/.", "./", "./.", "a", "a/", "a//", "a/.", "a/./", "a/..",
        "a/../", "/a", "/a/", "//a", "a/b", "a//b", "a/./b", "./a", "../a", "a/b/", "a/b/.",
        "a/b/c.ext", "main.ext", "src/main.ext", "src/dir/mod.ext", "archive.tar.gz", ".hidden",
        "dir/.hidden.ext", "a.b/plain", "a.b/c.d/", "foo.txt/.", "foo.txt/.//./", "a./", "a.",
        "build/app", "build/libapp.so", "/usr/bin/", "x/..x", "x/...", "é/ü.ext",
    ]
}

#[test]
fn file_names_and_stems_are_those_of_the_standard_library() {
    for sample in samples() {
        let path = std::path::Path::new(sample);
        let name = path.file_name().map(|name| name.to_str().unwrap().to_string());
        assert_eq!(file_name(sample), name, "file name of {:?}", sample);
        let stem = path.file_stem().map(|stem| stem.to_str().unwrap().to_string());
        assert_eq!(file_stem(sample), stem, "file stem of {:?}", sample);
    }
}

#[test]
fn parents_are_those_of_the_standard_library() {
    for sample in samples() {
        let path = std::path::Path::new(sample);
        let dir = path.parent().map(|dir| dir.to_str().unwrap().to_string()).unwrap_or_default();
        assert_eq!(parent(sample), dir, "parent of {:?}", sample);
    }
}

#[test]
fn extensions_and_file_names_are_set_as_in_the_standard_library() {
    for sample in samples() {
        let path = std::path::Path::new(sample);
        for ext in ["o", "ast", "", "tar.gz"] {
            let set = path.with_extension(ext);
            assert_eq!(with_extension(sample, ext), set.to_str().unwrap(), "{:?} {:?}", sample, ext);
        }
        for name in ["libapp", "x.ext"] {
            let set = path.with_file_name(name);
            assert_eq!(with_file_name(sample, name), set.to_str().unwrap(), "{:?} {:?}", sample, name);
        }
    }
}

#[test]
fn paths_are_joined_as_in_the_standard_library() {
    for base in samples() {
        for rel in samples() {
            let joined = std::path::Path::new(base).join(rel);
            assert_eq!(join(base, rel), joined.to_str().unwrap(), "{:?} {:?}", base, rel);
        }
    }
}
