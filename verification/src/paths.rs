//! Paths as text. Components are separated by `/`. Separators at the end of a
//! path do not count, nor do components `.` behind a separator; the last
//! component that counts is the file name, unless it is `.` or `..`, and what
//! follows the last `.` of a file name is its extension.
use vstd::prelude::*;
use vstd::string::*;

verus! {

/// The index of the last `c` in `s`, or `-1` where there is none.
pub open spec fn last_index(s: Seq<char>, c: char) -> int
    decreases s.len(),
{
    if s.len() == 0 {
        -1
    } else if s.last() == c {
        s.len() - 1
    } else {
        last_index(s.drop_last(), c)
    }
}

/// `rel` below `base`. An absolute `rel` stands for itself, and so does any
/// `rel` below the empty path.
pub open spec fn joined_path(base: Seq<char>, rel: Seq<char>) -> Seq<char> {
    if rel.len() > 0 && rel[0] == '/' {
        rel
    } else if base.len() == 0 {
        rel
    } else if base.last() == '/' {
        base + rel
    } else {
        base + seq!['/'] + rel
    }
}

/// `path` without what does not count at its end: separators, and
/// components `.` behind a separator.
pub open spec fn trimmed(path: Seq<char>) -> Seq<char>
    decreases path.len(),
{
    if path.len() == 0 {
        path
    } else if path.last() == '/' {
        trimmed(path.drop_last())
    } else if path.len() >= 2 && path.last() == '.' && path[path.len() - 2] == '/' {
        trimmed(path.drop_last())
    } else {
        path
    }
}

/// The last component of `path`, whatever ends the path: `dir/` and `dir/.`
/// both end in the component `dir`.
pub open spec fn file_name_of(path: Seq<char>) -> Seq<char> {
    let path = trimmed(path);
    path.subrange(last_index(path, '/') + 1, path.len() as int)
}

/// Whether the component `name` is a file name: it is not empty, and it is
/// neither `.` nor `..`.
pub open spec fn has_stem(name: Seq<char>) -> bool {
    name.len() > 0 && name != seq!['.'] && name != seq!['.', '.']
}

/// `path` without its last component and without what does not count at the
/// end of the rest: empty for a single component, `/` for a component of the
/// root.
pub open spec fn parent_of(path: Seq<char>) -> Seq<char> {
    let path = trimmed(path);
    let cut = last_index(path, '/');
    if cut < 0 {
        Seq::empty()
    } else {
        let rest = trimmed(path.subrange(0, cut + 1));
        if rest.len() == 0 {
            seq!['/']
        } else {
            rest
        }
    }
}

/// The file name `name` without its extension. A name without a `.`, or whose
/// only `.` comes first, is its own stem.
pub open spec fn stem_of(name: Seq<char>) -> Seq<char> {
    let dot = last_index(name, '.');
    if dot <= 0 {
        name
    } else {
        name.subrange(0, dot)
    }
}

/// The extension of the file name `name`: what follows its last `.`, unless
/// that is its first character or it has none.
pub open spec fn extension_of(name: Seq<char>) -> Option<Seq<char>> {
    let dot = last_index(name, '.');
    if dot <= 0 {
        None
    } else {
        Some(name.subrange(dot + 1, name.len() as int))
    }
}

/// `path` cut behind the stem of its file name, with the extension `ext`
/// behind that unless `ext` is empty. A path without a file name stays as it
/// is.
pub open spec fn extension_set(path: Seq<char>, ext: Seq<char>) -> Seq<char> {
    let name = file_name_of(path);
    let cut = last_index(trimmed(path), '/') + 1;
    if !has_stem(name) {
        path
    } else if ext.len() == 0 {
        trimmed(path).subrange(0, cut) + stem_of(name)
    } else {
        trimmed(path).subrange(0, cut) + stem_of(name) + seq!['.'] + ext
    }
}

/// `path` with the extension of its file name replaced by `ext`. Where the
/// file name has an extension, as many characters as that has are first
/// taken from the end of the path as it is written; then the extension is
/// set.
pub open spec fn with_extension_of(path: Seq<char>, ext: Seq<char>) -> Seq<char> {
    let name = file_name_of(path);
    if has_stem(name) && extension_of(name) is Some {
        extension_set(path.subrange(0, path.len() - extension_of(name)->0.len()), ext)
    } else {
        extension_set(path, ext)
    }
}

/// `path` with its file name replaced by `name`; `name` below `path` where
/// `path` has no file name.
pub open spec fn with_file_name_of(path: Seq<char>, name: Seq<char>) -> Seq<char> {
    if has_stem(file_name_of(path)) {
        joined_path(parent_of(path), name)
    } else {
        joined_path(path, name)
    }
}

/// What is trimmed is a prefix of the path, and nothing more can be trimmed
/// from it: it is empty or ends in a component.
pub proof fn lemma_trimmed(path: Seq<char>)
    ensures
        trimmed(path).len() <= path.len(),
        trimmed(path) == path.subrange(0, trimmed(path).len() as int),
        trimmed(trimmed(path)) == trimmed(path),
        trimmed(path).len() > 0 ==> trimmed(path).last() != '/',
    decreases path.len(),
{
    if path.len() == 0 {
        assert(path.subrange(0, 0) =~= path);
    } else if path.last() == '/' || (path.len() >= 2 && path.last() == '.' && path[path.len() - 2]
        == '/') {
        lemma_trimmed(path.drop_last());
        assert(path.drop_last().subrange(0, trimmed(path).len() as int) =~= path.subrange(
            0,
            trimmed(path).len() as int,
        ));
    } else {
        assert(path.subrange(0, path.len() as int) =~= path);
    }
}

/// Where the last `c` of `s` stands: at an index of `s` that holds `c`, with
/// no `c` behind it; or nowhere, and then `s` holds no `c`.
pub proof fn lemma_last_index(s: Seq<char>, c: char)
    ensures
        -1 <= last_index(s, c) < s.len(),
        last_index(s, c) >= 0 ==> s[last_index(s, c)] == c,
        forall|j: int| last_index(s, c) < j < s.len() ==> s[j] != c,
    decreases s.len(),
{
    if s.len() > 0 && s.last() != c {
        lemma_last_index(s.drop_last(), c);
        assert forall|j: int| last_index(s, c) < j < s.len() implies s[j] != c by {
            if j < s.len() - 1 {
                assert(s.drop_last()[j] == s[j]);
            }
        }
    }
}

/// Where a path below a directory is cut: a file name, put below a directory
/// that ends in a component, is the file name of the path, and the directory
/// is its parent.
pub proof fn lemma_join_splits(dir: Seq<char>, name: Seq<char>)
    requires
        dir.len() > 0,
        trimmed(dir) == dir,
        has_stem(name),
        !name.contains('/'),
    ensures
        joined_path(dir, name) == dir + seq!['/'] + name,
        trimmed(joined_path(dir, name)) == joined_path(dir, name),
        file_name_of(joined_path(dir, name)) == name,
        parent_of(joined_path(dir, name)) == dir,
{
    let path = dir + seq!['/'] + name;
    let cut = dir.len() as int;
    lemma_trimmed(dir);
    assert(name.contains(name[0]));
    assert(name.contains(name.last()));
    assert(joined_path(dir, name) == path);
    assert(path.last() == name.last());
    assert(trimmed(path) == path) by {
        if path.last() == '.' && path[path.len() - 2] == '/' {
            if name.len() >= 2 {
                assert(path[path.len() - 2] == name[name.len() - 2]);
                assert(name.contains(name[name.len() - 2]));
            } else {
                assert(name =~= seq!['.']);
            }
        }
    }
    assert forall|j: int| cut + 1 <= j < path.len() implies path[j] != '/' by {
        assert(path[j] == name[j - cut - 1]);
        assert(name.contains(name[j - cut - 1]));
    }
    lemma_last_index_prefix(path, '/', cut + 1);
    assert(path.subrange(0, cut + 1).last() == '/');
    assert(last_index(path, '/') == cut);
    assert(path.subrange(cut + 1, path.len() as int) =~= name);
    let before = path.subrange(0, cut + 1);
    assert(before.drop_last() =~= dir);
    assert(trimmed(before) == trimmed(dir));
}

/// A prefix that ends in `c` or is cut just behind a stretch without `c`
/// decides the last index of the whole.
proof fn lemma_last_index_prefix(s: Seq<char>, c: char, i: int)
    requires
        0 <= i <= s.len(),
        forall|j: int| i <= j < s.len() ==> s[j] != c,
    ensures
        last_index(s, c) == last_index(s.subrange(0, i), c),
    decreases s.len() - i,
{
    if i < s.len() {
        assert(s.last() != c);
        assert(s.drop_last().subrange(0, i) =~= s.subrange(0, i));
        lemma_last_index_prefix(s.drop_last(), c, i);
    } else {
        assert(s.subrange(0, i) =~= s);
    }
}

/// The index of the last `c` in `s`, if there is one.
pub fn last_index_of(s: &str, c: char) -> (at: Option<usize>)
    ensures
        match at {
            Some(i) => i as int == last_index(s@, c),
            None => last_index(s@, c) == -1,
        },
{
    let mut i: usize = s.unicode_len();
    while i > 0
        invariant
            i <= s@.len(),
            forall|j: int| i <= j < s@.len() ==> s@[j] != c,
        decreases i,
    {
        if s.get_char(i - 1) == c {
            proof {
                lemma_last_index_prefix(s@, c, i as int);
                assert(s@.subrange(0, i as int).last() == c);
            }
            return Some(i - 1);
        }
        i -= 1;
    }
    proof {
        lemma_last_index_prefix(s@, c, 0);
    }
    None
}

/// `rel` below `base`.
pub fn join(base: &str, rel: &str) -> (path: String)
    ensures
        path@ == joined_path(base@, rel@),
{
    let base_len = base.unicode_len();
    if rel.unicode_len() > 0 && rel.get_char(0) == '/' {
        rel.to_owned()
    } else if base_len == 0 {
        rel.to_owned()
    } else {
        let mut path = base.to_owned();
        if base.get_char(base_len - 1) != '/' {
            proof {
                reveal_strlit("/");
            }
            path.append("/");
            assert(path@ =~= base@ + seq!['/']);
        }
        path.append(rel);
        path
    }
}

/// How much of `path` is left when it is trimmed.
fn trimmed_len(path: &str) -> (n: usize)
    ensures
        n <= path@.len(),
        path@.subrange(0, n as int) == trimmed(path@),
{
    let mut n = path.unicode_len();
    let mut going = true;
    assert(path@.subrange(0, n as int) =~= path@);
    while going && n > 0
        invariant
            n <= path@.len(),
            trimmed(path@.subrange(0, n as int)) == trimmed(path@),
            !going ==> trimmed(path@.subrange(0, n as int)) == path@.subrange(0, n as int),
        decreases n, (if going { 1int } else { 0int }),
    {
        let ghost head = path@.subrange(0, n as int);
        assert(head.drop_last() =~= path@.subrange(0, n - 1));
        assert(head.last() == path@[n - 1]);
        let c = path.get_char(n - 1);
        if c == '/' {
            n -= 1;
        } else if c == '.' && n >= 2 && path.get_char(n - 2) == '/' {
            assert(head[head.len() - 2] == path@[n - 2]);
            n -= 1;
        } else {
            if n >= 2 {
                assert(head[head.len() - 2] == path@[n - 2]);
            }
            going = false;
        }
    }
    n
}

/// Whether the component `name` is a file name.
fn named(name: &str) -> (yes: bool)
    ensures
        yes == has_stem(name@),
{
    let len = name.unicode_len();
    if len == 0 {
        false
    } else if len == 1 && name.get_char(0) == '.' {
        assert(name@ =~= seq!['.']);
        false
    } else if len == 2 && name.get_char(0) == '.' && name.get_char(1) == '.' {
        assert(name@ =~= seq!['.', '.']);
        false
    } else {
        assert(name@ != seq!['.']) by {
            if name@ == seq!['.'] {
                assert(seq!['.'].len() == 1);
                assert(name@[0] == '.');
            }
        }
        assert(name@ != seq!['.', '.']) by {
            if name@ == seq!['.', '.'] {
                assert(seq!['.', '.'].len() == 2);
                assert(name@[0] == '.' && name@[1] == '.');
            }
        }
        true
    }
}

/// The file name `name` without its extension.
fn stem(name: &str) -> (out: String)
    ensures
        out@ == stem_of(name@),
{
    proof {
        lemma_last_index(name@, '.');
    }
    match last_index_of(name, '.') {
        Some(dot) => {
            if dot == 0 {
                name.to_owned()
            } else {
                name.substring_char(0, dot).to_owned()
            }
        },
        None => name.to_owned(),
    }
}

/// The file name of `path`, where it has one.
pub fn file_name(path: &str) -> (name: Option<String>)
    ensures
        match name {
            Some(name) => has_stem(file_name_of(path@)) && name@ == file_name_of(path@),
            None => !has_stem(file_name_of(path@)),
        },
{
    let n = trimmed_len(path);
    let kept = path.substring_char(0, n);
    proof {
        lemma_last_index(kept@, '/');
    }
    let from = match last_index_of(kept, '/') {
        Some(i) => i + 1,
        None => 0,
    };
    let name = kept.substring_char(from, n);
    if named(name) {
        Some(name.to_owned())
    } else {
        None
    }
}

/// `path` without its last component.
pub fn parent(path: &str) -> (dir: String)
    ensures
        dir@ == parent_of(path@),
{
    let n = trimmed_len(path);
    let kept = path.substring_char(0, n);
    proof {
        lemma_last_index(kept@, '/');
        reveal_strlit("/");
        reveal_strlit("");
    }
    match last_index_of(kept, '/') {
        None => {
            let dir = String::from_str("");
            assert(dir@ =~= Seq::<char>::empty());
            dir
        },
        Some(i) => {
            let before = kept.substring_char(0, i + 1);
            let m = trimmed_len(before);
            if m == 0 {
                let dir = String::from_str("/");
                assert(dir@ =~= seq!['/']);
                dir
            } else {
                before.substring_char(0, m).to_owned()
            }
        },
    }
}

/// The file name of `path` without its extension, where `path` has a file
/// name.
pub fn file_stem(path: &str) -> (stem: Option<String>)
    ensures
        match stem {
            Some(s) => has_stem(file_name_of(path@)) && s@ == stem_of(file_name_of(path@)),
            None => !has_stem(file_name_of(path@)),
        },
{
    match file_name(path) {
        Some(name) => Some(stem(name.as_str())),
        None => None,
    }
}

/// `path` cut behind the stem of its file name, with the extension `ext`
/// behind that.
fn set_extension(path: &str, ext: &str) -> (out: String)
    ensures
        out@ == extension_set(path@, ext@),
{
    let n = trimmed_len(path);
    let kept = path.substring_char(0, n);
    proof {
        lemma_last_index(kept@, '/');
    }
    let cut = match last_index_of(kept, '/') {
        Some(i) => i + 1,
        None => 0,
    };
    let name = kept.substring_char(cut, n);
    if !named(name) {
        path.to_owned()
    } else {
        let mut out = kept.substring_char(0, cut).to_owned();
        let base = stem(name);
        out.append(base.as_str());
        if ext.unicode_len() > 0 {
            proof {
                reveal_strlit(".");
            }
            out.append(".");
            out.append(ext);
            assert(out@ =~= kept@.subrange(0, cut as int) + stem_of(name@) + seq!['.'] + ext@);
        }
        out
    }
}

/// `path` with the extension of its file name replaced by `ext`.
pub fn with_extension(path: &str, ext: &str) -> (out: String)
    ensures
        out@ == with_extension_of(path@, ext@),
{
    match file_name(path) {
        None => set_extension(path, ext),
        Some(name) => {
            proof {
                lemma_last_index(name@, '.');
                lemma_trimmed(path@);
                lemma_last_index(trimmed(path@), '/');
            }
            match last_index_of(name.as_str(), '.') {
                None => set_extension(path, ext),
                Some(dot) => {
                    if dot == 0 {
                        set_extension(path, ext)
                    } else {
                        let len = path.unicode_len();
                        let old = name.as_str().unicode_len() - dot - 1;
                        set_extension(path.substring_char(0, len - old), ext)
                    }
                },
            }
        },
    }
}

/// `path` with its file name replaced by `name`.
pub fn with_file_name(path: &str, name: &str) -> (out: String)
    ensures
        out@ == with_file_name_of(path@, name@),
{
    match file_name(path) {
        Some(_) => {
            let dir = parent(path);
            join(dir.as_str(), name)
        },
        None => join(path, name),
    }
}

} // verus!
