//! Paths of the host file system, as texts.

use crate::text::{
    chars_of, concat, copy_text, ends_with, find_last_char, last_index_of, law_first_and_last_place,
    push_text, same_text, starts_with, string_of,
};
use vstd::prelude::*;
use vstd::slice::slice_subrange;

verus! {

// ── File names ───────────────────────────────────────────────────────────────

/// The text of an optional text.
pub open spec fn optional_text(s: Option<String>) -> Option<Seq<char>> {
    match s {
        Some(t) => Some(t@),
        None => None,
    }
}

/// A path that is one name: not empty, no separator in it, and neither of the two names that
/// stand for directories.
pub open spec fn is_plain_name(s: Seq<char>) -> bool {
    s.len() > 0 && !s.contains('/') && s != "."@ && s != ".."@
}

/// The text behind the last slash.
pub open spec fn last_component(s: Seq<char>) -> Seq<char>
    decreases s.len(),
{
    if s.len() == 0 || s[s.len() - 1] == '/' {
        Seq::empty()
    } else {
        last_component(s.subrange(0, s.len() - 1)).push(s[s.len() - 1])
    }
}

proof fn lemma_last_component(s: Seq<char>, a: int)
    requires
        0 <= a <= s.len(),
        a == 0 || s[a - 1] == '/',
        forall|k: int| a <= k < s.len() ==> s[k] != '/',
    ensures
        last_component(s) == s.subrange(a, s.len() as int),
    decreases s.len(),
{
    if a == s.len() {
        assert(s.subrange(a, s.len() as int) =~= Seq::empty());
    } else {
        let init = s.subrange(0, s.len() - 1);
        lemma_last_component(init, a);
        assert(init.subrange(a, init.len() as int).push(s[s.len() - 1]) =~= s.subrange(
            a,
            s.len() as int,
        ));
    }
}

/// The text behind the last slash.
pub fn after_last_slash(s: &[char]) -> (r: String)
    ensures
        r@ == last_component(s@),
        !r@.contains('/'),
{
    let mut a: usize = s.len();
    while a > 0 && s[a - 1] != '/'
        invariant
            a <= s@.len(),
            forall|k: int| a <= k < s@.len() ==> s@[k] != '/',
        decreases a,
    {
        a = a - 1;
    }
    proof {
        lemma_last_component(s@, a as int);
    }
    string_of(slice_subrange(s, a, s.len()))
}

/// A path without what stands for nothing at its end: separators, and a last component `.` that is
/// not the whole path.
pub open spec fn path_trunk(path: Seq<char>) -> Seq<char>
    decreases path.len(),
{
    let n = path.len() as int;
    if n > 0 && path[n - 1] == '/' {
        path_trunk(path.subrange(0, n - 1))
    } else if n > 1 && path[n - 1] == '.' && path[n - 2] == '/' {
        path_trunk(path.subrange(0, n - 1))
    } else {
        path
    }
}

/// The last component of a path, where it is a name and not one that stands for a directory.
pub open spec fn path_file_name(path: Seq<char>) -> Option<Seq<char>> {
    let n = last_component(path_trunk(path));
    if n.len() == 0 || n == "."@ || n == ".."@ {
        None
    } else {
        Some(n)
    }
}

/// The last component of a path, where it is a name. A path that is a single name is its own file
/// name.
pub fn file_name(path: &str) -> (r: Option<String>)
    ensures
        optional_text(r) == path_file_name(path@),
        r matches Some(n) ==> is_plain_name(n@),
        is_plain_name(path@) ==> optional_text(r) == Some(path@),
{
    let chars: Vec<char> = chars_of(path);
    let mut n: usize = chars.len();
    assert(chars@.subrange(0, n as int) =~= path@);
    while n > 0 && (chars[n - 1] == '/' || (n > 1 && chars[n - 1] == '.' && chars[n - 2] == '/'))
        invariant
            n <= chars@.len(),
            chars@ == path@,
            path_trunk(chars@.subrange(0, n as int)) == path_trunk(path@),
            is_plain_name(path@) ==> n == chars@.len(),
        decreases n,
    {
        let ghost upto = chars@.subrange(0, n as int);
        assert(upto.subrange(0, n - 1) =~= chars@.subrange(0, n - 1));
        n = n - 1;
    }
    let name: String = after_last_slash(slice_subrange(&chars, 0, n));
    proof {
        if is_plain_name(path@) {
            assert(path_trunk(path@) =~= path@);
            lemma_last_component(path@, 0);
            assert(path@.subrange(0, path@.len() as int) =~= path@);
        }
    }
    if name.as_str().is_empty() || same_text(&name, ".") || same_text(&name, "..") {
        None
    } else {
        Some(name)
    }
}

/// A file name without what follows its last dot. A dot at the beginning does not count.
pub open spec fn stem_of(name: Seq<char>) -> Seq<char> {
    let d = find_last_char(name, '.');
    if d <= 0 {
        name
    } else {
        name.subrange(0, d)
    }
}

/// What follows the last dot of a file name. A dot at the beginning does not count.
pub open spec fn extension_of(name: Seq<char>) -> Option<Seq<char>> {
    let d = find_last_char(name, '.');
    if d <= 0 {
        None
    } else {
        Some(name.subrange(d + 1, name.len() as int))
    }
}

/// The file name of a path without its extension.
pub open spec fn path_file_stem(path: Seq<char>) -> Option<Seq<char>> {
    match path_file_name(path) {
        Some(n) => Some(stem_of(n)),
        None => None,
    }
}

/// The extension of a path's file name.
pub open spec fn path_extension(path: Seq<char>) -> Option<Seq<char>> {
    match path_file_name(path) {
        Some(n) => extension_of(n),
        None => None,
    }
}

/// The file name of a path without its extension.
pub fn file_stem(path: &str) -> (r: Option<String>)
    ensures
        optional_text(r) == path_file_stem(path@),
{
    match file_name(path) {
        Some(name) => {
            let chars: Vec<char> = chars_of(&name);
            match last_index_of(&chars, '.') {
                Some(d) => if d == 0 {
                    Some(name)
                } else {
                    Some(string_of(slice_subrange(&chars, 0, d)))
                },
                None => Some(name),
            }
        },
        None => None,
    }
}

/// The extension of a path's file name.
pub fn extension(path: &str) -> (r: Option<String>)
    ensures
        optional_text(r) == path_extension(path@),
{
    match file_name(path) {
        Some(name) => {
            let chars: Vec<char> = chars_of(&name);
            match last_index_of(&chars, '.') {
                Some(d) => if d == 0 {
                    None
                } else {
                    assert(chars@.len() == chars.len());
                    Some(string_of(slice_subrange(&chars, d + 1, chars.len())))
                },
                None => None,
            }
        },
        None => None,
    }
}

// ── The staging area ─────────────────────────────────────────────────────────

/// The words where neither directory is known.
pub open spec fn no_staging() -> Seq<char> {
    "Security Error: Neither XDG_RUNTIME_DIR nor HOME environment variables are set."@
}

/// The staging directory: under the runtime directory of the session, or else under the home
/// directory.
pub open spec fn staging_spec(runtime_dir: Option<Seq<char>>, home: Option<Seq<char>>) -> Option<
    Seq<char>,
> {
    match (runtime_dir, home) {
        (Some(r), _) => Some(r + "/atom_staging"@),
        (None, Some(h)) => Some(h + "/.atom_vault/staging"@),
        (None, None) => None,
    }
}

/// The staging directory.
pub fn staging_dir(runtime_dir: &Option<String>, home: &Option<String>) -> (r: Result<
    String,
    &'static str,
>)
    ensures
        match staging_spec(optional_text(*runtime_dir), optional_text(*home)) {
            Some(d) => r matches Ok(s) && s@ == d,
            None => r matches Err(e) && e@ == no_staging(),
        },
{
    match (runtime_dir, home) {
        (Some(r), _) => Ok(concat(r, "/atom_staging")),
        (None, Some(h)) => Ok(concat(h, "/.atom_vault/staging")),
        (None, None) => Err(
            "Security Error: Neither XDG_RUNTIME_DIR nor HOME environment variables are set.",
        ),
    }
}

/// Whether a path lies in a directory, or is it. Both are canonical: absolute, without links,
/// and without a separator at the end but for the root itself.
pub open spec fn lies_within(path: Seq<char>, dir: Seq<char>) -> bool {
    path == dir || (dir + "/"@).is_prefix_of(path) || (dir == "/"@ && dir.is_prefix_of(path))
}

/// Whether a canonical path lies in a canonical directory.
pub fn path_within(path: &str, dir: &str) -> (r: bool)
    ensures
        r == lies_within(path@, dir@),
{
    if same_text(path, dir) {
        return true;
    }
    if starts_with(path, &concat(dir, "/")) {
        return true;
    }
    same_text(dir, "/") && starts_with(path, dir)
}

/// A name put under a directory.
pub fn join(dir: &str, name: &str) -> (r: String)
    ensures
        r@ == dir@ + "/"@ + name@,
{
    let mut out: String = concat(dir, "/");
    push_text(&mut out, name);
    out
}

/// A relative path behind a directory, with one separator between them unless the directory is
/// empty or brings its own.
pub open spec fn pushed(dir: Seq<char>, rel: Seq<char>) -> Seq<char> {
    if dir.len() == 0 || dir[dir.len() - 1] == '/' {
        dir + rel
    } else {
        dir + "/"@ + rel
    }
}

/// A relative path behind a directory.
pub fn push_path(dir: &str, rel: &str) -> (r: String)
    ensures
        r@ == pushed(dir@, rel@),
{
    proof {
        reveal_strlit("/");
        assert("/"@.is_suffix_of(dir@) <==> dir@.len() > 0 && dir@[dir@.len() - 1] == '/') by {
            if dir@.len() > 0 {
                assert(dir@.subrange(dir@.len() - 1, dir@.len() as int) =~= seq![
                    dir@[dir@.len() - 1],
                ]);
                if dir@[dir@.len() - 1] == '/' {
                    assert("/"@ =~= dir@.subrange(dir@.len() - 1, dir@.len() as int));
                } else {
                    assert("/"@[0] != dir@.subrange(dir@.len() - 1, dir@.len() as int)[0]);
                }
            }
        }
    }
    if dir.is_empty() || ends_with(dir, "/") {
        concat(dir, rel)
    } else {
        join(dir, rel)
    }
}

/// A path taken from a directory: behind it where it is relative, and as it is where it is
/// absolute.
pub open spec fn path_joined(dir: Seq<char>, path: Seq<char>) -> Seq<char> {
    if path.len() > 0 && path[0] == '/' {
        path
    } else {
        pushed(dir, path)
    }
}

/// A path taken from a directory.
pub fn join_path(dir: &str, path: &str) -> (r: String)
    ensures
        r@ == path_joined(dir@, path@),
{
    proof {
        reveal_strlit("/");
        assert("/"@.is_prefix_of(path@) <==> path@.len() > 0 && path@[0] == '/') by {
            if path@.len() > 0 {
                assert(path@.subrange(0, 1) =~= seq![path@[0]]);
                assert("/"@ =~= seq!['/']);
                assert(seq![path@[0]][0] == path@[0]);
            }
        }
    }
    if starts_with(path, "/") {
        copy_text(path)
    } else {
        push_path(dir, path)
    }
}

// ── Laws ─────────────────────────────────────────────────────────────────────

/// The file name of a path is its last component, whatever directory stands before it and however
/// many slashes behind it.
pub proof fn law_file_name_is_the_last_component(dir: Seq<char>, name: Seq<char>, path: Seq<char>)
    requires
        name.len() > 0,
        !name.contains('/'),
        name != "."@,
        name != ".."@,
    ensures
        path_file_name(dir.push('/') + name) == Some(name),
        path_file_name(name) == Some(name),
        path_file_name(path.push('/')) == path_file_name(path),
{
    reveal_strlit(".");
    assert forall|j: int| 0 <= j < name.len() implies name[j] != '/' by {
        assert(name.contains(name[j]));
    }
    let p = dir.push('/') + name;
    assert(p[p.len() - 1] == name[name.len() - 1]);
    if name[name.len() - 1] == '.' && p[p.len() - 2] == '/' {
        if name.len() > 1 {
            assert(p[p.len() - 2] == name[name.len() - 2]);
        } else {
            assert(name =~= "."@);
        }
    }
    assert(path_trunk(p) == p);
    assert forall|k: int| dir.len() + 1 <= k < p.len() implies p[k] != '/' by {
        assert(p[k] == name[k - dir.len() - 1]);
    }
    assert(p[dir.len() as int] == '/');
    lemma_last_component(p, (dir.len() + 1) as int);
    assert(p.subrange((dir.len() + 1) as int, p.len() as int) =~= name);
    assert(path_trunk(name) == name);
    lemma_last_component(name, 0);
    assert(name.subrange(0, name.len() as int) =~= name);
    assert(path.push('/').subrange(0, path.len() as int) =~= path);
}

/// A file name is its stem, a dot and its extension, where it has one: the extension holds no dot
/// and the stem is not empty. Without extension the stem is the whole name.
pub proof fn law_name_is_stem_and_extension(name: Seq<char>, stem: Seq<char>, ext: Seq<char>)
    ensures
        stem.len() > 0 && !ext.contains('.') ==> stem_of(stem.push('.') + ext) == stem
            && extension_of(stem.push('.') + ext) == Some(ext),
        !name.contains('.') ==> stem_of(name) == name && extension_of(name) is None,
        !ext.contains('.') ==> stem_of(seq!['.'] + ext) == seq!['.'] + ext && extension_of(
            seq!['.'] + ext,
        ) is None,
{
    law_first_and_last_place(stem, '.', ext);
    law_first_and_last_place(name, '.', ext);
    law_first_and_last_place(Seq::empty(), '.', ext);
    let whole = stem.push('.') + ext;
    if stem.len() > 0 && !ext.contains('.') {
        assert(whole.subrange(0, stem.len() as int) =~= stem);
        assert(whole.subrange((stem.len() + 1) as int, whole.len() as int) =~= ext);
    }
    assert(Seq::<char>::empty().push('.') + ext =~= seq!['.'] + ext);
}

/// A path has the stem and the extension of its file name.
pub proof fn law_path_has_the_stem_of_its_name(path: Seq<char>)
    ensures
        match path_file_name(path) {
            Some(name) => path_file_stem(path) == Some(stem_of(name)) && path_extension(path)
                == extension_of(name),
            None => path_file_stem(path) is None && path_extension(path) is None,
        },
{
}

/// A path lies in a directory where it is the directory or goes on behind it with a slash; a longer
/// name that begins alike is another one.
pub proof fn law_lying_within(dir: Seq<char>, rest: Seq<char>, c: char)
    ensures
        lies_within(dir, dir),
        lies_within(dir + "/"@ + rest, dir),
        dir != "/"@ && c != '/' ==> !lies_within(dir.push(c) + rest, dir),
        lies_within("/"@ + rest, "/"@),
{
    reveal_strlit("/");
    let inner = dir + "/"@ + rest;
    assert(inner.subrange(0, (dir + "/"@).len() as int) =~= dir + "/"@);
    let other = dir.push(c) + rest;
    if dir != "/"@ && c != '/' {
        assert(other.len() > dir.len());
        if (dir + "/"@).is_prefix_of(other) {
            assert(other.subrange(0, (dir + "/"@).len() as int)[dir.len() as int] == '/');
            assert(other[dir.len() as int] == c);
        }
    }
    let top = "/"@ + rest;
    assert(top.subrange(0, 1) =~= "/"@);
}

/// A path that lies in a directory begins with it.
pub proof fn law_within_begins_with_the_directory(path: Seq<char>, dir: Seq<char>)
    requires
        lies_within(path, dir),
    ensures
        path.len() >= dir.len(),
        path.subrange(0, dir.len() as int) == dir,
        dir != "/"@ && path.len() > dir.len() ==> path[dir.len() as int] == '/',
{
    reveal_strlit("/");
    if path == dir {
        assert(path.subrange(0, dir.len() as int) =~= dir);
    } else if (dir + "/"@).is_prefix_of(path) {
        let head = path.subrange(0, (dir + "/"@).len() as int);
        assert(head == dir + "/"@);
        assert(head[dir.len() as int] == '/');
        assert(path.subrange(0, dir.len() as int) =~= head.subrange(0, dir.len() as int));
        assert(head.subrange(0, dir.len() as int) =~= dir);
    }
}

/// A relative path goes behind its directory with one slash between them; an absolute path stays as
/// it is.
pub proof fn law_joining_paths(dir: Seq<char>, path: Seq<char>)
    ensures
        path.len() > 0 && path[0] == '/' ==> path_joined(dir, path) == path,
        (path.len() == 0 || path[0] != '/') && dir.len() > 0 && dir[dir.len() - 1] != '/'
            ==> path_joined(dir, path) == dir + "/"@ + path,
        (path.len() == 0 || path[0] != '/') && dir.len() > 0 && dir[dir.len() - 1] == '/'
            ==> path_joined(dir, path) == dir + path,
        (path.len() == 0 || path[0] != '/') && dir.len() == 0 ==> path_joined(dir, path) == path,
{
    if dir.len() == 0 {
        assert(dir + path =~= path);
    }
}

/// Files are staged in the runtime directory of the session where there is one, and otherwise in
/// the home directory; without either there is no place for them.
pub proof fn law_staging_prefers_the_session(runtime_dir: Option<Seq<char>>, home: Option<Seq<char>>)
    ensures
        runtime_dir matches Some(r) ==> staging_spec(runtime_dir, home) == Some(
            r + "/atom_staging"@,
        ),
        runtime_dir is None ==> (home matches Some(h) ==> staging_spec(runtime_dir, home) == Some(
            h + "/.atom_vault/staging"@,
        )),
        runtime_dir is None && home is None ==> staging_spec(runtime_dir, home) is None,
{
}

/// A name for a file has characters, no slash among them, and stands for no directory.
pub proof fn law_plain_names(s: Seq<char>)
    ensures
        is_plain_name(s) <==> s.len() > 0 && (forall|i: int| 0 <= i < s.len() ==> s[i] != '/')
            && s != seq!['.'] && s != seq!['.', '.'],
{
    reveal_strlit(".");
    reveal_strlit("..");
    assert("."@ =~= seq!['.']);
    assert(".."@ =~= seq!['.', '.']);
    if !s.contains('/') {
        assert forall|i: int| 0 <= i < s.len() implies s[i] != '/' by {
            assert(s.contains(s[i]));
        }
    }
}

/// The text behind the last slash of a path is its last component, and a text without slashes is
/// its own.
pub proof fn law_last_component(dir: Seq<char>, name: Seq<char>)
    requires
        !name.contains('/'),
    ensures
        last_component(dir.push('/') + name) == name,
        last_component(name) == name,
{
    let p = dir.push('/') + name;
    assert forall|k: int| dir.len() + 1 <= k < p.len() implies p[k] != '/' by {
        assert(p[k] == name[k - dir.len() - 1]);
        assert(name.contains(name[k - dir.len() - 1]));
    }
    lemma_last_component(p, (dir.len() + 1) as int);
    assert(p.subrange((dir.len() + 1) as int, p.len() as int) =~= name);
    assert forall|k: int| 0 <= k < name.len() implies name[k] != '/' by {
        assert(name.contains(name[k]));
    }
    lemma_last_component(name, 0);
    assert(name.subrange(0, name.len() as int) =~= name);
}

/// An optional text is there exactly where it is given, and is the text that is given.
pub proof fn law_optional_text(s: Option<String>)
    ensures
        s is None <==> optional_text(s) is None,
        s matches Some(t) ==> optional_text(s) == Some(t@),
{
}

/// A component that is a single dot at the end of a path does not count, and a path that ends with
/// two dots, or has nothing but them, has no file name.
pub proof fn law_dots_are_no_file_names(path: Seq<char>)
    ensures
        path_file_name(path + seq!['/', '.']) == path_file_name(path),
        path_file_name(path + seq!['/', '.', '.']) is None,
        path_file_name(seq!['.', '.']) is None,
        path_file_name(seq!['.']) is None,
        path_file_name(Seq::empty()) is None,
{
    reveal_strlit(".");
    reveal_strlit("..");
    let one = path + seq!['/', '.'];
    assert(one.subrange(0, one.len() - 1) =~= path.push('/'));
    assert(path.push('/').subrange(0, path.len() as int) =~= path);
    assert(path_trunk(one) == path_trunk(path.push('/')));
    assert(path_trunk(path.push('/')) == path_trunk(path));
    let two = path + seq!['/', '.', '.'];
    assert(path_trunk(two) == two);
    lemma_last_component(two, (path.len() + 1) as int);
    assert(two.subrange((path.len() + 1) as int, two.len() as int) =~= ".."@);
    let up = seq!['.', '.'];
    assert(path_trunk(up) == up);
    lemma_last_component(up, 0);
    assert(up.subrange(0, 2) =~= ".."@);
    let here = seq!['.'];
    assert(path_trunk(here) == here);
    lemma_last_component(here, 0);
    assert(here.subrange(0, 1) =~= "."@);
    let none = Seq::<char>::empty();
    assert(path_trunk(none) == none);
    lemma_last_component(none, 0);
}

} // verus!
