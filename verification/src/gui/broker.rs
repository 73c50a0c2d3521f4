//! Opening a decrypted file in the user's own viewer: how the viewer's command is found and how it
//! is written so that the plaintext stays out of the document portal.

use crate::paths::{
    extension, file_stem, join_path, law_file_name_is_the_last_component,
    law_name_is_stem_and_extension, law_path_has_the_stem_of_its_name, optional_text,
    path_extension, path_file_stem, path_joined, push_path, pushed,
};
use crate::text::{
    all_white, around, ascii_lower_text, chars_of, concat, copy_text, ends_with, is_white_space,
    law_trim_takes_white_space_from_the_ends, lines, lines_spec, lower_text, push_text, same_text,
    starts_with, string_of, trim, trim_spec, views,
};
use vstd::prelude::*;
use vstd::slice::slice_subrange;

verus! {

// ── The staged file ──────────────────────────────────────────────────────────

/// The name of the staged copy: the stem, a mark, and the extension, by which the viewer is found.
pub open spec fn staged_name_spec(filename: Seq<char>) -> Seq<char> {
    (match path_file_stem(filename) {
        Some(s) => s,
        None => filename,
    }) + "_view_tmp"@ + (match path_extension(filename) {
        Some(e) => "."@ + e,
        None => Seq::empty(),
    })
}

/// The directory of staged copies: under the runtime directory of the session, or else in the
/// application's directory under the home directory.
pub open spec fn viewer_staging_spec(
    runtime_dir: Option<Seq<char>>,
    home: Option<Seq<char>>,
) -> Seq<char> {
    pushed(
        match (runtime_dir, home) {
            (Some(r), _) => r,
            (None, Some(h)) => pushed(h, ".atom_vault"@),
            (None, None) => pushed("/tmp"@, ".atom_vault"@),
        },
        "atom_staging"@,
    )
}

/// The name of the staged copy.
pub fn staged_name(filename: &str) -> (r: String)
    ensures
        r@ == staged_name_spec(filename@),
{
    let mut out: String = match file_stem(filename) {
        Some(s) => s,
        None => copy_text(filename),
    };
    push_text(&mut out, "_view_tmp");
    match extension(filename) {
        Some(e) => push_text(&mut out, &concat(".", &e)),
        None => {},
    }
    assert(out@ =~= staged_name_spec(filename@));
    out
}

/// The directory of staged copies.
pub fn viewer_staging(runtime_dir: &Option<String>, home: &Option<String>) -> (r: String)
    ensures
        r@ == viewer_staging_spec(optional_text(*runtime_dir), optional_text(*home)),
{
    let base: String = match (runtime_dir, home) {
        (Some(r), _) => copy_text(r),
        (None, Some(h)) => push_path(h, ".atom_vault"),
        (None, None) => push_path("/tmp", ".atom_vault"),
    };
    push_path(&base, "atom_staging")
}

// ── The command line of a desktop entry ──────────────────────────────────────

/// Whether a character ends a word outside of quotes.
pub open spec fn is_blank_char(c: char) -> bool {
    c == ' ' || c == '\t'
}

/// The word that is pending, where one was begun.
pub open spec fn pending(cur: Seq<char>, started: bool) -> Seq<Seq<char>> {
    if started || cur.len() > 0 {
        seq![cur]
    } else {
        Seq::empty()
    }
}

/// The words of a command line from position `i` on, of which `cur` is read so far. Blanks end a
/// word. Double quotes keep blanks in a word, and between them a backslash keeps the character
/// behind it. A pair of quotes begins a word even where nothing stands between them.
pub open spec fn words_from(
    s: Seq<char>,
    i: int,
    cur: Seq<char>,
    in_quote: bool,
    started: bool,
) -> Seq<Seq<char>>
    decreases s.len() - i,
{
    if i < 0 || i >= s.len() {
        pending(cur, started)
    } else if s[i] == '"' {
        words_from(s, i + 1, cur, !in_quote, true)
    } else if s[i] == '\\' && in_quote {
        if i + 1 < s.len() {
            words_from(s, i + 2, cur.push(s[i + 1]), in_quote, started)
        } else {
            words_from(s, i + 1, cur, in_quote, started)
        }
    } else if is_blank_char(s[i]) && !in_quote {
        pending(cur, started) + words_from(s, i + 1, Seq::empty(), false, false)
    } else {
        words_from(s, i + 1, cur.push(s[i]), in_quote, true)
    }
}

/// The words of a command line.
pub open spec fn exec_words(s: Seq<char>) -> Seq<Seq<char>> {
    words_from(s, 0, Seq::empty(), false, false)
}

/// Splits a command line into its words.
pub fn tokenize_exec(s: &str) -> (r: Vec<String>)
    ensures
        views(r@) == exec_words(s@),
{
    let x: Vec<char> = chars_of(s);
    let mut out: Vec<String> = Vec::new();
    let mut cur: String = String::new();
    let mut in_quote: bool = false;
    let mut started: bool = false;
    let mut i: usize = 0;
    assert(cur@ =~= Seq::empty());
    assert(views(out@) + exec_words(s@) =~= exec_words(s@));
    while i < x.len()
        invariant
            x@ == s@,
            i <= x@.len(),
            x@.len() == x.len(),
            views(out@) + words_from(s@, i as int, cur@, in_quote, started) == exec_words(s@),
        decreases x@.len() - i,
    {
        let c: char = x[i];
        if c == '"' {
            in_quote = !in_quote;
            started = true;
        } else if c == '\\' && in_quote {
            if i + 1 < x.len() {
                i = i + 1;
                cur.push(x[i]);
            }
        } else if (c == ' ' || c == '\t') && !in_quote {
            let ghost before = views(out@);
            let ghost word = cur@;
            let ghost begun = started;
            let ghost rest = words_from(s@, i + 1, Seq::empty(), false, false);
            assert(before + (pending(word, begun) + rest) =~= (before + pending(word, begun))
                + rest);
            if started || !cur.as_str().is_empty() {
                let mut done: String = String::new();
                std::mem::swap(&mut done, &mut cur);
                out.push(done);
                assert(views(out@) =~= before + pending(word, begun));
            } else {
                assert(views(out@) =~= before + pending(word, begun));
            }
            assert(cur@ =~= Seq::empty());
            started = false;
        } else {
            cur.push(c);
            started = true;
        }
        i = i + 1;
    }
    let ghost before = views(out@);
    if started || !cur.as_str().is_empty() {
        let ghost word = cur@;
        out.push(cur);
        assert(views(out@) =~= before + pending(word, started));
    } else {
        assert(views(out@) =~= before + pending(cur@, started));
    }
    out
}

/// The codes that stand for the file.
pub open spec fn is_file_code(t: Seq<char>) -> bool {
    t == "%f"@ || t == "%F"@ || t == "%u"@ || t == "%U"@
}

/// The codes that are dropped.
pub open spec fn is_dropped_code(t: Seq<char>) -> bool {
    ||| t == "%i"@
    ||| t == "%c"@
    ||| t == "%k"@
    ||| t == "%d"@
    ||| t == "%D"@
    ||| t == "%n"@
    ||| t == "%N"@
    ||| t == "%v"@
    ||| t == "%m"@
}

/// The text with one percent sign for each pair, from the left.
pub open spec fn percent_text(t: Seq<char>) -> Seq<char>
    decreases t.len(),
{
    if t.len() == 0 {
        t
    } else if t.len() > 1 && t[0] == '%' && t[1] == '%' {
        seq!['%'] + percent_text(t.subrange(2, t.len() as int))
    } else {
        seq![t[0]] + percent_text(t.subrange(1, t.len() as int))
    }
}

/// The text with one percent sign for each pair.
pub fn single_percents(t: &str) -> (r: String)
    ensures
        r@ == percent_text(t@),
{
    let x: Vec<char> = chars_of(t);
    let mut out: String = String::new();
    let mut i: usize = 0;
    assert(x@.subrange(0, x@.len() as int) =~= t@);
    assert(out@ + percent_text(t@) =~= percent_text(t@));
    while i < x.len()
        invariant
            x@ == t@,
            i <= x@.len(),
            x@.len() == x.len(),
            out@ + percent_text(x@.subrange(i as int, x@.len() as int)) == percent_text(t@),
        decreases x@.len() - i,
    {
        let ghost rest = x@.subrange(i as int, x@.len() as int);
        let ghost before = out@;
        assert(rest[0] == x@[i as int]);
        if x.len() - i > 1 && x[i] == '%' && x[i + 1] == '%' {
            assert(rest.subrange(2, rest.len() as int) =~= x@.subrange(i + 2, x@.len() as int));
            let ghost tail = percent_text(rest.subrange(2, rest.len() as int));
            out.push('%');
            assert(before.push('%') + tail =~= before + (seq!['%'] + tail));
            i = i + 2;
        } else {
            assert(rest.subrange(1, rest.len() as int) =~= x@.subrange(i + 1, x@.len() as int));
            let ghost tail = percent_text(rest.subrange(1, rest.len() as int));
            out.push(x[i]);
            assert(before.push(x@[i as int]) + tail =~= before + (seq![x@[i as int]] + tail));
            i = i + 1;
        }
    }
    assert(x@.subrange(x@.len() as int, x@.len() as int) =~= Seq::empty());
    assert(out@ + Seq::<char>::empty() =~= out@);
    out
}

/// The words of a command with the file in the place of its codes.
pub open spec fn filled(words: Seq<Seq<char>>, path: Seq<char>) -> Seq<Seq<char>>
    decreases words.len(),
{
    if words.len() == 0 {
        Seq::empty()
    } else {
        let before = filled(words.subrange(0, words.len() - 1), path);
        let t = words[words.len() - 1];
        if is_file_code(t) {
            before.push(path)
        } else if is_dropped_code(t) {
            before
        } else {
            before.push(percent_text(t))
        }
    }
}

/// Whether some word is a code for the file.
pub open spec fn takes_file(words: Seq<Seq<char>>) -> bool {
    exists|k: int| 0 <= k < words.len() && is_file_code(#[trigger] words[k])
}

/// The command with its arguments. A command that has no place for the file gets it at the end.
pub open spec fn argv_spec(exec: Seq<char>, path: Seq<char>) -> Seq<Seq<char>> {
    let words = exec_words(exec);
    if takes_file(words) {
        filled(words, path)
    } else {
        filled(words, path).push(path)
    }
}

fn file_code(t: &str) -> (r: bool)
    ensures
        r == is_file_code(t@),
{
    same_text(t, "%f") || same_text(t, "%F") || same_text(t, "%u") || same_text(t, "%U")
}

fn dropped_code(t: &str) -> (r: bool)
    ensures
        r == is_dropped_code(t@),
{
    same_text(t, "%i") || same_text(t, "%c") || same_text(t, "%k") || same_text(t, "%d")
        || same_text(t, "%D") || same_text(t, "%n") || same_text(t, "%N") || same_text(t, "%v")
        || same_text(t, "%m")
}

/// The command with its arguments.
pub fn build_argv(exec: &str, path: &str) -> (r: Vec<String>)
    ensures
        views(r@) == argv_spec(exec@, path@),
{
    let words: Vec<String> = tokenize_exec(exec);
    let ghost w = views(words@);
    let mut argv: Vec<String> = Vec::new();
    let mut substituted: bool = false;
    let mut i: usize = 0;
    assert(w.subrange(0, 0) =~= Seq::empty());
    assert(views(argv@) =~= Seq::empty());
    while i < words.len()
        invariant
            w == views(words@),
            w.len() == words@.len(),
            i <= words@.len(),
            views(argv@) == filled(w.subrange(0, i as int), path@),
            substituted == exists|k: int| 0 <= k < i && is_file_code(#[trigger] w[k]),
        decreases words@.len() - i,
    {
        let ghost upto = w.subrange(0, i + 1);
        let ghost before = views(argv@);
        assert(upto.subrange(0, i as int) =~= w.subrange(0, i as int));
        let t: &str = words[i].as_str();
        assert(w[i as int] == t@);
        if file_code(t) {
            argv.push(copy_text(path));
            substituted = true;
            assert(views(argv@) =~= before.push(path@));
        } else if !dropped_code(t) {
            argv.push(single_percents(t));
            assert(views(argv@) =~= before.push(percent_text(t@)));
        }
        i = i + 1;
    }
    assert(w.subrange(0, w.len() as int) =~= w);
    if !substituted {
        let ghost before = views(argv@);
        argv.push(copy_text(path));
        assert(views(argv@) =~= before.push(path@));
    }
    argv
}

proof fn lemma_filled_contains(words: Seq<Seq<char>>, path: Seq<char>, k: int)
    requires
        0 <= k < words.len(),
        is_file_code(words[k]),
    ensures
        filled(words, path).contains(path),
    decreases words.len(),
{
    let n = words.len() as int;
    let init = words.subrange(0, n - 1);
    let before = filled(init, path);
    if k == n - 1 {
        assert(before.push(path)[before.len() as int] == path);
    } else {
        lemma_filled_contains(init, path, k);
        let j = choose|j: int| 0 <= j < before.len() && before[j] == path;
        assert(filled(words, path)[j] == path);
    }
}

/// Every command that is built names the file.
pub proof fn law_argv_names_file(exec: Seq<char>, path: Seq<char>)
    ensures
        argv_spec(exec, path).contains(path),
{
    let words = exec_words(exec);
    if takes_file(words) {
        let k = choose|k: int| 0 <= k < words.len() && is_file_code(#[trigger] words[k]);
        lemma_filled_contains(words, path, k);
    } else {
        let before = filled(words, path);
        assert(before.push(path)[before.len() as int] == path);
    }
}

proof fn lemma_quoted_run(t: Seq<char>, k: int)
    requires
        0 <= k <= t.len(),
        !t.contains('"'),
        !t.contains('\\'),
    ensures
        words_from(seq!['"'] + t + seq!['"'], k + 1, t.subrange(0, k), true, true) == seq![t],
    decreases t.len() - k,
{
    let s = seq!['"'] + t + seq!['"'];
    if k == t.len() {
        assert(t.subrange(0, k) =~= t);
        assert(s[k + 1] == '"');
        assert(words_from(s, k + 2, t, false, true) == seq![t]);
    } else {
        assert(s[k + 1] == t[k]);
        assert(t.contains(t[k]));
        assert(t.subrange(0, k).push(t[k]) =~= t.subrange(0, k + 1));
        lemma_quoted_run(t, k + 1);
    }
}

/// A text in quotes is one word, blanks and all.
pub proof fn law_quoted_text_is_one_word(t: Seq<char>)
    requires
        !t.contains('"'),
        !t.contains('\\'),
    ensures
        exec_words(seq!['"'] + t + seq!['"']) == seq![t],
{
    let s = seq!['"'] + t + seq!['"'];
    assert(s[0] == '"');
    assert(t.subrange(0, 0) =~= Seq::empty());
    lemma_quoted_run(t, 0);
}

// ── Viewers in a flatpak ─────────────────────────────────────────────────────

/// The words by which a file goes through the document portal.
pub open spec fn is_portal_word(t: Seq<char>) -> bool {
    t == "--file-forwarding"@ || t == "@@"@ || t == "@@u"@
}

/// The words without those of the document portal.
pub open spec fn without_portal(words: Seq<Seq<char>>) -> Seq<Seq<char>>
    decreases words.len(),
{
    if words.len() == 0 {
        words
    } else {
        let before = without_portal(words.subrange(0, words.len() - 1));
        let t = words[words.len() - 1];
        if is_portal_word(t) {
            before
        } else {
            before.push(t)
        }
    }
}

/// The place of the first `run`, or the length where there is none.
pub open spec fn run_place(argv: Seq<Seq<char>>) -> int
    decreases argv.len(),
{
    if argv.len() == 0 || argv[0] == "run"@ {
        0
    } else {
        1 + run_place(argv.subrange(1, argv.len() as int))
    }
}

/// The text where the application itself runs in a flatpak.
pub open spec fn nested_flatpak() -> Seq<char> {
    "atom is running inside a flatpak sandbox and cannot launch a host flatpak viewer without opening the org.freedesktop.Flatpak host-spawn hole. Install atom as a native binary so it can drive viewers directly."@
}

/// The text for a flatpak command that runs nothing.
pub open spec fn no_run() -> Seq<char> {
    "Unrecognised flatpak invocation (no `run` subcommand)"@
}

/// The command of a flatpak viewer without network, bound to this process, that sees one file
/// directly in place of the portal.
pub open spec fn flatpak_argv(argv: Seq<Seq<char>>, grant: Seq<char>) -> Seq<Seq<char>> {
    seq![
        argv[0],
        "run"@,
        "--unshare=network"@,
        "--die-with-parent"@,
        "--filesystem="@ + grant,
    ] + without_portal(argv.subrange(run_place(argv) + 1, argv.len() as int))
}

fn portal_word(t: &str) -> (r: bool)
    ensures
        r == is_portal_word(t@),
{
    same_text(t, "--file-forwarding") || same_text(t, "@@") || same_text(t, "@@u")
}

proof fn lemma_run_place(argv: Seq<Seq<char>>, i: int)
    requires
        0 <= i <= argv.len(),
        i == argv.len() || argv[i] == "run"@,
        forall|k: int| 0 <= k < i ==> argv[k] != "run"@,
    ensures
        run_place(argv) == i,
    decreases argv.len(),
{
    if i > 0 {
        let rest = argv.subrange(1, argv.len() as int);
        assert forall|k: int| 0 <= k < i - 1 implies rest[k] != "run"@ by {
            assert(rest[k] == argv[k + 1]);
        }
        lemma_run_place(rest, i - 1);
    }
}

/// Rewrites the command of a flatpak viewer so that it reads the staged file through a grant for
/// that one file and not through the document portal.
pub fn rewrite_flatpak_argv(argv: &Vec<String>, grant: &str, in_flatpak: bool) -> (r: Result<
    Vec<String>,
    &'static str,
>)
    requires
        argv@.len() > 0,
    ensures
        match r {
            Ok(v) => !in_flatpak && run_place(views(argv@)) < argv@.len() && views(v@)
                == flatpak_argv(views(argv@), grant@),
            Err(e) => if in_flatpak {
                e@ == nested_flatpak()
            } else {
                run_place(views(argv@)) == argv@.len() && e@ == no_run()
            },
        },
{
    if in_flatpak {
        return Err(
            "atom is running inside a flatpak sandbox and cannot launch a host flatpak viewer without opening the org.freedesktop.Flatpak host-spawn hole. Install atom as a native binary so it can drive viewers directly.",
        );
    }
    let ghost w = views(argv@);
    let mut at: usize = 0;
    while at < argv.len() && !same_text(&argv[at], "run")
        invariant
            w == views(argv@),
            w.len() == argv@.len(),
            at <= argv@.len(),
            forall|k: int| 0 <= k < at ==> w[k] != "run"@,
        decreases argv@.len() - at,
    {
        at = at + 1;
    }
    proof {
        lemma_run_place(w, at as int);
    }
    if at == argv.len() {
        return Err("Unrecognised flatpak invocation (no `run` subcommand)");
    }
    let mut out: Vec<String> = Vec::new();
    out.push(copy_text(&argv[0]));
    out.push(copy_text("run"));
    out.push(copy_text("--unshare=network"));
    out.push(copy_text("--die-with-parent"));
    out.push(concat("--filesystem=", grant));
    let ghost head = views(out@);
    assert(head =~= seq![
        w[0],
        "run"@,
        "--unshare=network"@,
        "--die-with-parent"@,
        "--filesystem="@ + grant@,
    ]);
    let ghost tail = w.subrange(at + 1, w.len() as int);
    assert(argv@.len() == argv.len());
    let mut i: usize = at + 1;
    assert(tail.subrange(0, 0) =~= Seq::empty());
    assert(views(out@) =~= head + without_portal(tail.subrange(0, 0)));
    while i < argv.len()
        invariant
            w == views(argv@),
            w.len() == argv@.len(),
            at < i <= argv@.len(),
            tail == w.subrange(at + 1, w.len() as int),
            views(out@) == head + without_portal(tail.subrange(0, i - at - 1)),
        decreases argv@.len() - i,
    {
        let ghost upto = tail.subrange(0, i - at);
        let ghost before = views(out@);
        assert(upto.subrange(0, upto.len() - 1) =~= tail.subrange(0, i - at - 1));
        assert(upto[i - at - 1] == argv@[i as int]@);
        if !portal_word(&argv[i]) {
            out.push(copy_text(&argv[i]));
            assert(views(out@) =~= before.push(argv@[i as int]@));
            assert(views(out@) =~= head + without_portal(upto));
        }
        i = i + 1;
    }
    assert(tail.subrange(0, tail.len() as int) =~= tail);
    Ok(out)
}

proof fn lemma_no_portal_word(words: Seq<Seq<char>>)
    ensures
        forall|k: int|
            0 <= k < without_portal(words).len() ==> !is_portal_word(
                #[trigger] without_portal(words)[k],
            ),
    decreases words.len(),
{
    if words.len() > 0 {
        let init = words.subrange(0, words.len() - 1);
        lemma_no_portal_word(init);
        assert forall|k: int| 0 <= k < without_portal(words).len() implies !is_portal_word(
            #[trigger] without_portal(words)[k],
        ) by {
            if k < without_portal(init).len() {
                assert(without_portal(words)[k] == without_portal(init)[k]);
            }
        }
    }
}

/// No word of a rewritten command sends the file through the document portal, and the viewer has
/// no network and ends with this process.
pub proof fn law_portal_is_bypassed(argv: Seq<Seq<char>>, grant: Seq<char>)
    requires
        argv.len() > 0,
        !is_portal_word(argv[0]),
    ensures
        forall|k: int|
            0 <= k < flatpak_argv(argv, grant).len() ==> !is_portal_word(
                #[trigger] flatpak_argv(argv, grant)[k],
            ),
        flatpak_argv(argv, grant).contains("--unshare=network"@),
        flatpak_argv(argv, grant).contains("--die-with-parent"@),
{
    let tail = argv.subrange(run_place(argv) + 1, argv.len() as int);
    let out = flatpak_argv(argv, grant);
    lemma_no_portal_word(tail);
    reveal_strlit("--file-forwarding");
    reveal_strlit("@@");
    reveal_strlit("@@u");
    reveal_strlit("run");
    reveal_strlit("--unshare=network");
    reveal_strlit("--die-with-parent");
    reveal_strlit("--filesystem=");
    assert(out[2] == "--unshare=network"@);
    assert(out[3] == "--die-with-parent"@);
    assert(("--filesystem="@ + grant)[6] == 's');
    assert("--file-forwarding"@[6] == '-');
    assert(("--filesystem="@ + grant)[0] == '-');
    assert("--unshare=network"@[2] == 'u');
    assert("--file-forwarding"@[2] == 'f');
    assert("--die-with-parent"@[2] == 'd');
    assert("@@"@[0] == '@' && "@@u"@[0] == '@');
    assert("run"@[0] == 'r');
    assert forall|k: int| 0 <= k < out.len() implies !is_portal_word(#[trigger] out[k]) by {
        if k >= 5 {
            assert(out[k] == without_portal(tail)[k - 5]);
        }
    }
}

/// The value of a grant for one file, to be read only. A file under the runtime directory is named
/// relative to it.
pub open spec fn grant_spec(path: Seq<char>, relative: Option<Seq<char>>) -> Seq<char> {
    match relative {
        Some(rel) => "xdg-run/"@ + rel + ":ro"@,
        None => path + ":ro"@,
    }
}

/// The value of a grant for one file.
pub fn grant_value(path: &str, relative: &Option<String>) -> (r: String)
    ensures
        r@ == grant_spec(path@, optional_text(*relative)),
{
    match relative {
        Some(rel) => around("xdg-run/", rel, ":ro"),
        None => concat(path, ":ro"),
    }
}

/// A path relative to another that holds its first components.
pub uninterp spec fn path_below(path: Seq<char>, base: Seq<char>) -> Option<Seq<char>>;

/// `Path::strip_prefix`: the path relative to a base, where the base holds its first components.
/// What counts as a component is not stated.
#[verifier::external_body]
fn relative_path(path: &str, base: &str) -> (r: Option<String>)
    ensures
        optional_text(r) == path_below(path@, base@),
{
    std::path::Path::new(path).strip_prefix(base).ok().and_then(|p| p.to_str()).map(|p| p.to_owned())
}

/// The value of a grant for one file, by the runtime directory of the session.
pub fn flatpak_filesystem_spec(path: &str, runtime_dir: &Option<String>) -> (r: String)
    ensures
        r@ == grant_spec(
            path@,
            match optional_text(*runtime_dir) {
                Some(d) => if d.len() > 0 {
                    path_below(path@, d)
                } else {
                    None
                },
                None => None,
            },
        ),
{
    let relative: Option<String> = match runtime_dir {
        Some(d) => if d.as_str().is_empty() {
            None
        } else {
            relative_path(path, d)
        },
        None => None,
    };
    grant_value(path, &relative)
}

// ── Finding the viewer ───────────────────────────────────────────────────────

/// The type of a file by its extension in lower case.
pub open spec fn mime_of(ext: Seq<char>) -> Option<Seq<char>> {
    if ext == "pdf"@ {
        Some("application/pdf"@)
    } else if ext == "png"@ {
        Some("image/png"@)
    } else if ext == "jpg"@ || ext == "jpeg"@ {
        Some("image/jpeg"@)
    } else if ext == "gif"@ {
        Some("image/gif"@)
    } else if ext == "webp"@ {
        Some("image/webp"@)
    } else if ext == "svg"@ {
        Some("image/svg+xml"@)
    } else if ext == "txt"@ || ext == "md"@ || ext == "log"@ {
        Some("text/plain"@)
    } else {
        None
    }
}

/// The type of a file: what the system says of it, or else by its extension.
pub open spec fn mime_spec(queried: Option<Seq<char>>, path: Seq<char>) -> Option<Seq<char>> {
    if queried is Some && queried->Some_0.len() > 0 {
        queried
    } else {
        match path_extension(path) {
            Some(e) => mime_of(ascii_lower_text(e)),
            None => None,
        }
    }
}

fn mime_by_extension(ext: &str) -> (r: Option<&'static str>)
    ensures
        match r {
            Some(m) => mime_of(ext@) == Some(m@),
            None => mime_of(ext@) is None,
        },
{
    if same_text(ext, "pdf") {
        Some("application/pdf")
    } else if same_text(ext, "png") {
        Some("image/png")
    } else if same_text(ext, "jpg") || same_text(ext, "jpeg") {
        Some("image/jpeg")
    } else if same_text(ext, "gif") {
        Some("image/gif")
    } else if same_text(ext, "webp") {
        Some("image/webp")
    } else if same_text(ext, "svg") {
        Some("image/svg+xml")
    } else if same_text(ext, "txt") || same_text(ext, "md") || same_text(ext, "log") {
        Some("text/plain")
    } else {
        None
    }
}

/// The type of a file: what the system says of it, or else by its extension.
pub fn query_mime(queried: &Option<String>, path: &str) -> (r: Result<String, &'static str>)
    ensures
        match r {
            Ok(m) => mime_spec(optional_text(*queried), path@) == Some(m@),
            Err(e) => mime_spec(optional_text(*queried), path@) is None && e@
                == "Cannot determine file MIME type (is xdg-mime installed?)"@,
        },
{
    if let Some(m) = queried {
        if !m.as_str().is_empty() {
            return Ok(copy_text(m));
        }
    }
    if let Some(e) = extension(path) {
        if let Some(m) = mime_by_extension(&lower_text(&e)) {
            return Ok(copy_text(m));
        }
    }
    Err("Cannot determine file MIME type (is xdg-mime installed?)")
}

/// The application for a type of file: what the system names, or the words where it names none.
pub fn default_application(mime: &str, queried: &Option<String>) -> (r: Result<String, String>)
    ensures
        match optional_text(*queried) {
            Some(id) if id.len() > 0 => r matches Ok(s) && s@ == id,
            _ => r matches Err(e) && e@ == "No default application registered for "@ + mime@,
        },
{
    if let Some(id) = queried {
        if !id.as_str().is_empty() {
            return Ok(copy_text(id));
        }
    }
    Err(concat("No default application registered for ", mime))
}

/// The place of an application's desktop entry, or the words where there is none.
pub fn located_entry(id: &str, found: &Option<String>) -> (r: Result<String, String>)
    ensures
        match optional_text(*found) {
            Some(p) => r matches Ok(s) && s@ == p,
            None => r matches Err(e) && e@ == "Cannot locate desktop file '"@ + id@ + "'"@,
        },
{
    match found {
        Some(p) => Ok(copy_text(p)),
        None => Err(around("Cannot locate desktop file '", id, "'")),
    }
}

/// The command of the first `Exec` line in the group of the desktop entry. A line in brackets
/// begins a group.
pub open spec fn exec_line(lines: Seq<Seq<char>>, in_entry: bool) -> Option<Seq<char>>
    decreases lines.len(),
{
    if lines.len() == 0 {
        None
    } else {
        let line = trim_spec(lines[0]);
        let rest = lines.subrange(1, lines.len() as int);
        if "["@.is_prefix_of(line) {
            exec_line(rest, line == "[Desktop Entry]"@)
        } else if in_entry && "Exec="@.is_prefix_of(line) {
            Some(line.subrange("Exec="@.len() as int, line.len() as int))
        } else {
            exec_line(rest, in_entry)
        }
    }
}

/// The command that a desktop entry gives.
pub fn parse_exec(content: &str) -> (r: Option<String>)
    ensures
        optional_text(r) == exec_line(lines_spec(content@), false),
{
    let all: Vec<String> = lines(content);
    let ghost l = lines_spec(content@);
    let mut in_entry: bool = false;
    let mut i: usize = 0;
    assert(l.subrange(0, l.len() as int) =~= l);
    while i < all.len()
        invariant
            l == lines_spec(content@),
            views(all@) == l,
            l.len() == all@.len(),
            i <= all@.len(),
            exec_line(l.subrange(i as int, l.len() as int), in_entry) == exec_line(l, false),
        decreases all@.len() - i,
    {
        let ghost rest = l.subrange(i as int, l.len() as int);
        assert(rest[0] == all@[i as int]@);
        assert(rest.subrange(1, rest.len() as int) =~= l.subrange(i + 1, l.len() as int));
        let line: String = trim(&all[i]);
        if starts_with(&line, "[") {
            in_entry = same_text(&line, "[Desktop Entry]");
        } else if in_entry && starts_with(&line, "Exec=") {
            let chars: Vec<char> = chars_of(&line);
            proof {
                reveal_strlit("Exec=");
                assert(exec_line(rest, true) == Some(line@.subrange(5, line@.len() as int)));
            }
            return Some(string_of(slice_subrange(&chars, 5, chars.len())));
        }
        i = i + 1;
    }
    None
}

/// The parts of a text between the separators, without the empty ones.
pub open spec fn nonempty_parts(s: Seq<char>, sep: char, cur: Seq<char>) -> Seq<Seq<char>>
    decreases s.len(),
{
    if s.len() == 0 {
        pending(cur, false)
    } else if s[0] == sep {
        pending(cur, false) + nonempty_parts(s.subrange(1, s.len() as int), sep, Seq::empty())
    } else {
        nonempty_parts(s.subrange(1, s.len() as int), sep, cur.push(s[0]))
    }
}

/// The directories that desktop entries lie under, in the order in which they are searched: that of
/// the user first, then those of the system.
pub open spec fn data_bases_spec(
    data_home: Option<Seq<char>>,
    home: Option<Seq<char>>,
    data_dirs: Option<Seq<char>>,
) -> Seq<Seq<char>> {
    (if data_home is Some && data_home->Some_0.len() > 0 {
        seq![data_home->Some_0]
    } else {
        match home {
            Some(h) => seq![pushed(h, ".local/share"@)],
            None => Seq::empty(),
        }
    }) + nonempty_parts(
        match data_dirs {
            Some(d) => d,
            None => "/usr/local/share:/usr/share"@,
        },
        ':',
        Seq::empty(),
    )
}

fn push_parts(out: &mut Vec<String>, s: &str, sep: char)
    ensures
        views(final(out)@) == views(old(out)@) + nonempty_parts(s@, sep, Seq::empty()),
{
    let x: Vec<char> = chars_of(s);
    let ghost start = views(out@);
    let ghost whole = nonempty_parts(s@, sep, Seq::empty());
    let mut cur: String = String::new();
    let mut i: usize = 0;
    assert(cur@ =~= Seq::empty());
    assert(x@.subrange(0, x@.len() as int) =~= s@);
    while i < x.len()
        invariant
            x@ == s@,
            i <= x@.len(),
            views(out@) + nonempty_parts(x@.subrange(i as int, x@.len() as int), sep, cur@)
                == start + whole,
        decreases x@.len() - i,
    {
        let ghost rest = x@.subrange(i as int, x@.len() as int);
        let ghost before = views(out@);
        let ghost word = cur@;
        assert(rest[0] == x@[i as int]);
        assert(rest.subrange(1, rest.len() as int) =~= x@.subrange(i + 1, x@.len() as int));
        let c: char = x[i];
        if c == sep {
            let ghost later = nonempty_parts(
                rest.subrange(1, rest.len() as int),
                sep,
                Seq::empty(),
            );
            assert(before + (pending(word, false) + later) =~= (before + pending(word, false))
                + later);
            if !cur.as_str().is_empty() {
                let mut done: String = String::new();
                std::mem::swap(&mut done, &mut cur);
                out.push(done);
            }
            assert(views(out@) =~= before + pending(word, false));
            assert(cur@ =~= Seq::empty());
        } else {
            cur.push(c);
        }
        i = i + 1;
    }
    let ghost before = views(out@);
    let ghost word = cur@;
    if !cur.as_str().is_empty() {
        out.push(cur);
    }
    assert(views(out@) =~= before + pending(word, false));
}

/// The directories that desktop entries lie under, in the order in which they are searched.
pub fn data_bases(
    data_home: &Option<String>,
    home: &Option<String>,
    data_dirs: &Option<String>,
) -> (r: Vec<String>)
    ensures
        views(r@) == data_bases_spec(
            optional_text(*data_home),
            optional_text(*home),
            optional_text(*data_dirs),
        ),
{
    let mut out: Vec<String> = Vec::new();
    let own: bool = match data_home {
        Some(d) => !d.as_str().is_empty(),
        None => false,
    };
    match (data_home, home) {
        (Some(d), _) if own => out.push(copy_text(d)),
        (_, Some(h)) => out.push(push_path(h, ".local/share")),
        _ => {},
    }
    assert(views(out@) =~= if data_home is Some && data_home->Some_0@.len() > 0 {
        seq![data_home->Some_0@]
    } else {
        match optional_text(*home) {
            Some(h) => seq![pushed(h, ".local/share"@)],
            None => Seq::empty(),
        }
    });
    match data_dirs {
        Some(d) => push_parts(&mut out, d, ':'),
        None => push_parts(&mut out, "/usr/local/share:/usr/share", ':'),
    }
    out
}

/// The identifier with a separator for each hyphen.
pub open spec fn nested_id(id: Seq<char>) -> Seq<char> {
    id.map_values(
        |c: char|
            if c == '-' {
                '/'
            } else {
                c
            },
    )
}

fn hyphens_nested(id: &str) -> (r: String)
    ensures
        r@ == nested_id(id@),
{
    let x: Vec<char> = chars_of(id);
    let mut out: String = String::new();
    let mut i: usize = 0;
    assert(out@ =~= nested_id(x@.subrange(0, 0)));
    while i < x.len()
        invariant
            x@ == id@,
            i <= x@.len(),
            out@ == nested_id(x@.subrange(0, i as int)),
        decreases x@.len() - i,
    {
        let c: char = if x[i] == '-' {
            '/'
        } else {
            x[i]
        };
        out.push(c);
        assert(nested_id(x@.subrange(0, i + 1)) =~= nested_id(x@.subrange(0, i as int)).push(c));
        i = i + 1;
    }
    assert(x@.subrange(0, x@.len() as int) =~= x@);
    out
}

/// The places of a desktop entry, in the order in which they are tried: from each base the
/// identifier itself, then with its hyphens as directories. One that is absolute is its own place.
pub open spec fn places_spec(bases: Seq<Seq<char>>, id: Seq<char>) -> Seq<Seq<char>> {
    Seq::new(
        2 * bases.len(),
        |i: int|
            path_joined(
                pushed(bases[i / 2], "applications"@),
                if i % 2 == 0 {
                    id
                } else {
                    nested_id(id)
                },
            ),
    )
}

/// The places of a desktop entry, in the order in which they are tried.
pub fn desktop_places(bases: &Vec<String>, id: &str) -> (r: Vec<String>)
    ensures
        views(r@) == places_spec(views(bases@), id@),
{
    let nested: String = hyphens_nested(id);
    let mut out: Vec<String> = Vec::new();
    let mut i: usize = 0;
    while i < bases.len()
        invariant
            nested@ == nested_id(id@),
            i <= bases@.len(),
            out@.len() == 2 * i,
            forall|k: int|
                0 <= k < 2 * i ==> (#[trigger] out@[k])@ == places_spec(views(bases@), id@)[k],
        decreases bases@.len() - i,
    {
        let apps: String = push_path(&bases[i], "applications");
        let ghost before = out@;
        out.push(join_path(&apps, id));
        out.push(join_path(&apps, &nested));
        assert(views(bases@)[i as int] == bases@[i as int]@);
        assert forall|k: int| 0 <= k < 2 * (i + 1) implies (#[trigger] out@[k])@ == places_spec(
            views(bases@),
            id@,
        )[k] by {
            if k < 2 * i {
                assert(out@[k] == before[k]);
            } else if k == 2 * i {
                assert(k / 2 == i as int && k % 2 == 0);
            } else {
                assert(k / 2 == i as int && k % 2 == 1);
            }
        }
        i = i + 1;
    }
    assert(views(out@) =~= places_spec(views(bases@), id@));
    out
}

/// Whether a command is that of flatpak.
pub open spec fn is_flatpak(command: Seq<char>) -> bool {
    command == "flatpak"@ || "/flatpak"@.is_suffix_of(command)
}

/// The command that opens a staged file: that of the desktop entry with the file filled in,
/// rewritten where it is a flatpak's.
pub fn viewer_argv(
    desktop: &str,
    content: &Option<String>,
    path: &str,
    runtime_dir: &Option<String>,
    in_flatpak: bool,
) -> (r: Result<Vec<String>, String>)
    ensures
        match optional_text(*content) {
            None => r matches Err(e) && e@ == "No Exec line in "@ + desktop@,
            Some(c) => match exec_line(lines_spec(c), false) {
                None => r matches Err(e) && e@ == "No Exec line in "@ + desktop@,
                Some(exec) => viewer_spec(exec, path@, runtime_dir, in_flatpak, r),
            },
        },
{
    let found: Option<String> = match content {
        Some(c) => parse_exec(c),
        None => None,
    };
    match found {
        None => Err(concat("No Exec line in ", desktop)),
        Some(exec) => {
            let argv: Vec<String> = build_argv(&exec, path);
            proof {
                law_argv_names_file(exec@, path@);
                assert(views(argv@).len() == argv@.len());
                assert(views(argv@)[0] == argv@[0]@);
            }
            if same_text(&argv[0], "flatpak") || ends_with(&argv[0], "/flatpak") {
                let grant: String = flatpak_filesystem_spec(path, runtime_dir);
                match rewrite_flatpak_argv(&argv, &grant, in_flatpak) {
                    Ok(v) => Ok(v),
                    Err(e) => Err(copy_text(e)),
                }
            } else {
                Ok(argv)
            }
        },
    }
}

/// What comes of a command line: it is filled in, and rewritten where it is a flatpak's.
pub open spec fn viewer_spec(
    exec: Seq<char>,
    path: Seq<char>,
    runtime_dir: &Option<String>,
    in_flatpak: bool,
    r: Result<Vec<String>, String>,
) -> bool {
    let argv = argv_spec(exec, path);
    let grant = grant_spec(
        path,
        match optional_text(*runtime_dir) {
            Some(d) => if d.len() > 0 {
                path_below(path, d)
            } else {
                None
            },
            None => None,
        },
    );
    if !is_flatpak(argv[0]) {
        r matches Ok(v) && views(v@) == argv
    } else if in_flatpak {
        r matches Err(e) && e@ == nested_flatpak()
    } else if run_place(argv) == argv.len() {
        r matches Err(e) && e@ == no_run()
    } else {
        r matches Ok(v) && views(v@) == flatpak_argv(argv, grant)
    }
}

// ── The end of a viewing ─────────────────────────────────────────────────────

/// For how long after the viewer's own process ended another one may still take the file over, in
/// milliseconds.
pub const HANDOFF_SETTLE: u64 = 3000;

/// What the watch over a staged file does next.
#[derive(Debug, Clone, Copy, PartialEq, Eq, Structural)]
pub enum WatchStep {
    /// Looks again after so many milliseconds; another process has not opened the file yet.
    Settle(u64),
    /// Looks again after so many milliseconds; another process has it open.
    Held(u64),
    /// Destroys the file.
    Shred,
}

/// What follows once the viewer's own process has ended. A process that opens the file within the
/// settling time keeps it until it lets go; the file is destroyed as soon as nobody can hold it.
pub fn watch_step(handed_off: bool, elapsed: u64, open: bool) -> (r: WatchStep)
    ensures
        r == if handed_off {
            if open {
                WatchStep::Held(2000)
            } else {
                WatchStep::Shred
            }
        } else if elapsed >= HANDOFF_SETTLE {
            WatchStep::Shred
        } else if open {
            WatchStep::Held(2000)
        } else {
            WatchStep::Settle(250)
        },
        r is Shred <==> !open && (handed_off || elapsed >= 3000) || !handed_off && elapsed >= 3000,
{
    if handed_off {
        if open {
            WatchStep::Held(2000)
        } else {
            WatchStep::Shred
        }
    } else if elapsed >= HANDOFF_SETTLE {
        WatchStep::Shred
    } else if open {
        WatchStep::Held(2000)
    } else {
        WatchStep::Settle(250)
    }
}

/// The directory or file that a write is confined to: the file, or its directory where the file is
/// not there yet.
pub fn write_scope<'a>(path: &'a str, present: bool, parent: &'a Option<String>) -> (r: &'a str)
    ensures
        r@ == if present || *parent is None {
            path@
        } else {
            parent->Some_0@
        },
{
    match parent {
        Some(p) if !present => p.as_str(),
        _ => path,
    }
}

// ── Laws ─────────────────────────────────────────────────────────────────────

/// The staged copy of `stem.ext` is `stem_view_tmp.ext`, so that it is opened by the same viewer.
pub proof fn law_staged_copy_keeps_the_extension(stem: Seq<char>, ext: Seq<char>)
    requires
        stem.len() > 0,
        ext.len() > 0,
        !stem.contains('/') && !ext.contains('/') && !ext.contains('.'),
    ensures
        staged_name_spec(stem.push('.') + ext) == stem + "_view_tmp"@ + ("."@ + ext),
{
    reveal_strlit(".");
    reveal_strlit("..");
    let name = stem.push('.') + ext;
    assert(!name.contains('/')) by {
        assert forall|i: int| 0 <= i < name.len() implies name[i] != '/' by {
            if i < stem.len() {
                assert(stem.contains(stem[i]));
            } else if i > stem.len() {
                assert(name[i] == ext[i - stem.len() - 1]);
                assert(ext.contains(ext[i - stem.len() - 1]));
            }
        }
    }
    assert(name.len() >= 3);
    assert("."@.len() == 1 && ".."@.len() == 2);
    law_file_name_is_the_last_component(stem, name, name);
    law_path_has_the_stem_of_its_name(name);
    law_name_is_stem_and_extension(name, stem, ext);
}

/// The words from a place on are those of the rest of the line.
proof fn lemma_words_shift(s: Seq<char>, i: int, cur: Seq<char>, in_quote: bool, started: bool)
    requires
        0 <= i <= s.len(),
    ensures
        words_from(s, i, cur, in_quote, started) == words_from(
            s.subrange(i, s.len() as int),
            0,
            cur,
            in_quote,
            started,
        ),
    decreases s.len() - i,
{
    let t = s.subrange(i, s.len() as int);
    if i < s.len() {
        let rest = s.subrange(i + 1, s.len() as int);
        assert(t.subrange(1, t.len() as int) =~= rest);
        if s[i] == '"' {
            lemma_words_shift(s, i + 1, cur, !in_quote, true);
            lemma_words_shift(t, 1, cur, !in_quote, true);
        } else if s[i] == '\\' && in_quote {
            if i + 1 < s.len() {
                lemma_words_shift(s, i + 2, cur.push(s[i + 1]), in_quote, started);
                lemma_words_shift(t, 2, cur.push(s[i + 1]), in_quote, started);
                assert(t.subrange(2, t.len() as int) =~= s.subrange(i + 2, s.len() as int));
            } else {
                lemma_words_shift(s, i + 1, cur, in_quote, started);
                lemma_words_shift(t, 1, cur, in_quote, started);
            }
        } else if is_blank_char(s[i]) && !in_quote {
            lemma_words_shift(s, i + 1, Seq::empty(), false, false);
            lemma_words_shift(t, 1, Seq::empty(), false, false);
        } else {
            lemma_words_shift(s, i + 1, cur.push(s[i]), in_quote, true);
            lemma_words_shift(t, 1, cur.push(s[i]), in_quote, true);
        }
    }
}

/// Characters that mean themselves add to the word that is being read.
proof fn lemma_words_plain(a: Seq<char>, rest: Seq<char>, cur: Seq<char>, in_quote: bool, started: bool)
    requires
        forall|i: int|
            0 <= i < a.len() ==> #[trigger] a[i] != '"' && (in_quote ==> a[i] != '\\') && (!in_quote
                ==> a[i] != ' ' && a[i] != '\t'),
    ensures
        words_from(a + rest, 0, cur, in_quote, started) == words_from(
            rest,
            0,
            cur + a,
            in_quote,
            started || a.len() > 0,
        ),
    decreases a.len(),
{
    if a.len() == 0 {
        assert(a + rest =~= rest);
        assert(cur + a =~= cur);
    } else {
        let s = a + rest;
        let tail = a.subrange(1, a.len() as int);
        assert(s[0] == a[0]);
        lemma_words_shift(s, 1, cur.push(a[0]), in_quote, true);
        assert(s.subrange(1, s.len() as int) =~= tail + rest);
        assert forall|i: int| 0 <= i < tail.len() implies #[trigger] tail[i] != '"' && (in_quote
            ==> tail[i] != '\\') && (!in_quote ==> tail[i] != ' ' && tail[i] != '\t') by {
            assert(tail[i] == a[i + 1]);
        }
        lemma_words_plain(tail, rest, cur.push(a[0]), in_quote, true);
        assert(cur.push(a[0]) + tail =~= cur + a);
    }
}

/// A blank behind a word ends it, blanks before a word do not matter, and what stands between
/// double quotes is one word whatever blanks are in it.
pub proof fn law_words_of_a_command_line(
    word: Seq<char>,
    quoted: Seq<char>,
    blank: char,
    rest: Seq<char>,
)
    requires
        word.len() > 0,
        forall|i: int|
            0 <= i < word.len() ==> #[trigger] word[i] != '"' && word[i] != ' ' && word[i] != '\t',
        forall|i: int| 0 <= i < quoted.len() ==> #[trigger] quoted[i] != '"' && quoted[i] != '\\',
        blank == ' ' || blank == '\t',
    ensures
        exec_words(Seq::empty()) == Seq::<Seq<char>>::empty(),
        exec_words(word) == seq![word],
        exec_words(word.push(blank) + rest) == seq![word] + exec_words(rest),
        exec_words(seq![blank] + rest) == exec_words(rest),
        exec_words(seq!['"'] + quoted + seq!['"', blank] + rest) == seq![quoted] + exec_words(rest),
{
    let none = Seq::<char>::empty();
    let no_words = Seq::<Seq<char>>::empty();
    lemma_words_plain(word, none, none, false, false);
    assert(word + none =~= word);
    assert(none + word =~= word);
    let after = seq![blank] + rest;
    lemma_words_plain(word, after, none, false, false);
    assert(word.push(blank) + rest =~= word + after);
    lemma_words_shift(after, 1, none, false, false);
    assert(after.subrange(1, after.len() as int) =~= rest);
    assert(no_words + exec_words(rest) =~= exec_words(rest));
    let s = seq!['"'] + quoted + seq!['"', blank] + rest;
    let close = seq!['"', blank] + rest;
    assert(s[0] == '"');
    lemma_words_shift(s, 1, none, true, true);
    assert(s.subrange(1, s.len() as int) =~= quoted + close);
    lemma_words_plain(quoted, close, none, true, true);
    assert(none + quoted =~= quoted);
    lemma_words_shift(close, 1, quoted, false, true);
    assert(close.subrange(1, close.len() as int) =~= after);
    lemma_words_shift(after, 1, none, false, false);
}

/// Between double quotes a backslash keeps the character behind it, be it a quote or a backslash.
pub proof fn law_backslash_keeps_a_character(a: Seq<char>, c: char, b: Seq<char>)
    requires
        forall|i: int| 0 <= i < a.len() ==> #[trigger] a[i] != '"' && a[i] != '\\',
        forall|i: int| 0 <= i < b.len() ==> #[trigger] b[i] != '"' && b[i] != '\\',
    ensures
        exec_words(seq!['"'] + a + seq!['\\', c] + b + seq!['"']) == seq![a.push(c) + b],
{
    let none = Seq::<char>::empty();
    let close = seq!['"'];
    let s = seq!['"'] + a + seq!['\\', c] + b + close;
    let tail = seq!['\\', c] + (b + close);
    lemma_words_shift(s, 1, none, true, true);
    assert(s.subrange(1, s.len() as int) =~= a + tail);
    lemma_words_plain(a, tail, none, true, true);
    assert(none + a =~= a);
    lemma_words_shift(tail, 2, a.push(c), true, true);
    assert(tail.subrange(2, tail.len() as int) =~= b + close);
    lemma_words_plain(b, close, a.push(c), true, true);
    lemma_words_shift(close, 1, a.push(c) + b, false, true);
    assert(close.subrange(1, 1) =~= none);
}

/// The command is filled in word by word: a code for the file becomes the file, a code that stands
/// for nothing here is dropped, and every other word stays, with one percent sign for each pair.
pub proof fn law_commands_are_filled_in_word_by_word(
    a: Seq<Seq<char>>,
    t: Seq<char>,
    b: Seq<Seq<char>>,
    path: Seq<char>,
)
    ensures
        filled(Seq::empty(), path) == Seq::<Seq<char>>::empty(),
        t == "%f"@ || t == "%F"@ || t == "%u"@ || t == "%U"@ ==> filled(a.push(t), path) == filled(
            a,
            path,
        ).push(path),
        t == "%i"@ || t == "%c"@ || t == "%k"@ || t == "%d"@ || t == "%D"@ || t == "%n"@ || t
            == "%N"@ || t == "%v"@ || t == "%m"@ ==> filled(a.push(t), path) == filled(a, path),
        !(t == "%f"@ || t == "%F"@ || t == "%u"@ || t == "%U"@ || t == "%i"@ || t == "%c"@ || t
            == "%k"@ || t == "%d"@ || t == "%D"@ || t == "%n"@ || t == "%N"@ || t == "%v"@ || t
            == "%m"@) ==> filled(a.push(t), path) == filled(a, path).push(percent_text(t)),
        filled(a + b, path) == filled(a, path) + filled(b, path),
    decreases b.len(),
{
    lemma_codes_differ();
    assert(a.push(t).subrange(0, a.len() as int) =~= a);
    if b.len() == 0 {
        assert(a + b =~= a);
        assert(filled(a, path) + filled(b, path) =~= filled(a, path));
    } else {
        let init = b.subrange(0, b.len() - 1);
        law_commands_are_filled_in_word_by_word(a, t, init, path);
        assert((a + b).subrange(0, (a + b).len() - 1) =~= a + init);
        assert(filled(a + b, path) =~= filled(a, path) + filled(b, path));
    }
}

/// No code for the file is one that is dropped.
proof fn lemma_codes_differ()
    ensures
        forall|t: Seq<char>| is_dropped_code(t) ==> !#[trigger] is_file_code(t),
{
    reveal_strlit("%f");
    reveal_strlit("%F");
    reveal_strlit("%u");
    reveal_strlit("%U");
    reveal_strlit("%i");
    reveal_strlit("%c");
    reveal_strlit("%k");
    reveal_strlit("%d");
    reveal_strlit("%D");
    reveal_strlit("%n");
    reveal_strlit("%N");
    reveal_strlit("%v");
    reveal_strlit("%m");
    assert("%f"@[1] == 'f' && "%F"@[1] == 'F' && "%u"@[1] == 'u' && "%U"@[1] == 'U');
    assert("%i"@[1] == 'i' && "%c"@[1] == 'c' && "%k"@[1] == 'k' && "%d"@[1] == 'd');
    assert("%D"@[1] == 'D' && "%n"@[1] == 'n' && "%N"@[1] == 'N' && "%v"@[1] == 'v');
    assert("%m"@[1] == 'm');
}

/// A pair of percent signs becomes one, from the left; every other character stays, and so does a
/// percent sign that is not followed by another.
pub proof fn law_percent_signs_are_paired(c: char, t: Seq<char>)
    ensures
        percent_text(Seq::empty()) == Seq::<char>::empty(),
        percent_text(seq!['%', '%'] + t) == seq!['%'] + percent_text(t),
        c != '%' ==> percent_text(seq![c] + t) == seq![c] + percent_text(t),
        c != '%' ==> percent_text(seq!['%', c] + t) == seq!['%'] + percent_text(seq![c] + t),
        percent_text(seq!['%']) == seq!['%'],
{
    let two = seq!['%', '%'] + t;
    assert(two.subrange(2, two.len() as int) =~= t);
    let one = seq![c] + t;
    assert(one.subrange(1, one.len() as int) =~= t);
    let mixed = seq!['%', c] + t;
    assert(mixed.subrange(1, mixed.len() as int) =~= one);
    let single = seq!['%'];
    assert(single.subrange(1, 1) =~= Seq::<char>::empty());
    assert(percent_text(single.subrange(1, 1)) == Seq::<char>::empty());
    assert(seq!['%'] + Seq::<char>::empty() =~= seq!['%']);
}

/// The words of the document portal are left out of a command, and every other word is kept.
pub proof fn law_portal_words_are_left_out(words: Seq<Seq<char>>)
    ensures
        without_portal(words) == words.filter(
            |t: Seq<char>| t != "--file-forwarding"@ && t != "@@"@ && t != "@@u"@,
        ),
    decreases words.len(),
{
    reveal(Seq::filter);
    if words.len() > 0 {
        law_portal_words_are_left_out(words.subrange(0, words.len() - 1));
        assert(words.drop_last() =~= words.subrange(0, words.len() - 1));
    } else {
        assert(words =~= Seq::empty());
    }
}

/// A flatpak command is rewritten at its first `run`: what stood before it but for the program is
/// left out; behind it the viewer loses the network, is bound to this process and is granted the
/// one file, and its own words follow without those of the portal. A command without `run` has
/// none.
pub proof fn law_flatpak_command_is_rewritten(
    program: Seq<char>,
    before: Seq<Seq<char>>,
    after: Seq<Seq<char>>,
    grant: Seq<char>,
)
    requires
        program != "run"@,
        !before.contains("run"@),
    ensures
        run_place(seq![program] + before + seq!["run"@] + after) == 1 + before.len(),
        run_place(seq![program] + before) == 1 + before.len(),
        flatpak_argv(seq![program] + before + seq!["run"@] + after, grant) == seq![
            program,
            "run"@,
            "--unshare=network"@,
            "--die-with-parent"@,
            "--filesystem="@ + grant,
        ] + after.filter(|t: Seq<char>| t != "--file-forwarding"@ && t != "@@"@ && t != "@@u"@),
{
    let head = seq![program] + before;
    let argv = head + seq!["run"@] + after;
    assert forall|j: int| 0 <= j < head.len() implies head[j] != "run"@ by {
        if j > 0 {
            assert(before.contains(before[j - 1]));
        }
    }
    assert forall|j: int| 0 <= j < head.len() implies argv[j] != "run"@ by {
        assert(argv[j] == head[j]);
    }
    assert(argv[head.len() as int] == "run"@);
    lemma_run_place(argv, head.len() as int);
    lemma_run_place(head, head.len() as int);
    assert(argv.subrange((head.len() + 1) as int, argv.len() as int) =~= after);
    law_portal_words_are_left_out(after);
}

/// A file is granted to be read only, by its path or by its place under the runtime directory.
pub proof fn law_grants_are_read_only(path: Seq<char>, relative: Seq<char>)
    ensures
        grant_spec(path, Some(relative)) == "xdg-run/"@ + relative + ":ro"@,
        grant_spec(path, None) == path + ":ro"@,
{
}

/// What the system says of the type of a file counts; where it says nothing, the extension counts,
/// in whatever case it is written.
pub proof fn law_type_of_a_file(queried: Option<Seq<char>>, path: Seq<char>)
    ensures
        queried is Some && queried->Some_0.len() > 0 ==> mime_spec(queried, path) == queried,
        queried is None || queried->Some_0.len() == 0 ==> match path_extension(path) {
            None => mime_spec(queried, path) is None,
            Some(e) => {
                let ext = ascii_lower_text(e);
                let m = mime_spec(queried, path);
                &&& m == Some("application/pdf"@) || ext != "pdf"@
                &&& m == Some("image/png"@) || ext != "png"@
                &&& m == Some("image/jpeg"@) || (ext != "jpg"@ && ext != "jpeg"@)
                &&& m == Some("image/gif"@) || ext != "gif"@
                &&& m == Some("image/webp"@) || ext != "webp"@
                &&& m == Some("image/svg+xml"@) || ext != "svg"@
                &&& m == Some("text/plain"@) || (ext != "txt"@ && ext != "md"@ && ext != "log"@)
                &&& m is None || ext == "pdf"@ || ext == "png"@ || ext == "jpg"@ || ext == "jpeg"@
                    || ext == "gif"@ || ext == "webp"@ || ext == "svg"@ || ext == "txt"@ || ext
                    == "md"@ || ext == "log"@
            },
        },
{
    reveal_strlit("pdf");
    reveal_strlit("png");
    reveal_strlit("jpg");
    reveal_strlit("jpeg");
    reveal_strlit("gif");
    reveal_strlit("webp");
    reveal_strlit("svg");
    reveal_strlit("txt");
    reveal_strlit("md");
    reveal_strlit("log");
    assert("pdf"@.len() == 3 && "png"@.len() == 3 && "jpg"@.len() == 3 && "jpeg"@.len() == 4);
    assert("gif"@.len() == 3 && "webp"@.len() == 4 && "svg"@.len() == 3 && "txt"@.len() == 3);
    assert("md"@.len() == 2 && "log"@.len() == 3);
    assert("pdf"@[1] == 'd' && "png"@[1] == 'n' && "jpg"@[0] == 'j' && "gif"@[0] == 'g');
    assert("svg"@[0] == 's' && "txt"@[0] == 't' && "log"@[0] == 'l' && "jpeg"@[0] == 'j');
    assert("webp"@[0] == 'w' && "pdf"@[0] == 'p' && "png"@[0] == 'p');
}

/// A line that is neither the beginning of a group nor a command in the group of the desktop entry
/// is passed over; a line in brackets decides whether the group of the desktop entry goes on; and
/// the first command in that group is the command.
pub proof fn law_command_of_a_desktop_entry(
    line: Seq<char>,
    rest: Seq<Seq<char>>,
    in_entry: bool,
)
    ensures
        exec_line(Seq::empty(), in_entry) is None,
        "["@.is_prefix_of(trim_spec(line)) ==> exec_line(seq![line] + rest, in_entry) == exec_line(
            rest,
            trim_spec(line) == "[Desktop Entry]"@,
        ),
        !"["@.is_prefix_of(trim_spec(line)) && !in_entry ==> exec_line(seq![line] + rest, in_entry)
            == exec_line(rest, in_entry),
        !"["@.is_prefix_of(trim_spec(line)) && !"Exec="@.is_prefix_of(trim_spec(line)) ==> exec_line(
            seq![line] + rest,
            in_entry,
        ) == exec_line(rest, in_entry),
{
    let all = seq![line] + rest;
    assert(all.subrange(1, all.len() as int) =~= rest);
}

/// In the group of the desktop entry, `Exec=` and a command is that command, whatever white space
/// is around them.
pub proof fn law_exec_line_gives_the_command(
    before: Seq<char>,
    command: Seq<char>,
    after: Seq<char>,
    rest: Seq<Seq<char>>,
)
    requires
        all_white(before),
        all_white(after),
        command.len() > 0 ==> !is_white_space(command[command.len() - 1]),
    ensures
        exec_line(seq![before + ("Exec="@ + command) + after] + rest, true) == Some(command),
{
    reveal_strlit("Exec=");
    reveal_strlit("[");
    let line = "Exec="@ + command;
    let all = seq![before + line + after] + rest;
    assert(line[0] == 'E');
    assert(line[line.len() - 1] == if command.len() > 0 {
        command[command.len() - 1]
    } else {
        '='
    });
    law_trim_takes_white_space_from_the_ends(before, line, after);
    assert(line.subrange(0, 5) =~= "Exec="@);
    assert(line.subrange(5, line.len() as int) =~= command);
    if "["@.is_prefix_of(line) {
        assert(line.subrange(0, 1)[0] == '[');
    }
}

/// The parts between separators are taken in order, and the empty ones are left out.
pub proof fn law_nonempty_parts(a: Seq<char>, sep: char, b: Seq<char>)
    requires
        !a.contains(sep),
    ensures
        nonempty_parts(a.push(sep) + b, sep, Seq::empty()) == (if a.len() > 0 {
            seq![a]
        } else {
            Seq::empty()
        }) + nonempty_parts(b, sep, Seq::empty()),
        nonempty_parts(a, sep, Seq::empty()) == (if a.len() > 0 {
            seq![a]
        } else {
            Seq::empty()
        }),
{
    let none = Seq::<char>::empty();
    lemma_parts_run(a, sep, seq![sep] + b, none);
    assert(a.push(sep) + b =~= a + (seq![sep] + b));
    assert(none + a =~= a);
    let rest = seq![sep] + b;
    assert(rest.subrange(1, rest.len() as int) =~= b);
    lemma_parts_run(a, sep, none, none);
    assert(a + none =~= a);
}

proof fn lemma_parts_run(a: Seq<char>, sep: char, rest: Seq<char>, cur: Seq<char>)
    requires
        !a.contains(sep),
    ensures
        nonempty_parts(a + rest, sep, cur) == nonempty_parts(rest, sep, cur + a),
    decreases a.len(),
{
    if a.len() == 0 {
        assert(a + rest =~= rest);
        assert(cur + a =~= cur);
    } else {
        let s = a + rest;
        let tail = a.subrange(1, a.len() as int);
        assert(a.contains(a[0]));
        assert(s.subrange(1, s.len() as int) =~= tail + rest);
        assert(!tail.contains(sep)) by {
            if tail.contains(sep) {
                let k = choose|k: int| 0 <= k < tail.len() && tail[k] == sep;
                assert(a[k + 1] == sep);
            }
        }
        lemma_parts_run(tail, sep, rest, cur.push(a[0]));
        assert(cur.push(a[0]) + tail =~= cur + a);
    }
}

/// Desktop entries are searched first where the user keeps data, which is a place of its own or
/// `.local/share` in the home directory, and then in the places of the system, or, where none is
/// named, in `/usr/local/share` and `/usr/share`.
pub proof fn law_user_entries_come_first(
    data_home: Seq<char>,
    home: Option<Seq<char>>,
    h: Seq<char>,
    data_dirs: Option<Seq<char>>,
)
    ensures
        ({
            let system = nonempty_parts(
                match data_dirs {
                    Some(d) => d,
                    None => "/usr/local/share:/usr/share"@,
                },
                ':',
                Seq::empty(),
            );
            &&& data_home.len() > 0 ==> data_bases_spec(Some(data_home), home, data_dirs) == seq![
                data_home,
            ] + system
            &&& data_bases_spec(None, Some(h), data_dirs) == seq![pushed(h, ".local/share"@)] + system
            &&& data_bases_spec(None, None, data_dirs) == system
        }),
{
    let system = nonempty_parts(
        match data_dirs {
            Some(d) => d,
            None => "/usr/local/share:/usr/share"@,
        },
        ':',
        Seq::empty(),
    );
    assert(Seq::<Seq<char>>::empty() + system =~= system);
}

/// From each base two places are tried, base by base: the identifier as it is, and with a slash for
/// each hyphen.
pub proof fn law_places_of_a_desktop_entry(bases: Seq<Seq<char>>, id: Seq<char>, k: int, i: int)
    ensures
        places_spec(bases, id).len() == 2 * bases.len(),
        0 <= k < bases.len() ==> places_spec(bases, id)[2 * k] == path_joined(
            pushed(bases[k], "applications"@),
            id,
        ),
        0 <= k < bases.len() ==> places_spec(bases, id)[2 * k + 1] == path_joined(
            pushed(bases[k], "applications"@),
            nested_id(id),
        ),
        nested_id(id).len() == id.len(),
        0 <= i < id.len() && id[i] == '-' ==> nested_id(id)[i] == '/',
        0 <= i < id.len() && id[i] != '-' ==> nested_id(id)[i] == id[i],
{
    assert((2 * k) / 2 == k && (2 * k) % 2 == 0 && (2 * k + 1) / 2 == k && (2 * k + 1) % 2 == 1);
}

/// A command is that of flatpak by its name, alone or behind a directory.
pub proof fn law_flatpak_is_known_by_its_name(dir: Seq<char>)
    ensures
        is_flatpak("flatpak"@),
        is_flatpak(dir + "/flatpak"@),
{
    let c = dir + "/flatpak"@;
    assert(c.subrange(c.len() - "/flatpak"@.len(), c.len() as int) =~= "/flatpak"@);
}

/// Staged copies lie in `atom_staging`, under the runtime directory of the session where there is
/// one, and otherwise under the application's directory.
pub proof fn law_where_copies_are_staged(home: Option<Seq<char>>, dir: Seq<char>)
    ensures
        viewer_staging_spec(Some(dir), home) == pushed(dir, "atom_staging"@),
        viewer_staging_spec(None, Some(dir)) == pushed(pushed(dir, ".atom_vault"@), "atom_staging"@),
        viewer_staging_spec(None, None) == pushed(pushed("/tmp"@, ".atom_vault"@), "atom_staging"@),
{
}

/// The file is put in the place of its codes, and behind the command where it has none.
pub proof fn law_file_goes_where_its_code_stands(exec: Seq<char>, path: Seq<char>)
    ensures
        (exists|k: int|
            0 <= k < exec_words(exec).len() && ((#[trigger] exec_words(exec)[k]) == "%f"@
                || exec_words(exec)[k] == "%F"@ || exec_words(exec)[k] == "%u"@
                || exec_words(exec)[k] == "%U"@)) ==> argv_spec(exec, path) == filled(
            exec_words(exec),
            path,
        ),
        !(exists|k: int|
            0 <= k < exec_words(exec).len() && ((#[trigger] exec_words(exec)[k]) == "%f"@
                || exec_words(exec)[k] == "%F"@ || exec_words(exec)[k] == "%u"@
                || exec_words(exec)[k] == "%U"@)) ==> argv_spec(exec, path) == filled(
            exec_words(exec),
            path,
        ).push(path),
{
    let words = exec_words(exec);
    if exists|k: int|
        0 <= k < words.len() && ((#[trigger] words[k]) == "%f"@ || words[k] == "%F"@ || words[k]
            == "%u"@ || words[k] == "%U"@) {
        let k = choose|k: int|
            0 <= k < words.len() && ((#[trigger] words[k]) == "%f"@ || words[k] == "%F"@ || words[k]
                == "%u"@ || words[k] == "%U"@);
        assert(is_file_code(words[k]));
    } else if takes_file(words) {
        let k = choose|k: int| 0 <= k < words.len() && is_file_code(#[trigger] words[k]);
        assert(words[k] == "%f"@ || words[k] == "%F"@ || words[k] == "%u"@ || words[k] == "%U"@);
    }
}

/// An ordinary viewer gets its command as it is filled in; a flatpak viewer gets the rewritten one,
/// with the file granted by its path unless it lies under the runtime directory; and there is none
/// from within a flatpak, nor for a flatpak command that runs nothing.
pub proof fn law_what_becomes_of_a_viewer(
    exec: Seq<char>,
    path: Seq<char>,
    runtime_dir: &Option<String>,
    in_flatpak: bool,
    r: Result<Vec<String>, String>,
)
    requires
        viewer_spec(exec, path, runtime_dir, in_flatpak, r),
    ensures
        ({
            let argv = argv_spec(exec, path);
            let flatpak = argv[0] == "flatpak"@ || "/flatpak"@.is_suffix_of(argv[0]);
            &&& !flatpak ==> r is Ok && r->Ok_0@.map_values(|s: String| s@) == argv
            &&& flatpak && in_flatpak ==> r is Err
            &&& flatpak && !in_flatpak ==> (r is Ok <==> run_place(argv) != argv.len())
            &&& flatpak && !in_flatpak && r is Ok && (*runtime_dir is None)
                ==> r->Ok_0@.map_values(|s: String| s@) == flatpak_argv(argv, path + ":ro"@)
            &&& flatpak && !in_flatpak && r is Ok && (*runtime_dir matches Some(d) && d@.len() > 0)
                ==> (match path_below(path, runtime_dir->Some_0@) {
                Some(rel) => r->Ok_0@.map_values(|s: String| s@) == flatpak_argv(
                    argv,
                    "xdg-run/"@ + rel + ":ro"@,
                ),
                None => r->Ok_0@.map_values(|s: String| s@) == flatpak_argv(argv, path + ":ro"@),
            })
        }),
{
}

} // verus!
