//! Text as a sequence of characters: searching, trimming, splitting, case and numbers.

use vstd::prelude::*;
use vstd::utf8::{decode_utf8, encode_utf8, valid_utf8};

verus! {

// ── Standard library ─────────────────────────────────────────────────────────

/// `String::push` appends one character.
pub assume_specification[ String::push ](s: &mut String, c: char)
    ensures
        final(s)@ == old(s)@.push(c),
;

/// The characters with the Unicode property `White_Space`.
pub open spec fn is_white_space(c: char) -> bool {
    let n = c as u32;
    ||| 0x9 <= n <= 0xd
    ||| n == 0x20
    ||| n == 0x85
    ||| n == 0xa0
    ||| n == 0x1680
    ||| 0x2000 <= n <= 0x200a
    ||| n == 0x2028
    ||| n == 0x2029
    ||| n == 0x202f
    ||| n == 0x205f
    ||| n == 0x3000
}

/// `char::is_whitespace` decides the Unicode property `White_Space`.
pub assume_specification[ char::is_whitespace ](c: char) -> (r: bool)
    ensures
        r == is_white_space(c),
;

/// The upper-case form of a text under the Unicode default case conversion.
pub uninterp spec fn unicode_uppercase(s: Seq<char>) -> Seq<char>;

/// `str::to_uppercase`: the Unicode upper-case form of the text, which for a text of ASCII
/// characters maps each letter by itself.
#[verifier::external_body]
fn to_uppercase(s: &str) -> (r: String)
    ensures
        r@ == unicode_uppercase(s@),
        is_ascii_text(s@) ==> r@ == ascii_upper_text(s@),
{
    s.to_uppercase()
}

/// `String::from_utf8`: the text that the bytes encode, where they are valid UTF-8, and otherwise
/// the words of the error, of which nothing is said.
#[verifier::external_body]
pub(crate) fn from_utf8(b: Vec<u8>) -> (r: Result<String, String>)
    ensures
        r is Ok <==> valid_utf8(b@),
        r matches Ok(s) ==> s@ == decode_utf8(b@),
{
    String::from_utf8(b).map_err(|e| e.to_string())
}

// ── Character classes ────────────────────────────────────────────────────────

/// The ASCII control characters.
pub open spec fn ascii_control(c: char) -> bool {
    (c as u32) < 32 || (c as u32) == 127
}

/// The ASCII letters and digits.
pub open spec fn ascii_alphanumeric(c: char) -> bool {
    ('0' <= c && c <= '9') || ('A' <= c && c <= 'Z') || ('a' <= c && c <= 'z')
}

/// Every character is ASCII.
pub open spec fn is_ascii_text(s: Seq<char>) -> bool {
    forall|i: int| 0 <= i < s.len() ==> (#[trigger] s[i] as u32) < 128
}

/// The lower-case form of an ASCII letter; any other character is kept.
pub open spec fn ascii_lower(c: char) -> char {
    if 'A' <= c && c <= 'Z' {
        ((c as u8) + 32) as char
    } else {
        c
    }
}

/// The upper-case form of an ASCII letter; any other character is kept.
pub open spec fn ascii_upper(c: char) -> char {
    if 'a' <= c && c <= 'z' {
        ((c as u8) - 32) as char
    } else {
        c
    }
}

/// Every ASCII letter in lower case.
pub open spec fn ascii_lower_text(s: Seq<char>) -> Seq<char> {
    s.map_values(|c: char| ascii_lower(c))
}

/// Every ASCII letter in upper case.
pub open spec fn ascii_upper_text(s: Seq<char>) -> Seq<char> {
    s.map_values(|c: char| ascii_upper(c))
}

/// Whether a character is an ASCII control character.
pub fn is_ascii_control(c: char) -> (r: bool)
    ensures
        r == ascii_control(c),
{
    let code: u32 = c as u32;
    code < 32 || code == 127
}

/// The lower-case form of one character.
pub fn lower_char(c: char) -> (r: char)
    ensures
        r == ascii_lower(c),
{
    if 'A' <= c && c <= 'Z' {
        let code: u8 = c as u8;
        (code + 32) as char
    } else {
        c
    }
}

/// An ASCII text takes one byte for each character.
pub proof fn lemma_ascii_utf8_len(s: Seq<char>)
    requires
        is_ascii_text(s),
    ensures
        encode_utf8(s).len() == s.len(),
    decreases s.len(),
{
    if s.len() > 0 {
        let rest = s.drop_first();
        assert forall|i: int| 0 <= i < rest.len() implies (#[trigger] rest[i] as u32) < 128 by {
            assert(rest[i] == s[i + 1]);
        }
        lemma_ascii_utf8_len(rest);
        assert((s[0] as u32) < 128);
    }
}

/// The upper-case form of a text. For a text of ASCII characters each letter is mapped by itself.
pub open spec fn upper_of(s: Seq<char>) -> Seq<char> {
    if is_ascii_text(s) {
        ascii_upper_text(s)
    } else {
        unicode_uppercase(s)
    }
}

/// The upper-case form of a text.
pub fn upper_text(s: &str) -> (r: String)
    ensures
        r@ == upper_of(s@),
{
    to_uppercase(s)
}

// ── Conversions ──────────────────────────────────────────────────────────────

/// The characters of a text.
pub fn chars_of(s: &str) -> (r: Vec<char>)
    ensures
        r@ == s@,
{
    let mut out: Vec<char> = Vec::new();
    for c in it: s.chars()
        invariant
            out@.len() == it.index(),
            it.seq() == s@,
            forall|j: int| 0 <= j < out@.len() ==> out@[j] == it.seq()[j],
    {
        out.push(c);
    }
    assert(out@ =~= s@);
    out
}

/// The text with the given characters.
pub fn string_of(chars: &[char]) -> (r: String)
    ensures
        r@ == chars@,
{
    let mut out: String = String::new();
    let mut i: usize = 0;
    while i < chars.len()
        invariant
            i <= chars@.len(),
            out@ == chars@.subrange(0, i as int),
        decreases chars@.len() - i,
    {
        out.push(chars[i]);
        assert(chars@.subrange(0, i + 1) =~= chars@.subrange(0, i as int).push(chars@[i as int]));
        i = i + 1;
    }
    assert(chars@.subrange(0, chars@.len() as int) =~= chars@);
    out
}

/// A copy of a text.
pub fn copy_text(s: &str) -> (r: String)
    ensures
        r@ == s@,
{
    s.to_owned()
}

/// Appends a text.
pub fn push_text(out: &mut String, s: &str)
    ensures
        final(out)@ == old(out)@ + s@,
{
    out.append(s);
}

/// Every ASCII letter in lower case.
pub fn lower_text(s: &str) -> (r: String)
    ensures
        r@ == ascii_lower_text(s@),
{
    let chars: Vec<char> = chars_of(s);
    let mut out: String = String::new();
    let mut i: usize = 0;
    while i < chars.len()
        invariant
            chars@ == s@,
            i <= chars@.len(),
            out@ == ascii_lower_text(s@.subrange(0, i as int)),
        decreases chars@.len() - i,
    {
        out.push(lower_char(chars[i]));
        assert(ascii_lower_text(s@.subrange(0, i + 1)) =~= ascii_lower_text(
            s@.subrange(0, i as int),
        ).push(ascii_lower(s@[i as int])));
        i = i + 1;
    }
    assert(s@.subrange(0, s@.len() as int) =~= s@);
    out
}

/// Two texts in one.
pub fn concat(a: &str, b: &str) -> (r: String)
    ensures
        r@ == a@ + b@,
{
    let mut out: String = copy_text(a);
    push_text(&mut out, b);
    out
}

/// A text between two others.
pub fn around(a: &str, b: &str, c: &str) -> (r: String)
    ensures
        r@ == a@ + b@ + c@,
{
    let mut out: String = concat(a, b);
    push_text(&mut out, c);
    out
}

/// The text with a question mark for each ASCII control character.
pub open spec fn visible_text(s: Seq<char>) -> Seq<char> {
    s.map_values(
        |c: char|
            if ascii_control(c) {
                '?'
            } else {
                c
            },
    )
}

/// The text with a question mark for each ASCII control character.
pub fn visible(s: &str) -> (r: String)
    ensures
        r@ == visible_text(s@),
{
    let chars: Vec<char> = chars_of(s);
    let mut out: String = String::new();
    let mut i: usize = 0;
    while i < chars.len()
        invariant
            chars@ == s@,
            i <= chars@.len(),
            out@ == visible_text(s@.subrange(0, i as int)),
        decreases chars@.len() - i,
    {
        let c: char = chars[i];
        let shown: char = if is_ascii_control(c) {
            '?'
        } else {
            c
        };
        out.push(shown);
        assert(visible_text(s@.subrange(0, i + 1)) =~= visible_text(
            s@.subrange(0, i as int),
        ).push(shown));
        i = i + 1;
    }
    assert(s@.subrange(0, s@.len() as int) =~= s@);
    out
}

/// The text followed by as many spaces as it falls short of a width.
pub open spec fn padded_text(s: Seq<char>, width: nat) -> Seq<char> {
    if s.len() < width {
        s + Seq::new((width - s.len()) as nat, |i: int| ' ')
    } else {
        s
    }
}

/// The text followed by as many spaces as it falls short of a width.
pub fn pad_right(s: &str, width: usize) -> (r: String)
    ensures
        r@ == padded_text(s@, width as nat),
{
    let chars: Vec<char> = chars_of(s);
    let mut out: String = copy_text(s);
    let mut n: usize = chars.len();
    while n < width
        invariant
            chars@ == s@,
            n >= chars@.len(),
            chars@.len() <= width ==> n <= width,
            chars@.len() > width ==> n == chars@.len(),
            out@ == s@ + Seq::new((n - chars@.len()) as nat, |i: int| ' '),
        decreases width - n,
    {
        out.push(' ');
        n = n + 1;
        assert(out@ =~= s@ + Seq::new((n - chars@.len()) as nat, |i: int| ' '));
    }
    assert(out@ =~= padded_text(s@, width as nat));
    out
}

/// The text behind as many spaces as it falls short of a width.
pub open spec fn left_padded_text(s: Seq<char>, width: nat) -> Seq<char> {
    if s.len() < width {
        Seq::new((width - s.len()) as nat, |i: int| ' ') + s
    } else {
        s
    }
}

/// The text behind as many spaces as it falls short of a width.
pub fn pad_left(s: &str, width: usize) -> (r: String)
    ensures
        r@ == left_padded_text(s@, width as nat),
{
    let n: usize = chars_of(s).len();
    let mut out: String = String::new();
    let mut k: usize = n;
    assert(out@ =~= Seq::new((k - n) as nat, |i: int| ' '));
    while k < width
        invariant
            n == s@.len(),
            n <= k,
            n <= width ==> k <= width,
            n > width ==> k == n,
            out@ == Seq::new((k - n) as nat, |i: int| ' '),
        decreases width - k,
    {
        out.push(' ');
        k = k + 1;
        assert(out@ =~= Seq::new((k - n) as nat, |i: int| ' '));
    }
    push_text(&mut out, s);
    assert(out@ =~= left_padded_text(s@, width as nat));
    out
}

// ── Comparing and searching ──────────────────────────────────────────────────

/// Whether two texts are the same.
pub fn same_text(a: &str, b: &str) -> (r: bool)
    ensures
        r == (a@ == b@),
{
    let x: Vec<char> = chars_of(a);
    let y: Vec<char> = chars_of(b);
    same_chars(&x, &y)
}

/// Whether two character sequences are the same.
pub fn same_chars(x: &[char], y: &[char]) -> (r: bool)
    ensures
        r == (x@ == y@),
{
    if x.len() != y.len() {
        return false;
    }
    let mut i: usize = 0;
    while i < x.len()
        invariant
            i <= x@.len(),
            x@.len() == y@.len(),
            forall|j: int| 0 <= j < i ==> x@[j] == y@[j],
        decreases x@.len() - i,
    {
        if x[i] != y[i] {
            return false;
        }
        i = i + 1;
    }
    assert(x@ =~= y@);
    true
}

/// Whether `p` occurs in `s` at position `i`.
pub open spec fn occurs_at(s: Seq<char>, p: Seq<char>, i: int) -> bool {
    0 <= i && i + p.len() <= s.len() && s.subrange(i, i + p.len()) == p
}

/// Whether `p` occurs in `s`.
pub open spec fn occurs_in(s: Seq<char>, p: Seq<char>) -> bool {
    exists|i: int| occurs_at(s, p, i)
}

/// Whether `p` occurs in `s` at position `i`.
pub fn matches_at(s: &[char], p: &[char], i: usize) -> (r: bool)
    ensures
        r == occurs_at(s@, p@, i as int),
{
    if i > s.len() || s.len() - i < p.len() {
        return false;
    }
    let mut k: usize = 0;
    while k < p.len()
        invariant
            k <= p@.len(),
            i + p@.len() <= s.len(),
            forall|j: int| 0 <= j < k ==> s@[i + j] == p@[j],
        decreases p@.len() - k,
    {
        if s[i + k] != p[k] {
            assert(s@.subrange(i as int, i + p@.len())[k as int] != p@[k as int]);
            return false;
        }
        k = k + 1;
    }
    assert(s@.subrange(i as int, i + p@.len()) =~= p@);
    true
}

/// Whether `p` occurs in `s`.
pub fn contains_text(s: &str, p: &str) -> (r: bool)
    ensures
        r == occurs_in(s@, p@),
{
    let x: Vec<char> = chars_of(s);
    let y: Vec<char> = chars_of(p);
    if x.len() < y.len() {
        return false;
    }
    let last: usize = x.len() - y.len();
    let mut i: usize = 0;
    while i <= last
        invariant
            x@ == s@,
            y@ == p@,
            x@.len() >= y@.len(),
            last == x@.len() - y@.len(),
            i <= last + 1,
            forall|j: int| 0 <= j < i ==> !#[trigger] occurs_at(s@, p@, j),
        decreases last + 1 - i,
    {
        if matches_at(&x, &y, i) {
            return true;
        }
        if i == last {
            return false;
        }
        i = i + 1;
    }
    false
}

/// Whether a character occurs in a text.
pub fn contains_char(s: &str, c: char) -> (r: bool)
    ensures
        r == s@.contains(c),
{
    let x: Vec<char> = chars_of(s);
    let mut i: usize = 0;
    while i < x.len()
        invariant
            x@ == s@,
            i <= x@.len(),
            forall|j: int| 0 <= j < i ==> x@[j] != c,
        decreases x@.len() - i,
    {
        if x[i] == c {
            assert(s@[i as int] == c);
            return true;
        }
        i = i + 1;
    }
    false
}

/// The place of the first occurrence of a character, or the length where there is none.
pub open spec fn find_char(s: Seq<char>, c: char) -> int
    decreases s.len(),
{
    if s.len() == 0 || s[0] == c {
        0
    } else {
        1 + find_char(s.subrange(1, s.len() as int), c)
    }
}

/// A place with no occurrence before it is the first.
pub proof fn lemma_find_char(s: Seq<char>, c: char, i: int)
    requires
        0 <= i <= s.len(),
        i == s.len() || s[i] == c,
        forall|j: int| 0 <= j < i ==> s[j] != c,
    ensures
        find_char(s, c) == i,
    decreases s.len(),
{
    if i > 0 {
        let rest = s.subrange(1, s.len() as int);
        assert forall|j: int| 0 <= j < i - 1 implies rest[j] != c by {
            assert(rest[j] == s[j + 1]);
        }
        lemma_find_char(rest, c, i - 1);
    }
}

/// The place of the first occurrence of a character, or the length where there is none.
pub fn index_of(s: &[char], c: char) -> (r: usize)
    ensures
        r == find_char(s@, c),
        r <= s@.len(),
        r < s@.len() ==> s@[r as int] == c,
        forall|j: int| 0 <= j < r ==> s@[j] != c,
{
    let mut i: usize = 0;
    while i < s.len() && s[i] != c
        invariant
            i <= s@.len(),
            forall|j: int| 0 <= j < i ==> s@[j] != c,
        decreases s@.len() - i,
    {
        i = i + 1;
    }
    proof {
        lemma_find_char(s@, c, i as int);
    }
    i
}

/// The place of the last occurrence of a character, or -1 where there is none.
pub open spec fn find_last_char(s: Seq<char>, c: char) -> int
    decreases s.len(),
{
    if s.len() == 0 {
        -1
    } else if s[s.len() - 1] == c {
        s.len() - 1
    } else {
        find_last_char(s.subrange(0, s.len() - 1), c)
    }
}

proof fn lemma_find_last_char(s: Seq<char>, c: char, i: int)
    requires
        -1 <= i < s.len(),
        i == -1 || s[i] == c,
        forall|j: int| i < j < s.len() ==> s[j] != c,
    ensures
        find_last_char(s, c) == i,
    decreases s.len(),
{
    if i < s.len() - 1 {
        let init = s.subrange(0, s.len() - 1);
        assert(s[s.len() - 1] != c);
        lemma_find_last_char(init, c, i);
    }
}

/// The place of the last occurrence of a character.
pub fn last_index_of(s: &[char], c: char) -> (r: Option<usize>)
    ensures
        match r {
            Some(i) => i < s@.len() && find_last_char(s@, c) == i && s@[i as int] == c,
            None => find_last_char(s@, c) == -1,
        },
{
    let mut n: usize = s.len();
    while n > 0
        invariant
            n <= s@.len(),
            forall|j: int| n <= j < s@.len() ==> s@[j] != c,
        decreases n,
    {
        if s[n - 1] == c {
            proof {
                lemma_find_last_char(s@, c, n - 1);
            }
            return Some(n - 1);
        }
        n = n - 1;
    }
    proof {
        lemma_find_last_char(s@, c, -1);
    }
    None
}

/// Whether `s` begins with `p`.
pub fn starts_with(s: &str, p: &str) -> (r: bool)
    ensures
        r == p@.is_prefix_of(s@),
{
    let x: Vec<char> = chars_of(s);
    let y: Vec<char> = chars_of(p);
    matches_at(&x, &y, 0)
}

/// Whether `s` ends with `p`.
pub fn ends_with(s: &str, p: &str) -> (r: bool)
    ensures
        r == p@.is_suffix_of(s@),
{
    let x: Vec<char> = chars_of(s);
    let y: Vec<char> = chars_of(p);
    if x.len() < y.len() {
        return false;
    }
    let at: usize = x.len() - y.len();
    matches_at(&x, &y, at)
}

// ── Trimming and splitting ───────────────────────────────────────────────────

/// The text without its leading white space.
pub open spec fn trim_start_spec(s: Seq<char>) -> Seq<char>
    decreases s.len(),
{
    if s.len() > 0 && is_white_space(s[0]) {
        trim_start_spec(s.subrange(1, s.len() as int))
    } else {
        s
    }
}

/// The text without its trailing white space.
pub open spec fn trim_end_spec(s: Seq<char>) -> Seq<char>
    decreases s.len(),
{
    if s.len() > 0 && is_white_space(s[s.len() - 1]) {
        trim_end_spec(s.subrange(0, s.len() - 1))
    } else {
        s
    }
}

/// The text without the white space at its two ends.
pub open spec fn trim_spec(s: Seq<char>) -> Seq<char> {
    trim_end_spec(trim_start_spec(s))
}

/// The text without the white space at its two ends.
pub fn trim(s: &str) -> (r: String)
    ensures
        r@ == trim_spec(s@),
{
    let x: Vec<char> = chars_of(s);
    let mut a: usize = 0;
    assert(x@.subrange(0, x@.len() as int) =~= x@);
    while a < x.len() && x[a].is_whitespace()
        invariant
            a <= x@.len(),
            trim_start_spec(x@.subrange(a as int, x@.len() as int)) == trim_start_spec(x@),
        decreases x@.len() - a,
    {
        assert(x@.subrange(a as int, x@.len() as int).subrange(1, x@.len() - a) =~= x@.subrange(
            a + 1,
            x@.len() as int,
        ));
        a = a + 1;
    }
    let ghost mid = x@.subrange(a as int, x@.len() as int);
    assert(trim_start_spec(x@) == mid);
    let mut b: usize = x.len();
    while b > a && x[b - 1].is_whitespace()
        invariant
            a <= b <= x@.len(),
            trim_end_spec(x@.subrange(a as int, b as int)) == trim_end_spec(mid),
        decreases b,
    {
        assert(x@.subrange(a as int, b as int).subrange(0, b - a - 1) =~= x@.subrange(
            a as int,
            b - 1,
        ));
        b = b - 1;
    }
    assert(x@.subrange(a as int, b as int).len() == b - a);
    string_of(vstd::slice::slice_subrange(&x, a, b))
}

/// The maximal runs of characters other than white space, in order.
pub open spec fn words_spec(s: Seq<char>) -> Seq<Seq<char>>
    decreases s.len(),
{
    if s.len() == 0 {
        Seq::empty()
    } else {
        let init = s.subrange(0, s.len() - 1);
        let last = s[s.len() - 1];
        if is_white_space(last) {
            words_spec(init)
        } else if init.len() == 0 || is_white_space(init[init.len() - 1]) {
            words_spec(init).push(seq![last])
        } else {
            let w = words_spec(init);
            w.update(w.len() - 1, w[w.len() - 1].push(last))
        }
    }
}

/// The views of a list of texts.
pub open spec fn views(v: Seq<String>) -> Seq<Seq<char>> {
    v.map_values(|s: String| s@)
}

/// Texts in a row, with a separator between them.
pub open spec fn joined(v: Seq<Seq<char>>, separator: Seq<char>) -> Seq<char>
    decreases v.len(),
{
    if v.len() == 0 {
        Seq::empty()
    } else if v.len() == 1 {
        v[0]
    } else {
        joined(v.subrange(0, v.len() - 1), separator) + separator + v[v.len() - 1]
    }
}

/// Texts in a row, with a separator between them.
pub fn join_texts(v: &Vec<String>, separator: &str) -> (r: String)
    ensures
        r@ == joined(views(v@), separator@),
{
    let mut out: String = String::new();
    let mut i: usize = 0;
    let ghost w = views(v@);
    assert(out@ =~= joined(w.subrange(0, 0), separator@));
    while i < v.len()
        invariant
            i <= v@.len(),
            w == views(v@),
            out@ == joined(w.subrange(0, i as int), separator@),
        decreases v@.len() - i,
    {
        let ghost before = out@;
        if i > 0 {
            push_text(&mut out, separator);
        }
        push_text(&mut out, &v[i]);
        proof {
            let upto = w.subrange(0, i + 1);
            assert(upto.subrange(0, upto.len() - 1) =~= w.subrange(0, i as int));
            assert(upto[i as int] == v@[i as int]@);
            if i == 0 {
                assert(before =~= Seq::empty());
                assert(out@ =~= v@[0]@);
            } else {
                assert(out@ =~= before + separator@ + v@[i as int]@);
            }
        }
        i = i + 1;
    }
    assert(w.subrange(0, w.len() as int) =~= w);
    out
}

/// Splits a text at its white space.
pub fn split_whitespace(s: &str) -> (r: Vec<String>)
    ensures
        views(r@) == words_spec(s@),
{
    let x: Vec<char> = chars_of(s);
    let mut out: Vec<String> = Vec::new();
    let mut cur: String = String::new();
    let mut open: bool = false;
    let mut i: usize = 0;
    assert(views(out@) =~= words_spec(x@.subrange(0, 0)));
    while i < x.len()
        invariant
            x@ == s@,
            i <= x@.len(),
            open == (i > 0 && !is_white_space(x@[i - 1])),
            open ==> views(out@).push(cur@) == words_spec(x@.subrange(0, i as int)),
            !open ==> views(out@) == words_spec(x@.subrange(0, i as int)),
            !open ==> cur@.len() == 0,
        decreases x@.len() - i,
    {
        let ghost pre = x@.subrange(0, i as int);
        let ghost post = x@.subrange(0, i + 1);
        let c: char = x[i];
        assert(post.subrange(0, post.len() - 1) =~= pre);
        let ghost old_out = views(out@);
        if c.is_whitespace() {
            if open {
                let ghost word = cur@;
                let mut done: String = String::new();
                std::mem::swap(&mut done, &mut cur);
                out.push(done);
                assert(views(out@) =~= old_out.push(word));
                assert(cur@.len() == 0);
            }
            open = false;
        } else {
            let ghost word = cur@;
            cur.push(c);
            proof {
                if open {
                    let w = words_spec(pre);
                    assert(w.update(w.len() - 1, w[w.len() - 1].push(c)) =~= old_out.push(cur@));
                } else {
                    assert(cur@ =~= seq![c]);
                }
            }
            open = true;
        }
        i = i + 1;
    }
    assert(x@.subrange(0, x@.len() as int) =~= x@);
    if open {
        let ghost old_out = views(out@);
        let ghost word = cur@;
        out.push(cur);
        assert(views(out@) =~= old_out.push(word));
    }
    out
}

/// The lines of a text: the pieces that line feeds end, and what follows the last one if there is
/// anything.
pub open spec fn lines_spec(s: Seq<char>) -> Seq<Seq<char>>
    decreases s.len(),
{
    if s.len() == 0 {
        Seq::empty()
    } else {
        let init = s.subrange(0, s.len() - 1);
        let last = s[s.len() - 1];
        if init.len() == 0 || init[init.len() - 1] == '\n' {
            lines_spec(init).push(
                if last == '\n' {
                    Seq::empty()
                } else {
                    seq![last]
                },
            )
        } else if last == '\n' {
            lines_spec(init)
        } else {
            let l = lines_spec(init);
            l.update(l.len() - 1, l[l.len() - 1].push(last))
        }
    }
}

/// The lines of a text, without the line feeds that end them.
pub fn lines(s: &str) -> (r: Vec<String>)
    ensures
        views(r@) == lines_spec(s@),
{
    let x: Vec<char> = chars_of(s);
    let mut out: Vec<String> = Vec::new();
    let mut cur: String = String::new();
    let mut open: bool = false;
    let mut i: usize = 0;
    assert(views(out@) =~= lines_spec(x@.subrange(0, 0)));
    while i < x.len()
        invariant
            x@ == s@,
            i <= x@.len(),
            open == (i > 0 && x@[i - 1] != '\n'),
            open ==> views(out@).push(cur@) == lines_spec(x@.subrange(0, i as int)),
            !open ==> views(out@) == lines_spec(x@.subrange(0, i as int)),
            !open ==> cur@.len() == 0,
        decreases x@.len() - i,
    {
        let ghost pre = x@.subrange(0, i as int);
        let ghost post = x@.subrange(0, i + 1);
        let c: char = x[i];
        assert(post.subrange(0, post.len() - 1) =~= pre);
        let ghost old_out = views(out@);
        if c == '\n' {
            let ghost line = cur@;
            let mut done: String = String::new();
            std::mem::swap(&mut done, &mut cur);
            out.push(done);
            assert(views(out@) =~= old_out.push(line));
            assert(!open ==> line =~= Seq::empty());
            open = false;
        } else {
            cur.push(c);
            proof {
                if open {
                    let l = lines_spec(pre);
                    assert(l.update(l.len() - 1, l[l.len() - 1].push(c)) =~= old_out.push(cur@));
                } else {
                    assert(cur@ =~= seq![c]);
                }
            }
            open = true;
        }
        i = i + 1;
    }
    assert(x@.subrange(0, x@.len() as int) =~= x@);
    if open {
        let ghost old_out = views(out@);
        let ghost line = cur@;
        out.push(cur);
        assert(views(out@) =~= old_out.push(line));
    }
    out
}

// ── Numbers ──────────────────────────────────────────────────────────────────

/// The character of a decimal digit.
pub open spec fn digit_char(d: nat) -> char {
    (48 + d) as u8 as char
}

/// A number in decimal notation.
pub open spec fn decimal_spec(n: nat) -> Seq<char>
    decreases n,
{
    if n < 10 {
        seq![digit_char(n)]
    } else {
        decimal_spec(n / 10).push(digit_char(n % 10))
    }
}

/// A number in decimal notation.
pub fn decimal(n: u64) -> (r: String)
    ensures
        r@ == decimal_spec(n as nat),
    decreases n,
{
    let d: u8 = (n % 10) as u8;
    let c: char = (48 + d) as char;
    if n < 10 {
        let mut out: String = String::new();
        out.push(c);
        assert(out@ =~= decimal_spec(n as nat));
        out
    } else {
        let mut out: String = decimal(n / 10);
        out.push(c);
        out
    }
}

/// The value of a text of decimal digits; nothing where it is empty or holds anything else.
pub open spec fn digits_value(s: Seq<char>) -> Option<nat>
    decreases s.len(),
{
    if s.len() == 0 {
        None
    } else {
        let c = s[s.len() - 1];
        if !('0' <= c && c <= '9') {
            None
        } else if s.len() == 1 {
            Some((c as u32 - 48) as nat)
        } else {
            match digits_value(s.subrange(0, s.len() - 1)) {
                Some(v) => Some((10 * v + (c as u32 - 48)) as nat),
                None => None,
            }
        }
    }
}

/// The number below 65536 that a text is: decimal digits, with a plus sign before them or not.
pub open spec fn port_number(s: Seq<char>) -> Option<u16> {
    let digits = if s.len() > 0 && s[0] == '+' {
        s.subrange(1, s.len() as int)
    } else {
        s
    };
    match digits_value(digits) {
        Some(v) => if v <= 65535 {
            Some(v as u16)
        } else {
            None
        },
        None => None,
    }
}

/// The number below 2^32 that a text is: decimal digits, with a plus sign before them or not.
pub open spec fn u32_number(s: Seq<char>) -> Option<u32> {
    let digits = if s.len() > 0 && s[0] == '+' {
        s.subrange(1, s.len() as int)
    } else {
        s
    };
    match digits_value(digits) {
        Some(v) => if v <= u32::MAX {
            Some(v as u32)
        } else {
            None
        },
        None => None,
    }
}

proof fn lemma_digits_prefix(s: Seq<char>, n: int)
    requires
        0 < n <= s.len(),
        digits_value(s) is Some,
    ensures
        digits_value(s.subrange(0, n)) is Some,
        digits_value(s.subrange(0, n))->Some_0 <= digits_value(s)->Some_0,
    decreases s.len(),
{
    if n == s.len() {
        assert(s.subrange(0, n) =~= s);
    } else {
        let init = s.subrange(0, s.len() - 1);
        lemma_digits_prefix(init, n);
        assert(init.subrange(0, n) =~= s.subrange(0, n));
    }
}

/// The number below 2^32 that a text is.
pub fn parse_u32(s: &str) -> (r: Option<u32>)
    ensures
        r == u32_number(s@),
{
    let all: Vec<char> = chars_of(s);
    let from: usize = if all.len() > 0 && all[0] == '+' {
        1
    } else {
        0
    };
    let digits: &[char] = vstd::slice::slice_subrange(&all, from, all.len());
    assert(from == 0 ==> digits@ =~= s@);
    if digits.len() == 0 {
        return None;
    }
    let mut v: u64 = 0;
    let mut i: usize = 0;
    while i < digits.len()
        invariant
            i <= digits@.len(),
            digits@.len() > 0,
            digits@ == (if s@.len() > 0 && s@[0] == '+' {
                s@.subrange(1, s@.len() as int)
            } else {
                s@
            }),
            v <= u32::MAX,
            i > 0 ==> digits_value(digits@.subrange(0, i as int)) == Some(v as nat),
            i == 0 ==> v == 0,
        decreases digits@.len() - i,
    {
        let c: char = digits[i];
        let ghost upto = digits@.subrange(0, i + 1);
        assert(upto.subrange(0, i as int) =~= digits@.subrange(0, i as int));
        if !('0' <= c && c <= '9') {
            proof {
                if digits_value(digits@) is Some {
                    lemma_digits_prefix(digits@, i + 1);
                }
            }
            return None;
        }
        v = 10 * v + (c as u64 - 48);
        assert(digits_value(upto) == Some(v as nat));
        if v > u32::MAX as u64 {
            proof {
                if digits_value(digits@) is Some {
                    lemma_digits_prefix(digits@, i + 1);
                }
            }
            return None;
        }
        i = i + 1;
    }
    assert(digits@.subrange(0, digits@.len() as int) =~= digits@);
    Some(v as u32)
}

/// The number below 65536 that a text is.
pub fn parse_port(s: &str) -> (r: Option<u16>)
    ensures
        r == port_number(s@),
{
    match parse_u32(s) {
        Some(v) => {
            if v <= 65535 {
                Some(v as u16)
            } else {
                None
            }
        },
        None => None,
    }
}

/// The character of a hexadecimal digit; letters in lower case.
pub open spec fn hex_char(d: nat) -> char {
    if d < 10 {
        (48 + d) as u8 as char
    } else {
        (87 + d) as u8 as char
    }
}

/// Bytes in hexadecimal notation, two lower-case digits each.
pub open spec fn hex_spec(b: Seq<u8>) -> Seq<char> {
    Seq::new(
        2 * b.len(),
        |i: int|
            if i % 2 == 0 {
                hex_char(b[i / 2] as nat / 16)
            } else {
                hex_char(b[i / 2] as nat % 16)
            },
    )
}

fn hex_digit(d: u8) -> (c: char)
    requires
        d < 16,
    ensures
        c == hex_char(d as nat),
{
    if d < 10 {
        (48 + d) as char
    } else {
        (87 + d) as char
    }
}

/// Bytes in hexadecimal notation, two lower-case digits each.
pub fn hex(b: &[u8]) -> (r: String)
    ensures
        r@ == hex_spec(b@),
{
    let mut out: String = String::new();
    let mut i: usize = 0;
    assert(out@ =~= hex_spec(b@.subrange(0, 0)));
    while i < b.len()
        invariant
            i <= b@.len(),
            out@ == hex_spec(b@.subrange(0, i as int)),
        decreases b@.len() - i,
    {
        let ghost before = out@;
        let v: u8 = b[i];
        out.push(hex_digit(v / 16));
        out.push(hex_digit(v % 16));
        assert(out@ =~= hex_spec(b@.subrange(0, i + 1)));
        i = i + 1;
    }
    assert(b@.subrange(0, b@.len() as int) =~= b@);
    out
}

/// The character of a hexadecimal digit; letters in upper case.
pub open spec fn upper_hex_char(d: nat) -> char {
    if d < 10 {
        (48 + d) as u8 as char
    } else {
        (55 + d) as u8 as char
    }
}

/// A byte as two upper-case hexadecimal digits.
pub open spec fn hex_byte(b: u8) -> Seq<char> {
    seq![upper_hex_char(b as nat / 16), upper_hex_char(b as nat % 16)]
}

fn upper_hex_digit(d: u8) -> (c: char)
    requires
        d < 16,
    ensures
        c == upper_hex_char(d as nat),
{
    if d < 10 {
        (48 + d) as char
    } else {
        (55 + d) as char
    }
}

/// Appends a byte as two upper-case hexadecimal digits.
pub fn push_hex_byte(out: &mut String, b: u8)
    ensures
        final(out)@ == old(out)@ + hex_byte(b),
{
    out.push(upper_hex_digit(b / 16));
    out.push(upper_hex_digit(b % 16));
    assert(out@ =~= old(out)@ + hex_byte(b));
}

// ── Laws ─────────────────────────────────────────────────────────────────────

/// White space throughout.
pub open spec fn all_white(s: Seq<char>) -> bool {
    forall|i: int| 0 <= i < s.len() ==> is_white_space(#[trigger] s[i])
}

/// Trimming takes white space from the two ends and nothing else: what is left begins and ends with
/// other characters, and stands between white space in the text.
pub proof fn law_trim_takes_white_space_from_the_ends(a: Seq<char>, s: Seq<char>, b: Seq<char>)
    requires
        all_white(a),
        all_white(b),
        s.len() > 0 ==> !is_white_space(s[0]) && !is_white_space(s[s.len() - 1]),
    ensures
        trim_spec(a + s + b) == s,
{
    let rest = s + b;
    assert(a + s + b =~= a + rest);
    if s.len() > 0 {
        lemma_trim_start(a, rest);
        lemma_trim_end(s, b);
    } else {
        assert(rest =~= b);
        assert(all_white(a + b)) by {
            assert forall|i: int| 0 <= i < (a + b).len() implies is_white_space(
                #[trigger] (a + b)[i],
            ) by {
                if i >= a.len() {
                    assert((a + b)[i] == b[i - a.len()]);
                }
            }
        }
        lemma_trim_all(a + b);
        assert(trim_start_spec(a + rest).len() == 0);
        assert(s =~= Seq::empty());
    }
}

/// Every text is white space, its trimmed form, and white space again.
pub proof fn law_trim_keeps_the_rest(t: Seq<char>)
    ensures
        exists|a: Seq<char>, b: Seq<char>| #[trigger]
            (a + trim_spec(t) + b) == t && all_white(a) && all_white(b),
        trim_spec(t).len() > 0 ==> !is_white_space(trim_spec(t)[0]) && !is_white_space(
            trim_spec(t)[trim_spec(t).len() - 1],
        ),
{
    lemma_trim_start_parts(t);
    let m = trim_start_spec(t);
    let a = choose|a: Seq<char>| #[trigger] (a + m) == t && all_white(a);
    lemma_trim_end_parts(m);
    let b = choose|b: Seq<char>| #[trigger] (trim_spec(t) + b) == m && all_white(b);
    assert(a + trim_spec(t) + b =~= t);
    if trim_spec(t).len() > 0 {
        assert(trim_spec(t)[0] == m[0]) by {
            assert((trim_spec(t) + b)[0] == trim_spec(t)[0]);
        }
    }
}

proof fn lemma_trim_start(a: Seq<char>, s: Seq<char>)
    requires
        all_white(a),
        s.len() > 0,
        !is_white_space(s[0]),
    ensures
        trim_start_spec(a + s) == s,
    decreases a.len(),
{
    if a.len() > 0 {
        let rest = a.subrange(1, a.len() as int);
        assert((a + s).subrange(1, (a + s).len() as int) =~= rest + s);
        assert((a + s)[0] == a[0]);
        assert forall|i: int| 0 <= i < rest.len() implies is_white_space(#[trigger] rest[i]) by {
            assert(rest[i] == a[i + 1]);
        }
        lemma_trim_start(rest, s);
    } else {
        assert(a + s =~= s);
    }
}

proof fn lemma_trim_end(s: Seq<char>, b: Seq<char>)
    requires
        all_white(b),
        s.len() > 0,
        !is_white_space(s[s.len() - 1]),
    ensures
        trim_end_spec(s + b) == s,
    decreases b.len(),
{
    if b.len() > 0 {
        let init = b.subrange(0, b.len() - 1);
        assert((s + b).subrange(0, (s + b).len() - 1) =~= s + init);
        assert((s + b)[(s + b).len() - 1] == b[b.len() - 1]);
        lemma_trim_end(s, init);
    } else {
        assert(s + b =~= s);
    }
}

proof fn lemma_trim_all(s: Seq<char>)
    requires
        all_white(s),
    ensures
        trim_start_spec(s).len() == 0,
    decreases s.len(),
{
    if s.len() > 0 {
        let rest = s.subrange(1, s.len() as int);
        assert forall|i: int| 0 <= i < rest.len() implies is_white_space(#[trigger] rest[i]) by {
            assert(rest[i] == s[i + 1]);
        }
        lemma_trim_all(rest);
    }
}

proof fn lemma_trim_start_parts(t: Seq<char>)
    ensures
        exists|a: Seq<char>| #[trigger] (a + trim_start_spec(t)) == t && all_white(a),
        trim_start_spec(t).len() > 0 ==> !is_white_space(trim_start_spec(t)[0]),
    decreases t.len(),
{
    if t.len() > 0 && is_white_space(t[0]) {
        let rest = t.subrange(1, t.len() as int);
        lemma_trim_start_parts(rest);
        let a = choose|a: Seq<char>| #[trigger] (a + trim_start_spec(rest)) == rest && all_white(a);
        let whole = seq![t[0]] + a;
        assert forall|i: int| 0 <= i < whole.len() implies is_white_space(#[trigger] whole[i]) by {
            if i > 0 {
                assert(whole[i] == a[i - 1]);
            }
        }
        assert(whole + trim_start_spec(t) =~= t) by {
            assert(t =~= seq![t[0]] + rest);
        }
    } else {
        let none = Seq::<char>::empty();
        assert(none + trim_start_spec(t) =~= t);
    }
}

proof fn lemma_trim_end_parts(t: Seq<char>)
    ensures
        exists|b: Seq<char>| #[trigger] (trim_end_spec(t) + b) == t && all_white(b),
        trim_end_spec(t).len() > 0 ==> !is_white_space(
            trim_end_spec(t)[trim_end_spec(t).len() - 1],
        ),
    decreases t.len(),
{
    if t.len() > 0 && is_white_space(t[t.len() - 1]) {
        let init = t.subrange(0, t.len() - 1);
        lemma_trim_end_parts(init);
        let b = choose|b: Seq<char>| #[trigger] (trim_end_spec(init) + b) == init && all_white(b);
        let whole = b.push(t[t.len() - 1]);
        assert(trim_end_spec(t) + whole =~= t) by {
            assert(t =~= init.push(t[t.len() - 1]));
        }
    } else {
        let none = Seq::<char>::empty();
        assert(trim_end_spec(t) + none =~= t);
    }
}

/// The words of a text and of what follows behind white space are the words of the two, one after
/// the other.
pub proof fn law_white_space_parts_words(a: Seq<char>, c: char, b: Seq<char>)
    requires
        is_white_space(c),
    ensures
        words_spec(a.push(c) + b) == words_spec(a) + words_spec(b),
    decreases b.len(),
{
    let s = a.push(c) + b;
    if b.len() == 0 {
        assert(s =~= a.push(c));
        assert(s.subrange(0, s.len() - 1) =~= a);
        assert(words_spec(b) =~= Seq::empty());
        assert(words_spec(a) + words_spec(b) =~= words_spec(a));
    } else {
        let init = b.subrange(0, b.len() - 1);
        law_white_space_parts_words(a, c, init);
        assert(s.subrange(0, s.len() - 1) =~= a.push(c) + init);
        assert(s[s.len() - 1] == b[b.len() - 1]);
        let before = a.push(c) + init;
        if init.len() == 0 {
            assert(before[before.len() - 1] == c);
        } else {
            assert(before[before.len() - 1] == init[init.len() - 1]);
        }
        let last = b[b.len() - 1];
        if !is_white_space(last) {
            if init.len() == 0 || is_white_space(init[init.len() - 1]) {
                assert((words_spec(a) + words_spec(init)).push(seq![last]) =~= words_spec(a)
                    + words_spec(init).push(seq![last]));
            } else {
                lemma_words_some(init);
                let w = words_spec(init);
                let all = words_spec(a) + w;
                assert(all[all.len() - 1] == w[w.len() - 1]);
                assert(all.update(all.len() - 1, all[all.len() - 1].push(last)) =~= words_spec(a)
                    + w.update(w.len() - 1, w[w.len() - 1].push(last)));
            }
        }
    }
}

/// A text that does not end with white space has a word.
proof fn lemma_words_some(s: Seq<char>)
    requires
        s.len() > 0,
        !is_white_space(s[s.len() - 1]),
    ensures
        words_spec(s).len() > 0,
    decreases s.len(),
{
    let init = s.subrange(0, s.len() - 1);
    if init.len() > 0 && !is_white_space(init[init.len() - 1]) {
        lemma_words_some(init);
    }
}

/// A text without white space is one word, and the empty text has none.
pub proof fn law_one_word(w: Seq<char>)
    requires
        forall|i: int| 0 <= i < w.len() ==> !is_white_space(#[trigger] w[i]),
    ensures
        words_spec(w) == if w.len() == 0 {
            Seq::empty()
        } else {
            seq![w]
        },
    decreases w.len(),
{
    if w.len() > 0 {
        let init = w.subrange(0, w.len() - 1);
        law_one_word(init);
        if init.len() == 0 {
            assert(seq![w[w.len() - 1]] =~= w);
            assert(words_spec(w) =~= seq![w]);
        } else {
            assert(!is_white_space(init[init.len() - 1]));
            assert(init.push(w[w.len() - 1]) =~= w);
            assert(words_spec(w) =~= seq![w]);
        }
    } else {
        assert(words_spec(w) =~= Seq::empty());
    }
}

/// Joined texts are the texts with the separator between them: behind some texts, another one
/// follows after a separator; a single text stands for itself.
pub proof fn law_joined(v: Seq<Seq<char>>, x: Seq<char>, separator: Seq<char>)
    ensures
        joined(seq![x], separator) == x,
        v.len() > 0 ==> joined(v.push(x), separator) == joined(v, separator) + separator + x,
        joined(Seq::empty(), separator) == Seq::<char>::empty(),
{
    if v.len() > 0 {
        assert(v.push(x).subrange(0, v.len() as int) =~= v);
    }
}

/// The lines of a text that has a line feed are what stands before it, and the lines behind it.
pub proof fn law_line_feed_ends_a_line(a: Seq<char>, b: Seq<char>)
    requires
        !a.contains('\n'),
    ensures
        lines_spec(a.push('\n') + b) == seq![a] + lines_spec(b),
        lines_spec(a) == if a.len() == 0 {
            Seq::empty()
        } else {
            seq![a]
        },
    decreases b.len(),
{
    lemma_one_line(a);
    let s = a.push('\n') + b;
    if b.len() == 0 {
        assert(s =~= a.push('\n'));
        assert(s.subrange(0, s.len() - 1) =~= a);
        if a.len() > 0 {
            assert(a.contains(a[a.len() - 1]));
            assert(a[a.len() - 1] != '\n');
        } else {
            assert(a =~= Seq::empty());
        }
        assert(lines_spec(s) =~= seq![a]);
        assert(seq![a] + lines_spec(b) =~= seq![a]);
    } else {
        let init = b.subrange(0, b.len() - 1);
        let last = b[b.len() - 1];
        law_line_feed_ends_a_line(a, init);
        let before = a.push('\n') + init;
        assert(s.subrange(0, s.len() - 1) =~= before);
        assert(s[s.len() - 1] == last);
        if init.len() == 0 {
            assert(before[before.len() - 1] == '\n');
        } else {
            assert(before[before.len() - 1] == init[init.len() - 1]);
        }
        if init.len() == 0 || init[init.len() - 1] == '\n' {
            let piece = if last == '\n' {
                Seq::<char>::empty()
            } else {
                seq![last]
            };
            assert((seq![a] + lines_spec(init)).push(piece) =~= seq![a] + lines_spec(init).push(
                piece,
            ));
        } else if last != '\n' {
            lemma_lines_some(init);
            let l = lines_spec(init);
            let all = seq![a] + l;
            assert(all[all.len() - 1] == l[l.len() - 1]);
            assert(all.update(all.len() - 1, all[all.len() - 1].push(last)) =~= seq![a] + l.update(
                l.len() - 1,
                l[l.len() - 1].push(last),
            ));
        }
    }
}

proof fn lemma_lines_some(s: Seq<char>)
    requires
        s.len() > 0,
    ensures
        lines_spec(s).len() > 0,
    decreases s.len(),
{
    let init = s.subrange(0, s.len() - 1);
    if init.len() > 0 {
        lemma_lines_some(init);
    }
}

proof fn lemma_one_line(a: Seq<char>)
    requires
        !a.contains('\n'),
    ensures
        lines_spec(a) == if a.len() == 0 {
            Seq::empty()
        } else {
            seq![a]
        },
    decreases a.len(),
{
    if a.len() > 0 {
        let init = a.subrange(0, a.len() - 1);
        let last = a[a.len() - 1];
        assert(a.contains(last));
        assert(!init.contains('\n')) by {
            if init.contains('\n') {
                let i = choose|i: int| 0 <= i < init.len() && init[i] == '\n';
                assert(a[i] == '\n');
            }
        }
        lemma_one_line(init);
        assert(init.push(last) =~= a);
        if init.len() == 0 {
            assert(seq![last] =~= a);
            assert(lines_spec(a) =~= seq![a]);
        } else {
            assert(init[init.len() - 1] != '\n') by {
                assert(init.contains(init[init.len() - 1]));
            }
            assert(lines_spec(a) =~= seq![a]);
        }
    } else {
        assert(lines_spec(a) =~= Seq::empty());
    }
}

/// The decimal notation of a number is read as that number, has only digits, and no zero before
/// other digits.
pub proof fn law_decimal_is_read_back(n: nat)
    ensures
        digits_value(decimal_spec(n)) == Some(n),
        decimal_spec(n).len() > 0,
        decimal_spec(n)[0] == '0' ==> n == 0 && decimal_spec(n).len() == 1,
        forall|i: int| 0 <= i < decimal_spec(n).len() ==> '0' <= #[trigger] decimal_spec(n)[i] <= '9',
    decreases n,
{
    if n >= 10 {
        law_decimal_is_read_back(n / 10);
        let s = decimal_spec(n);
        assert(s.subrange(0, s.len() - 1) =~= decimal_spec(n / 10));
        assert(s[0] == decimal_spec(n / 10)[0]);
        assert(s[s.len() - 1] == digit_char(n % 10));
        assert forall|i: int| 0 <= i < s.len() implies '0' <= #[trigger] s[i] <= '9' by {
            if i < s.len() - 1 {
                assert(s[i] == decimal_spec(n / 10)[i]);
            }
        }
    } else {
        assert(decimal_spec(n) =~= seq![digit_char(n)]);
    }
}

/// A digit behind a number makes ten times the number and the digit; anything else behind it makes
/// no number.
pub proof fn law_digits_count_by_tens(s: Seq<char>, c: char)
    ensures
        digits_value(s.push(c)) == if !('0' <= c && c <= '9') {
            None
        } else if s.len() == 0 {
            Some((c as u32 - '0' as u32) as nat)
        } else {
            match digits_value(s) {
                Some(v) => Some((10 * v + (c as u32 - '0' as u32)) as nat),
                None => None,
            }
        },
        digits_value(Seq::empty()) is None,
{
    assert(s.push(c).subrange(0, s.len() as int) =~= s);
}

/// A number in decimal notation, with a plus sign or without, is the port or the 32-bit number that
/// it is, where it is not too large.
pub proof fn law_numbers_are_read(n: nat)
    ensures
        port_number(decimal_spec(n)) == (if n <= 65535 {
            Some(n as u16)
        } else {
            None
        }),
        u32_number(decimal_spec(n)) == (if n <= 0xffff_ffff {
            Some(n as u32)
        } else {
            None
        }),
        port_number(seq!['+'] + decimal_spec(n)) == port_number(decimal_spec(n)),
        u32_number(seq!['+'] + decimal_spec(n)) == u32_number(decimal_spec(n)),
{
    law_decimal_is_read_back(n);
    let d = decimal_spec(n);
    assert('0' <= d[0] <= '9');
    let p = seq!['+'] + d;
    assert(p.subrange(1, p.len() as int) =~= d);
}

/// A byte in hexadecimal notation has a digit for each half, the high one first: digits count up
/// from zero, and letters from ten.
pub proof fn law_hex_digits(b: u8)
    ensures
        hex_byte(b).len() == 2,
        hex_byte(b)[0] as u32 == if b / 16 < 10 {
            '0' as u32 + b / 16
        } else {
            'A' as u32 + (b / 16 - 10)
        },
        hex_byte(b)[1] as u32 == if b % 16 < 10 {
            '0' as u32 + b % 16
        } else {
            'A' as u32 + (b % 16 - 10)
        },
{
}

/// Bytes in hexadecimal notation are two lower-case digits for each byte, in order.
pub proof fn law_hex_of_bytes(b: Seq<u8>, i: int)
    ensures
        hex_spec(b).len() == 2 * b.len(),
        0 <= i < b.len() ==> hex_spec(b)[2 * i] as u32 == if b[i] / 16 < 10 {
            '0' as u32 + b[i] / 16
        } else {
            'a' as u32 + (b[i] / 16 - 10)
        },
        0 <= i < b.len() ==> hex_spec(b)[2 * i + 1] as u32 == if b[i] % 16 < 10 {
            '0' as u32 + b[i] % 16
        } else {
            'a' as u32 + (b[i] % 16 - 10)
        },
{
    assert((2 * i) / 2 == i && (2 * i) % 2 == 0);
    assert((2 * i + 1) / 2 == i && (2 * i + 1) % 2 == 1);
}

/// What is made visible keeps its length and every character but the control characters.
pub proof fn law_visible_text_keeps_characters(s: Seq<char>, i: int)
    ensures
        visible_text(s).len() == s.len(),
        0 <= i < s.len() && (s[i] as u32) >= 32 && (s[i] as u32) != 127 ==> visible_text(s)[i]
            == s[i],
        0 <= i < s.len() && ((s[i] as u32) < 32 || (s[i] as u32) == 127) ==> visible_text(s)[i]
            == '?',
{
}

/// Padding adds spaces behind a text, or before it, up to a width, and changes nothing of the text.
pub proof fn law_padding_adds_spaces(s: Seq<char>, width: nat)
    ensures
        padded_text(s, width).len() == (if s.len() < width {
            width
        } else {
            s.len()
        }),
        padded_text(s, width).subrange(0, s.len() as int) == s,
        forall|i: int|
            s.len() <= i < padded_text(s, width).len() ==> #[trigger] padded_text(s, width)[i]
                == ' ',
        left_padded_text(s, width).len() == padded_text(s, width).len(),
        left_padded_text(s, width).subrange(
            left_padded_text(s, width).len() - s.len(),
            left_padded_text(s, width).len() as int,
        ) == s,
        forall|i: int|
            0 <= i < left_padded_text(s, width).len() - s.len() ==> #[trigger] left_padded_text(
                s,
                width,
            )[i] == ' ',
{
    assert(padded_text(s, width).subrange(0, s.len() as int) =~= s);
    let l = left_padded_text(s, width);
    assert(l.subrange(l.len() - s.len(), l.len() as int) =~= s);
}

/// Lower case changes the ASCII capitals and nothing else; upper case changes the other ASCII
/// letters and nothing else.
pub proof fn law_case_changes_letters_alone(s: Seq<char>, i: int)
    ensures
        ascii_lower_text(s).len() == s.len(),
        0 <= i < s.len() ==> ascii_lower_text(s)[i] as u32 == if 'A' <= s[i] && s[i] <= 'Z' {
            s[i] as u32 + 32
        } else {
            s[i] as int
        },
        ascii_upper_text(s).len() == s.len(),
        0 <= i < s.len() ==> ascii_upper_text(s)[i] as u32 == if 'a' <= s[i] && s[i] <= 'z' {
            s[i] as u32 - 32
        } else {
            s[i] as int
        },
{
}

/// Text is found where it stands: a text occurs in another exactly where that other is something,
/// the text, and something again.
pub proof fn law_occurrence(s: Seq<char>, p: Seq<char>)
    ensures
        occurs_in(s, p) <==> exists|a: Seq<char>, b: Seq<char>| #[trigger] (a + p + b) == s,
{
    if occurs_in(s, p) {
        let i = choose|i: int| occurs_at(s, p, i);
        let a = s.subrange(0, i);
        let b = s.subrange(i + p.len(), s.len() as int);
        assert(a + p + b =~= s) by {
            assert forall|k: int| 0 <= k < s.len() implies (a + p + b)[k] == s[k] by {
                if i <= k < i + p.len() {
                    assert(s.subrange(i, i + p.len())[k - i] == s[k]);
                }
            }
        }
    }
    if exists|a: Seq<char>, b: Seq<char>| #[trigger] (a + p + b) == s {
        let (a, b) = choose|a: Seq<char>, b: Seq<char>| #[trigger] (a + p + b) == s;
        assert(s.subrange(a.len() as int, (a.len() + p.len()) as int) =~= p);
        assert(occurs_at(s, p, a.len() as int));
    }
}

/// The first and the last place of a character: it stands there, and nowhere before the first or
/// behind the last.
pub proof fn law_first_and_last_place(a: Seq<char>, c: char, b: Seq<char>)
    ensures
        !a.contains(c) ==> find_char(a.push(c) + b, c) == a.len(),
        !a.contains(c) ==> find_char(a, c) == a.len(),
        !b.contains(c) ==> find_last_char(a.push(c) + b, c) == a.len(),
        !a.contains(c) ==> find_last_char(a, c) == -1,
{
    let s = a.push(c) + b;
    if !a.contains(c) {
        assert forall|j: int| 0 <= j < a.len() implies a[j] != c by {
            assert(a.contains(a[j]));
        }
        assert forall|j: int| 0 <= j < a.len() implies s[j] != c by {
            assert(s[j] == a[j]);
        }
        lemma_find_char(s, c, a.len() as int);
        lemma_find_char(a, c, a.len() as int);
        lemma_find_last_char(a, c, -1);
    }
    if !b.contains(c) {
        assert forall|j: int| a.len() < j < s.len() implies s[j] != c by {
            assert(s[j] == b[j - a.len() - 1]);
            assert(b.contains(b[j - a.len() - 1]));
        }
        lemma_find_last_char(s, c, a.len() as int);
    }
}

/// The views of texts are the texts, one for one.
pub proof fn law_views_one_for_one(v: Seq<String>, i: int)
    ensures
        views(v).len() == v.len(),
        0 <= i < v.len() ==> views(v)[i] == v[i]@,
{
}

/// The upper-case form of ASCII text has its letters changed one by one; other text follows the
/// Unicode conversion.
pub proof fn law_upper_case(s: Seq<char>)
    ensures
        (forall|i: int| 0 <= i < s.len() ==> (#[trigger] s[i] as u32) < 128) ==> upper_of(s)
            == ascii_upper_text(s),
        (exists|i: int| 0 <= i < s.len() && (#[trigger] s[i] as u32) >= 128) ==> upper_of(s)
            == unicode_uppercase(s),
{
}

/// A text is a number exactly where it is decimal digits, with a plus sign before them or not, of a
/// value that fits; zeros in front do not matter.
pub proof fn law_texts_that_are_numbers(s: Seq<char>)
    ensures
        s.len() == 0 ==> port_number(s) is None && u32_number(s) is None,
        s.len() > 0 && s[0] != '+' ==> port_number(s) == (match digits_value(s) {
            Some(v) => if v < 0x1_0000 {
                Some(v as u16)
            } else {
                None
            },
            None => None,
        }) && u32_number(s) == (match digits_value(s) {
            Some(v) => if v < 0x1_0000_0000 {
                Some(v as u32)
            } else {
                None
            },
            None => None,
        }),
        port_number(seq!['+'] + s) == (match digits_value(s) {
            Some(v) => if v < 0x1_0000 {
                Some(v as u16)
            } else {
                None
            },
            None => None,
        }),
        u32_number(seq!['+'] + s) == (match digits_value(s) {
            Some(v) => if v < 0x1_0000_0000 {
                Some(v as u32)
            } else {
                None
            },
            None => None,
        }),
{
    let p = seq!['+'] + s;
    assert(p.subrange(1, p.len() as int) =~= s);
}

} // verus!
