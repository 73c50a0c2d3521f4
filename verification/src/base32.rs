//! Base32 without padding, and the blobs that people copy and paste.

use crate::text::{
    ascii_lower, ascii_lower_text, ascii_upper, ascii_upper_text, chars_of, concat, copy_text,
    is_ascii_text, is_white_space, lemma_ascii_utf8_len, lower_text, upper_of, upper_text,
};
use data_encoding::BASE32_NOPAD;
use vstd::arithmetic::power2::pow2;
use vstd::prelude::*;
use vstd::utf8::encode_utf8;

verus! {

// ── The code ─────────────────────────────────────────────────────────────────

/// Bit `k` of a byte sequence, the highest bit of the first byte being the first; zero behind the
/// end.
pub open spec fn bit_at(b: Seq<u8>, k: int) -> nat {
    if 0 <= k < 8 * b.len() {
        let v = b[k / 8] as nat;
        let j = k % 8;
        if j == 0 {
            (v / 128) % 2
        } else if j == 1 {
            (v / 64) % 2
        } else if j == 2 {
            (v / 32) % 2
        } else if j == 3 {
            (v / 16) % 2
        } else if j == 4 {
            (v / 8) % 2
        } else if j == 5 {
            (v / 4) % 2
        } else if j == 6 {
            (v / 2) % 2
        } else {
            v % 2
        }
    } else {
        0
    }
}

/// The value of the five bits from `5 * i` on.
pub open spec fn group_at(b: Seq<u8>, i: int) -> nat {
    16 * bit_at(b, 5 * i) + 8 * bit_at(b, 5 * i + 1) + 4 * bit_at(b, 5 * i + 2) + 2 * bit_at(
        b,
        5 * i + 3,
    ) + bit_at(b, 5 * i + 4)
}

/// The symbol of a value below 32: the letters, then the digits from 2 to 7.
pub open spec fn base32_char(v: nat) -> char {
    if v < 26 {
        (65 + v) as u8 as char
    } else {
        (24 + v) as u8 as char
    }
}

/// The number of symbols for a number of bytes.
pub open spec fn base32_len(n: nat) -> nat {
    (8 * n + 4) / 5
}

/// The base32 form of a byte sequence, without padding.
pub open spec fn base32_spec(b: Seq<u8>) -> Seq<char> {
    Seq::new(base32_len(b.len()), |i: int| base32_char(group_at(b, i)))
}

/// A text that is the base32 form of some byte sequence.
pub open spec fn is_base32(s: Seq<char>) -> bool {
    exists|b: Seq<u8>| #[trigger] base32_spec(b) == s
}

/// `BASE32_NOPAD.encode`: groups of five bits, the highest first, in the alphabet of RFC 4648.
/// Longer input is left out: the encoder stops on it.
#[verifier::external_body]
fn base32_encode(b: &[u8]) -> (r: String)
    requires
        b@.len() <= usize::MAX / 512,
    ensures
        r@ == base32_spec(b@),
{
    BASE32_NOPAD.encode(b)
}

/// `BASE32_NOPAD.decode`. It accepts exactly the texts that encoding produces, and returns what
/// they encode; a wrong length, a foreign symbol or a bit behind the end is an error. Nothing is
/// said of the words of an error. Longer input is left out: the decoder stops on it.
#[verifier::external_body]
fn base32_decode(s: &str) -> (r: Result<Vec<u8>, String>)
    requires
        encode_utf8(s@).len() <= usize::MAX / 8,
    ensures
        r matches Ok(b) ==> base32_spec(b@) == s@,
        r is Err ==> !is_base32(s@),
{
    BASE32_NOPAD.decode(s.as_bytes()).map_err(|e| e.to_string())
}

/// A text that is the base32 form of some byte sequence, and not too long to decode.
pub open spec fn readable_base32(s: Seq<char>) -> bool {
    is_base32(s) && encode_utf8(s).len() <= usize::MAX / 8
}

/// Decodes a base32 text.
pub fn decode_base32(s: &str) -> (r: Result<Vec<u8>, String>)
    ensures
        r matches Ok(b) ==> base32_spec(b@) == s@ && readable_base32(s@),
        r is Err ==> !readable_base32(s@),
{
    if s.as_bytes().len() > usize::MAX / 8 {
        return Err(copy_text("input is too long"));
    }
    base32_decode(s)
}

/// The symbols take one byte each.
pub proof fn lemma_base32_utf8_len(b: Seq<u8>)
    ensures
        encode_utf8(base32_spec(b)).len() == base32_len(b.len()),
{
    let s = base32_spec(b);
    assert forall|i: int| 0 <= i < s.len() implies (#[trigger] s[i] as u32) < 128 by {
        lemma_group(b, i);
        lemma_symbol(group_at(b, i));
    }
    lemma_ascii_utf8_len(s);
}

proof fn lemma_bit_bound(b: Seq<u8>, k: int)
    ensures
        bit_at(b, k) <= 1,
{
}

/// The value of a group is below 32.
pub proof fn lemma_group(b: Seq<u8>, i: int)
    ensures
        group_at(b, i) < 32,
{
    lemma_bit_bound(b, 5 * i);
    lemma_bit_bound(b, 5 * i + 1);
    lemma_bit_bound(b, 5 * i + 2);
    lemma_bit_bound(b, 5 * i + 3);
    lemma_bit_bound(b, 5 * i + 4);
}

proof fn lemma_char_injective(v: nat, w: nat)
    requires
        v < 32,
        w < 32,
        base32_char(v) == base32_char(w),
    ensures
        v == w,
{
    assert(forall|x: nat| x < 32 ==> (#[trigger] base32_char(x)) as u32 == if x < 26 {
        65 + x
    } else {
        24 + x
    });
    assert(base32_char(v) as u32 == base32_char(w) as u32);
}

proof fn lemma_group_bits(a: Seq<u8>, b: Seq<u8>, i: int, k: int)
    requires
        group_at(a, i) == group_at(b, i),
        5 * i <= k < 5 * i + 5,
    ensures
        bit_at(a, k) == bit_at(b, k),
{
    lemma_bit_bound(a, 5 * i);
    lemma_bit_bound(a, 5 * i + 1);
    lemma_bit_bound(a, 5 * i + 2);
    lemma_bit_bound(a, 5 * i + 3);
    lemma_bit_bound(a, 5 * i + 4);
    lemma_bit_bound(b, 5 * i);
    lemma_bit_bound(b, 5 * i + 1);
    lemma_bit_bound(b, 5 * i + 2);
    lemma_bit_bound(b, 5 * i + 3);
    lemma_bit_bound(b, 5 * i + 4);
}

proof fn lemma_byte_bits(v: u8)
    by (bit_vector)
    ensures
        v == 128 * ((v / 128) % 2) + 64 * ((v / 64) % 2) + 32 * ((v / 32) % 2) + 16 * ((v / 16)
            % 2) + 8 * ((v / 8) % 2) + 4 * ((v / 4) % 2) + 2 * ((v / 2) % 2) + v % 2,
{
}

/// The base32 form determines the bytes.
pub proof fn law_base32_injective(a: Seq<u8>, b: Seq<u8>)
    ensures
        base32_spec(a) == base32_spec(b) <==> a == b,
{
    if base32_spec(a) == base32_spec(b) {
        assert(base32_spec(a).len() == base32_len(a.len()));
        assert(base32_spec(b).len() == base32_len(b.len()));
        assert(a.len() == b.len());
        let n = a.len();
        assert forall|k: int| 0 <= k < 8 * n implies bit_at(a, k) == bit_at(b, k) by {
            let i = k / 5;
            assert(0 <= i < base32_len(n));
            assert(base32_spec(a)[i] == base32_spec(b)[i]);
            lemma_group(a, i);
            lemma_group(b, i);
            lemma_char_injective(group_at(a, i), group_at(b, i));
            lemma_group_bits(a, b, i, k);
        }
        assert forall|j: int| 0 <= j < n implies a[j] == b[j] by {
            assert(bit_at(a, 8 * j) == bit_at(b, 8 * j));
            assert(bit_at(a, 8 * j + 1) == bit_at(b, 8 * j + 1));
            assert(bit_at(a, 8 * j + 2) == bit_at(b, 8 * j + 2));
            assert(bit_at(a, 8 * j + 3) == bit_at(b, 8 * j + 3));
            assert(bit_at(a, 8 * j + 4) == bit_at(b, 8 * j + 4));
            assert(bit_at(a, 8 * j + 5) == bit_at(b, 8 * j + 5));
            assert(bit_at(a, 8 * j + 6) == bit_at(b, 8 * j + 6));
            assert(bit_at(a, 8 * j + 7) == bit_at(b, 8 * j + 7));
            lemma_byte_bits(a[j]);
            lemma_byte_bits(b[j]);
        }
        assert(a =~= b);
    }
}

// ── Blobs ────────────────────────────────────────────────────────────────────

/// The blob of a byte sequence: its base32 form in lower case.
pub open spec fn blob_text(b: Seq<u8>) -> Seq<char> {
    ascii_lower_text(base32_spec(b))
}

/// The text without its white space.
pub open spec fn unspaced(s: Seq<char>) -> Seq<char>
    decreases s.len(),
{
    if s.len() == 0 {
        Seq::empty()
    } else {
        let before = unspaced(s.subrange(0, s.len() - 1));
        let c = s[s.len() - 1];
        if is_white_space(c) {
            before
        } else {
            before.push(c)
        }
    }
}

/// Encodes bytes for a channel that people copy and paste through.
pub fn encode_blob(bytes: &[u8]) -> (r: String)
    requires
        bytes@.len() <= usize::MAX / 512,
    ensures
        r@ == blob_text(bytes@),
{
    lower_text(&base32_encode(bytes))
}

/// The text without its white space.
pub fn remove_spaces(s: &str) -> (r: String)
    ensures
        r@ == unspaced(s@),
{
    let chars: Vec<char> = chars_of(s);
    let mut out: String = String::new();
    let mut i: usize = 0;
    assert(out@ =~= unspaced(s@.subrange(0, 0)));
    while i < chars.len()
        invariant
            chars@ == s@,
            i <= chars@.len(),
            out@ == unspaced(s@.subrange(0, i as int)),
        decreases chars@.len() - i,
    {
        let c: char = chars[i];
        assert(s@.subrange(0, i + 1).subrange(0, i as int) =~= s@.subrange(0, i as int));
        if !c.is_whitespace() {
            out.push(c);
        }
        i = i + 1;
    }
    assert(s@.subrange(0, s@.len() as int) =~= s@);
    out
}

/// What a pasted blob decodes to, whatever its case and whatever white space crept in, where it is
/// not too long to decode.
pub open spec fn blob_decodes(text: Seq<char>, b: Seq<u8>) -> bool {
    let symbols = upper_of(unspaced(text));
    &&& unspaced(text).len() > 0
    &&& base32_spec(b) == symbols
    &&& encode_utf8(symbols).len() <= usize::MAX / 8
}

/// What is said of a blob that does not decode; the words of the decoder follow the first ones.
pub open spec fn blob_error(text: Seq<char>, words: Seq<char>) -> bool {
    if unspaced(text).len() == 0 {
        words == "Blob is empty."@
    } else {
        "Malformed blob: "@.is_prefix_of(words)
    }
}

/// Decodes a pasted blob.
pub fn decode_blob(text: &str) -> (r: Result<Vec<u8>, String>)
    ensures
        r matches Ok(b) ==> blob_decodes(text@, b@),
        r matches Err(e) ==> blob_error(text@, e@) && forall|b: Seq<u8>|
            !#[trigger] blob_decodes(text@, b),
{
    let cleaned: String = remove_spaces(text);
    if cleaned.as_str().is_empty() {
        return Err(copy_text("Blob is empty."));
    }
    match decode_base32(&upper_text(&cleaned)) {
        Ok(b) => Ok(b),
        Err(e) => {
            let words: String = concat("Malformed blob: ", &e);
            assert("Malformed blob: "@.is_prefix_of(words@)) by {
                assert(words@.subrange(0, "Malformed blob: "@.len() as int)
                    =~= "Malformed blob: "@);
            }
            Err(words)
        },
    }
}

/// A blob decodes to one byte sequence at most.
pub proof fn law_blob_unambiguous(text: Seq<char>, a: Seq<u8>, b: Seq<u8>)
    requires
        blob_decodes(text, a),
        blob_decodes(text, b),
    ensures
        a == b,
{
    law_base32_injective(a, b);
}

proof fn lemma_symbol(v: nat)
    requires
        v < 32,
    ensures
        (base32_char(v) as u32) < 128,
        (ascii_lower(base32_char(v)) as u32) < 128,
        ascii_upper(ascii_lower(base32_char(v))) == base32_char(v),
        ascii_upper(base32_char(v)) == base32_char(v),
{
}

/// The upper-case form of a blob is the base32 form.
pub proof fn lemma_blob_upper(b: Seq<u8>)
    ensures
        is_ascii_text(blob_text(b)),
        upper_of(blob_text(b)) == base32_spec(b),
{
    let t = blob_text(b);
    assert forall|i: int| 0 <= i < t.len() implies (#[trigger] t[i] as u32) < 128 && ascii_upper(
        t[i],
    ) == base32_spec(b)[i] by {
        lemma_group(b, i);
        lemma_symbol(group_at(b, i));
        assert(t[i] == ascii_lower(base32_char(group_at(b, i))));
    }
    assert(ascii_upper_text(t) =~= base32_spec(b));
}

/// A blob survives copy and paste: however its letters change case, and whatever white space
/// comes in, it decodes to the bytes that were encoded.
pub proof fn law_blob_round_trip(bytes: Seq<u8>, pasted: Seq<char>)
    requires
        0 < bytes.len() <= usize::MAX / 512,
        ascii_lower_text(unspaced(pasted)) == blob_text(bytes),
    ensures
        blob_decodes(pasted, bytes),
{
    let s = unspaced(pasted);
    let e = base32_spec(bytes);
    assert(ascii_lower_text(s).len() == s.len());
    assert(blob_text(bytes).len() == e.len());
    assert forall|i: int| 0 <= i < s.len() implies (#[trigger] s[i] as u32) < 128 && ascii_upper(
        s[i],
    ) == e[i] by {
        let v = group_at(bytes, i);
        lemma_group(bytes, i);
        lemma_symbol(v);
        assert(ascii_lower_text(s)[i] == ascii_lower(s[i]));
        assert(blob_text(bytes)[i] == ascii_lower(base32_char(v)));
        lemma_case(s[i], base32_char(v));
    }
    assert(ascii_upper_text(s) =~= e);
    lemma_base32_utf8_len(bytes);
}

/// Letters that agree in lower case agree in upper case.
proof fn lemma_case(x: char, c: char)
    requires
        (c as u32) < 128,
        ascii_upper(c) == c,
        ascii_lower(x) == ascii_lower(c),
    ensures
        (x as u32) < 128,
        ascii_upper(x) == c,
{
}

// ── Laws ─────────────────────────────────────────────────────────────────────

/// The white space of a pasted text is left out, and nothing else of it.
pub proof fn law_white_space_is_left_out(s: Seq<char>)
    ensures
        unspaced(s) == s.filter(|c: char| !is_white_space(c)),
    decreases s.len(),
{
    reveal(Seq::filter);
    if s.len() > 0 {
        law_white_space_is_left_out(s.subrange(0, s.len() - 1));
        assert(s.drop_last() =~= s.subrange(0, s.len() - 1));
    }
}

/// The symbols count from the letter A on, and from the digit 2 on behind the letter Z; a byte
/// sequence has one for each five bits that it begins.
pub proof fn law_symbols_count_from_a(b: Seq<u8>, v: nat)
    requires
        v < 32,
    ensures
        v < 26 ==> base32_char(v) as u32 == 'A' as u32 + v,
        v >= 26 ==> base32_char(v) as u32 == '2' as u32 + (v - 26),
        5 * base32_spec(b).len() >= 8 * b.len(),
        5 * base32_spec(b).len() < 8 * b.len() + 5,
{
}

/// Each bit of the bytes, the highest of each byte first, is a bit of the symbol that stands for
/// its five, again the highest first; bits behind the end are zeros.
pub proof fn law_symbols_hold_the_bits(b: Seq<u8>, k: int)
    requires
        0 <= k,
    ensures
        k < 8 * b.len() ==> bit_at(b, k) == (b[k / 8] as nat / pow2((7 - k % 8) as nat)) % 2,
        k >= 8 * b.len() ==> bit_at(b, k) == 0,
        bit_at(b, k) == (group_at(b, k / 5) / pow2((4 - k % 5) as nat)) % 2,
        k / 5 < base32_spec(b).len() ==> base32_spec(b)[k / 5] == base32_char(group_at(b, k / 5)),
{
    vstd::arithmetic::power2::lemma2_to64();
    let i = k / 5;
    lemma_bit_bound(b, 5 * i);
    lemma_bit_bound(b, 5 * i + 1);
    lemma_bit_bound(b, 5 * i + 2);
    lemma_bit_bound(b, 5 * i + 3);
    lemma_bit_bound(b, 5 * i + 4);
    lemma_five_bits(
        bit_at(b, 5 * i),
        bit_at(b, 5 * i + 1),
        bit_at(b, 5 * i + 2),
        bit_at(b, 5 * i + 3),
        bit_at(b, 5 * i + 4),
    );
    assert(k == 5 * i + k % 5);
    if k < 8 * b.len() {
        let v = b[k / 8] as nat;
        let j = k % 8;
        assert(v / 1 == v);
        assert(j == 0 || j == 1 || j == 2 || j == 3 || j == 4 || j == 5 || j == 6 || j == 7);
        assert(j == 0 ==> pow2((7 - j) as nat) == 128);
        assert(j == 1 ==> pow2((7 - j) as nat) == 64);
        assert(j == 2 ==> pow2((7 - j) as nat) == 32);
        assert(j == 3 ==> pow2((7 - j) as nat) == 16);
        assert(j == 4 ==> pow2((7 - j) as nat) == 8);
        assert(j == 5 ==> pow2((7 - j) as nat) == 4);
        assert(j == 6 ==> pow2((7 - j) as nat) == 2);
        assert(j == 7 ==> pow2((7 - j) as nat) == 1);
    }
}

proof fn lemma_five_bits(a: nat, b: nat, c: nat, d: nat, e: nat)
    requires
        a <= 1 && b <= 1 && c <= 1 && d <= 1 && e <= 1,
    ensures
        ({
            let g = 16 * a + 8 * b + 4 * c + 2 * d + e;
            &&& (g / 16) % 2 == a
            &&& (g / 8) % 2 == b
            &&& (g / 4) % 2 == c
            &&& (g / 2) % 2 == d
            &&& (g / 1) % 2 == e
        }),
{
}

/// A blob that is empty but for white space is told to be empty; of another that does not decode it
/// is told that it is malformed, and why.
pub proof fn law_words_for_a_bad_blob(text: Seq<char>, words: Seq<char>)
    requires
        blob_error(text, words),
    ensures
        (forall|i: int| 0 <= i < text.len() ==> is_white_space(#[trigger] text[i])) ==> words
            == "Blob is empty."@,
        (exists|i: int| 0 <= i < text.len() && !is_white_space(#[trigger] text[i]))
            ==> "Malformed blob: "@.is_prefix_of(words),
{
    lemma_unspaced_empty(text);
}

proof fn lemma_unspaced_empty(text: Seq<char>)
    ensures
        unspaced(text).len() == 0 <==> forall|i: int|
            0 <= i < text.len() ==> is_white_space(#[trigger] text[i]),
    decreases text.len(),
{
    if text.len() > 0 {
        let init = text.subrange(0, text.len() - 1);
        lemma_unspaced_empty(init);
        if unspaced(text).len() == 0 {
            assert forall|i: int| 0 <= i < text.len() implies is_white_space(#[trigger] text[i]) by {
                if i < init.len() {
                    assert(is_white_space(init[i]));
                }
            }
        }
        if forall|i: int| 0 <= i < text.len() ==> is_white_space(#[trigger] text[i]) {
            assert forall|i: int| 0 <= i < init.len() implies is_white_space(#[trigger] init[i]) by {
                assert(init[i] == text[i]);
            }
            assert(is_white_space(text[text.len() - 1]));
        }
    }
}

/// A blob is the base32 form in small letters, symbol by symbol.
pub proof fn law_blobs_are_in_small_letters(b: Seq<u8>, i: int)
    ensures
        blob_text(b).len() == base32_spec(b).len(),
        0 <= i < base32_spec(b).len() ==> blob_text(b)[i] as u32 == (if 'A' <= base32_spec(b)[i]
            && base32_spec(b)[i] <= 'Z' {
            base32_spec(b)[i] as u32 + 32
        } else {
            base32_spec(b)[i] as int
        }),
{
    crate::text::law_case_changes_letters_alone(base32_spec(b), i);
}

/// A pasted text decodes to bytes exactly where it is, without its white space and in capital
/// letters, their base32 form, and there is something of it.
pub proof fn law_what_a_pasted_text_decodes_to(text: Seq<char>, b: Seq<u8>)
    ensures
        blob_decodes(text, b) <==> {
            let symbols = upper_of(text.filter(|c: char| !is_white_space(c)));
            &&& text.filter(|c: char| !is_white_space(c)).len() > 0
            &&& symbols == base32_spec(b)
            &&& encode_utf8(symbols).len() <= usize::MAX / 8
        },
{
    law_white_space_is_left_out(text);
}

} // verus!
