//! Showing a file of the vault on a terminal.

use crate::bytes::copy_bytes;
use crate::commands::export::decrypt_to_bytes;
use crate::contents::{file_contents, has_name};
use crate::crypto::UnlockedVault;
use crate::primitives::wipe_bytes;
use crate::storage::VaultError;
use crate::text::{
    around, ascii_control, chars_of, copy_text, decimal, decimal_spec, from_utf8, hex_byte,
    is_ascii_control, law_hex_digits, push_hex_byte, push_text,
};
use crate::vfs::VaultMetadata;
use vstd::prelude::*;
use vstd::slice::slice_subrange;
use vstd::utf8::{
    decode_utf8, encode_utf8, encode_utf8_decode_utf8, encode_utf8_valid_utf8, valid_utf8,
};

verus! {

/// The control bytes that text does not use.
pub open spec fn odd_byte(b: u8) -> bool {
    b < 32 && b != 10 && b != 9 && b != 13
}

/// How many control bytes that text does not use there are.
pub open spec fn odd_count(b: Seq<u8>) -> nat
    decreases b.len(),
{
    if b.len() == 0 {
        0
    } else {
        odd_count(b.subrange(0, b.len() - 1)) + if odd_byte(b[b.len() - 1]) {
            1nat
        } else {
            0
        }
    }
}

/// Data is taken for binary where more than one byte in a hundred is odd.
pub open spec fn looks_binary(b: Seq<u8>) -> bool {
    odd_count(b) > b.len() / 100
}

/// Whether data is taken for binary.
pub fn is_probably_binary(b: &[u8]) -> (r: bool)
    ensures
        r == looks_binary(b@),
{
    let mut n: usize = 0;
    let mut i: usize = 0;
    assert(b@.subrange(0, 0).len() == 0);
    while i < b.len()
        invariant
            i <= b@.len(),
            n <= i,
            n == odd_count(b@.subrange(0, i as int)),
        decreases b@.len() - i,
    {
        let v: u8 = b[i];
        proof {
            let upto = b@.subrange(0, i + 1);
            assert(upto.subrange(0, i as int) =~= b@.subrange(0, i as int));
        }
        if v < 32 && v != 10 && v != 9 && v != 13 {
            n = n + 1;
        }
        i = i + 1;
    }
    assert(b@.subrange(0, b@.len() as int) =~= b@);
    n > b.len() / 100
}

/// Each byte as two hexadecimal digits and a space.
pub open spec fn hex_list(b: Seq<u8>) -> Seq<char>
    decreases b.len(),
{
    if b.len() == 0 {
        Seq::empty()
    } else {
        hex_list(b.subrange(0, b.len() - 1)) + hex_byte(b[b.len() - 1]) + " "@
    }
}

/// Each byte as two hexadecimal digits and a space, with a line feed after every sixteenth.
pub open spec fn hex_layout(b: Seq<u8>) -> Seq<char>
    decreases b.len(),
{
    if b.len() == 0 {
        Seq::empty()
    } else {
        hex_layout(b.subrange(0, b.len() - 1)) + hex_byte(b[b.len() - 1]) + " "@ + if b.len() % 16
            == 0 {
            "\n"@
        } else {
            Seq::empty()
        }
    }
}

/// A character that a terminal is not to see as it is.
pub open spec fn escaped_char(c: char) -> bool {
    ascii_control(c) && c != '\n' && c != '\t' && c != '\r'
}

/// The text with its control characters spelled out.
pub open spec fn escaped(s: Seq<char>) -> Seq<char>
    decreases s.len(),
{
    if s.len() == 0 {
        Seq::empty()
    } else {
        let c = s[s.len() - 1];
        escaped(s.subrange(0, s.len() - 1)) + if escaped_char(c) {
            "\\x"@ + hex_byte(c as u8)
        } else {
            seq![c]
        }
    }
}

/// What is shown of data: a short preview of binary data, text with its control characters
/// spelled out, and bytes where the data is no text.
pub open spec fn shown(b: Seq<u8>) -> Seq<char> {
    if looks_binary(b) {
        let n: nat = if b.len() < 64 {
            b.len()
        } else {
            64
        };
        "[Note: Binary or Null-padded data detected. Suppressing automated terminal flood.]\n"@
            + "First "@ + decimal_spec(n) + " bytes (HEX Preview): "@ + hex_list(
            b.subrange(0, n as int),
        ) + "\n"@
    } else if valid_utf8(b) {
        escaped(decode_utf8(b))
    } else {
        "[Note: Non-UTF8 Binary file detected. Displaying sanitized HEX layout]\n"@ + hex_layout(b)
            + if b.len() % 16 == 0 {
            Seq::empty()
        } else {
            "\n"@
        }
    }
}

fn push_hex_list(out: &mut String, b: &[u8])
    ensures
        final(out)@ == old(out)@ + hex_list(b@),
{
    let ghost head = out@;
    let mut i: usize = 0;
    assert(out@ =~= head + hex_list(b@.subrange(0, 0)));
    while i < b.len()
        invariant
            i <= b@.len(),
            head == old(out)@,
            out@ == head + hex_list(b@.subrange(0, i as int)),
        decreases b@.len() - i,
    {
        push_hex_byte(out, b[i]);
        push_text(out, " ");
        proof {
            let upto = b@.subrange(0, i + 1);
            assert(upto.subrange(0, i as int) =~= b@.subrange(0, i as int));
            assert(out@ =~= head + hex_list(upto));
        }
        i = i + 1;
    }
    assert(b@.subrange(0, b@.len() as int) =~= b@);
}

fn push_hex_layout(out: &mut String, b: &[u8])
    ensures
        final(out)@ == old(out)@ + hex_layout(b@),
{
    let ghost head = out@;
    let mut i: usize = 0;
    assert(out@ =~= head + hex_layout(b@.subrange(0, 0)));
    while i < b.len()
        invariant
            i <= b@.len(),
            head == old(out)@,
            out@ == head + hex_layout(b@.subrange(0, i as int)),
        decreases b@.len() - i,
    {
        push_hex_byte(out, b[i]);
        push_text(out, " ");
        if (i % 16) == 15 {
            push_text(out, "\n");
        }
        proof {
            let upto = b@.subrange(0, i + 1);
            assert(upto.subrange(0, i as int) =~= b@.subrange(0, i as int));
            assert(out@ =~= head + hex_layout(upto));
        }
        i = i + 1;
    }
    assert(b@.subrange(0, b@.len() as int) =~= b@);
}

fn push_escaped(out: &mut String, s: &str)
    ensures
        final(out)@ == old(out)@ + escaped(s@),
{
    let chars: Vec<char> = chars_of(s);
    let ghost head = out@;
    let mut i: usize = 0;
    assert(out@ =~= head + escaped(s@.subrange(0, 0)));
    while i < chars.len()
        invariant
            chars@ == s@,
            i <= chars@.len(),
            head == old(out)@,
            out@ == head + escaped(s@.subrange(0, i as int)),
        decreases chars@.len() - i,
    {
        let c: char = chars[i];
        if is_ascii_control(c) && c != '\n' && c != '\t' && c != '\r' {
            push_text(out, "\\x");
            push_hex_byte(out, c as u8);
        } else {
            out.push(c);
        }
        proof {
            let upto = s@.subrange(0, i + 1);
            assert(upto.subrange(0, i as int) =~= s@.subrange(0, i as int));
            assert(out@ =~= head + escaped(upto));
        }
        i = i + 1;
    }
    assert(s@.subrange(0, s@.len() as int) =~= s@);
}

/// What is shown of data.
pub fn show(b: &[u8]) -> (r: String)
    ensures
        r@ == shown(b@),
{
    if is_probably_binary(b) {
        let n: usize = if b.len() < 64 {
            b.len()
        } else {
            64
        };
        let mut out: String = copy_text(
            "[Note: Binary or Null-padded data detected. Suppressing automated terminal flood.]\n",
        );
        push_text(&mut out, "First ");
        push_text(&mut out, &decimal(n as u64));
        push_text(&mut out, " bytes (HEX Preview): ");
        push_hex_list(&mut out, slice_subrange(b, 0, n));
        push_text(&mut out, "\n");
        return out;
    }
    match from_utf8(copy_bytes(b)) {
        Ok(text) => {
            let mut out: String = String::new();
            push_escaped(&mut out, &text);
            assert(out@ =~= escaped(text@));
            out
        },
        Err(_) => {
            let mut out: String = copy_text(
                "[Note: Non-UTF8 Binary file detected. Displaying sanitized HEX layout]\n",
            );
            push_hex_layout(&mut out, b);
            if b.len() % 16 != 0 {
                push_text(&mut out, "\n");
            }
            assert(out@ =~= shown(b@));
            out
        },
    }
}

/// What is printed for a file with the given content.
pub open spec fn cat_text(name: Seq<char>, content: Seq<u8>) -> Seq<char> {
    "\n--- Start of "@ + name + " ---\n"@ + shown(content) + ("\n--- End of "@ + name
        + " ---\n\n"@)
}

/// Decrypts a file and returns what a terminal is to show of it, or that there is no such file.
pub fn handle_cat(
    vfs_name: &str,
    metadata: &VaultMetadata,
    image: &[u8],
    unlocked_vault: &UnlockedVault,
) -> (r: Result<String, VaultError>)
    ensures
        !has_name(metadata.file_table@, vfs_name@) ==> (r matches Ok(text) && text@
            == "Error: File '"@ + vfs_name@ + "' not found in vault.\n"@),
        has_name(metadata.file_table@, vfs_name@) ==> match file_contents(
            image@,
            unlocked_vault.dek@,
            metadata.file_table@,
            vfs_name@,
        ) {
            Ok(content) => r matches Ok(text) && text@ == cat_text(vfs_name@, content),
            Err(e) => r == Err::<String, VaultError>(e),
        },
{
    match crate::contents::find_file(&metadata.file_table, vfs_name) {
        None => return Ok(around("Error: File '", vfs_name, "' not found in vault.\n")),
        Some(_) => {},
    }
    let mut content: Vec<u8> = match decrypt_to_bytes(vfs_name, metadata, image, unlocked_vault) {
        Ok(c) => c,
        Err(e) => return Err(e),
    };
    let mut out: String = around("\n--- Start of ", vfs_name, " ---\n");
    push_text(&mut out, &show(&content));
    push_text(&mut out, &around("\n--- End of ", vfs_name, " ---\n\n"));
    wipe_bytes(&mut content);
    Ok(out)
}

// ── Laws ─────────────────────────────────────────────────────────────────────

/// Text that a terminal can show is shown as it is: nothing but the control characters other than
/// line feed, tab and carriage return is spelled out.
pub proof fn law_printable_text_is_shown_as_it_is(s: Seq<char>)
    requires
        forall|i: int|
            0 <= i < s.len() ==> ((#[trigger] s[i]) as u32 >= 32 && s[i] as u32 != 127) || s[i]
                == '\n' || s[i] == '\t' || s[i] == '\r',
    ensures
        escaped(s) == s,
    decreases s.len(),
{
    if s.len() > 0 {
        let init = s.subrange(0, s.len() - 1);
        law_printable_text_is_shown_as_it_is(init);
        let c = s[s.len() - 1];
        assert((c as u32 >= 32 && c as u32 != 127) || c == '\n' || c == '\t' || c == '\r');
        assert(init + seq![c] =~= s);
    }
}

/// The text of two parts is shown as the one part and then the other, so that no character changes
/// how another is shown.
pub proof fn law_escaping_goes_character_by_character(a: Seq<char>, b: Seq<char>)
    ensures
        escaped(a + b) == escaped(a) + escaped(b),
        escaped(Seq::empty()) == Seq::<char>::empty(),
    decreases b.len(),
{
    if b.len() == 0 {
        assert(a + b =~= a);
        assert(escaped(a) + escaped(b) =~= escaped(a));
    } else {
        let init = b.subrange(0, b.len() - 1);
        law_escaping_goes_character_by_character(a, init);
        assert((a + b).subrange(0, (a + b).len() - 1) =~= a + init);
        assert(escaped(a + b) =~= escaped(a) + escaped(b));
    }
}

/// A control character that a terminal is not to see is shown as a backslash, the letter x and its
/// code in two hexadecimal digits.
pub proof fn law_control_character_is_spelled_out(c: char)
    requires
        (c as u32) < 32 || (c as u32) == 127,
        c != '\n' && c != '\t' && c != '\r',
    ensures
        escaped(seq![c]).len() == 4,
        escaped(seq![c])[0] == '\\' && escaped(seq![c])[1] == 'x',
        escaped(seq![c])[2] as u32 == '0' as u32 + (c as u32) / 16,
        escaped(seq![c])[3] as u32 == if (c as u32) % 16 < 10 {
            '0' as u32 + (c as u32) % 16
        } else {
            'A' as u32 + ((c as u32) % 16 - 10)
        },
{
    reveal_strlit("\\x");
    let one = seq![c];
    assert(one.subrange(0, one.len() - 1).len() == 0);
    assert(escaped(one.subrange(0, one.len() - 1)) == Seq::<char>::empty());
    assert(escaped(one) =~= "\\x"@ + hex_byte(c as u8));
    law_hex_digits(c as u8);
}

/// A character that a terminal may see: no control character but line feed, tab and carriage
/// return.
pub open spec fn for_terminals(c: char) -> bool {
    (c as u32 >= 32 && c as u32 != 127) || c == '\n' || c == '\t' || c == '\r'
}

/// What is shown holds nothing but characters that a terminal may see.
pub proof fn law_no_control_character_is_shown(s: Seq<char>)
    ensures
        forall|i: int| 0 <= i < escaped(s).len() ==> for_terminals(#[trigger] escaped(s)[i]),
    decreases s.len(),
{
    if s.len() > 0 {
        let init = s.subrange(0, s.len() - 1);
        let c = s[s.len() - 1];
        law_no_control_character_is_shown(init);
        lemma_shown_character(c);
        law_escaping_goes_character_by_character(init, seq![c]);
        assert(init + seq![c] =~= s);
        let head = escaped(init);
        let tail = escaped(seq![c]);
        assert forall|i: int| 0 <= i < escaped(s).len() implies for_terminals(
            #[trigger] escaped(s)[i],
        ) by {
            if i < head.len() {
                assert(escaped(s)[i] == head[i]);
            } else {
                assert(escaped(s)[i] == tail[i - head.len()]);
            }
        }
    }
}

proof fn lemma_shown_character(c: char)
    ensures
        forall|i: int|
            0 <= i < escaped(seq![c]).len() ==> for_terminals(#[trigger] escaped(seq![c])[i]),
{
    let e = escaped(seq![c]);
    if for_terminals(c) {
        law_printable_text_is_shown_as_it_is(seq![c]);
    } else {
        law_control_character_is_spelled_out(c);
        assert forall|i: int| 0 <= i < e.len() implies for_terminals(#[trigger] e[i]) by {
            assert(i == 0 || i == 1 || i == 2 || i == 3);
        }
    }
}

/// The odd bytes are those below 32 that are neither line feed, tab nor carriage return: they are
/// counted one by one, and data is taken for binary where they are more than a hundredth of it.
pub proof fn law_odd_bytes_are_counted(b: Seq<u8>)
    ensures
        odd_count(b) == b.filter(|x: u8| x < 32 && x != 10 && x != 9 && x != 13).len(),
        looks_binary(b) <==> b.filter(|x: u8| x < 32 && x != 10 && x != 9 && x != 13).len()
            > b.len() / 100,
    decreases b.len(),
{
    let odd = |x: u8| x < 32 && x != 10 && x != 9 && x != 13;
    reveal(Seq::filter);
    if b.len() > 0 {
        let init = b.subrange(0, b.len() - 1);
        law_odd_bytes_are_counted(init);
        assert(b.drop_last() =~= init);
        assert(b.last() == b[b.len() - 1]);
    }
}

/// A list of bytes in hexadecimal notation has three characters for each byte: two digits and a
/// space.
pub proof fn law_hex_list_shows_every_byte(b: Seq<u8>, i: int)
    requires
        0 <= i < b.len(),
    ensures
        hex_list(b).len() == 3 * b.len(),
        hex_list(b).subrange(3 * i, 3 * i + 2) == hex_byte(b[i]),
        hex_list(b)[3 * i + 2] == ' ',
    decreases b.len(),
{
    reveal_strlit(" ");
    let init = b.subrange(0, b.len() - 1);
    law_hex_digits(b[b.len() - 1]);
    if i < init.len() {
        law_hex_list_shows_every_byte(init, i);
        assert(hex_list(b).subrange(3 * i, 3 * i + 2) =~= hex_list(init).subrange(
            3 * i,
            3 * i + 2,
        ));
        assert(hex_list(b)[3 * i + 2] == hex_list(init)[3 * i + 2]);
    } else {
        if init.len() > 0 {
            law_hex_list_shows_every_byte(init, 0);
        }
        assert(hex_list(init).len() == 3 * init.len());
        assert(hex_list(b).subrange(3 * i, 3 * i + 2) =~= hex_byte(b[i]));
    }
}

/// The layout of data in hexadecimal notation goes on, byte by byte, with two digits and a space,
/// and begins a new line behind every sixteenth byte.
pub proof fn law_hex_layout_goes_on(b: Seq<u8>, x: u8)
    ensures
        hex_layout(Seq::empty()) == Seq::<char>::empty(),
        hex_layout(b.push(x)) == hex_layout(b) + hex_byte(x) + " "@ + if (b.len() + 1) % 16 == 0 {
            "\n"@
        } else {
            ""@
        },
{
    reveal_strlit("");
    assert(b.push(x).subrange(0, b.len() as int) =~= b);
    assert(""@ =~= Seq::<char>::empty());
}

/// Text that a terminal can show is shown, from the bytes of a file, as that very text, with the
/// name of the file above and below it.
pub proof fn law_text_files_are_shown_whole(name: Seq<char>, s: Seq<char>)
    requires
        forall|i: int|
            0 <= i < s.len() ==> ((#[trigger] s[i]) as u32 >= 32 && s[i] as u32 != 127) || s[i]
                == '\n' || s[i] == '\t' || s[i] == '\r',
        !looks_binary(encode_utf8(s)),
    ensures
        shown(encode_utf8(s)) == s,
        cat_text(name, encode_utf8(s)) == "\n--- Start of "@ + name + " ---\n"@ + s + (
        "\n--- End of "@ + name + " ---\n\n"@),
{
    encode_utf8_valid_utf8(s);
    encode_utf8_decode_utf8(s);
    law_printable_text_is_shown_as_it_is(s);
}

/// Of data that is taken for binary, the first bytes are shown, sixty-four or as many as there are;
/// other data that is no text is shown in full.
pub proof fn law_binary_data_is_shown_in_part(b: Seq<u8>)
    ensures
        looks_binary(b) ==> shown(b)
            == "[Note: Binary or Null-padded data detected. Suppressing automated terminal flood.]\n"@
            + "First "@ + decimal_spec(
            if b.len() < 64 {
                b.len()
            } else {
                64
            },
        ) + " bytes (HEX Preview): "@ + hex_list(
            if b.len() < 64 {
                b
            } else {
                b.subrange(0, 64)
            },
        ) + "\n"@,
        !looks_binary(b) && !valid_utf8(b) ==> shown(b)
            == "[Note: Non-UTF8 Binary file detected. Displaying sanitized HEX layout]\n"@
            + hex_layout(b) + if b.len() % 16 == 0 {
            Seq::empty()
        } else {
            "\n"@
        },
        !looks_binary(b) && valid_utf8(b) ==> shown(b) == escaped(decode_utf8(b)),
{
    if b.len() < 64 {
        assert(b.subrange(0, b.len() as int) =~= b);
    }
}

} // verus!
