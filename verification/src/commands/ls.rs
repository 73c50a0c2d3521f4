//! Listing the files of the vault.

use crate::text::{
    concat, copy_text, decimal, decimal_spec, digits_value, law_decimal_is_read_back,
    law_padding_adds_spaces, law_visible_text_keeps_characters, pad_right, padded_text, push_text,
    visible, visible_text,
};
use crate::vfs::{FileIndex, VaultMetadata};
use vstd::prelude::*;

verus! {

/// The line of a file: its name without control characters, and the number of its chunks.
pub open spec fn file_line(f: FileIndex) -> Seq<char> {
    "File: "@ + padded_text(visible_text(f.vfs_name@), 20) + " Chunks: "@ + decimal_spec(
        f.chunks@.len(),
    ) + "\n"@
}

/// The lines of the first files.
pub open spec fn file_lines(t: Seq<FileIndex>) -> Seq<char>
    decreases t.len(),
{
    if t.len() == 0 {
        Seq::empty()
    } else {
        file_lines(t.subrange(0, t.len() - 1)) + file_line(t[t.len() - 1])
    }
}

/// The listing of a file table.
pub open spec fn listing(t: Seq<FileIndex>) -> Seq<char> {
    "--- Volatile VFS File Allocation Table ---\n"@ + if t.len() == 0 {
        "Vault is empty.\n"@
    } else {
        file_lines(t)
    }
}

/// Lists the files of the vault.
pub fn handle_ls(metadata: &VaultMetadata) -> (r: String)
    ensures
        r@ == listing(metadata.file_table@),
{
    let mut out: String = copy_text("--- Volatile VFS File Allocation Table ---\n");
    if metadata.file_table.len() == 0 {
        push_text(&mut out, "Vault is empty.\n");
        return out;
    }
    let ghost head = out@;
    let ghost t = metadata.file_table@;
    let mut i: usize = 0;
    assert(out@ =~= head + file_lines(t.subrange(0, 0)));
    while i < metadata.file_table.len()
        invariant
            i <= t.len(),
            t == metadata.file_table@,
            out@ == head + file_lines(t.subrange(0, i as int)),
        decreases t.len() - i,
    {
        let f: &FileIndex = &metadata.file_table[i];
        let mut line: String = concat("File: ", &pad_right(&visible(&f.vfs_name), 20));
        push_text(&mut line, " Chunks: ");
        push_text(&mut line, &decimal(f.chunks.len() as u64));
        push_text(&mut line, "\n");
        push_text(&mut out, &line);
        proof {
            let upto = t.subrange(0, i + 1);
            assert(upto.subrange(0, i as int) =~= t.subrange(0, i as int));
            assert(line@ =~= file_line(*f));
            assert(out@ =~= head + file_lines(upto));
        }
        i = i + 1;
    }
    assert(t.subrange(0, t.len() as int) =~= t);
    out
}

// ── Laws ─────────────────────────────────────────────────────────────────────

/// Every file has its line, in the order of the table: a further file adds its line behind the
/// others, and no line goes missing where tables are put together.
pub proof fn law_every_file_is_listed(t: Seq<FileIndex>, f: FileIndex, more: Seq<FileIndex>)
    ensures
        file_lines(Seq::empty()) == Seq::<char>::empty(),
        file_lines(seq![f]) == file_line(f),
        file_lines(t.push(f)) == file_lines(t) + file_line(f),
        file_lines(t + more) == file_lines(t) + file_lines(more),
    decreases more.len(),
{
    assert(t.push(f).subrange(0, t.len() as int) =~= t);
    let one = seq![f];
    assert(one.subrange(0, one.len() - 1).len() == 0);
    assert(file_lines(one) == file_lines(one.subrange(0, one.len() - 1)) + file_line(one[0]));
    assert(file_lines(one.subrange(0, one.len() - 1)) == Seq::<char>::empty());
    assert(Seq::<char>::empty() + file_line(f) =~= file_line(f));
    if more.len() == 0 {
        assert(t + more =~= t);
        assert(file_lines(t) + file_lines(more) =~= file_lines(t));
    } else {
        let init = more.subrange(0, more.len() - 1);
        law_every_file_is_listed(t, f, init);
        assert((t + more).subrange(0, (t + more).len() - 1) =~= t + init);
        assert(file_lines(t + more) =~= file_lines(t) + file_lines(more));
    }
}

/// The lines are the line of each file of the table, one after the other.
pub proof fn law_lines_are_those_of_the_files(t: Seq<FileIndex>)
    ensures
        file_lines(t) == t.map_values(|f: FileIndex| file_line(f)).flatten(),
    decreases t.len(),
{
    let g = |f: FileIndex| file_line(f);
    if t.len() == 0 {
        assert(t.map_values(g) =~= Seq::empty());
    } else {
        let init = t.subrange(0, t.len() - 1);
        let last = t[t.len() - 1];
        law_lines_are_those_of_the_files(init);
        assert(t.map_values(g) =~= init.map_values(g).push(file_line(last)));
        init.map_values(g).lemma_flatten_push(file_line(last));
    }
}

/// The line of a file shows its whole name, with question marks for control characters and spaces
/// up to a width of twenty, and how many chunks it has; a line feed ends it.
pub proof fn law_line_shows_name_and_chunks(f: FileIndex)
    ensures
        ({
            let name = f.vfs_name@;
            let width: int = if name.len() < 20 {
                20
            } else {
                name.len() as int
            };
            let line = file_line(f);
            &&& line.subrange(0, 6) == seq!['F', 'i', 'l', 'e', ':', ' ']
            &&& forall|i: int|
                0 <= i < name.len() ==> #[trigger] line[6 + i] == if (name[i] as u32) < 32 || (
                name[i] as u32) == 127 {
                    '?'
                } else {
                    name[i]
                }
            &&& forall|i: int| name.len() <= i < width ==> #[trigger] line[6 + i] == ' '
            &&& line.subrange(6 + width, 15 + width) == seq![
                ' ',
                'C',
                'h',
                'u',
                'n',
                'k',
                's',
                ':',
                ' ',
            ]
            &&& digits_value(line.subrange(15 + width, line.len() - 1)) == Some(f.chunks@.len())
            &&& line[line.len() - 1] == '\n'
        }),
{
    let name = f.vfs_name@;
    let width: int = if name.len() < 20 {
        20
    } else {
        name.len() as int
    };
    let line = file_line(f);
    reveal_strlit("File: ");
    reveal_strlit(" Chunks: ");
    reveal_strlit("\n");
    let shown = padded_text(visible_text(name), 20);
    let d = decimal_spec(f.chunks@.len());
    law_padding_adds_spaces(visible_text(name), 20);
    law_decimal_is_read_back(f.chunks@.len());
    assert(visible_text(name).len() == name.len());
    assert(shown.len() == width);
    assert(line.len() == 16 + width + d.len());
    assert(line.subrange(0, 6) =~= seq!['F', 'i', 'l', 'e', ':', ' ']);
    assert forall|i: int| 0 <= i < name.len() implies #[trigger] line[6 + i] == if (name[i] as u32)
        < 32 || (name[i] as u32) == 127 {
        '?'
    } else {
        name[i]
    } by {
        law_visible_text_keeps_characters(name, i);
        assert(shown.subrange(0, name.len() as int)[i] == shown[i]);
        assert(line[6 + i] == shown[i]);
    }
    assert forall|i: int| name.len() <= i < width implies #[trigger] line[6 + i] == ' ' by {
        assert(line[6 + i] == shown[i]);
    }
    assert(line.subrange(6 + width, 15 + width) =~= seq![
        ' ',
        'C',
        'h',
        'u',
        'n',
        'k',
        's',
        ':',
        ' ',
    ]);
    assert(line.subrange(15 + width, line.len() - 1) =~= d);
}

/// A listing has a heading; below it stand the lines of the files, or, where there is no file and
/// only there, that the vault is empty.
pub proof fn law_listing_shows_the_table(t: Seq<FileIndex>)
    ensures
        t.len() == 0 ==> listing(t) == "--- Volatile VFS File Allocation Table ---\n"@
            + "Vault is empty.\n"@,
        t.len() > 0 ==> listing(t) == "--- Volatile VFS File Allocation Table ---\n"@
            + t.map_values(|f: FileIndex| file_line(f)).flatten(),
{
    law_lines_are_those_of_the_files(t);
}

} // verus!
