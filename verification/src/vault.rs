//! What holds of an open vault between operations.

use crate::bytes::{le, lemma_le_len, lemma_le_value_of_le, lemma_pow256_values};
use crate::contents::{
    chunks_end_by, chunks_start_from, contents, file_contents, first_index, lemma_first_index,
    names_unique,
};
use crate::crypto::{CHUNK_OVERHEAD, VAULT_HEADER_SIZE};
use crate::storage::{
    is_metadata_blob, lemma_unlock_by_header, load_result, metadata_region, unlock_result,
    with_metadata, VaultError, METADATA_READ_LIMIT,
};
use crate::vfs::{
    chunk_row, chunk_rows, file_bytes, file_row, metadata_bytes, table_rows, ChunkEntry, FileIndex,
    VaultMetadata,
};
use vstd::prelude::*;

verus! {

/// A vault: the bytes of its file, its metadata, and where its payload ends.
pub type Vault = (Seq<u8>, VaultMetadata, u64);

/// Two chunks share no byte.
pub open spec fn apart(a: ChunkEntry, b: ChunkEntry) -> bool {
    a.offset + a.cipher_len <= b.offset || b.offset + b.cipher_len <= a.offset
}

/// The chunks of two lists share no byte.
pub open spec fn all_apart(a: Seq<ChunkEntry>, b: Seq<ChunkEntry>) -> bool {
    forall|i: int, j: int|
        0 <= i < a.len() && 0 <= j < b.len() ==> apart(#[trigger] a[i], #[trigger] b[j])
}

/// The chunks of a file lie between the header and the end of the payload.
pub open spec fn within_payload(chunks: Seq<ChunkEntry>, payload_end: int) -> bool {
    chunks_start_from(chunks, VAULT_HEADER_SIZE as int) && chunks_end_by(chunks, payload_end)
}

/// The state of an open vault is sound: the payload ends within the file and behind the header,
/// names are unique, every file lies within the payload, and no two files share a byte.
pub open spec fn vault_wf(image: Seq<u8>, t: Seq<FileIndex>, payload_end: int) -> bool {
    &&& VAULT_HEADER_SIZE <= payload_end <= image.len()
    &&& names_unique(t)
    &&& forall|i: int| 0 <= i < t.len() ==> within_payload((#[trigger] t[i]).chunks@, payload_end)
    &&& forall|i: int, j: int|
        0 <= i < j < t.len() ==> all_apart((#[trigger] t[i]).chunks@, (#[trigger] t[j]).chunks@)
}

/// The file holds the metadata `m` at its tail, at `off`, in one block up to its end, and points
/// to it.
pub open spec fn stored(
    image: Seq<u8>,
    dek: Seq<u8>,
    m: (Seq<(Seq<char>, Seq<(usize, u64, Seq<u8>, usize)>, u64)>, Seq<u8>),
    off: int,
) -> bool {
    &&& VAULT_HEADER_SIZE <= off <= image.len()
    &&& image.subrange(0, 8) == le(off as nat, 8)
    &&& is_metadata_blob(
        dek,
        image.subrange(off, image.len() as int),
        m,
        (image.len() - off - CHUNK_OVERHEAD) as nat,
    )
}

/// A vault whose metadata is stored opens, with the password that unlocks it, to that metadata
/// and to the place at which the payload ends.
pub proof fn law_stored_loads(
    image: Seq<u8>,
    password: Seq<char>,
    dek: Seq<u8>,
    m: (Seq<(Seq<char>, Seq<(usize, u64, Seq<u8>, usize)>, u64)>, Seq<u8>),
    off: nat,
)
    requires
        stored(image, dek, m, off as int),
        unlock_result(image, password) == Ok::<Seq<u8>, VaultError>(dek),
        off <= u64::MAX,
        image.len() - off <= METADATA_READ_LIMIT,
    ensures
        load_result(image, password) == Ok::<
            ((Seq<(Seq<char>, Seq<(usize, u64, Seq<u8>, usize)>, u64)>, Seq<u8>), Seq<u8>, nat),
            VaultError,
        >((m, dek, off)),
{
    lemma_pow256_values();
    lemma_le_value_of_le(off, 8);
    assert(metadata_region(image, off as int) =~= image.subrange(off as int, image.len() as int));
}

/// Tables of the same rows have files of the same names with the same chunks.
proof fn lemma_same_rows(a: Seq<FileIndex>, b: Seq<FileIndex>)
    requires
        table_rows(a) == table_rows(b),
    ensures
        a.len() == b.len(),
        forall|i: int|
            0 <= i < a.len() ==> (#[trigger] a[i]).vfs_name@ == b[i].vfs_name@ && chunk_rows(
                a[i].chunks@,
            ) == chunk_rows(b[i].chunks@),
{
    assert(table_rows(a).len() == a.len());
    assert(table_rows(b).len() == b.len());
    assert forall|i: int| 0 <= i < a.len() implies (#[trigger] a[i]).vfs_name@ == b[i].vfs_name@
        && chunk_rows(a[i].chunks@) == chunk_rows(b[i].chunks@) by {
        assert(table_rows(a)[i] == file_row(a[i]));
        assert(table_rows(b)[i] == file_row(b[i]));
    }
}

/// Chunks of the same rows lie at the same places and have the same lengths.
proof fn lemma_same_chunks(a: Seq<ChunkEntry>, b: Seq<ChunkEntry>)
    requires
        chunk_rows(a) == chunk_rows(b),
    ensures
        a.len() == b.len(),
        forall|i: int|
            0 <= i < a.len() ==> (#[trigger] a[i]).offset == b[i].offset && a[i].cipher_len
                == b[i].cipher_len && a[i].plain_len == b[i].plain_len && a[i].file_id@
                == b[i].file_id@,
{
    assert(chunk_rows(a).len() == a.len());
    assert(chunk_rows(b).len() == b.len());
    assert forall|i: int| 0 <= i < a.len() implies (#[trigger] a[i]).offset == b[i].offset
        && a[i].cipher_len == b[i].cipher_len && a[i].plain_len == b[i].plain_len && a[i].file_id@
        == b[i].file_id@ by {
        assert(chunk_rows(a)[i] == chunk_row(a[i]));
        assert(chunk_rows(b)[i] == chunk_row(b[i]));
    }
}

/// Chunks of the same rows hold the same.
proof fn lemma_contents_by_rows(
    image: Seq<u8>,
    dek: Seq<u8>,
    a: Seq<ChunkEntry>,
    b: Seq<ChunkEntry>,
)
    requires
        chunk_rows(a) == chunk_rows(b),
    ensures
        contents(image, dek, a) == contents(image, dek, b),
    decreases a.len(),
{
    lemma_same_chunks(a, b);
    if a.len() > 0 {
        let n = a.len() as int;
        let ai = a.subrange(0, n - 1);
        let bi = b.subrange(0, n - 1);
        assert(chunk_rows(ai) =~= chunk_rows(a).subrange(0, n - 1));
        assert(chunk_rows(bi) =~= chunk_rows(b).subrange(0, n - 1));
        lemma_contents_by_rows(image, dek, ai, bi);
        assert(a[n - 1].offset == b[n - 1].offset);
    }
}

/// A vault that is closed and opened again reads the same. Where a file holds its metadata, and
/// its header is that of a vault which a password unlocks, the password opens it to that metadata,
/// and every file of the table that is read holds what it held before.
pub proof fn law_reopened_vault_reads_the_same(
    created: Seq<u8>,
    image: Seq<u8>,
    password: Seq<char>,
    dek: Seq<u8>,
    t: Seq<FileIndex>,
    salt: Seq<u8>,
    off: nat,
    reopened: Seq<FileIndex>,
)
    requires
        unlock_result(created, password) == Ok::<Seq<u8>, VaultError>(dek),
        forall|i: int| 8 <= i < 125 ==> image[i] == created[i],
        stored(image, dek, (table_rows(t), salt), off as int),
        off <= u64::MAX,
        image.len() - off <= METADATA_READ_LIMIT,
        table_rows(reopened) == table_rows(t),
    ensures
        load_result(image, password) == Ok::<
            ((Seq<(Seq<char>, Seq<(usize, u64, Seq<u8>, usize)>, u64)>, Seq<u8>), Seq<u8>, nat),
            VaultError,
        >(((table_rows(t), salt), dek, off)),
        forall|name: Seq<char>| #[trigger]
            file_contents(image, dek, reopened, name) == file_contents(image, dek, t, name),
{
    lemma_unlock_by_header(created, image, password);
    law_stored_loads(image, password, dek, (table_rows(t), salt), off);
    lemma_same_rows(t, reopened);
    assert forall|name: Seq<char>| #[trigger]
        file_contents(image, dek, reopened, name) == file_contents(image, dek, t, name) by {
        lemma_first_index(t, name);
        lemma_first_index(reopened, name);
        let k = first_index(t, name);
        let j = first_index(reopened, name);
        if k < j {
            assert(t[k].vfs_name@ == reopened[k].vfs_name@);
        } else if j < k {
            assert(t[j].vfs_name@ == reopened[j].vfs_name@);
        }
        if k < t.len() {
            assert(t[k].vfs_name@ == reopened[k].vfs_name@);
            lemma_contents_by_rows(image, dek, reopened[k].chunks@, t[k].chunks@);
        }
    }
}

/// Metadata written at the tail of a file is stored.
pub proof fn lemma_with_metadata_stored(
    payload: Seq<u8>,
    dek: Seq<u8>,
    blob: Seq<u8>,
    m: (Seq<(Seq<char>, Seq<(usize, u64, Seq<u8>, usize)>, u64)>, Seq<u8>),
    off: int,
    len: nat,
)
    requires
        VAULT_HEADER_SIZE <= off,
        payload.len() <= off + blob.len(),
        is_metadata_blob(dek, blob, m, len),
    ensures
        stored(with_metadata(payload, off, blob), dek, m, off),
        with_metadata(payload, off, blob).len() == off + blob.len(),
{
    let new = with_metadata(payload, off, blob);
    lemma_le_len(off as nat, 8);
    assert(new.subrange(0, 8) =~= le(off as nat, 8));
    assert(new.subrange(off, new.len() as int) =~= blob);
}

/// One more file makes the metadata longer by the bytes of the file.
proof fn lemma_metadata_len_push(
    rows: Seq<(Seq<char>, Seq<(usize, u64, Seq<u8>, usize)>, u64)>,
    row: (Seq<char>, Seq<(usize, u64, Seq<u8>, usize)>, u64),
    salt: Seq<u8>,
)
    ensures
        metadata_bytes((rows.push(row), salt)).len() == metadata_bytes((rows, salt)).len()
            + file_bytes(row).len(),
{
    let f = |r: (Seq<char>, Seq<(usize, u64, Seq<u8>, usize)>, u64)| file_bytes(r);
    lemma_le_len(rows.len(), 8);
    lemma_le_len(rows.len() + 1, 8);
    assert(rows.push(row).map_values(f) =~= rows.map_values(f).push(f(row)));
    rows.map_values(f).lemma_flatten_push(f(row));
}

/// One file less makes the metadata shorter by the bytes of the file.
pub proof fn lemma_metadata_len_remove(
    rows: Seq<(Seq<char>, Seq<(usize, u64, Seq<u8>, usize)>, u64)>,
    k: int,
    salt: Seq<u8>,
)
    requires
        0 <= k < rows.len(),
    ensures
        metadata_bytes((rows, salt)).len() == metadata_bytes((rows.remove(k), salt)).len()
            + file_bytes(rows[k]).len(),
    decreases rows.len(),
{
    let n = rows.len() - 1;
    let init = rows.drop_last();
    assert(rows =~= init.push(rows[n]));
    lemma_metadata_len_push(init, rows[n], salt);
    if k == n {
        assert(rows.remove(k) =~= init);
    } else {
        lemma_metadata_len_remove(init, k, salt);
        assert(rows.remove(k) =~= init.remove(k).push(rows[n]));
        lemma_metadata_len_push(init.remove(k), rows[n], salt);
    }
}

// ── Laws ─────────────────────────────────────────────────────────────────────

/// In a sound vault no byte belongs to chunks of two files, every chunk lies behind the header and
/// before the end of the payload, which lies in the file, and no two files have one name.
pub proof fn law_sound_vaults(
    image: Seq<u8>,
    t: Seq<FileIndex>,
    payload_end: int,
    i: int,
    j: int,
    k: int,
    l: int,
    at: int,
)
    requires
        vault_wf(image, t, payload_end),
        0 <= i < t.len() && 0 <= j < t.len(),
        0 <= k < t[i].chunks@.len() && 0 <= l < t[j].chunks@.len(),
    ensures
        125 <= payload_end <= image.len(),
        125 <= t[i].chunks@[k].offset,
        t[i].chunks@[k].offset + t[i].chunks@[k].cipher_len <= payload_end,
        i != j ==> t[i].vfs_name@ != t[j].vfs_name@,
        i != j && t[i].chunks@[k].offset <= at < t[i].chunks@[k].offset + t[i].chunks@[k].cipher_len
            ==> !(t[j].chunks@[l].offset <= at < t[j].chunks@[l].offset
            + t[j].chunks@[l].cipher_len),
{
    assert(within_payload(t[i].chunks@, payload_end));
    if i < j {
        assert(all_apart(t[i].chunks@, t[j].chunks@));
        assert(apart(t[i].chunks@[k], t[j].chunks@[l]));
    } else if j < i {
        assert(all_apart(t[j].chunks@, t[i].chunks@));
        assert(apart(t[j].chunks@[l], t[i].chunks@[k]));
    }
}

} // verus!
