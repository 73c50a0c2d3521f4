//! Compacting the vault file.

use crate::bytes::{lemma_le_len, push_all};
use crate::contents::{
    contents, file_contents, first_index, lemma_contents_same_blobs, lemma_first_index,
    lemma_first_index_is,
};
use crate::crypto::{CryptoError, UnlockedVault, VAULT_HEADER_SIZE};
use crate::primitives::AEAD_MESSAGE_LIMIT;
use crate::storage::{
    is_metadata_blob, load_result, save_vault_metadata, unlock_result, with_metadata, VaultError,
    METADATA_READ_LIMIT,
};
use crate::vault::{
    all_apart, apart, law_reopened_vault_reads_the_same, lemma_with_metadata_stored, stored,
    vault_wf, within_payload,
};
use crate::vfs::{metadata_bytes, table_rows, ChunkEntry, FileIndex, VaultMetadata};
use vstd::prelude::*;
use vstd::slice::slice_subrange;

verus! {

/// The bytes of a chunk in the file.
pub open spec fn blob_of(image: Seq<u8>, c: ChunkEntry) -> Seq<u8> {
    image.subrange(c.offset as int, c.offset + c.cipher_len)
}

/// A chunk can be read from the file.
pub open spec fn readable(image: Seq<u8>, c: ChunkEntry) -> bool {
    c.offset + c.cipher_len <= image.len()
}

/// The bytes of the chunks, one behind the other.
pub open spec fn chunk_blobs(image: Seq<u8>, chunks: Seq<ChunkEntry>) -> Seq<u8>
    decreases chunks.len(),
{
    if chunks.len() == 0 {
        Seq::empty()
    } else {
        chunk_blobs(image, chunks.subrange(0, chunks.len() - 1)) + blob_of(
            image,
            chunks[chunks.len() - 1],
        )
    }
}

/// The bytes of the chunks of all files, one behind the other.
pub open spec fn table_blobs(image: Seq<u8>, t: Seq<FileIndex>) -> Seq<u8>
    decreases t.len(),
{
    if t.len() == 0 {
        Seq::empty()
    } else {
        table_blobs(image, t.subrange(0, t.len() - 1)) + chunk_blobs(
            image,
            t[t.len() - 1].chunks@,
        )
    }
}

/// A chunk at another place.
pub open spec fn moved(c: ChunkEntry, offset: int) -> ChunkEntry {
    ChunkEntry { offset: offset as u64, ..c }
}

/// The place of chunk `j`, where the chunks lie one behind the other from `start` on.
#[verifier::opaque]
pub open spec fn place_of(image: Seq<u8>, chunks: Seq<ChunkEntry>, start: int, j: int) -> int {
    start + chunk_blobs(image, chunks.subrange(0, j)).len()
}

/// The first `n` chunks of a file can be read and have been placed one behind the other from
/// `start` on; the others are where they were.
pub open spec fn moved_upto(
    image: Seq<u8>,
    before: Seq<ChunkEntry>,
    after: Seq<ChunkEntry>,
    start: int,
    n: int,
) -> bool {
    &&& after.len() == before.len()
    &&& forall|j: int|
        #![trigger after[j]]
        #![trigger before[j]]
        0 <= j < n ==> readable(image, before[j]) && after[j] == moved(
            before[j],
            place_of(image, before, start, j),
        ) && 0 <= place_of(image, before, start, j) <= u64::MAX
    &&& forall|j: int| n <= j < before.len() ==> #[trigger] after[j] == before[j]
}

/// A file whose chunks have been placed one behind the other, from where the files before it end.
pub open spec fn file_moved(
    image: Seq<u8>,
    t: Seq<FileIndex>,
    after: FileIndex,
    i: int,
    n: int,
) -> bool {
    &&& after.vfs_name@ == t[i].vfs_name@
    &&& after.last_modified_unix == t[i].last_modified_unix
    &&& moved_upto(
        image,
        t[i].chunks@,
        after.chunks@,
        VAULT_HEADER_SIZE + table_blobs(image, t.subrange(0, i)).len(),
        n,
    )
}

/// The first `m` files have been placed one behind the other; the others are where they were.
pub open spec fn table_moved_upto(
    image: Seq<u8>,
    before: Seq<FileIndex>,
    after: Seq<FileIndex>,
    m: int,
) -> bool {
    &&& after.len() == before.len()
    &&& forall|i: int|
        0 <= i < m ==> file_moved(
            image,
            before,
            #[trigger] after[i],
            i,
            before[i].chunks@.len() as int,
        )
    &&& forall|i: int| m <= i < before.len() ==> #[trigger] after[i] == before[i]
}

/// The table after a chunk could not be read: chunk `n` of file `m` is the first that the file
/// does not hold, and those before it have been placed.
pub open spec fn stopped_at(
    image: Seq<u8>,
    before: Seq<FileIndex>,
    after: Seq<FileIndex>,
    m: int,
    n: int,
) -> bool {
    &&& 0 <= m < before.len()
    &&& 0 <= n < before[m].chunks@.len()
    &&& !readable(image, before[m].chunks@[n])
    &&& after.len() == before.len()
    &&& forall|i: int|
        0 <= i < m ==> file_moved(
            image,
            before,
            #[trigger] after[i],
            i,
            before[i].chunks@.len() as int,
        )
    &&& file_moved(image, before, after[m], m, n)
    &&& forall|i: int| m < i < before.len() ==> #[trigger] after[i] == before[i]
}

/// The file before its metadata: eight zeros for the pointer, the rest of the header, and the
/// chunks of all files.
pub open spec fn compacted(image: Seq<u8>, t: Seq<FileIndex>) -> Seq<u8> {
    Seq::new(8, |i: int| 0u8) + image.subrange(8, 125) + table_blobs(image, t)
}

/// Appends the chunks of a file to `out` and sets their places; `false` at the first that cannot
/// be read.
fn relocate_chunks(chunks: &mut Vec<ChunkEntry>, image: &[u8], out: &mut Vec<u8>) -> (r: bool)
    ensures
        r ==> moved_upto(
            image@,
            old(chunks)@,
            final(chunks)@,
            old(out)@.len() as int,
            old(chunks)@.len() as int,
        ) && final(out)@ == old(out)@ + chunk_blobs(image@, old(chunks)@),
        !r ==> exists|n: int|
            0 <= n < old(chunks)@.len() && !readable(image@, old(chunks)@[n])
                && #[trigger] moved_upto(
                image@,
                old(chunks)@,
                final(chunks)@,
                old(out)@.len() as int,
                n,
            ),
{
    let ghost before = chunks@;
    let ghost base = out@;
    let mut j: usize = 0;
    assert(out@ =~= base + chunk_blobs(image@, before.subrange(0, 0)));
    while j < chunks.len()
        invariant
            j <= chunks@.len(),
            before == old(chunks)@,
            base == old(out)@,
            moved_upto(image@, before, chunks@, base.len() as int, j as int),
            out@ == base + chunk_blobs(image@, before.subrange(0, j as int)),
        decreases chunks@.len() - j,
    {
        let c: ChunkEntry = chunks[j];
        assert(c == before[j as int]);
        let len: usize = image.len();
        if c.offset > len as u64 || c.cipher_len > len - c.offset as usize {
            assert(!readable(image@, before[j as int]));
            assert(moved_upto(image@, before, chunks@, base.len() as int, j as int));
            return false;
        }
        let start: usize = c.offset as usize;
        let place: u64 = out.len() as u64;
        let ghost was = chunks@;
        chunks[j] = ChunkEntry {
            cipher_len: c.cipher_len,
            offset: place,
            file_id: c.file_id,
            plain_len: c.plain_len,
        };
        let ghost written = out@;
        push_all(out, slice_subrange(image, start, start + c.cipher_len));
        proof {
            let upto = before.subrange(0, j + 1);
            assert(upto.subrange(0, j as int) =~= before.subrange(0, j as int));
            assert(chunk_blobs(image@, upto) == chunk_blobs(
                image@,
                before.subrange(0, j as int),
            ) + blob_of(image@, c));
            assert(out@ =~= base + chunk_blobs(image@, upto));
            reveal(place_of);
            assert(place == place_of(image@, before, base.len() as int, j as int));
            assert forall|k: int|
                #![trigger chunks@[k]]
                #![trigger before[k]]
                0 <= k < j + 1 implies readable(image@, before[k]) && chunks@[k] == moved(
                before[k],
                place_of(image@, before, base.len() as int, k),
            ) && 0 <= place_of(image@, before, base.len() as int, k) <= u64::MAX by {
                if k < j {
                    assert(was[k] == chunks@[k]);
                }
            }
            assert forall|k: int| j + 1 <= k < before.len() implies #[trigger] chunks@[k]
                == before[k] by {
                assert(was[k] == chunks@[k]);
            }
        }
        j = j + 1;
    }
    assert(before.subrange(0, before.len() as int) =~= before);
    true
}

/// Compacts the vault: a new file with the same header, the chunks of all files one behind the
/// other, and the metadata behind them. The blobs are copied as they are. Returns the new file
/// and the end of its payload.
///
/// It fails where the file is shorter than a header or does not hold one of the chunks; chunks
/// before the first missing one then have their new places already. In a sound vault neither
/// happens: every file keeps its contents, and the new vault is sound and stores its metadata.
pub fn handle_vacuum(
    metadata: &mut VaultMetadata,
    image: &[u8],
    unlocked_vault: &UnlockedVault,
) -> (r: Result<(Vec<u8>, u64), VaultError>)
    ensures
        final(metadata).cdc_salt == old(metadata).cdc_salt,
        image@.len() < VAULT_HEADER_SIZE ==> r == Err::<(Vec<u8>, u64), VaultError>(
            VaultError::ShortRead,
        ) && *final(metadata) == *old(metadata),
        r matches Err(e) ==> (e == VaultError::ShortRead || e == VaultError::Encrypt(
            CryptoError::Seal,
        )),
        r == Err::<(Vec<u8>, u64), VaultError>(VaultError::ShortRead) && image@.len()
            >= VAULT_HEADER_SIZE ==> exists|m: int, n: int| #[trigger]
            stopped_at(image@, old(metadata).file_table@, final(metadata).file_table@, m, n),
        r != Err::<(Vec<u8>, u64), VaultError>(VaultError::ShortRead) ==> {
            let t = old(metadata).file_table@;
            &&& table_moved_upto(image@, t, final(metadata).file_table@, t.len() as int)
            &&& r is Ok <==> metadata_bytes(final(metadata)@).len() < AEAD_MESSAGE_LIMIT
        },
        r matches Ok((new, end)) ==> {
            let t = old(metadata).file_table@;
            &&& end == VAULT_HEADER_SIZE + table_blobs(image@, t).len()
            &&& exists|blob: Seq<u8>|
                is_metadata_blob(
                    unlocked_vault.dek@,
                    blob,
                    final(metadata)@,
                    metadata_bytes(final(metadata)@).len(),
                ) && new@ == #[trigger] with_metadata(compacted(image@, t), end as int, blob)
            &&& stored(new@, unlocked_vault.dek@, final(metadata)@, end as int)
            &&& forall|i: int| 8 <= i < 125 ==> new@[i] == image@[i]
            &&& forall|i: int|
                0 <= i < t.len() ==> contents(
                    new@,
                    unlocked_vault.dek@,
                    (#[trigger] final(metadata).file_table@[i]).chunks@,
                ) == contents(image@, unlocked_vault.dek@, t[i].chunks@)
        },
        forall|payload_end: int| #[trigger]
            vault_wf(image@, old(metadata).file_table@, payload_end) ==> (r is Err ==> r == Err::<
                (Vec<u8>, u64),
                VaultError,
            >(VaultError::Encrypt(CryptoError::Seal))) && (r matches Ok((new, end)) ==> vault_wf(
                new@,
                final(metadata).file_table@,
                end as int,
            )),
{
    if image.len() < VAULT_HEADER_SIZE as usize {
        return Err(VaultError::ShortRead);
    }
    let ghost t = metadata.file_table@;
    let mut out: Vec<u8> = Vec::new();
    out.resize(8, 0);
    push_all(&mut out, slice_subrange(image, 8, 125));
    let mut i: usize = 0;
    assert(out@ =~= compacted(image@, t.subrange(0, 0)));
    while i < metadata.file_table.len()
        invariant
            image@.len() >= VAULT_HEADER_SIZE,
            i <= metadata.file_table@.len(),
            metadata.cdc_salt == old(metadata).cdc_salt,
            table_moved_upto(image@, t, metadata.file_table@, i as int),
            out@ == compacted(image@, t.subrange(0, i as int)),
            t == old(metadata).file_table@,
        decreases metadata.file_table@.len() - i,
    {
        let ghost was = metadata.file_table@;
        let ghost base = out@;
        assert(was[i as int] == t[i as int]);
        let ok: bool = relocate_chunks(&mut metadata.file_table[i].chunks, image, &mut out);
        if !ok {
            proof {
                let n = choose|n: int|
                    0 <= n < t[i as int].chunks@.len() && !readable(
                        image@,
                        t[i as int].chunks@[n],
                    ) && #[trigger] moved_upto(
                        image@,
                        t[i as int].chunks@,
                        metadata.file_table@[i as int].chunks@,
                        base.len() as int,
                        n,
                    );
                assert forall|k: int| 0 <= k < i implies file_moved(
                    image@,
                    t,
                    #[trigger] metadata.file_table@[k],
                    k,
                    t[k].chunks@.len() as int,
                ) by {
                    assert(was[k] == metadata.file_table@[k]);
                }
                assert forall|k: int| i < k < t.len() implies #[trigger] metadata.file_table@[k]
                    == t[k] by {
                    assert(was[k] == metadata.file_table@[k]);
                }
                assert(stopped_at(image@, t, metadata.file_table@, i as int, n));
                assert forall|payload_end: int| #[trigger]
                    vault_wf(image@, t, payload_end) implies false by {
                    assert(within_payload(t[i as int].chunks@, payload_end));
                    assert(t[i as int].chunks@[n].offset + t[i as int].chunks@[n].cipher_len
                        <= payload_end);
                }
            }
            return Err(VaultError::ShortRead);
        }
        proof {
            let upto = t.subrange(0, i + 1);
            assert(upto.subrange(0, i as int) =~= t.subrange(0, i as int));
            assert(out@ =~= compacted(image@, upto));
            assert forall|k: int| 0 <= k < i + 1 implies file_moved(
                image@,
                t,
                #[trigger] metadata.file_table@[k],
                k,
                t[k].chunks@.len() as int,
            ) by {
                if k < i {
                    assert(was[k] == metadata.file_table@[k]);
                }
            }
            assert forall|k: int| i + 1 <= k < t.len() implies #[trigger] metadata.file_table@[k]
                == t[k] by {
                assert(was[k] == metadata.file_table@[k]);
            }
        }
        i = i + 1;
    }
    assert(t.subrange(0, t.len() as int) =~= t);
    let end: u64 = out.len() as u64;
    let ghost payload = out@;
    match save_vault_metadata(&mut out, metadata, unlocked_vault, end) {
        Ok(()) => {
            proof {
                let dek = unlocked_vault.dek@;
                let len = metadata_bytes(metadata@).len();
                let blob = choose|blob: Seq<u8>|
                    is_metadata_blob(dek, blob, metadata@, len) && out@ == #[trigger] with_metadata(
                        payload,
                        end as int,
                        blob,
                    );
                lemma_with_metadata_stored(payload, dek, blob, metadata@, end as int, len);
                lemma_le_len(end as nat, 8);
                lemma_compacted(image@, out@, dek, t, metadata.file_table@);
                assert forall|payload_end: int| #[trigger]
                    vault_wf(image@, t, payload_end) implies vault_wf(
                    out@,
                    metadata.file_table@,
                    end as int,
                ) by {
                    lemma_vacuum_sound(image@, out@, t, metadata.file_table@, payload_end);
                }
            }
            Ok((out, end))
        },
        Err(e) => Err(e),
    }
}

/// The chunks of a prefix take up no more than those of the whole, and the next one lies behind.
proof fn lemma_chunk_blobs_at(image: Seq<u8>, chunks: Seq<ChunkEntry>, j: int)
    requires
        0 <= j < chunks.len(),
        forall|k: int| 0 <= k < chunks.len() ==> readable(image, #[trigger] chunks[k]),
    ensures
        chunk_blobs(image, chunks.subrange(0, j)).len() + chunks[j].cipher_len <= chunk_blobs(
            image,
            chunks,
        ).len(),
        chunk_blobs(image, chunks).subrange(
            chunk_blobs(image, chunks.subrange(0, j)).len() as int,
            chunk_blobs(image, chunks.subrange(0, j)).len() + chunks[j].cipher_len,
        ) == blob_of(image, chunks[j]),
    decreases chunks.len(),
{
    let n = chunks.len() - 1;
    let init = chunks.subrange(0, n);
    let all = chunk_blobs(image, chunks);
    let from = chunk_blobs(image, chunks.subrange(0, j)).len() as int;
    if j == n {
        assert(all.subrange(from, from + chunks[j].cipher_len) =~= blob_of(image, chunks[j]));
    } else {
        assert(init.subrange(0, j) =~= chunks.subrange(0, j));
        lemma_chunk_blobs_at(image, init, j);
        assert(all.subrange(from, from + chunks[j].cipher_len) =~= chunk_blobs(
            image,
            init,
        ).subrange(from, from + chunks[j].cipher_len));
    }
}

/// The chunks of a file lie in those of the table behind those of the files before it.
proof fn lemma_table_blobs_at(image: Seq<u8>, t: Seq<FileIndex>, i: int)
    requires
        0 <= i < t.len(),
    ensures
        table_blobs(image, t.subrange(0, i)).len() + chunk_blobs(image, t[i].chunks@).len()
            <= table_blobs(image, t).len(),
        table_blobs(image, t).subrange(
            table_blobs(image, t.subrange(0, i)).len() as int,
            (table_blobs(image, t.subrange(0, i)).len() + chunk_blobs(image, t[i].chunks@).len()) as int,
        ) == chunk_blobs(image, t[i].chunks@),
    decreases t.len(),
{
    let n = t.len() - 1;
    let init = t.subrange(0, n);
    let all = table_blobs(image, t);
    let from = table_blobs(image, t.subrange(0, i)).len() as int;
    let part = chunk_blobs(image, t[i].chunks@);
    if i == n {
        assert(all.subrange(from, from + part.len()) =~= part);
    } else {
        assert(init.subrange(0, i) =~= t.subrange(0, i));
        lemma_table_blobs_at(image, init, i);
        assert(all.subrange(from, from + part.len()) =~= table_blobs(image, init).subrange(
            from,
            from + part.len(),
        ));
    }
}

/// Every moved chunk holds, at its new place, the bytes it held before.
proof fn lemma_moved_chunk(
    image: Seq<u8>,
    new: Seq<u8>,
    t: Seq<FileIndex>,
    after: Seq<FileIndex>,
    i: int,
    j: int,
)
    requires
        image.len() >= VAULT_HEADER_SIZE,
        table_moved_upto(image, t, after, t.len() as int),
        compacted(image, t).len() <= new.len(),
        forall|k: int| 8 <= k < compacted(image, t).len() ==> new[k] == compacted(image, t)[k],
        0 <= i < t.len(),
        0 <= j < t[i].chunks@.len(),
    ensures
        readable(image, t[i].chunks@[j]),
        after[i].chunks@.len() == t[i].chunks@.len(),
        after[i].chunks@[j].offset == VAULT_HEADER_SIZE + table_blobs(image, t.subrange(0, i)).len()
            + chunk_blobs(image, t[i].chunks@.subrange(0, j)).len(),
        after[i].chunks@[j].cipher_len == t[i].chunks@[j].cipher_len,
        after[i].chunks@[j].file_id == t[i].chunks@[j].file_id,
        after[i].chunks@[j].plain_len == t[i].chunks@[j].plain_len,
        after[i].chunks@[j].offset + after[i].chunks@[j].cipher_len <= VAULT_HEADER_SIZE
            + table_blobs(image, t.subrange(0, i)).len() + chunk_blobs(image, t[i].chunks@).len(),
        VAULT_HEADER_SIZE + table_blobs(image, t.subrange(0, i)).len() + chunk_blobs(
            image,
            t[i].chunks@,
        ).len() <= compacted(image, t).len(),
        blob_of(new, after[i].chunks@[j]) == blob_of(image, t[i].chunks@[j]),
{
    let before = t[i].chunks@;
    assert(file_moved(image, t, after[i], i, before.len() as int));
    assert forall|k: int| 0 <= k < before.len() implies readable(image, #[trigger] before[k]) by {
        assert(after[i].chunks@[k] == moved(
            before[k],
            place_of(
                image,
                before,
                VAULT_HEADER_SIZE + table_blobs(image, t.subrange(0, i)).len(),
                k,
            ),
        ));
    }
    reveal(place_of);
    assert(after[i].chunks@[j] == moved(
        before[j],
        place_of(
            image,
            before,
            VAULT_HEADER_SIZE + table_blobs(image, t.subrange(0, i)).len(),
            j,
        ),
    ));
    lemma_chunk_blobs_at(image, before, j);
    lemma_table_blobs_at(image, t, i);
    let all = table_blobs(image, t);
    let file_from = table_blobs(image, t.subrange(0, i)).len() as int;
    let from = chunk_blobs(image, before.subrange(0, j)).len() as int;
    let part = chunk_blobs(image, before);
    let c = after[i].chunks@[j];
    let left = part.subrange(from, from + c.cipher_len);
    let right = all.subrange(file_from + from, file_from + from + c.cipher_len);
    assert forall|x: int| 0 <= x < c.cipher_len implies left[x] == right[x] by {
        assert(all.subrange(file_from, file_from + part.len())[from + x] == part[from + x]);
    }
    assert(left =~= right);
    assert(blob_of(new, c) =~= all.subrange(file_from + from, file_from + from + c.cipher_len));
}

/// In the compacted file every file holds what it held before.
proof fn lemma_compacted(
    image: Seq<u8>,
    new: Seq<u8>,
    dek: Seq<u8>,
    t: Seq<FileIndex>,
    after: Seq<FileIndex>,
)
    requires
        image.len() >= VAULT_HEADER_SIZE,
        table_moved_upto(image, t, after, t.len() as int),
        compacted(image, t).len() <= new.len(),
        forall|k: int| 8 <= k < compacted(image, t).len() ==> new[k] == compacted(image, t)[k],
    ensures
        forall|i: int|
            0 <= i < t.len() ==> contents(new, dek, (#[trigger] after[i]).chunks@) == contents(
                image,
                dek,
                t[i].chunks@,
            ),
        forall|i: int| 8 <= i < 125 ==> new[i] == image[i],
{
    assert forall|i: int| 0 <= i < t.len() implies contents(
        new,
        dek,
        (#[trigger] after[i]).chunks@,
    ) == contents(image, dek, t[i].chunks@) by {
        let ca = after[i].chunks@;
        let cb = t[i].chunks@;
        assert(file_moved(image, t, after[i], i, cb.len() as int));
        assert forall|j: int|
            #![trigger ca[j]]
            #![trigger cb[j]]
            0 <= j < ca.len() implies {
            &&& ca[j].cipher_len == cb[j].cipher_len
            &&& ca[j].file_id == cb[j].file_id
            &&& ca[j].plain_len == cb[j].plain_len
            &&& new.subrange(ca[j].offset as int, ca[j].offset + ca[j].cipher_len)
                == image.subrange(cb[j].offset as int, cb[j].offset + cb[j].cipher_len)
            &&& ca[j].offset + ca[j].cipher_len <= new.len()
            &&& cb[j].offset + cb[j].cipher_len <= image.len()
        } by {
            lemma_moved_chunk(image, new, t, after, i, j);
        }
        lemma_contents_same_blobs(new, image, dek, ca, cb);
    }
}

/// The compacted vault is sound.
proof fn lemma_vacuum_sound(
    image: Seq<u8>,
    new: Seq<u8>,
    t: Seq<FileIndex>,
    after: Seq<FileIndex>,
    payload_end: int,
)
    requires
        vault_wf(image, t, payload_end),
        table_moved_upto(image, t, after, t.len() as int),
        compacted(image, t).len() <= new.len(),
        forall|k: int| 8 <= k < compacted(image, t).len() ==> new[k] == compacted(image, t)[k],
    ensures
        vault_wf(new, after, VAULT_HEADER_SIZE + table_blobs(image, t).len()),
{
    let end = VAULT_HEADER_SIZE + table_blobs(image, t).len();
    assert(compacted(image, t).len() == end);
    assert forall|i: int| 0 <= i < after.len() implies within_payload(
        (#[trigger] after[i]).chunks@,
        end,
    ) && after[i].vfs_name@ == t[i].vfs_name@ by {
        assert(file_moved(image, t, after[i], i, t[i].chunks@.len() as int));
        let c = after[i].chunks@;
        assert forall|j: int| 0 <= j < c.len() implies VAULT_HEADER_SIZE <= (#[trigger] c[j]).offset
            && c[j].offset + c[j].cipher_len <= end by {
            lemma_moved_chunk(image, new, t, after, i, j);
        }
    }
    assert forall|i: int, k: int| 0 <= i < k < after.len() implies all_apart(
        (#[trigger] after[i]).chunks@,
        (#[trigger] after[k]).chunks@,
    ) && after[i].vfs_name@ != after[k].vfs_name@ by {
        assert(after[i].vfs_name@ == t[i].vfs_name@);
        assert(after[k].vfs_name@ == t[k].vfs_name@);
        assert(t[i].vfs_name@ != t[k].vfs_name@);
        let a = after[i].chunks@;
        let b = after[k].chunks@;
        assert(file_moved(image, t, after[i], i, t[i].chunks@.len() as int));
        assert(file_moved(image, t, after[k], k, t[k].chunks@.len() as int));
        assert forall|x: int, y: int| 0 <= x < a.len() && 0 <= y < b.len() implies apart(
            #[trigger] a[x],
            #[trigger] b[y],
        ) by {
            lemma_moved_chunk(image, new, t, after, i, x);
            lemma_moved_chunk(image, new, t, after, k, y);
            let upto = t.subrange(0, k);
            lemma_table_blobs_at(image, upto, i);
            assert(upto.subrange(0, i) =~= t.subrange(0, i));
        }
    }
}

/// Compaction changes nothing that is read. The password opens the compacted vault, and every file
/// holds what it held. `t` and `u` are the table before and after, and `reopened` is the table as
/// it is read from the compacted file.
pub proof fn law_compaction_survives_reopening(
    before: Seq<u8>,
    t: Seq<FileIndex>,
    after: Seq<u8>,
    u: Seq<FileIndex>,
    salt: Seq<u8>,
    end: nat,
    password: Seq<char>,
    dek: Seq<u8>,
    reopened: Seq<FileIndex>,
)
    requires
        unlock_result(before, password) == Ok::<Seq<u8>, VaultError>(dek),
        table_moved_upto(before, t, u, t.len() as int),
        stored(after, dek, (table_rows(u), salt), end as int),
        forall|i: int| 8 <= i < 125 ==> after[i] == before[i],
        forall|i: int|
            0 <= i < t.len() ==> contents(after, dek, (#[trigger] u[i]).chunks@) == contents(
                before,
                dek,
                t[i].chunks@,
            ),
        end <= u64::MAX,
        after.len() - end <= METADATA_READ_LIMIT,
        table_rows(reopened) == table_rows(u),
    ensures
        load_result(after, password) == Ok::<
            ((Seq<(Seq<char>, Seq<(usize, u64, Seq<u8>, usize)>, u64)>, Seq<u8>), Seq<u8>, nat),
            VaultError,
        >(((table_rows(u), salt), dek, end)),
        forall|name: Seq<char>| #[trigger]
            file_contents(after, dek, reopened, name) == file_contents(before, dek, t, name),
{
    law_reopened_vault_reads_the_same(before, after, password, dek, u, salt, end, reopened);
    assert forall|name: Seq<char>| #[trigger]
        file_contents(after, dek, reopened, name) == file_contents(before, dek, t, name) by {
        let k = first_index(t, name);
        lemma_first_index(t, name);
        assert forall|i: int| 0 <= i < t.len() implies (#[trigger] u[i]).vfs_name@
            == t[i].vfs_name@ by {
            assert(file_moved(before, t, u[i], i, t[i].chunks@.len() as int));
        }
        lemma_first_index_is(u, name, k);
        lemma_first_index(u, name);
        assert(file_contents(after, dek, reopened, name) == file_contents(after, dek, u, name));
    }
}

// ── Laws ─────────────────────────────────────────────────────────────────────

/// Every chunk is copied, in the order of the files and of their chunks, with all its bytes.
pub proof fn law_every_chunk_is_copied(
    image: Seq<u8>,
    chunks: Seq<ChunkEntry>,
    c: ChunkEntry,
    t: Seq<FileIndex>,
    f: FileIndex,
)
    ensures
        chunk_blobs(image, Seq::empty()) == Seq::<u8>::empty(),
        chunk_blobs(image, chunks.push(c)) == chunk_blobs(image, chunks) + image.subrange(
            c.offset as int,
            c.offset + c.cipher_len,
        ),
        table_blobs(image, Seq::empty()) == Seq::<u8>::empty(),
        table_blobs(image, t.push(f)) == table_blobs(image, t) + chunk_blobs(image, f.chunks@),
{
    assert(chunks.push(c).subrange(0, chunks.len() as int) =~= chunks);
    assert(t.push(f).subrange(0, t.len() as int) =~= t);
}

/// The compacted file keeps the header behind the pointer, and right behind it begin the chunks.
pub proof fn law_compacted_file_layout(image: Seq<u8>, t: Seq<FileIndex>)
    requires
        image.len() >= 125,
    ensures
        compacted(image, t).len() == 125 + table_blobs(image, t).len(),
        compacted(image, t).subrange(8, 125) == image.subrange(8, 125),
        compacted(image, t).subrange(125, compacted(image, t).len() as int) == table_blobs(image, t),
{
    let c = compacted(image, t);
    assert(c.subrange(8, 125) =~= image.subrange(8, 125));
    assert(c.subrange(125, c.len() as int) =~= table_blobs(image, t));
}

/// Compacting moves every chunk of every file: at its new place stand the bytes that stood at its
/// old one, and nothing that is recorded of it changes but the place. Names and times stay.
pub proof fn law_compacting_moves_chunks_alone(
    image: Seq<u8>,
    t: Seq<FileIndex>,
    after: Seq<FileIndex>,
    i: int,
    j: int,
)
    requires
        image.len() >= 125,
        table_moved_upto(image, t, after, t.len() as int),
        0 <= i < t.len(),
        0 <= j < t[i].chunks@.len(),
    ensures
        after.len() == t.len(),
        after[i].vfs_name@ == t[i].vfs_name@,
        after[i].last_modified_unix == t[i].last_modified_unix,
        after[i].chunks@.len() == t[i].chunks@.len(),
        ({
            let old_chunk = t[i].chunks@[j];
            let new_chunk = after[i].chunks@[j];
            &&& new_chunk.cipher_len == old_chunk.cipher_len
            &&& new_chunk.file_id == old_chunk.file_id
            &&& new_chunk.plain_len == old_chunk.plain_len
            &&& new_chunk.offset >= 125
            &&& compacted(image, t).subrange(
                new_chunk.offset as int,
                new_chunk.offset + new_chunk.cipher_len,
            ) == image.subrange(old_chunk.offset as int, old_chunk.offset + old_chunk.cipher_len)
        }),
{
    assert(file_moved(image, t, after[i], i, t[i].chunks@.len() as int));
    lemma_moved_chunk(image, compacted(image, t), t, after, i, j);
}

/// Compacting stops at the first chunk that reaches past the end of the file: every chunk before it
/// was within the file, and the files behind it are as they were.
pub proof fn law_compacting_stops_at_a_missing_chunk(
    image: Seq<u8>,
    before: Seq<FileIndex>,
    after: Seq<FileIndex>,
    m: int,
    n: int,
    i: int,
    j: int,
)
    requires
        stopped_at(image, before, after, m, n),
        0 <= i < before.len(),
    ensures
        before[m].chunks@[n].offset + before[m].chunks@[n].cipher_len > image.len(),
        i > m ==> after[i] == before[i],
        after[i].vfs_name@ == before[i].vfs_name@,
        0 <= j < before[i].chunks@.len() && (i < m || i == m && j < n) ==> before[i].chunks@[j].offset
            + before[i].chunks@[j].cipher_len <= image.len(),
        i == m && n <= j < before[i].chunks@.len() ==> after[i].chunks@[j] == before[i].chunks@[j],
{
    if i < m {
        assert(file_moved(image, before, after[i], i, before[i].chunks@.len() as int));
        if 0 <= j < before[i].chunks@.len() {
            let c = before[i].chunks@[j];
            assert(readable(image, c));
        }
    } else if i == m {
        assert(file_moved(image, before, after[m], m, n));
        if 0 <= j < n {
            let c = before[m].chunks@[j];
            assert(readable(image, c));
        }
    }
}

} // verus!
