//! Shredding a file of the vault.

use crate::bytes::lemma_le_len;
use crate::contents::{
    contents, file_contents, find_file, first_index, has_name, lemma_first_index,
    lemma_first_index_is,
};
use crate::crypto::{CryptoError, UnlockedVault};
use crate::primitives::AEAD_MESSAGE_LIMIT;
use crate::storage::{
    fill_len, is_metadata_blob, load_result, save_metadata_to_end, unlock_result, with_metadata,
    VaultError, METADATA_READ_LIMIT,
};
use crate::vault::{
    all_apart, apart, law_reopened_vault_reads_the_same, lemma_metadata_len_remove,
    lemma_with_metadata_stored, stored, vault_wf, within_payload, Vault,
};
use crate::vfs::{metadata_bytes, table_rows, ChunkEntry, FileIndex, VaultMetadata};
use vstd::prelude::*;

verus! {

/// The byte at `i` belongs to one of the chunks.
pub open spec fn in_chunks(chunks: Seq<ChunkEntry>, i: int) -> bool {
    exists|k: int|
        0 <= k < chunks.len() && (#[trigger] chunks[k]).offset <= i < chunks[k].offset
            + chunks[k].cipher_len
}

/// A file with the bytes of the chunks set to zero.
pub open spec fn zeroed(image: Seq<u8>, chunks: Seq<ChunkEntry>) -> Seq<u8> {
    Seq::new(
        image.len(),
        |i: int|
            if in_chunks(chunks, i) {
                0
            } else {
                image[i]
            },
    )
}

/// Sets the bytes of the chunks to zero.
fn zero_chunks(image: &mut Vec<u8>, chunks: &Vec<ChunkEntry>)
    ensures
        final(image)@ == zeroed(old(image)@, chunks@),
{
    let ghost before = image@;
    let len: usize = image.len();
    let mut k: usize = 0;
    assert(image@ =~= zeroed(before, chunks@.subrange(0, 0)));
    while k < chunks.len()
        invariant
            k <= chunks@.len(),
            len == before.len(),
            image@ == zeroed(before, chunks@.subrange(0, k as int)),
        decreases chunks@.len() - k,
    {
        let c: ChunkEntry = chunks[k];
        let ghost mid = image@;
        if c.offset < len as u64 {
            let start: usize = c.offset as usize;
            let end: usize = if c.cipher_len > len - start {
                len
            } else {
                start + c.cipher_len
            };
            let mut i: usize = start;
            while i < end
                invariant
                    start <= i <= end <= len,
                    len == mid.len(),
                    image@.len() == len,
                    forall|j: int| start <= j < i ==> image@[j] == 0,
                    forall|j: int| 0 <= j < len && !(start <= j < i) ==> image@[j] == mid[j],
                decreases end - i,
            {
                image[i] = 0;
                i = i + 1;
            }
        }
        proof {
            let pre = chunks@.subrange(0, k as int);
            let post = chunks@.subrange(0, k + 1);
            assert forall|i: int| 0 <= i < len implies #[trigger] in_chunks(post, i) == (in_chunks(
                pre,
                i,
            ) || c.offset <= i < c.offset + c.cipher_len) by {
                assert(post[k as int] == c);
                if in_chunks(pre, i) {
                    let w = choose|w: int|
                        0 <= w < pre.len() && (#[trigger] pre[w]).offset <= i < pre[w].offset
                            + pre[w].cipher_len;
                    assert(post[w] == pre[w]);
                }
                if in_chunks(post, i) {
                    let w = choose|w: int|
                        0 <= w < post.len() && (#[trigger] post[w]).offset <= i < post[w].offset
                            + post[w].cipher_len;
                    if w < k {
                        assert(pre[w] == post[w]);
                    }
                }
            }
            assert forall|i: int| 0 <= i < len implies image@[i] == zeroed(before, post)[i] by {
                assert(mid[i] == zeroed(before, pre)[i]);
                assert(in_chunks(post, i) == (in_chunks(pre, i) || c.offset <= i < c.offset
                    + c.cipher_len));
            }
            assert(image@ =~= zeroed(before, post));
        }
        k = k + 1;
    }
    assert(chunks@.subrange(0, chunks@.len() as int) =~= chunks@);
}

/// What a removal leaves of a vault: the chunks of the file at `k` are zeros, its row is gone, and,
/// where it is saved, the metadata is written again where it was, up to the end of the file. The
/// payload ends where it ended. It is saved unless the metadata is over what can be encrypted at
/// once.
pub open spec fn rm_writes(before: Vault, after: Vault, dek: Seq<u8>, k: int, saved: bool) -> bool {
    let payload = zeroed(before.0, before.1.file_table@[k].chunks@);
    let len = fill_len(before.0.len(), before.2 as int, metadata_bytes(after.1@).len());
    &&& saved <==> len < AEAD_MESSAGE_LIMIT
    &&& after.1.file_table@ == before.1.file_table@.remove(k)
    &&& after.1.cdc_salt == before.1.cdc_salt
    &&& after.2 == before.2
    &&& !saved ==> after.0 == payload
    &&& saved ==> exists|blob: Seq<u8>|
        is_metadata_blob(dek, blob, after.1@, len) && after.0 == #[trigger] with_metadata(
            payload,
            before.2 as int,
            blob,
        )
}

/// What a removal keeps of a sound vault: it is sound, the header behind the master pointer is as
/// it was, every other file holds what it held, and the bytes of the removed file are zeros. With
/// its metadata written it is stored again.
pub open spec fn rm_keeps(
    before: Vault,
    after: Vault,
    dek: Seq<u8>,
    name: Seq<char>,
    saved: bool,
) -> bool {
    let t = before.1.file_table@;
    let k = first_index(t, name);
    vault_wf(before.0, t, before.2 as int) ==> {
        &&& vault_wf(after.0, after.1.file_table@, after.2 as int)
        &&& !has_name(after.1.file_table@, name)
        &&& forall|i: int|
            0 <= i < t.len() && i != k ==> contents(after.0, dek, (#[trigger] t[i]).chunks@)
                == contents(before.0, dek, t[i].chunks@)
        &&& forall|i: int| 8 <= i < 125 ==> after.0[i] == before.0[i]
        &&& forall|i: int| #[trigger] in_chunks(t[k].chunks@, i) ==> after.0[i] == 0
        &&& saved ==> stored(after.0, dek, after.1@, after.2 as int)
    }
}

/// Removes a file from the vault: the bytes of its chunks are set to zero, its entry leaves the
/// table, and the metadata is written again at the end of the payload, which stays where it is. The
/// metadata has become shorter; zeros behind it, under the same seal, let it end where the file
/// ends, so that the file keeps its length until the vault is compacted. A name that is not there
/// is an error, and nothing changes.
///
/// In a sound vault every other file keeps its contents, and the vault stays sound.
pub fn handle_rm(
    vfs_name: &str,
    metadata: &mut VaultMetadata,
    image: &mut Vec<u8>,
    unlocked_vault: &UnlockedVault,
    current_payload_offset: &mut u64,
) -> (r: Result<(), VaultError>)
    requires
        *old(current_payload_offset) <= usize::MAX,
    ensures
        *final(current_payload_offset) == *old(current_payload_offset),
        !has_name(old(metadata).file_table@, vfs_name@) ==> r == Err::<(), VaultError>(
            VaultError::NotFound,
        ) && *final(metadata) == *old(metadata) && final(image)@ == old(image)@,
        has_name(old(metadata).file_table@, vfs_name@) ==> {
            let before = (old(image)@, *old(metadata), *old(current_payload_offset));
            let after = (final(image)@, *final(metadata), *final(current_payload_offset));
            let k = first_index(old(metadata).file_table@, vfs_name@);
            &&& r matches Err(e) ==> e == VaultError::Encrypt(CryptoError::Seal)
            &&& rm_writes(before, after, unlocked_vault.dek@, k, r is Ok)
            &&& rm_keeps(before, after, unlocked_vault.dek@, vfs_name@, r is Ok)
        },
        r is Ok && stored(
            old(image)@,
            unlocked_vault.dek@,
            old(metadata)@,
            *old(current_payload_offset) as int,
        ) ==> final(image)@.len() == old(image)@.len(),
{
    let index: usize = match find_file(&metadata.file_table, vfs_name) {
        Some(i) => i,
        None => return Err(VaultError::NotFound),
    };
    let ghost before: Vault = (image@, *metadata, *current_payload_offset);
    let ghost dek = unlocked_vault.dek@;
    zero_chunks(image, &metadata.file_table[index].chunks);
    let _removed = metadata.file_table.remove(index);
    let ghost payload = image@;
    let ghost len = fill_len(image@.len(), before.2 as int, metadata_bytes(metadata@).len());
    let r = save_metadata_to_end(image, metadata, unlocked_vault, *current_payload_offset);
    proof {
        let after: Vault = (image@, *metadata, *current_payload_offset);
        lemma_first_index(before.1.file_table@, vfs_name@);
        if r is Ok {
            let blob = choose|blob: Seq<u8>|
                is_metadata_blob(dek, blob, metadata@, len) && image@ == #[trigger] with_metadata(
                    payload,
                    before.2 as int,
                    blob,
                );
            assert(is_metadata_blob(dek, blob, after.1@, len));
            assert(after.0 == with_metadata(payload, before.2 as int, blob));
        }
        assert(rm_writes(before, after, dek, index as int, r is Ok));
        lemma_rm_keeps_vault(before, after, dek, vfs_name@, r is Ok);
        if r is Ok && stored(before.0, dek, before.1@, before.2 as int) {
            lemma_rm_keeps_length(before, after, dek, index as int);
        }
    }
    r
}

/// What a removal writes leaves a sound vault sound.
proof fn lemma_rm_keeps_vault(
    before: Vault,
    after: Vault,
    dek: Seq<u8>,
    name: Seq<char>,
    saved: bool,
)
    requires
        has_name(before.1.file_table@, name),
        rm_writes(before, after, dek, first_index(before.1.file_table@, name), saved),
    ensures
        rm_keeps(before, after, dek, name, saved),
{
    let t = before.1.file_table@;
    let k = first_index(t, name);
    let off = before.2 as int;
    let chunks = t[k].chunks@;
    let payload = zeroed(before.0, chunks);
    let len = fill_len(before.0.len(), off, metadata_bytes(after.1@).len());
    lemma_first_index(t, name);
    if vault_wf(before.0, t, off) {
        if saved {
            let blob = choose|blob: Seq<u8>|
                is_metadata_blob(dek, blob, after.1@, len) && after.0 == #[trigger] with_metadata(
                    payload,
                    off,
                    blob,
                );
            lemma_with_metadata_stored(payload, dek, blob, after.1@, off, len);
            lemma_le_len(off as nat, 8);
        }
        assert forall|i: int| 8 <= i < off implies #[trigger] after.0[i] == payload[i] by {}
        lemma_rm_sound(before.0, t, k, off);
        assert forall|i: int| 0 <= i < t.len() && i != k implies contents(
            after.0,
            dek,
            (#[trigger] t[i]).chunks@,
        ) == contents(before.0, dek, t[i].chunks@) by {
            lemma_rm_keeps(before.0, after.0, dek, t, k, i, off);
        }
        assert forall|i: int| #[trigger] in_chunks(chunks, i) implies after.0[i] == 0 by {
            let w = choose|w: int|
                0 <= w < chunks.len() && (#[trigger] chunks[w]).offset <= i < chunks[w].offset
                    + chunks[w].cipher_len;
            assert(within_payload(chunks, off));
            assert(125 <= chunks[w].offset);
            assert(after.0[i] == zeroed(before.0, chunks)[i]);
        }
        assert forall|i: int| 8 <= i < 125 implies after.0[i] == before.0[i] by {
            assert(after.0[i] == zeroed(before.0, chunks)[i]);
            if in_chunks(chunks, i) {
                let w = choose|w: int|
                    0 <= w < chunks.len() && (#[trigger] chunks[w]).offset <= i < chunks[w].offset
                        + chunks[w].cipher_len;
                assert(within_payload(chunks, off));
                assert(125 <= chunks[w].offset);
            }
        }
        lemma_removed_name(t, name, k);
    }
}

/// A file that ends with its metadata has room for the metadata of one file less.
proof fn lemma_rm_keeps_length(before: Vault, after: Vault, dek: Seq<u8>, k: int)
    requires
        0 <= k < before.1.file_table@.len(),
        rm_writes(before, after, dek, k, true),
        stored(before.0, dek, before.1@, before.2 as int),
    ensures
        after.0.len() == before.0.len(),
{
    let t = before.1.file_table@;
    let off = before.2 as int;
    let payload = zeroed(before.0, t[k].chunks@);
    let len = fill_len(before.0.len(), off, metadata_bytes(after.1@).len());
    let blob = choose|blob: Seq<u8>|
        is_metadata_blob(dek, blob, after.1@, len) && after.0 == #[trigger] with_metadata(
            payload,
            off,
            blob,
        );
    lemma_metadata_len_remove(table_rows(t), k, before.1.cdc_salt@);
    assert(table_rows(t.remove(k)) =~= table_rows(t).remove(k));
    lemma_with_metadata_stored(payload, dek, blob, after.1@, off, len);
}

/// A file that shares no byte with the removed one keeps its contents.
proof fn lemma_rm_keeps(
    before: Seq<u8>,
    after: Seq<u8>,
    dek: Seq<u8>,
    t: Seq<FileIndex>,
    k: int,
    i: int,
    off: int,
)
    requires
        vault_wf(before, t, off),
        0 <= k < t.len(),
        0 <= i < t.len(),
        i != k,
        off <= after.len(),
        forall|j: int| 8 <= j < off ==> #[trigger] after[j] == zeroed(before, t[k].chunks@)[j],
    ensures
        contents(after, dek, t[i].chunks@) == contents(before, dek, t[i].chunks@),
{
    let c = t[i].chunks@;
    let d = t[k].chunks@;
    assert(within_payload(c, off));
    assert(all_apart(c, d) || all_apart(d, c));
    assert forall|x: int|
        #![trigger c[x]]
        0 <= x < c.len() implies before.subrange(c[x].offset as int, c[x].offset + c[x].cipher_len)
        == after.subrange(c[x].offset as int, c[x].offset + c[x].cipher_len) by {
        assert(125 <= c[x].offset && c[x].offset + c[x].cipher_len <= off);
        assert forall|j: int| c[x].offset <= j < c[x].offset + c[x].cipher_len implies after[j]
            == before[j] by {
            if in_chunks(d, j) {
                let w = choose|w: int|
                    0 <= w < d.len() && (#[trigger] d[w]).offset <= j < d[w].offset
                        + d[w].cipher_len;
                assert(apart(c[x], d[w]) || apart(d[w], c[x]));
            }
            assert(after[j] == zeroed(before, d)[j]);
        }
        assert(before.subrange(c[x].offset as int, c[x].offset + c[x].cipher_len)
            =~= after.subrange(c[x].offset as int, c[x].offset + c[x].cipher_len));
    }
    crate::contents::lemma_contents_same_blobs(before, after, dek, c, c);
}

/// A table without one of its files is as sound as the table.
proof fn lemma_rm_sound(image: Seq<u8>, t: Seq<FileIndex>, k: int, off: int)
    requires
        vault_wf(image, t, off),
        0 <= k < t.len(),
    ensures
        forall|after: Seq<u8>| off <= after.len() ==> #[trigger] vault_wf(after, t.remove(k), off),
{
    let u = t.remove(k);
    assert forall|i: int| 0 <= i < u.len() implies u[i] == t[if i < k {
        i
    } else {
        i + 1
    }] by {}
    assert forall|after: Seq<u8>| off <= after.len() implies #[trigger] vault_wf(after, u, off) by {
        assert forall|i: int, j: int| 0 <= i < j < u.len() implies all_apart(
            (#[trigger] u[i]).chunks@,
            (#[trigger] u[j]).chunks@,
        ) && u[i].vfs_name@ != u[j].vfs_name@ by {
            let a = if i < k {
                i
            } else {
                i + 1
            };
            let b = if j < k {
                j
            } else {
                j + 1
            };
            assert(all_apart(t[a].chunks@, t[b].chunks@));
            assert(t[a].vfs_name@ != t[b].vfs_name@);
        }
    }
}

/// Where names are unique, the name of a removed file is gone.
proof fn lemma_removed_name(t: Seq<FileIndex>, name: Seq<char>, k: int)
    requires
        crate::contents::names_unique(t),
        0 <= k < t.len(),
        t[k].vfs_name@ == name,
    ensures
        !has_name(t.remove(k), name),
{
    let u = t.remove(k);
    assert forall|i: int| 0 <= i < u.len() implies (#[trigger] u[i]).vfs_name@ != name by {
        if i < k {
            assert(u[i] == t[i]);
        } else {
            assert(u[i] == t[i + 1]);
        }
    }
}

/// What is removed stays gone after the vault is closed and opened again. The password still opens
/// the vault; no file of the name is found, and every other file holds what it held. `t` and `u`
/// are the table before and after, and `reopened` is the table as it is read from the file.
pub proof fn law_removal_survives_reopening(
    before: Seq<u8>,
    t: Seq<FileIndex>,
    after: Seq<u8>,
    u: Seq<FileIndex>,
    salt: Seq<u8>,
    off: nat,
    password: Seq<char>,
    dek: Seq<u8>,
    name: Seq<char>,
    reopened: Seq<FileIndex>,
)
    requires
        vault_wf(before, t, off as int),
        has_name(t, name),
        u == t.remove(first_index(t, name)),
        unlock_result(before, password) == Ok::<Seq<u8>, VaultError>(dek),
        forall|i: int| 8 <= i < 125 ==> after[i] == before[i],
        stored(after, dek, (table_rows(u), salt), off as int),
        forall|i: int|
            0 <= i < t.len() && i != first_index(t, name) ==> contents(
                after,
                dek,
                (#[trigger] t[i]).chunks@,
            ) == contents(before, dek, t[i].chunks@),
        off <= u64::MAX,
        after.len() - off <= METADATA_READ_LIMIT,
        table_rows(reopened) == table_rows(u),
    ensures
        load_result(after, password) == Ok::<
            ((Seq<(Seq<char>, Seq<(usize, u64, Seq<u8>, usize)>, u64)>, Seq<u8>), Seq<u8>, nat),
            VaultError,
        >(((table_rows(u), salt), dek, off)),
        file_contents(after, dek, reopened, name) == Err::<Seq<u8>, VaultError>(
            VaultError::NotFound,
        ),
        forall|other: Seq<char>|
            other != name ==> #[trigger] file_contents(after, dek, reopened, other)
                == file_contents(before, dek, t, other),
{
    law_reopened_vault_reads_the_same(before, after, password, dek, u, salt, off, reopened);
    let k = first_index(t, name);
    lemma_first_index(t, name);
    assert(file_contents(after, dek, reopened, name) == file_contents(after, dek, u, name));
    assert(!has_name(u, name)) by {
        if has_name(u, name) {
            let i = choose|i: int| 0 <= i < u.len() && (#[trigger] u[i]).vfs_name@ == name;
            let j = if i < k {
                i
            } else {
                i + 1
            };
            assert(u[i] == t[j]);
            assert(t[k].vfs_name@ == name);
        }
    }
    assert forall|other: Seq<char>| other != name implies #[trigger] file_contents(
        after,
        dek,
        reopened,
        other,
    ) == file_contents(before, dek, t, other) by {
        let j = first_index(t, other);
        lemma_first_index(t, other);
        if j < k {
            assert forall|i: int| 0 <= i < j implies (#[trigger] u[i]).vfs_name@ != other by {
                assert(u[i] == t[i]);
            }
            lemma_first_index_is(u, other, j);
        } else {
            assert(j != k);
            assert forall|i: int| 0 <= i < j - 1 implies (#[trigger] u[i]).vfs_name@ != other by {
                if i < k {
                    assert(u[i] == t[i]);
                } else {
                    assert(u[i] == t[i + 1]);
                }
            }
            lemma_first_index_is(u, other, j - 1);
        }
        lemma_first_index(u, other);
        assert(file_contents(after, dek, reopened, other) == file_contents(after, dek, u, other));
    }
}

// ── Laws ─────────────────────────────────────────────────────────────────────

/// The bytes of the chunks become zeros, and no other byte of the file changes.
pub proof fn law_shredding_zeroes_the_chunks_alone(
    image: Seq<u8>,
    chunks: Seq<ChunkEntry>,
    i: int,
    k: int,
)
    ensures
        zeroed(image, chunks).len() == image.len(),
        0 <= i < image.len() && 0 <= k < chunks.len() && chunks[k].offset <= i < chunks[k].offset
            + chunks[k].cipher_len ==> zeroed(image, chunks)[i] == 0,
        0 <= i < image.len() && (forall|j: int|
            0 <= j < chunks.len() ==> !((#[trigger] chunks[j]).offset <= i < chunks[j].offset
                + chunks[j].cipher_len)) ==> zeroed(image, chunks)[i] == image[i],
{
    if 0 <= k < chunks.len() && chunks[k].offset <= i < chunks[k].offset + chunks[k].cipher_len {
        assert(in_chunks(chunks, i));
    }
}

/// A removal takes one row out of the table and leaves the others in their order; what its chunks
/// held becomes zeros, and no other byte of the payload changes.
pub proof fn law_removal_takes_one_file(
    before: Vault,
    after: Vault,
    dek: Seq<u8>,
    k: int,
    saved: bool,
    i: int,
    at: int,
)
    requires
        rm_writes(before, after, dek, k, saved),
        0 <= k < before.1.file_table@.len(),
        8 <= before.2 <= before.0.len(),
    ensures
        after.1.file_table@.len() == before.1.file_table@.len() - 1,
        0 <= i < k ==> after.1.file_table@[i] == before.1.file_table@[i],
        k <= i < after.1.file_table@.len() ==> after.1.file_table@[i] == before.1.file_table@[i + 1],
        after.2 == before.2,
        8 <= at < before.2 && (exists|j: int|
            0 <= j < before.1.file_table@[k].chunks@.len() && (
            #[trigger] before.1.file_table@[k].chunks@[j]).offset <= at
                < before.1.file_table@[k].chunks@[j].offset
                + before.1.file_table@[k].chunks@[j].cipher_len) ==> after.0[at] == 0,
        8 <= at < before.2 && !(exists|j: int|
            0 <= j < before.1.file_table@[k].chunks@.len() && (
            #[trigger] before.1.file_table@[k].chunks@[j]).offset <= at
                < before.1.file_table@[k].chunks@[j].offset
                + before.1.file_table@[k].chunks@[j].cipher_len) ==> after.0[at] == before.0[at],
{
    let chunks = before.1.file_table@[k].chunks@;
    let payload = zeroed(before.0, chunks);
    assert(payload.len() == before.0.len());
    if saved {
        let len = fill_len(before.0.len(), before.2 as int, metadata_bytes(after.1@).len());
        let blob = choose|blob: Seq<u8>|
            is_metadata_blob(dek, blob, after.1@, len) && after.0 == #[trigger] with_metadata(
                payload,
                before.2 as int,
                blob,
            );
        lemma_le_len(before.2 as nat, 8);
        if 8 <= at < before.2 {
            assert(after.0[at] == payload[at]);
        }
    }
    assert(in_chunks(chunks, at) <==> exists|j: int|
        0 <= j < chunks.len() && (#[trigger] chunks[j]).offset <= at < chunks[j].offset
            + chunks[j].cipher_len);
}

/// After a removal from a sound vault no file has the name, every other file reads as before, and
/// nothing of the removed file is left in its chunks.
pub proof fn law_removed_file_is_gone(
    before: Vault,
    after: Vault,
    dek: Seq<u8>,
    name: Seq<char>,
    saved: bool,
    i: int,
    j: int,
    at: int,
)
    requires
        rm_keeps(before, after, dek, name, saved),
        vault_wf(before.0, before.1.file_table@, before.2 as int),
        0 <= i < before.1.file_table@.len(),
    ensures
        forall|k: int|
            0 <= k < after.1.file_table@.len() ==> (#[trigger] after.1.file_table@[k]).vfs_name@
                != name,
        before.1.file_table@[i].vfs_name@ != name ==> contents(
            after.0,
            dek,
            before.1.file_table@[i].chunks@,
        ) == contents(before.0, dek, before.1.file_table@[i].chunks@),
        before.1.file_table@[i].vfs_name@ == name && 0 <= j < before.1.file_table@[i].chunks@.len()
            && before.1.file_table@[i].chunks@[j].offset <= at
            < before.1.file_table@[i].chunks@[j].offset
            + before.1.file_table@[i].chunks@[j].cipher_len ==> after.0[at] == 0,
        saved ==> stored(after.0, dek, after.1@, after.2 as int),
{
    let t = before.1.file_table@;
    let k = first_index(t, name);
    lemma_first_index(t, name);
    if t[i].vfs_name@ == name {
        assert(i == k) by {
            if k < i {
                assert(t[k].vfs_name@ != t[i].vfs_name@);
            }
        }
        if 0 <= j < t[i].chunks@.len() && t[i].chunks@[j].offset <= at < t[i].chunks@[j].offset
            + t[i].chunks@[j].cipher_len {
            assert(in_chunks(t[k].chunks@, at));
        }
    } else {
        assert(i != k);
    }
}

} // verus!
