//! Writing a file into the vault.

use crate::bytes::push_all;
use crate::chunker::{chunk_data, cut_end, cuts_cover, fastcdc_cuts, MAX_CHUNK_SIZE};
use crate::contents::{
    chunk_content, chunks_end_by, contents, file_contents, find_file, first_index, has_name,
    lemma_contents_frame, lemma_contents_push, lemma_first_index, lemma_first_index_is,
    names_unique,
};
use crate::crypto::{
    encrypt_chunk, generate_file_id, open_chunk, CryptoError, UnlockedVault, VAULT_HEADER_SIZE,
};
use crate::paths::{lies_within, optional_text, path_within};
use crate::primitives::{os_random, wipe_bytes, AEAD_MESSAGE_LIMIT};
use crate::storage::{
    fill_len, is_metadata_blob, load_result, save_metadata_to_end, unlock_result, with_metadata,
    write_at, VaultError, METADATA_READ_LIMIT,
};
use crate::text::{around, concat, copy_text, push_text};
use crate::vault::{
    all_apart, law_reopened_vault_reads_the_same, lemma_with_metadata_stored, stored, vault_wf,
    within_payload, Vault,
};
use crate::vfs::{metadata_bytes, table_rows, ChunkEntry, FileIndex, VaultMetadata};
use vstd::prelude::*;
use vstd::slice::slice_subrange;

verus! {

/// Length of the blob of a padded chunk.
pub const CHUNK_BLOB_LEN: usize = 8251;

/// Chunks of padded size, one behind the other from a place on.
pub open spec fn packed_from(chunks: Seq<ChunkEntry>, start: int) -> bool {
    forall|i: int|
        0 <= i < chunks.len() ==> (#[trigger] chunks[i]).cipher_len == CHUNK_BLOB_LEN
            && chunks[i].offset == start + i * CHUNK_BLOB_LEN
}

/// The chunks keep the lengths of the pieces they were cut into.
pub open spec fn lengths_of_cuts(chunks: Seq<ChunkEntry>, cuts: Seq<(u64, usize)>) -> bool {
    &&& chunks.len() == cuts.len()
    &&& forall|i: int| 0 <= i < chunks.len() ==> (#[trigger] chunks[i]).plain_len == cuts[i].1
}

/// Pads a piece to the greatest chunk size with random bytes and encrypts it under a fresh
/// identifier.
fn seal_padded(piece: &[u8], unlocked_vault: &UnlockedVault) -> (r: ([u8; 16], Vec<u8>))
    requires
        piece@.len() <= MAX_CHUNK_SIZE,
    ensures
        r.1@.len() == CHUNK_BLOB_LEN,
        exists|pad: Seq<u8>|
            pad.len() == MAX_CHUNK_SIZE - piece@.len() && open_chunk(
                unlocked_vault.dek@,
                r.1@,
                r.0@,
            ) == Ok::<Seq<u8>, CryptoError>(#[trigger] (piece@ + pad)),
{
    let mut padded: Vec<u8> = Vec::new();
    push_all(&mut padded, piece);
    let pad: Vec<u8> = os_random(MAX_CHUNK_SIZE - piece.len());
    push_all(&mut padded, &pad);
    assert(padded@ =~= piece@ + pad@);
    let file_id: [u8; 16] = generate_file_id();
    match encrypt_chunk(unlocked_vault, &padded, &file_id) {
        Ok(blob) => {
            wipe_bytes(&mut padded);
            (file_id, blob)
        },
        Err(_) => (file_id, Vec::new()),
    }
}

/// Encrypts data piece by piece and writes the blobs one behind the other from `offset` on.
fn write_chunks(
    data: &[u8],
    cuts: &Vec<(u64, usize)>,
    image: &mut Vec<u8>,
    unlocked_vault: &UnlockedVault,
    offset: &mut u64,
) -> (chunks: Vec<ChunkEntry>)
    requires
        cuts_cover(cuts@, data@.len(), MAX_CHUNK_SIZE as nat),
        *old(offset) <= old(image)@.len(),
    ensures
        *final(offset) == *old(offset) + chunks@.len() * CHUNK_BLOB_LEN,
        packed_from(chunks@, *old(offset) as int),
        lengths_of_cuts(chunks@, cuts@),
        final(image)@.len() == if old(image)@.len() < *final(offset) {
            *final(offset) as nat
        } else {
            old(image)@.len()
        },
        forall|i: int| 0 <= i < *old(offset) ==> final(image)@[i] == old(image)@[i],
        contents(final(image)@, unlocked_vault.dek@, chunks@) == Ok::<Seq<u8>, VaultError>(data@),
{
    let ghost start = *offset as int;
    let ghost before = image@;
    let ghost dek = unlocked_vault.dek@;
    let mut chunks: Vec<ChunkEntry> = Vec::new();
    let mut k: usize = 0;
    let ghost mut upto: int = 0;
    assert(data@.subrange(0, 0) =~= Seq::<u8>::empty());
    while k < cuts.len()
        invariant
            k <= cuts@.len(),
            dek == unlocked_vault.dek@,
            cuts_cover(cuts@, data@.len(), MAX_CHUNK_SIZE as nat),
            chunks@.len() == k,
            start <= before.len(),
            *offset == start + k * CHUNK_BLOB_LEN,
            *offset <= image@.len(),
            packed_from(chunks@, start),
            chunks_end_by(chunks@, *offset as int),
            forall|i: int| 0 <= i < k ==> (#[trigger] chunks@[i]).plain_len == cuts@[i].1,
            image@.len() == if before.len() < *offset {
                *offset as nat
            } else {
                before.len()
            },
            forall|i: int| 0 <= i < start ==> image@[i] == before[i],
            upto == if k == 0 {
                0
            } else {
                cut_end(cuts@, k - 1)
            },
            0 <= upto <= data@.len(),
            contents(image@, dek, chunks@) == Ok::<Seq<u8>, VaultError>(data@.subrange(0, upto)),
        decreases cuts@.len() - k,
    {
        let (from, plain_len) = cuts[k];
        proof {
            lemma_cut_within(cuts@, data@.len(), MAX_CHUNK_SIZE as nat, k as int);
            assert(data@.len() == data.len());
            assert(image@.len() == image.len());
        }
        let a: usize = from as usize;
        let piece: &[u8] = slice_subrange(data, a, a + plain_len);
        let (file_id, blob) = seal_padded(piece, unlocked_vault);
        let ghost mid = image@;
        let ghost at = *offset as int;
        write_at(image, *offset as usize, &blob);
        assert(image@.len() == image.len());
        let entry: ChunkEntry = ChunkEntry {
            cipher_len: blob.len(),
            offset: *offset,
            file_id,
            plain_len,
        };
        let ghost done = chunks@;
        chunks.push(entry);
        *offset = *offset + blob.len() as u64;
        proof {
            let head = data@.subrange(0, upto);
            assert(contents(image@, dek, chunks@) == Ok::<Seq<u8>, VaultError>(head + piece@)) by {
                assert(image@.subrange(at, at + blob@.len()) =~= blob@);
                lemma_sealed_content(image@, dek, entry, blob@, piece@);
                lemma_contents_push(mid, image@, dek, done, entry, at, head, piece@);
            }
            assert(data@.subrange(0, upto) + piece@ =~= data@.subrange(0, upto + plain_len));
            assert(start + (k + 1) * CHUNK_BLOB_LEN == start + k * CHUNK_BLOB_LEN + CHUNK_BLOB_LEN)
                by (nonlinear_arith);
            upto = upto + plain_len;
        }
        k = k + 1;
    }
    assert(data@.subrange(0, data@.len() as int) =~= data@);
    chunks
}

/// A padded piece that lies in a file under its entry is what the entry holds.
proof fn lemma_sealed_content(
    image: Seq<u8>,
    dek: Seq<u8>,
    entry: ChunkEntry,
    blob: Seq<u8>,
    piece: Seq<u8>,
)
    requires
        entry.offset + blob.len() <= image.len(),
        entry.cipher_len == blob.len(),
        image.subrange(entry.offset as int, entry.offset + blob.len()) == blob,
        entry.plain_len == piece.len(),
        0 < piece.len(),
        exists|pad: Seq<u8>|
            pad.len() == MAX_CHUNK_SIZE - piece.len() && open_chunk(dek, blob, entry.file_id@)
                == Ok::<Seq<u8>, CryptoError>(#[trigger] (piece + pad)),
    ensures
        chunk_content(image, dek, entry) == Ok::<Seq<u8>, VaultError>(piece),
{
    let pad = choose|pad: Seq<u8>|
        pad.len() == MAX_CHUNK_SIZE - piece.len() && open_chunk(dek, blob, entry.file_id@) == Ok::<
            Seq<u8>,
            CryptoError,
        >(#[trigger] (piece + pad));
    assert((piece + pad).subrange(0, piece.len() as int) =~= piece);
}

/// Each piece lies within the data.
proof fn lemma_cut_within(cuts: Seq<(u64, usize)>, len: nat, max: nat, k: int)
    requires
        cuts_cover(cuts, len, max),
        0 <= k < cuts.len(),
    ensures
        cut_end(cuts, k) <= len,
        0 < cuts[k].1 <= max,
        cuts[k].0 == if k == 0 {
            0
        } else {
            cut_end(cuts, k - 1)
        },
    decreases cuts.len() - k,
{
    if k < cuts.len() - 1 {
        lemma_cut_within(cuts, len, max, k + 1);
        assert(cuts[k + 1].0 == cut_end(cuts, k));
    }
}

/// The file table after a file was added.
pub open spec fn imported(
    old_table: Seq<FileIndex>,
    new_table: Seq<FileIndex>,
    name: Seq<char>,
    now: u64,
) -> bool {
    &&& new_table.len() == old_table.len() + 1
    &&& new_table.subrange(0, old_table.len() as int) == old_table
    &&& new_table[old_table.len() as int].vfs_name@ == name
    &&& new_table[old_table.len() as int].last_modified_unix == now
}

/// The length of a vault file after the chunks of an import were written.
pub open spec fn grown_len(before: Vault, end: u64) -> nat {
    if before.0.len() < end {
        end as nat
    } else {
        before.0.len()
    }
}

/// What an import writes: the chunks of the data one behind the other where the payload ended, the
/// row of the file, and, where it is saved, the metadata behind the chunks up to the end of the
/// file. It is saved unless the metadata grew over what can be encrypted at once.
pub open spec fn import_writes(
    before: Vault,
    after: Vault,
    dek: Seq<u8>,
    data: Seq<u8>,
    name: Seq<char>,
    now: u64,
    saved: bool,
) -> bool {
    let table = after.1.file_table@;
    let file = table[table.len() - 1];
    let len = fill_len(
        grown_len(before, after.2),
        after.2 as int,
        metadata_bytes(after.1@).len(),
    );
    &&& saved <==> len < AEAD_MESSAGE_LIMIT
    &&& imported(before.1.file_table@, table, name, now)
    &&& after.1.cdc_salt == before.1.cdc_salt
    &&& packed_from(file.chunks@, before.2 as int)
    &&& lengths_of_cuts(file.chunks@, fastcdc_cuts(data, 2048, 4096, 8192))
    &&& after.2 == before.2 + file.chunks@.len() * CHUNK_BLOB_LEN
    &&& after.2 <= after.0.len()
    &&& contents(after.0, dek, file.chunks@) == Ok::<Seq<u8>, VaultError>(data)
    &&& forall|i: int| 8 <= i < before.2 ==> after.0[i] == before.0[i]
    &&& saved ==> exists|payload: Seq<u8>, blob: Seq<u8>|
        {
            &&& is_metadata_blob(dek, blob, after.1@, len)
            &&& after.0 == #[trigger] with_metadata(payload, after.2 as int, blob)
            &&& payload.len() == grown_len(before, after.2)
        }
}

/// What an import keeps of a sound vault: it stays sound, the new file holds the data, every other
/// file holds what it held, and where the metadata was saved the vault is stored.
pub open spec fn import_keeps(
    before: Vault,
    after: Vault,
    dek: Seq<u8>,
    data: Seq<u8>,
    name: Seq<char>,
    saved: bool,
) -> bool {
    let t = before.1.file_table@;
    vault_wf(before.0, t, before.2 as int) ==> {
        &&& vault_wf(after.0, after.1.file_table@, after.2 as int)
        &&& file_contents(after.0, dek, after.1.file_table@, name) == Ok::<Seq<u8>, VaultError>(
            data,
        )
        &&& forall|i: int|
            0 <= i < t.len() ==> contents(after.0, dek, (#[trigger] t[i]).chunks@) == contents(
                before.0,
                dek,
                t[i].chunks@,
            )
        &&& saved ==> stored(after.0, dek, after.1@, after.2 as int)
    }
}

/// Imports data into the vault under a new name: its encrypted chunks are written where the
/// payload ended, and the metadata behind them. A name that is taken is refused and nothing
/// changes. Otherwise the file holds the data, and everything before the old end of the payload
/// stays as it was, but for the master pointer.
pub fn handle_import_from_bytes(
    data: &[u8],
    vfs_name: String,
    image: &mut Vec<u8>,
    metadata: &mut VaultMetadata,
    unlocked_vault: &UnlockedVault,
    current_payload_offset: &mut u64,
    now: u64,
) -> (r: Result<(), VaultError>)
    requires
        VAULT_HEADER_SIZE <= *old(current_payload_offset) <= old(image)@.len(),
    ensures
        has_name(old(metadata).file_table@, vfs_name@) ==> {
            &&& r == Err::<(), VaultError>(VaultError::AlreadyExists)
            &&& *final(metadata) == *old(metadata)
            &&& final(image)@ == old(image)@
            &&& *final(current_payload_offset) == *old(current_payload_offset)
        },
        !has_name(old(metadata).file_table@, vfs_name@) ==> {
            &&& r matches Err(e) ==> e == VaultError::Encrypt(CryptoError::Seal)
            &&& import_writes(
                (old(image)@, *old(metadata), *old(current_payload_offset)),
                (final(image)@, *final(metadata), *final(current_payload_offset)),
                unlocked_vault.dek@,
                data@,
                vfs_name@,
                now,
                r is Ok,
            )
            &&& import_keeps(
                (old(image)@, *old(metadata), *old(current_payload_offset)),
                (final(image)@, *final(metadata), *final(current_payload_offset)),
                unlocked_vault.dek@,
                data@,
                vfs_name@,
                r is Ok,
            )
        },
{
    if find_file(&metadata.file_table, &vfs_name).is_some() {
        return Err(VaultError::AlreadyExists);
    }
    let ghost before = image@;
    let ghost start = *current_payload_offset as int;
    let ghost dek = unlocked_vault.dek@;
    let ghost name = vfs_name@;
    let cuts: Vec<(u64, usize)> = chunk_data(data);
    let chunks: Vec<ChunkEntry> = write_chunks(
        data,
        &cuts,
        image,
        unlocked_vault,
        current_payload_offset,
    );
    let ghost written = chunks@;
    let ghost payload = image@;
    let ghost end = *current_payload_offset as int;
    metadata.file_table.push(FileIndex { vfs_name, chunks, last_modified_unix: now });
    proof {
        let table = metadata.file_table@;
        assert(table.subrange(0, old(metadata).file_table@.len() as int) =~= old(metadata).file_table@);
        assert(start <= end) by (nonlinear_arith)
            requires
                end == start + written.len() * CHUNK_BLOB_LEN,
        ;
    }
    assert(image@.len() == image.len());
    let ghost len = fill_len(image@.len(), end, metadata_bytes(metadata@).len());
    let r = save_metadata_to_end(image, metadata, unlocked_vault, *current_payload_offset);
    proof {
        crate::bytes::lemma_le_len(end as nat, 8);
        if r is Ok {
            let blob = choose|blob: Seq<u8>|
                is_metadata_blob(dek, blob, metadata@, len) && image@ == #[trigger] with_metadata(
                    payload,
                    end,
                    blob,
                );
            assert(is_metadata_blob(dek, blob, metadata@, len) && image@ == with_metadata(
                payload,
                end,
                blob,
            ));
        }
        assert(end <= image@.len());
        assert forall|i: int| 8 <= i < end implies image@[i] == payload[i] by {}
        assert forall|i: int| 0 <= i < written.len() implies (#[trigger] written[i]).offset
            + written[i].cipher_len <= end && 8 <= written[i].offset by {
            let n = written.len() as int;
            assert(start + i * CHUNK_BLOB_LEN + CHUNK_BLOB_LEN <= start + n * CHUNK_BLOB_LEN && 0
                <= i * CHUNK_BLOB_LEN) by (nonlinear_arith)
                requires
                    0 <= i,
                    i + 1 <= n,
                    CHUNK_BLOB_LEN == 8251,
            ;
        }
        lemma_contents_frame(payload, image@, dek, written, 8, end);
        let t = old(metadata).file_table@;
        let vault = (before, *old(metadata), start as u64);
        let after = (image@, *metadata, end as u64);
        assert(metadata.file_table@[t.len() as int].chunks@ == written);
        assert(imported(t, metadata.file_table@, name, now));
        assert(after.1.file_table@[after.1.file_table@.len() - 1].chunks@ == written);
        assert(payload.len() == if before.len() < end {
            end as nat
        } else {
            before.len()
        });
        assert(packed_from(written, start));
        assert(lengths_of_cuts(written, fastcdc_cuts(data@, 2048, 4096, 8192)));
        assert(contents(image@, dek, written) == Ok::<Seq<u8>, VaultError>(data@));
        assert forall|i: int| 8 <= i < start implies after.0[i] == vault.0[i] by {
            assert(image@[i] == payload[i]);
        }
        if r is Ok {
            let blob = choose|blob: Seq<u8>|
                is_metadata_blob(dek, blob, metadata@, len) && image@ == #[trigger] with_metadata(
                    payload,
                    end,
                    blob,
                );
            assert(after.2 as int == end);
            assert(is_metadata_blob(dek, blob, after.1@, len));
            assert(after.0 == with_metadata(payload, after.2 as int, blob));
        }
        assert(import_writes(vault, after, dek, data@, name, now, r is Ok));
        lemma_import_keeps(vault, after, dek, data@, name, now, r is Ok);
    }
    r
}

/// What an import writes leaves a sound vault sound.
proof fn lemma_import_keeps(
    before: Vault,
    after: Vault,
    dek: Seq<u8>,
    data: Seq<u8>,
    name: Seq<char>,
    now: u64,
    saved: bool,
)
    requires
        !has_name(before.1.file_table@, name),
        import_writes(before, after, dek, data, name, now, saved),
    ensures
        import_keeps(before, after, dek, data, name, saved),
{
    let t = before.1.file_table@;
    let table = after.1.file_table@;
    let start = before.2 as int;
    let end = after.2 as int;
    if vault_wf(before.0, t, start) {
        lemma_import_sound(after.0, t, table, start, end);
        assert forall|i: int| 0 <= i < t.len() implies contents(
            after.0,
            dek,
            (#[trigger] t[i]).chunks@,
        ) == contents(before.0, dek, t[i].chunks@) by {
            assert(within_payload(t[i].chunks@, start));
            lemma_contents_frame(before.0, after.0, dek, t[i].chunks@, 8, start);
        }
        lemma_first_index_is(table, name, t.len() as int);
        if saved {
            let len = fill_len(
                grown_len(before, after.2),
                end,
                metadata_bytes(after.1@).len(),
            );
            let (payload, blob) = choose|payload: Seq<u8>, blob: Seq<u8>|
                {
                    &&& is_metadata_blob(dek, blob, after.1@, len)
                    &&& after.0 == #[trigger] with_metadata(payload, end, blob)
                    &&& payload.len() == grown_len(before, after.2)
                };
            lemma_with_metadata_stored(payload, dek, blob, after.1@, end, len);
        }
    }
}

/// A table with one more file, whose chunks lie behind all others, is as sound as the table.
proof fn lemma_import_sound(
    image: Seq<u8>,
    t: Seq<FileIndex>,
    new: Seq<FileIndex>,
    start: int,
    end: int,
)
    requires
        VAULT_HEADER_SIZE <= start,
        names_unique(t),
        forall|i: int| 0 <= i < t.len() ==> within_payload((#[trigger] t[i]).chunks@, start),
        forall|i: int, j: int|
            0 <= i < j < t.len() ==> all_apart((#[trigger] t[i]).chunks@, (#[trigger] t[j]).chunks@),
        new.len() == t.len() + 1,
        new.subrange(0, t.len() as int) == t,
        !has_name(t, new[t.len() as int].vfs_name@),
        packed_from(new[t.len() as int].chunks@, start),
        end == start + new[t.len() as int].chunks@.len() * CHUNK_BLOB_LEN,
        end <= image.len(),
    ensures
        vault_wf(image, new, end),
{
    let n = t.len() as int;
    let c = new[n].chunks@;
    assert forall|i: int| 0 <= i < n implies #[trigger] new[i] == t[i] by {
        assert(new.subrange(0, n)[i] == t[i]);
    }
    assert forall|i: int| 0 <= i < c.len() implies start <= (#[trigger] c[i]).offset && c[i].offset
        + c[i].cipher_len <= end by {
        let m = c.len() as int;
        assert(start + i * CHUNK_BLOB_LEN + CHUNK_BLOB_LEN <= start + m * CHUNK_BLOB_LEN && 0 <= i
            * CHUNK_BLOB_LEN) by (nonlinear_arith)
            requires
                0 <= i,
                i + 1 <= m,
                CHUNK_BLOB_LEN == 8251,
        ;
    }
    assert(start <= end) by (nonlinear_arith)
        requires
            end == start + c.len() * CHUNK_BLOB_LEN,
    ;
    assert forall|i: int| 0 <= i < new.len() implies within_payload(
        (#[trigger] new[i]).chunks@,
        end,
    ) by {
        if i < n {
            assert(within_payload(t[i].chunks@, start));
        }
    }
    assert forall|i: int, j: int| 0 <= i < j < new.len() implies all_apart(
        (#[trigger] new[i]).chunks@,
        (#[trigger] new[j]).chunks@,
    ) && new[i].vfs_name@ != new[j].vfs_name@ by {
        if j < n {
            assert(all_apart(t[i].chunks@, t[j].chunks@));
        } else {
            assert(within_payload(t[i].chunks@, start));
            assert(t[i].vfs_name@ != new[n].vfs_name@);
        }
    }
}

/// Why a host file may not be imported: one of the paths does not resolve, the file lies outside
/// the staging area, or its name is taken.
pub open spec fn import_refused(
    from_disk: Seq<char>,
    source: Option<Seq<char>>,
    staging_dir: Seq<char>,
    staging: Option<Seq<char>>,
    vfs_name: Seq<char>,
    table: Seq<FileIndex>,
) -> Option<Seq<char>> {
    match (staging, source) {
        (None, _) => Some("Fatal: Could not resolve staging directory path."@),
        (Some(_), None) => Some(
            "Error: The file '"@ + from_disk + "' does not exist or cannot be resolved."@,
        ),
        (Some(area), Some(path)) => if !lies_within(path, area) {
            Some(
                "Security Violation: Imports are strictly limited to the staging area.\nPlease move your file to: "@
                    + staging_dir + "\nAttempted to access: "@ + path,
            )
        } else if has_name(table, vfs_name) {
            Some("Error: A file named '"@ + vfs_name + "' already exists in the vault."@)
        } else {
            None
        },
    }
}

/// Decides whether a host file may be imported, before it is opened. `source` and `staging` are
/// the canonical paths of the file and of the staging directory, where they resolve.
pub fn check_import(
    from_disk: &str,
    source: &Option<String>,
    staging_dir: &str,
    staging: &Option<String>,
    vfs_name: &str,
    metadata: &VaultMetadata,
) -> (r: Option<String>)
    ensures
        optional_text(r) == import_refused(
            from_disk@,
            optional_text(*source),
            staging_dir@,
            optional_text(*staging),
            vfs_name@,
            metadata.file_table@,
        ),
{
    match (staging, source) {
        (None, _) => Some(copy_text("Fatal: Could not resolve staging directory path.")),
        (Some(_), None) => Some(
            around("Error: The file '", from_disk, "' does not exist or cannot be resolved."),
        ),
        (Some(area), Some(path)) => {
            if !path_within(path, area) {
                let mut out: String = concat(
                    "Security Violation: Imports are strictly limited to the staging area.\nPlease move your file to: ",
                    staging_dir,
                );
                push_text(&mut out, "\nAttempted to access: ");
                push_text(&mut out, path);
                return Some(out);
            }
            match find_file(&metadata.file_table, vfs_name) {
                Some(_) => Some(
                    around("Error: A file named '", vfs_name, "' already exists in the vault."),
                ),
                None => None,
            }
        },
    }
}

/// Imports a host file from the staging area: its data goes into the vault, or it is refused with
/// words that say why and nothing changes.
pub fn handle_import(
    from_disk: &str,
    source: &Option<String>,
    staging_dir: &str,
    staging: &Option<String>,
    data: &[u8],
    vfs_name: String,
    image: &mut Vec<u8>,
    metadata: &mut VaultMetadata,
    unlocked_vault: &UnlockedVault,
    current_payload_offset: &mut u64,
    now: u64,
) -> (r: Result<(), String>)
    requires
        VAULT_HEADER_SIZE <= *old(current_payload_offset) <= old(image)@.len(),
    ensures
        match import_refused(
            from_disk@,
            optional_text(*source),
            staging_dir@,
            optional_text(*staging),
            vfs_name@,
            old(metadata).file_table@,
        ) {
            Some(words) => {
                &&& r matches Err(e)
                &&& e@ == words
                &&& *final(metadata) == *old(metadata)
                &&& final(image)@ == old(image)@
                &&& *final(current_payload_offset) == *old(current_payload_offset)
            },
            None => {
                &&& r matches Err(e) ==> e@ == VaultError::Encrypt(CryptoError::Seal).text()
                &&& import_writes(
                    (old(image)@, *old(metadata), *old(current_payload_offset)),
                    (final(image)@, *final(metadata), *final(current_payload_offset)),
                    unlocked_vault.dek@,
                    data@,
                    vfs_name@,
                    now,
                    r is Ok,
                )
                &&& import_keeps(
                    (old(image)@, *old(metadata), *old(current_payload_offset)),
                    (final(image)@, *final(metadata), *final(current_payload_offset)),
                    unlocked_vault.dek@,
                    data@,
                    vfs_name@,
                    r is Ok,
                )
            },
        },
{
    if let Some(words) = check_import(from_disk, source, staging_dir, staging, &vfs_name, metadata) {
        return Err(words);
    }
    match handle_import_from_bytes(
        data,
        vfs_name,
        image,
        metadata,
        unlocked_vault,
        current_payload_offset,
        now,
    ) {
        Ok(()) => Ok(()),
        Err(e) => Err(e.message()),
    }
}

/// What is imported is read back after the vault is closed and opened again. The password still
/// opens the vault, to the table with the new file; the new file holds the data, and every other
/// file holds what it held. `reopened` is the table as it is read from the file.
pub proof fn law_import_survives_reopening(
    before: Vault,
    after: Vault,
    password: Seq<char>,
    dek: Seq<u8>,
    data: Seq<u8>,
    name: Seq<char>,
    now: u64,
    reopened: Seq<FileIndex>,
)
    requires
        vault_wf(before.0, before.1.file_table@, before.2 as int),
        unlock_result(before.0, password) == Ok::<Seq<u8>, VaultError>(dek),
        import_writes(before, after, dek, data, name, now, true),
        import_keeps(before, after, dek, data, name, true),
        after.0.len() - after.2 <= METADATA_READ_LIMIT,
        table_rows(reopened) == after.1@.0,
    ensures
        load_result(after.0, password) == Ok::<
            ((Seq<(Seq<char>, Seq<(usize, u64, Seq<u8>, usize)>, u64)>, Seq<u8>), Seq<u8>, nat),
            VaultError,
        >((after.1@, dek, after.2 as nat)),
        file_contents(after.0, dek, reopened, name) == Ok::<Seq<u8>, VaultError>(data),
        forall|other: Seq<char>|
            other != name ==> #[trigger] file_contents(after.0, dek, reopened, other)
                == file_contents(before.0, dek, before.1.file_table@, other),
{
    let t = before.1.file_table@;
    let u = after.1.file_table@;
    law_reopened_vault_reads_the_same(
        before.0,
        after.0,
        password,
        dek,
        u,
        after.1.cdc_salt@,
        after.2 as nat,
        reopened,
    );
    assert forall|other: Seq<char>| other != name implies #[trigger] file_contents(
        after.0,
        dek,
        reopened,
        other,
    ) == file_contents(before.0, dek, t, other) by {
        lemma_first_index(t, other);
        lemma_first_index(u, other);
        let k = first_index(t, other);
        assert forall|i: int| 0 <= i < t.len() implies u[i] == t[i] by {
            assert(u.subrange(0, t.len() as int)[i] == t[i]);
        }
        if k < t.len() {
            lemma_first_index_is(u, other, k);
        } else {
            lemma_first_index_is(u, other, u.len() as int);
        }
        assert(file_contents(after.0, dek, reopened, other) == file_contents(
            after.0,
            dek,
            u,
            other,
        ));
    }
}

// ── Laws ─────────────────────────────────────────────────────────────────────

/// A host file is imported exactly where both paths resolve, it lies in the staging area, and no
/// file of the vault has its name.
pub proof fn law_imports_come_from_the_staging_area(
    from_disk: Seq<char>,
    source: Option<Seq<char>>,
    staging_dir: Seq<char>,
    staging: Option<Seq<char>>,
    vfs_name: Seq<char>,
    table: Seq<FileIndex>,
)
    ensures
        import_refused(from_disk, source, staging_dir, staging, vfs_name, table) is None <==> source
            is Some && staging is Some && lies_within(source->Some_0, staging->Some_0) && !(exists|
            i: int,
        |
            0 <= i < table.len() && (#[trigger] table[i]).vfs_name@ == vfs_name),
        staging is Some && source is None ==> import_refused(
            from_disk,
            source,
            staging_dir,
            staging,
            vfs_name,
            table,
        ) == Some("Error: The file '"@ + from_disk + "' does not exist or cannot be resolved."@),
        staging is Some && source is Some && lies_within(source->Some_0, staging->Some_0) && (exists|
            i: int,
        |
            0 <= i < table.len() && (#[trigger] table[i]).vfs_name@ == vfs_name) ==> import_refused(
            from_disk,
            source,
            staging_dir,
            staging,
            vfs_name,
            table,
        ) == Some("Error: A file named '"@ + vfs_name + "' already exists in the vault."@),
        staging is None ==> import_refused(
            from_disk,
            source,
            staging_dir,
            staging,
            vfs_name,
            table,
        ) == Some("Fatal: Could not resolve staging directory path."@),
        staging is Some && source is Some && !lies_within(source->Some_0, staging->Some_0)
            ==> import_refused(from_disk, source, staging_dir, staging, vfs_name, table) == Some(
            "Security Violation: Imports are strictly limited to the staging area.\nPlease move your file to: "@
                + staging_dir + "\nAttempted to access: "@ + source->Some_0,
        ),
{
}

/// The chunks of an imported file lie one behind the other, with no gap, from where the payload
/// ended on, and each takes 8192 bytes and the 59 that its encryption adds.
pub proof fn law_imported_chunks_follow_one_another(chunks: Seq<ChunkEntry>, start: int, i: int)
    requires
        packed_from(chunks, start),
        0 <= i < chunks.len(),
    ensures
        chunks[0].offset == start,
        chunks[i].cipher_len == 8192 + 59,
        i > 0 ==> chunks[i].offset == chunks[i - 1].offset + chunks[i - 1].cipher_len,
{
    assert(chunks[0].offset == start + 0 * CHUNK_BLOB_LEN);
    if i > 0 {
        assert(chunks[i - 1].cipher_len == CHUNK_BLOB_LEN);
        assert(i * CHUNK_BLOB_LEN == (i - 1) * CHUNK_BLOB_LEN + CHUNK_BLOB_LEN) by (nonlinear_arith);
    }
}

/// An import adds one file, under its name and its time, behind the files that were there, which
/// stay as they were; the file holds the data, in as many chunks as it was cut into, and the
/// payload grows by those chunks alone.
pub proof fn law_import_adds_one_file(
    before: Vault,
    after: Vault,
    dek: Seq<u8>,
    data: Seq<u8>,
    name: Seq<char>,
    now: u64,
    saved: bool,
    i: int,
)
    requires
        import_writes(before, after, dek, data, name, now, saved),
    ensures
        ({
            let old_table = before.1.file_table@;
            let table = after.1.file_table@;
            let file = table[table.len() - 1];
            &&& table.len() == old_table.len() + 1
            &&& 0 <= i < old_table.len() ==> table[i] == old_table[i]
            &&& file.vfs_name@ == name
            &&& file.last_modified_unix == now
            &&& contents(after.0, dek, file.chunks@) == Ok::<Seq<u8>, VaultError>(data)
            &&& after.2 == before.2 + 8251 * file.chunks@.len()
            &&& after.1.cdc_salt == before.1.cdc_salt
            &&& forall|k: int| 8 <= k < before.2 ==> after.0[k] == before.0[k]
            &&& forall|k: int|
                0 <= k < file.chunks@.len() ==> (#[trigger] file.chunks@[k]).plain_len
                    == fastcdc_cuts(data, 2048, 4096, 8192)[k].1
        }),
{
    let old_table = before.1.file_table@;
    let table = after.1.file_table@;
    if 0 <= i < old_table.len() {
        assert(table.subrange(0, old_table.len() as int)[i] == table[i]);
    }
    let n = table[table.len() - 1].chunks@.len();
    assert(n * CHUNK_BLOB_LEN == 8251 * n) by (nonlinear_arith);
}

/// A vault file never shrinks in an import, and grows no further than to the end of the new chunks.
pub proof fn law_file_grows_to_the_new_chunks(before: Vault, end: u64)
    ensures
        grown_len(before, end) >= before.0.len(),
        grown_len(before, end) >= end,
        grown_len(before, end) == before.0.len() || grown_len(before, end) == end,
{
}

} // verus!
