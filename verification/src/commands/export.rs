//! Reading a file out of the vault.

use crate::contents::{contents, file_contents, find_file, process_secure_chunk};
use crate::crypto::UnlockedVault;
use crate::paths::{file_name, is_plain_name, join, path_file_name};
use crate::primitives::wipe_bytes;
use crate::storage::VaultError;
use crate::vfs::{ChunkEntry, VaultMetadata};
use vstd::prelude::*;

verus! {

/// Decrypts a list of chunks, one after the other.
pub fn decrypt_chunks(chunks: &Vec<ChunkEntry>, image: &[u8], unlocked_vault: &UnlockedVault) -> (r:
    Result<Vec<u8>, VaultError>)
    ensures
        match r {
            Ok(p) => contents(image@, unlocked_vault.dek@, chunks@) == Ok::<Seq<u8>, VaultError>(
                p@,
            ),
            Err(e) => contents(image@, unlocked_vault.dek@, chunks@) == Err::<Seq<u8>, VaultError>(
                e,
            ),
        },
{
    let mut output: Vec<u8> = Vec::new();
    let mut i: usize = 0;
    assert(output@ =~= Seq::<u8>::empty());
    while i < chunks.len()
        invariant
            i <= chunks@.len(),
            contents(image@, unlocked_vault.dek@, chunks@.subrange(0, i as int)) == Ok::<
                Seq<u8>,
                VaultError,
            >(output@),
        decreases chunks@.len() - i,
    {
        let c: ChunkEntry = chunks[i];
        let ghost upto = chunks@.subrange(0, i + 1);
        assert(upto.subrange(0, i as int) =~= chunks@.subrange(0, i as int));
        assert(upto[i as int] == c);
        match process_secure_chunk(
            image,
            c.cipher_len,
            &c.file_id,
            unlocked_vault,
            c.offset,
            c.plain_len,
        ) {
            Ok(content) => {
                let mut content: Vec<u8> = content;
                crate::bytes::push_all(&mut output, &content);
                wipe_bytes(&mut content);
            },
            Err(e) => {
                proof {
                    lemma_contents_error(image@, unlocked_vault.dek@, chunks@, i + 1, e);
                }
                return Err(e);
            },
        }
        i = i + 1;
    }
    assert(chunks@.subrange(0, chunks@.len() as int) =~= chunks@);
    Ok(output)
}

/// An error in a prefix of the chunks is the error of the whole.
proof fn lemma_contents_error(
    image: Seq<u8>,
    dek: Seq<u8>,
    chunks: Seq<ChunkEntry>,
    n: int,
    e: VaultError,
)
    requires
        0 <= n <= chunks.len(),
        contents(image, dek, chunks.subrange(0, n)) == Err::<Seq<u8>, VaultError>(e),
    ensures
        contents(image, dek, chunks) == Err::<Seq<u8>, VaultError>(e),
    decreases chunks.len(),
{
    if n == chunks.len() {
        assert(chunks.subrange(0, n) =~= chunks);
    } else {
        let init = chunks.subrange(0, chunks.len() - 1);
        assert(init.subrange(0, n) =~= chunks.subrange(0, n));
        lemma_contents_error(image, dek, init, n, e);
    }
}

/// Decrypts all chunks of the file `vfs_name` into a single buffer.
pub fn decrypt_to_bytes(
    vfs_name: &str,
    metadata: &VaultMetadata,
    image: &[u8],
    unlocked_vault: &UnlockedVault,
) -> (r: Result<Vec<u8>, VaultError>)
    ensures
        match r {
            Ok(p) => file_contents(
                image@,
                unlocked_vault.dek@,
                metadata.file_table@,
                vfs_name@,
            ) == Ok::<Seq<u8>, VaultError>(p@),
            Err(e) => file_contents(
                image@,
                unlocked_vault.dek@,
                metadata.file_table@,
                vfs_name@,
            ) == Err::<Seq<u8>, VaultError>(e),
        },
{
    match find_file(&metadata.file_table, vfs_name) {
        None => Err(VaultError::NotFound),
        Some(i) => decrypt_chunks(&metadata.file_table[i].chunks, image, unlocked_vault),
    }
}

/// Where an extracted file goes: under the staging directory, by the last component of the name
/// that the user gave, wherever that points.
pub fn export_target(staging_dir: &str, to_disk: &str) -> (r: Result<String, &'static str>)
    ensures
        match path_file_name(to_disk@) {
            Some(n) => r matches Ok(p) && p@ == staging_dir@ + "/"@ + n && is_plain_name(n),
            None => r matches Err(e) && e@ == "Error: Invalid target file name provided."@,
        },
{
    match file_name(to_disk) {
        Some(n) => Ok(join(staging_dir, &n)),
        None => Err("Error: Invalid target file name provided."),
    }
}

/// The bytes to extract for a file. An existing target is refused before anything is decrypted,
/// unless it is to be replaced.
pub fn handle_export(
    vfs_name: &str,
    target_exists: bool,
    metadata: &VaultMetadata,
    image: &[u8],
    unlocked_vault: &UnlockedVault,
    force_overwrite: bool,
) -> (r: Result<Vec<u8>, VaultError>)
    ensures
        target_exists && !force_overwrite ==> r == Err::<Vec<u8>, VaultError>(
            VaultError::AlreadyExists,
        ),
        !target_exists || force_overwrite ==> match r {
            Ok(p) => file_contents(
                image@,
                unlocked_vault.dek@,
                metadata.file_table@,
                vfs_name@,
            ) == Ok::<Seq<u8>, VaultError>(p@),
            Err(e) => file_contents(
                image@,
                unlocked_vault.dek@,
                metadata.file_table@,
                vfs_name@,
            ) == Err::<Seq<u8>, VaultError>(e),
        },
{
    if target_exists && !force_overwrite {
        return Err(VaultError::AlreadyExists);
    }
    decrypt_to_bytes(vfs_name, metadata, image, unlocked_vault)
}

} // verus!
