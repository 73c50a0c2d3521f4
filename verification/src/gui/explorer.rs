//! The vault explorer: file names, renaming, and the status line.

use crate::commands::export::{decrypt_to_bytes, handle_export};
use crate::commands::import::{grown_len, handle_import_from_bytes, import_keeps, import_writes};
use crate::commands::rm::{handle_rm, rm_keeps, rm_writes};
use crate::contents::{file_contents, find_file, first_index, has_name, names_unique};
use crate::crypto::{CryptoError, UnlockedVault, VAULT_HEADER_SIZE};
use crate::gui::{Rgb, GRAY, GREEN, RED};
use crate::paths::{file_name, optional_text, path_file_name};
use crate::primitives::AEAD_MESSAGE_LIMIT;
use crate::storage::{fill_len, VaultError};
use crate::text::{around, concat, contains_char, contains_text, copy_text, occurs_in};
use crate::vault::{stored, vault_wf, Vault};
use crate::vfs::{metadata_bytes, table_rows, FileIndex, VaultMetadata};
use vstd::prelude::*;

verus! {

// ── Names ────────────────────────────────────────────────────────────────────

/// A name for a file of a vault: not empty, without separators and without a null character.
pub open spec fn valid_name(name: Seq<char>) -> bool {
    name.len() > 0 && !name.contains('/') && !name.contains('\\') && !name.contains('\0')
}

/// Whether a name can be that of a file.
pub fn is_valid_vfs_filename(name: &str) -> (r: bool)
    ensures
        r == valid_name(name@),
{
    !name.is_empty() && !contains_char(name, '/') && !contains_char(name, '\\') && !contains_char(
        name,
        '\0',
    )
}

// ── The status line ──────────────────────────────────────────────────────────

/// A message that reports an error.
pub open spec fn reports_error(msg: Seq<char>) -> bool {
    occurs_in(msg, "Error"@) || occurs_in(msg, "failed"@) || occurs_in(msg, "Failed"@)
}

/// A message that reports success.
pub open spec fn reports_success(msg: Seq<char>) -> bool {
    occurs_in(msg, "Success"@) || occurs_in(msg, "imported"@) || occurs_in(msg, "Shredded"@)
        || occurs_in(msg, "Closed"@) || occurs_in(msg, "Renamed"@) || occurs_in(msg, "Extracted"@)
        || occurs_in(msg, "overwritten"@)
}

/// The colour of a message: an error is red, whatever else it says.
pub fn status_color(msg: &str) -> (r: Rgb)
    ensures
        r == if reports_error(msg@) {
            RED
        } else if reports_success(msg@) {
            GREEN
        } else {
            GRAY
        },
{
    if contains_text(msg, "Error") || contains_text(msg, "failed") || contains_text(msg, "Failed") {
        RED
    } else if contains_text(msg, "Success") || contains_text(msg, "imported") || contains_text(
        msg,
        "Shredded",
    ) || contains_text(msg, "Closed") || contains_text(msg, "Renamed") || contains_text(
        msg,
        "Extracted",
    ) || contains_text(msg, "overwritten") {
        GREEN
    } else {
        GRAY
    }
}

/// The words of an error on a file.
pub open spec fn error_text(e: VaultError, name: Seq<char>) -> Seq<char> {
    match e {
        VaultError::NotFound => "Error: File '"@ + name + "' not found in vault."@,
        VaultError::AlreadyExists => "Error: A file named '"@ + name
            + "' already exists in the vault."@,
        _ => e.text(),
    }
}

/// The words of an error on a file.
pub fn error_words(e: &VaultError, name: &str) -> (r: String)
    ensures
        r@ == error_text(*e, name@),
{
    match e {
        VaultError::NotFound => around("Error: File '", name, "' not found in vault."),
        VaultError::AlreadyExists => around(
            "Error: A file named '",
            name,
            "' already exists in the vault.",
        ),
        other => other.message(),
    }
}

// ── Renaming ─────────────────────────────────────────────────────────────────

/// What a renaming leads to.
#[derive(Debug, Clone, Copy, PartialEq, Eq, Structural)]
pub enum RenameOutcome {
    /// The new name is no name for a file.
    Invalid,
    /// A file has the new name.
    Exists,
    /// No file has the old name.
    Missing,
    Renamed,
}

/// What a renaming leads to.
pub open spec fn rename_outcome(t: Seq<FileIndex>, old_name: Seq<char>, new_name: Seq<char>) -> RenameOutcome {
    if !valid_name(new_name) {
        RenameOutcome::Invalid
    } else if has_name(t, new_name) {
        RenameOutcome::Exists
    } else if !has_name(t, old_name) {
        RenameOutcome::Missing
    } else {
        RenameOutcome::Renamed
    }
}

/// What a renaming does to the table: the first file of the old name gets the new one, and names
/// that were unique stay so. Where it is refused nothing changes.
pub open spec fn renamed(
    before: VaultMetadata,
    after: VaultMetadata,
    old_name: Seq<char>,
    new_name: Seq<char>,
) -> bool {
    &&& after@.1 == before@.1
    &&& names_unique(before.file_table@) ==> names_unique(after.file_table@)
    &&& if rename_outcome(before.file_table@, old_name, new_name) != RenameOutcome::Renamed {
        after@ == before@
    } else {
        let i = first_index(before.file_table@, old_name);
        &&& 0 <= i < before@.0.len()
        &&& after@.0 == before@.0.update(i, (new_name, before@.0[i].1, before@.0[i].2))
        &&& forall|k: int|
            0 <= k < before.file_table@.len() ==> (#[trigger] after.file_table@[k]).chunks@
                == before.file_table@[k].chunks@
    }
}

/// Renames a file: the first of the old name gets the new one, and nothing else changes. A name
/// that is in use or that is none is refused.
pub fn rename_file(metadata: &mut VaultMetadata, old_name: &str, new_name: &str) -> (r: RenameOutcome)
    ensures
        r == rename_outcome(old(metadata).file_table@, old_name@, new_name@),
        renamed(*old(metadata), *final(metadata), old_name@, new_name@),
{
    if !is_valid_vfs_filename(new_name) {
        return RenameOutcome::Invalid;
    }
    match find_file(&metadata.file_table, new_name) {
        Some(_) => return RenameOutcome::Exists,
        None => {},
    }
    match find_file(&metadata.file_table, old_name) {
        None => RenameOutcome::Missing,
        Some(i) => {
            let ghost before = metadata.file_table@;
            metadata.file_table[i].vfs_name = copy_text(new_name);
            proof {
                let after = metadata.file_table@;
                assert(table_rows(after) =~= table_rows(before).update(
                    i as int,
                    (new_name@, table_rows(before)[i as int].1, table_rows(before)[i as int].2),
                ));
                if names_unique(before) {
                    assert forall|a: int, b: int| 0 <= a < b < after.len() implies (
                    #[trigger] after[a]).vfs_name@ != (#[trigger] after[b]).vfs_name@ by {
                        assert(before[a].vfs_name@ != before[b].vfs_name@);
                        assert(before[a].vfs_name@ != new_name@);
                        assert(before[b].vfs_name@ != new_name@);
                    }
                }
            }
            RenameOutcome::Renamed
        },
    }
}

/// What is said of a renaming; of a file that is gone, nothing.
pub open spec fn rename_text(outcome: RenameOutcome, new_name: Seq<char>) -> Option<Seq<char>> {
    match outcome {
        RenameOutcome::Invalid => Some("Rename Error: Invalid characters."@),
        RenameOutcome::Exists => Some("Rename Error: Name already exists."@),
        RenameOutcome::Missing => None,
        RenameOutcome::Renamed => Some("Renamed to: "@ + new_name),
    }
}

/// What is said of a renaming; of a file that is gone, nothing.
pub fn rename_status(outcome: RenameOutcome, new_name: &str) -> (r: Option<String>)
    ensures
        optional_text(r) == rename_text(outcome, new_name@),
{
    match outcome {
        RenameOutcome::Invalid => Some(copy_text("Rename Error: Invalid characters.")),
        RenameOutcome::Exists => Some(copy_text("Rename Error: Name already exists.")),
        RenameOutcome::Missing => None,
        RenameOutcome::Renamed => Some(concat("Renamed to: ", new_name)),
    }
}

// ── The open vault ───────────────────────────────────────────────────────────

/// What an extraction leads to.
pub enum Extraction {
    /// The plaintext is written.
    Write(Vec<u8>),
    /// The user is asked whether the file that is there is to be replaced.
    Ask,
    /// It failed, in these words.
    Failed(String),
}

/// What is said of an extraction.
pub fn extracted_status(name: &str, force: bool) -> (r: String)
    ensures
        r@ == if force {
            "Success: File securely overwritten in staging."@
        } else {
            "Success: Extracted to atom_staging/"@ + name@
        },
{
    if force {
        copy_text("Success: File securely overwritten in staging.")
    } else {
        concat("Success: Extracted to atom_staging/", name)
    }
}

/// A vault that has been unlocked.
pub struct VaultSession {
    /// The bytes of the vault file.
    pub image: Vec<u8>,
    pub metadata: VaultMetadata,
    pub unlocked_vault: UnlockedVault,
    /// Where the payload ends.
    pub current_offset: u64,
}

impl VaultSession {
    /// The payload ends inside the file, behind the header.
    pub open spec fn offset_ok(self) -> bool {
        VAULT_HEADER_SIZE <= self.current_offset <= self.image@.len()
    }

    /// The vault is well formed up to the end of the payload.
    pub open spec fn wf(self) -> bool {
        vault_wf(self.image@, self.metadata.file_table@, self.current_offset as int)
    }

    /// The file, the metadata and the end of the payload.
    pub open spec fn vault(self) -> Vault {
        (self.image@, self.metadata, self.current_offset)
    }

    /// Imports data under a name and says what happened. A name that is taken is refused, and so
    /// is a vault whose payload ends outside its file; nothing changes then. Otherwise the file
    /// is there and holds the data, and every other file of a sound vault holds what it held.
    pub fn do_import_bytes(&mut self, data: &[u8], vfs_name: &str, now: u64) -> (r: String)
        ensures
            final(self).unlocked_vault == old(self).unlocked_vault,
            !old(self).offset_ok() ==> *final(self) == *old(self) && r@ == "Import Error: "@
                + error_text(VaultError::ShortRead, vfs_name@),
            old(self).offset_ok() && has_name(old(self).metadata.file_table@, vfs_name@) ==> {
                &&& r@ == "Import Error: "@ + error_text(VaultError::AlreadyExists, vfs_name@)
                &&& final(self).metadata == old(self).metadata
                &&& final(self).image@ == old(self).image@
                &&& final(self).current_offset == old(self).current_offset
            },
            old(self).offset_ok() && !has_name(old(self).metadata.file_table@, vfs_name@) ==> {
                let saved = fill_len(
                    grown_len(old(self).vault(), final(self).current_offset),
                    final(self).current_offset as int,
                    metadata_bytes(final(self).metadata@).len(),
                ) < AEAD_MESSAGE_LIMIT;
                let dek = old(self).unlocked_vault.dek@;
                &&& import_writes(
                    old(self).vault(),
                    final(self).vault(),
                    dek,
                    data@,
                    vfs_name@,
                    now,
                    saved,
                )
                &&& import_keeps(
                    old(self).vault(),
                    final(self).vault(),
                    dek,
                    data@,
                    vfs_name@,
                    saved,
                )
                &&& r@ == if saved {
                    "Success: "@ + vfs_name@ + " imported."@
                } else {
                    "Import Error: "@ + error_text(
                        VaultError::Encrypt(CryptoError::Seal),
                        vfs_name@,
                    )
                }
            },
            old(self).wf() ==> final(self).wf(),
    {
        let result: Result<(), VaultError> = if VAULT_HEADER_SIZE <= self.current_offset
            && self.current_offset <= self.image.len() as u64 {
            handle_import_from_bytes(
                data,
                copy_text(vfs_name),
                &mut self.image,
                &mut self.metadata,
                &self.unlocked_vault,
                &mut self.current_offset,
                now,
            )
        } else {
            Err(VaultError::ShortRead)
        };
        match result {
            Ok(()) => around("Success: ", vfs_name, " imported."),
            Err(e) => concat("Import Error: ", &error_words(&e, vfs_name)),
        }
    }

    /// The plaintext of a file, or what is said where it cannot be had. `what` names the
    /// operation.
    pub fn plaintext(&self, vfs_name: &str, what: &str) -> (r: Result<Vec<u8>, String>)
        ensures
            match file_contents(
                self.image@,
                self.unlocked_vault.dek@,
                self.metadata.file_table@,
                vfs_name@,
            ) {
                Ok(p) => r matches Ok(v) && v@ == p,
                Err(f) => r matches Err(e) && e@ == what@ + error_text(f, vfs_name@),
            },
    {
        match decrypt_to_bytes(vfs_name, &self.metadata, &self.image, &self.unlocked_vault) {
            Ok(p) => Ok(p),
            Err(e) => Err(concat(what, &error_words(&e, vfs_name))),
        }
    }

    /// The name under which a listed file is extracted: the last component of its name, where it
    /// has one.
    pub fn extraction_name(&self, index: usize) -> (r: Option<String>)
        ensures
            optional_text(r) == if index < self.metadata.file_table@.len() {
                path_file_name(self.metadata.file_table@[index as int].vfs_name@)
            } else {
                None
            },
    {
        if index < self.metadata.file_table.len() {
            file_name(&self.metadata.file_table[index].vfs_name)
        } else {
            None
        }
    }

    /// Extracts a listed file to the staging area. Whether a file of that name is there decides
    /// whether the user is asked first; one that is asked for again is replaced.
    pub fn extract(&self, index: usize, present: bool, force: bool) -> (r: Extraction)
        requires
            index < self.metadata.file_table@.len(),
        ensures
            present && !force ==> r == Extraction::Ask,
            !present || force ==> match file_contents(
                self.image@,
                self.unlocked_vault.dek@,
                self.metadata.file_table@,
                self.metadata.file_table@[index as int].vfs_name@,
            ) {
                Ok(p) => r matches Extraction::Write(v) && v@ == p,
                Err(e) => r matches Extraction::Failed(words) && words@ == (if force {
                    "Overwrite failed: "@
                } else {
                    "Export failed: "@
                }) + error_text(e, self.metadata.file_table@[index as int].vfs_name@),
            },
    {
        let name: &str = self.metadata.file_table[index].vfs_name.as_str();
        if present && !force {
            return Extraction::Ask;
        }
        match handle_export(name, present, &self.metadata, &self.image, &self.unlocked_vault, force) {
            Ok(p) => Extraction::Write(p),
            Err(e) => {
                let head: &str = if force {
                    "Overwrite failed: "
                } else {
                    "Export failed: "
                };
                Extraction::Failed(concat(head, &error_words(&e, name)))
            },
        }
    }

    /// Shreds a file and says what happened: its entry is gone, and of a sound vault its blocks are
    /// zeros, every other file holds what it held, and the file keeps its length. A name that is
    /// not there changes nothing.
    pub fn do_delete(&mut self, vfs_name: &str) -> (r: String)
        ensures
            final(self).unlocked_vault == old(self).unlocked_vault,
            final(self).current_offset == old(self).current_offset,
            old(self).current_offset > usize::MAX ==> *final(self) == *old(self) && r@
                == "Delete failed: "@ + VaultError::ShortRead.text(),
            old(self).current_offset <= usize::MAX && !has_name(
                old(self).metadata.file_table@,
                vfs_name@,
            ) ==> {
                &&& r@ == "Delete failed: "@ + VaultError::NotFound.text()
                &&& final(self).metadata == old(self).metadata
                &&& final(self).image@ == old(self).image@
            },
            old(self).current_offset <= usize::MAX && has_name(
                old(self).metadata.file_table@,
                vfs_name@,
            ) ==> {
                let k = first_index(old(self).metadata.file_table@, vfs_name@);
                let saved = fill_len(
                    old(self).image@.len(),
                    old(self).current_offset as int,
                    metadata_bytes(final(self).metadata@).len(),
                ) < AEAD_MESSAGE_LIMIT;
                let dek = old(self).unlocked_vault.dek@;
                &&& rm_writes(old(self).vault(), final(self).vault(), dek, k, saved)
                &&& rm_keeps(old(self).vault(), final(self).vault(), dek, vfs_name@, saved)
                &&& saved && stored(
                    old(self).image@,
                    dek,
                    old(self).metadata@,
                    old(self).current_offset as int,
                ) ==> final(self).image@.len() == old(self).image@.len()
                &&& r@ == if saved {
                    "Permanently Shredded: "@ + vfs_name@
                } else {
                    "Delete failed: "@ + VaultError::Encrypt(CryptoError::Seal).text()
                }
            },
            old(self).wf() ==> final(self).wf(),
    {
        let result: Result<(), VaultError> = if self.current_offset <= usize::MAX as u64 {
            handle_rm(
                vfs_name,
                &mut self.metadata,
                &mut self.image,
                &self.unlocked_vault,
                &mut self.current_offset,
            )
        } else {
            Err(VaultError::ShortRead)
        };
        match result {
            Ok(()) => concat("Permanently Shredded: ", vfs_name),
            Err(e) => concat("Delete failed: ", &e.message()),
        }
    }
}

// ── Laws ─────────────────────────────────────────────────────────────────────

/// A name is valid exactly where it has characters and none of them is a slash, a backslash or a
/// null character.
pub proof fn law_valid_names(name: Seq<char>)
    ensures
        valid_name(name) <==> name.len() > 0 && forall|i: int|
            0 <= i < name.len() ==> #[trigger] name[i] != '/' && name[i] != '\\' && name[i]
                != '\0',
{
    if valid_name(name) {
        assert forall|i: int| 0 <= i < name.len() implies #[trigger] name[i] != '/' && name[i]
            != '\\' && name[i] != '\0' by {
            assert(name.contains(name[i]));
        }
    }
}

/// A file is renamed exactly where the new name is valid and free and a file of the old name is
/// there.
pub proof fn law_when_a_file_is_renamed(t: Seq<FileIndex>, old_name: Seq<char>, new_name: Seq<char>)
    ensures
        rename_outcome(t, old_name, new_name) is Renamed <==> valid_name(new_name) && (forall|i: int|
            0 <= i < t.len() ==> (#[trigger] t[i]).vfs_name@ != new_name) && (exists|i: int|
            0 <= i < t.len() && (#[trigger] t[i]).vfs_name@ == old_name),
        rename_outcome(t, old_name, new_name) is Invalid <==> !valid_name(new_name),
        valid_name(new_name) && has_name(t, new_name) ==> rename_outcome(t, old_name, new_name)
            is Exists,
{
}

/// Renaming gives the first file of the old name the new one: it keeps its chunks and its time,
/// every other file stays as it is, and a refused renaming changes nothing.
pub proof fn law_renaming_changes_one_name(
    before: VaultMetadata,
    after: VaultMetadata,
    old_name: Seq<char>,
    new_name: Seq<char>,
    i: int,
)
    requires
        renamed(before, after, old_name, new_name),
        0 <= i < before.file_table@.len(),
    ensures
        after@.0.len() == before@.0.len(),
        after@.1 == before@.1,
        after@.0[i].1 == before@.0[i].1,
        after@.0[i].2 == before@.0[i].2,
        before.file_table@[i].vfs_name@ != old_name ==> after@.0[i].0 == before@.0[i].0,
        rename_outcome(before.file_table@, old_name, new_name) is Renamed
            && before.file_table@[i].vfs_name@ == old_name && (forall|j: int|
            0 <= j < i ==> (#[trigger] before.file_table@[j]).vfs_name@ != old_name)
            ==> after@.0[i].0 == new_name,
        rename_outcome(before.file_table@, old_name, new_name) !is Renamed ==> after@ == before@,
{
    let t = before.file_table@;
    if rename_outcome(t, old_name, new_name) is Renamed {
        crate::contents::lemma_first_index(t, old_name);
        let k = first_index(t, old_name);
        assert(t[k].vfs_name@ == old_name);
        if t[i].vfs_name@ == old_name && (forall|j: int|
            0 <= j < i ==> (#[trigger] t[j]).vfs_name@ != old_name) {
            crate::contents::lemma_first_index_is(t, old_name, i);
        }
    }
}

/// The words of an error and of a renaming hold the name they are about.
pub proof fn law_words_hold_the_name(name: Seq<char>)
    ensures
        error_text(VaultError::NotFound, name) == "Error: File '"@ + name + "' not found in vault."@,
        error_text(VaultError::AlreadyExists, name) == "Error: A file named '"@ + name
            + "' already exists in the vault."@,
        rename_text(RenameOutcome::Renamed, name) == Some("Renamed to: "@ + name),
        rename_text(RenameOutcome::Missing, name) is None,
        rename_text(RenameOutcome::Invalid, name) == Some("Rename Error: Invalid characters."@),
        rename_text(RenameOutcome::Exists, name) == Some("Rename Error: Name already exists."@),
        forall|e: VaultError|
            e != VaultError::NotFound && e != VaultError::AlreadyExists ==> #[trigger] error_text(
                e,
                name,
            ) == e.text(),
{
}

/// A message reports an error by the words of an error in it, and success by the words of success,
/// wherever they stand.
pub proof fn law_messages_are_judged_by_their_words(a: Seq<char>, b: Seq<char>)
    ensures
        reports_error(a + "Error"@ + b) && reports_error(a + "failed"@ + b) && reports_error(
            a + "Failed"@ + b,
        ),
        reports_success(a + "Success"@ + b) && reports_success(a + "imported"@ + b)
            && reports_success(a + "Shredded"@ + b) && reports_success(a + "Closed"@ + b),
        reports_success(a + "Renamed"@ + b) && reports_success(a + "Extracted"@ + b)
            && reports_success(a + "overwritten"@ + b),
{
    crate::text::law_occurrence(a + "Error"@ + b, "Error"@);
    crate::text::law_occurrence(a + "failed"@ + b, "failed"@);
    crate::text::law_occurrence(a + "Failed"@ + b, "Failed"@);
    crate::text::law_occurrence(a + "Success"@ + b, "Success"@);
    crate::text::law_occurrence(a + "imported"@ + b, "imported"@);
    crate::text::law_occurrence(a + "Shredded"@ + b, "Shredded"@);
    crate::text::law_occurrence(a + "Closed"@ + b, "Closed"@);
    crate::text::law_occurrence(a + "Renamed"@ + b, "Renamed"@);
    crate::text::law_occurrence(a + "Extracted"@ + b, "Extracted"@);
    crate::text::law_occurrence(a + "overwritten"@ + b, "overwritten"@);
}

/// A message reports an error, or success, only by such words.
pub proof fn law_no_other_words_are_judged(msg: Seq<char>)
    ensures
        reports_error(msg) ==> exists|a: Seq<char>, b: Seq<char>|
            #![trigger (a + "Error"@ + b)]
            msg == a + "Error"@ + b || msg == a + "failed"@ + b || msg == a + "Failed"@ + b,
        reports_success(msg) ==> exists|a: Seq<char>, b: Seq<char>|
            #![trigger (a + "Success"@ + b)]
            msg == a + "Success"@ + b || msg == a + "imported"@ + b || msg == a + "Shredded"@ + b
                || msg == a + "Closed"@ + b || msg == a + "Renamed"@ + b || msg == a + "Extracted"@
                + b || msg == a + "overwritten"@ + b,
{
    if reports_error(msg) {
        let w = if occurs_in(msg, "Error"@) {
            "Error"@
        } else if occurs_in(msg, "failed"@) {
            "failed"@
        } else {
            "Failed"@
        };
        crate::text::law_occurrence(msg, w);
        let (a, b) = choose|a: Seq<char>, b: Seq<char>| #[trigger] (a + w + b) == msg;
        let seen = a + "Error"@ + b;
        assert(msg == a + "Error"@ + b || msg == a + "failed"@ + b || msg == a + "Failed"@ + b);
    }
    if reports_success(msg) {
        let w = if occurs_in(msg, "Success"@) {
            "Success"@
        } else if occurs_in(msg, "imported"@) {
            "imported"@
        } else if occurs_in(msg, "Shredded"@) {
            "Shredded"@
        } else if occurs_in(msg, "Closed"@) {
            "Closed"@
        } else if occurs_in(msg, "Renamed"@) {
            "Renamed"@
        } else if occurs_in(msg, "Extracted"@) {
            "Extracted"@
        } else {
            "overwritten"@
        };
        crate::text::law_occurrence(msg, w);
        let (a, b) = choose|a: Seq<char>, b: Seq<char>| #[trigger] (a + w + b) == msg;
        let seen = a + "Success"@ + b;
        assert(msg == a + "Success"@ + b || msg == a + "imported"@ + b || msg == a + "Shredded"@ + b
            || msg == a + "Closed"@ + b || msg == a + "Renamed"@ + b || msg == a + "Extracted"@ + b
            || msg == a + "overwritten"@ + b);
    }
}

} // verus!
