//! Unlocking a vault, and the form for a new one.

use crate::crypto::KdfChoice;
use crate::gui::explorer::{is_valid_vfs_filename, valid_name, VaultSession};
use crate::paths::{push_path, pushed};
use crate::storage::{load_result, load_vault_metadata};
use crate::text::{around, parse_u32, same_text, starts_with, u32_number};
use vstd::prelude::*;

verus! {

/// Whether a name can be that of a vault: the rule for files.
pub fn is_valid_vault_name(name: &str) -> (r: bool)
    ensures
        r == valid_name(name@),
{
    is_valid_vfs_filename(name)
}

// ── Unlocking ────────────────────────────────────────────────────────────────

/// Unlocks a vault file. What went wrong is not told apart.
pub fn try_unlock(image: Vec<u8>, password: &str) -> (r: Result<VaultSession, &'static str>)
    ensures
        match load_result(image@, password@) {
            Ok(l) => {
                &&& r matches Ok(s)
                &&& s.image == image
                &&& s.metadata@ == l.0
                &&& s.unlocked_vault.dek@ == l.1
                &&& s.current_offset == l.2
            },
            Err(_) => r matches Err(e) && e@ == "Error: Invalid password or corrupted vault."@,
        },
{
    match load_vault_metadata(&image, password) {
        Ok((metadata, unlocked_vault, current_offset)) => Ok(
            VaultSession { image, metadata, unlocked_vault, current_offset },
        ),
        Err(_) => Err("Error: Invalid password or corrupted vault."),
    }
}

// ── The form for a new vault ─────────────────────────────────────────────────

/// What a user typed into the form for the key derivation of a new vault.
pub struct CreateForm {
    /// Argon2id, or scrypt.
    pub kdf_argon: bool,
    /// The time in milliseconds to tune unlocking to.
    pub dec_time: String,
    /// Memory in KiB, rounds and threads; where a field is no number, a default is used.
    pub memory: String,
    pub rounds: String,
    pub threads: String,
}

/// Why the form is refused.
pub open spec fn form_fault(name: Seq<char>, password: Seq<char>, confirm: Seq<char>) -> Option<
    Seq<char>,
> {
    if !valid_name(name) {
        Some("Invalid or empty vault name."@)
    } else if password.len() == 0 {
        Some("Password cannot be empty."@)
    } else if password != confirm {
        Some("Passwords do not match."@)
    } else {
        None
    }
}

/// What the form asks of the key derivation.
pub struct KdfRequest {
    pub choice: KdfChoice,
    pub memory: Option<u32>,
    pub rounds: Option<u32>,
    pub threads: Option<u32>,
    pub decryption_time: u32,
}

/// Checks the form: the name, and the password that was typed twice.
pub fn check_form(name: &str, password: &str, confirm: &str) -> (r: Option<&'static str>)
    ensures
        match form_fault(name@, password@, confirm@) {
            Some(f) => r matches Some(e) && e@ == f,
            None => r is None,
        },
{
    if !is_valid_vault_name(name) {
        Some("Invalid or empty vault name.")
    } else if password.is_empty() {
        Some("Password cannot be empty.")
    } else if !same_text(password, confirm) {
        Some("Passwords do not match.")
    } else {
        None
    }
}

impl CreateForm {
    /// What the form asks of the key derivation: the numbers that are numbers, and a second of
    /// unlocking time where that field is none.
    pub fn kdf_request(&self) -> (r: KdfRequest)
        ensures
            r.choice == if self.kdf_argon {
                KdfChoice::Argon2id
            } else {
                KdfChoice::Scrypt
            },
            r.memory == u32_number(self.memory@),
            r.rounds == u32_number(self.rounds@),
            r.threads == u32_number(self.threads@),
            r.decryption_time == match u32_number(self.dec_time@) {
                Some(n) => n,
                None => 1000,
            },
    {
        KdfRequest {
            choice: if self.kdf_argon {
                KdfChoice::Argon2id
            } else {
                KdfChoice::Scrypt
            },
            memory: parse_u32(&self.memory),
            rounds: parse_u32(&self.rounds),
            threads: parse_u32(&self.threads),
            decryption_time: match parse_u32(&self.dec_time) {
                Some(n) => n,
                None => 1000,
            },
        }
    }
}

/// Where the vault of a name is made: in the application's directory under the home directory.
pub fn vault_file(home: &str, name: &str) -> (r: String)
    ensures
        r@ == pushed(home@, ".atom_vault/"@ + name@ + ".aegis"@),
{
    push_path(home, &around(".atom_vault/", name, ".aegis"))
}

/// What is said of a vault that was made.
pub fn created_status(name: &str) -> (r: String)
    ensures
        r@ == "Vault '"@ + name@ + "' created. Select it to unlock."@,
{
    around("Vault '", name, "' created. Select it to unlock.")
}

/// Whether the status of the form reports an error.
pub fn is_create_error(status: &str) -> (r: bool)
    ensures
        r == ("Error"@.is_prefix_of(status@) || "Invalid"@.is_prefix_of(status@)
            || "Password"@.is_prefix_of(status@) || "Passwords"@.is_prefix_of(status@)),
{
    starts_with(status, "Error") || starts_with(status, "Invalid") || starts_with(
        status,
        "Password",
    ) || starts_with(status, "Passwords")
}

/// Whether a status line reports an error.
pub fn is_error_status(status: &str) -> (r: bool)
    ensures
        r == "Error"@.is_prefix_of(status@),
{
    starts_with(status, "Error")
}

// ── Laws ─────────────────────────────────────────────────────────────────────

/// A new vault is accepted exactly where its name is valid, the password is not empty and was typed
/// twice alike; the first thing that is wrong is told.
pub proof fn law_when_a_form_is_accepted(name: Seq<char>, password: Seq<char>, confirm: Seq<char>)
    ensures
        form_fault(name, password, confirm) is None <==> valid_name(name) && password.len() > 0
            && password == confirm,
        !valid_name(name) ==> form_fault(name, password, confirm) == Some(
            "Invalid or empty vault name."@,
        ),
        valid_name(name) && password.len() == 0 ==> form_fault(name, password, confirm) == Some(
            "Password cannot be empty."@,
        ),
        valid_name(name) && password.len() > 0 && password != confirm ==> form_fault(
            name,
            password,
            confirm,
        ) == Some("Passwords do not match."@),
{
}

} // verus!
