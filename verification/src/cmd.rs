//! The commands of the container tool.

use crate::cli::{all_ascii, checked};
use crate::text::{copy_text, is_ascii_text};
use vstd::prelude::*;
use vstd::utf8::encode_utf8;

verus! {

/// The arguments of the program.
#[derive(Debug)]
pub struct Cli {
    pub command: Commands,
}

/// The commands of the program.
#[derive(Debug)]
pub enum Commands {
    /// Makes a new vault.
    Create {
        /// ASCII, at most 32 characters.
        name: String,
        /// The key derivation function.
        kdf: String,
        /// The authenticated cipher.
        aead: String,
        /// The path of a key file.
        key_file: Option<String>,
        /// Asks for a hardware key.
        yk: bool,
    },
    /// Manages friends.
    Friends { cmd: FriendsCommands },
    /// Unlocks a vault.
    Unlock,
    /// Locks a vault.
    Lock,
    /// Opens a shell on a vault.
    Shell,
}

/// The commands on friends.
#[derive(Debug)]
pub enum FriendsCommands {
    /// Lists the friends.
    List,
    /// Adds a friend by a link.
    New { link: String },
}

/// Why a vault name is refused.
pub open spec fn name_fault(s: Seq<char>) -> Option<Seq<char>> {
    if encode_utf8(s).len() > 32 {
        Some("Vault name cannot exceed 32 characters"@)
    } else if !is_ascii_text(s) {
        Some("Vault name must contain only ASCII characters"@)
    } else {
        None
    }
}

/// Checks the name of a new vault.
pub fn parse_vault_name(s: &str) -> (r: Result<String, String>)
    ensures
        checked(r, s@, name_fault(s@)),
{
    if s.as_bytes().len() > 32 {
        return Err(copy_text("Vault name cannot exceed 32 characters"));
    }
    if !all_ascii(s) {
        return Err(copy_text("Vault name must contain only ASCII characters"));
    }
    Ok(copy_text(s))
}

// ── Laws ─────────────────────────────────────────────────────────────────────

/// A name is accepted exactly where it is ASCII and has no more than thirty-two characters; one
/// that is too long is told so first.
pub proof fn law_accepted_names(s: Seq<char>)
    ensures
        name_fault(s) is None <==> s.len() <= 32 && forall|i: int|
            0 <= i < s.len() ==> (#[trigger] s[i] as u32) < 128,
        encode_utf8(s).len() > 32 ==> name_fault(s) == Some(
            "Vault name cannot exceed 32 characters"@,
        ),
{
    if is_ascii_text(s) {
        crate::text::lemma_ascii_utf8_len(s);
    }
}

/// A name that is short enough and not ASCII is told so.
pub proof fn law_names_that_are_not_ascii(s: Seq<char>)
    requires
        encode_utf8(s).len() <= 32,
        exists|i: int| 0 <= i < s.len() && (#[trigger] s[i] as u32) >= 128,
    ensures
        name_fault(s) == Some("Vault name must contain only ASCII characters"@),
{
}

} // verus!
