//! The command line: its commands, and the checks on its arguments.

use crate::text::{
    ascii_alphanumeric, chars_of, copy_text, is_ascii_text,
    law_trim_takes_white_space_from_the_ends, lemma_ascii_utf8_len, same_text, starts_with, trim,
    trim_spec,
};
use vstd::prelude::*;
use vstd::utf8::encode_utf8;

verus! {

/// The arguments of the program. Without a command the graphical interface starts.
#[derive(Debug)]
pub struct Cli {
    pub command: Option<Commands>,
}

/// The commands of the program.
#[derive(Debug)]
pub enum Commands {
    /// Makes a new vault.
    Create {
        /// The directory of the vault file.
        vault_path: String,
        /// The name of the vault, without extension.
        vault_name: String,
        /// `argon2id` or `scrypt`.
        kdf: String,
        /// Memory in KiB.
        memory: Option<u32>,
        /// The number of rounds, in place of a tuned one.
        transform_rounds: Option<u32>,
        /// The time in milliseconds that unlocking is tuned to.
        decryption_time: u32,
        /// The number of threads.
        parallelism: Option<u32>,
        /// Generates a passphrase of ten words.
        generate_passphrase: bool,
    },
    /// Unlocks a vault and opens its shell.
    Enter { vault_path: String },
    /// Shows the own identifier and link.
    Id,
    /// Starts the background listener.
    Daemon,
    /// Manages friends.
    Friend { command: FriendCommands },
    /// Synchronises a vault with a friend.
    Sync { vault_path: String, friend_nickname: String },
    /// Transfers without Tor, through a blind store.
    Direct { command: DirectCommands },
    /// Transfers while both sides are online.
    Live { command: LiveCommands },
}

/// The commands of a transfer through a blind store.
#[derive(Debug)]
pub enum DirectCommands {
    Send { vault_path: String, store_url: String, padding: String },
    Receive { save_path: String, store_url: String },
}

/// The commands of a live transfer.
#[derive(Debug)]
pub enum LiveCommands {
    /// Shows the live identity and address.
    Id,
    /// Sets the address under which peers reach this side.
    Address { address: String },
    /// Pairs with a peer by a short code.
    Pair { nickname: String, code: Option<String> },
    /// Lists the paired peers.
    Peers,
    /// Sends a vault to a peer.
    Send { vault_path: String, peer: String },
    /// Receives a vault from a peer.
    Receive { save_path: String, peer: String },
    /// Asks a STUN server for the own address.
    Stun { server: String, port: u16 },
    /// Publishes the own address for one peer, or for all.
    Announce { peer: Option<String> },
    /// Manages the endpoints that carry address records.
    Rendezvous { command: RendezvousCommands },
}

/// The commands on rendezvous endpoints.
#[derive(Debug)]
pub enum RendezvousCommands {
    /// Adds or updates an endpoint by its link.
    Add { link: String, name: Option<String>, via_socks: Option<String> },
    /// Makes the link of an endpoint.
    Link { host: String, port: u16, prefix: String, pins: Vec<String>, onion: Option<String> },
    /// Lists the endpoints.
    List,
    /// Removes an endpoint.
    Remove { name: String },
}

/// The commands on friends.
#[derive(Debug)]
pub enum FriendCommands {
    /// Adds or updates a friend by a link.
    Add { url: String, nickname: String },
    /// Lists the friends.
    List,
}

// ── Checks ───────────────────────────────────────────────────────────────────

/// The characters of a vault name: ASCII letters and digits, the underscore and the hyphen.
pub open spec fn vault_name_char(c: char) -> bool {
    ascii_alphanumeric(c) || c == '_' || c == '-'
}

/// Why a vault name is refused.
pub open spec fn vault_name_fault(s: Seq<char>) -> Option<Seq<char>> {
    if trim_spec(s).len() == 0 {
        Some("Vault name cannot be empty or whitespace only"@)
    } else if encode_utf8(s).len() > 32 {
        Some("Vault name cannot exceed 32 characters"@)
    } else if !is_ascii_text(s) {
        Some("Vault name must contain only ASCII"@)
    } else if exists|i: int| 0 <= i < s.len() && !vault_name_char(#[trigger] s[i]) {
        Some("Vault name can only contain alphanumeric characters, _, or -"@)
    } else {
        None
    }
}

/// Why a vault path is refused.
pub open spec fn vault_path_fault(s: Seq<char>) -> Option<Seq<char>> {
    if s.len() == 0 {
        Some("Vault path cannot be empty"@)
    } else if encode_utf8(s).len() > 4096 {
        Some("Vault path is too long"@)
    } else {
        None
    }
}

/// The result of a check: the argument itself, or the words of the fault.
pub open spec fn checked(
    r: Result<String, String>,
    s: Seq<char>,
    fault: Option<Seq<char>>,
) -> bool {
    match fault {
        None => r matches Ok(t) && t@ == s,
        Some(f) => r matches Err(e) && e@ == f,
    }
}

/// Whether every character is ASCII.
pub fn all_ascii(s: &str) -> (r: bool)
    ensures
        r == is_ascii_text(s@),
{
    let x: Vec<char> = chars_of(s);
    let mut i: usize = 0;
    while i < x.len()
        invariant
            x@ == s@,
            i <= x@.len(),
            forall|j: int| 0 <= j < i ==> (#[trigger] s@[j] as u32) < 128,
        decreases x@.len() - i,
    {
        if (x[i] as u32) >= 128 {
            assert(!((s@[i as int] as u32) < 128));
            return false;
        }
        i = i + 1;
    }
    true
}

fn all_name_chars(s: &str) -> (r: bool)
    ensures
        r == !exists|i: int| 0 <= i < s@.len() && !vault_name_char(#[trigger] s@[i]),
{
    let x: Vec<char> = chars_of(s);
    let mut i: usize = 0;
    while i < x.len()
        invariant
            x@ == s@,
            i <= x@.len(),
            forall|j: int| 0 <= j < i ==> vault_name_char(#[trigger] s@[j]),
        decreases x@.len() - i,
    {
        let c: char = x[i];
        let fits: bool = ('0' <= c && c <= '9') || ('A' <= c && c <= 'Z') || ('a' <= c && c <= 'z')
            || c == '_' || c == '-';
        if !fits {
            assert(!vault_name_char(s@[i as int]));
            return false;
        }
        i = i + 1;
    }
    true
}

/// Whether a text is empty but for white space.
pub fn is_blank(s: &str) -> (r: bool)
    ensures
        r == (trim_spec(s@).len() == 0),
{
    proof {
        reveal_strlit("");
        assert(trim_spec(s@).len() == 0 ==> trim_spec(s@) =~= ""@);
    }
    same_text(&trim(s), "")
}

/// Checks the name of a new vault.
pub fn parse_vault_name(s: &str) -> (r: Result<String, String>)
    ensures
        checked(r, s@, vault_name_fault(s@)),
{
    let len: usize = s.as_bytes().len();
    if is_blank(s) {
        return Err(copy_text("Vault name cannot be empty or whitespace only"));
    }
    if len > 32 {
        return Err(copy_text("Vault name cannot exceed 32 characters"));
    }
    if !all_ascii(s) {
        return Err(copy_text("Vault name must contain only ASCII"));
    }
    if !all_name_chars(s) {
        return Err(copy_text("Vault name can only contain alphanumeric characters, _, or -"));
    }
    Ok(copy_text(s))
}

/// Checks a path of a vault.
pub fn parse_vault_path(s: &str) -> (r: Result<String, String>)
    ensures
        checked(r, s@, vault_path_fault(s@)),
{
    if s.is_empty() {
        return Err(copy_text("Vault path cannot be empty"));
    }
    if s.as_bytes().len() > 4096 {
        return Err(copy_text("Vault path is too long"));
    }
    Ok(copy_text(s))
}

/// Checks the link of a friend.
pub fn parse_atom_url(s: &str) -> (r: Result<String, String>)
    ensures
        checked(
            r,
            s@,
            if "atom://"@.is_prefix_of(s@) {
                None
            } else {
                Some("Invalid format: Friend links must start with 'atom://'"@)
            },
        ),
{
    if !starts_with(s, "atom://") {
        return Err(copy_text("Invalid format: Friend links must start with 'atom://'"));
    }
    Ok(copy_text(s))
}

// ── Laws ─────────────────────────────────────────────────────────────────────

/// A vault name is accepted exactly where it has one to thirty-two characters, each an ASCII letter
/// or digit, an underscore or a hyphen.
pub proof fn law_accepted_vault_names(s: Seq<char>)
    ensures
        vault_name_fault(s) is None <==> 1 <= s.len() <= 32 && forall|i: int|
            0 <= i < s.len() ==> ('a' <= #[trigger] s[i] && s[i] <= 'z') || ('A' <= s[i] && s[i]
                <= 'Z') || ('0' <= s[i] && s[i] <= '9') || s[i] == '_' || s[i] == '-',
{
    let fine = forall|i: int|
        0 <= i < s.len() ==> ('a' <= #[trigger] s[i] && s[i] <= 'z') || ('A' <= s[i] && s[i] <= 'Z')
            || ('0' <= s[i] && s[i] <= '9') || s[i] == '_' || s[i] == '-';
    if fine {
        assert(is_ascii_text(s));
        lemma_ascii_utf8_len(s);
        let none = Seq::<char>::empty();
        assert(none + s + none =~= s);
        if s.len() > 0 {
            law_trim_takes_white_space_from_the_ends(none, s, none);
        }
    }
    if vault_name_fault(s) is None {
        assert forall|i: int| 0 <= i < s.len() implies ('a' <= #[trigger] s[i] && s[i] <= 'z') || (
        'A' <= s[i] && s[i] <= 'Z') || ('0' <= s[i] && s[i] <= '9') || s[i] == '_' || s[i]
            == '-' by {
            assert(vault_name_char(s[i]));
        }
        lemma_ascii_utf8_len(s);
        if s.len() == 0 {
            let none = Seq::<char>::empty();
            assert(s =~= none);
            assert(none + none + none =~= none);
            law_trim_takes_white_space_from_the_ends(none, none, none);
        }
    }
}

/// A vault path is accepted exactly where it is not empty and has no more than 4096 bytes.
pub proof fn law_accepted_vault_paths(s: Seq<char>)
    ensures
        vault_path_fault(s) is None <==> s.len() > 0 && encode_utf8(s).len() <= 4096,
        s.len() == 0 ==> vault_path_fault(s) == Some("Vault path cannot be empty"@),
        encode_utf8(s).len() > 4096 && s.len() > 0 ==> vault_path_fault(s) == Some(
            "Vault path is too long"@,
        ),
{
}

/// An argument that passes its check is handed on unchanged, and one that does not is refused with
/// the words of the fault.
pub proof fn law_checked_arguments_are_unchanged(
    r: Result<String, String>,
    s: Seq<char>,
    fault: Option<Seq<char>>,
)
    requires
        checked(r, s, fault),
    ensures
        r is Ok <==> fault is None,
        r matches Ok(t) ==> t@ == s,
        r matches Err(w) ==> fault == Some(w@),
{
}

/// Of a name that is refused, the first thing that is wrong is told: that it is empty, too long,
/// not ASCII, or has a character that names do not have.
pub proof fn law_refused_vault_names(s: Seq<char>)
    ensures
        trim_spec(s).len() == 0 ==> vault_name_fault(s) == Some(
            "Vault name cannot be empty or whitespace only"@,
        ),
        trim_spec(s).len() > 0 && encode_utf8(s).len() > 32 ==> vault_name_fault(s) == Some(
            "Vault name cannot exceed 32 characters"@,
        ),
        trim_spec(s).len() > 0 && encode_utf8(s).len() <= 32 && (exists|i: int|
            0 <= i < s.len() && (#[trigger] s[i] as u32) >= 128) ==> vault_name_fault(s) == Some(
            "Vault name must contain only ASCII"@,
        ),
        trim_spec(s).len() > 0 && encode_utf8(s).len() <= 32 && (forall|i: int|
            0 <= i < s.len() ==> (#[trigger] s[i] as u32) < 128) && vault_name_fault(s) is Some
            ==> vault_name_fault(s) == Some(
            "Vault name can only contain alphanumeric characters, _, or -"@,
        ),
{
}

} // verus!
