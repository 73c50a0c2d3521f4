//! Encryption of configuration files at rest.
//!
//! An encrypted file is the five bytes `ATOM\x01`, a nonce of 24 bytes, and the ciphertext with
//! its tag. A file that does not begin with those five bytes was written before files were
//! encrypted and is read as it is.

use crate::bytes::{copy_bytes, push_all, to_array};
use crate::crypto::{generate_32_bytes, generate_xnonce};
use crate::primitives::{aead_open, aead_opened, aead_seal, xchacha_seal, AEAD_MESSAGE_LIMIT};
use vstd::prelude::*;
use vstd::slice::slice_subrange;

verus! {

/// What an encrypted file begins with.
pub const MAGIC: [u8; 5] = [0x41, 0x54, 0x4f, 0x4d, 0x01];

/// The application under which the key is kept.
pub const SERVICE: &'static str = "io.atom_vault.AtomVault";

/// The purpose under which the key is kept.
pub const ACCOUNT: &'static str = "config-encryption-key";

/// Why a configuration file could not be read.
#[derive(Debug, Clone, Copy, PartialEq, Eq, Structural)]
pub enum ConfigError {
    /// The file ends inside the nonce.
    Truncated,
    /// The tag does not hold.
    Mismatch,
}

impl ConfigError {
    /// The words of an error.
    pub open spec fn text(self) -> Seq<char> {
        match self {
            ConfigError::Truncated => "Encrypted config file is truncated — possible data corruption"@,
            ConfigError::Mismatch =>
                "Config decryption failed — corrupted file or keyring key mismatch"@,
        }
    }

    /// The words of an error.
    pub fn message(&self) -> (r: &'static str)
        ensures
            r@ == self.text(),
    {
        match self {
            ConfigError::Truncated => "Encrypted config file is truncated — possible data corruption",
            ConfigError::Mismatch =>
                "Config decryption failed — corrupted file or keyring key mismatch",
        }
    }
}

/// An encrypted file.
pub open spec fn config_blob(key: Seq<u8>, nonce: Seq<u8>, plaintext: Seq<u8>) -> Seq<u8> {
    MAGIC@ + nonce + xchacha_seal(key, nonce, Seq::empty(), plaintext)
}

/// What a configuration file holds.
pub open spec fn config_content(key: Seq<u8>, data: Seq<u8>) -> Result<Seq<u8>, ConfigError> {
    if !MAGIC@.is_prefix_of(data) {
        Ok(data)
    } else if data.len() < 29 {
        Err(ConfigError::Truncated)
    } else {
        match aead_opened(
            key,
            data.subrange(5, 29),
            Seq::empty(),
            data.subrange(29, data.len() as int),
        ) {
            Some(p) => Ok(p),
            None => Err(ConfigError::Mismatch),
        }
    }
}

/// Encrypts a configuration file with a given nonce. Reading it under the same key gives the
/// content back.
pub fn encrypt_config_with(key: &[u8; 32], nonce: &[u8; 24], plaintext: &[u8]) -> (r: Vec<u8>)
    requires
        plaintext@.len() < AEAD_MESSAGE_LIMIT,
    ensures
        r@ == config_blob(key@, nonce@, plaintext@),
        r@.len() == plaintext@.len() + 45,
        config_content(key@, r@) == Ok::<Seq<u8>, ConfigError>(plaintext@),
{
    let aad: Vec<u8> = Vec::new();
    assert(aad@ =~= Seq::empty());
    let ciphertext: Vec<u8> = match aead_seal(key, nonce, &aad, plaintext) {
        Ok(c) => c,
        Err(_) => Vec::new(),
    };
    let mut out: Vec<u8> = Vec::new();
    push_all(&mut out, &MAGIC);
    push_all(&mut out, nonce);
    push_all(&mut out, &ciphertext);
    proof {
        assert(out@.subrange(5, 29) =~= nonce@);
        assert(out@.subrange(29, out@.len() as int) =~= ciphertext@);
        assert(MAGIC@.is_prefix_of(out@)) by {
            assert(out@.subrange(0, 5) =~= MAGIC@);
        }
    }
    out
}

/// Encrypts a configuration file under a fresh nonce. Reading it under the same key gives the
/// content back.
pub fn encrypt_config(key: &[u8; 32], plaintext: &[u8]) -> (r: Vec<u8>)
    requires
        plaintext@.len() < AEAD_MESSAGE_LIMIT,
    ensures
        config_content(key@, r@) == Ok::<Seq<u8>, ConfigError>(plaintext@),
        exists|nonce: Seq<u8>|
            nonce.len() == 24 && r@ == #[trigger] config_blob(key@, nonce, plaintext@),
        r@.len() == plaintext@.len() + 45,
{
    let nonce: [u8; 24] = generate_xnonce();
    let r: Vec<u8> = encrypt_config_with(key, &nonce, plaintext);
    assert(r@ == config_blob(key@, nonce@, plaintext@));
    r
}

/// Reads a configuration file. An encrypted file is longer than what it holds by the magic, the
/// nonce and the tag, so one that has no room for these is an error.
pub fn decrypt_config(key: &[u8; 32], data: &[u8]) -> (r: Result<Vec<u8>, ConfigError>)
    ensures
        match config_content(key@, data@) {
            Ok(p) => r matches Ok(v) && v@ == p,
            Err(e) => r == Err::<Vec<u8>, ConfigError>(e),
        },
        MAGIC@.is_prefix_of(data@) ==> (r matches Ok(p) ==> data@.len() == p@.len() + 45),
        MAGIC@.is_prefix_of(data@) && 29 <= data@.len() < 45 ==> r == Err::<Vec<u8>, ConfigError>(
            ConfigError::Mismatch,
        ),
{
    if !begins_with_magic(data) {
        return Ok(copy_bytes(data));
    }
    if data.len() < 29 {
        return Err(ConfigError::Truncated);
    }
    let nonce: [u8; 24] = to_array(slice_subrange(data, 5, 29));
    let ciphertext: &[u8] = slice_subrange(data, 29, data.len());
    let aad: Vec<u8> = Vec::new();
    assert(aad@ =~= Seq::empty());
    match aead_open(key, &nonce, &aad, ciphertext) {
        Ok(p) => Ok(p),
        Err(_) => Err(ConfigError::Mismatch),
    }
}

fn begins_with_magic(data: &[u8]) -> (r: bool)
    ensures
        r == MAGIC@.is_prefix_of(data@),
{
    if data.len() < 5 {
        return false;
    }
    let magic: [u8; 5] = MAGIC;
    let mut i: usize = 0;
    while i < 5
        invariant
            i <= 5,
            data@.len() >= 5,
            magic == MAGIC,
            forall|j: int| 0 <= j < i ==> data@[j] == magic@[j],
        decreases 5 - i,
    {
        if data[i] != magic[i] {
            assert(data@.subrange(0, 5)[i as int] != MAGIC@[i as int]);
            return false;
        }
        i = i + 1;
    }
    assert(data@.subrange(0, 5) =~= MAGIC@);
    true
}

/// A file from before files were encrypted is read as it is.
pub proof fn law_plain_files_pass(key: Seq<u8>, data: Seq<u8>)
    requires
        !MAGIC@.is_prefix_of(data),
    ensures
        config_content(key, data) == Ok::<Seq<u8>, ConfigError>(data),
{
}

/// The key that a keyring item holds, where it is one: a secret of 32 bytes.
pub fn stored_key(secret: &[u8]) -> (r: Option<[u8; 32]>)
    ensures
        match r {
            Some(k) => secret@.len() == 32 && k@ == secret@,
            None => secret@.len() != 32,
        },
{
    if secret.len() == 32 {
        Some(to_array(secret))
    } else {
        None
    }
}

/// The configuration key, and whether it must be put into the keyring: the stored one where there
/// is one, and a fresh one otherwise.
pub fn choose_key(secret: &Option<Vec<u8>>) -> (r: ([u8; 32], bool))
    ensures
        match *secret {
            Some(s) => (s@.len() == 32 ==> r.0@ == s@) && r.1 == (s@.len() != 32),
            None => r.1,
        },
{
    match secret {
        Some(s) => match stored_key(s) {
            Some(k) => (k, false),
            None => (generate_32_bytes(), true),
        },
        None => (generate_32_bytes(), true),
    }
}

// ── Laws ─────────────────────────────────────────────────────────────────────

/// An encrypted file is `ATOM`, a one, the nonce, and the content sealed under the key and the
/// nonce; reading it asks the cipher to open what stands behind the nonce.
pub proof fn law_encrypted_files_layout(
    key: Seq<u8>,
    nonce: Seq<u8>,
    plain: Seq<u8>,
    sealed: Seq<u8>,
)
    requires
        nonce.len() == 24,
    ensures
        config_blob(key, nonce, plain) == seq!['A' as u8, 'T' as u8, 'O' as u8, 'M' as u8, 1u8]
            + nonce + xchacha_seal(key, nonce, Seq::empty(), plain),
        config_content(
            key,
            seq!['A' as u8, 'T' as u8, 'O' as u8, 'M' as u8, 1u8] + nonce + sealed,
        ) == match aead_opened(key, nonce, Seq::empty(), sealed) {
            Some(p) => Ok(p),
            None => Err(ConfigError::Mismatch),
        },
{
    let magic = seq!['A' as u8, 'T' as u8, 'O' as u8, 'M' as u8, 1u8];
    assert(MAGIC@ =~= magic);
    let d = magic + nonce + sealed;
    assert(d.subrange(0, 5) =~= magic);
    assert(MAGIC@.is_prefix_of(d));
    assert(d.subrange(5, 29) =~= nonce);
    assert(d.subrange(29, d.len() as int) =~= sealed);
}

/// A file that begins as an encrypted one and ends before its nonce does is told to be truncated,
/// and no other is.
pub proof fn law_truncated_files_are_told(key: Seq<u8>, data: Seq<u8>)
    ensures
        config_content(key, data) == Err::<Seq<u8>, ConfigError>(ConfigError::Truncated) <==> (5
            <= data.len() < 29 && data[0] == 'A' as u8 && data[1] == 'T' as u8 && data[2]
            == 'O' as u8 && data[3] == 'M' as u8 && data[4] == 1),
{
    let magic = seq!['A' as u8, 'T' as u8, 'O' as u8, 'M' as u8, 1u8];
    assert(MAGIC@ =~= magic);
    if data.len() >= 5 {
        let head = data.subrange(0, 5);
        if data[0] == 'A' as u8 && data[1] == 'T' as u8 && data[2] == 'O' as u8 && data[3]
            == 'M' as u8 && data[4] == 1 {
            assert(head =~= magic);
            assert(MAGIC@.is_prefix_of(data));
        } else if MAGIC@.is_prefix_of(data) {
            assert(head[0] == magic[0] && head[1] == magic[1] && head[2] == magic[2] && head[3]
                == magic[3] && head[4] == magic[4]);
        }
    }
}

/// The words of an error say whether the file ends too early or does not open.
pub proof fn law_config_errors_in_words(e: ConfigError)
    ensures
        e is Truncated ==> e.text()
            == "Encrypted config file is truncated — possible data corruption"@,
        e is Mismatch ==> e.text()
            == "Config decryption failed — corrupted file or keyring key mismatch"@,
{
}

} // verus!
