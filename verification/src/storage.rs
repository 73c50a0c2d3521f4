//! The vault file: header, and the metadata at its tail.
//!
//! A vault file is a header of 125 bytes, the chunk blobs, and behind them the encrypted metadata.
//! The first eight bytes of the header, the master pointer, say where the metadata begins, which
//! is also where the payload ends.

use crate::bytes::{
    le, le_value, lemma_le_len, lemma_le_value_of_le, lemma_pow256_values, push_all, push_le,
    read_le, to_array,
};
use crate::crypto::{
    decrypt_chunk, derive_kek, encrypt_chunk, kdf_bytes, kek_of, law_kdf_bytes_injective,
    law_key_is_derived_from_the_typed_password, lemma_kdf_bytes_layout, open_chunk, unwrap_dek,
    unwrapped, CryptoError, KdfError, KdfSettings, UnlockedVault, CHUNK_OVERHEAD, METADATA_FILE_ID,
    VAULT_HEADER_SIZE,
};
use crate::primitives::{
    aead_opened, argon2_fault, argon2id, wipe_array, wipe_bytes, AEAD_MESSAGE_LIMIT,
};
use crate::text::{around, concat, copy_text};
use crate::vfs::{decoded_metadata, metadata_bytes, VaultMetadata};
use vstd::prelude::*;
use vstd::slice::slice_subrange;
use vstd::utf8::encode_utf8;

verus! {

/// No more than this many bytes are read as metadata.
pub const METADATA_READ_LIMIT: usize = 10_485_760;

/// Why an operation on a vault failed.
#[derive(Debug, Clone, Copy, PartialEq, Eq, Structural)]
pub enum VaultError {
    /// No file of that name is in the vault.
    NotFound,
    /// A file of that name is in the vault already.
    AlreadyExists,
    /// The vault file ends before the bytes that are to be read.
    ShortRead,
    /// The header names no known key derivation function.
    UnknownKdf,
    /// The key encryption key could not be derived.
    Kdf(KdfError),
    /// The data key did not unwrap: a wrong password or a damaged header.
    Unwrap,
    /// Metadata could not be encrypted.
    Encrypt(CryptoError),
    /// A chunk did not decrypt.
    Decrypt(CryptoError),
    /// The metadata did not decrypt.
    MetadataDecrypt(CryptoError),
    /// A chunk holds fewer bytes than are recorded for it.
    PlainLength,
    /// The decrypted metadata is not a file table.
    Metadata,
    /// The password is empty or only white space.
    EmptyPassword,
}

impl VaultError {
    /// The words of an error.
    pub open spec fn text(self) -> Seq<char> {
        match self {
            VaultError::NotFound => "File not found in metadata"@,
            VaultError::AlreadyExists => "ALREADY_EXISTS"@,
            VaultError::ShortRead => "failed to fill whole buffer"@,
            VaultError::UnknownKdf => "Unknown KDF algorithm byte in vault header"@,
            VaultError::Kdf(e) => "Argon2 error: \""@ + e.text() + "\""@,
            VaultError::Unwrap => "DEK unwrap error: Error"@,
            VaultError::Encrypt(e) => "Metadata encrypt error: "@ + e.name(),
            VaultError::Decrypt(e) => "Decryption error: "@ + e.name(),
            VaultError::MetadataDecrypt(e) => "Metadata decrypt error: "@ + e.name(),
            VaultError::PlainLength => "chunk is shorter than its recorded length"@,
            VaultError::Metadata => "Metadata is damaged"@,
            VaultError::EmptyPassword => "Password cannot be empty or contain only spaces."@,
        }
    }

    /// The words of an error.
    pub fn message(&self) -> (r: String)
        ensures
            r@ == self.text(),
    {
        match self {
            VaultError::NotFound => copy_text("File not found in metadata"),
            VaultError::AlreadyExists => copy_text("ALREADY_EXISTS"),
            VaultError::ShortRead => copy_text("failed to fill whole buffer"),
            VaultError::UnknownKdf => copy_text("Unknown KDF algorithm byte in vault header"),
            VaultError::Kdf(e) => around("Argon2 error: \"", e.message(), "\""),
            VaultError::Unwrap => copy_text("DEK unwrap error: Error"),
            VaultError::Encrypt(e) => concat("Metadata encrypt error: ", e.label()),
            VaultError::Decrypt(e) => concat("Decryption error: ", e.label()),
            VaultError::MetadataDecrypt(e) => concat("Metadata decrypt error: ", e.label()),
            VaultError::PlainLength => copy_text("chunk is shorter than its recorded length"),
            VaultError::Metadata => copy_text("Metadata is damaged"),
            VaultError::EmptyPassword => copy_text(
                "Password cannot be empty or contain only spaces.",
            ),
        }
    }
}

/// Why a vault did not open: which fault it is, and its words. The words are those of the fault,
/// but for metadata that is no file table, where they are the codec's own.
#[derive(Debug, Clone, PartialEq, Eq)]
pub struct OpenError {
    pub fault: VaultError,
    pub words: String,
}

impl OpenError {
    /// The words fit the fault.
    pub open spec fn wf(self) -> bool {
        self.fault !is Metadata ==> self.words@ == self.fault.text()
    }

    /// The error of a fault with its words.
    pub fn new(fault: VaultError) -> (r: OpenError)
        ensures
            r.fault == fault,
            r.words@ == fault.text(),
            r.wf(),
    {
        OpenError { fault, words: fault.message() }
    }
}

// ── Bytes at a place ─────────────────────────────────────────────────────────

/// A file after `b` was written at `off`: longer where the bytes reach past its end, with zeros
/// between its end and `off`.
pub open spec fn write_at_spec(s: Seq<u8>, off: int, b: Seq<u8>) -> Seq<u8> {
    Seq::new(
        if s.len() < off + b.len() {
            (off + b.len()) as nat
        } else {
            s.len()
        },
        |i: int|
            if off <= i < off + b.len() {
                b[i - off]
            } else if i < s.len() {
                s[i]
            } else {
                0
            },
    )
}

/// Writes `b` at `off`.
pub fn write_at(s: &mut Vec<u8>, off: usize, b: &[u8])
    ensures
        final(s)@ == write_at_spec(old(s)@, off as int, b@),
{
    let ghost before = s@;
    if s.len() < off {
        s.resize(off, 0);
    }
    let ghost padded = s@;
    assert(forall|i: int| before.len() <= i < padded.len() ==> padded[i] == 0);
    assert(forall|i: int| 0 <= i < before.len() ==> padded[i] == before[i]) by {
        assert(before.len() < off ==> padded.subrange(0, before.len() as int) == before);
        assert forall|i: int| 0 <= i < before.len() implies padded[i] == before[i] by {
            if before.len() < off {
                assert(padded.subrange(0, before.len() as int)[i] == before[i]);
            }
        }
    }
    let mut i: usize = 0;
    while i < b.len()
        invariant
            i <= b@.len(),
            off <= padded.len(),
            s@.len() == if padded.len() < off + i {
                off + i
            } else {
                padded.len() as int
            },
            forall|k: int| off <= k < off + i ==> s@[k] == b@[k - off],
            forall|k: int| 0 <= k < s@.len() && !(off <= k < off + i) ==> s@[k] == padded[k],
        decreases b@.len() - i,
    {
        let v: u8 = b[i];
        if s.len() - off <= i {
            s.push(v);
        } else {
            s[off + i] = v;
        }
        i = i + 1;
    }
    let ghost want = write_at_spec(before, off as int, b@);
    assert forall|k: int| 0 <= k < off && before.len() <= k implies s@[k] == want[k] by {
        assert(padded.len() == off);
        assert(padded[k] == 0);
        assert(s@[k] == padded[k]);
        assert(want[k] == 0);
    }
    assert(s@ =~= write_at_spec(before, off as int, b@));
}

// ── Header ───────────────────────────────────────────────────────────────────

/// The header of a vault file.
pub struct VaultHeader {
    pub master_pointer: u64,
    pub kdf: KdfSettings,
    pub salt: [u8; 32],
    pub dek_nonce: [u8; 24],
    pub wrapped_dek: [u8; 48],
}

/// The 125 bytes of a header.
pub open spec fn header_bytes(h: VaultHeader) -> Seq<u8> {
    le(h.master_pointer as nat, 8) + kdf_bytes(h.kdf) + h.salt@ + h.dek_nonce@ + h.wrapped_dek@
}

/// Where the parts of a header lie.
pub proof fn lemma_header_layout(h: VaultHeader)
    ensures
        header_bytes(h).len() == VAULT_HEADER_SIZE,
        header_bytes(h).subrange(0, 8) == le(h.master_pointer as nat, 8),
        header_bytes(h).subrange(8, 21) == kdf_bytes(h.kdf),
        header_bytes(h).subrange(21, 53) == h.salt@,
        header_bytes(h).subrange(53, 77) == h.dek_nonce@,
        header_bytes(h).subrange(77, 125) == h.wrapped_dek@,
{
    lemma_le_len(h.master_pointer as nat, 8);
    lemma_kdf_bytes_layout(h.kdf);
    assert(header_bytes(h).subrange(0, 8) =~= le(h.master_pointer as nat, 8));
    assert(header_bytes(h).subrange(8, 21) =~= kdf_bytes(h.kdf));
    assert(header_bytes(h).subrange(21, 53) =~= h.salt@);
    assert(header_bytes(h).subrange(53, 77) =~= h.dek_nonce@);
    assert(header_bytes(h).subrange(77, 125) =~= h.wrapped_dek@);
}

impl VaultHeader {
    /// The 125 bytes of the header.
    pub fn to_bytes(&self) -> (r: Vec<u8>)
        ensures
            r@ == header_bytes(*self),
            r@.len() == VAULT_HEADER_SIZE,
    {
        let mut out: Vec<u8> = Vec::new();
        push_le(&mut out, self.master_pointer, 8);
        push_all(&mut out, self.kdf.to_bytes().as_slice());
        push_all(&mut out, self.salt.as_slice());
        push_all(&mut out, self.dek_nonce.as_slice());
        push_all(&mut out, self.wrapped_dek.as_slice());
        proof {
            lemma_header_layout(*self);
            assert(out@ =~= header_bytes(*self));
        }
        out
    }

    /// Reads the header at the beginning of a vault file.
    pub fn from_bytes(image: &[u8]) -> (r: Result<VaultHeader, VaultError>)
        ensures
            match r {
                Ok(h) => image@.len() >= VAULT_HEADER_SIZE && image@.subrange(0, 125)
                    == header_bytes(h),
                Err(e) => if image@.len() < VAULT_HEADER_SIZE {
                    e == VaultError::ShortRead
                } else {
                    e == VaultError::UnknownKdf && image@[8] > 1
                },
            },
            r is Ok ==> image@[8] <= 1,
    {
        if image.len() < VAULT_HEADER_SIZE as usize {
            return Err(VaultError::ShortRead);
        }
        let kdf_part: [u8; 13] = to_array(slice_subrange(image, 8, 21));
        assert(kdf_part@[0] == image@[8]);
        let kdf: KdfSettings = match KdfSettings::from_bytes(&kdf_part) {
            Ok(k) => k,
            Err(_) => return Err(VaultError::UnknownKdf),
        };
        let pointer: &[u8] = slice_subrange(image, 0, 8);
        let h: VaultHeader = VaultHeader {
            master_pointer: read_le(pointer),
            kdf,
            salt: to_array(slice_subrange(image, 21, 53)),
            dek_nonce: to_array(slice_subrange(image, 53, 77)),
            wrapped_dek: to_array(slice_subrange(image, 77, 125)),
        };
        proof {
            crate::bytes::lemma_le_of_le_value(pointer@);
            lemma_header_layout(h);
            assert(image@.subrange(0, 125) =~= header_bytes(h));
        }
        Ok(h)
    }
}

/// A header that is written and read again is the header that was written.
pub proof fn law_header_bytes_injective(a: VaultHeader, b: VaultHeader)
    ensures
        header_bytes(a) == header_bytes(b) ==> a.master_pointer == b.master_pointer && a.kdf == b.kdf
            && a.salt@ == b.salt@ && a.dek_nonce@ == b.dek_nonce@ && a.wrapped_dek@
            == b.wrapped_dek@,
{
    lemma_header_layout(a);
    lemma_header_layout(b);
    lemma_pow256_values();
    if header_bytes(a) == header_bytes(b) {
        lemma_le_value_of_le(a.master_pointer as nat, 8);
        lemma_le_value_of_le(b.master_pointer as nat, 8);
        law_kdf_bytes_injective(a.kdf, b.kdf);
    }
}

// ── Saving metadata ──────────────────────────────────────────────────────────

/// Bytes with zeros behind them up to a length.
pub open spec fn filled(b: Seq<u8>, len: nat) -> Seq<u8> {
    b + Seq::new((len - b.len()) as nat, |i: int| 0u8)
}

/// `blob` is an encrypted metadata block of `len` bytes that opens to `m`: the bytes of `m`, and
/// zeros behind them.
pub open spec fn is_metadata_blob(
    dek: Seq<u8>,
    blob: Seq<u8>,
    m: (Seq<(Seq<char>, Seq<(usize, u64, Seq<u8>, usize)>, u64)>, Seq<u8>),
    len: nat,
) -> bool {
    &&& metadata_bytes(m).len() <= len
    &&& blob.len() == len + CHUNK_OVERHEAD
    &&& open_chunk(dek, blob, METADATA_FILE_ID@) == Ok::<Seq<u8>, CryptoError>(
        filled(metadata_bytes(m), len),
    )
    &&& decoded_metadata(filled(metadata_bytes(m), len)) == Some(m)
}

/// A file after a metadata block was written at `off` and the master pointer set to it.
pub open spec fn with_metadata(image: Seq<u8>, off: int, blob: Seq<u8>) -> Seq<u8> {
    write_at_spec(write_at_spec(image, off, blob), 0, le(off as nat, 8))
}

/// Encrypts the metadata, filled up with zeros to at least a length, writes it at `payload_offset`
/// and points the header to it.
fn save_filled(
    image: &mut Vec<u8>,
    metadata: &VaultMetadata,
    unlocked_vault: &UnlockedVault,
    payload_offset: u64,
    least: usize,
) -> (r: Result<(), VaultError>)
    requires
        payload_offset <= usize::MAX,
    ensures
        ({
            let bytes = metadata_bytes(metadata@).len();
            let len = if bytes < least {
                least as nat
            } else {
                bytes
            };
            &&& r is Ok <==> len < AEAD_MESSAGE_LIMIT
            &&& r matches Err(e) ==> e == VaultError::Encrypt(CryptoError::Seal) && final(image)@
                == old(image)@
            &&& r is Ok ==> exists|blob: Seq<u8>|
                is_metadata_blob(unlocked_vault.dek@, blob, metadata@, len) && final(image)@
                    == #[trigger] with_metadata(old(image)@, payload_offset as int, blob)
        }),
{
    let mut plain: Vec<u8> = metadata.to_bytes();
    let ghost bytes = plain@;
    if plain.len() < least {
        plain.resize(least, 0);
    }
    let ghost len = plain@.len();
    proof {
        assert forall|i: int| 0 <= i < len implies plain@[i] == filled(bytes, len)[i] by {
            if len > bytes.len() && i < bytes.len() {
                assert(plain@.subrange(0, bytes.len() as int)[i] == bytes[i]);
            }
        }
        assert(plain@ =~= filled(bytes, len));
    }
    let sealed = encrypt_chunk(unlocked_vault, &plain, &METADATA_FILE_ID);
    wipe_bytes(&mut plain);
    let blob: Vec<u8> = match sealed {
        Ok(b) => b,
        Err(e) => return Err(VaultError::Encrypt(e)),
    };
    write_at(image, payload_offset as usize, &blob);
    let mut pointer: Vec<u8> = Vec::new();
    push_le(&mut pointer, payload_offset, 8);
    assert(pointer@ =~= le(payload_offset as nat, 8));
    write_at(image, 0, &pointer);
    assert(is_metadata_blob(unlocked_vault.dek@, blob@, metadata@, len));
    assert(image@ == with_metadata(old(image)@, payload_offset as int, blob@));
    Ok(())
}

/// Encrypts the metadata, writes it at `payload_offset` and points the header to it. It fails,
/// and leaves the file as it is, exactly where the cipher refuses the metadata for its length.
pub fn save_vault_metadata(
    image: &mut Vec<u8>,
    metadata: &VaultMetadata,
    unlocked_vault: &UnlockedVault,
    payload_offset: u64,
) -> (r: Result<(), VaultError>)
    requires
        payload_offset <= usize::MAX,
    ensures
        r is Ok <==> metadata_bytes(metadata@).len() < AEAD_MESSAGE_LIMIT,
        r matches Err(e) ==> e == VaultError::Encrypt(CryptoError::Seal) && final(image)@ == old(image)@,
        r is Ok ==> exists|blob: Seq<u8>|
            is_metadata_blob(
                unlocked_vault.dek@,
                blob,
                metadata@,
                metadata_bytes(metadata@).len(),
            ) && final(image)@ == #[trigger] with_metadata(
                old(image)@,
                payload_offset as int,
                blob,
            ),
{
    save_filled(image, metadata, unlocked_vault, payload_offset, 0)
}

/// The length to which metadata is filled up so that its block at `off` ends no earlier than a file
/// of `file_len` bytes.
pub open spec fn fill_len(file_len: nat, off: int, metadata_len: nat) -> nat {
    if off + metadata_len + CHUNK_OVERHEAD < file_len {
        (file_len - off - CHUNK_OVERHEAD) as nat
    } else {
        metadata_len
    }
}

/// Encrypts the metadata, writes it at `payload_offset` and points the header to it, as
/// `save_vault_metadata` does. Metadata that would end before the file does is filled up with
/// zeros, so that nothing lies behind it and the file keeps its length.
pub fn save_metadata_to_end(
    image: &mut Vec<u8>,
    metadata: &VaultMetadata,
    unlocked_vault: &UnlockedVault,
    payload_offset: u64,
) -> (r: Result<(), VaultError>)
    requires
        payload_offset <= usize::MAX,
    ensures
        ({
            let len = fill_len(
                old(image)@.len(),
                payload_offset as int,
                metadata_bytes(metadata@).len(),
            );
            &&& r is Ok <==> len < AEAD_MESSAGE_LIMIT
            &&& r matches Err(e) ==> e == VaultError::Encrypt(CryptoError::Seal) && final(image)@
                == old(image)@
            &&& r is Ok ==> exists|blob: Seq<u8>|
                is_metadata_blob(unlocked_vault.dek@, blob, metadata@, len) && final(image)@
                    == #[trigger] with_metadata(old(image)@, payload_offset as int, blob)
        }),
{
    let len: usize = image.len();
    let off: usize = payload_offset as usize;
    let least: usize = if off < len && len - off > CHUNK_OVERHEAD {
        len - off - CHUNK_OVERHEAD
    } else {
        0
    };
    save_filled(image, metadata, unlocked_vault, payload_offset, least)
}

// ── Opening a vault ──────────────────────────────────────────────────────────

/// The data key that a password unlocks in a vault file. It depends on the header alone.
pub open spec fn unlock_result(image: Seq<u8>, password: Seq<char>) -> Result<Seq<u8>, VaultError> {
    if image.len() < VAULT_HEADER_SIZE {
        Err(VaultError::ShortRead)
    } else if image[8] > 1 {
        Err(VaultError::UnknownKdf)
    } else {
        let kdf = choose|k: KdfSettings| #[trigger] kdf_bytes(k) == image.subrange(8, 21);
        match kek_of(password, image.subrange(21, 53), kdf) {
            Err(e) => Err(VaultError::Kdf(e)),
            Ok(kek) => match unwrapped(kek, image.subrange(77, 125), image.subrange(53, 77)) {
                None => Err(VaultError::Unwrap),
                Some(dek) => Ok(dek),
            },
        }
    }
}

/// The bytes that are read as metadata from a place.
pub open spec fn metadata_region(image: Seq<u8>, pointer: int) -> Seq<u8> {
    if pointer >= image.len() {
        Seq::empty()
    } else if image.len() - pointer > METADATA_READ_LIMIT {
        image.subrange(pointer, pointer + METADATA_READ_LIMIT)
    } else {
        image.subrange(pointer, image.len() as int)
    }
}

/// What opening a vault file with a password gives: metadata, data key, and the end of the
/// payload.
pub open spec fn load_result(image: Seq<u8>, password: Seq<char>) -> Result<
    ((Seq<(Seq<char>, Seq<(usize, u64, Seq<u8>, usize)>, u64)>, Seq<u8>), Seq<u8>, nat),
    VaultError,
> {
    match unlock_result(image, password) {
        Err(e) => Err(e),
        Ok(dek) => {
            let pointer = le_value(image.subrange(0, 8));
            match open_chunk(dek, metadata_region(image, pointer as int), METADATA_FILE_ID@) {
                Err(e) => Err(VaultError::MetadataDecrypt(e)),
                Ok(plain) => match decoded_metadata(plain) {
                    None => Err(VaultError::Metadata),
                    Some(m) => Ok((m, dek, pointer)),
                },
            }
        },
    }
}

/// Opens a vault file: derives the key from the password, unwraps the data key, and decrypts the
/// metadata that the master pointer points to. The payload ends where the metadata begins.
pub fn load_vault_metadata(image: &[u8], password: &str) -> (r: Result<
    (VaultMetadata, UnlockedVault, u64),
    OpenError,
>)
    ensures
        r matches Ok((m, v, off)) ==> load_result(image@, password@) == Ok::<
            ((Seq<(Seq<char>, Seq<(usize, u64, Seq<u8>, usize)>, u64)>, Seq<u8>), Seq<u8>, nat),
            VaultError,
        >((m@, v.dek@, off as nat)),
        r matches Err(e) ==> load_result(image@, password@) == Err::<
            ((Seq<(Seq<char>, Seq<(usize, u64, Seq<u8>, usize)>, u64)>, Seq<u8>), Seq<u8>, nat),
            VaultError,
        >(e.fault) && e.wf(),
        r matches Ok((m, v, off)) ==> VAULT_HEADER_SIZE <= image@.len() && off < image@.len(),
{
    let h: VaultHeader = match VaultHeader::from_bytes(image) {
        Ok(h) => h,
        Err(e) => return Err(OpenError::new(e)),
    };
    proof {
        lemma_header_layout(h);
        let head = image@.subrange(0, 125);
        assert(head.subrange(8, 21) =~= image@.subrange(8, 21));
        assert(head.subrange(21, 53) =~= image@.subrange(21, 53));
        assert(head.subrange(53, 77) =~= image@.subrange(53, 77));
        assert(head.subrange(77, 125) =~= image@.subrange(77, 125));
        assert(head.subrange(0, 8) =~= image@.subrange(0, 8));
        let kdf = choose|k: KdfSettings| #[trigger] kdf_bytes(k) == image@.subrange(8, 21);
        assert(kdf_bytes(h.kdf) == image@.subrange(8, 21));
        law_kdf_bytes_injective(kdf, h.kdf);
        lemma_pow256_values();
        lemma_le_value_of_le(h.master_pointer as nat, 8);
    }
    let mut kek: [u8; 32] = match derive_kek(password, &h.salt, &h.kdf) {
        Ok(k) => k,
        Err(e) => return Err(OpenError::new(VaultError::Kdf(e))),
    };
    let opened = unwrap_dek(&kek, h.wrapped_dek.as_slice(), &h.dek_nonce);
    wipe_array(&mut kek);
    let unlocked: UnlockedVault = match opened {
        Ok(v) => v,
        Err(_) => return Err(OpenError::new(VaultError::Unwrap)),
    };
    let len: usize = image.len();
    let start: usize = if h.master_pointer >= len as u64 {
        len
    } else {
        h.master_pointer as usize
    };
    let end: usize = if len - start > METADATA_READ_LIMIT {
        start + METADATA_READ_LIMIT
    } else {
        len
    };
    let region: &[u8] = slice_subrange(image, start, end);
    assert(region@ =~= metadata_region(image@, h.master_pointer as int));
    let mut plain: Vec<u8> = match decrypt_chunk(&unlocked, region, &METADATA_FILE_ID) {
        Ok(p) => p,
        Err(e) => return Err(OpenError::new(VaultError::MetadataDecrypt(e))),
    };
    let decoded = VaultMetadata::from_bytes(&plain);
    wipe_bytes(&mut plain);
    match decoded {
        Ok(m) => Ok((m, unlocked, h.master_pointer)),
        Err(words) => Err(OpenError { fault: VaultError::Metadata, words }),
    }
}

/// A vault unlocks by its header alone: a file with the same bytes behind the master pointer and
/// before the payload unlocks to the same data key.
pub proof fn lemma_unlock_by_header(a: Seq<u8>, b: Seq<u8>, password: Seq<char>)
    requires
        a.len() >= VAULT_HEADER_SIZE,
        b.len() >= VAULT_HEADER_SIZE,
        forall|i: int| 8 <= i < 125 ==> a[i] == b[i],
    ensures
        unlock_result(a, password) == unlock_result(b, password),
{
    assert(a.subrange(8, 21) =~= b.subrange(8, 21));
    assert(a.subrange(21, 53) =~= b.subrange(21, 53));
    assert(a.subrange(53, 77) =~= b.subrange(53, 77));
    assert(a.subrange(77, 125) =~= b.subrange(77, 125));
}

/// What is saved is what is loaded: after metadata was written behind the header, over whatever
/// the file held from there on, the password that unlocks the vault opens it to that metadata and
/// to the place it was written at.
pub proof fn law_load_after_save(
    image: Seq<u8>,
    password: Seq<char>,
    dek: Seq<u8>,
    off: nat,
    blob: Seq<u8>,
    m: (Seq<(Seq<char>, Seq<(usize, u64, Seq<u8>, usize)>, u64)>, Seq<u8>),
    len: nat,
)
    requires
        unlock_result(image, password) == Ok::<Seq<u8>, VaultError>(dek),
        is_metadata_blob(dek, blob, m, len),
        VAULT_HEADER_SIZE <= off <= u64::MAX,
        image.len() <= off + blob.len(),
        blob.len() <= METADATA_READ_LIMIT,
    ensures
        load_result(with_metadata(image, off as int, blob), password) == Ok::<
            ((Seq<(Seq<char>, Seq<(usize, u64, Seq<u8>, usize)>, u64)>, Seq<u8>), Seq<u8>, nat),
            VaultError,
        >((m, dek, off)),
{
    let new = with_metadata(image, off as int, blob);
    lemma_le_len(off, 8);
    lemma_pow256_values();
    lemma_le_value_of_le(off, 8);
    lemma_unlock_by_header(image, new, password);
    assert(new.len() == off + blob.len());
    assert(new.subrange(0, 8) =~= le(off, 8));
    assert(new.subrange(off as int, new.len() as int) =~= blob);
}

// ── Laws ─────────────────────────────────────────────────────────────────────

/// What was written is read back from its place, everything before and behind it stays as it was,
/// and a gap between the end of the file and the place is filled with zeros.
pub proof fn law_writing_changes_its_place_alone(s: Seq<u8>, off: int, b: Seq<u8>, i: int)
    requires
        0 <= off,
    ensures
        write_at_spec(s, off, b).len() == if s.len() < off + b.len() {
            off + b.len()
        } else {
            s.len() as int
        },
        write_at_spec(s, off, b).subrange(off, off + b.len()) == b,
        !(off <= i < off + b.len()) && 0 <= i < s.len() ==> write_at_spec(s, off, b)[i] == s[i],
        s.len() <= i < off ==> write_at_spec(s, off, b)[i] == 0,
{
    assert(write_at_spec(s, off, b).subrange(off, off + b.len()) =~= b);
}

/// The header is 125 bytes: eight of the master pointer, thirteen of the settings, thirty-two of
/// the salt, twenty-four of the nonce and forty-eight of the wrapped data key.
pub proof fn law_header_in_its_places(h: VaultHeader)
    ensures
        header_bytes(h).len() == 125,
        le_value(header_bytes(h).subrange(0, 8)) == h.master_pointer,
        header_bytes(h)[8] == (if h.kdf.choice is Argon2id {
            0u8
        } else {
            1u8
        }),
        le_value(header_bytes(h).subrange(9, 13)) == h.kdf.memory_kib,
        le_value(header_bytes(h).subrange(13, 17)) == h.kdf.iterations,
        le_value(header_bytes(h).subrange(17, 21)) == h.kdf.parallelism,
        header_bytes(h).subrange(21, 53) == h.salt@,
        header_bytes(h).subrange(53, 77) == h.dek_nonce@,
        header_bytes(h).subrange(77, 125) == h.wrapped_dek@,
{
    lemma_header_layout(h);
    lemma_kdf_bytes_layout(h.kdf);
    lemma_pow256_values();
    lemma_le_value_of_le(h.master_pointer as nat, 8);
    lemma_le_value_of_le(h.kdf.memory_kib as nat, 4);
    lemma_le_value_of_le(h.kdf.iterations as nat, 4);
    lemma_le_value_of_le(h.kdf.parallelism as nat, 4);
    let b = header_bytes(h);
    let k = kdf_bytes(h.kdf);
    assert(b[8] == b.subrange(8, 21)[0]);
    assert(b.subrange(9, 13) =~= b.subrange(8, 21).subrange(1, 5));
    assert(b.subrange(13, 17) =~= b.subrange(8, 21).subrange(5, 9));
    assert(b.subrange(17, 21) =~= b.subrange(8, 21).subrange(9, 13));
}

/// A password unlocks the wrapped data key of the header, under its nonce, with the key that the
/// settings and the salt of the same header derive from it; nothing behind the header matters.
pub proof fn law_password_unlocks_the_header(h: VaultHeader, rest: Seq<u8>, password: Seq<char>)
    ensures
        unlock_result(header_bytes(h) + rest, password) == match kek_of(password, h.salt@, h.kdf) {
            Err(e) => Err(VaultError::Kdf(e)),
            Ok(kek) => match aead_opened(kek, h.dek_nonce@, Seq::empty(), h.wrapped_dek@) {
                Some(dek) => if dek.len() == 32 {
                    Ok(dek)
                } else {
                    Err(VaultError::Unwrap)
                },
                None => Err(VaultError::Unwrap),
            },
        },
        h.kdf.choice is Argon2id && argon2_fault(
            h.kdf.memory_kib,
            h.kdf.iterations,
            h.kdf.parallelism,
            encode_utf8(password).len(),
        ) is None ==> (unlock_result(header_bytes(h) + rest, password) matches Ok(dek)
            ==> aead_opened(
            argon2id(
                encode_utf8(password),
                h.salt@,
                h.kdf.memory_kib,
                h.kdf.iterations,
                h.kdf.parallelism,
            ),
            h.dek_nonce@,
            Seq::empty(),
            h.wrapped_dek@,
        ) == Some(dek)),
{
    let image = header_bytes(h) + rest;
    lemma_header_layout(h);
    lemma_kdf_bytes_layout(h.kdf);
    law_header_in_its_places(h);
    law_key_is_derived_from_the_typed_password(password, h.salt@, h.kdf);
    assert(image[8] == header_bytes(h)[8]);
    assert(image.subrange(8, 21) =~= header_bytes(h).subrange(8, 21));
    assert(image.subrange(21, 53) =~= header_bytes(h).subrange(21, 53));
    assert(image.subrange(53, 77) =~= header_bytes(h).subrange(53, 77));
    assert(image.subrange(77, 125) =~= header_bytes(h).subrange(77, 125));
    let kdf = choose|k: KdfSettings| #[trigger] kdf_bytes(k) == image.subrange(8, 21);
    assert(kdf_bytes(h.kdf) == image.subrange(8, 21));
    law_kdf_bytes_injective(kdf, h.kdf);
}

/// A file without room for a header, or whose header names no key derivation function, unlocks with
/// no password.
pub proof fn law_damaged_header_unlocks_nothing(image: Seq<u8>, password: Seq<char>)
    ensures
        image.len() < 125 ==> unlock_result(image, password) == Err::<Seq<u8>, VaultError>(
            VaultError::ShortRead,
        ),
        image.len() >= 125 && image[8] > 1 ==> unlock_result(image, password) == Err::<
            Seq<u8>,
            VaultError,
        >(VaultError::UnknownKdf),
{
}

/// Metadata that is filled up begins with itself and goes on with zeros.
pub proof fn law_filling_adds_zeros(b: Seq<u8>, len: nat)
    requires
        b.len() <= len,
    ensures
        filled(b, len).len() == len,
        filled(b, len).subrange(0, b.len() as int) == b,
        forall|i: int| b.len() <= i < len ==> #[trigger] filled(b, len)[i] == 0,
{
    assert(filled(b, len).subrange(0, b.len() as int) =~= b);
}

/// After the metadata was written, the first eight bytes point to it, it stands there, and of the
/// rest of the file nothing has changed.
pub proof fn law_saving_points_to_the_metadata(image: Seq<u8>, off: int, blob: Seq<u8>, i: int)
    requires
        8 <= off <= u64::MAX,
    ensures
        le_value(with_metadata(image, off, blob).subrange(0, 8)) == off,
        with_metadata(image, off, blob).subrange(off, off + blob.len()) == blob,
        8 <= i < image.len() && !(off <= i < off + blob.len()) ==> with_metadata(
            image,
            off,
            blob,
        )[i] == image[i],
        with_metadata(image, off, blob).len() == if image.len() < off + blob.len() {
            off + blob.len()
        } else {
            image.len() as int
        },
{
    let new = with_metadata(image, off, blob);
    lemma_le_len(off as nat, 8);
    lemma_pow256_values();
    lemma_le_value_of_le(off as nat, 8);
    assert(new.subrange(0, 8) =~= le(off as nat, 8));
    assert(new.subrange(off, off + blob.len()) =~= blob);
}

/// Metadata is filled up as far as is needed for its block to reach the end of the file, and no
/// further.
pub proof fn law_filling_reaches_the_end(file_len: nat, off: int, metadata_len: nat)
    requires
        0 <= off,
    ensures
        fill_len(file_len, off, metadata_len) >= metadata_len,
        off + fill_len(file_len, off, metadata_len) + 59 >= file_len,
        fill_len(file_len, off, metadata_len) > metadata_len ==> off + fill_len(
            file_len,
            off,
            metadata_len,
        ) + 59 == file_len,
{
}

/// What is read as metadata begins where the pointer points and goes on to the end of the file, or
/// to the ten mebibytes that are read at most.
pub proof fn law_metadata_is_read_from_the_pointer(image: Seq<u8>, pointer: int)
    requires
        0 <= pointer,
    ensures
        pointer >= image.len() ==> metadata_region(image, pointer).len() == 0,
        pointer < image.len() ==> metadata_region(image, pointer).len() == if image.len() - pointer
            < 10 * 1024 * 1024 {
            image.len() - pointer
        } else {
            10 * 1024 * 1024int
        },
        pointer < image.len() ==> metadata_region(image, pointer) == image.subrange(
            pointer,
            pointer + metadata_region(image, pointer).len(),
        ),
{
}

/// A vault opens to the data key that its password unlocks, to the place that its first eight bytes
/// give, and to the metadata that is read from there and opened under that key.
pub proof fn law_opening_follows_the_pointer(image: Seq<u8>, password: Seq<char>)
    ensures
        load_result(image, password) matches Ok((m, dek, end)) ==> {
            &&& unlock_result(image, password) == Ok::<Seq<u8>, VaultError>(dek)
            &&& end == le_value(image.subrange(0, 8))
            &&& open_chunk(dek, metadata_region(image, end as int), METADATA_FILE_ID@) matches Ok(
                plain,
            ) && decoded_metadata(plain) == Some(m)
        },
        unlock_result(image, password) matches Err(e) ==> load_result(image, password) == Err::<
            ((Seq<(Seq<char>, Seq<(usize, u64, Seq<u8>, usize)>, u64)>, Seq<u8>), Seq<u8>, nat),
            VaultError,
        >(e),
        unlock_result(image, password) matches Ok(dek) ==> (load_result(image, password) is Ok <==> {
            let end = le_value(image.subrange(0, 8));
            open_chunk(dek, metadata_region(image, end as int), METADATA_FILE_ID@) matches Ok(plain)
                && decoded_metadata(plain) is Some
        }),
        unlock_result(image, password) matches Ok(dek) ==> (open_chunk(
            dek,
            metadata_region(image, le_value(image.subrange(0, 8)) as int),
            METADATA_FILE_ID@,
        ) matches Err(e) ==> load_result(image, password) == Err::<
            ((Seq<(Seq<char>, Seq<(usize, u64, Seq<u8>, usize)>, u64)>, Seq<u8>), Seq<u8>, nat),
            VaultError,
        >(VaultError::MetadataDecrypt(e))),
        unlock_result(image, password) matches Ok(dek) ==> (open_chunk(
            dek,
            metadata_region(image, le_value(image.subrange(0, 8)) as int),
            METADATA_FILE_ID@,
        ) matches Ok(plain) ==> decoded_metadata(plain) is None ==> load_result(image, password)
            == Err::<
            ((Seq<(Seq<char>, Seq<(usize, u64, Seq<u8>, usize)>, u64)>, Seq<u8>), Seq<u8>, nat),
            VaultError,
        >(VaultError::Metadata)),
{
}

/// The words of an error on a vault say which it is, and those of a key derivation or of the cipher
/// hold what these say.
pub proof fn law_vault_errors_in_words(e: VaultError)
    ensures
        match e {
            VaultError::NotFound => e.text() == "File not found in metadata"@,
            VaultError::AlreadyExists => e.text() == "ALREADY_EXISTS"@,
            VaultError::ShortRead => e.text() == "failed to fill whole buffer"@,
            VaultError::UnknownKdf => e.text() == "Unknown KDF algorithm byte in vault header"@,
            VaultError::Kdf(f) => e.text() == "Argon2 error: \""@ + f.text() + "\""@,
            VaultError::Unwrap => e.text() == "DEK unwrap error: Error"@,
            VaultError::Encrypt(f) => e.text() == "Metadata encrypt error: "@ + f.name(),
            VaultError::Decrypt(f) => e.text() == "Decryption error: "@ + f.name(),
            VaultError::MetadataDecrypt(f) => e.text() == "Metadata decrypt error: "@ + f.name(),
            VaultError::PlainLength => e.text() == "chunk is shorter than its recorded length"@,
            VaultError::Metadata => e.text() == "Metadata is damaged"@,
            VaultError::EmptyPassword => e.text()
                == "Password cannot be empty or contain only spaces."@,
        },
{
}

/// The metadata is opened under an identifier of its own, `atom-vault-meta1`.
pub proof fn law_identifier_of_the_metadata(image: Seq<u8>, password: Seq<char>)
    ensures
        load_result(image, password) matches Ok((m, dek, end)) ==> open_chunk(
            dek,
            metadata_region(image, end as int),
            seq![
                'a' as u8,
                't' as u8,
                'o' as u8,
                'm' as u8,
                '-' as u8,
                'v' as u8,
                'a' as u8,
                'u' as u8,
                'l' as u8,
                't' as u8,
                '-' as u8,
                'm' as u8,
                'e' as u8,
                't' as u8,
                'a' as u8,
                '1' as u8,
            ],
        ) is Ok,
{
    assert(METADATA_FILE_ID@ =~= seq![
                'a' as u8,
                't' as u8,
                'o' as u8,
                'm' as u8,
                '-' as u8,
                'v' as u8,
                'a' as u8,
                'u' as u8,
                'l' as u8,
                't' as u8,
                '-' as u8,
                'm' as u8,
                'e' as u8,
                't' as u8,
                'a' as u8,
                '1' as u8,
            ]);
}

} // verus!
