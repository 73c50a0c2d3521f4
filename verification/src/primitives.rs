//! The outside cryptography, randomness and clocks that the library calls.

use argon2::{Algorithm, Argon2, Error as Argon2Error, Params as Argon2Params, Version};
use chacha20poly1305::aead::{Aead, KeyInit, Payload};
use chacha20poly1305::{Key, XChaCha20Poly1305, XNonce};
use hkdf::Hkdf;
use rand::rngs::OsRng;
use rand::RngCore;
use sha2::{Digest, Sha256};
use sha3::Sha3_256;
use vstd::arithmetic::power2::pow2;
use vstd::prelude::*;
use zeroize::Zeroize;

verus! {

// ── Outside types ────────────────────────────────────────────────────────────

/// The error of an HKDF expansion that is too long.
#[verifier::external_type_specification]
#[verifier::external_body]
pub struct ExHkdfLength(hkdf::InvalidLength);

/// The error of scrypt parameters.
#[verifier::external_type_specification]
#[verifier::external_body]
pub struct ExScryptParams(scrypt::errors::InvalidParams);

/// A point in time.
#[verifier::external_type_specification]
#[verifier::external_body]
pub struct ExInstant(std::time::Instant);

// ── XChaCha20-Poly1305 ───────────────────────────────────────────────────────

/// The smallest message length that the cipher has no key stream for: 64 bytes for each value of
/// its block counter but two, and one more.
pub const AEAD_MESSAGE_LIMIT: u64 = 274_877_906_817;

/// The smallest length of a message with its tag that is too long to open.
pub const AEAD_SEALED_LIMIT: u64 = 274_877_906_833;

/// What XChaCha20-Poly1305 makes of a message: the ciphertext followed by the tag.
pub uninterp spec fn xchacha_seal(key: Seq<u8>, nonce: Seq<u8>, aad: Seq<u8>, msg: Seq<u8>) -> Seq<
    u8,
>;

/// What XChaCha20-Poly1305 makes of a ciphertext with its tag: the message, or nothing where the
/// tag does not hold.
pub uninterp spec fn xchacha_open(key: Seq<u8>, nonce: Seq<u8>, aad: Seq<u8>, sealed: Seq<u8>) -> Option<
    Seq<u8>,
>;

/// `XChaCha20Poly1305::encrypt` of a message that the key stream suffices for, which it never
/// refuses. The result is 16 bytes longer than the message, and decrypting it under the same key,
/// nonce and associated data gives the message back. A longer message is left out: the cipher may
/// stop on it.
#[verifier::external_body]
fn xchacha_encrypt(key: &[u8; 32], nonce: &[u8; 24], aad: &[u8], msg: &[u8]) -> (r: Result<
    Vec<u8>,
    (),
>)
    requires
        msg@.len() < AEAD_MESSAGE_LIMIT,
    ensures
        r is Ok,
        r matches Ok(c) ==> c@ == xchacha_seal(key@, nonce@, aad@, msg@),
        r matches Ok(c) ==> c@.len() == msg@.len() + 16,
        r matches Ok(c) ==> xchacha_open(key@, nonce@, aad@, c@) == Some(msg@),
{
    let cipher = XChaCha20Poly1305::new(&Key::from(*key));
    cipher.encrypt(&XNonce::from(*nonce), Payload { msg, aad }).map_err(|_| ())
}

/// `XChaCha20Poly1305::decrypt`. It succeeds exactly where the tag holds; the message is 16 bytes
/// shorter than what was sealed. What is longer than a message with its tag can be is left out:
/// the cipher may stop on it.
#[verifier::external_body]
fn xchacha_decrypt(key: &[u8; 32], nonce: &[u8; 24], aad: &[u8], sealed: &[u8]) -> (r: Result<
    Vec<u8>,
    (),
>)
    requires
        sealed@.len() < AEAD_SEALED_LIMIT,
    ensures
        r matches Ok(m) ==> xchacha_open(key@, nonce@, aad@, sealed@) == Some(m@),
        r is Err ==> xchacha_open(key@, nonce@, aad@, sealed@) is None,
        r matches Ok(m) ==> sealed@.len() == m@.len() + 16,
{
    let cipher = XChaCha20Poly1305::new(&Key::from(*key));
    cipher.decrypt(&XNonce::from(*nonce), Payload { msg: sealed, aad }).map_err(|_| ())
}

/// What a ciphertext with its tag opens to, where it is not too long and the tag holds.
pub open spec fn aead_opened(key: Seq<u8>, nonce: Seq<u8>, aad: Seq<u8>, sealed: Seq<u8>) -> Option<
    Seq<u8>,
> {
    if sealed.len() < AEAD_SEALED_LIMIT {
        xchacha_open(key, nonce, aad, sealed)
    } else {
        None
    }
}

/// Seals a message. It fails exactly on a message of `AEAD_MESSAGE_LIMIT` bytes or more; what is
/// sealed opens to the message.
pub(crate) fn aead_seal(key: &[u8; 32], nonce: &[u8; 24], aad: &[u8], msg: &[u8]) -> (r: Result<
    Vec<u8>,
    (),
>)
    ensures
        r is Ok <==> msg@.len() < AEAD_MESSAGE_LIMIT,
        r matches Ok(c) ==> c@ == xchacha_seal(key@, nonce@, aad@, msg@),
        r matches Ok(c) ==> c@.len() == msg@.len() + 16,
        r matches Ok(c) ==> aead_opened(key@, nonce@, aad@, c@) == Some(msg@),
{
    if msg.len() as u64 >= AEAD_MESSAGE_LIMIT {
        return Err(());
    }
    xchacha_encrypt(key, nonce, aad, msg)
}

/// Opens a ciphertext with its tag. It succeeds exactly where the tag holds and the ciphertext is
/// not too long.
pub(crate) fn aead_open(key: &[u8; 32], nonce: &[u8; 24], aad: &[u8], sealed: &[u8]) -> (r: Result<
    Vec<u8>,
    (),
>)
    ensures
        r matches Ok(m) ==> aead_opened(key@, nonce@, aad@, sealed@) == Some(m@),
        r is Err ==> aead_opened(key@, nonce@, aad@, sealed@) is None,
        r matches Ok(m) ==> sealed@.len() == m@.len() + 16,
{
    if sealed.len() as u64 >= AEAD_SEALED_LIMIT {
        return Err(());
    }
    xchacha_decrypt(key, nonce, aad, sealed)
}

// ── Hashes and key derivation ────────────────────────────────────────────────

/// The 32 bytes that HKDF with SHA-256 derives from key material, a salt and a context.
pub uninterp spec fn hkdf_sha256(salt: Option<Seq<u8>>, ikm: Seq<u8>, info: Seq<u8>) -> Seq<u8>;

/// The bytes of an optional slice.
pub open spec fn optional_bytes(s: Option<&[u8]>) -> Option<Seq<u8>> {
    match s {
        Some(b) => Some(b@),
        None => None,
    }
}

/// `Hkdf::<Sha256>::new` followed by `expand` to 32 bytes, a length that it never refuses.
#[verifier::external_body]
pub(crate) fn hkdf_expand_32(salt: Option<&[u8]>, ikm: &[u8], info: &[u8]) -> (r: Result<
    [u8; 32],
    hkdf::InvalidLength,
>)
    ensures
        r is Ok,
        r matches Ok(k) ==> k@ == hkdf_sha256(optional_bytes(salt), ikm@, info@),
{
    let mut okm = [0u8; 32];
    Hkdf::<Sha256>::new(salt, ikm).expand(info, &mut okm)?;
    Ok(okm)
}

/// The SHA-256 digest of a byte sequence.
pub uninterp spec fn sha256(data: Seq<u8>) -> Seq<u8>;

/// `Sha256::digest`.
#[verifier::external_body]
pub(crate) fn sha256_digest(data: &[u8]) -> (r: [u8; 32])
    ensures
        r@ == sha256(data@),
{
    Sha256::digest(data).into()
}

/// The SHA3-256 digest of a byte sequence.
pub uninterp spec fn sha3_256(data: Seq<u8>) -> Seq<u8>;

/// `Sha3_256::digest`.
#[verifier::external_body]
pub(crate) fn sha3_256_digest(data: &[u8]) -> (r: [u8; 32])
    ensures
        r@ == sha3_256(data@),
{
    Sha3_256::digest(data).into()
}

/// The 32 bytes that Argon2id, version 0x13, derives from a password and a salt with the given
/// memory in KiB, number of passes and number of lanes.
pub uninterp spec fn argon2id(
    password: Seq<u8>,
    salt: Seq<u8>,
    memory_kib: u32,
    passes: u32,
    lanes: u32,
) -> Seq<u8>;

/// Why Argon2 refuses its parameters or a password.
#[derive(Debug, Clone, Copy, PartialEq, Eq, Structural)]
pub enum Argon2Fault {
    MemoryTooLittle,
    TimeTooSmall,
    ThreadsTooFew,
    ThreadsTooMany,
    PwdTooLong,
    /// A fault that fixed lengths of salt and key rule out.
    Other,
}

/// What Argon2 finds wrong first: less than eight blocks of memory for each lane, no pass, no lane,
/// more than 2^24 - 1 lanes, or a password of 2^32 bytes or more.
pub open spec fn argon2_fault(
    memory_kib: u32,
    passes: u32,
    lanes: u32,
    password_len: nat,
) -> Option<Argon2Fault> {
    if memory_kib < 8 || memory_kib < 8 * lanes {
        Some(Argon2Fault::MemoryTooLittle)
    } else if passes < 1 {
        Some(Argon2Fault::TimeTooSmall)
    } else if lanes < 1 {
        Some(Argon2Fault::ThreadsTooFew)
    } else if lanes > 0xff_ffff {
        Some(Argon2Fault::ThreadsTooMany)
    } else if password_len > 0xffff_ffff {
        Some(Argon2Fault::PwdTooLong)
    } else {
        None
    }
}

/// `Params::new` followed by `Argon2::hash_password_into` for 32 bytes. It fails exactly where
/// Argon2 finds a fault, and names the first. A number of lanes whose eightfold leaves 32 bits is
/// left out: the check on it would overflow.
#[verifier::external_body]
pub(crate) fn argon2id_key(
    password: &[u8],
    salt: &[u8; 32],
    memory_kib: u32,
    passes: u32,
    lanes: u32,
) -> (r: Result<[u8; 32], Argon2Fault>)
    requires
        lanes <= 0x1fff_ffff,
    ensures
        match r {
            Ok(k) => argon2_fault(memory_kib, passes, lanes, password@.len()) is None && k@
                == argon2id(password@, salt@, memory_kib, passes, lanes),
            Err(e) => argon2_fault(memory_kib, passes, lanes, password@.len()) == Some(e),
        },
{
    let fault = |e: Argon2Error| match e {
        Argon2Error::MemoryTooLittle => Argon2Fault::MemoryTooLittle,
        Argon2Error::TimeTooSmall => Argon2Fault::TimeTooSmall,
        Argon2Error::ThreadsTooFew => Argon2Fault::ThreadsTooFew,
        Argon2Error::ThreadsTooMany => Argon2Fault::ThreadsTooMany,
        Argon2Error::PwdTooLong => Argon2Fault::PwdTooLong,
        _ => Argon2Fault::Other,
    };
    let params = Argon2Params::new(memory_kib, passes, lanes, Some(32)).map_err(fault)?;
    let mut key = [0u8; 32];
    let hasher = Argon2::new(Algorithm::Argon2id, Version::V0x13, params);
    hasher.hash_password_into(password, salt, &mut key).map_err(fault)?;
    Ok(key)
}

/// The 32 bytes that scrypt derives from a password and a salt with the given cost exponent,
/// block size and parallelism.
pub uninterp spec fn scrypt_key_of(
    password: Seq<u8>,
    salt: Seq<u8>,
    log_n: u8,
    r: u32,
    p: u32,
) -> Seq<u8>;

/// The parameters that scrypt accepts.
pub open spec fn scrypt_accepts(log_n: u8, r: u32, p: u32) -> bool {
    &&& r > 0
    &&& p > 0
    &&& r * p < 0x4000_0000
    &&& log_n < 16 * r
    &&& 128 * r * pow2(log_n as nat) <= usize::MAX
    &&& 128 * r * p <= usize::MAX
}

/// `Params::new` followed by `scrypt` for 32 bytes. It succeeds exactly for parameters that scrypt
/// accepts.
#[verifier::external_body]
pub(crate) fn scrypt_key(password: &[u8], salt: &[u8; 32], log_n: u8, r: u32, p: u32) -> (k: Result<
    [u8; 32],
    scrypt::errors::InvalidParams,
>)
    requires
        log_n < 32,
    ensures
        k is Ok <==> scrypt_accepts(log_n, r, p),
        k matches Ok(key) ==> key@ == scrypt_key_of(password@, salt@, log_n, r, p),
{
    let params = scrypt::Params::new(log_n, r, p, 32)?;
    let mut key = [0u8; 32];
    scrypt::scrypt(password, salt, &params, &mut key).expect("32 bytes is a valid output length");
    Ok(key)
}

// ── Randomness ───────────────────────────────────────────────────────────────

/// `OsRng::fill_bytes` on a buffer of the given length. Nothing is said of the bytes; the process
/// stops where the operating system has no randomness to give.
#[verifier::external_body]
pub(crate) fn os_random(len: usize) -> (r: Vec<u8>)
    ensures
        r@.len() == len,
{
    let mut data = vec![0u8; len];
    OsRng.fill_bytes(&mut data);
    data
}

/// What holds of every word of the large EFF list: three to nine lower-case letters or hyphens.
pub open spec fn is_list_word(w: Seq<char>) -> bool {
    3 <= w.len() <= 9 && forall|i: int|
        0 <= i < w.len() ==> ('a' <= #[trigger] w[i] && w[i] <= 'z') || w[i] == '-'
}

/// `eff_wordlist::large::random_word`: some word of the large EFF list.
#[verifier::external_body]
pub(crate) fn random_word() -> (r: String)
    ensures
        is_list_word(r@),
{
    eff_wordlist::large::random_word().to_string()
}

// ── Wiping ───────────────────────────────────────────────────────────────────

/// `Zeroize` on a vector: its bytes are overwritten and it is left empty.
#[verifier::external_body]
pub(crate) fn wipe_bytes(v: &mut Vec<u8>)
    ensures
        final(v)@.len() == 0,
{
    v.zeroize();
}

/// `Zeroize` on an array of bytes: every byte is zero afterwards.
#[verifier::external_body]
pub(crate) fn wipe_array<const N: usize>(a: &mut [u8; N])
    ensures
        forall|i: int| 0 <= i < N ==> final(a)@[i] == 0,
{
    a.zeroize();
}

// ── Time ─────────────────────────────────────────────────────────────────────

/// `Instant::now`.
pub assume_specification[ std::time::Instant::now ]() -> std::time::Instant
;

/// `Instant::elapsed`.
pub assume_specification[ std::time::Instant::elapsed ](
    i: &std::time::Instant,
) -> std::time::Duration
;

/// `Duration::as_millis`.
pub assume_specification[ std::time::Duration::as_millis ](d: &std::time::Duration) -> u128
;

} // verus!
