//! Keys and chunks: password-derived keys, the wrapped data key, and the per-chunk encryption.

use crate::bytes::{
    law_four_bytes, le, lemma_le_len, lemma_le_of_le_value, lemma_le_value_bound,
    lemma_le_value_of_le, lemma_pow256_values, push_all, push_le, read_le, to_array,
};
use crate::primitives::{
    aead_open, aead_opened, aead_seal, argon2_fault, argon2id, argon2id_key, hkdf_expand_32,
    hkdf_sha256, os_random, scrypt_accepts, scrypt_key, scrypt_key_of, wipe_array, xchacha_seal,
    Argon2Fault, AEAD_MESSAGE_LIMIT,
};
use vstd::prelude::*;
use vstd::slice::slice_subrange;
use vstd::arithmetic::power2::pow2;
use vstd::utf8::{encode_utf8, encode_utf8_decode_utf8};

verus! {

// ── Constants ────────────────────────────────────────────────────────────────

pub const SALT_LEN: usize = 32;

pub const KEY_LEN: usize = 32;

pub const XNONCE_LEN: usize = 24;

/// Length of the wrapped DEK on disk (32-byte key + 16-byte Poly1305 tag).
pub const WRAPPED_DEK_LEN: usize = 48;

/// Per-chunk random HKDF salt.
pub const FILE_SALT_LEN: usize = 16;

/// Per-chunk random identifier, stored in the chunk's entry. It is random rather than a content
/// address, so that equal chunks cannot be linked.
pub const FILE_ID_LEN: usize = 16;

/// Magic and version prefix on every v1 chunk blob: `AV` and 1.
pub const CHUNK_MAGIC_V1: [u8; 3] = [0x41, 0x56, 0x01];

/// HKDF context string for per-chunk key derivation: `atom-vault v1 file-key`.
pub const CHUNK_KEY_INFO: [u8; 22] = [
    0x61, 0x74, 0x6f, 0x6d, 0x2d, 0x76, 0x61, 0x75, 0x6c, 0x74, 0x20, 0x76, 0x31, 0x20, 0x66, 0x69,
    0x6c, 0x65, 0x2d, 0x6b, 0x65, 0x79,
];

/// Fixed `file_id` of the vault metadata block: `atom-vault-meta1`. The metadata block is the root
/// of the vault, so there is nowhere to store a random id for it.
pub const METADATA_FILE_ID: [u8; 16] = [
    0x61, 0x74, 0x6f, 0x6d, 0x2d, 0x76, 0x61, 0x75, 0x6c, 0x74, 0x2d, 0x6d, 0x65, 0x74, 0x61, 0x31,
];

/// Size of the vault header: master pointer (8) + KDF parameters (13) + salt (32) + DEK nonce (24)
/// + wrapped DEK (48).
pub const VAULT_HEADER_SIZE: u64 = 125;

/// Bytes that a v1 blob adds to its plaintext: magic (3) + salt (16) + nonce (24) + tag (16).
pub const CHUNK_OVERHEAD: usize = 59;

/// Errors of the chunk encryption layer.
#[derive(Debug, Clone, Copy, PartialEq, Eq, Structural)]
pub enum CryptoError {
    /// Blob is truncated, or its magic/version prefix is not `CHUNK_MAGIC_V1`.
    BadFormat,
    /// HKDF expansion failed (only possible on an invalid output length).
    Kdf,
    /// AEAD sealing failed.
    Seal,
    /// AEAD authentication failed. No plaintext is produced.
    Open,
}

impl CryptoError {
    /// What went wrong, in words.
    pub open spec fn text(self) -> Seq<char> {
        match self {
            CryptoError::BadFormat => "chunk blob is truncated or not a v1 blob"@,
            CryptoError::Kdf => "per-chunk key derivation failed"@,
            CryptoError::Seal => "chunk encryption failed"@,
            CryptoError::Open => "chunk authentication failed"@,
        }
    }

    /// What went wrong, in words.
    pub fn message(&self) -> (r: &'static str)
        ensures
            r@ == self.text(),
    {
        match self {
            CryptoError::BadFormat => "chunk blob is truncated or not a v1 blob",
            CryptoError::Kdf => "per-chunk key derivation failed",
            CryptoError::Seal => "chunk encryption failed",
            CryptoError::Open => "chunk authentication failed",
        }
    }

    /// The name of the error.
    pub open spec fn name(self) -> Seq<char> {
        match self {
            CryptoError::BadFormat => "BadFormat"@,
            CryptoError::Kdf => "Kdf"@,
            CryptoError::Seal => "Seal"@,
            CryptoError::Open => "Open"@,
        }
    }

    /// The name of the error.
    pub fn label(&self) -> (r: &'static str)
        ensures
            r@ == self.name(),
    {
        match self {
            CryptoError::BadFormat => "BadFormat",
            CryptoError::Kdf => "Kdf",
            CryptoError::Seal => "Seal",
            CryptoError::Open => "Open",
        }
    }
}

/// The random salt of a vault.
pub type Salt = [u8; 32];

/// A 32-byte key, used for both the KEK and the DEK.
pub type VaultKey = [u8; 32];

/// The DEK after it is encrypted (ciphertext and 16-byte tag).
pub type WrappedKey = Vec<u8>;

// ── Key derivation settings ──────────────────────────────────────────────────

/// Available key derivation functions.
#[derive(Debug, Clone, Copy, PartialEq, Eq, Structural)]
pub enum KdfChoice {
    Argon2id,
    Scrypt,
}

/// Settings given by the user or read from the vault header.
#[derive(Debug, Clone, Copy, PartialEq, Eq, Structural)]
pub struct KdfSettings {
    pub choice: KdfChoice,
    pub memory_kib: u32,
    /// Passes for Argon2id, block size for scrypt.
    pub iterations: u32,
    pub parallelism: u32,
}

impl Default for KdfSettings {
    fn default() -> (r: Self)
        ensures
            r == (KdfSettings {
                choice: KdfChoice::Argon2id,
                memory_kib: 65536,
                iterations: 3,
                parallelism: 4,
            }),
    {
        KdfSettings { choice: KdfChoice::Argon2id, memory_kib: 65536, iterations: 3, parallelism: 4 }
    }
}

/// The byte that stands for a key derivation function in the vault header.
pub open spec fn kdf_choice_byte(choice: KdfChoice) -> u8 {
    match choice {
        KdfChoice::Argon2id => 0,
        KdfChoice::Scrypt => 1,
    }
}

/// The 13 bytes of the settings in the vault header.
pub open spec fn kdf_bytes(s: KdfSettings) -> Seq<u8> {
    seq![kdf_choice_byte(s.choice)] + le(s.memory_kib as nat, 4) + le(s.iterations as nat, 4) + le(
        s.parallelism as nat,
        4,
    )
}

/// The settings have 13 bytes, laid out as the choice and three little-endian numbers.
pub proof fn lemma_kdf_bytes_layout(s: KdfSettings)
    ensures
        kdf_bytes(s).len() == 13,
        kdf_bytes(s)[0] == kdf_choice_byte(s.choice),
        kdf_bytes(s).subrange(1, 5) == le(s.memory_kib as nat, 4),
        kdf_bytes(s).subrange(5, 9) == le(s.iterations as nat, 4),
        kdf_bytes(s).subrange(9, 13) == le(s.parallelism as nat, 4),
{
    lemma_le_len(s.memory_kib as nat, 4);
    lemma_le_len(s.iterations as nat, 4);
    lemma_le_len(s.parallelism as nat, 4);
    assert(kdf_bytes(s).subrange(1, 5) =~= le(s.memory_kib as nat, 4));
    assert(kdf_bytes(s).subrange(5, 9) =~= le(s.iterations as nat, 4));
    assert(kdf_bytes(s).subrange(9, 13) =~= le(s.parallelism as nat, 4));
}

impl KdfSettings {
    pub const SIZE: usize = 13;

    /// Serializes the settings into exactly 13 bytes for the vault header.
    pub fn to_bytes(&self) -> (r: [u8; 13])
        ensures
            r@ == kdf_bytes(*self),
    {
        let mut buf: Vec<u8> = Vec::new();
        let tag: u8 = match self.choice {
            KdfChoice::Argon2id => 0,
            KdfChoice::Scrypt => 1,
        };
        buf.push(tag);
        push_le(&mut buf, self.memory_kib as u64, 4);
        push_le(&mut buf, self.iterations as u64, 4);
        push_le(&mut buf, self.parallelism as u64, 4);
        proof {
            lemma_kdf_bytes_layout(*self);
            assert(buf@ =~= kdf_bytes(*self));
        }
        to_array(&buf)
    }

    /// Reads the settings from the vault header. The only bytes that are refused are those whose
    /// first byte names no key derivation function.
    pub fn from_bytes(buf: &[u8; 13]) -> (r: Result<Self, &'static str>)
        ensures
            r is Ok <==> buf@[0] <= 1,
            r matches Ok(s) ==> kdf_bytes(s) == buf@,
            r matches Err(e) ==> e@ == "Unknown KDF algorithm byte in vault header"@,
    {
        let choice: KdfChoice = match buf[0] {
            0 => KdfChoice::Argon2id,
            1 => KdfChoice::Scrypt,
            _ => return Err("Unknown KDF algorithm byte in vault header"),
        };
        let m: &[u8] = slice_subrange(buf.as_slice(), 1, 5);
        let t: &[u8] = slice_subrange(buf.as_slice(), 5, 9);
        let p: &[u8] = slice_subrange(buf.as_slice(), 9, 13);
        proof {
            lemma_le_value_bound(m@);
            lemma_le_value_bound(t@);
            lemma_le_value_bound(p@);
            lemma_pow256_values();
            lemma_le_of_le_value(m@);
            lemma_le_of_le_value(t@);
            lemma_le_of_le_value(p@);
        }
        let s: KdfSettings = KdfSettings {
            choice,
            memory_kib: read_le(m) as u32,
            iterations: read_le(t) as u32,
            parallelism: read_le(p) as u32,
        };
        assert(kdf_bytes(s) =~= buf@);
        Ok(s)
    }
}

/// Distinct settings have distinct bytes, so a header that is written and read again gives the
/// settings it was written with.
pub proof fn law_kdf_bytes_injective(a: KdfSettings, b: KdfSettings)
    ensures
        kdf_bytes(a) == kdf_bytes(b) ==> a == b,
{
    lemma_kdf_bytes_layout(a);
    lemma_kdf_bytes_layout(b);
    lemma_pow256_values();
    if kdf_bytes(a) == kdf_bytes(b) {
        lemma_le_value_of_le(a.memory_kib as nat, 4);
        lemma_le_value_of_le(b.memory_kib as nat, 4);
        lemma_le_value_of_le(a.iterations as nat, 4);
        lemma_le_value_of_le(b.iterations as nat, 4);
        lemma_le_value_of_le(a.parallelism as nat, 4);
        lemma_le_value_of_le(b.parallelism as nat, 4);
    }
}

// ── Key encryption key ───────────────────────────────────────────────────────

/// Why a key could not be derived from a password.
#[derive(Debug, Clone, Copy, PartialEq, Eq, Structural)]
pub enum KdfError {
    /// Argon2id refuses the parameters or the password.
    Argon2(Argon2Fault),
    /// scrypt refuses the parameters.
    Scrypt,
}

impl KdfError {
    /// What went wrong, in words.
    pub open spec fn text(self) -> Seq<char> {
        match self {
            KdfError::Argon2(f) => match f {
                Argon2Fault::MemoryTooLittle => "Invalid Argon2 params: MemoryTooLittle"@,
                Argon2Fault::TimeTooSmall => "Invalid Argon2 params: TimeTooSmall"@,
                Argon2Fault::ThreadsTooFew => "Invalid Argon2 params: ThreadsTooFew"@,
                Argon2Fault::ThreadsTooMany => "Invalid Argon2 params: ThreadsTooMany"@,
                Argon2Fault::PwdTooLong => "Argon2 hashing failed: PwdTooLong"@,
                Argon2Fault::Other => "Argon2 hashing failed"@,
            },
            KdfError::Scrypt => "Invalid Scrypt params: InvalidParams"@,
        }
    }

    /// What went wrong, in words.
    pub fn message(&self) -> (r: &'static str)
        ensures
            r@ == self.text(),
    {
        match self {
            KdfError::Argon2(f) => match f {
                Argon2Fault::MemoryTooLittle => "Invalid Argon2 params: MemoryTooLittle",
                Argon2Fault::TimeTooSmall => "Invalid Argon2 params: TimeTooSmall",
                Argon2Fault::ThreadsTooFew => "Invalid Argon2 params: ThreadsTooFew",
                Argon2Fault::ThreadsTooMany => "Invalid Argon2 params: ThreadsTooMany",
                Argon2Fault::PwdTooLong => "Argon2 hashing failed: PwdTooLong",
                Argon2Fault::Other => "Argon2 hashing failed",
            },
            KdfError::Scrypt => "Invalid Scrypt params: InvalidParams",
        }
    }
}

/// The largest `k` with `2^k <= n`, and zero for zero.
pub open spec fn log2_floor(n: nat) -> nat
    decreases n,
{
    if n < 2 {
        0
    } else {
        1 + log2_floor(n / 2)
    }
}

/// `k` held between 10 and 20.
pub open spec fn clamp_log_n(k: nat) -> nat {
    if k < 10 {
        10
    } else if k > 20 {
        20
    } else {
        k
    }
}

/// `n`, and one in place of zero.
pub open spec fn at_least_one(n: u32) -> u32 {
    if n == 0 {
        1
    } else {
        n
    }
}

/// The scrypt cost exponent for a memory size: its base-2 logarithm, held between 10 and 20.
pub fn scrypt_log_n(memory_kib: u32) -> (r: u8)
    ensures
        r == clamp_log_n(log2_floor(memory_kib as nat)),
{
    let mut n: u32 = memory_kib;
    let mut k: u8 = 0;
    proof {
        vstd::arithmetic::power2::lemma2_to64();
    }
    while n >= 2
        invariant
            k + log2_floor(n as nat) == log2_floor(memory_kib as nat),
            k <= 32,
            n as nat * vstd::arithmetic::power2::pow2(k as nat) <= memory_kib,
        decreases n,
    {
        proof {
            vstd::arithmetic::power2::lemma_pow2_unfold((k + 1) as nat);
            let p = vstd::arithmetic::power2::pow2(k as nat) as int;
            let m = n as int;
            assert((m / 2) * (2 * p) <= m * p) by (nonlinear_arith)
                requires
                    m >= 0,
                    p >= 0,
            ;
            if k >= 32 {
                vstd::arithmetic::power2::lemma2_to64();
                assert(m * p >= 2 * p) by (nonlinear_arith)
                    requires
                        m >= 2,
                        p >= 0,
                ;
                vstd::arithmetic::power2::lemma_pow2_strictly_increases(31, 33);
                assert(false);
            }
        }
        n = n / 2;
        k = k + 1;
    }
    if k < 10 {
        10
    } else if k > 20 {
        20
    } else {
        k
    }
}

/// Why settings are refused for a password, where they are.
pub open spec fn kdf_fault(password: Seq<char>, s: KdfSettings) -> Option<KdfError> {
    match s.choice {
        KdfChoice::Argon2id => match argon2_fault(
            s.memory_kib,
            s.iterations,
            s.parallelism,
            encode_utf8(password).len(),
        ) {
            Some(f) => Some(KdfError::Argon2(f)),
            None => None,
        },
        KdfChoice::Scrypt => if scrypt_accepts(
            clamp_log_n(log2_floor(s.memory_kib as nat)) as u8,
            at_least_one(s.iterations),
            at_least_one(s.parallelism),
        ) {
            None
        } else {
            Some(KdfError::Scrypt)
        },
    }
}

/// The key encryption key that settings derive from a password and a salt, or why they are
/// refused.
pub open spec fn kek_of(password: Seq<char>, salt: Seq<u8>, s: KdfSettings) -> Result<
    Seq<u8>,
    KdfError,
> {
    let pw = encode_utf8(password);
    match kdf_fault(password, s) {
        Some(e) => Err(e),
        None => Ok(
            match s.choice {
                KdfChoice::Argon2id => argon2id(
                    pw,
                    salt,
                    s.memory_kib,
                    s.iterations,
                    s.parallelism,
                ),
                KdfChoice::Scrypt => scrypt_key_of(
                    pw,
                    salt,
                    clamp_log_n(log2_floor(s.memory_kib as nat)) as u8,
                    at_least_one(s.iterations),
                    at_least_one(s.parallelism),
                ),
            },
        ),
    }
}

/// Derives a 32-byte key encryption key (KEK) from a password, a salt and chosen settings.
pub fn derive_kek(password: &str, salt: &Salt, settings: &KdfSettings) -> (r: Result<
    VaultKey,
    KdfError,
>)
    ensures
        match r {
            Ok(k) => kek_of(password@, salt@, *settings) == Ok::<Seq<u8>, KdfError>(k@),
            Err(e) => kek_of(password@, salt@, *settings) == Err::<Seq<u8>, KdfError>(e),
        },
        settings.choice is Argon2id ==> match r {
            Ok(k) => k@ == argon2id(
                encode_utf8(password@),
                salt@,
                settings.memory_kib,
                settings.iterations,
                settings.parallelism,
            ),
            Err(e) => e is Argon2 && argon2_fault(
                settings.memory_kib,
                settings.iterations,
                settings.parallelism,
                encode_utf8(password@).len(),
            ) == Some(e->Argon2_0),
        },
        settings.choice is Scrypt ==> match r {
            Ok(k) => k@ == scrypt_key_of(
                encode_utf8(password@),
                salt@,
                clamp_log_n(log2_floor(settings.memory_kib as nat)) as u8,
                if settings.iterations == 0 {
                    1
                } else {
                    settings.iterations
                },
                if settings.parallelism == 0 {
                    1
                } else {
                    settings.parallelism
                },
            ),
            Err(e) => e is Scrypt,
        },
{
    match settings.choice {
        KdfChoice::Argon2id => {
            if settings.parallelism > 0x1fff_ffff {
                return Err(KdfError::Argon2(Argon2Fault::MemoryTooLittle));
            }
            match argon2id_key(
                password.as_bytes(),
                salt,
                settings.memory_kib,
                settings.iterations,
                settings.parallelism,
            ) {
                Ok(k) => Ok(k),
                Err(e) => Err(KdfError::Argon2(e)),
            }
        },
        KdfChoice::Scrypt => {
            let log_n: u8 = scrypt_log_n(settings.memory_kib);
            let r: u32 = if settings.iterations == 0 {
                1
            } else {
                settings.iterations
            };
            let p: u32 = if settings.parallelism == 0 {
                1
            } else {
                settings.parallelism
            };
            match scrypt_key(password.as_bytes(), salt, log_n, r, p) {
                Ok(k) => Ok(k),
                Err(_) => Err(KdfError::Scrypt),
            }
        },
    }
}

/// The number of rounds that take about `target_ms`, when one takes `elapsed_ms`: the quotient,
/// but no less than the safe minimum of the function.
pub open spec fn rounds_spec(target_ms: u32, elapsed_ms: u32, choice: KdfChoice) -> u32 {
    let per_round = if elapsed_ms == 0 {
        1
    } else {
        elapsed_ms
    };
    let quotient = target_ms / per_round;
    let least: u32 = match choice {
        KdfChoice::Argon2id => 3,
        KdfChoice::Scrypt => 8,
    };
    if quotient < least {
        least
    } else {
        quotient
    }
}

/// The number of rounds that take about `target_ms`, when one takes `elapsed_ms`.
pub fn rounds_for(target_ms: u32, elapsed_ms: u32, choice: KdfChoice) -> (r: u32)
    ensures
        r == rounds_spec(target_ms, elapsed_ms, choice),
{
    let per_round: u32 = if elapsed_ms == 0 {
        1
    } else {
        elapsed_ms
    };
    let quotient: u32 = target_ms / per_round;
    let least: u32 = match choice {
        KdfChoice::Argon2id => 3,
        KdfChoice::Scrypt => 8,
    };
    if quotient < least {
        least
    } else {
        quotient
    }
}

/// Benchmarks one round to find the number of rounds for a target time. The result is that of
/// `rounds_for` at the time the benchmark took, which no contract can fix.
pub fn calibrate_kdf(target_ms: u32, choice: KdfChoice, memory_kib: u32, parallelism: u32) -> (r:
    u32)
    ensures
        exists|elapsed_ms: u32| r == #[trigger] rounds_spec(target_ms, elapsed_ms, choice),
{
    let salt: Salt = generate_32_bytes();
    let settings: KdfSettings = KdfSettings { choice, memory_kib, iterations: 1, parallelism };
    let start = std::time::Instant::now();
    let _ = derive_kek("benchmark_password", &salt, &settings);
    let elapsed_ms: u32 = #[verifier::truncate]
    (start.elapsed().as_millis() as u32);
    rounds_for(target_ms, elapsed_ms, choice)
}

// ── Random values ────────────────────────────────────────────────────────────

/// 32 bytes of secure random data, for the DEK and the salt.
pub fn generate_32_bytes() -> (r: [u8; 32]) {
    to_array(&os_random(32))
}

/// A 24-byte random nonce for XChaCha20.
pub fn generate_xnonce() -> (r: [u8; 24]) {
    to_array(&os_random(24))
}

/// A fresh random per-chunk identifier.
pub fn generate_file_id() -> (r: [u8; 16]) {
    to_array(&os_random(16))
}

// ── Wrapped data key ─────────────────────────────────────────────────────────

/// The raw data encryption key (DEK) of an open vault.
pub struct UnlockedVault {
    pub dek: VaultKey,
}

impl UnlockedVault {
    /// Overwrites the key with zeros.
    pub fn wipe(&mut self)
        ensures
            forall|i: int| 0 <= i < 32 ==> final(self).dek@[i] == 0,
    {
        wipe_array(&mut self.dek);
    }
}

/// The DEK that a wrapped key opens to under a KEK.
pub open spec fn unwrapped(kek: Seq<u8>, wrapped: Seq<u8>, nonce: Seq<u8>) -> Option<Seq<u8>> {
    match aead_opened(kek, nonce, Seq::empty(), wrapped) {
        Some(dek) => if dek.len() == KEY_LEN {
            Some(dek)
        } else {
            None
        },
        None => None,
    }
}

/// Encrypts the raw DEK under the KEK and a given nonce.
pub fn wrap_dek_with(kek: &VaultKey, dek: &VaultKey, nonce: &[u8; 24]) -> (r: Result<
    WrappedKey,
    CryptoError,
>)
    ensures
        r is Ok,
        r matches Ok(w) ==> w@ == xchacha_seal(kek@, nonce@, Seq::empty(), dek@),
        r matches Ok(w) ==> w@.len() == WRAPPED_DEK_LEN,
        r matches Ok(w) ==> unwrapped(kek@, w@, nonce@) == Some(dek@),
{
    let aad: Vec<u8> = Vec::new();
    assert(aad@ =~= Seq::<u8>::empty());
    match aead_seal(kek, nonce, &aad, dek.as_slice()) {
        Ok(w) => Ok(w),
        Err(_) => Err(CryptoError::Seal),
    }
}

/// Encrypts the raw DEK using the KEK and a random nonce.
pub fn wrap_dek(kek: &VaultKey, dek: &VaultKey) -> (r: Result<(WrappedKey, [u8; 24]), CryptoError>)
    ensures
        r is Ok,
        r matches Ok((w, n)) ==> w@ == xchacha_seal(kek@, n@, Seq::empty(), dek@),
        r matches Ok((w, n)) ==> w@.len() == WRAPPED_DEK_LEN,
        r matches Ok((w, n)) ==> unwrapped(kek@, w@, n@) == Some(dek@),
{
    let nonce: [u8; 24] = generate_xnonce();
    match wrap_dek_with(kek, dek, &nonce) {
        Ok(w) => Ok((w, nonce)),
        Err(e) => Err(e),
    }
}

/// Decrypts the wrapped DEK.
pub fn unwrap_dek(kek: &VaultKey, wrapped_dek: &[u8], nonce_bytes: &[u8; 24]) -> (r: Result<
    UnlockedVault,
    CryptoError,
>)
    ensures
        r matches Ok(v) ==> unwrapped(kek@, wrapped_dek@, nonce_bytes@) == Some(v.dek@),
        r matches Err(e) ==> e == CryptoError::Open && unwrapped(
            kek@,
            wrapped_dek@,
            nonce_bytes@,
        ) is None,
{
    let aad: Vec<u8> = Vec::new();
    assert(aad@ =~= Seq::<u8>::empty());
    match aead_open(kek, nonce_bytes, &aad, wrapped_dek) {
        Ok(raw) => {
            if raw.len() != KEY_LEN {
                return Err(CryptoError::Open);
            }
            Ok(UnlockedVault { dek: to_array(&raw) })
        },
        Err(_) => Err(CryptoError::Open),
    }
}

// ── Chunks ───────────────────────────────────────────────────────────────────

/// The key of a chunk: HKDF-SHA256 of the DEK under the chunk's salt, in the context of the
/// chunk's identifier. It depends neither on the content nor on the place of the chunk.
pub open spec fn chunk_key(dek: Seq<u8>, file_salt: Seq<u8>, file_id: Seq<u8>) -> Seq<u8> {
    hkdf_sha256(Some(file_salt), dek, CHUNK_KEY_INFO@ + file_id)
}

/// The data that binds a chunk to its version and identity.
pub open spec fn chunk_aad_spec(file_id: Seq<u8>) -> Seq<u8> {
    CHUNK_MAGIC_V1@ + file_id
}

/// The v1 blob of a chunk: magic, salt, nonce, and the sealed plaintext.
pub open spec fn chunk_blob(
    dek: Seq<u8>,
    file_id: Seq<u8>,
    file_salt: Seq<u8>,
    nonce: Seq<u8>,
    plaintext: Seq<u8>,
) -> Seq<u8> {
    CHUNK_MAGIC_V1@ + file_salt + nonce + xchacha_seal(
        chunk_key(dek, file_salt, file_id),
        nonce,
        chunk_aad_spec(file_id),
        plaintext,
    )
}

/// A byte sequence has the shape of a v1 blob: the magic, and room for salt, nonce and tag.
pub open spec fn is_chunk_format(blob: Seq<u8>) -> bool {
    CHUNK_MAGIC_V1@.is_prefix_of(blob) && blob.len() >= CHUNK_OVERHEAD
}

/// What a blob opens to.
pub open spec fn open_chunk(dek: Seq<u8>, blob: Seq<u8>, file_id: Seq<u8>) -> Result<
    Seq<u8>,
    CryptoError,
> {
    if !is_chunk_format(blob) {
        Err(CryptoError::BadFormat)
    } else {
        match aead_opened(
            chunk_key(dek, blob.subrange(3, 19), file_id),
            blob.subrange(19, 43),
            chunk_aad_spec(file_id),
            blob.subrange(43, blob.len() as int),
        ) {
            Some(p) => Ok(p),
            None => Err(CryptoError::Open),
        }
    }
}

/// Derives the per-chunk encryption key.
pub fn derive_chunk_key(dek: &VaultKey, file_salt: &[u8; 16], file_id: &[u8; 16]) -> (r: Result<
    [u8; 32],
    CryptoError,
>)
    ensures
        r is Ok,
        r matches Ok(k) ==> k@ == chunk_key(dek@, file_salt@, file_id@),
{
    let mut info: Vec<u8> = Vec::new();
    push_all(&mut info, CHUNK_KEY_INFO.as_slice());
    push_all(&mut info, file_id.as_slice());
    assert(info@ =~= CHUNK_KEY_INFO@ + file_id@);
    match hkdf_expand_32(Some(file_salt.as_slice()), dek.as_slice(), &info) {
        Ok(k) => Ok(k),
        Err(_) => Err(CryptoError::Kdf),
    }
}

/// The data that binds a chunk to its version and identity, so that a blob cannot be relabelled
/// as a different chunk.
pub fn chunk_aad(file_id: &[u8; 16]) -> (r: [u8; 19])
    ensures
        r@ == chunk_aad_spec(file_id@),
{
    let mut aad: Vec<u8> = Vec::new();
    push_all(&mut aad, CHUNK_MAGIC_V1.as_slice());
    push_all(&mut aad, file_id.as_slice());
    assert(aad@ =~= chunk_aad_spec(file_id@));
    to_array(&aad)
}

/// Encrypts a chunk under a given salt and nonce. It fails exactly on a plaintext that the cipher
/// refuses for its length.
pub fn seal_chunk(
    unlocked_vault: &UnlockedVault,
    chunk_plaintext: &[u8],
    file_id: &[u8; 16],
    file_salt: &[u8; 16],
    nonce: &[u8; 24],
) -> (r: Result<Vec<u8>, CryptoError>)
    ensures
        r is Ok <==> chunk_plaintext@.len() < AEAD_MESSAGE_LIMIT,
        r matches Err(e) ==> e == CryptoError::Seal,
        r matches Ok(b) ==> b@ == chunk_blob(
            unlocked_vault.dek@,
            file_id@,
            file_salt@,
            nonce@,
            chunk_plaintext@,
        ),
        r matches Ok(b) ==> b@.len() == chunk_plaintext@.len() + CHUNK_OVERHEAD,
        r matches Ok(b) ==> open_chunk(unlocked_vault.dek@, b@, file_id@) == Ok::<
            Seq<u8>,
            CryptoError,
        >(chunk_plaintext@),
{
    let mut key: [u8; 32] = match derive_chunk_key(&unlocked_vault.dek, file_salt, file_id) {
        Ok(k) => k,
        Err(e) => return Err(e),
    };
    let aad: [u8; 19] = chunk_aad(file_id);
    let sealed = aead_seal(&key, nonce, aad.as_slice(), chunk_plaintext);
    wipe_array(&mut key);
    match sealed {
        Ok(ciphertext) => {
            let mut blob: Vec<u8> = Vec::new();
            push_all(&mut blob, CHUNK_MAGIC_V1.as_slice());
            push_all(&mut blob, file_salt.as_slice());
            push_all(&mut blob, nonce.as_slice());
            push_all(&mut blob, &ciphertext);
            proof {
                assert(blob@ =~= chunk_blob(
                    unlocked_vault.dek@,
                    file_id@,
                    file_salt@,
                    nonce@,
                    chunk_plaintext@,
                ));
                assert(blob@.subrange(0, 3) =~= CHUNK_MAGIC_V1@);
                assert(blob@.subrange(3, 19) =~= file_salt@);
                assert(blob@.subrange(19, 43) =~= nonce@);
                assert(blob@.subrange(43, blob@.len() as int) =~= ciphertext@);
            }
            Ok(blob)
        },
        Err(_) => Err(CryptoError::Seal),
    }
}

/// Encrypts a single chunk of file data under a freshly derived per-chunk key, and returns the
/// complete v1 blob. Decrypting the blob under the same DEK and identifier gives the plaintext
/// back.
pub fn encrypt_chunk(unlocked_vault: &UnlockedVault, chunk_plaintext: &[u8], file_id: &[u8; 16]) -> (
r: Result<Vec<u8>, CryptoError>)
    ensures
        r is Ok <==> chunk_plaintext@.len() < AEAD_MESSAGE_LIMIT,
        r matches Err(e) ==> e == CryptoError::Seal,
        r matches Ok(b) ==> exists|salt: Seq<u8>, nonce: Seq<u8>|
            salt.len() == FILE_SALT_LEN && nonce.len() == XNONCE_LEN && b@
                == #[trigger] chunk_blob(
                unlocked_vault.dek@,
                file_id@,
                salt,
                nonce,
                chunk_plaintext@,
            ),
        r matches Ok(b) ==> b@.len() == chunk_plaintext@.len() + CHUNK_OVERHEAD,
        r matches Ok(b) ==> open_chunk(unlocked_vault.dek@, b@, file_id@) == Ok::<
            Seq<u8>,
            CryptoError,
        >(chunk_plaintext@),
{
    let file_salt: [u8; 16] = to_array(&os_random(16));
    let nonce: [u8; 24] = generate_xnonce();
    seal_chunk(unlocked_vault, chunk_plaintext, file_id, &file_salt, &nonce)
}

/// Decrypts a v1 chunk blob produced by [`encrypt_chunk`]. On authentication failure this returns
/// `CryptoError::Open` and no plaintext.
pub fn decrypt_chunk(unlocked_vault: &UnlockedVault, blob: &[u8], file_id: &[u8; 16]) -> (r: Result<
    Vec<u8>,
    CryptoError,
>)
    ensures
        r matches Ok(p) ==> open_chunk(unlocked_vault.dek@, blob@, file_id@) == Ok::<
            Seq<u8>,
            CryptoError,
        >(p@),
        r matches Err(e) ==> open_chunk(unlocked_vault.dek@, blob@, file_id@) == Err::<
            Seq<u8>,
            CryptoError,
        >(e),
        r matches Ok(p) ==> blob@.len() == p@.len() + CHUNK_OVERHEAD,
{
    if blob.len() < CHUNK_OVERHEAD {
        return Err(CryptoError::BadFormat);
    }
    if blob[0] != CHUNK_MAGIC_V1[0] || blob[1] != CHUNK_MAGIC_V1[1] || blob[2] != CHUNK_MAGIC_V1[2] {
        proof {
            if CHUNK_MAGIC_V1@.is_prefix_of(blob@) {
                assert(blob@.subrange(0, 3)[0] == CHUNK_MAGIC_V1@[0]);
                assert(blob@.subrange(0, 3)[1] == CHUNK_MAGIC_V1@[1]);
                assert(blob@.subrange(0, 3)[2] == CHUNK_MAGIC_V1@[2]);
            }
        }
        return Err(CryptoError::BadFormat);
    }
    assert(blob@.subrange(0, 3) =~= CHUNK_MAGIC_V1@);
    let file_salt: [u8; 16] = to_array(slice_subrange(blob, 3, 19));
    let nonce: [u8; 24] = to_array(slice_subrange(blob, 19, 43));
    let ciphertext: &[u8] = slice_subrange(blob, 43, blob.len());
    let mut key: [u8; 32] = match derive_chunk_key(&unlocked_vault.dek, &file_salt, file_id) {
        Ok(k) => k,
        Err(e) => return Err(e),
    };
    let aad: [u8; 19] = chunk_aad(file_id);
    let opened = aead_open(&key, &nonce, aad.as_slice(), ciphertext);
    wipe_array(&mut key);
    match opened {
        Ok(p) => Ok(p),
        Err(_) => Err(CryptoError::Open),
    }
}

/// Distinct identifiers give distinct derivation contexts and distinct authenticated data, and
/// the metadata block shares neither with a chunk of another identifier.
pub proof fn law_identifiers_separate(a: Seq<u8>, b: Seq<u8>)
    requires
        a != b,
    ensures
        CHUNK_KEY_INFO@ + a != CHUNK_KEY_INFO@ + b,
        chunk_aad_spec(a) != chunk_aad_spec(b),
{
    CHUNK_KEY_INFO@.lemma_concat_injective(a, b);
    CHUNK_MAGIC_V1@.lemma_concat_injective(a, b);
}

// ── Laws ─────────────────────────────────────────────────────────────────────

/// The settings of a header are read in plain numbers: a zero for Argon2id or a one for scrypt, and
/// then memory, iterations and parallelism, the least significant byte of each first.
pub proof fn law_settings_in_numbers(s: KdfSettings)
    ensures
        kdf_bytes(s).len() == 13,
        s.choice is Argon2id ==> kdf_bytes(s)[0] == 0,
        s.choice is Scrypt ==> kdf_bytes(s)[0] == 1,
        s.memory_kib == kdf_bytes(s)[1] + 0x100 * kdf_bytes(s)[2] + 0x1_0000 * kdf_bytes(s)[3]
            + 0x100_0000 * kdf_bytes(s)[4],
        s.iterations == kdf_bytes(s)[5] + 0x100 * kdf_bytes(s)[6] + 0x1_0000 * kdf_bytes(s)[7]
            + 0x100_0000 * kdf_bytes(s)[8],
        s.parallelism == kdf_bytes(s)[9] + 0x100 * kdf_bytes(s)[10] + 0x1_0000 * kdf_bytes(s)[11]
            + 0x100_0000 * kdf_bytes(s)[12],
{
    lemma_kdf_bytes_layout(s);
    let b = kdf_bytes(s);
    law_four_bytes(s.memory_kib as nat);
    law_four_bytes(s.iterations as nat);
    law_four_bytes(s.parallelism as nat);
    assert forall|i: int| 0 <= i < 4 implies b[1 + i] == #[trigger] b.subrange(1, 5)[i] by {}
    assert forall|i: int| 0 <= i < 4 implies b[5 + i] == #[trigger] b.subrange(5, 9)[i] by {}
    assert forall|i: int| 0 <= i < 4 implies b[9 + i] == #[trigger] b.subrange(9, 13)[i] by {}
    assert(b.subrange(1, 5)[0] == b[1] && b.subrange(1, 5)[1] == b[2] && b.subrange(1, 5)[2] == b[3]
        && b.subrange(1, 5)[3] == b[4]);
    assert(b.subrange(5, 9)[0] == b[5] && b.subrange(5, 9)[1] == b[6] && b.subrange(5, 9)[2] == b[7]
        && b.subrange(5, 9)[3] == b[8]);
    assert(b.subrange(9, 13)[0] == b[9] && b.subrange(9, 13)[1] == b[10] && b.subrange(9, 13)[2]
        == b[11] && b.subrange(9, 13)[3] == b[12]);
}

/// The exponent of two for a number of memory: two to that power is not above the number, and the
/// next power is.
proof fn lemma_log2_floor(n: nat)
    ensures
        n > 0 ==> pow2(log2_floor(n)) <= n,
        n < pow2(log2_floor(n) + 1),
    decreases n,
{
    vstd::arithmetic::power2::lemma2_to64();
    if n >= 2 {
        let h = n / 2;
        lemma_log2_floor(h);
        vstd::arithmetic::power2::lemma_pow2_unfold(log2_floor(n));
        vstd::arithmetic::power2::lemma_pow2_unfold(log2_floor(n) + 1);
        assert(log2_floor(n) - 1 == log2_floor(h));
        assert(n < 2 * pow2(log2_floor(h) + 1));
        assert(log2_floor(h) + 1 == log2_floor(n));
    }
}

/// The cost exponent for scrypt is the base-2 logarithm of the memory, held between 10 and 20.
pub proof fn law_scrypt_cost_is_the_logarithm(memory_kib: nat)
    ensures
        10 <= clamp_log_n(log2_floor(memory_kib)) <= 20,
        clamp_log_n(log2_floor(memory_kib)) > 10 ==> pow2(clamp_log_n(log2_floor(memory_kib)))
            <= memory_kib,
        clamp_log_n(log2_floor(memory_kib)) < 20 ==> memory_kib < pow2(
            clamp_log_n(log2_floor(memory_kib)) + 1,
        ),
{
    lemma_log2_floor(memory_kib);
    let k = log2_floor(memory_kib);
    let c = clamp_log_n(k);
    if c > 10 {
        assert(memory_kib > 0);
        if k > 20 {
            vstd::arithmetic::power2::lemma_pow2_strictly_increases(20, k);
        }
    }
    if c < 20 && k < 10 {
        vstd::arithmetic::power2::lemma_pow2_strictly_increases(k + 1, 11);
    }
}

/// The key of a vault is derived from the very bytes of the password, letter by letter as it was
/// typed, from the salt of the vault and from its settings. Settings that the function refuses
/// derive no key.
pub proof fn law_key_is_derived_from_the_typed_password(
    password: Seq<char>,
    salt: Seq<u8>,
    s: KdfSettings,
)
    ensures
        s.choice is Argon2id && argon2_fault(
            s.memory_kib,
            s.iterations,
            s.parallelism,
            encode_utf8(password).len(),
        ) is None ==> kek_of(password, salt, s) == Ok::<Seq<u8>, KdfError>(
            argon2id(encode_utf8(password), salt, s.memory_kib, s.iterations, s.parallelism),
        ),
        s.choice is Argon2id && argon2_fault(
            s.memory_kib,
            s.iterations,
            s.parallelism,
            encode_utf8(password).len(),
        ) is Some ==> kek_of(password, salt, s) == Err::<Seq<u8>, KdfError>(
            KdfError::Argon2(
                argon2_fault(
                    s.memory_kib,
                    s.iterations,
                    s.parallelism,
                    encode_utf8(password).len(),
                ).unwrap(),
            ),
        ),
        s.choice is Scrypt ==> ({
            let cost = clamp_log_n(log2_floor(s.memory_kib as nat)) as u8;
            let block: u32 = if s.iterations == 0 {
                1
            } else {
                s.iterations
            };
            let lanes: u32 = if s.parallelism == 0 {
                1
            } else {
                s.parallelism
            };
            kek_of(password, salt, s) == if scrypt_accepts(cost, block, lanes) {
                Ok::<Seq<u8>, KdfError>(
                    scrypt_key_of(encode_utf8(password), salt, cost, block, lanes),
                )
            } else {
                Err(KdfError::Scrypt)
            }
        }),
{
}

/// Passwords that differ in any letter, or in the case of one, are different bytes for the key
/// derivation.
pub proof fn law_different_passwords_are_different_bytes(p: Seq<char>, q: Seq<char>)
    requires
        p != q,
    ensures
        encode_utf8(p) != encode_utf8(q),
{
    encode_utf8_decode_utf8(p);
    encode_utf8_decode_utf8(q);
}

/// The rounds for a target time are as many as fit into it, but never fewer than the function needs
/// to be safe: three passes of Argon2id, a block size of eight for scrypt.
pub proof fn law_rounds_fill_the_target(target_ms: u32, elapsed_ms: u32, choice: KdfChoice)
    ensures
        ({
            let r = rounds_spec(target_ms, elapsed_ms, choice);
            let per_round: int = if elapsed_ms == 0 {
                1
            } else {
                elapsed_ms as int
            };
            let least: int = if choice is Argon2id {
                3
            } else {
                8
            };
            &&& r >= least
            &&& (r + 1) * per_round > target_ms
            &&& r > least ==> r * per_round <= target_ms
        }),
{
    let r = rounds_spec(target_ms, elapsed_ms, choice) as int;
    let per_round: int = if elapsed_ms == 0 {
        1
    } else {
        elapsed_ms as int
    };
    let q = target_ms as int / per_round;
    let t = target_ms as int;
    assert(q * per_round <= t && t < (q + 1) * per_round) by (nonlinear_arith)
        requires
            q == t / per_round,
            per_round > 0,
            t >= 0,
    ;
    assert((r + 1) * per_round >= (q + 1) * per_round) by (nonlinear_arith)
        requires
            r >= q,
            per_round > 0,
    ;
}

/// A wrapped data key opens to what the cipher finds in it under the key and the nonce, with no
/// further data authenticated, where that has the thirty-two bytes of a key.
pub proof fn law_unwrapping_opens_the_wrapped_key(
    kek: Seq<u8>,
    wrapped: Seq<u8>,
    nonce: Seq<u8>,
    dek: Seq<u8>,
)
    ensures
        unwrapped(kek, wrapped, nonce) == Some(dek) <==> aead_opened(
            kek,
            nonce,
            Seq::empty(),
            wrapped,
        ) == Some(dek) && dek.len() == 32,
{
}

/// A chunk on the disk is the letters A and V, a one, the salt, the nonce and the sealed plaintext.
/// Its key is derived from the data key under the salt, in the context `atom-vault v1 file-key` and
/// the identifier; version and identifier are authenticated with it.
pub proof fn law_chunk_blob_layout(
    dek: Seq<u8>,
    id: Seq<u8>,
    salt: Seq<u8>,
    nonce: Seq<u8>,
    plain: Seq<u8>,
)
    requires
        salt.len() == 16,
        nonce.len() == 24,
    ensures
        ({
            let b = chunk_blob(dek, id, salt, nonce, plain);
            let context = seq![
                'a' as u8,
                't' as u8,
                'o' as u8,
                'm' as u8,
                '-' as u8,
                'v' as u8,
                'a' as u8,
                'u' as u8,
                'l' as u8,
                't' as u8,
                ' ' as u8,
                'v' as u8,
                '1' as u8,
                ' ' as u8,
                'f' as u8,
                'i' as u8,
                'l' as u8,
                'e' as u8,
                '-' as u8,
                'k' as u8,
                'e' as u8,
                'y' as u8,
            ];
            &&& b.len() >= 43
            &&& b[0] == 'A' as u8 && b[1] == 'V' as u8 && b[2] == 1
            &&& b.subrange(3, 19) == salt
            &&& b.subrange(19, 43) == nonce
            &&& b.subrange(43, b.len() as int) == xchacha_seal(
                hkdf_sha256(Some(salt), dek, context + id),
                nonce,
                seq!['A' as u8, 'V' as u8, 1u8] + id,
                plain,
            )
        }),
{
    let b = chunk_blob(dek, id, salt, nonce, plain);
    let context = seq![
        'a' as u8,
        't' as u8,
        'o' as u8,
        'm' as u8,
        '-' as u8,
        'v' as u8,
        'a' as u8,
        'u' as u8,
        'l' as u8,
        't' as u8,
        ' ' as u8,
        'v' as u8,
        '1' as u8,
        ' ' as u8,
        'f' as u8,
        'i' as u8,
        'l' as u8,
        'e' as u8,
        '-' as u8,
        'k' as u8,
        'e' as u8,
        'y' as u8,
    ];
    assert(CHUNK_KEY_INFO@ =~= context);
    assert(CHUNK_MAGIC_V1@ =~= seq!['A' as u8, 'V' as u8, 1u8]);
    let sealed = xchacha_seal(chunk_key(dek, salt, id), nonce, chunk_aad_spec(id), plain);
    assert(b.subrange(3, 19) =~= salt);
    assert(b.subrange(19, 43) =~= nonce);
    assert(b.subrange(43, b.len() as int) =~= sealed);
}

/// Opening a blob asks the cipher to open what stands behind its salt and nonce, with the key and
/// the authenticated data that sealing uses; a blob that is too short for its salt, nonce and tag,
/// or does not begin with the letters A and V and a one, has a bad format.
pub proof fn law_opening_reads_what_sealing_wrote(
    dek: Seq<u8>,
    id: Seq<u8>,
    salt: Seq<u8>,
    nonce: Seq<u8>,
    sealed: Seq<u8>,
    any: Seq<u8>,
)
    requires
        salt.len() == 16,
        nonce.len() == 24,
        sealed.len() >= 16,
    ensures
        open_chunk(dek, seq!['A' as u8, 'V' as u8, 1u8] + salt + nonce + sealed, id)
            == match aead_opened(
            chunk_key(dek, salt, id),
            nonce,
            seq!['A' as u8, 'V' as u8, 1u8] + id,
            sealed,
        ) {
            Some(p) => Ok(p),
            None => Err(CryptoError::Open),
        },
        open_chunk(dek, any, id) == Err::<Seq<u8>, CryptoError>(CryptoError::BadFormat) <==> any.len()
            < 59 || any[0] != 'A' as u8 || any[1] != 'V' as u8 || any[2] != 1,
{
    let magic = seq!['A' as u8, 'V' as u8, 1u8];
    let b = magic + salt + nonce + sealed;
    assert(CHUNK_MAGIC_V1@ =~= magic);
    assert(b.subrange(0, 3) =~= magic);
    assert(b.subrange(3, 19) =~= salt);
    assert(b.subrange(19, 43) =~= nonce);
    assert(b.subrange(43, b.len() as int) =~= sealed);
    assert(CHUNK_MAGIC_V1@.is_prefix_of(b));
    if any.len() >= 59 {
        if any[0] == 'A' as u8 && any[1] == 'V' as u8 && any[2] == 1 {
            assert(any.subrange(0, 3) =~= magic);
            assert(CHUNK_MAGIC_V1@.is_prefix_of(any));
        } else if CHUNK_MAGIC_V1@.is_prefix_of(any) {
            assert(any.subrange(0, 3)[0] == magic[0]);
            assert(any.subrange(0, 3)[1] == magic[1]);
            assert(any.subrange(0, 3)[2] == magic[2]);
        }
    }
}

/// Every error has words of its own.
pub proof fn law_errors_are_told_apart(a: CryptoError, b: CryptoError)
    requires
        a != b,
    ensures
        a.text() != b.text(),
        a.name() != b.name(),
{
    reveal_strlit("chunk blob is truncated or not a v1 blob");
    reveal_strlit("per-chunk key derivation failed");
    reveal_strlit("chunk encryption failed");
    reveal_strlit("chunk authentication failed");
    reveal_strlit("BadFormat");
    reveal_strlit("Kdf");
    reveal_strlit("Seal");
    reveal_strlit("Open");
    assert("Seal"@.len() == 4 && "Open"@.len() == 4 && "Kdf"@.len() == 3 && "BadFormat"@.len() == 9);
    assert("Seal"@[0] == 'S' && "Open"@[0] == 'O');
    assert("chunk blob is truncated or not a v1 blob"@.len() == 40);
    assert("per-chunk key derivation failed"@.len() == 31);
    assert("chunk encryption failed"@.len() == 23);
    assert("chunk authentication failed"@.len() == 27);
}

/// The words of a failed key derivation name the fault.
pub proof fn law_key_derivation_errors_in_words(e: KdfError)
    ensures
        match e {
            KdfError::Argon2(Argon2Fault::MemoryTooLittle) => e.text()
                == "Invalid Argon2 params: MemoryTooLittle"@,
            KdfError::Argon2(Argon2Fault::TimeTooSmall) => e.text()
                == "Invalid Argon2 params: TimeTooSmall"@,
            KdfError::Argon2(Argon2Fault::ThreadsTooFew) => e.text()
                == "Invalid Argon2 params: ThreadsTooFew"@,
            KdfError::Argon2(Argon2Fault::ThreadsTooMany) => e.text()
                == "Invalid Argon2 params: ThreadsTooMany"@,
            KdfError::Argon2(Argon2Fault::PwdTooLong) => e.text()
                == "Argon2 hashing failed: PwdTooLong"@,
            KdfError::Argon2(Argon2Fault::Other) => e.text() == "Argon2 hashing failed"@,
            KdfError::Scrypt => e.text() == "Invalid Scrypt params: InvalidParams"@,
        },
{
}

/// The words and the name of a chunk error say which it is.
pub proof fn law_chunk_errors_in_words(e: CryptoError)
    ensures
        e is BadFormat ==> e.text() == "chunk blob is truncated or not a v1 blob"@ && e.name()
            == "BadFormat"@,
        e is Kdf ==> e.text() == "per-chunk key derivation failed"@ && e.name() == "Kdf"@,
        e is Seal ==> e.text() == "chunk encryption failed"@ && e.name() == "Seal"@,
        e is Open ==> e.text() == "chunk authentication failed"@ && e.name() == "Open"@,
{
}

} // verus!
