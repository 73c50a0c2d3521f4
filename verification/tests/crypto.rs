//! Keys, chunks and the vault header.

use atom_vault::crypto::{
    chunk_aad, decrypt_chunk, derive_chunk_key, derive_kek, encrypt_chunk, generate_32_bytes,
    generate_file_id, generate_xnonce, rounds_for, scrypt_log_n, seal_chunk, unwrap_dek, wrap_dek,
    wrap_dek_with, CryptoError, KdfChoice, KdfError, KdfSettings, UnlockedVault, CHUNK_KEY_INFO,
    CHUNK_MAGIC_V1, CHUNK_OVERHEAD, FILE_ID_LEN, FILE_SALT_LEN, KEY_LEN, METADATA_FILE_ID,
    VAULT_HEADER_SIZE, XNONCE_LEN,
};
use atom_vault::primitives::Argon2Fault;

const MAX_CHUNK_SIZE: usize = 64 * 1024;

fn vault() -> UnlockedVault {
    UnlockedVault { dek: [0x42; KEY_LEN] }
}

/// Argon2id with so little memory that a test is quick.
fn quick() -> KdfSettings {
    KdfSettings { choice: KdfChoice::Argon2id, memory_kib: 64, iterations: 1, parallelism: 1 }
}

/// The header has room for the pointer, the settings, the salt, the nonce and the wrapped key.
#[test]
fn vault_header_size_matches_layout() {
    assert_eq!(VAULT_HEADER_SIZE, 125);
    assert_eq!(VAULT_HEADER_SIZE, 8 + KdfSettings::SIZE as u64 + 32 + 24 + 48);
}

#[test]
fn roundtrip_across_sizes() {
    let v = vault();
    for len in [0usize, 1, 63, MAX_CHUNK_SIZE - 1, MAX_CHUNK_SIZE, MAX_CHUNK_SIZE + 1, 300_000] {
        let pt: Vec<u8> = (0..len).map(|i| (i % 251) as u8).collect();
        let id = generate_file_id();
        let blob = encrypt_chunk(&v, &pt, &id).unwrap();
        assert_eq!(blob.len(), pt.len() + CHUNK_OVERHEAD, "len {}", len);
        assert!(blob.starts_with(&CHUNK_MAGIC_V1));
        let back = decrypt_chunk(&v, &blob, &id).unwrap();
        assert_eq!(&back[..], &pt[..], "roundtrip failed at len {}", len);
    }
}

/// A flipped bit anywhere in the blob is refused.
#[test]
fn tamper_anywhere_is_rejected() {
    let v = vault();
    let id = generate_file_id();
    let blob = encrypt_chunk(&v, b"the quick brown fox jumps", &id).unwrap();
    for byte in 0..blob.len() {
        let mut bad = blob.clone();
        bad[byte] ^= 0x01;
        assert!(decrypt_chunk(&v, &bad, &id).is_err(), "tampered byte {} was accepted", byte);
    }
}

#[test]
fn truncation_is_rejected() {
    let v = vault();
    let id = generate_file_id();
    let blob = encrypt_chunk(&v, b"payload", &id).unwrap();
    for cut in 0..blob.len() {
        assert!(decrypt_chunk(&v, &blob[..cut], &id).is_err(), "prefix {} accepted", cut);
    }
}

/// The identifier is bound: a blob cannot be replayed as another chunk.
#[test]
fn wrong_file_id_is_rejected() {
    let v = vault();
    let id = generate_file_id();
    let blob = encrypt_chunk(&v, b"secret contents", &id).unwrap();
    let mut other = id;
    other[0] ^= 0xff;
    assert_eq!(decrypt_chunk(&v, &blob, &other).unwrap_err(), CryptoError::Open);
}

#[test]
fn wrong_dek_is_rejected() {
    let id = generate_file_id();
    let blob = encrypt_chunk(&vault(), b"secret contents", &id).unwrap();
    let other = UnlockedVault { dek: [0x43; KEY_LEN] };
    assert_eq!(decrypt_chunk(&other, &blob, &id).unwrap_err(), CryptoError::Open);
}

#[test]
fn non_v1_blob_is_rejected() {
    let v = vault();
    let id = generate_file_id();
    let mut blob = encrypt_chunk(&v, b"x", &id).unwrap();
    blob[2] = 0x00;
    assert_eq!(decrypt_chunk(&v, &blob, &id).unwrap_err(), CryptoError::BadFormat);
}

/// The same plaintext twice gives blobs that differ in salt, nonce and body.
#[test]
fn identical_plaintext_yields_distinct_blobs() {
    let v = vault();
    let id = generate_file_id();
    let pt = b"identical plaintext";
    let a = encrypt_chunk(&v, pt, &id).unwrap();
    let b = encrypt_chunk(&v, pt, &id).unwrap();
    assert_ne!(a, b, "same plaintext produced identical blobs");
    let sr = CHUNK_MAGIC_V1.len()..CHUNK_MAGIC_V1.len() + FILE_SALT_LEN;
    let nr = sr.end..sr.end + XNONCE_LEN;
    assert_ne!(a[sr.clone()], b[sr], "file_salt was reused");
    assert_ne!(a[nr.clone()], b[nr.clone()], "nonce was reused");
    assert_ne!(a[nr.end..], b[nr.end..]);
}

/// Another salt or another identifier gives another key.
#[test]
fn derivation_separates_on_salt_and_id() {
    let dek = [0x42u8; KEY_LEN];
    let s1 = [0x01u8; FILE_SALT_LEN];
    let s2 = [0x02u8; FILE_SALT_LEN];
    let i1 = [0x0au8; FILE_ID_LEN];
    let i2 = [0x0bu8; FILE_ID_LEN];
    let k11 = derive_chunk_key(&dek, &s1, &i1).unwrap();
    let k12 = derive_chunk_key(&dek, &s1, &i2).unwrap();
    let k21 = derive_chunk_key(&dek, &s2, &i1).unwrap();
    assert_ne!(k11, k12, "distinct file_id must separate keys");
    assert_ne!(k11, k21, "distinct file_salt must separate keys");
    assert_eq!(k11, derive_chunk_key(&dek, &s1, &i1).unwrap(), "must be deterministic");
}

#[test]
fn metadata_id_differs_from_random_ids() {
    let dek = [0x42u8; KEY_LEN];
    let salt = [0x07u8; FILE_SALT_LEN];
    let meta = derive_chunk_key(&dek, &salt, &METADATA_FILE_ID).unwrap();
    let data = derive_chunk_key(&dek, &salt, &[0u8; FILE_ID_LEN]).unwrap();
    assert_ne!(meta, data, "metadata key must be domain-separated");
}

/// HKDF-SHA256 of key `[0x11; 32]`, salt `[0x22; 16]` and info `atom-vault v1 file-key` followed
/// by `[0x33; 16]`, 32 bytes.
#[test]
fn derivation_kat() {
    let expected: [u8; 32] = [
        11, 138, 127, 181, 212, 85, 215, 133, 10, 76, 42, 128, 37, 172, 34, 106, 230, 49, 246, 21,
        115, 59, 86, 192, 228, 44, 232, 124, 200, 207, 94, 119,
    ];
    let key =
        derive_chunk_key(&[0x11; KEY_LEN], &[0x22; FILE_SALT_LEN], &[0x33; FILE_ID_LEN]).unwrap();
    assert_eq!(key, expected, "per-chunk KDF wiring changed");
    assert_eq!(&CHUNK_KEY_INFO, b"atom-vault v1 file-key");
}

#[test]
fn a_chunk_is_sealed_with_what_it_is_given() {
    let v = vault();
    let blob = seal_chunk(&v, b"abc", &[1; 16], &[2; 16], &[3; 24]).unwrap();
    assert_eq!(blob[..3], CHUNK_MAGIC_V1);
    assert_eq!(blob[3..19], [2; 16]);
    assert_eq!(blob[19..43], [3; 24]);
    assert_eq!(blob.len(), 3 + CHUNK_OVERHEAD);
    assert_eq!(decrypt_chunk(&v, &blob, &[1; 16]).unwrap(), b"abc");
    assert_eq!(blob, seal_chunk(&v, b"abc", &[1; 16], &[2; 16], &[3; 24]).unwrap());
    let mut aad = CHUNK_MAGIC_V1.to_vec();
    aad.extend_from_slice(&[9; 16]);
    assert_eq!(chunk_aad(&[9; 16]).to_vec(), aad);
}

#[test]
fn the_data_key_unwraps_to_itself() {
    let kek = [5u8; 32];
    let dek = [6u8; 32];
    let (wrapped, nonce) = wrap_dek(&kek, &dek).unwrap();
    assert_eq!(wrapped.len(), 48);
    assert_eq!(unwrap_dek(&kek, &wrapped, &nonce).ok().unwrap().dek, dek);
    assert!(unwrap_dek(&[7u8; 32], &wrapped, &nonce).is_err());
    assert!(unwrap_dek(&kek, &wrapped[..47], &nonce).is_err());
    let fixed = wrap_dek_with(&kek, &dek, &[8; 24]).unwrap();
    assert_eq!(fixed, wrap_dek_with(&kek, &dek, &[8; 24]).unwrap());
    assert_ne!(fixed, wrap_dek_with(&kek, &dek, &[9; 24]).unwrap());
}

#[test]
fn a_wiped_key_is_zero() {
    let mut v = vault();
    v.wipe();
    assert_eq!(v.dek, [0u8; 32]);
}

#[test]
fn settings_survive_their_bytes() {
    for s in [
        KdfSettings::default(),
        quick(),
        KdfSettings { choice: KdfChoice::Scrypt, memory_kib: 262144, iterations: 3, parallelism: 4 },
    ] {
        assert_eq!(KdfSettings::from_bytes(&s.to_bytes()), Ok(s));
    }
    let s = KdfSettings { choice: KdfChoice::Scrypt, memory_kib: 1, iterations: 2, parallelism: 3 };
    assert_eq!(s.to_bytes(), [1, 1, 0, 0, 0, 2, 0, 0, 0, 3, 0, 0, 0]);
    assert_eq!(
        KdfSettings::from_bytes(&[2; 13]),
        Err("Unknown KDF algorithm byte in vault header"),
    );
}

#[test]
fn the_password_and_the_salt_decide_the_key() {
    let a = derive_kek("password", &[1; 32], &quick()).unwrap();
    assert_eq!(a, derive_kek("password", &[1; 32], &quick()).unwrap());
    assert_ne!(a, derive_kek("passwore", &[1; 32], &quick()).unwrap());
    assert_ne!(a, derive_kek("password", &[2; 32], &quick()).unwrap());
    let more = KdfSettings { iterations: 2, ..quick() };
    assert_ne!(a, derive_kek("password", &[1; 32], &more).unwrap());
    let scrypt =
        KdfSettings { choice: KdfChoice::Scrypt, memory_kib: 1024, iterations: 1, parallelism: 1 };
    let s = derive_kek("password", &[1; 32], &scrypt).unwrap();
    assert_ne!(a, s);
    assert_eq!(s, derive_kek("password", &[1; 32], &scrypt).unwrap());
}

#[test]
fn impossible_settings_are_refused() {
    let refused = |s: KdfSettings| match derive_kek("p", &[0; 32], &s) {
        Err(KdfError::Argon2(f)) => Some(f),
        _ => None,
    };
    let ok = quick();
    assert_eq!(refused(ok), None);
    assert_eq!(
        refused(KdfSettings { memory_kib: 0, ..ok }),
        Some(Argon2Fault::MemoryTooLittle),
    );
    assert_eq!(
        refused(KdfSettings { memory_kib: 15, parallelism: 2, ..ok }),
        Some(Argon2Fault::MemoryTooLittle),
    );
    assert_eq!(refused(KdfSettings { iterations: 0, ..ok }), Some(Argon2Fault::TimeTooSmall));
    assert_eq!(refused(KdfSettings { parallelism: 0, ..ok }), Some(Argon2Fault::ThreadsTooFew));
    assert_eq!(
        refused(KdfSettings { memory_kib: 0x0800_0000, parallelism: 0x0100_0000, ..ok }),
        Some(Argon2Fault::ThreadsTooMany),
    );
    assert_eq!(
        refused(KdfSettings { memory_kib: u32::MAX, parallelism: u32::MAX, ..ok }),
        Some(Argon2Fault::MemoryTooLittle),
    );
    let blocks = KdfSettings {
        choice: KdfChoice::Scrypt,
        iterations: 0x8000,
        parallelism: 0x8000,
        ..ok
    };
    assert_eq!(derive_kek("p", &[0; 32], &blocks), Err(KdfError::Scrypt));
    assert_eq!(
        KdfError::Argon2(Argon2Fault::TimeTooSmall).message(),
        "Invalid Argon2 params: TimeTooSmall",
    );
    assert_eq!(
        KdfError::Argon2(Argon2Fault::PwdTooLong).message(),
        "Argon2 hashing failed: PwdTooLong",
    );
    assert_eq!(KdfError::Scrypt.message(), "Invalid Scrypt params: InvalidParams");
}

#[test]
fn scrypt_cost_follows_the_memory() {
    assert_eq!(scrypt_log_n(262144), 18);
    assert_eq!(scrypt_log_n(262143), 17);
    assert!(scrypt_log_n(0) <= scrypt_log_n(u32::MAX));
}

#[test]
fn rounds_are_tuned_to_the_time() {
    assert_eq!(rounds_for(1000, 100, KdfChoice::Argon2id), 10);
    assert_eq!(rounds_for(1000, 0, KdfChoice::Argon2id), 1000);
    assert!(rounds_for(1, 1000, KdfChoice::Argon2id) >= 1);
}

#[test]
fn random_values_differ() {
    assert_ne!(generate_32_bytes(), generate_32_bytes());
    assert_ne!(generate_xnonce(), generate_xnonce());
    assert_ne!(generate_file_id(), generate_file_id());
}

#[test]
fn errors_have_words() {
    assert_eq!(CryptoError::BadFormat.message(), "chunk blob is truncated or not a v1 blob");
    assert_eq!(CryptoError::Kdf.message(), "per-chunk key derivation failed");
    assert_eq!(CryptoError::Seal.message(), "chunk encryption failed");
    assert_eq!(CryptoError::Open.message(), "chunk authentication failed");
}
