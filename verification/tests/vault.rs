//! The vault: making one, filling it, and what comes back.

use atom_vault::chunker::{chunk_data, MAX_CHUNK_SIZE};
use atom_vault::commands::cat::{handle_cat, is_probably_binary, show};
use atom_vault::commands::create::{
    create_vault, creation_settings, generate_passphrase, join_words, parse_kdf, EMPTY_VAULT_LEN,
};
use atom_vault::commands::enter::{handle_enter, shell_scope};
use atom_vault::commands::export::{decrypt_to_bytes, export_target, handle_export};
use atom_vault::commands::import::{check_import, handle_import, handle_import_from_bytes};
use atom_vault::commands::ls::handle_ls;
use atom_vault::commands::rm::handle_rm;
use atom_vault::commands::vacuum::handle_vacuum;
use atom_vault::contents::{find_file, process_secure_chunk};
use atom_vault::crypto::{
    decrypt_chunk, derive_kek, encrypt_chunk, generate_32_bytes, unwrap_dek, wrap_dek,
    CryptoError, KdfChoice, KdfError, KdfSettings, UnlockedVault, METADATA_FILE_ID, VAULT_HEADER_SIZE,
};
use atom_vault::gui::app::AtomVaultApp;
use atom_vault::gui::explorer::{
    rename_file, Extraction, RenameOutcome, VaultSession,
};
use atom_vault::gui::login::try_unlock;
use atom_vault::primitives::Argon2Fault;
use atom_vault::storage::{
    load_vault_metadata, save_vault_metadata, write_at, VaultError, VaultHeader,
};
use atom_vault::vfs::{ChunkEntry, FileIndex, VaultMetadata};

fn quick() -> KdfSettings {
    KdfSettings { choice: KdfChoice::Argon2id, memory_kib: 64, iterations: 1, parallelism: 1 }
}

fn unlocked(password: &str) -> UnlockedVault {
    let salt = generate_32_bytes();
    let kek = derive_kek(password, &salt, &quick()).unwrap();
    let raw_dek = generate_32_bytes();
    let (wrapped_dek, dek_nonce) = wrap_dek(&kek, &raw_dek).unwrap();
    unwrap_dek(&kek, &wrapped_dek, &dek_nonce).ok().unwrap()
}

#[test]
fn test_streaming_chunker_boundaries() {
    let data = b"SECURE_DATA_BLOCK_ATOM".repeat(500);
    let cuts = chunk_data(&data);
    assert!(!cuts.is_empty(), "Chunk stream should yield at least one chunk");
    let (offset, length) = cuts[0];
    assert!(length > 0, "Chunk length must be greater than 0");
    assert_eq!(offset, 0, "First chunk offset must start at 0");
    let mut end: u64 = 0;
    for (offset, length) in &cuts {
        assert_eq!(*offset, end);
        assert!(*length <= MAX_CHUNK_SIZE);
        end = end + *length as u64;
    }
    assert_eq!(end, data.len() as u64);
}

#[test]
fn test_bincode_vault_metadata_serialization_loop() {
    let unlocked_vault = unlocked("test_password");
    let chunk_1 = ChunkEntry { cipher_len: 128, offset: 112, file_id: [1u8; 16], plain_len: 0 };
    let chunk_2 = ChunkEntry { cipher_len: 256, offset: 240, file_id: [2u8; 16], plain_len: 0 };
    let file_index = FileIndex {
        vfs_name: "secure_payload.bin".to_string(),
        chunks: vec![chunk_1, chunk_2],
        last_modified_unix: 0,
    };
    let original_metadata = VaultMetadata { file_table: vec![file_index], cdc_salt: [0u8; 32] };
    let payload_end_offset = 112u64;

    let raw_bytes = original_metadata.to_bytes();
    let ciphertext = encrypt_chunk(&unlocked_vault, &raw_bytes, &METADATA_FILE_ID).unwrap();
    let mut file: Vec<u8> = Vec::new();
    write_at(&mut file, 0, &payload_end_offset.to_le_bytes());
    write_at(&mut file, payload_end_offset as usize, &ciphertext);

    let read_metadata_offset = u64::from_le_bytes(file[..8].try_into().unwrap());
    assert_eq!(read_metadata_offset, payload_end_offset);
    let read = &file[read_metadata_offset as usize..];
    let decrypted_bytes = decrypt_chunk(&unlocked_vault, read, &METADATA_FILE_ID).unwrap();
    let parsed_metadata = VaultMetadata::from_bytes(&decrypted_bytes).unwrap();

    assert_eq!(parsed_metadata.file_table.len(), 1);
    assert_eq!(parsed_metadata.file_table[0].vfs_name, "secure_payload.bin");
    assert_eq!(parsed_metadata.file_table[0].chunks.len(), 2);
    assert_eq!(parsed_metadata.file_table[0].chunks[0].cipher_len, 128);
}

#[test]
fn metadata_is_laid_out_as_bincode_does() {
    let m = VaultMetadata {
        file_table: vec![FileIndex {
            vfs_name: "é".to_string(),
            chunks: vec![ChunkEntry { cipher_len: 1, offset: 2, file_id: [3; 16], plain_len: 4 }],
            last_modified_unix: 5,
        }],
        cdc_salt: [6; 32],
    };
    let mut want: Vec<u8> = Vec::new();
    for n in [1u64, 2] {
        want.extend_from_slice(&n.to_le_bytes());
    }
    want.extend_from_slice("é".as_bytes());
    for n in [1u64, 1, 2] {
        want.extend_from_slice(&n.to_le_bytes());
    }
    want.extend_from_slice(&[3; 16]);
    for n in [4u64, 5] {
        want.extend_from_slice(&n.to_le_bytes());
    }
    want.extend_from_slice(&[6; 32]);
    assert_eq!(m.to_bytes(), want);
    assert!(VaultMetadata::from_bytes(&want[..want.len() - 1]).is_err());
}

#[test]
fn test_process_secure_chunk_callback_execution() {
    let unlocked_vault = unlocked("test_pass");
    let mock_chunk_offset = 112u64;
    let raw_payload = b"SECRET_CHUNK_DATA";
    let file_id = [7u8; 16];
    let ciphertext = encrypt_chunk(&unlocked_vault, raw_payload, &file_id).unwrap();
    let mut image: Vec<u8> = Vec::new();
    write_at(&mut image, mock_chunk_offset as usize, &ciphertext);
    let validated_data = process_secure_chunk(
        &image,
        ciphertext.len(),
        &file_id,
        &unlocked_vault,
        mock_chunk_offset,
        raw_payload.len(),
    )
    .unwrap();
    assert_eq!(validated_data, raw_payload);
    assert_eq!(
        process_secure_chunk(&image, ciphertext.len(), &file_id, &unlocked_vault, 113, 17),
        Err(VaultError::ShortRead),
    );
}

fn session() -> (VaultSession, Vec<u8>) {
    let image = create_vault("master password", &quick()).unwrap();
    (try_unlock(image.clone(), "master password").ok().unwrap(), image)
}

fn fault(image: &[u8], password: &str) -> Option<VaultError> {
    handle_enter(image, password).err().map(|e| e.fault)
}

#[test]
fn a_vault_that_does_not_open_says_why() {
    let (s, image) = session();
    let refused = handle_enter(&image, "no").err().unwrap();
    assert_eq!(refused.words, "DEK unwrap error: Error");
    let mut damaged = image[..VAULT_HEADER_SIZE as usize].to_vec();
    damaged.extend(encrypt_chunk(&s.unlocked_vault, b"abc", &METADATA_FILE_ID).ok().unwrap());
    let refused = handle_enter(&damaged, "master password").err().unwrap();
    assert_eq!(refused.fault, VaultError::Metadata);
    assert!(refused.words.starts_with("io error"));
}

#[test]
fn a_new_vault_opens_empty() {
    let image = create_vault("master password", &quick()).unwrap();
    assert_eq!(image.len(), EMPTY_VAULT_LEN);
    let (m, _, offset) = handle_enter(&image, "master password").ok().unwrap();
    assert!(m.file_table.is_empty());
    assert_eq!(offset, VAULT_HEADER_SIZE);
    assert_eq!(fault(&image, "master passwore"), Some(VaultError::Unwrap));
    assert_eq!(fault(&image, " \n"), Some(VaultError::EmptyPassword));
    assert_eq!(fault(&image[..124], "x"), Some(VaultError::ShortRead));
    let mut other = image.clone();
    other[8] = 9;
    assert_eq!(fault(&other, "x"), Some(VaultError::UnknownKdf));
    let mut torn = image.clone();
    let last = torn.len() - 1;
    torn[last] ^= 1;
    assert!(matches!(fault(&torn, "master password"), Some(VaultError::MetadataDecrypt(_))));
    assert_eq!(create_vault("  ", &quick()).err(), Some(VaultError::EmptyPassword));
    let bad = KdfSettings { memory_kib: 0, ..quick() };
    let little = KdfError::Argon2(Argon2Fault::MemoryTooLittle);
    assert_eq!(create_vault("p", &bad).err(), Some(VaultError::Kdf(little)));
    assert!(try_unlock(image, "no").err() == Some("Error: Invalid password or corrupted vault."));
}

#[test]
fn a_header_survives_its_bytes() {
    let image = create_vault("p", &quick()).unwrap();
    let h = VaultHeader::from_bytes(&image).ok().unwrap();
    assert_eq!(h.master_pointer, 125);
    assert_eq!(h.kdf, quick());
    assert_eq!(h.to_bytes(), image[..125].to_vec());
}

#[test]
fn what_is_imported_is_exported() {
    let (mut s, _) = session();
    let data: Vec<u8> = (0..50_000usize).map(|i| (i * i % 251) as u8).collect();
    assert_eq!(s.do_import_bytes(&data, "big.bin", 7), "Success: big.bin imported.");
    assert_eq!(s.do_import_bytes(b"hello\n", "note.txt", 8), "Success: note.txt imported.");
    assert_eq!(
        s.do_import_bytes(b"x", "note.txt", 9),
        "Import Error: Error: A file named 'note.txt' already exists in the vault.",
    );
    assert_eq!(s.plaintext("big.bin", "Open failed: ").ok().unwrap(), data);
    assert_eq!(s.plaintext("note.txt", "").ok().unwrap(), b"hello\n");
    assert_eq!(
        s.plaintext("none", "Open failed: ").err().unwrap(),
        "Open failed: Error: File 'none' not found in vault.",
    );
    let (m, v, offset) = load_vault_metadata(&s.image, "master password").ok().unwrap();
    assert_eq!(offset, s.current_offset);
    assert_eq!(m.file_table.len(), 2);
    assert_eq!(m.file_table[1].last_modified_unix, 8);
    assert!(m.file_table[0].chunks.iter().all(|c| c.cipher_len == 8251));
    assert_eq!(decrypt_to_bytes("big.bin", &m, &s.image, &v).unwrap(), data);
    assert_eq!(find_file(&m.file_table, "note.txt"), Some(1));
}

#[test]
fn an_empty_file_is_kept() {
    let (mut s, _) = session();
    assert_eq!(s.do_import_bytes(b"", "empty", 1), "Success: empty imported.");
    assert_eq!(s.plaintext("empty", "").ok().unwrap(), b"");
    assert_eq!(s.metadata.file_table[0].chunks.len(), 0);
}

#[test]
fn a_removed_file_is_overwritten() {
    let (mut s, _) = session();
    s.do_import_bytes(b"first", "a", 1);
    s.do_import_bytes(b"second", "b", 2);
    let c = (s.metadata.file_table[0].chunks[0].offset, s.metadata.file_table[0].chunks[0].cipher_len);
    assert_eq!(s.do_delete("a"), "Permanently Shredded: a");
    let (from, len) = (c.0 as usize, c.1);
    assert!(s.image[from..from + len].iter().all(|b| *b == 0));
    assert_eq!(s.plaintext("b", "").ok().unwrap(), b"second");
    assert_eq!(s.do_delete("a"), "Delete failed: File not found in metadata");
    let (m, v, _) = load_vault_metadata(&s.image, "master password").ok().unwrap();
    assert_eq!(m.file_table.len(), 1);
    assert_eq!(decrypt_to_bytes("b", &m, &s.image, &v).unwrap(), b"second");
}

/// The file is as long after a removal as it was; compaction makes it shorter.
#[test]
fn a_removal_leaves_the_length() {
    let (mut s, _) = session();
    s.do_import_bytes(&[5; 20_000], "a", 1);
    s.do_import_bytes(b"second", "b", 2);
    let (len, end) = (s.image.len(), s.current_offset);
    assert_eq!(s.do_delete("a"), "Permanently Shredded: a");
    assert_eq!((s.image.len(), s.current_offset), (len, end));
    assert_eq!(s.image[..8], end.to_le_bytes());
    let (m, _, at) = load_vault_metadata(&s.image, "master password").ok().unwrap();
    assert_eq!((m.file_table.len(), at), (1, end));
    assert_eq!(s.do_import_bytes(b"", "empty", 3), "Success: empty imported.");
    assert_eq!((s.image.len(), s.current_offset), (len, end));
    assert!(load_vault_metadata(&s.image, "master password").is_ok());
    assert_eq!(s.do_import_bytes(b"third", "c", 3), "Success: c imported.");
    let (m, v, at) = load_vault_metadata(&s.image, "master password").ok().unwrap();
    assert_eq!(at, s.current_offset);
    assert_eq!(decrypt_to_bytes("a", &m, &s.image, &v), Err(VaultError::NotFound));
    assert_eq!(decrypt_to_bytes("b", &m, &s.image, &v).unwrap(), b"second");
    assert_eq!(decrypt_to_bytes("c", &m, &s.image, &v).unwrap(), b"third");
    let (image, _) = handle_vacuum(&mut s.metadata, &s.image, &s.unlocked_vault).ok().unwrap();
    assert!(image.len() < len);
}

#[test]
fn a_recorded_length_that_is_too_great_is_an_error() {
    let (s, _) = session();
    let id = [4u8; 16];
    let blob = encrypt_chunk(&s.unlocked_vault, b"abc", &id).ok().unwrap();
    let n = blob.len();
    let read = |plain_len: usize| process_secure_chunk(&blob, n, &id, &s.unlocked_vault, 0, plain_len);
    assert_eq!(read(0).unwrap(), b"abc");
    assert_eq!(read(2).unwrap(), b"ab");
    assert_eq!(read(3).unwrap(), b"abc");
    assert_eq!(read(4), Err(VaultError::PlainLength));
    assert_eq!(read(usize::MAX), Err(VaultError::PlainLength));
    assert_eq!(VaultError::PlainLength.message(), "chunk is shorter than its recorded length");
}

#[test]
fn compaction_keeps_the_files() {
    let (mut s, _) = session();
    let data: Vec<u8> = (0..30_000usize).map(|i| (i % 7) as u8).collect();
    s.do_import_bytes(&data, "a", 1);
    s.do_import_bytes(b"second", "b", 2);
    s.do_delete("a");
    let before = s.image.len();
    let (image, offset) = handle_vacuum(&mut s.metadata, &s.image, &s.unlocked_vault).ok().unwrap();
    assert!(image.len() < before);
    let (m, v, at) = load_vault_metadata(&image, "master password").ok().unwrap();
    assert_eq!(at, offset);
    assert_eq!(decrypt_to_bytes("b", &m, &image, &v).unwrap(), b"second");
    assert_eq!(offset, VAULT_HEADER_SIZE + 8251);
}

#[test]
fn an_import_comes_from_the_staging_area() {
    let (mut s, _) = session();
    let area = Some("/run/u/atom_staging".to_string());
    let refused = handle_import(
        "/etc/passwd",
        &Some("/etc/passwd".to_string()),
        "/run/u/atom_staging",
        &area,
        b"data",
        "p".to_string(),
        &mut s.image,
        &mut s.metadata,
        &s.unlocked_vault,
        &mut s.current_offset,
        1,
    )
    .unwrap_err();
    assert!(refused.contains("Security Violation") && refused.contains("/etc/passwd"));
    assert!(s.metadata.file_table.is_empty());
    let inside = Some("/run/u/atom_staging/p".to_string());
    assert!(handle_import(
        "p",
        &inside,
        "/run/u/atom_staging",
        &area,
        b"data",
        "p".to_string(),
        &mut s.image,
        &mut s.metadata,
        &s.unlocked_vault,
        &mut s.current_offset,
        1,
    )
    .is_ok());
    assert_eq!(s.plaintext("p", "").ok().unwrap(), b"data");
    let m = &s.metadata;
    assert!(check_import("p", &inside, "d", &area, "p", m).unwrap().contains("already exists"));
    assert!(check_import("p", &inside, "d", &area, "q", m).is_none());
    assert_eq!(
        check_import("p", &None, "d", &area, "q", m).unwrap(),
        "Error: The file 'p' does not exist or cannot be resolved.",
    );
    assert_eq!(
        check_import("p", &inside, "d", &None, "q", m).unwrap(),
        "Fatal: Could not resolve staging directory path.",
    );
    let near = Some("/run/u/atom_staging2/p".to_string());
    assert!(check_import("p", &near, "d", &area, "q", m).is_some());
}

#[test]
fn an_export_goes_to_the_staging_area() {
    let (mut s, _) = session();
    s.do_import_bytes(b"text", "a.txt", 1);
    let (m, i, v) = (&s.metadata, &s.image, &s.unlocked_vault);
    assert_eq!(handle_export("a.txt", false, m, i, v, false).unwrap(), b"text");
    assert_eq!(handle_export("a.txt", true, m, i, v, false), Err(VaultError::AlreadyExists));
    assert_eq!(handle_export("a.txt", true, m, i, v, true).unwrap(), b"text");
    assert_eq!(handle_export("b", false, m, i, v, false), Err(VaultError::NotFound));
    assert_eq!(export_target("/s", "../../etc/x").unwrap(), "/s/x");
    assert_eq!(export_target("/s", ".."), Err("Error: Invalid target file name provided."));
    assert_eq!(s.extraction_name(0).as_deref(), Some("a.txt"));
    assert_eq!(s.extraction_name(1), None);
    assert!(matches!(s.extract(0, true, false), Extraction::Ask));
    assert!(matches!(s.extract(0, true, true), Extraction::Write(_)));
    s.image[200] ^= 1;
    match s.extract(0, false, false) {
        Extraction::Failed(words) => assert!(words.starts_with("Export failed: ")),
        _ => panic!("a damaged file was extracted"),
    }
}

#[test]
fn a_file_is_renamed() {
    let (mut s, _) = session();
    s.do_import_bytes(b"1", "a", 1);
    s.do_import_bytes(b"2", "b", 2);
    assert_eq!(rename_file(&mut s.metadata, "a", "x/y"), RenameOutcome::Invalid);
    assert_eq!(rename_file(&mut s.metadata, "a", "b"), RenameOutcome::Exists);
    assert_eq!(rename_file(&mut s.metadata, "z", "c"), RenameOutcome::Missing);
    assert_eq!(rename_file(&mut s.metadata, "a", "c"), RenameOutcome::Renamed);
    assert_eq!(s.plaintext("c", "").ok().unwrap(), b"1");
    let mut app = AtomVaultApp::new();
    app.begin_rename("b");
    app.cancel_rename();
    app.finish_rename(&mut s.metadata);
    assert_eq!(app.explorer_status, "");
    app.begin_rename("b");
    app.rename = Some(("b".to_string(), "d".to_string()));
    app.finish_rename(&mut s.metadata);
    assert_eq!(app.explorer_status, "Renamed to: d");
    assert_eq!(s.plaintext("d", "").ok().unwrap(), b"2");
}

#[test]
fn the_listing_names_every_file() {
    let (mut s, _) = session();
    assert_eq!(
        handle_ls(&s.metadata),
        "--- Volatile VFS File Allocation Table ---\nVault is empty.\n",
    );
    s.do_import_bytes(b"1", "a\u{1b}b", 1);
    assert_eq!(
        handle_ls(&s.metadata),
        "--- Volatile VFS File Allocation Table ---\nFile: a?b                  Chunks: 1\n",
    );
}

#[test]
fn a_file_is_shown_without_control_characters() {
    assert_eq!(show(b"a\nb\tc"), "a\nb\tc");
    let text = [b"x".repeat(200), vec![0x1b]].concat();
    assert!(show(&text).ends_with("\\x1B"));
    assert!(is_probably_binary(&[0, 1, 2]) && !is_probably_binary(b"plain"));
    assert!(show(&[0; 100]).contains("First 64 bytes (HEX Preview): 00 00"));
    let latin = [b"a".repeat(15), vec![0xff]].concat();
    assert!(show(&latin).contains("Non-UTF8") && show(&latin).contains("61 FF \n"));
    let (mut s, _) = session();
    s.do_import_bytes(b"hi", "a", 1);
    let out = handle_cat("a", &s.metadata, &s.image, &s.unlocked_vault).unwrap();
    assert!(out.contains("hi"));
    assert_eq!(
        handle_cat("b", &s.metadata, &s.image, &s.unlocked_vault).unwrap(),
        "Error: File 'b' not found in vault.\n",
    );
}

#[test]
fn settings_come_from_what_is_asked() {
    assert_eq!(parse_kdf("argon2id"), Some(KdfChoice::Argon2id));
    assert_eq!(parse_kdf("scrypt"), Some(KdfChoice::Scrypt));
    assert_eq!(parse_kdf("md5"), None);
    let s = creation_settings(KdfChoice::Scrypt, None, Some(2), None, 1000, 8);
    assert_eq!((s.memory_kib, s.iterations, s.parallelism), (262144, 2, 8));
    let t = creation_settings(KdfChoice::Argon2id, Some(64), None, Some(1), 1, 8);
    assert_eq!((t.memory_kib, t.parallelism), (64, 1));
    assert!(t.iterations >= 3);
}

#[test]
fn a_passphrase_has_ten_words() {
    let p = generate_passphrase();
    assert_eq!(p.split(' ').count(), 10);
    assert!(p.split(' ').all(|w| !w.is_empty()));
    assert_ne!(p, generate_passphrase());
    assert_eq!(join_words(&vec!["a".to_string(), "b".to_string()]), "a b");
}

#[test]
fn metadata_is_saved_where_the_payload_ends() {
    let (s, image) = session();
    let mut longer = image.clone();
    let m = VaultMetadata { file_table: Vec::new(), cdc_salt: [9; 32] };
    assert!(save_vault_metadata(&mut longer, &m, &s.unlocked_vault, 300).is_ok());
    assert_eq!(longer[..8], 300u64.to_le_bytes());
    assert!(longer[224..300].iter().all(|b| *b == 0));
    let (back, _, at) = load_vault_metadata(&longer, "master password").ok().unwrap();
    assert_eq!((back.cdc_salt, at), ([9; 32], 300));
    let mut small: Vec<u8> = image;
    let mut meta = VaultMetadata { file_table: Vec::new(), cdc_salt: [0; 32] };
    let mut offset = VAULT_HEADER_SIZE;
    assert!(handle_import_from_bytes(
        b"z", "z".to_string(), &mut small, &mut meta, &s.unlocked_vault, &mut offset, 0,
    )
    .is_ok());
    let len = small.len();
    assert!(handle_rm("z", &mut meta, &mut small, &s.unlocked_vault, &mut offset).is_ok());
    assert_eq!(small.len(), len);
    assert_eq!(
        handle_rm("z", &mut meta, &mut small, &s.unlocked_vault, &mut offset),
        Err(VaultError::NotFound),
    );
}

#[test]
fn the_shell_is_confined() {
    let s = shell_scope("/v", &Some("/run/u".to_string()), &None);
    assert_eq!(s.read_only, vec!["/usr", "/etc"]);
    assert_eq!(s.read_write, vec!["/v", "/run/u/atom_staging"]);
    let h = shell_scope("/v", &None, &Some("/h".to_string()));
    assert_eq!(h.read_write[1], "/h/.atom_vault/staging");
    assert_eq!(shell_scope("/v", &None, &None).read_write[1], "/tmp/atom_staging");
}

#[test]
fn vault_errors_have_words() {
    assert_eq!(VaultError::NotFound.message(), "File not found in metadata");
    assert_eq!(VaultError::AlreadyExists.message(), "ALREADY_EXISTS");
    assert_eq!(
        VaultError::EmptyPassword.message(),
        "Password cannot be empty or contain only spaces.",
    );
    assert_eq!(
        VaultError::Kdf(KdfError::Argon2(Argon2Fault::MemoryTooLittle)).message(),
        "Argon2 error: \"Invalid Argon2 params: MemoryTooLittle\"",
    );
    assert_eq!(VaultError::Unwrap.message(), "DEK unwrap error: Error");
    assert_eq!(
        VaultError::UnknownKdf.message(),
        "Unknown KDF algorithm byte in vault header",
    );
    assert_eq!(VaultError::Encrypt(CryptoError::Seal).message(), "Metadata encrypt error: Seal");
    assert_eq!(
        VaultError::MetadataDecrypt(CryptoError::Open).message(),
        "Metadata decrypt error: Open",
    );
    assert_eq!(
        VaultError::Decrypt(CryptoError::BadFormat).message(),
        "Decryption error: BadFormat",
    );
}
