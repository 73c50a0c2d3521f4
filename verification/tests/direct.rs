//! The transfer through a blind store, with its pasted handshake.

use atom_vault::base32::{decode_blob, encode_blob, remove_spaces};
use atom_vault::commands::direct::{
    begin_handshake, check_receive, check_send, complete_handshake, hex_prefix, open_pasted_cap,
    receive_core, send_core, send_reply, PaddingProfile,
};
use atom_vault::p2p_direct::crypto::RootKey;
use atom_vault::p2p_direct::encode::Ladder;
use atom_vault::p2p_direct::pake::SessionKey;
use atom_vault::p2p_direct::store::InMemoryStore;
use atom_vault::p2p_direct::{Error, ReadCap};

#[test]
fn blob_roundtrip() {
    let data = vec![0u8, 1, 2, 250, 255, 128];
    let encoded = encode_blob(&data);
    assert_eq!(decode_blob(&encoded).unwrap(), data);
}

#[test]
fn blob_decode_tolerates_whitespace_and_case() {
    let data = vec![9u8; 40];
    let encoded = encode_blob(&data);
    let mangled = format!("{}\n  {}", &encoded[..10].to_uppercase(), &encoded[10..]);
    assert_eq!(decode_blob(&mangled).unwrap(), data);
}

#[test]
fn blob_decode_rejects_empty_and_garbage() {
    assert!(decode_blob("").is_err());
    assert!(decode_blob("   \n ").is_err());
    assert!(decode_blob("not!valid!base32").is_err());
    assert_eq!(decode_blob("").unwrap_err(), "Blob is empty.");
}

#[test]
fn blobs_are_lower_case_base32() {
    assert_eq!(encode_blob(b"foobar"), "mzxw6ytboi");
    assert_eq!(encode_blob(b""), "");
    assert_eq!(decode_blob("MZXW 6YTB oi").unwrap(), b"foobar");
    assert_eq!(remove_spaces(" a\tb\nc "), "abc");
}

#[test]
fn empty_secret_rejected() {
    assert!(begin_handshake("   ").is_err());
}

#[test]
fn handshake_roundtrip_matching_secret() {
    let (s_state, s_blob) = begin_handshake("shared words here").ok().unwrap();
    let (r_state, r_blob) = begin_handshake("shared words here").ok().unwrap();
    assert!(complete_handshake(s_state, &r_blob).is_ok());
    assert!(complete_handshake(r_state, &s_blob).is_ok());
}

#[test]
fn padding_from_cli_accepts_known_values_any_case() {
    assert_eq!(PaddingProfile::from_cli("maximum").unwrap(), PaddingProfile::Maximum);
    assert_eq!(PaddingProfile::from_cli("BALANCED").unwrap(), PaddingProfile::Balanced);
    assert_eq!(PaddingProfile::from_cli("None").unwrap(), PaddingProfile::NoPadding);
}

#[test]
fn padding_from_cli_rejects_unknown() {
    let err = PaddingProfile::from_cli("aggressive").unwrap_err();
    assert!(err.to_string().contains("aggressive"));
}

#[test]
fn padding_profiles_map_to_ladders() {
    assert_eq!(PaddingProfile::Maximum.ladder(), Ladder::NextPowerOfTwo);
    assert_eq!(PaddingProfile::Balanced.ladder(), Ladder::MultipleOf(1024));
    assert_eq!(PaddingProfile::NoPadding.ladder(), Ladder::Exact);
}

fn sessions(secret: &str) -> (SessionKey, SessionKey) {
    let (a, a_blob) = begin_handshake(secret).ok().unwrap();
    let (b, b_blob) = begin_handshake(secret).ok().unwrap();
    (complete_handshake(a, &b_blob).ok().unwrap(), complete_handshake(b, &a_blob).ok().unwrap())
}

#[test]
fn send_rejects_non_https_store() {
    let (state, peer) = begin_handshake("x").ok().unwrap();
    let session = complete_handshake(state, &peer).ok().unwrap();
    let mut store = InMemoryStore::new();
    let err = send_core(
        &None,
        "/nonexistent.aegis",
        "http://insecure.example/blobs",
        &session,
        PaddingProfile::Maximum,
        &mut store,
    )
    .unwrap_err();
    assert!(err.to_string().contains("non-HTTPS"));
    assert!(store.is_empty());
}

#[test]
fn a_vault_travels_through_the_store() {
    let (ours, theirs) = sessions(" shared words ");
    let mut store = InMemoryStore::new();
    let vault: Vec<u8> = (0..2_500_000usize).map(|i| (i % 253) as u8).collect();
    let sealed = send_core(
        &Some(vault.clone()),
        "a.aegis",
        " https://s.example ",
        &ours,
        PaddingProfile::Maximum,
        &mut store,
    )
    .unwrap();
    assert_eq!(store.len(), 5);
    let back = receive_core("out.aegis", "https://s.example", &theirs, &sealed, &store).unwrap();
    assert_eq!(back, vault);
    assert!(open_pasted_cap(&theirs, &sealed).is_ok());
    let (stranger, _) = sessions("other words");
    assert!(receive_core("out.aegis", "https://s.example", &stranger, &sealed, &store).is_err());
}

#[test]
fn a_transfer_says_what_is_missing() {
    assert_eq!(check_send(true, "v", " ").unwrap(), "Blind store URL is required.");
    assert_eq!(check_send(false, "v", "https://s").unwrap(), "Vault not found: v");
    assert_eq!(check_send(true, "v", "https://s"), None);
    assert_eq!(check_receive("v", "").unwrap(), "Blind store URL is required.");
    assert_eq!(check_receive(" ", "https://s").unwrap(), "Destination path is required.");
    assert_eq!(check_receive("v", "https://s"), None);
    let (ours, _) = sessions("s");
    assert_eq!(open_pasted_cap(&ours, "").err().unwrap(), "Blob is empty.");
    assert!(open_pasted_cap(&ours, "mzxw6ytboi").err().unwrap().contains("Could not open"));
    let (state, _) = begin_handshake("s").ok().unwrap();
    assert_eq!(
        complete_handshake(state, "mzxw6ytboi").err().unwrap(),
        "Handshake failed. Check the peer's handshake message.",
    );
}

#[test]
fn a_finished_upload_is_answered() {
    let (ours, theirs) = sessions("s");
    let cap = ReadCap { root_key: RootKey::from_bytes([8; 32]), manifest_id: [6; 32] };
    let bytes = cap.to_bytes();
    let sealed = send_reply(&ours, Ok(cap)).unwrap();
    assert_eq!(open_pasted_cap(&theirs, &sealed).ok().unwrap().to_bytes(), bytes);
    assert_eq!(
        send_reply(&ours, Err(Error::Store("object already exists".to_string()))).unwrap_err(),
        "Upload failed: blind store error: object already exists",
    );
}

#[test]
fn an_empty_vault_can_be_sent() {
    let (ours, theirs) = sessions("s");
    let mut store = InMemoryStore::new();
    let sealed = send_core(
        &Some(Vec::new()),
        "a.aegis",
        "https://s.example",
        &ours,
        PaddingProfile::Maximum,
        &mut store,
    )
    .unwrap();
    let back = receive_core("o", "https://s.example", &theirs, &sealed, &store).unwrap();
    assert_eq!(back, Vec::<u8>::new());
}

/// A wrong secret passes the handshake and shows at the capability.
#[test]
fn a_wrong_secret_shows_at_the_capability() {
    let (a, a_blob) = begin_handshake("right").ok().unwrap();
    let (b, b_blob) = begin_handshake("wrong").ok().unwrap();
    let ours = complete_handshake(a, &b_blob).ok().unwrap();
    let theirs = complete_handshake(b, &a_blob).ok().unwrap();
    let cap = ReadCap { root_key: RootKey::from_bytes([8; 32]), manifest_id: [6; 32] };
    let sealed = send_reply(&ours, Ok(cap)).unwrap();
    assert!(open_pasted_cap(&theirs, &sealed).err().unwrap().starts_with("Could not open"));
    let store = InMemoryStore::new();
    let said = receive_core("o", "https://s", &theirs, &sealed, &store).unwrap_err();
    assert!(said.starts_with("Could not open"));
    let said = receive_core("o", "https://s", &ours, &sealed, &store).unwrap_err();
    assert_eq!(said, "Download failed: blind store error: object not found");
    assert_eq!(receive_core("o", "https://s", &ours, "", &store).unwrap_err(), "Blob is empty.");
}

#[test]
fn a_commitment_is_shown_by_its_first_bytes() {
    let mut c = [0u8; 32];
    c[..5].copy_from_slice(&[0x01, 0xab, 0xff, 0x10, 0x77]);
    assert_eq!(hex_prefix(&c), "01abff10");
}
