//! Blocks, manifests and the blind store.

use atom_vault::p2p_direct::crypto::{
    commitment, derive_block_key, derive_manifest_key, open, random_array, random_fill,
    random_nonce, random_object_id, seal, RootKey, AEAD_TAG_LEN,
};
use atom_vault::p2p_direct::encode::{
    block_bounds, plan, BlockRef, EncodeParams, Ladder, Manifest,
};
use atom_vault::p2p_direct::pake;
use atom_vault::p2p_direct::store::{
    accept_below, download, object_url, open_manifest, random_below, read_padded_block, shuffle,
    shuffle_by, store_namespace, upload, upload_with, BlindStore, InMemoryStore,
};
use atom_vault::p2p_direct::{Error, ReadCap};

/// Small blocks, so that a test has many of them.
fn params() -> EncodeParams {
    EncodeParams { block_size: 256, ladder: Ladder::NextPowerOfTwo }
}

fn roundtrip(payload: &[u8]) {
    let mut store = InMemoryStore::new();
    let root = RootKey::generate();
    let p = params();
    let cap = upload(payload, &p, &root, &mut store).ok().unwrap();
    let real_blocks = p.real_blocks(payload.len() as u64);
    let total_blocks = p.ladder.total_blocks(real_blocks);
    assert_eq!(
        store.len(),
        total_blocks + 1,
        "store should hold {total_blocks} blocks + 1 manifest"
    );
    let mut out = Vec::new();
    assert!(download(&cap, &store, &mut out).is_ok());
    assert_eq!(out, payload, "payload must round-trip losslessly");
}

#[test]
fn roundtrip_various_sizes() {
    for len in [0usize, 1, 255, 256, 257, 512, 1000, 4096, 5000] {
        let payload: Vec<u8> = (0..len).map(|i| (i * 31 + 7) as u8).collect();
        roundtrip(&payload);
    }
}

#[test]
fn cap_delivered_over_pake_then_download() {
    let mut store = InMemoryStore::new();
    let root = RootKey::generate();
    let p = params();
    let payload: Vec<u8> = (0..3000u32).map(|i| (i ^ 0xa5) as u8).collect();
    let cap = upload(&payload, &p, &root, &mut store).ok().unwrap();
    let expected = cap.commitment();

    let secret = b"seven-word diceware phrase goes here";
    let (s_state, s_msg) = pake::start(secret);
    let (r_state, r_msg) = pake::start(secret);
    let s_key = s_state.finish(&r_msg).ok().unwrap();
    let r_key = r_state.finish(&s_msg).ok().unwrap();
    let sealed = pake::seal_cap(&s_key, &cap).ok().unwrap();
    let received_cap = pake::open_cap(&r_key, &sealed).ok().unwrap();
    assert_eq!(received_cap.commitment(), expected, "commitment must bind");

    let mut out = Vec::new();
    assert!(download(&received_cap, &store, &mut out).is_ok());
    assert_eq!(out, payload);
}

#[test]
fn wrong_root_cannot_decrypt() {
    let mut store = InMemoryStore::new();
    let root = RootKey::generate();
    let cap = upload(&vec![0x42u8; 900], &params(), &root, &mut store).ok().unwrap();
    let forged =
        ReadCap { root_key: RootKey::from_bytes([0u8; 32]), manifest_id: cap.manifest_id };
    let mut out = Vec::new();
    assert!(download(&forged, &store, &mut out).is_err());
    assert!(out.is_empty(), "nothing is written before the manifest opens");
}

/// Every block on the store has one length, real or decoy.
#[test]
fn decoys_are_indistinguishable_length() {
    let mut store = InMemoryStore::new();
    let root = RootKey::generate();
    let p = params();
    let payload = vec![7u8; 300];
    let cap = upload(&payload, &p, &root, &mut store).ok().unwrap();
    let expected_ct_len = p.block_size + 16;
    let manifest_obj_len = store.get(&cap.manifest_id).ok().unwrap().len();
    let block_lengths: Vec<usize> =
        store.object_lengths().into_iter().filter(|&l| l != manifest_obj_len).collect();
    assert!(!block_lengths.is_empty());
    assert!(
        block_lengths.iter().all(|&l| l == expected_ct_len),
        "all block objects (real + decoy) must share one length"
    );
    assert_eq!(block_lengths.len(), 2);
}

#[test]
fn block_key_kat() {
    // HKDF-SHA256 of key [0x11; 32] and info "atom-block-v1|" followed by zero as four bytes.
    let expected: [u8; 32] = [
        0x05, 0x99, 0x49, 0xb1, 0x9e, 0xa9, 0x84, 0xd6, 0x28, 0x54, 0xa4, 0x51, 0x1a, 0xba, 0x93,
        0x7a, 0xfe, 0x14, 0x4e, 0xdb, 0xd4, 0xe9, 0x0c, 0x3d, 0xe6, 0xee, 0x51, 0x58, 0xc9, 0xca,
        0x29, 0x78,
    ];
    let root = RootKey::from_bytes([0x11; 32]);
    let k0 = derive_block_key(&root, 0);
    let k0_again = derive_block_key(&root, 0);
    let k1 = derive_block_key(&root, 1);
    assert_eq!(k0, k0_again, "derivation must be deterministic");
    assert_ne!(k0, k1, "distinct indices yield distinct keys");
    assert_eq!(k0, expected, "block-0 KDF wiring changed");
}

#[test]
fn manifest_key_differs_from_block_key() {
    let root = RootKey::from_bytes([0x22; 32]);
    let mk = derive_manifest_key(&root);
    let bk0 = derive_block_key(&root, 0);
    assert_ne!(mk, bk0, "label separation must hold");
}

#[test]
fn seal_open_roundtrip() {
    let key = [0x33u8; 32];
    let nonce = random_nonce();
    let pt = b"attack at dawn, but only if the vault says so";
    let ct = seal(&key, &nonce, pt).ok().unwrap();
    assert_eq!(ct.len(), pt.len() + AEAD_TAG_LEN);
    let back = open(&key, &nonce, &ct).ok().unwrap();
    assert_eq!(&back, pt);
}

#[test]
fn open_rejects_tamper() {
    let key = [0x44u8; 32];
    let nonce = random_nonce();
    let mut ct = seal(&key, &nonce, b"hello").ok().unwrap();
    ct[0] ^= 0x01;
    assert!(open(&key, &nonce, &ct).is_err(), "AEAD must reject tampering");
}

#[test]
fn commitment_binds_root() {
    let a = RootKey::from_bytes([0x55; 32]);
    let b = RootKey::from_bytes([0x56; 32]);
    assert_ne!(commitment(&a), commitment(&b));
    assert_eq!(commitment(&a), commitment(&RootKey::from_bytes([0x55; 32])));
}

#[test]
fn ladder_is_monotone_and_covering() {
    for real in 0..=5000usize {
        for ladder in [
            Ladder::Exact,
            Ladder::NextPowerOfTwo,
            Ladder::MultipleOf(1024),
            Ladder::MultipleOf(1),
        ] {
            let total = ladder.total_blocks(real);
            assert!(total >= real, "{ladder:?}: {total} < {real}");
            if real == 0 {
                assert_eq!(total, 0);
            }
        }
    }
}

#[test]
fn next_power_of_two_lands_on_ladder() {
    for real in 1..=5000usize {
        let total = Ladder::NextPowerOfTwo.total_blocks(real);
        assert!(total.is_power_of_two(), "{total} not a power of two");
        assert!(total < real * 2 + 1);
    }
    assert_eq!(Ladder::NextPowerOfTwo.total_blocks(5120), 8192);
    assert_eq!(Ladder::NextPowerOfTwo.total_blocks(6451), 8192);
}

#[test]
fn multiple_of_lands_on_ladder() {
    for real in 1..=5000usize {
        let total = Ladder::MultipleOf(1024).total_blocks(real);
        assert_eq!(total % 1024, 0);
        assert!(total >= real);
    }
}

#[test]
fn plan_covers_exact_and_partial_last_block() {
    let params = EncodeParams { block_size: 100, ladder: Ladder::Exact };
    let p = plan(200, &params);
    assert_eq!(p.real_blocks, 2);
    assert_eq!(block_bounds(&p, 1), (100, 200));
    let p = plan(250, &params);
    assert_eq!(p.real_blocks, 3);
    assert_eq!(block_bounds(&p, 2), (200, 250));
    let p = plan(0, &params);
    assert_eq!(p.real_blocks, 0);
    assert_eq!(p.total_blocks, 0);
}

fn sample_cap() -> ReadCap {
    ReadCap { root_key: RootKey::from_bytes([0x7a; 32]), manifest_id: [0x9c; 32] }
}

#[test]
fn matching_secret_delivers_cap() {
    let secret = b"correct horse battery staple";
    let (s_state, s_msg) = pake::start(secret);
    let (r_state, r_msg) = pake::start(secret);
    let s_key = s_state.finish(&r_msg).ok().unwrap();
    let r_key = r_state.finish(&s_msg).ok().unwrap();
    let cap = sample_cap();
    let sealed = pake::seal_cap(&s_key, &cap).ok().unwrap();
    let opened = pake::open_cap(&r_key, &sealed).ok().unwrap();
    assert_eq!(opened.root_key.as_bytes(), cap.root_key.as_bytes());
    assert_eq!(opened.manifest_id, cap.manifest_id);
}

#[test]
fn wrong_secret_cannot_open_cap() {
    let (s_state, s_msg) = pake::start(b"the real secret");
    let (r_state, r_msg) = pake::start(b"a wrong guess");
    let s_key = s_state.finish(&r_msg).ok().unwrap();
    let r_key = r_state.finish(&s_msg).ok().unwrap();
    let sealed = pake::seal_cap(&s_key, &sample_cap()).ok().unwrap();
    assert!(pake::open_cap(&r_key, &sealed).is_err());
}

#[test]
fn tampered_sealed_cap_rejected() {
    let secret = b"shared";
    let (s_state, s_msg) = pake::start(secret);
    let (r_state, r_msg) = pake::start(secret);
    let s_key = s_state.finish(&r_msg).ok().unwrap();
    let r_key = r_state.finish(&s_msg).ok().unwrap();
    let mut sealed = pake::seal_cap(&s_key, &sample_cap()).ok().unwrap();
    let last = sealed.len() - 1;
    sealed[last] ^= 0xff;
    assert!(pake::open_cap(&r_key, &sealed).is_err());
}

#[test]
fn a_handshake_message_must_be_whole() {
    let (state, msg) = pake::start(b"secret");
    assert!(matches!(state.finish(&msg[..msg.len() - 1]), Err(Error::Pake)));
    let (a, _) = pake::start(b"secret");
    assert!(matches!(a.finish(b""), Err(Error::Pake)));
}

#[test]
fn a_short_sealed_cap_is_malformed() {
    let (a, a_msg) = pake::start(b"x");
    let (_, b_msg) = pake::start(b"x");
    assert_ne!(a_msg, b_msg);
    let key = a.finish(&b_msg).ok().unwrap();
    assert!(pake::open_cap(&key, &[0u8; 10]).is_err());
}

#[test]
fn a_cap_survives_its_bytes() {
    let cap = sample_cap();
    let bytes = cap.to_bytes();
    assert_eq!(bytes[..32], [0x7a; 32]);
    assert_eq!(bytes[32..], [0x9c; 32]);
    let back = ReadCap::from_bytes(&bytes).ok().unwrap();
    assert_eq!(back.root_key.as_bytes(), cap.root_key.as_bytes());
    assert_eq!(back.manifest_id, cap.manifest_id);
    let err = ReadCap::from_bytes(&bytes[..63]).err().unwrap();
    assert!(err.message().contains("read-cap has wrong length"));
}

#[test]
fn an_object_is_stored_once() {
    let mut store = InMemoryStore::new();
    assert!(store.is_empty());
    assert!(store.put(&[1; 32], &[1, 2, 3]).is_ok());
    assert!(store.put(&[1; 32], &[4]).is_err());
    assert_eq!(store.get(&[1; 32]).ok().unwrap(), vec![1, 2, 3]);
    assert!(store.get(&[2; 32]).is_err());
    assert_eq!(store.len(), 1);
    assert_eq!(store.object_lengths(), vec![3]);
}

#[test]
fn a_lost_block_stops_a_download() {
    let mut store = InMemoryStore::new();
    let root = RootKey::generate();
    let cap = upload(&[1u8; 1000], &params(), &root, &mut store).ok().unwrap();
    let manifest = open_manifest(&store.get(&cap.manifest_id).ok().unwrap(), &root).ok().unwrap();
    let mut poorer = InMemoryStore::new();
    let lost = manifest.real_blocks_ordered()[1].object_id;
    for b in manifest.real_blocks_ordered() {
        if b.object_id != lost {
            assert!(poorer.put(&b.object_id, &store.get(&b.object_id).ok().unwrap()).is_ok());
        }
    }
    assert!(poorer.put(&cap.manifest_id, &store.get(&cap.manifest_id).ok().unwrap()).is_ok());
    let mut out = vec![9u8];
    assert!(download(&cap, &poorer, &mut out).is_err());
    assert_eq!(out, [vec![9u8], vec![1u8; 256]].concat(), "the blocks before it are written");
}

/// Four blocks under given identifiers, of which the last may be another.
fn upload_four(last: [u8; 32], manifest_id: [u8; 32]) -> (Result<ReadCap, Error>, InMemoryStore) {
    let mut store = InMemoryStore::new();
    assert!(store.put(&[0xee; 32], &[1]).is_ok());
    let root = RootKey::from_bytes([3; 32]);
    let ids = vec![[1; 32], [2; 32], [3; 32], last];
    let nonces = vec![[1; 24], [2; 24], [3; 24], [4; 24]];
    let r = upload_with(
        &[7u8; 600],
        &params(),
        &root,
        &ids,
        &nonces,
        &manifest_id,
        &[5; 24],
        &vec![0, 2, 1],
        &mut store,
    );
    (r, store)
}

#[test]
fn a_transfer_is_stored_under_its_identifiers() {
    let (r, store) = upload_four([4; 32], [5; 32]);
    let cap = r.ok().unwrap();
    assert_eq!(cap.manifest_id, [5; 32]);
    assert_eq!(store.len(), 6);
    for i in 1..5u8 {
        assert_eq!(store.get(&[i; 32]).ok().unwrap().len(), 256 + AEAD_TAG_LEN);
    }
    let manifest = open_manifest(&store.get(&[5; 32]).ok().unwrap(), &cap.root_key).ok().unwrap();
    let order: Vec<[u8; 32]> =
        manifest.real_blocks_ordered().iter().map(|b| b.object_id).collect();
    assert_eq!(order, vec![[1; 32], [2; 32], [3; 32]]);
    let mut out = Vec::new();
    assert!(download(&cap, &store, &mut out).is_ok());
    assert_eq!(out, vec![7u8; 600]);
}

#[test]
fn an_identifier_in_use_stops_a_transfer() {
    for (last, manifest_id) in [([0xee; 32], [5; 32]), ([1; 32], [5; 32]), ([4; 32], [0xee; 32])] {
        let (r, store) = upload_four(last, manifest_id);
        let words = r.err().unwrap().message();
        assert_eq!(words, "blind store error: object already exists");
        assert_eq!(store.get(&[0xee; 32]).ok().unwrap(), vec![1]);
    }
}

#[test]
fn a_manifest_orders_its_blocks() {
    let mut store = InMemoryStore::new();
    let root = RootKey::from_bytes([3; 32]);
    let payload: Vec<u8> = (0..1500usize).map(|i| i as u8).collect();
    let cap = upload(&payload, &params(), &root, &mut store).ok().unwrap();
    let object = store.get(&cap.manifest_id).ok().unwrap();
    let manifest = open_manifest(&object, &root).ok().unwrap();
    let order: Vec<BlockRef> = manifest.real_blocks_ordered();
    assert_eq!(order.len(), 6);
    assert_eq!(plan(1500, &params()).decoy_blocks(), 2);
    for (i, b) in order.iter().enumerate() {
        assert_eq!(b.index, Some(i as u32));
        assert!(!b.is_decoy());
    }
    let back = Manifest::from_bytes(&manifest.to_bytes()).ok().unwrap();
    assert_eq!(back.to_bytes(), manifest.to_bytes());
    assert!(open_manifest(&object[..object.len() - 1], &root).is_err());
    assert!(open_manifest(&[0; 3], &root).is_err());
    assert!(Manifest::from_bytes(&[1, 2, 3]).is_err());
}

#[test]
fn the_last_block_is_padded() {
    let data: Vec<u8> = vec![1, 2, 3, 4, 5];
    assert_eq!(read_padded_block(&data, 0, 4), Some((vec![1, 2, 3, 4], 4)));
    assert_eq!(read_padded_block(&data, 4, 4), Some((vec![5, 0, 0, 0], 1)));
    assert_eq!(read_padded_block(&data, 5, 4), None);
}

#[test]
fn a_shuffle_keeps_what_it_shuffles() {
    let mut v: Vec<u32> = (0..500).collect();
    shuffle(&mut v);
    assert_ne!(v, (0..500).collect::<Vec<u32>>());
    v.sort();
    assert_eq!(v, (0..500).collect::<Vec<u32>>());
    for _ in 0..100 {
        assert!(random_below(7) < 7);
    }
    assert_eq!(accept_below(13, 10), Some(3));
    assert_eq!(accept_below(u64::MAX, 10), None);
}

#[test]
fn a_shuffle_exchanges_each_place_with_its_pick() {
    let mut v = vec![10, 11, 12, 13, 14];
    shuffle_by(&mut v, &vec![0, 1, 2, 0]);
    assert_eq!(v, [13, 14, 12, 11, 10]);
    let mut one = vec![7];
    shuffle_by(&mut one, &Vec::new());
    assert_eq!(one, [7]);
}

#[test]
fn urls_are_built_from_the_namespace() {
    assert_eq!(store_namespace("https://s.example/blobs"), "https://s.example/blobs");
    assert_eq!(store_namespace("https://s.example/blobs//"), "https://s.example/blobs");
    let url = object_url("https://s.example/blobs", &[0xab; 32]);
    assert_eq!(url, format!("https://s.example/blobs/{}", "ab".repeat(32)));
}

#[test]
fn random_bytes_fill_what_they_are_given() {
    let mut a = [0u8; 64];
    random_fill(&mut a);
    assert_ne!(a, [0u8; 64]);
    assert_ne!(random_object_id(), random_object_id());
    let x: [u8; 40] = random_array();
    assert_ne!(x, [0u8; 40]);
    let mut root = RootKey::generate();
    assert_ne!(root.as_bytes(), &[0u8; 32]);
    root.wipe();
    assert_eq!(root.as_bytes(), &[0u8; 32]);
}

#[test]
fn store_errors_have_words() {
    assert_eq!(Error::Crypto.message(), "cryptographic operation failed");
    assert_eq!(Error::Pake.message(), "PAKE handshake failed");
    assert_eq!(Error::Store("x".into()).message(), "blind store error: x");
    assert_eq!(Error::Serialize("x".into()).message(), "serialization error: x");
}
