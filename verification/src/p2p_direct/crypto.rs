//! Keys and sealing for transfers.
//!
//! Every block key is derived from the root key and the block's index, never from what the block
//! holds. Manifest and blocks use different labels.

use crate::bytes::{
    law_four_bytes, le, lemma_le_len, lemma_le_value_of_le, lemma_pow256_values, push_all, push_le,
};
use crate::p2p_direct::{Error, Failure};
use crate::primitives::{
    aead_open, aead_opened, aead_seal, hkdf_expand_32, hkdf_sha256, sha256, sha256_digest, wipe_array,
    wipe_bytes,
    xchacha_seal, AEAD_MESSAGE_LIMIT,
};
use vstd::prelude::*;

verus! {

/// The length of a block before sealing.
pub const DEFAULT_BLOCK_SIZE: usize = 1_048_576;

/// The length of the authentication tag.
pub const AEAD_TAG_LEN: usize = 16;

/// The length of a nonce.
pub const NONCE_LEN: usize = 24;

/// `atom-block-v1|`
pub const LABEL_BLOCK: [u8; 14] = [
    0x61, 0x74, 0x6f, 0x6d, 0x2d, 0x62, 0x6c, 0x6f, 0x63, 0x6b, 0x2d, 0x76, 0x31, 0x7c,
];

/// `atom-manifest-v1`
pub const LABEL_MANIFEST: [u8; 16] = [
    0x61, 0x74, 0x6f, 0x6d, 0x2d, 0x6d, 0x61, 0x6e, 0x69, 0x66, 0x65, 0x73, 0x74, 0x2d, 0x76, 0x31,
];

/// `atom-cap-commitment-v1`
pub const LABEL_COMMITMENT: [u8; 22] = [
    0x61, 0x74, 0x6f, 0x6d, 0x2d, 0x63, 0x61, 0x70, 0x2d, 0x63, 0x6f, 0x6d, 0x6d, 0x69, 0x74, 0x6d,
    0x65, 0x6e, 0x74, 0x2d, 0x76, 0x31,
];

/// The random root key of a transfer.
#[derive(Clone, Copy)]
pub struct RootKey {
    pub bytes: [u8; 32],
}

impl View for RootKey {
    type V = Seq<u8>;

    open spec fn view(&self) -> Seq<u8> {
        self.bytes@
    }
}

impl RootKey {
    /// A fresh root key from the generator of the operating system.
    pub fn generate() -> (r: Self) {
        RootKey { bytes: random_array() }
    }

    /// Wraps known bytes.
    pub fn from_bytes(bytes: [u8; 32]) -> (r: Self)
        ensures
            r@ == bytes@,
            r.bytes == bytes,
    {
        RootKey { bytes }
    }

    /// The bytes of the key.
    pub fn as_bytes(&self) -> (r: &[u8; 32])
        ensures
            r@ == self@,
            *r == self.bytes,
    {
        &self.bytes
    }

    /// Overwrites the key with zeros.
    pub fn wipe(&mut self)
        ensures
            final(self)@ == Seq::new(32, |i: int| 0u8),
    {
        wipe_array(&mut self.bytes);
    }
}

/// What the key of a block is derived with: the label and the index in four bytes.
pub open spec fn block_label(index: u32) -> Seq<u8> {
    LABEL_BLOCK@ + le(index as nat, 4)
}

/// The key of a block.
pub open spec fn block_key(root: Seq<u8>, index: u32) -> Seq<u8> {
    hkdf_sha256(None, root, block_label(index))
}

/// The key of the manifest.
pub open spec fn manifest_key(root: Seq<u8>) -> Seq<u8> {
    hkdf_sha256(None, root, LABEL_MANIFEST@)
}

/// The commitment to a root key.
pub open spec fn commitment_of(root: Seq<u8>) -> Seq<u8> {
    sha256(LABEL_COMMITMENT@ + root)
}

/// Derives the key of block `index` from the root key.
pub fn derive_block_key(root: &RootKey, index: u32) -> (r: [u8; 32])
    ensures
        r@ == block_key(root@, index),
{
    let mut info: Vec<u8> = Vec::new();
    push_all(&mut info, &LABEL_BLOCK);
    push_le(&mut info, index as u64, 4);
    assert(info@ =~= block_label(index));
    hkdf_expand(root.as_bytes(), &info)
}

/// Derives the key of the manifest from the root key.
pub fn derive_manifest_key(root: &RootKey) -> (r: [u8; 32])
    ensures
        r@ == manifest_key(root@),
{
    hkdf_expand(root.as_bytes(), &LABEL_MANIFEST)
}

/// The commitment to a root key.
pub fn commitment(root: &RootKey) -> (r: [u8; 32])
    ensures
        r@ == commitment_of(root@),
{
    let mut data: Vec<u8> = Vec::new();
    push_all(&mut data, &LABEL_COMMITMENT);
    push_all(&mut data, root.as_bytes());
    let digest: [u8; 32] = sha256_digest(&data);
    wipe_bytes(&mut data);
    digest
}

/// Seals a message; the tag follows the ciphertext. Only a message beyond the limit of the cipher
/// is refused, and opening gives the message back.
pub fn seal(key: &[u8; 32], nonce: &[u8; 24], plaintext: &[u8]) -> (r: Result<Vec<u8>, Error>)
    ensures
        r is Ok <==> plaintext@.len() < AEAD_MESSAGE_LIMIT,
        r matches Ok(c) ==> {
            &&& c@ == xchacha_seal(key@, nonce@, Seq::empty(), plaintext@)
            &&& c@.len() == plaintext@.len() + AEAD_TAG_LEN
            &&& aead_opened(key@, nonce@, Seq::empty(), c@) == Some(plaintext@)
        },
        r matches Err(e) ==> e@ == Failure::Crypto,
{
    let aad: Vec<u8> = Vec::new();
    assert(aad@ =~= Seq::empty());
    match aead_seal(key, nonce, &aad, plaintext) {
        Ok(c) => Ok(c),
        Err(_) => Err(Error::Crypto),
    }
}

/// Opens a sealed message.
pub fn open(key: &[u8; 32], nonce: &[u8; 24], ciphertext: &[u8]) -> (r: Result<Vec<u8>, Error>)
    ensures
        match aead_opened(key@, nonce@, Seq::empty(), ciphertext@) {
            Some(m) => r matches Ok(p) && p@ == m,
            None => r matches Err(e) && e@ == Failure::Crypto,
        },
{
    let aad: Vec<u8> = Vec::new();
    assert(aad@ =~= Seq::empty());
    match aead_open(key, nonce, &aad, ciphertext) {
        Ok(m) => Ok(m),
        Err(_) => Err(Error::Crypto),
    }
}

/// A fresh random nonce.
pub fn random_nonce() -> (r: [u8; 24]) {
    random_array()
}

/// A fresh random object identifier.
pub fn random_object_id() -> (r: [u8; 32]) {
    random_array()
}

/// `getrandom::fill`: random bytes of the operating system for the whole buffer. Nothing is said
/// of the bytes; the process stops where the operating system has no randomness to give.
#[verifier::external_body]
pub fn random_fill(buf: &mut [u8])
    ensures
        final(buf)@.len() == old(buf)@.len(),
{
    getrandom::fill(buf).expect("OS random number generator is unavailable");
}

/// A fresh random array.
pub fn random_array<const N: usize>() -> (r: [u8; N]) {
    let mut out: [u8; N] = [0u8; N];
    random_fill(&mut out);
    out
}

fn hkdf_expand(ikm: &[u8; 32], info: &[u8]) -> (r: [u8; 32])
    ensures
        r@ == hkdf_sha256(None, ikm@, info@),
{
    match hkdf_expand_32(None, ikm, info) {
        Ok(k) => k,
        Err(_) => [0u8; 32],
    }
}

/// Labels separate the keys: two blocks of different index, and a block and the manifest, derive
/// their keys with different labels.
pub proof fn law_labels_separate(i: u32, j: u32)
    ensures
        i != j ==> block_label(i) != block_label(j),
        block_label(i) != LABEL_MANIFEST@,
{
    lemma_le_len(i as nat, 4);
    lemma_le_len(j as nat, 4);
    lemma_pow256_values();
    if block_label(i) == block_label(j) {
        assert(block_label(i).subrange(14, 18) =~= le(i as nat, 4));
        assert(block_label(j).subrange(14, 18) =~= le(j as nat, 4));
        lemma_le_value_of_le(i as nat, 4);
        lemma_le_value_of_le(j as nat, 4);
    }
}

// ── Laws ─────────────────────────────────────────────────────────────────────

/// Block keys are derived from the root key alone, in the context `atom-block-v1|` and the index of
/// the block in four bytes, the least significant first; the key of the manifest in the context
/// `atom-manifest-v1`; and the commitment is the digest of `atom-cap-commitment-v1` and the root
/// key.
pub proof fn law_keys_of_a_transfer(root: Seq<u8>, index: u32, a: u8, b: u8, c: u8, d: u8)
    requires
        index == a + 0x100 * b + 0x1_0000 * c + 0x100_0000 * d,
    ensures
        block_key(root, index) == hkdf_sha256(
            None,
            root,
            seq![
                'a' as u8,
                't' as u8,
                'o' as u8,
                'm' as u8,
                '-' as u8,
                'b' as u8,
                'l' as u8,
                'o' as u8,
                'c' as u8,
                'k' as u8,
                '-' as u8,
                'v' as u8,
                '1' as u8,
                '|' as u8,
            ] + seq![a, b, c, d],
        ),
        manifest_key(root) == hkdf_sha256(
            None,
            root,
            seq![
                'a' as u8,
                't' as u8,
                'o' as u8,
                'm' as u8,
                '-' as u8,
                'm' as u8,
                'a' as u8,
                'n' as u8,
                'i' as u8,
                'f' as u8,
                'e' as u8,
                's' as u8,
                't' as u8,
                '-' as u8,
                'v' as u8,
                '1' as u8,
            ],
        ),
        commitment_of(root) == sha256(
            seq![
                'a' as u8,
                't' as u8,
                'o' as u8,
                'm' as u8,
                '-' as u8,
                'c' as u8,
                'a' as u8,
                'p' as u8,
                '-' as u8,
                'c' as u8,
                'o' as u8,
                'm' as u8,
                'm' as u8,
                'i' as u8,
                't' as u8,
                'm' as u8,
                'e' as u8,
                'n' as u8,
                't' as u8,
                '-' as u8,
                'v' as u8,
                '1' as u8,
            ] + root,
        ),
{
    assert(LABEL_BLOCK@ =~= seq![
                'a' as u8,
                't' as u8,
                'o' as u8,
                'm' as u8,
                '-' as u8,
                'b' as u8,
                'l' as u8,
                'o' as u8,
                'c' as u8,
                'k' as u8,
                '-' as u8,
                'v' as u8,
                '1' as u8,
                '|' as u8,
            ]);
    assert(LABEL_MANIFEST@ =~= seq![
                'a' as u8,
                't' as u8,
                'o' as u8,
                'm' as u8,
                '-' as u8,
                'm' as u8,
                'a' as u8,
                'n' as u8,
                'i' as u8,
                'f' as u8,
                'e' as u8,
                's' as u8,
                't' as u8,
                '-' as u8,
                'v' as u8,
                '1' as u8,
            ]);
    assert(LABEL_COMMITMENT@ =~= seq![
                'a' as u8,
                't' as u8,
                'o' as u8,
                'm' as u8,
                '-' as u8,
                'c' as u8,
                'a' as u8,
                'p' as u8,
                '-' as u8,
                'c' as u8,
                'o' as u8,
                'm' as u8,
                'm' as u8,
                'i' as u8,
                't' as u8,
                'm' as u8,
                'e' as u8,
                'n' as u8,
                't' as u8,
                '-' as u8,
                'v' as u8,
                '1' as u8,
            ]);
    law_four_bytes(index as nat);
    assert(le(index as nat, 4) =~= seq![a, b, c, d]);
}

} // verus!
