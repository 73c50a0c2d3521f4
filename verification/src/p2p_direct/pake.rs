//! Delivery of the read capability over SPAKE2.
//!
//! Two people share a short secret. Each side turns it into a message for the other and, with the
//! message of the other, into a session key; the sender seals the capability under that key.

use crate::bytes::{push_all, to_array};
use crate::p2p_direct::crypto::{open, random_nonce, seal, NONCE_LEN};
use crate::p2p_direct::{cap_bytes, law_cap_bytes_injective, Error, Failure, ReadCap};
use crate::primitives::{aead_opened, hkdf_expand_32, hkdf_sha256, wipe_array, wipe_bytes};
use crate::text::copy_text;
use spake2::{Ed25519Group, Identity, Password, Spake2};
use vstd::prelude::*;
use vstd::slice::slice_subrange;

verus! {

/// `atom-vault-cap-v1`: the identity that both sides use.
pub const PAKE_IDENTITY: [u8; 17] = [
    0x61, 0x74, 0x6f, 0x6d, 0x2d, 0x76, 0x61, 0x75, 0x6c, 0x74, 0x2d, 0x63, 0x61, 0x70, 0x2d, 0x76,
    0x31,
];

/// `atom-cap-seal-v1`: separates the sealing key from the session key.
pub const SEAL_LABEL: [u8; 16] = [
    0x61, 0x74, 0x6f, 0x6d, 0x2d, 0x63, 0x61, 0x70, 0x2d, 0x73, 0x65, 0x61, 0x6c, 0x2d, 0x76, 0x31,
];

/// The length of a handshake message: a side byte and a curve point.
pub const PAKE_MESSAGE_LEN: usize = 33;

// ── SPAKE2 ───────────────────────────────────────────────────────────────────

/// A handshake in progress.
#[verifier::external_body]
pub struct SpakeState {
    inner: Spake2<Ed25519Group>,
}

/// The secret, the identity and the outbound message of a handshake in progress.
pub uninterp spec fn spake_started(state: SpakeState) -> (Seq<u8>, Seq<u8>, Seq<u8>);

/// The messages that a handshake can start with.
pub uninterp spec fn spake_outbound(secret: Seq<u8>, identity: Seq<u8>, msg: Seq<u8>) -> bool;

/// The key of a handshake, by the message sent and the message received.
pub uninterp spec fn spake_key(
    secret: Seq<u8>,
    identity: Seq<u8>,
    sent: Seq<u8>,
    received: Seq<u8>,
) -> Seq<u8>;

/// `Spake2::start_symmetric`: the outbound message is the byte 0x53 and a point of the curve that
/// hides a random scalar behind the secret.
#[verifier::external_body]
fn spake_start(secret: &[u8], identity: &[u8]) -> (r: (SpakeState, Vec<u8>))
    ensures
        spake_started(r.0) == (secret@, identity@, r.1@),
        spake_outbound(secret@, identity@, r.1@),
        r.1@.len() == PAKE_MESSAGE_LEN,
        r.1@[0] == 0x53,
{
    let (inner, outbound) = Spake2::<Ed25519Group>::start_symmetric(
        &Password::new(secret),
        &Identity::new(identity),
    );
    (SpakeState { inner }, outbound)
}

/// `Spake2::finish`: a message of the wrong length or side is refused, and so is one that is no
/// point of the curve. What a handshake starts with, for whatever secret and identity, is none of
/// these, and is accepted. The key is a digest of the secret, the identity, the two messages in the
/// order of their bytes and the shared point, so two sides that start from one secret and one
/// identity and exchange their messages arrive at one key.
#[verifier::external_body]
fn spake_finish(state: SpakeState, peer: &[u8]) -> (r: Result<Vec<u8>, ()>)
    ensures
        peer@.len() != PAKE_MESSAGE_LEN || peer@[0] != 0x53 ==> r is Err,
        r matches Ok(k) ==> k@ == spake_key(
            spake_started(state).0,
            spake_started(state).1,
            spake_started(state).2,
            peer@,
        ),
        r matches Ok(k) ==> k@.len() == 32,
        forall|secret: Seq<u8>, identity: Seq<u8>| #[trigger]
            spake_outbound(secret, identity, peer@) ==> r is Ok,
        r matches Ok(k) ==> (spake_outbound(
            spake_started(state).0,
            spake_started(state).1,
            peer@,
        ) ==> k@ == spake_key(
            spake_started(state).0,
            spake_started(state).1,
            peer@,
            spake_started(state).2,
        )),
{
    state.inner.finish(peer).map_err(|_| ())
}

// ── The handshake ────────────────────────────────────────────────────────────

/// The key that both sides agree on.
pub struct SessionKey {
    pub bytes: Vec<u8>,
}

impl View for SessionKey {
    type V = Seq<u8>;

    open spec fn view(&self) -> Seq<u8> {
        self.bytes@
    }
}

impl SessionKey {
    /// Overwrites the key with zeros and empties it.
    pub fn wipe(&mut self)
        ensures
            final(self)@.len() == 0,
    {
        wipe_bytes(&mut self.bytes);
    }
}

impl SpakeState {
    /// The secret that the handshake was started with.
    pub open spec fn secret(self) -> Seq<u8> {
        spake_started(self).0
    }

    /// The message that the handshake sends.
    pub open spec fn sent(self) -> Seq<u8> {
        spake_started(self).2
    }

    /// The identity that the handshake uses.
    pub open spec fn identity(self) -> Seq<u8> {
        spake_started(self).1
    }

    /// What the handshake sends is a message for its secret.
    pub open spec fn started(self) -> bool {
        spake_outbound(self.secret(), self.identity(), self.sent())
    }

    /// The key that the handshake arrives at with a message of the other side. Where that is a
    /// message for the same secret, it is the key of the other side too.
    pub open spec fn agrees(self, received: Seq<u8>, key: Seq<u8>) -> bool {
        &&& key == spake_key(self.secret(), self.identity(), self.sent(), received)
        &&& spake_outbound(self.secret(), self.identity(), received) ==> key == spake_key(
            self.secret(),
            self.identity(),
            received,
            self.sent(),
        )
    }
}

/// Starts a handshake from a short secret: the state, and the message for the other side.
pub fn start(short_secret: &[u8]) -> (r: (SpakeState, Vec<u8>))
    ensures
        r.0.started(),
        r.0.secret() == short_secret@,
        r.0.identity() == PAKE_IDENTITY@,
        r.0.sent() == r.1@,
        r.1@.len() == PAKE_MESSAGE_LEN,
        r.1@[0] == 0x53,
{
    spake_start(short_secret, &PAKE_IDENTITY)
}

impl SpakeState {
    /// Completes the handshake with the message of the other side. A message that a handshake can
    /// start with is accepted, whatever secret it was made for.
    pub fn finish(self, peer_message: &[u8]) -> (r: Result<SessionKey, Error>)
        ensures
            peer_message@.len() != PAKE_MESSAGE_LEN || peer_message@[0] != 0x53 ==> r is Err,
            forall|secret: Seq<u8>, identity: Seq<u8>| #[trigger]
                spake_outbound(secret, identity, peer_message@) ==> r is Ok,
            r matches Ok(k) ==> k@.len() == 32 && self.agrees(peer_message@, k@),
            r matches Err(e) ==> e@ == Failure::Pake,
    {
        match spake_finish(self, peer_message) {
            Ok(bytes) => Ok(SessionKey { bytes }),
            Err(()) => Err(Error::Pake),
        }
    }
}

/// Two sides that start from one short secret and exchange their messages arrive at one key.
pub proof fn law_same_secret_same_key(a: SpakeState, b: SpakeState, key_a: Seq<u8>, key_b: Seq<u8>)
    requires
        a.started(),
        b.started(),
        a.secret() == b.secret(),
        a.identity() == b.identity(),
        a.agrees(b.sent(), key_a),
        b.agrees(a.sent(), key_b),
    ensures
        key_a == key_b,
{
}

// ── The sealed capability ────────────────────────────────────────────────────

/// The key that seals a capability.
pub open spec fn seal_key(session: Seq<u8>) -> Seq<u8> {
    hkdf_sha256(None, session, SEAL_LABEL@)
}

/// The length of a sealed capability: nonce, capability and tag.
pub const SEALED_CAP_LEN: usize = 104;

/// What a session key makes of a sealed capability: its bytes, where they have the right length.
pub open spec fn opened_cap(session: Seq<u8>, sealed: Seq<u8>) -> Result<Seq<u8>, Failure> {
    if sealed.len() < NONCE_LEN {
        Err(Failure::Malformed("sealed cap too short"@))
    } else {
        match aead_opened(
            seal_key(session),
            sealed.subrange(0, 24),
            Seq::empty(),
            sealed.subrange(24, sealed.len() as int),
        ) {
            None => Err(Failure::Crypto),
            Some(p) => if p.len() != ReadCap::SERIALIZED_LEN {
                Err(Failure::Malformed("read-cap has wrong length"@))
            } else {
                Ok(p)
            },
        }
    }
}

/// Seals a capability under the session key; the nonce comes first. Whoever holds the same key
/// reads the capability back.
pub fn seal_cap(session: &SessionKey, cap: &ReadCap) -> (r: Result<Vec<u8>, Error>)
    ensures
        r is Ok,
        r matches Ok(sealed) ==> {
            &&& sealed@.len() == SEALED_CAP_LEN
            &&& opened_cap(session@, sealed@) == Ok::<Seq<u8>, Failure>(cap_bytes(*cap))
        },
{
    let mut key: [u8; 32] = derive_seal_key(session);
    let nonce: [u8; 24] = random_nonce();
    let mut plaintext: [u8; 64] = cap.to_bytes();
    let sealed = seal(&key, &nonce, &plaintext);
    wipe_array(&mut key);
    wipe_array(&mut plaintext);
    let ciphertext: Vec<u8> = match sealed {
        Ok(c) => c,
        Err(e) => return Err(e),
    };
    let mut out: Vec<u8> = Vec::new();
    push_all(&mut out, &nonce);
    push_all(&mut out, &ciphertext);
    assert(out@.subrange(0, 24) =~= nonce@);
    assert(out@.subrange(24, out@.len() as int) =~= ciphertext@);
    Ok(out)
}

/// Opens a sealed capability with the session key.
pub fn open_cap(session: &SessionKey, sealed: &[u8]) -> (r: Result<ReadCap, Error>)
    ensures
        match opened_cap(session@, sealed@) {
            Ok(p) => r matches Ok(cap) && cap_bytes(cap) == p,
            Err(f) => r matches Err(e) && e@ == f,
        },
{
    if sealed.len() < NONCE_LEN {
        return Err(Error::Malformed(copy_text("sealed cap too short")));
    }
    let nonce: [u8; 24] = to_array(slice_subrange(sealed, 0, NONCE_LEN));
    let ciphertext: &[u8] = slice_subrange(sealed, NONCE_LEN, sealed.len());
    let mut key: [u8; 32] = derive_seal_key(session);
    let opened = open(&key, &nonce, ciphertext);
    wipe_array(&mut key);
    match opened {
        Ok(plaintext) => {
            let mut plaintext: Vec<u8> = plaintext;
            let cap = ReadCap::from_bytes(&plaintext);
            wipe_bytes(&mut plaintext);
            cap
        },
        Err(e) => Err(e),
    }
}

fn derive_seal_key(session: &SessionKey) -> (r: [u8; 32])
    ensures
        r@ == seal_key(session@),
{
    match hkdf_expand_32(None, &session.bytes, &SEAL_LABEL) {
        Ok(k) => k,
        Err(_) => [0u8; 32],
    }
}

/// A sealed capability that is opened under the same session key is the capability.
pub proof fn law_cap_arrives(session: Seq<u8>, sealed: Seq<u8>, sent: ReadCap, received: ReadCap)
    requires
        opened_cap(session, sealed) == Ok::<Seq<u8>, Failure>(cap_bytes(sent)),
        opened_cap(session, sealed) == Ok::<Seq<u8>, Failure>(cap_bytes(received)),
    ensures
        sent == received,
{
    law_cap_bytes_injective(sent, received);
}

// ── Laws ─────────────────────────────────────────────────────────────────────

/// A sealed capability is a nonce and what the cipher sealed under it, with a key derived from the
/// session key in the context `atom-cap-seal-v1`; it opens to the sixty-four bytes of a capability
/// and to nothing else.
pub proof fn law_opening_a_sealed_capability(session: Seq<u8>, nonce: Seq<u8>, sealed: Seq<u8>)
    requires
        nonce.len() == 24,
    ensures
        opened_cap(session, nonce + sealed) == match aead_opened(
            hkdf_sha256(None, session, seq![
                'a' as u8,
                't' as u8,
                'o' as u8,
                'm' as u8,
                '-' as u8,
                'c' as u8,
                'a' as u8,
                'p' as u8,
                '-' as u8,
                's' as u8,
                'e' as u8,
                'a' as u8,
                'l' as u8,
                '-' as u8,
                'v' as u8,
                '1' as u8,
            ]),
            nonce,
            Seq::empty(),
            sealed,
        ) {
            None => Err(Failure::Crypto),
            Some(p) => if p.len() == 64 {
                Ok(p)
            } else {
                Err(Failure::Malformed("read-cap has wrong length"@))
            },
        },
        sealed.len() < 24 ==> opened_cap(session, sealed) == Err::<Seq<u8>, Failure>(
            Failure::Malformed("sealed cap too short"@),
        ),
{
    assert(SEAL_LABEL@ =~= seq![
                'a' as u8,
                't' as u8,
                'o' as u8,
                'm' as u8,
                '-' as u8,
                'c' as u8,
                'a' as u8,
                'p' as u8,
                '-' as u8,
                's' as u8,
                'e' as u8,
                'a' as u8,
                'l' as u8,
                '-' as u8,
                'v' as u8,
                '1' as u8,
            ]);
    let all = nonce + sealed;
    assert(all.subrange(0, 24) =~= nonce);
    assert(all.subrange(24, all.len() as int) =~= sealed);
}

/// A handshake names its purpose, `atom-vault-cap-v1`, and what is sealed with its key is a nonce,
/// a capability and a tag.
pub proof fn law_purpose_of_a_handshake(state: SpakeState)
    requires
        state.identity() == PAKE_IDENTITY@,
    ensures
        state.identity() == seq![
            'a' as u8,
            't' as u8,
            'o' as u8,
            'm' as u8,
            '-' as u8,
            'v' as u8,
            'a' as u8,
            'u' as u8,
            'l' as u8,
            't' as u8,
            '-' as u8,
            'c' as u8,
            'a' as u8,
            'p' as u8,
            '-' as u8,
            'v' as u8,
            '1' as u8,
        ],
        SEALED_CAP_LEN == 24 + 64 + 16,
{
    assert(PAKE_IDENTITY@ =~= seq![
            'a' as u8,
            't' as u8,
            'o' as u8,
            'm' as u8,
            '-' as u8,
            'v' as u8,
            'a' as u8,
            'u' as u8,
            'l' as u8,
            't' as u8,
            '-' as u8,
            'c' as u8,
            'a' as u8,
            'p' as u8,
            '-' as u8,
            'v' as u8,
            '1' as u8,
        ]);
}

} // verus!
