//! Transfer of a vault through a blind store.
//!
//! * `encode` frames a stream into blocks of one size, pads the number of blocks up a ladder, and
//!   holds the manifest.
//! * `crypto` derives the keys and seals the blocks.
//! * `pake` delivers the read capability over a channel that a short secret opens.
//! * `store` holds sealed blocks under opaque identifiers, uploads and downloads.
//!
//! The root key never reaches the store.

use crate::bytes::{push_all, to_array};
use crate::p2p_direct::crypto::{commitment_of, RootKey};
use crate::primitives::{wipe_array, wipe_bytes};
use crate::text::{copy_text, push_text};
use vstd::prelude::*;

pub mod crypto;
pub mod encode;
pub mod pake;
pub mod store;

verus! {

/// What went wrong in a transfer.
#[derive(Debug)]
pub enum Error {
    /// Sealing, opening or deriving a key failed. It does not say why.
    Crypto,
    /// The handshake failed. It does not say why.
    Pake,
    /// A manifest could not be read.
    Serialize(String),
    /// The store could not put or get an object.
    Store(String),
    /// The source could not be read or the output not written.
    Io(String),
    /// What the store served does not have the promised shape.
    Malformed(String),
    /// The payload does not belong to the capability.
    CommitmentMismatch,
}

/// An error without the words of the codec and of the operating system.
pub enum Failure {
    Crypto,
    Pake,
    Serialize,
    Store(Seq<char>),
    Io,
    Malformed(Seq<char>),
    CommitmentMismatch,
}

impl Failure {
    /// The words that an error of this kind has: exactly these, but for an outside codec or the
    /// system, whose own words follow the first ones.
    pub open spec fn says(self, words: Seq<char>) -> bool {
        match self {
            Failure::Crypto => words == "cryptographic operation failed"@,
            Failure::Pake => words == "PAKE handshake failed"@,
            Failure::Serialize => "serialization error: "@.is_prefix_of(words),
            Failure::Store(s) => words == "blind store error: "@ + s,
            Failure::Io => "i/o error: "@.is_prefix_of(words),
            Failure::Malformed(s) => words == "malformed data: "@ + s,
            Failure::CommitmentMismatch => words
                == "commitment mismatch: downloaded payload does not match the capability"@,
        }
    }
}

/// The words of an error are those of its kind.
pub proof fn lemma_error_says(e: Error)
    ensures
        e@.says(e.text()),
{
    match e {
        Error::Serialize(s) => {
            assert(e.text().subrange(0, "serialization error: "@.len() as int)
                =~= "serialization error: "@);
        },
        Error::Io(s) => {
            assert(e.text().subrange(0, "i/o error: "@.len() as int) =~= "i/o error: "@);
        },
        _ => {},
    }
}

impl View for Error {
    type V = Failure;

    open spec fn view(&self) -> Failure {
        match self {
            Error::Crypto => Failure::Crypto,
            Error::Pake => Failure::Pake,
            Error::Serialize(_) => Failure::Serialize,
            Error::Store(s) => Failure::Store(s@),
            Error::Io(_) => Failure::Io,
            Error::Malformed(s) => Failure::Malformed(s@),
            Error::CommitmentMismatch => Failure::CommitmentMismatch,
        }
    }
}

impl Error {
    /// The words of an error.
    pub open spec fn text(self) -> Seq<char> {
        match self {
            Error::Crypto => "cryptographic operation failed"@,
            Error::Pake => "PAKE handshake failed"@,
            Error::Serialize(s) => "serialization error: "@ + s@,
            Error::Store(s) => "blind store error: "@ + s@,
            Error::Io(s) => "i/o error: "@ + s@,
            Error::Malformed(s) => "malformed data: "@ + s@,
            Error::CommitmentMismatch =>
                "commitment mismatch: downloaded payload does not match the capability"@,
        }
    }

    /// The words of an error.
    pub fn message(&self) -> (r: String)
        ensures
            r@ == self.text(),
    {
        match self {
            Error::Crypto => copy_text("cryptographic operation failed"),
            Error::Pake => copy_text("PAKE handshake failed"),
            Error::Serialize(s) => prefixed("serialization error: ", s),
            Error::Store(s) => prefixed("blind store error: ", s),
            Error::Io(s) => prefixed("i/o error: ", s),
            Error::Malformed(s) => prefixed("malformed data: ", s),
            Error::CommitmentMismatch => copy_text(
                "commitment mismatch: downloaded payload does not match the capability",
            ),
        }
    }
}

fn prefixed(head: &str, tail: &str) -> (r: String)
    ensures
        r@ == head@ + tail@,
{
    let mut out: String = copy_text(head);
    push_text(&mut out, tail);
    out
}

/// A bearer capability to read one transfer: the root key, from which every key is derived, and
/// the object that holds the manifest.
pub struct ReadCap {
    pub root_key: RootKey,
    pub manifest_id: [u8; 32],
}

/// The bytes of a capability: the root key, then the manifest identifier.
pub open spec fn cap_bytes(cap: ReadCap) -> Seq<u8> {
    cap.root_key@ + cap.manifest_id@
}

impl ReadCap {
    /// The length of the bytes of a capability.
    pub const SERIALIZED_LEN: usize = 64;

    /// The bytes of a capability.
    pub fn to_bytes(&self) -> (r: [u8; 64])
        ensures
            r@ == cap_bytes(*self),
    {
        let mut out: Vec<u8> = Vec::new();
        push_all(&mut out, self.root_key.as_bytes());
        push_all(&mut out, &self.manifest_id);
        let r: [u8; 64] = to_array(&out);
        wipe_bytes(&mut out);
        r
    }

    /// Overwrites the root key with zeros.
    pub fn wipe(&mut self)
        ensures
            final(self).root_key@ == Seq::new(32, |i: int| 0u8),
            final(self).manifest_id == old(self).manifest_id,
    {
        self.root_key.wipe();
    }

    /// Reads a capability from its bytes.
    pub fn from_bytes(bytes: &[u8]) -> (r: Result<Self, Error>)
        ensures
            r is Ok <==> bytes@.len() == Self::SERIALIZED_LEN,
            r matches Ok(cap) ==> cap_bytes(cap) == bytes@,
            r matches Err(e) ==> e@ == Failure::Malformed("read-cap has wrong length"@),
    {
        if bytes.len() != Self::SERIALIZED_LEN {
            return Err(Error::Malformed(copy_text("read-cap has wrong length")));
        }
        let mut root: [u8; 32] = to_array(vstd::slice::slice_subrange(bytes, 0, 32));
        let manifest_id: [u8; 32] = to_array(vstd::slice::slice_subrange(bytes, 32, 64));
        let cap: ReadCap = ReadCap { root_key: RootKey::from_bytes(root), manifest_id };
        assert(cap_bytes(cap) =~= bytes@);
        wipe_array(&mut root);
        Ok(cap)
    }

    /// The commitment that a sender publishes, so that a recipient can tell that a payload belongs
    /// to this capability.
    pub fn commitment(&self) -> (r: [u8; 32])
        ensures
            r@ == commitment_of(self.root_key@),
    {
        crypto::commitment(&self.root_key)
    }
}

/// The bytes of a capability determine it.
pub proof fn law_cap_bytes_injective(a: ReadCap, b: ReadCap)
    ensures
        cap_bytes(a) == cap_bytes(b) <==> a == b,
{
    if cap_bytes(a) == cap_bytes(b) {
        assert(cap_bytes(a).subrange(0, 32) =~= a.root_key@);
        assert(cap_bytes(b).subrange(0, 32) =~= b.root_key@);
        assert(cap_bytes(a).subrange(32, 64) =~= a.manifest_id@);
        assert(cap_bytes(b).subrange(32, 64) =~= b.manifest_id@);
        assert(a.manifest_id =~= b.manifest_id);
        assert(a.root_key.bytes =~= b.root_key.bytes);
    }
}

// ── Laws ─────────────────────────────────────────────────────────────────────

/// A capability is sixty-four bytes: the root key, and then the identifier of the manifest.
pub proof fn law_capability_layout(cap: ReadCap)
    ensures
        cap_bytes(cap).len() == 64,
        cap_bytes(cap).subrange(0, 32) == cap.root_key@,
        cap_bytes(cap).subrange(32, 64) == cap.manifest_id@,
{
    assert(cap_bytes(cap).subrange(0, 32) =~= cap.root_key@);
    assert(cap_bytes(cap).subrange(32, 64) =~= cap.manifest_id@);
}

/// What an error was told goes whole into its words, behind what kind of error it is.
pub proof fn law_errors_keep_their_words(e: Error)
    ensures
        match e {
            Error::Crypto => e.text() == "cryptographic operation failed"@,
            Error::Pake => e.text() == "PAKE handshake failed"@,
            Error::Serialize(s) => e.text() == "serialization error: "@ + s@,
            Error::Store(s) => e.text() == "blind store error: "@ + s@,
            Error::Io(s) => e.text() == "i/o error: "@ + s@,
            Error::Malformed(s) => e.text() == "malformed data: "@ + s@,
            Error::CommitmentMismatch => e.text()
                == "commitment mismatch: downloaded payload does not match the capability"@,
        },
        e@.says(e.text()),
{
    lemma_error_says(e);
}

} // verus!
