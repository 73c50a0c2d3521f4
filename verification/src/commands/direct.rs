//! Transfer through a blind store: padding, the copied handshake, sending and receiving.

use crate::base32::{blob_decodes, blob_error, decode_blob, encode_blob, unspaced};
use crate::cli::is_blank;
use crate::p2p_direct::crypto::{RootKey, DEFAULT_BLOCK_SIZE};
use crate::p2p_direct::encode::{
    blocks_for, ladder_total, law_ladder_lands_on_steps, lemma_blocks_for, EncodeParams, Ladder,
};
use crate::p2p_direct::pake::{
    open_cap, opened_cap, seal_cap, spake_outbound, start, SessionKey, SpakeState, PAKE_MESSAGE_LEN,
};
use crate::p2p_direct::store::{
    block_count, download, downloaded, object_count, stream_of, upload, upload_collided,
    upload_fault, BlindStore,
};
use crate::p2p_direct::{
    cap_bytes, law_cap_bytes_injective, lemma_error_says, Error, Failure, ReadCap,
};
use crate::text::{
    around, ascii_lower_text, concat, copy_text, hex, hex_spec, lower_text, same_text, starts_with,
    trim, trim_spec,
};
use vstd::prelude::*;
use vstd::slice::slice_subrange;
use vstd::utf8::encode_utf8;

verus! {

// ── Padding ──────────────────────────────────────────────────────────────────

/// How far the number of stored blocks is padded.
#[derive(Debug, Clone, Copy, PartialEq, Eq, Structural)]
pub enum PaddingProfile {
    /// Up to the next power of two.
    Maximum,
    /// Up to the next multiple of 1024 blocks.
    Balanced,
    /// Not at all: the store learns the true size.
    NoPadding,
}

/// The ladder of a profile.
pub open spec fn profile_ladder(p: PaddingProfile) -> Ladder {
    match p {
        PaddingProfile::Maximum => Ladder::NextPowerOfTwo,
        PaddingProfile::Balanced => Ladder::MultipleOf(1024),
        PaddingProfile::NoPadding => Ladder::Exact,
    }
}

/// The profile of a name, in whatever case.
pub open spec fn profile_named(s: Seq<char>) -> Option<PaddingProfile> {
    let name = ascii_lower_text(s);
    if name == "maximum"@ {
        Some(PaddingProfile::Maximum)
    } else if name == "balanced"@ {
        Some(PaddingProfile::Balanced)
    } else if name == "none"@ {
        Some(PaddingProfile::NoPadding)
    } else {
        None
    }
}

impl PaddingProfile {
    /// All profiles.
    pub const ALL: [PaddingProfile; 3] = [
        PaddingProfile::Maximum,
        PaddingProfile::Balanced,
        PaddingProfile::NoPadding,
    ];

    /// The ladder of the profile.
    pub fn ladder(self) -> (r: Ladder)
        ensures
            r == profile_ladder(self),
    {
        match self {
            PaddingProfile::Maximum => Ladder::NextPowerOfTwo,
            PaddingProfile::Balanced => Ladder::MultipleOf(1024),
            PaddingProfile::NoPadding => Ladder::Exact,
        }
    }

    /// What a user reads of the profile.
    pub fn label(self) -> (r: &'static str)
        ensures
            r@ == match self {
                PaddingProfile::Maximum => "Maximum (next power of two)"@,
                PaddingProfile::Balanced => "Balanced (multiple of 1024 blocks)"@,
                PaddingProfile::NoPadding => "None — leaks true size"@,
            },
    {
        match self {
            PaddingProfile::Maximum => "Maximum (next power of two)",
            PaddingProfile::Balanced => "Balanced (multiple of 1024 blocks)",
            PaddingProfile::NoPadding => "None — leaks true size",
        }
    }

    /// The profile that an argument names.
    pub fn from_cli(s: &str) -> (r: Result<Self, String>)
        ensures
            match profile_named(s@) {
                Some(p) => r == Ok::<PaddingProfile, String>(p),
                None => r matches Err(e) && e@ == "Unknown padding profile '"@ + ascii_lower_text(
                    s@,
                ) + "'. Expected maximum, balanced, or none."@,
            },
    {
        let name: String = lower_text(s);
        if same_text(&name, "maximum") {
            Ok(PaddingProfile::Maximum)
        } else if same_text(&name, "balanced") {
            Ok(PaddingProfile::Balanced)
        } else if same_text(&name, "none") {
            Ok(PaddingProfile::NoPadding)
        } else {
            Err(
                around(
                    "Unknown padding profile '",
                    &name,
                    "'. Expected maximum, balanced, or none.",
                ),
            )
        }
    }
}

// ── The handshake ────────────────────────────────────────────────────────────

/// Starts a handshake from the short secret: the state, and the blob for the other side.
pub fn begin_handshake(short_secret: &str) -> (r: Result<(SpakeState, String), String>)
    ensures
        r is Ok <==> trim_spec(short_secret@).len() > 0,
        r matches Ok(p) ==> {
            &&& p.0.started()
            &&& p.0.secret() == encode_utf8(trim_spec(short_secret@))
            &&& p.0.identity() == crate::p2p_direct::pake::PAKE_IDENTITY@
            &&& p.0.sent().len() == PAKE_MESSAGE_LEN
            &&& p.1@ == crate::base32::blob_text(p.0.sent())
        },
        r matches Err(e) ==> e@ == "Short secret cannot be empty."@,
{
    let secret: String = trim(short_secret);
    if secret.as_str().is_empty() {
        return Err(copy_text("Short secret cannot be empty."));
    }
    let (state, msg) = start(secret.as_str().as_bytes());
    Ok((state, encode_blob(&msg)))
}

/// What is said of a handshake message that is refused.
pub const HANDSHAKE_FAILED: &'static str = "Handshake failed. Check the peer's handshake message.";

/// What is said of a capability that does not open.
pub const CAP_NOT_OPENED: &'static str =
    "Could not open the capability. The short secret or handshake messages do not match, or the blob was altered.";

/// Completes a handshake with the blob of the other side. A wrong secret does not show here: a
/// message that a handshake can start with is accepted, whatever secret the other side typed, and
/// the secret shows when the sealed capability does not open.
pub fn complete_handshake(state: SpakeState, peer_blob: &str) -> (r: Result<SessionKey, String>)
    ensures
        (forall|b: Seq<u8>| !#[trigger] blob_decodes(peer_blob@, b)) ==> (r matches Err(e)
            && blob_error(peer_blob@, e@)),
        r matches Ok(k) ==> exists|b: Seq<u8>| #[trigger]
            blob_decodes(peer_blob@, b) && state.agrees(b, k@),
        forall|b: Seq<u8>, secret: Seq<u8>, identity: Seq<u8>| #[trigger]
            blob_decodes(peer_blob@, b) && #[trigger] spake_outbound(secret, identity, b)
                ==> r is Ok,
        forall|b: Seq<u8>| #[trigger]
            blob_decodes(peer_blob@, b) ==> (r matches Err(e) ==> e@ == HANDSHAKE_FAILED@),
{
    let peer: Vec<u8> = match decode_blob(peer_blob) {
        Ok(b) => b,
        Err(e) => return Err(e),
    };
    proof {
        assert forall|b: Seq<u8>| #[trigger] blob_decodes(peer_blob@, b) implies b == peer@ by {
            crate::base32::law_blob_unambiguous(peer_blob@, b, peer@);
        }
    }
    match state.finish(&peer) {
        Ok(k) => Ok(k),
        Err(_) => Err(copy_text(HANDSHAKE_FAILED)),
    }
}

/// Two sides that type the same secret and paste each other's blobs, however those changed case
/// and spacing, derive the same key.
pub proof fn law_pasted_handshake_agrees(
    a: SpakeState,
    b: SpakeState,
    pasted_by_a: Seq<char>,
    pasted_by_b: Seq<char>,
    received_by_a: Seq<u8>,
    received_by_b: Seq<u8>,
    key_a: Seq<u8>,
    key_b: Seq<u8>,
)
    requires
        a.started(),
        b.started(),
        a.secret() == b.secret(),
        a.identity() == b.identity(),
        a.sent().len() == PAKE_MESSAGE_LEN,
        b.sent().len() == PAKE_MESSAGE_LEN,
        ascii_lower_text(unspaced(pasted_by_a)) == crate::base32::blob_text(b.sent()),
        ascii_lower_text(unspaced(pasted_by_b)) == crate::base32::blob_text(a.sent()),
        blob_decodes(pasted_by_a, received_by_a),
        blob_decodes(pasted_by_b, received_by_b),
        a.agrees(received_by_a, key_a),
        b.agrees(received_by_b, key_b),
    ensures
        key_a == key_b,
{
    crate::base32::law_blob_round_trip(b.sent(), pasted_by_a);
    crate::base32::law_blob_round_trip(a.sent(), pasted_by_b);
    crate::base32::law_blob_unambiguous(pasted_by_a, b.sent(), received_by_a);
    crate::base32::law_blob_unambiguous(pasted_by_b, a.sent(), received_by_b);
    crate::p2p_direct::pake::law_same_secret_same_key(a, b, key_a, key_b);
}

// ── Sending ──────────────────────────────────────────────────────────────────

/// Why a transfer is not started.
pub open spec fn send_fault(vault_found: bool, vault_path: Seq<char>, store_url: Seq<char>) -> Option<
    Seq<char>,
> {
    let url = trim_spec(store_url);
    if url.len() == 0 {
        Some("Blind store URL is required."@)
    } else if !"https://"@.is_prefix_of(url) {
        Some(
            "Refusing to upload over a non-HTTPS store URL. Use https:// so the store cannot be trivially observed or tampered with in transit."@,
        )
    } else if !vault_found {
        Some("Vault not found: "@ + vault_path)
    } else {
        None
    }
}

/// Checks what a transfer is started with: the address of the store, and that there is a vault.
pub fn check_send(vault_found: bool, vault_path: &str, store_url: &str) -> (r: Option<String>)
    ensures
        crate::paths::optional_text(r) == send_fault(vault_found, vault_path@, store_url@),
{
    let url: String = trim(store_url);
    if url.as_str().is_empty() {
        return Some(copy_text("Blind store URL is required."));
    }
    if !starts_with(&url, "https://") {
        return Some(
            copy_text(
                "Refusing to upload over a non-HTTPS store URL. Use https:// so the store cannot be trivially observed or tampered with in transit.",
            ),
        );
    }
    if !vault_found {
        return Some(concat("Vault not found: ", vault_path));
    }
    None
}

/// Blocks of the default size never outnumber what a machine can count, decoys included.
proof fn lemma_default_blocks(len: nat, padding: PaddingProfile)
    requires
        len <= usize::MAX,
    ensures
        ladder_total(
            profile_ladder(padding),
            blocks_for(len, DEFAULT_BLOCK_SIZE as nat),
        ) <= usize::MAX,
{
    lemma_blocks_for(len, DEFAULT_BLOCK_SIZE as nat);
    let n = blocks_for(len, DEFAULT_BLOCK_SIZE as nat);
    if n > 0 {
        law_ladder_lands_on_steps(n, 1024);
    }
}

/// A sealed capability for a transfer that stands in the store: whoever opens it with the session
/// key gets a capability that gives the vault back.
pub open spec fn delivers(
    objects: Map<Seq<u8>, Seq<u8>>,
    session: Seq<u8>,
    sealed: Seq<u8>,
    vault: Seq<u8>,
) -> bool {
    exists|cap: ReadCap|
        opened_cap(session, sealed) == Ok::<Seq<u8>, Failure>(#[trigger] cap_bytes(cap))
            && downloaded(objects, cap.root_key@, cap.manifest_id@) == Ok::<Seq<u8>, Failure>(vault)
}

/// The parameters that a vault is sent with.
pub open spec fn vault_params(padding: PaddingProfile) -> EncodeParams {
    EncodeParams { block_size: DEFAULT_BLOCK_SIZE, ladder: profile_ladder(padding) }
}

/// The number of stored blocks up to which neither block indices nor the manifest run out of room.
pub const SAFE_BLOCKS: u64 = 4_000_000_000;

/// Short of petabytes, nothing in a vault keeps it from being uploaded.
pub proof fn law_ordinary_vaults_can_be_sent(vault: Seq<u8>, padding: PaddingProfile)
    requires
        object_count(vault, vault_params(padding)) <= SAFE_BLOCKS,
    ensures
        upload_fault(vault, vault_params(padding)) is None,
{
    crate::p2p_direct::encode::law_ladder_covers(
        profile_ladder(padding),
        block_count(vault, vault_params(padding)),
    );
}

/// The words of a failed upload.
pub open spec fn upload_words(f: Failure) -> Seq<char> {
    "Upload failed: "@ + match f {
        Failure::Store(w) => "blind store error: "@ + w,
        Failure::Malformed(w) => "malformed data: "@ + w,
        _ => "cryptographic operation failed"@,
    }
}

/// What a sender is given for the outcome of an upload: the blob of the capability, sealed for the
/// other side, or why the upload failed.
pub fn send_reply(session: &SessionKey, uploaded: Result<ReadCap, Error>) -> (r: Result<
    String,
    String,
>)
    ensures
        match uploaded {
            Ok(cap) => r matches Ok(blob) && exists|sealed: Seq<u8>|
                blob@ == #[trigger] crate::base32::blob_text(sealed) && opened_cap(session@, sealed)
                    == Ok::<Seq<u8>, Failure>(cap_bytes(cap)),
            Err(e) => r matches Err(w) && w@ == "Upload failed: "@ + e.text(),
        },
{
    let mut cap: ReadCap = match uploaded {
        Ok(c) => c,
        Err(e) => return Err(concat("Upload failed: ", &e.message())),
    };
    let result = seal_cap(session, &cap);
    cap.wipe();
    let sealed: Vec<u8> = match result {
        Ok(s) => s,
        Err(e) => return Err(concat("Failed to seal capability: ", &e.message())),
    };
    let blob: String = encode_blob(&sealed);
    assert(blob@ == crate::base32::blob_text(sealed@));
    Ok(blob)
}

/// Uploads a vault under a fresh root key and seals the capability for the other side. The result
/// is the blob of the sealed capability. A request that `check_send` faults is refused, and the
/// store is then left alone. An upload to a store that answers fails only by a fault of the data,
/// which no ordinary vault has, or where a random identifier is in use.
pub fn send_core<S: BlindStore>(
    vault: &Option<Vec<u8>>,
    vault_path: &str,
    store_url: &str,
    session: &SessionKey,
    padding: PaddingProfile,
    store: &mut S,
) -> (r: Result<String, String>)
    ensures
        final(store).answers() == old(store).answers(),
        send_fault(*vault is Some, vault_path@, store_url@) matches Some(f) ==> (r matches Err(e)
            && e@ == f) && final(store).objects() == old(store).objects(),
        send_fault(*vault is Some, vault_path@, store_url@) is None ==> {
            let data = vault->Some_0@;
            let before = old(store).objects();
            let now = final(store).objects();
            let fault = upload_fault(data, vault_params(padding));
            &&& r matches Ok(blob) ==> fault is None && exists|sealed: Seq<u8>|
                blob@ == #[trigger] crate::base32::blob_text(sealed) && delivers(
                    now,
                    session@,
                    sealed,
                    data,
                )
            &&& old(store).answers() && data.len() == 0 && before == Map::<
                Seq<u8>,
                Seq<u8>,
            >::empty() ==> r is Ok
            &&& old(store).answers() ==> (r matches Err(e) ==> {
                ||| fault matches Some(f) && e@ == upload_words(f)
                ||| e@ == upload_words(Failure::Store("object already exists"@))
                    && upload_collided(before, now, data, vault_params(padding))
            })
        },
{
    if let Some(f) = check_send(vault.is_some(), vault_path, store_url) {
        return Err(f);
    }
    let data: &Vec<u8> = match vault {
        Some(d) => d,
        None => return Err(concat("Vault not found: ", vault_path)),
    };
    let params: EncodeParams = EncodeParams {
        block_size: DEFAULT_BLOCK_SIZE,
        ladder: padding.ladder(),
    };
    let mut root: RootKey = RootKey::generate();
    proof {
        assert(data@.len() == data.len());
        lemma_default_blocks(data@.len(), padding);
        assert(stream_of(data@, DEFAULT_BLOCK_SIZE as nat) == data@);
        assert(params == vault_params(padding));
        if data@.len() == 0 {
            assert(object_count(data@, params) == 0);
            law_ordinary_vaults_can_be_sent(data@, padding);
        }
    }
    let uploaded: Result<ReadCap, Error> = upload(data, &params, &root, store);
    root.wipe();
    let ghost outcome = uploaded;
    let r: Result<String, String> = send_reply(session, uploaded);
    proof {
        if let Ok(cap) = outcome {
            let sealed = choose|sealed: Seq<u8>|
                r->Ok_0@ == #[trigger] crate::base32::blob_text(sealed) && opened_cap(
                    session@,
                    sealed,
                ) == Ok::<Seq<u8>, Failure>(cap_bytes(cap));
            assert(delivers(store.objects(), session@, sealed, data@)) by {
                assert(opened_cap(session@, sealed) == Ok::<Seq<u8>, Failure>(cap_bytes(cap)));
            }
        }
    }
    r
}

// ── Receiving ────────────────────────────────────────────────────────────────

/// Why a vault is not received.
pub open spec fn receive_fault(save_path: Seq<char>, store_url: Seq<char>) -> Option<Seq<char>> {
    if trim_spec(store_url).len() == 0 {
        Some("Blind store URL is required."@)
    } else if trim_spec(save_path).len() == 0 {
        Some("Destination path is required."@)
    } else {
        None
    }
}

/// Checks what receiving is started with.
pub fn check_receive(save_path: &str, store_url: &str) -> (r: Option<String>)
    ensures
        crate::paths::optional_text(r) == receive_fault(save_path@, store_url@),
{
    if is_blank(store_url) {
        return Some(copy_text("Blind store URL is required."));
    }
    if is_blank(save_path) {
        return Some(copy_text("Destination path is required."));
    }
    None
}

/// Opens the capability in a pasted blob.
pub fn open_pasted_cap(session: &SessionKey, sealed_cap_blob: &str) -> (r: Result<ReadCap, String>)
    ensures
        r matches Ok(cap) ==> exists|sealed: Seq<u8>| #[trigger]
            blob_decodes(sealed_cap_blob@, sealed) && opened_cap(session@, sealed) == Ok::<
                Seq<u8>,
                Failure,
            >(cap_bytes(cap)),
        forall|sealed: Seq<u8>| #[trigger]
            blob_decodes(sealed_cap_blob@, sealed) && opened_cap(session@, sealed) is Ok ==> r is Ok,
        forall|sealed: Seq<u8>| #[trigger]
            blob_decodes(sealed_cap_blob@, sealed) && opened_cap(session@, sealed) is Err ==> (
            r matches Err(e) && e@ == CAP_NOT_OPENED@),
        (forall|sealed: Seq<u8>| !#[trigger] blob_decodes(sealed_cap_blob@, sealed)) ==> (
        r matches Err(e) && blob_error(sealed_cap_blob@, e@)),
{
    let sealed: Vec<u8> = match decode_blob(sealed_cap_blob) {
        Ok(b) => b,
        Err(e) => return Err(e),
    };
    proof {
        assert forall|b: Seq<u8>| #[trigger] blob_decodes(sealed_cap_blob@, b) implies b
            == sealed@ by {
            crate::base32::law_blob_unambiguous(sealed_cap_blob@, b, sealed@);
        }
    }
    match open_cap(session, &sealed) {
        Ok(cap) => {
            assert(blob_decodes(sealed_cap_blob@, sealed@));
            Ok(cap)
        },
        Err(_) => Err(copy_text(CAP_NOT_OPENED)),
    }
}

/// What is said where a decoded blob does not give a vault: that the capability does not open, or
/// why the download failed.
pub open spec fn receive_error(
    objects: Map<Seq<u8>, Seq<u8>>,
    answers: bool,
    session: Seq<u8>,
    sealed: Seq<u8>,
    r: Result<Vec<u8>, String>,
) -> bool {
    &&& opened_cap(session, sealed) is Err ==> (r matches Err(w) && w@ == CAP_NOT_OPENED@)
    &&& forall|cap: ReadCap|
        opened_cap(session, sealed) == Ok::<Seq<u8>, Failure>(#[trigger] cap_bytes(cap)) ==> {
            &&& r matches Err(w) ==> exists|words: Seq<char>|
                w@ == #[trigger] ("Download failed: "@ + words)
            &&& answers ==> (downloaded(objects, cap.root_key@, cap.manifest_id@) matches Err(f)
                ==> (r matches Err(w) && exists|words: Seq<char>|
                w@ == #[trigger] ("Download failed: "@ + words) && f.says(words)))
        }
}

/// Receives the vault of a pasted capability.
///
/// With a store that answers, a blob that delivers a vault gives that vault.
pub fn receive_core<S: BlindStore>(
    save_path: &str,
    store_url: &str,
    session: &SessionKey,
    sealed_cap_blob: &str,
    store: &S,
) -> (r: Result<Vec<u8>, String>)
    ensures
        receive_fault(save_path@, store_url@) matches Some(f) ==> (r matches Err(e) && e@ == f),
        r matches Ok(v) ==> exists|sealed: Seq<u8>| #[trigger]
            blob_decodes(sealed_cap_blob@, sealed) && delivers(
                store.objects(),
                session@,
                sealed,
                v@,
            ),
        receive_fault(save_path@, store_url@) is None && store.answers() ==> forall|
            sealed: Seq<u8>,
            vault: Seq<u8>,
        | #[trigger]
            blob_decodes(sealed_cap_blob@, sealed) && #[trigger] delivers(
                store.objects(),
                session@,
                sealed,
                vault,
            ) ==> (r matches Ok(v) && v@ == vault),
        receive_fault(save_path@, store_url@) is None ==> forall|sealed: Seq<u8>| #[trigger]
            blob_decodes(sealed_cap_blob@, sealed) ==> receive_error(
                store.objects(),
                store.answers(),
                session@,
                sealed,
                r,
            ),
        receive_fault(save_path@, store_url@) is None && (forall|sealed: Seq<u8>|
            !#[trigger] blob_decodes(sealed_cap_blob@, sealed)) ==> (r matches Err(e)
            && blob_error(sealed_cap_blob@, e@)),
{
    if let Some(f) = check_receive(save_path, store_url) {
        return Err(f);
    }
    let mut cap: ReadCap = match open_pasted_cap(session, sealed_cap_blob) {
        Ok(c) => c,
        Err(e) => return Err(e),
    };
    let ghost opened = cap;
    let ghost sealed = choose|sealed: Seq<u8>| #[trigger]
        blob_decodes(sealed_cap_blob@, sealed) && opened_cap(session@, sealed) == Ok::<
            Seq<u8>,
            Failure,
        >(cap_bytes(cap));
    let mut out: Vec<u8> = Vec::new();
    let result = download(&cap, store, &mut out);
    cap.wipe();
    proof {
        let cap = opened;
        assert(out@.subrange(0, out@.len() as int) =~= out@);
        assert forall|other: Seq<u8>, vault: Seq<u8>| #[trigger]
            blob_decodes(sealed_cap_blob@, other) && #[trigger] delivers(
                store.objects(),
                session@,
                other,
                vault,
            ) implies downloaded(store.objects(), cap.root_key@, cap.manifest_id@) == Ok::<
            Seq<u8>,
            Failure,
        >(vault) by {
            crate::base32::law_blob_unambiguous(sealed_cap_blob@, sealed, other);
            let c = choose|c: ReadCap|
                opened_cap(session@, other) == Ok::<Seq<u8>, Failure>(#[trigger] cap_bytes(c))
                    && downloaded(store.objects(), c.root_key@, c.manifest_id@) == Ok::<
                    Seq<u8>,
                    Failure,
                >(vault);
            law_cap_bytes_injective(c, cap);
        }
        assert forall|other: Seq<u8>| #[trigger] blob_decodes(sealed_cap_blob@, other) implies other
            == sealed by {
            crate::base32::law_blob_unambiguous(sealed_cap_blob@, sealed, other);
        }
        assert forall|c: ReadCap|
            opened_cap(session@, sealed) == Ok::<Seq<u8>, Failure>(
                #[trigger] cap_bytes(c),
            ) implies c == cap by {
            law_cap_bytes_injective(c, cap);
        }
        if result is Err {
            lemma_error_says(result->Err_0);
        }
    }
    match result {
        Ok(()) => {
            assert(delivers(store.objects(), session@, sealed, out@));
            Ok(out)
        },
        Err(e) => {
            let w: String = concat("Download failed: ", &e.message());
            assert(w@ == "Download failed: "@ + e.text());
            Err(w)
        },
    }
}

/// The first four bytes of a commitment in hexadecimal, for display.
pub fn hex_prefix(bytes: &[u8; 32]) -> (r: String)
    ensures
        r@ == hex_spec(bytes@.subrange(0, 4)),
{
    hex(slice_subrange(bytes, 0, 4))
}

// ── Laws ─────────────────────────────────────────────────────────────────────

/// A profile is named in any mixture of small and capital letters: what decides is the name in
/// small letters, which is `maximum`, `balanced` or `none`.
pub proof fn law_profiles_are_named_in_any_case(a: Seq<char>, b: Seq<char>)
    ensures
        ascii_lower_text(a) == ascii_lower_text(b) ==> profile_named(a) == profile_named(b),
        profile_named(a) == Some(PaddingProfile::Maximum) <==> ascii_lower_text(a) == "maximum"@,
        profile_named(a) == Some(PaddingProfile::Balanced) <==> ascii_lower_text(a) == "balanced"@,
        profile_named(a) == Some(PaddingProfile::NoPadding) <==> ascii_lower_text(a) == "none"@,
{
    reveal_strlit("maximum");
    reveal_strlit("balanced");
    reveal_strlit("none");
    assert("maximum"@.len() == 7 && "balanced"@.len() == 8 && "none"@.len() == 4);
}

/// The number of blocks under a profile: a power of two, a multiple of 1024, or what is there.
pub proof fn law_profiles_pad_as_they_say(p: PaddingProfile)
    ensures
        p is Maximum <==> profile_ladder(p) is NextPowerOfTwo,
        p is Balanced <==> profile_ladder(p) == Ladder::MultipleOf(1024),
        p is NoPadding <==> profile_ladder(p) is Exact,
        vault_params(p).ladder == profile_ladder(p),
{
}

/// A transfer starts exactly where the store is named over HTTPS, white space aside, and the vault
/// is there; a missing vault is named.
pub proof fn law_transfers_need_https(vault_found: bool, vault_path: Seq<char>, store_url: Seq<char>)
    ensures
        send_fault(vault_found, vault_path, store_url) is None <==> vault_found && exists|
            rest: Seq<char>,
        | #[trigger]
            ("https://"@ + rest) == trim_spec(store_url),
        !vault_found && "https://"@.is_prefix_of(trim_spec(store_url)) && trim_spec(store_url).len()
            > 0 ==> send_fault(vault_found, vault_path, store_url) == Some(
            "Vault not found: "@ + vault_path,
        ),
        trim_spec(store_url).len() == 0 ==> send_fault(vault_found, vault_path, store_url) == Some(
            "Blind store URL is required."@,
        ),
        trim_spec(store_url).len() > 0 && !"https://"@.is_prefix_of(trim_spec(store_url))
            ==> send_fault(vault_found, vault_path, store_url) == Some(
            "Refusing to upload over a non-HTTPS store URL. Use https:// so the store cannot be trivially observed or tampered with in transit."@,
        ),
{
    reveal_strlit("https://");
    let url = trim_spec(store_url);
    if "https://"@.is_prefix_of(url) {
        let rest = url.subrange(8, url.len() as int);
        assert("https://"@ + rest =~= url) by {
            assert(url.subrange(0, 8) == "https://"@);
            assert(url =~= url.subrange(0, 8) + rest);
        }
    }
    if exists|rest: Seq<char>| #[trigger] ("https://"@ + rest) == url {
        let rest = choose|rest: Seq<char>| #[trigger] ("https://"@ + rest) == url;
        assert(url.subrange(0, 8) =~= "https://"@);
    }
}

/// A vault is received exactly where a store and a place for it are named.
pub proof fn law_receiving_needs_store_and_place(save_path: Seq<char>, store_url: Seq<char>)
    ensures
        receive_fault(save_path, store_url) is None <==> trim_spec(store_url).len() > 0 && trim_spec(
            save_path,
        ).len() > 0,
        trim_spec(store_url).len() == 0 ==> receive_fault(save_path, store_url) == Some(
            "Blind store URL is required."@,
        ),
        trim_spec(store_url).len() > 0 && trim_spec(save_path).len() == 0 ==> receive_fault(
            save_path,
            store_url,
        ) == Some("Destination path is required."@),
{
}

/// The words of a failed upload hold those of the store or of the data, whole and behind what kind
/// of failure it was.
pub proof fn law_upload_failures_are_told(words: Seq<char>)
    ensures
        upload_words(Failure::Store(words)) == "Upload failed: "@ + ("blind store error: "@ + words),
        upload_words(Failure::Malformed(words)) == "Upload failed: "@ + ("malformed data: "@
            + words),
        upload_words(Failure::Crypto) == "Upload failed: "@ + "cryptographic operation failed"@,
{
}

/// What is delivered is the vault: whoever has the session key opens the sealed capability, and the
/// store gives back the vault for it.
pub proof fn law_delivered_capability_gives_the_vault(
    objects: Map<Seq<u8>, Seq<u8>>,
    session: Seq<u8>,
    sealed: Seq<u8>,
    vault: Seq<u8>,
    cap: ReadCap,
)
    requires
        delivers(objects, session, sealed, vault),
        opened_cap(session, sealed) == Ok::<Seq<u8>, Failure>(cap_bytes(cap)),
    ensures
        downloaded(objects, cap.root_key@, cap.manifest_id@) == Ok::<Seq<u8>, Failure>(vault),
{
    let c = choose|c: ReadCap|
        opened_cap(session, sealed) == Ok::<Seq<u8>, Failure>(#[trigger] cap_bytes(c))
            && downloaded(objects, c.root_key@, c.manifest_id@) == Ok::<Seq<u8>, Failure>(vault);
    law_cap_bytes_injective(c, cap);
}

/// Where a capability opens and the vault still cannot be had, it is told that the download failed;
/// where the capability does not open, it is told that.
pub proof fn law_words_for_a_failed_reception(
    objects: Map<Seq<u8>, Seq<u8>>,
    answers: bool,
    session: Seq<u8>,
    sealed: Seq<u8>,
    r: Result<Vec<u8>, String>,
    cap: ReadCap,
)
    requires
        receive_error(objects, answers, session, sealed, r),
        r is Err,
    ensures
        opened_cap(session, sealed) is Err ==> r->Err_0@ == CAP_NOT_OPENED@,
        opened_cap(session, sealed) == Ok::<Seq<u8>, Failure>(cap_bytes(cap)) ==> "Download failed: "@.is_prefix_of(
            r->Err_0@,
        ),
{
    if opened_cap(session, sealed) == Ok::<Seq<u8>, Failure>(cap_bytes(cap)) {
        let w = r->Err_0@;
        let words = choose|words: Seq<char>| w == #[trigger] ("Download failed: "@ + words);
        assert(w.subrange(0, "Download failed: "@.len() as int) =~= "Download failed: "@);
    }
}

/// A vault is sent in blocks of a mebibyte.
pub proof fn law_vaults_are_sent_in_mebibytes(p: PaddingProfile)
    ensures
        vault_params(p).block_size == 1024 * 1024,
        vault_params(p).ladder == profile_ladder(p),
{
}

} // verus!
