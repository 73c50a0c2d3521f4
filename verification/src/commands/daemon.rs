//! The background listener: the own link, and what happens to a friend's proposal.

use crate::base32::{
    base32_len, base32_spec, blob_text, encode_blob, group_at, law_base32_injective,
    lemma_base32_utf8_len, readable_base32,
};
use crate::bytes::push_all;
use crate::commands::p2p_utils::{
    atom_uri, base32_value, ed25519_valid, find_by_key, find_friend, friend_at, friend_rows,
    has_friend, has_key, key_at, vault_row, vault_rows, FriendRecord, SharedVault, SyncMessage,
    UriFault,
};
use crate::paths::{optional_text, push_path, pushed};
use crate::primitives::{sha3_256, sha3_256_digest};
use crate::text::{
    all_white, around, ascii_lower_text, concat, copy_text, law_case_changes_letters_alone,
    law_trim_keeps_the_rest, law_trim_takes_white_space_from_the_ends, lemma_ascii_utf8_len,
    lemma_find_char, lower_text, push_text, same_text, trim, trim_spec, upper_of,
};
use ed25519_dalek::SigningKey;
use vstd::prelude::*;
use vstd::slice::slice_subrange;
use vstd::utf8::encode_utf8;

verus! {

// ── The own link ─────────────────────────────────────────────────────────────

/// The public key of an Ed25519 secret key.
pub uninterp spec fn ed25519_public(secret: Seq<u8>) -> Seq<u8>;

/// `SigningKey::from_bytes` and `verifying_key`: the public key of a secret key, which is a valid
/// public key.
#[verifier::external_body]
fn public_key(secret: &[u8; 32]) -> (r: [u8; 32])
    ensures
        r@ == ed25519_public(secret@),
        ed25519_valid(r@),
{
    SigningKey::from_bytes(secret).verifying_key().to_bytes()
}

/// `.onion checksum`
pub const ONION_CHECKSUM: [u8; 15] = [
    0x2e, 0x6f, 0x6e, 0x69, 0x6f, 0x6e, 0x20, 0x63, 0x68, 0x65, 0x63, 0x6b, 0x73, 0x75, 0x6d,
];

/// The version of an onion address.
pub const ONION_VERSION: u8 = 3;

/// The bytes of an onion address: the service's public key, two bytes of a checksum, the version.
pub open spec fn onion_bytes(service: Seq<u8>) -> Seq<u8> {
    service + sha3_256(ONION_CHECKSUM@ + service + seq![ONION_VERSION]).subrange(0, 2) + seq![
        ONION_VERSION,
    ]
}

/// The onion address of a service.
pub open spec fn onion_spec(service: Seq<u8>) -> Seq<char> {
    blob_text(onion_bytes(service)) + ".onion"@
}

/// The onion address of a service, by its public key.
pub fn onion_address(service: &[u8; 32]) -> (r: String)
    ensures
        r@ == onion_spec(service@),
        onion_bytes(service@).len() == 35,
{
    let mut checked: Vec<u8> = Vec::new();
    push_all(&mut checked, &ONION_CHECKSUM);
    push_all(&mut checked, service);
    checked.push(ONION_VERSION);
    assert(checked@ =~= ONION_CHECKSUM@ + service@ + seq![ONION_VERSION]);
    let digest: [u8; 32] = sha3_256_digest(&checked);
    let mut bytes: Vec<u8> = Vec::new();
    push_all(&mut bytes, service);
    push_all(&mut bytes, slice_subrange(&digest, 0, 2));
    bytes.push(ONION_VERSION);
    assert(bytes@ =~= onion_bytes(service@));
    concat(&encode_blob(&bytes), ".onion")
}

/// The link of a user: the onion address of the service and the identity key.
pub open spec fn link_spec(service: Seq<u8>, identity: Seq<u8>) -> Seq<char> {
    "atom://"@ + onion_spec(service) + "/"@ + blob_text(identity)
}

/// The characters of a blob are lower-case letters and digits.
proof fn lemma_blob_chars(b: Seq<u8>)
    ensures
        blob_text(b).len() == base32_len(b.len()),
        forall|i: int|
            0 <= i < blob_text(b).len() ==> {
                let c = #[trigger] blob_text(b)[i];
                ('a' <= c && c <= 'z') || ('2' <= c && c <= '7')
            },
{
    assert forall|i: int| 0 <= i < blob_text(b).len() implies {
        let c = #[trigger] blob_text(b)[i];
        ('a' <= c && c <= 'z') || ('2' <= c && c <= '7')
    } by {
        let v = group_at(b, i);
        crate::base32::lemma_group(b, i);
        assert(base32_spec(b)[i] == crate::base32::base32_char(v));
    }
}

/// The blob of a key has the length of a key in a link, and decodes to the key.
proof fn lemma_key_reads(identity: Seq<u8>)
    requires
        identity.len() == 32,
    ensures
        encode_utf8(blob_text(identity)).len() == 52,
        readable_base32(upper_of(blob_text(identity))),
        base32_value(upper_of(blob_text(identity))) == identity,
{
    let key = blob_text(identity);
    lemma_blob_chars(identity);
    assert forall|j: int| 0 <= j < key.len() implies (#[trigger] key[j] as u32) < 128 by {}
    lemma_ascii_utf8_len(key);
    crate::base32::lemma_blob_upper(identity);
    assert(upper_of(key) == base32_spec(identity));
    lemma_base32_utf8_len(identity);
    law_base32_injective(identity, base32_value(upper_of(key)));
}

/// What the own link says is the service's address and the identity: a friend who reads it gets
/// both.
proof fn lemma_link_reads(service: Seq<u8>, identity: Seq<u8>)
    requires
        onion_bytes(service).len() == 35,
        identity.len() == 32,
        ed25519_valid(identity),
    ensures
        atom_uri(link_spec(service, identity)) == Ok::<(Seq<char>, Seq<u8>), UriFault>(
            (onion_spec(service), identity),
        ),
{
    reveal_strlit("atom://");
    reveal_strlit("/");
    reveal_strlit(".onion");
    let url = link_spec(service, identity);
    let onion = onion_spec(service);
    let key = blob_text(identity);
    lemma_blob_chars(onion_bytes(service));
    let rest = url.subrange(7, url.len() as int);
    assert("atom://"@.is_prefix_of(url)) by {
        assert(url.subrange(0, 7) =~= "atom://"@);
    }
    assert(rest =~= onion + "/"@ + key);
    assert forall|j: int| 0 <= j < onion.len() implies rest[j] != '/' && (onion[j] as u32)
        < 128 by {
        assert(rest[j] == onion[j]);
        if j < blob_text(onion_bytes(service)).len() {
            assert(onion[j] == blob_text(onion_bytes(service))[j]);
        }
    }
    lemma_find_char(rest, '/', onion.len() as int);
    assert(rest.subrange(0, onion.len() as int) =~= onion);
    assert(rest.subrange(onion.len() as int + 1, rest.len() as int) =~= key);
    lemma_ascii_utf8_len(onion);
    assert(".onion"@.is_suffix_of(onion)) by {
        assert(onion.subrange(onion.len() - 6, onion.len() as int) =~= ".onion"@);
    }
    lemma_key_reads(identity);
}

/// The link of a user, from the public key of the service and the secret identity key. Reading it
/// gives the address and the identity.
pub fn own_link(service: &[u8; 32], identity_secret: &[u8; 32]) -> (r: String)
    ensures
        r@ == link_spec(service@, ed25519_public(identity_secret@)),
        atom_uri(r@) == Ok::<(Seq<char>, Seq<u8>), UriFault>(
            (onion_spec(service@), ed25519_public(identity_secret@)),
        ),
{
    let identity: [u8; 32] = public_key(identity_secret);
    let mut out: String = concat("atom://", &onion_address(service));
    push_text(&mut out, "/");
    push_text(&mut out, &encode_blob(&identity));
    proof {
        lemma_link_reads(service@, identity@);
    }
    out
}

// ── Proposals ────────────────────────────────────────────────────────────────

/// What a user answers to a proposal.
#[derive(Debug, Clone)]
pub struct SyncResponse {
    pub accepted: bool,
    pub label: Option<String>,
    pub save_path: Option<String>,
}

/// The nickname of the friend with an identity key, for display.
pub fn nickname_of(friends: &Vec<FriendRecord>, key: &[u8; 32]) -> (r: String)
    ensures
        has_key(friends@, key@) ==> exists|i: int| #[trigger]
            key_at(friends@, key@, i) && r@ == friends@[i].nickname@,
        !has_key(friends@, key@) ==> r@ == "Unknown"@,
{
    match find_by_key(friends, key) {
        Some(i) => {
            assert(key_at(friends@, key@, i as int));
            copy_text(&friends[i].nickname)
        },
        None => copy_text("Unknown"),
    }
}

/// The first shared vault of a name.
pub open spec fn vault_at(v: Seq<SharedVault>, name: Seq<char>, i: int) -> bool {
    &&& 0 <= i < v.len()
    &&& v[i].original_name@ == name
    &&& forall|j: int| 0 <= j < i ==> (#[trigger] v[j]).original_name@ != name
}

/// There is a shared vault of the name.
pub open spec fn has_vault(v: Seq<SharedVault>, name: Seq<char>) -> bool {
    exists|i: int| 0 <= i < v.len() && (#[trigger] v[i]).original_name@ == name
}

/// The friend shares a vault of the name.
pub open spec fn shares(f: Seq<FriendRecord>, nickname: Seq<char>, name: Seq<char>) -> bool {
    exists|i: int| #[trigger]
        friend_at(f, nickname, i) && has_vault(f[i].shared_vaults@, name)
}

fn find_vault(vaults: &Vec<SharedVault>, name: &str) -> (r: Option<usize>)
    ensures
        match r {
            Some(i) => vault_at(vaults@, name@, i as int),
            None => !has_vault(vaults@, name@),
        },
{
    let mut i: usize = 0;
    while i < vaults.len()
        invariant
            i <= vaults@.len(),
            forall|j: int| 0 <= j < i ==> (#[trigger] vaults@[j]).original_name@ != name@,
        decreases vaults@.len() - i,
    {
        if same_text(&vaults[i].original_name, name) {
            return Some(i);
        }
        i = i + 1;
    }
    None
}

/// Where a proposed vault goes without asking: to the place of the shared vault of that name. A
/// vault that the friend has not shared before has no such place.
pub fn known_place(friends: &Vec<FriendRecord>, nickname: &str, filename: &str) -> (r: Option<
    String,
>)
    ensures
        r is Some <==> shares(friends@, nickname@, filename@),
        r matches Some(p) ==> exists|i: int, k: int| #[trigger]
            friend_at(friends@, nickname@, i) && #[trigger] vault_at(
                friends@[i].shared_vaults@,
                filename@,
                k,
            ) && p@ == friends@[i].shared_vaults@[k].local_path@,
{
    match find_friend(friends, nickname) {
        Some(i) => match find_vault(&friends[i].shared_vaults, filename) {
            Some(k) => {
                assert(friend_at(friends@, nickname@, i as int));
                assert(vault_at(friends@[i as int].shared_vaults@, filename@, k as int));
                assert(has_vault(friends@[i as int].shared_vaults@, filename@));
                Some(copy_text(&friends[i].shared_vaults[k].local_path))
            },
            None => {
                proof {
                    if shares(friends@, nickname@, filename@) {
                        let j = choose|j: int| #[trigger]
                            friend_at(friends@, nickname@, j) && has_vault(
                                friends@[j].shared_vaults@,
                                filename@,
                            );
                        if j < i {
                            assert(friends@[j].nickname@ != nickname@);
                        } else if j > i {
                            assert(friends@[i as int].nickname@ != nickname@);
                        }
                    }
                }
                None
            },
        },
        None => None,
    }
}

/// The record of a vault that was accepted.
pub open spec fn accepted_row(filename: Seq<char>, last_modified: u64, response: SyncResponse) -> (
    Seq<char>,
    Seq<char>,
    Seq<char>,
    u64,
) {
    (
        filename,
        match response.label {
            Some(l) => l@,
            None => "Synced Vault"@,
        },
        match response.save_path {
            Some(p) => p@,
            None => Seq::empty(),
        },
        last_modified,
    )
}

/// What an answer does to the friends: an accepted vault is recorded with the friend of the
/// nickname, and nothing else changes.
pub open spec fn recorded(
    before: Seq<FriendRecord>,
    after: Seq<FriendRecord>,
    nickname: Seq<char>,
    filename: Seq<char>,
    last_modified: u64,
    response: SyncResponse,
) -> bool {
    &&& !response.accepted || !has_friend(before, nickname) ==> friend_rows(after) == friend_rows(
        before,
    )
    &&& response.accepted ==> forall|i: int| #[trigger]
        friend_at(before, nickname, i) ==> friend_rows(after) == friend_rows(before).update(
            i,
            (
                before[i].nickname@,
                before[i].url@,
                vault_rows(before[i].shared_vaults@).push(
                    accepted_row(filename, last_modified, response),
                ),
                before[i].last_seen,
            ),
        )
}

/// The place that an answer gives a vault, where it is accepted.
pub open spec fn answered_place(
    filename: Seq<char>,
    last_modified: u64,
    response: SyncResponse,
) -> Option<Seq<char>> {
    if response.accepted {
        Some(accepted_row(filename, last_modified, response).2)
    } else {
        None
    }
}

/// Takes the answer to a proposal: an accepted vault is recorded with the friend, and the place
/// for it is returned. A refusal changes nothing.
pub fn record_answer(
    friends: &mut Vec<FriendRecord>,
    nickname: &str,
    filename: &str,
    last_modified: u64,
    response: &SyncResponse,
) -> (r: Option<String>)
    ensures
        optional_text(r) == answered_place(filename@, last_modified, *response),
        recorded(
            old(friends)@,
            final(friends)@,
            nickname@,
            filename@,
            last_modified,
            *response,
        ),
{
    if !response.accepted {
        return None;
    }
    let path: String = match &response.save_path {
        Some(p) => copy_text(p),
        None => String::new(),
    };
    let label: String = match &response.label {
        Some(l) => copy_text(l),
        None => copy_text("Synced Vault"),
    };
    let ghost before = friends@;
    if let Some(i) = find_friend(friends, nickname) {
        let vault: SharedVault = SharedVault {
            original_name: copy_text(filename),
            label,
            local_path: copy_text(&path),
            last_modified,
        };
        let ghost row = vault_row(vault);
        let ghost shared = before[i as int].shared_vaults@;
        friends[i].shared_vaults.push(vault);
        proof {
            assert(vault_rows(friends@[i as int].shared_vaults@) =~= vault_rows(shared).push(row));
            assert forall|k: int| #[trigger] friend_at(before, nickname@, k) implies friend_rows(
                friends@,
            ) == friend_rows(before).update(
                k,
                (
                    before[k].nickname@,
                    before[k].url@,
                    vault_rows(before[k].shared_vaults@).push(row),
                    before[k].last_seen,
                ),
            ) by {
                if k < i {
                    assert(before[k].nickname@ != nickname@);
                } else if k > i {
                    assert(before[i as int].nickname@ != nickname@);
                }
                assert(friend_rows(friends@) =~= friend_rows(before).update(
                    k,
                    (
                        before[k].nickname@,
                        before[k].url@,
                        vault_rows(before[k].shared_vaults@).push(row),
                        before[k].last_seen,
                    ),
                ));
            }
        }
    }
    Some(path)
}

/// The reply to a proposal, and whether the vault is then received: it is where there is a place
/// for it.
pub fn sync_reply(place: &Option<String>) -> (r: (SyncMessage, bool))
    ensures
        r.1 == (place matches Some(p) && p@.len() > 0),
        r.1 ==> (r.0 matches SyncMessage::Accept { action } && action@ == "pull_from_you"@),
        !r.1 ==> r.0 is Reject,
{
    match place {
        Some(p) => {
            if p.as_str().is_empty() {
                (SyncMessage::Reject, false)
            } else {
                (SyncMessage::Accept { action: copy_text("pull_from_you") }, true)
            }
        },
        None => (SyncMessage::Reject, false),
    }
}

/// What the listener does about a proposal: it asks the user, or it replies to the friend.
#[derive(Debug)]
pub enum ProposalStep {
    /// The user is asked whether the vault is wanted.
    Ask,
    /// The message is sent. Where there is a place, the vault is then received into it. `save` says
    /// whether the friends have changed.
    Reply { message: SyncMessage, place: Option<String>, save: bool },
}

/// A reply that fits the place found for a vault: it is accepted and received there, unless there
/// is no place or an empty one.
pub open spec fn reply_fits(
    found: Option<Seq<char>>,
    message: SyncMessage,
    place: Option<Seq<char>>,
) -> bool {
    if found matches Some(p) && p.len() > 0 {
        place == found && (message matches SyncMessage::Accept { action } && action@
            == "pull_from_you"@)
    } else {
        place is None && message is Reject
    }
}

/// One step on a proposal. A vault that the friend has shared before goes to its place, whatever
/// was answered, and the friends stay as they are. For any other the user is asked; the answer is
/// recorded, and an accepted vault has the friends saved.
pub fn proposal_step(
    friends: &mut Vec<FriendRecord>,
    nickname: &str,
    filename: &str,
    last_modified: u64,
    answer: &Option<SyncResponse>,
) -> (r: ProposalStep)
    ensures
        shares(old(friends)@, nickname@, filename@) ==> {
            &&& final(friends)@ == old(friends)@
            &&& r matches ProposalStep::Reply { message, place, save } && !save && exists|
                i: int,
                k: int,
            | #[trigger]
                friend_at(old(friends)@, nickname@, i) && #[trigger] vault_at(
                    old(friends)@[i].shared_vaults@,
                    filename@,
                    k,
                ) && reply_fits(
                    Some(old(friends)@[i].shared_vaults@[k].local_path@),
                    message,
                    optional_text(place),
                )
        },
        !shares(old(friends)@, nickname@, filename@) ==> match *answer {
            None => r is Ask && final(friends)@ == old(friends)@,
            Some(a) => {
                &&& r matches ProposalStep::Reply { message, place, save } && save == a.accepted
                    && reply_fits(
                    answered_place(filename@, last_modified, a),
                    message,
                    optional_text(place),
                )
                &&& recorded(
                    old(friends)@,
                    final(friends)@,
                    nickname@,
                    filename@,
                    last_modified,
                    a,
                )
            },
        },
{
    let known: Option<String> = known_place(friends, nickname, filename);
    if known.is_some() {
        let (message, receives) = sync_reply(&known);
        let place: Option<String> = if receives {
            known
        } else {
            None
        };
        return ProposalStep::Reply { message, place, save: false };
    }
    match answer {
        None => ProposalStep::Ask,
        Some(a) => {
            let given: Option<String> = record_answer(friends, nickname, filename, last_modified, a);
            let save: bool = given.is_some();
            let (message, receives) = sync_reply(&given);
            let place: Option<String> = if receives {
                given
            } else {
                None
            };
            ProposalStep::Reply { message, place, save }
        },
    }
}

/// Whether an answer at the terminal accepts: the letter y in either case, or nothing.
pub open spec fn accepts(answer: Seq<char>) -> bool {
    ascii_lower_text(trim_spec(answer)) == "y"@ || trim_spec(answer).len() == 0
}

/// The place that is offered for a vault: a directory of the friend under the downloads.
pub fn default_place(home: &str, nickname: &str, filename: &str) -> (r: String)
    ensures
        r@ == pushed(home@, "Downloads/"@ + nickname@ + "/"@ + filename@),
{
    let mut rel: String = concat("Downloads/", nickname);
    push_text(&mut rel, "/");
    push_text(&mut rel, filename);
    push_path(home, &rel)
}

/// What the answers at the terminal say: whether the vault is accepted, its label, and its place,
/// which is the one that was offered where none is given.
pub fn terminal_response(answer: &str, label: &str, place: &str, offered: &str) -> (r: SyncResponse)
    ensures
        r.accepted == accepts(answer@),
        r.accepted ==> optional_text(r.label) == Some(trim_spec(label@)),
        r.accepted ==> optional_text(r.save_path) == Some(
            if trim_spec(place@).len() == 0 {
                offered@
            } else {
                trim_spec(place@)
            },
        ),
        !r.accepted ==> r.label is None && r.save_path is None,
{
    let said: String = trim(answer);
    if same_text(&lower_text(&said), "y") || said.as_str().is_empty() {
        let given: String = trim(place);
        let save_path: String = if given.as_str().is_empty() {
            copy_text(offered)
        } else {
            given
        };
        SyncResponse { accepted: true, label: Some(trim(label)), save_path: Some(save_path) }
    } else {
        SyncResponse { accepted: false, label: None, save_path: None }
    }
}

/// Finds the friend to synchronise with.
pub fn friend_for_sync(friends: &Vec<FriendRecord>, nickname: &str) -> (r: Result<usize, String>)
    ensures
        match r {
            Ok(i) => friend_at(friends@, nickname@, i as int),
            Err(e) => !has_friend(friends@, nickname@) && e@ == "Friend '"@ + nickname@
                + "' not found in address book."@,
        },
{
    match find_friend(friends, nickname) {
        Some(i) => Ok(i),
        None => Err(around("Friend '", nickname, "' not found in address book.")),
    }
}

// ── Laws ─────────────────────────────────────────────────────────────────────

/// An onion address holds the key of its service, the first two bytes of the digest of
/// `.onion checksum`, the key and the version, and the version, which is three.
pub proof fn law_onion_address_layout(service: Seq<u8>)
    requires
        service.len() == 32,
        onion_bytes(service).len() == 35,
    ensures
        onion_bytes(service).subrange(0, 32) == service,
        onion_bytes(service).subrange(32, 34) == sha3_256(
            seq![
                '.' as u8,
                'o' as u8,
                'n' as u8,
                'i' as u8,
                'o' as u8,
                'n' as u8,
                ' ' as u8,
                'c' as u8,
                'h' as u8,
                'e' as u8,
                'c' as u8,
                'k' as u8,
                's' as u8,
                'u' as u8,
                'm' as u8,
            ] + service + seq![3u8],
        ).subrange(0, 2),
        onion_bytes(service)[34] == 3,
        onion_spec(service) == blob_text(onion_bytes(service)) + ".onion"@,
{
    let words = seq![
        '.' as u8,
        'o' as u8,
        'n' as u8,
        'i' as u8,
        'o' as u8,
        'n' as u8,
        ' ' as u8,
        'c' as u8,
        'h' as u8,
        'e' as u8,
        'c' as u8,
        'k' as u8,
        's' as u8,
        'u' as u8,
        'm' as u8,
    ];
    assert(ONION_CHECKSUM@ =~= words);
    let b = onion_bytes(service);
    let sum = sha3_256(words + service + seq![3u8]).subrange(0, 2);
    assert(b == service + sum + seq![3u8]);
    assert(sum.len() == 2);
    assert(b.subrange(0, 32) =~= service);
    assert(b.subrange(32, 34) =~= sum);
}

/// The own link is read back, by whoever gets it, as the address of the service and the identity.
pub proof fn law_own_link_is_read_back(service: Seq<u8>, identity: Seq<u8>)
    requires
        onion_bytes(service).len() == 35,
        identity.len() == 32,
        ed25519_valid(identity),
    ensures
        atom_uri(link_spec(service, identity)) == Ok::<(Seq<char>, Seq<u8>), UriFault>(
            (onion_spec(service), identity),
        ),
{
    lemma_link_reads(service, identity);
}

/// A proposal is accepted with the letter y, small or capital, or with nothing at all, whatever
/// white space is typed; every other answer turns it down.
pub proof fn law_answers_that_accept(answer: Seq<char>)
    ensures
        accepts(answer) <==> all_white(answer) || exists|a: Seq<char>, y: char, b: Seq<char>|
            #[trigger] (a.push(y) + b) == answer && (y == 'y' || y == 'Y') && all_white(a)
                && all_white(b),
{
    reveal_strlit("y");
    let t = trim_spec(answer);
    law_trim_keeps_the_rest(answer);
    let (a, b) = choose|a: Seq<char>, b: Seq<char>| #[trigger]
        (a + t + b) == answer && all_white(a) && all_white(b);
    if accepts(answer) {
        if t.len() == 0 {
            assert forall|i: int| 0 <= i < answer.len() implies crate::text::is_white_space(
                #[trigger] answer[i],
            ) by {
                if i < a.len() {
                    assert(answer[i] == a[i]);
                } else {
                    assert(answer[i] == b[i - a.len()]);
                }
            }
        } else {
            assert(ascii_lower_text(t).len() == 1);
            law_case_changes_letters_alone(t, 0);
            assert(ascii_lower_text(t)[0] == 'y');
            assert(a.push(t[0]) + b =~= answer);
        }
    }
    if all_white(answer) {
        let none = Seq::<char>::empty();
        assert(answer + none + none =~= answer);
        law_trim_takes_white_space_from_the_ends(answer, none, none);
    }
    if exists|a: Seq<char>, y: char, b: Seq<char>| #[trigger]
        (a.push(y) + b) == answer && (y == 'y' || y == 'Y') && all_white(a) && all_white(b) {
        let (c, y, d) = choose|a: Seq<char>, y: char, b: Seq<char>| #[trigger]
            (a.push(y) + b) == answer && (y == 'y' || y == 'Y') && all_white(a) && all_white(b);
        assert(c + seq![y] + d =~= answer);
        law_trim_takes_white_space_from_the_ends(c, seq![y], d);
        law_case_changes_letters_alone(seq![y], 0);
        assert(ascii_lower_text(seq![y]) =~= "y"@);
    }
}

/// An accepted vault is recorded under its name and its time, with the label and the place of the
/// answer; an answer without label calls it a synced vault.
pub proof fn law_accepted_vault_is_recorded(
    before: Seq<FriendRecord>,
    after: Seq<FriendRecord>,
    nickname: Seq<char>,
    filename: Seq<char>,
    last_modified: u64,
    response: SyncResponse,
    i: int,
    k: int,
)
    requires
        recorded(before, after, nickname, filename, last_modified, response),
        friend_at(before, nickname, i),
        0 <= k < before.len(),
    ensures
        friend_rows(after).len() == before.len(),
        k != i || !response.accepted ==> friend_rows(after)[k] == friend_rows(before)[k],
        response.accepted ==> {
            let row = friend_rows(after)[i];
            let new = row.2[row.2.len() - 1];
            &&& row.0 == nickname
            &&& row.1 == before[i].url@
            &&& row.3 == before[i].last_seen
            &&& row.2.len() == before[i].shared_vaults@.len() + 1
            &&& row.2.subrange(0, row.2.len() - 1) == vault_rows(before[i].shared_vaults@)
            &&& new.0 == filename
            &&& new.3 == last_modified
            &&& response.label matches Some(l) ==> new.1 == l@
            &&& response.label is None ==> new.1 == "Synced Vault"@
            &&& response.save_path matches Some(p) ==> new.2 == p@
            &&& response.save_path is None ==> new.2.len() == 0
        },
{
    if response.accepted {
        let old_row = vault_rows(before[i].shared_vaults@);
        let new_row = old_row.push(accepted_row(filename, last_modified, response));
        assert(friend_rows(after)[i].2 == new_row);
        assert(new_row.subrange(0, new_row.len() - 1) =~= old_row);
    }
}

/// A vault is taken exactly where a place for it was found and is not empty, and is received at
/// that place.
pub proof fn law_reply_follows_the_place(
    found: Option<Seq<char>>,
    message: SyncMessage,
    place: Option<Seq<char>>,
)
    requires
        reply_fits(found, message, place),
    ensures
        message is Accept <==> found is Some && found->Some_0.len() > 0,
        message is Accept ==> place == found,
        message !is Accept ==> message is Reject && place is None,
{
}

/// An answer gives a place exactly where it accepts: the one it names, or an empty one.
pub proof fn law_place_of_an_answer(filename: Seq<char>, last_modified: u64, response: SyncResponse)
    ensures
        answered_place(filename, last_modified, response) is Some <==> response.accepted,
        response.accepted && response.save_path is Some ==> answered_place(
            filename,
            last_modified,
            response,
        ) == Some(response.save_path->Some_0@),
        response.accepted && response.save_path is None ==> answered_place(
            filename,
            last_modified,
            response,
        )->Some_0.len() == 0,
{
}

} // verus!
