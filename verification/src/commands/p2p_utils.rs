//! Links of friends, the address book, and the messages of a synchronisation.

use crate::base32::{
    base32_spec, decode_base32, is_base32, law_base32_injective, readable_base32,
};
use crate::bytes::{same_bytes, to_array};
use crate::text::{
    chars_of, concat, copy_text, ends_with, find_char, index_of, law_first_and_last_place,
    same_text, starts_with, string_of, upper_of, upper_text,
};
use ed25519_dalek::VerifyingKey;
use vstd::prelude::*;
use vstd::slice::slice_subrange;
use vstd::utf8::encode_utf8;

verus! {

// ── Links ────────────────────────────────────────────────────────────────────

/// Why a link is refused.
#[derive(Debug)]
pub enum AtomUriError {
    InvalidPrefix,
    InvalidFormat,
    InvalidOnionLength,
    InvalidKeyLength,
    Base32DecodeError(String),
    InvalidEd25519Key(String),
}

/// Why a link is refused, without the words of the decoders.
pub enum UriFault {
    Prefix,
    Format,
    OnionLength,
    KeyLength,
    Base32,
    Key,
}

impl View for AtomUriError {
    type V = UriFault;

    open spec fn view(&self) -> UriFault {
        match self {
            AtomUriError::InvalidPrefix => UriFault::Prefix,
            AtomUriError::InvalidFormat => UriFault::Format,
            AtomUriError::InvalidOnionLength => UriFault::OnionLength,
            AtomUriError::InvalidKeyLength => UriFault::KeyLength,
            AtomUriError::Base32DecodeError(_) => UriFault::Base32,
            AtomUriError::InvalidEd25519Key(_) => UriFault::Key,
        }
    }
}

impl AtomUriError {
    /// The words of an error.
    pub open spec fn text(self) -> Seq<char> {
        match self {
            AtomUriError::InvalidPrefix => "URI must start with 'atom://'"@,
            AtomUriError::InvalidFormat =>
                "URI must contain Tor address and Identity Key separated by '/'"@,
            AtomUriError::InvalidOnionLength => "Invalid Tor V3 address length"@,
            AtomUriError::InvalidKeyLength => "Invalid Base32 identity key length"@,
            AtomUriError::Base32DecodeError(e) => "Base32 decode error: "@ + e@,
            AtomUriError::InvalidEd25519Key(e) => "Invalid Ed25519 key: "@ + e@,
        }
    }

    /// The words of an error.
    pub fn message(&self) -> (r: String)
        ensures
            r@ == self.text(),
    {
        match self {
            AtomUriError::InvalidPrefix => copy_text("URI must start with 'atom://'"),
            AtomUriError::InvalidFormat => copy_text(
                "URI must contain Tor address and Identity Key separated by '/'",
            ),
            AtomUriError::InvalidOnionLength => copy_text("Invalid Tor V3 address length"),
            AtomUriError::InvalidKeyLength => copy_text("Invalid Base32 identity key length"),
            AtomUriError::Base32DecodeError(e) => concat("Base32 decode error: ", e),
            AtomUriError::InvalidEd25519Key(e) => concat("Invalid Ed25519 key: ", e),
        }
    }
}

/// Whether 32 bytes are an Ed25519 public key: the compressed form of a point of the curve.
pub uninterp spec fn ed25519_valid(key: Seq<u8>) -> bool;

/// `VerifyingKey::from_bytes`: whether the bytes are a public key. Nothing is said of the words of
/// an error.
#[verifier::external_body]
fn check_public_key(key: &[u8; 32]) -> (r: Result<(), String>)
    ensures
        r is Ok <==> ed25519_valid(key@),
{
    VerifyingKey::from_bytes(key).map(|_| ()).map_err(|e| e.to_string())
}

/// The bytes that a base32 text encodes.
pub open spec fn base32_value(s: Seq<char>) -> Seq<u8> {
    choose|b: Seq<u8>| #[trigger] base32_spec(b) == s
}

/// What a link says: the onion address and the identity key.
pub open spec fn atom_uri(url: Seq<char>) -> Result<(Seq<char>, Seq<u8>), UriFault> {
    if !"atom://"@.is_prefix_of(url) {
        Err(UriFault::Prefix)
    } else {
        let rest = url.subrange("atom://"@.len() as int, url.len() as int);
        let slash = find_char(rest, '/');
        if slash == rest.len() {
            Err(UriFault::Format)
        } else {
            let onion = rest.subrange(0, slash);
            let key = rest.subrange(slash + 1, rest.len() as int);
            if encode_utf8(onion).len() != 62 || !".onion"@.is_suffix_of(onion) {
                Err(UriFault::OnionLength)
            } else if encode_utf8(key).len() != 52 {
                Err(UriFault::KeyLength)
            } else if !readable_base32(upper_of(key)) {
                Err(UriFault::Base32)
            } else {
                let bytes = base32_value(upper_of(key));
                if bytes.len() != 32 {
                    Err(UriFault::KeyLength)
                } else if !ed25519_valid(bytes) {
                    Err(UriFault::Key)
                } else {
                    Ok((onion, bytes))
                }
            }
        }
    }
}

/// The identity key of a link, where it is one.
pub open spec fn uri_key(url: Seq<char>) -> Option<Seq<u8>> {
    match atom_uri(url) {
        Ok(p) => Some(p.1),
        Err(_) => None,
    }
}

/// Reads a link: the onion address and the identity key.
pub fn parse_atom_uri(onion_url: &str) -> (r: Result<(String, [u8; 32]), AtomUriError>)
    ensures
        match atom_uri(onion_url@) {
            Ok(p) => r matches Ok(v) && v.0@ == p.0 && v.1@ == p.1,
            Err(f) => r matches Err(e) && e@ == f,
        },
{
    if !starts_with(onion_url, "atom://") {
        return Err(AtomUriError::InvalidPrefix);
    }
    proof {
        reveal_strlit("atom://");
    }
    let url: Vec<char> = chars_of(onion_url);
    let rest: &[char] = slice_subrange(&url, 7, url.len());
    let slash: usize = index_of(rest, '/');
    if slash == rest.len() {
        return Err(AtomUriError::InvalidFormat);
    }
    let onion: String = string_of(slice_subrange(rest, 0, slash));
    let key: String = string_of(slice_subrange(rest, slash + 1, rest.len()));
    if onion.as_str().as_bytes().len() != 62 || !ends_with(&onion, ".onion") {
        return Err(AtomUriError::InvalidOnionLength);
    }
    if key.as_str().as_bytes().len() != 52 {
        return Err(AtomUriError::InvalidKeyLength);
    }
    let upper: String = upper_text(&key);
    let bytes: Vec<u8> = match decode_base32(&upper) {
        Ok(b) => b,
        Err(e) => return Err(AtomUriError::Base32DecodeError(e)),
    };
    proof {
        assert(is_base32(upper@));
        law_base32_injective(bytes@, base32_value(upper@));
    }
    if bytes.len() != 32 {
        return Err(AtomUriError::InvalidKeyLength);
    }
    let identity: [u8; 32] = to_array(&bytes);
    match check_public_key(&identity) {
        Ok(()) => Ok((onion, identity)),
        Err(e) => Err(AtomUriError::InvalidEd25519Key(e)),
    }
}

// ── The address book ─────────────────────────────────────────────────────────

/// A vault that a friend sends.
#[derive(Debug, Clone)]
pub struct SharedVault {
    pub original_name: String,
    pub label: String,
    pub local_path: String,
    pub last_modified: u64,
}

/// A friend.
#[derive(Debug, Clone)]
pub struct FriendRecord {
    pub nickname: String,
    pub url: String,
    pub shared_vaults: Vec<SharedVault>,
    /// When the last synchronisation with this friend succeeded, in seconds since the epoch.
    pub last_seen: Option<u64>,
}

/// The messages of a synchronisation.
#[derive(Debug)]
pub enum SyncMessage {
    Proposal { filename: String, last_modified: u64 },
    Accept { action: String },
    Reject,
}

/// A shared vault as plain values: original name, label, path, time.
pub open spec fn vault_row(v: SharedVault) -> (Seq<char>, Seq<char>, Seq<char>, u64) {
    (v.original_name@, v.label@, v.local_path@, v.last_modified)
}

/// The shared vaults of a friend as plain values.
pub open spec fn vault_rows(v: Seq<SharedVault>) -> Seq<(Seq<char>, Seq<char>, Seq<char>, u64)> {
    v.map_values(|x: SharedVault| vault_row(x))
}

/// A friend as plain values: nickname, link, shared vaults, time.
pub open spec fn friend_row(f: FriendRecord) -> (
    Seq<char>,
    Seq<char>,
    Seq<(Seq<char>, Seq<char>, Seq<char>, u64)>,
    Option<u64>,
) {
    (f.nickname@, f.url@, vault_rows(f.shared_vaults@), f.last_seen)
}

/// The address book as plain values.
pub open spec fn friend_rows(f: Seq<FriendRecord>) -> Seq<
    (Seq<char>, Seq<char>, Seq<(Seq<char>, Seq<char>, Seq<char>, u64)>, Option<u64>),
> {
    f.map_values(|x: FriendRecord| friend_row(x))
}

/// The first friend of a nickname.
pub open spec fn friend_at(f: Seq<FriendRecord>, nickname: Seq<char>, i: int) -> bool {
    &&& 0 <= i < f.len()
    &&& f[i].nickname@ == nickname
    &&& forall|j: int| 0 <= j < i ==> (#[trigger] f[j]).nickname@ != nickname
}

/// There is a friend of the nickname.
pub open spec fn has_friend(f: Seq<FriendRecord>, nickname: Seq<char>) -> bool {
    exists|i: int| 0 <= i < f.len() && (#[trigger] f[i]).nickname@ == nickname
}

/// The first friend with an identity key.
pub open spec fn key_at(f: Seq<FriendRecord>, key: Seq<u8>, i: int) -> bool {
    &&& 0 <= i < f.len()
    &&& uri_key(f[i].url@) == Some(key)
    &&& forall|j: int| 0 <= j < i ==> uri_key((#[trigger] f[j]).url@) != Some(key)
}

/// There is a friend with the identity key.
pub open spec fn has_key(f: Seq<FriendRecord>, key: Seq<u8>) -> bool {
    exists|i: int| 0 <= i < f.len() && uri_key((#[trigger] f[i]).url@) == Some(key)
}

/// Finds a friend by nickname.
pub fn find_friend(friends: &Vec<FriendRecord>, nickname: &str) -> (r: Option<usize>)
    ensures
        match r {
            Some(i) => friend_at(friends@, nickname@, i as int),
            None => !has_friend(friends@, nickname@),
        },
{
    let mut i: usize = 0;
    while i < friends.len()
        invariant
            i <= friends@.len(),
            forall|j: int| 0 <= j < i ==> (#[trigger] friends@[j]).nickname@ != nickname@,
        decreases friends@.len() - i,
    {
        if same_text(&friends[i].nickname, nickname) {
            return Some(i);
        }
        i = i + 1;
    }
    None
}

/// Finds a friend by identity key. Links that cannot be read are passed over.
pub fn find_by_key(friends: &Vec<FriendRecord>, key: &[u8; 32]) -> (r: Option<usize>)
    ensures
        match r {
            Some(i) => key_at(friends@, key@, i as int),
            None => !has_key(friends@, key@),
        },
{
    let mut i: usize = 0;
    while i < friends.len()
        invariant
            i <= friends@.len(),
            forall|j: int| 0 <= j < i ==> uri_key((#[trigger] friends@[j]).url@) != Some(key@),
        decreases friends@.len() - i,
    {
        match parse_atom_uri(&friends[i].url) {
            Ok(p) => {
                if same_bytes(&p.1, key) {
                    return Some(i);
                }
            },
            Err(_) => {},
        }
        i = i + 1;
    }
    None
}

/// Sets when a friend was last seen, and says whether the address book changed.
pub fn update_friend_last_seen(friends: &mut Vec<FriendRecord>, nickname: &str, now: u64) -> (r: bool)
    ensures
        r == has_friend(old(friends)@, nickname@),
        !r ==> friend_rows(final(friends)@) == friend_rows(old(friends)@),
        r ==> forall|i: int| #[trigger]
            friend_at(old(friends)@, nickname@, i) ==> friend_rows(final(friends)@) == friend_rows(
                old(friends)@,
            ).update(
                i,
                (
                    old(friends)@[i].nickname@,
                    old(friends)@[i].url@,
                    vault_rows(old(friends)@[i].shared_vaults@),
                    Some(now),
                ),
            ),
{
    match find_friend(friends, nickname) {
        Some(i) => {
            let ghost before = friends@;
            friends[i].last_seen = Some(now);
            proof {
                assert forall|k: int| #[trigger] friend_at(before, nickname@, k) implies friend_rows(
                    friends@,
                ) == friend_rows(before).update(
                    k,
                    (
                        before[k].nickname@,
                        before[k].url@,
                        vault_rows(before[k].shared_vaults@),
                        Some(now),
                    ),
                ) by {
                    assert(k == i) by {
                        if k < i {
                            assert(before[k].nickname@ != nickname@);
                        } else if k > i {
                            assert(before[i as int].nickname@ != nickname@);
                        }
                    }
                    assert(friend_rows(friends@) =~= friend_rows(before).update(
                        k,
                        (
                            before[k].nickname@,
                            before[k].url@,
                            vault_rows(before[k].shared_vaults@),
                            Some(now),
                        ),
                    ));
                }
            }
            true
        },
        None => false,
    }
}

/// The identity keys that may connect: those of the links that can be read, in order.
pub open spec fn keys_of(f: Seq<FriendRecord>) -> Seq<Seq<u8>>
    decreases f.len(),
{
    if f.len() == 0 {
        Seq::empty()
    } else {
        let before = keys_of(f.subrange(0, f.len() - 1));
        match uri_key(f[f.len() - 1].url@) {
            Some(k) => before.push(k),
            None => before,
        }
    }
}

/// The views of a list of keys.
pub open spec fn key_views(k: Seq<[u8; 32]>) -> Seq<Seq<u8>> {
    k.map_values(|x: [u8; 32]| x@)
}

/// The identity keys that may connect.
pub fn authorized_keys(friends: &Vec<FriendRecord>) -> (r: Vec<[u8; 32]>)
    ensures
        key_views(r@) == keys_of(friends@),
{
    let mut out: Vec<[u8; 32]> = Vec::new();
    let mut i: usize = 0;
    assert(key_views(out@) =~= keys_of(friends@.subrange(0, 0)));
    while i < friends.len()
        invariant
            i <= friends@.len(),
            key_views(out@) == keys_of(friends@.subrange(0, i as int)),
        decreases friends@.len() - i,
    {
        assert(friends@.subrange(0, i + 1).subrange(0, i as int) =~= friends@.subrange(
            0,
            i as int,
        ));
        match parse_atom_uri(&friends[i].url) {
            Ok(p) => {
                let ghost before = key_views(out@);
                out.push(p.1);
                assert(key_views(out@) =~= before.push(p.1@));
            },
            Err(_) => {},
        }
        i = i + 1;
    }
    assert(friends@.subrange(0, friends@.len() as int) =~= friends@);
    out
}

// ── Laws ─────────────────────────────────────────────────────────────────────

/// Every friend whose link can be read may connect, in the order of the address book, and nobody
/// else may.
pub proof fn law_keys_are_those_of_the_friends(f: Seq<FriendRecord>, g: FriendRecord)
    ensures
        keys_of(f) == f.map_values(|x: FriendRecord| uri_key(x.url@)).filter(
            |k: Option<Seq<u8>>| k is Some,
        ).map_values(|k: Option<Seq<u8>>| k->Some_0),
        uri_key(g.url@) matches Some(k) ==> keys_of(f.push(g)) == keys_of(f).push(k),
        uri_key(g.url@) is None ==> keys_of(f.push(g)) == keys_of(f),
        forall|i: int|
            0 <= i < f.len() && uri_key((#[trigger] f[i]).url@) is Some ==> keys_of(f).contains(
                uri_key(f[i].url@)->Some_0,
            ),
    decreases f.len(),
{
    reveal(Seq::filter);
    let key = |x: FriendRecord| uri_key(x.url@);
    let some = |k: Option<Seq<u8>>| k is Some;
    let got = |k: Option<Seq<u8>>| k->Some_0;
    assert(f.push(g).subrange(0, f.len() as int) =~= f);
    let m = f.map_values(key);
    if f.len() == 0 {
        assert(m.filter(some).map_values(got) =~= Seq::empty());
    } else {
        let init = f.subrange(0, f.len() - 1);
        let last = f[f.len() - 1];
        law_keys_are_those_of_the_friends(init, last);
        let before = init.map_values(key);
        assert(m.drop_last() =~= before);
        assert(m.last() == uri_key(last.url@));
        if uri_key(last.url@) is Some {
            assert(m.filter(some) == before.filter(some).push(m.last()));
            assert(before.filter(some).push(m.last()).map_values(got) =~= before.filter(
                some,
            ).map_values(got).push(got(m.last())));
        }
        assert forall|i: int|
            0 <= i < f.len() && uri_key((#[trigger] f[i]).url@) is Some implies keys_of(f).contains(
            uri_key(f[i].url@)->Some_0,
        ) by {
            let k = uri_key(f[i].url@)->Some_0;
            if i < init.len() {
                assert(init[i] == f[i]);
                assert(keys_of(init).contains(k));
                let n = choose|n: int| 0 <= n < keys_of(init).len() && keys_of(init)[n] == k;
                assert(keys_of(f)[n] == k);
            } else {
                assert(keys_of(f)[keys_of(f).len() - 1] == k);
            }
        }
    }
}

/// A link is `atom://`, an onion address, a slash and an identity key in base32: from such a link
/// that address and that key are read.
pub proof fn law_link_gives_address_and_key(onion: Seq<char>, key_text: Seq<char>, key: Seq<u8>)
    requires
        !onion.contains('/'),
        encode_utf8(onion).len() == 62,
        ".onion"@.is_suffix_of(onion),
        encode_utf8(key_text).len() == 52,
        upper_of(key_text) == base32_spec(key),
        readable_base32(upper_of(key_text)),
        key.len() == 32,
        ed25519_valid(key),
    ensures
        atom_uri("atom://"@ + (onion.push('/') + key_text)) == Ok::<(Seq<char>, Seq<u8>), UriFault>(
            (onion, key),
        ),
        uri_key("atom://"@ + (onion.push('/') + key_text)) == Some(key),
{
    let rest = onion.push('/') + key_text;
    let url = "atom://"@ + rest;
    assert(url.subrange(0, "atom://"@.len() as int) =~= "atom://"@);
    assert(url.subrange("atom://"@.len() as int, url.len() as int) =~= rest);
    law_first_and_last_place(onion, '/', key_text);
    assert(rest.subrange(0, onion.len() as int) =~= onion);
    assert(rest.subrange((onion.len() + 1) as int, rest.len() as int) =~= key_text);
    let b = base32_value(upper_of(key_text));
    assert(base32_spec(key) == upper_of(key_text));
    assert(base32_spec(b) == upper_of(key_text));
    law_base32_injective(b, key);
}

/// A link that is read begins with `atom://` and goes on with the address that was read, of
/// sixty-two bytes, and a slash; the key that was read has thirty-two bytes and is that of the
/// rest.
pub proof fn law_read_link_holds_what_was_read(url: Seq<char>)
    ensures
        atom_uri(url) matches Ok((onion, key)) ==> {
            &&& !onion.contains('/')
            &&& encode_utf8(onion).len() == 62
            &&& ".onion"@.is_suffix_of(onion)
            &&& key.len() == 32
            &&& ed25519_valid(key)
            &&& exists|key_text: Seq<char>|
                url == #[trigger] ("atom://"@ + (onion.push('/') + key_text)) && upper_of(key_text)
                    == base32_spec(key)
        },
{
    if atom_uri(url) is Ok {
        let rest = url.subrange("atom://"@.len() as int, url.len() as int);
        let slash = find_char(rest, '/');
        lemma_found(rest, '/');
        let onion = rest.subrange(0, slash);
        let key_text = rest.subrange(slash + 1, rest.len() as int);
        assert(onion.push('/') + key_text =~= rest);
        assert("atom://"@ + rest =~= url) by {
            assert(url.subrange(0, "atom://"@.len() as int) == "atom://"@);
            assert(url =~= url.subrange(0, "atom://"@.len() as int) + rest);
        }
        assert(url == "atom://"@ + (onion.push('/') + key_text));
        let key = base32_value(upper_of(key_text));
        let b = choose|b: Seq<u8>| #[trigger] base32_spec(b) == upper_of(key_text);
        assert(base32_spec(b) == upper_of(key_text));
    }
}

proof fn lemma_found(s: Seq<char>, c: char)
    ensures
        0 <= find_char(s, c) <= s.len(),
        find_char(s, c) < s.len() ==> s[find_char(s, c)] == c,
        !s.subrange(0, find_char(s, c)).contains(c),
    decreases s.len(),
{
    if s.len() > 0 && s[0] != c {
        let rest = s.subrange(1, s.len() as int);
        lemma_found(rest, c);
        let n = find_char(s, c);
        assert forall|k: int| 0 <= k < n implies s.subrange(0, n)[k] != c by {
            if k > 0 {
                let before = rest.subrange(0, n - 1);
                assert(before[k - 1] == s[k]);
                assert(before.contains(before[k - 1]));
            }
        }
    }
}

/// The view of the address book has a row for each friend, with all that is kept of the friend.
pub proof fn law_rows_are_those_of_the_friends(f: Seq<FriendRecord>, i: int)
    ensures
        friend_rows(f).len() == f.len(),
        0 <= i < f.len() ==> friend_rows(f)[i].0 == f[i].nickname@,
        0 <= i < f.len() ==> friend_rows(f)[i].1 == f[i].url@,
        0 <= i < f.len() ==> friend_rows(f)[i].2.len() == f[i].shared_vaults@.len(),
        0 <= i < f.len() ==> friend_rows(f)[i].3 == f[i].last_seen,
        forall|k: int|
            0 <= i < f.len() && 0 <= k < f[i].shared_vaults@.len() ==> #[trigger] friend_rows(f)[i].2[k] == (
                f[i].shared_vaults@[k].original_name@,
                f[i].shared_vaults@[k].label@,
                f[i].shared_vaults@[k].local_path@,
                f[i].shared_vaults@[k].last_modified,
            ),
{
}

/// Keys are seen as their bytes, one for one.
pub proof fn law_keys_as_plain_values(k: Seq<[u8; 32]>, i: int)
    ensures
        key_views(k).len() == k.len(),
        0 <= i < k.len() ==> key_views(k)[i] == k[i]@,
{
}

/// The words of a refused link say what is wrong with it.
pub proof fn law_link_errors_in_words(e: AtomUriError)
    ensures
        match e {
            AtomUriError::InvalidPrefix => e.text() == "URI must start with 'atom://'"@,
            AtomUriError::InvalidFormat => e.text()
                == "URI must contain Tor address and Identity Key separated by '/'"@,
            AtomUriError::InvalidOnionLength => e.text() == "Invalid Tor V3 address length"@,
            AtomUriError::InvalidKeyLength => e.text() == "Invalid Base32 identity key length"@,
            AtomUriError::Base32DecodeError(w) => e.text() == "Base32 decode error: "@ + w@,
            AtomUriError::InvalidEd25519Key(w) => e.text() == "Invalid Ed25519 key: "@ + w@,
        },
        match e {
            AtomUriError::InvalidPrefix => e@ is Prefix,
            AtomUriError::InvalidFormat => e@ is Format,
            AtomUriError::InvalidOnionLength => e@ is OnionLength,
            AtomUriError::InvalidKeyLength => e@ is KeyLength,
            AtomUriError::Base32DecodeError(_) => e@ is Base32,
            AtomUriError::InvalidEd25519Key(_) => e@ is Key,
        },
{
}

/// What is wrong with a link is told by its parts, from the left: no `atom://`, no slash, an
/// address that is not one, a key that is not one.
pub proof fn law_first_fault_of_a_link(url: Seq<char>, onion: Seq<char>, key_text: Seq<char>)
    requires
        !onion.contains('/'),
    ensures
        !"atom://"@.is_prefix_of(url) ==> atom_uri(url) == Err::<(Seq<char>, Seq<u8>), UriFault>(
            UriFault::Prefix,
        ),
        atom_uri("atom://"@ + onion) == Err::<(Seq<char>, Seq<u8>), UriFault>(UriFault::Format),
        ({
            let r = atom_uri("atom://"@ + (onion.push('/') + key_text));
            let address = encode_utf8(onion).len() == 62 && ".onion"@.is_suffix_of(onion);
            &&& !address ==> r == Err::<(Seq<char>, Seq<u8>), UriFault>(UriFault::OnionLength)
            &&& address && encode_utf8(key_text).len() != 52 ==> r == Err::<
                (Seq<char>, Seq<u8>),
                UriFault,
            >(UriFault::KeyLength)
            &&& address && encode_utf8(key_text).len() == 52 && !readable_base32(upper_of(key_text))
                ==> r == Err::<(Seq<char>, Seq<u8>), UriFault>(UriFault::Base32)
            &&& address && encode_utf8(key_text).len() == 52 && readable_base32(upper_of(key_text))
                && r is Err ==> r == Err::<(Seq<char>, Seq<u8>), UriFault>(UriFault::KeyLength) || r
                == Err::<(Seq<char>, Seq<u8>), UriFault>(UriFault::Key)
        }),
{
    let rest = onion.push('/') + key_text;
    let full = "atom://"@ + rest;
    assert(full.subrange(0, "atom://"@.len() as int) =~= "atom://"@);
    assert(full.subrange("atom://"@.len() as int, full.len() as int) =~= rest);
    law_first_and_last_place(onion, '/', key_text);
    assert(rest.subrange(0, onion.len() as int) =~= onion);
    assert(rest.subrange((onion.len() + 1) as int, rest.len() as int) =~= key_text);
    let short = "atom://"@ + onion;
    assert(short.subrange(0, "atom://"@.len() as int) =~= "atom://"@);
    assert(short.subrange("atom://"@.len() as int, short.len() as int) =~= onion);
}

} // verus!
