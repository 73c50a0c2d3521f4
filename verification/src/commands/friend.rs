//! Adding and listing friends.

use crate::bytes::same_bytes;
use crate::commands::p2p_utils::{
    atom_uri, find_by_key, find_friend, friend_at, friend_row, friend_rows, has_friend, has_key,
    key_at, parse_atom_uri, uri_key, vault_rows, AtomUriError, FriendRecord, UriFault,
};
use crate::paths::optional_text;
use crate::text::{
    around, concat, copy_text, law_padding_adds_spaces, pad_right, padded_text, push_text,
    same_text, trim, trim_spec,
};
use vstd::prelude::*;

verus! {

/// Why a friend is not added.
#[derive(Debug)]
pub enum FriendError {
    /// The link cannot be read.
    InvalidLink(AtomUriError),
    /// The link is the user's own.
    OwnIdentity,
    /// The identity is in the address book under another nickname.
    KnownAs(String),
    /// The nickname belongs to another identity.
    OtherIdentity(String),
    /// The link in the address book cannot be read.
    BadRecord(AtomUriError),
}

/// Why a friend is not added, as plain values.
pub enum FriendFault {
    InvalidLink(UriFault),
    OwnIdentity,
    KnownAs(Seq<char>),
    OtherIdentity(Seq<char>),
    BadRecord(UriFault),
}

impl View for FriendError {
    type V = FriendFault;

    open spec fn view(&self) -> FriendFault {
        match self {
            FriendError::InvalidLink(e) => FriendFault::InvalidLink(e@),
            FriendError::OwnIdentity => FriendFault::OwnIdentity,
            FriendError::KnownAs(n) => FriendFault::KnownAs(n@),
            FriendError::OtherIdentity(n) => FriendFault::OtherIdentity(n@),
            FriendError::BadRecord(e) => FriendFault::BadRecord(e@),
        }
    }
}

impl FriendError {
    /// The words of an error.
    pub open spec fn text(self) -> Seq<char> {
        match self {
            FriendError::InvalidLink(e) => "Invalid atom:// link: "@ + e.text(),
            FriendError::OwnIdentity => "You cannot add your own identity as a friend."@,
            FriendError::KnownAs(n) => "This identity is already saved under the nickname '"@ + n@
                + "'."@,
            FriendError::OtherIdentity(n) => "SECURITY ALERT: Nickname '"@ + n@
                + "' is already associated with a DIFFERENT identity key! To overwrite, manually remove the old friend first."@,
            FriendError::BadRecord(e) => e.text(),
        }
    }

    /// The words of an error.
    pub fn message(&self) -> (r: String)
        ensures
            r@ == self.text(),
    {
        match self {
            FriendError::InvalidLink(e) => concat("Invalid atom:// link: ", &e.message()),
            FriendError::OwnIdentity => copy_text("You cannot add your own identity as a friend."),
            FriendError::KnownAs(n) => around(
                "This identity is already saved under the nickname '",
                n,
                "'.",
            ),
            FriendError::OtherIdentity(n) => around(
                "SECURITY ALERT: Nickname '",
                n,
                "' is already associated with a DIFFERENT identity key! To overwrite, manually remove the old friend first.",
            ),
            FriendError::BadRecord(e) => e.message(),
        }
    }
}

/// What adding a friend did.
#[derive(Debug, Clone, Copy, PartialEq, Eq, Structural)]
pub enum FriendChange {
    /// The friend was there; the link was replaced.
    Updated,
    /// The friend is new.
    Added,
}

impl FriendChange {
    /// What is said of a change.
    pub open spec fn text(self, nickname: Seq<char>) -> Seq<char> {
        match self {
            FriendChange::Updated => "Friend '"@ + nickname
                + "' routing address successfully updated!"@,
            FriendChange::Added => "Friend '"@ + nickname
                + "' securely added! Make sure they add your atom link too."@,
        }
    }

    /// What is said of a change.
    pub fn message(&self, nickname: &str) -> (r: String)
        ensures
            r@ == self.text(nickname@),
    {
        match self {
            FriendChange::Updated => around(
                "Friend '",
                nickname,
                "' routing address successfully updated!",
            ),
            FriendChange::Added => around(
                "Friend '",
                nickname,
                "' securely added! Make sure they add your atom link too.",
            ),
        }
    }
}

/// The place of the friend with an identity key.
pub open spec fn key_index(f: Seq<FriendRecord>, key: Seq<u8>) -> int {
    choose|i: int| key_at(f, key, i)
}

/// The place of the friend with a nickname.
pub open spec fn friend_index(f: Seq<FriendRecord>, nickname: Seq<char>) -> int {
    choose|i: int| friend_at(f, nickname, i)
}

/// What adding a friend does: an unreadable link, the own link, a known identity under another
/// nickname and a nickname of another identity are refused.
pub open spec fn add_outcome(
    url: Seq<char>,
    nickname: Seq<char>,
    my_url: Option<Seq<char>>,
    f: Seq<FriendRecord>,
) -> Result<FriendChange, FriendFault> {
    match atom_uri(url) {
        Err(e) => Err(FriendFault::InvalidLink(e)),
        Ok(p) => {
            let key = p.1;
            if my_url is Some && uri_key(trim_spec(my_url->Some_0)) == Some(key) {
                Err(FriendFault::OwnIdentity)
            } else if has_key(f, key) && f[key_index(f, key)].nickname@ != nickname {
                Err(FriendFault::KnownAs(f[key_index(f, key)].nickname@))
            } else if has_friend(f, nickname) {
                match atom_uri(f[friend_index(f, nickname)].url@) {
                    Err(e) => Err(FriendFault::BadRecord(e)),
                    Ok(q) => if q.1 != key {
                        Err(FriendFault::OtherIdentity(nickname))
                    } else {
                        Ok(FriendChange::Updated)
                    },
                }
            } else {
                Ok(FriendChange::Added)
            }
        },
    }
}

/// The address book after adding a friend.
pub open spec fn rows_after_add(
    url: Seq<char>,
    nickname: Seq<char>,
    my_url: Option<Seq<char>>,
    f: Seq<FriendRecord>,
) -> Seq<(Seq<char>, Seq<char>, Seq<(Seq<char>, Seq<char>, Seq<char>, u64)>, Option<u64>)> {
    match add_outcome(url, nickname, my_url, f) {
        Err(_) => friend_rows(f),
        Ok(FriendChange::Updated) => {
            let i = friend_index(f, nickname);
            friend_rows(f).update(
                i,
                (nickname, url, vault_rows(f[i].shared_vaults@), f[i].last_seen),
            )
        },
        Ok(FriendChange::Added) => friend_rows(f).push((nickname, url, Seq::empty(), None)),
    }
}

proof fn lemma_friend_index(f: Seq<FriendRecord>, nickname: Seq<char>, i: int)
    requires
        friend_at(f, nickname, i),
    ensures
        friend_index(f, nickname) == i,
        has_friend(f, nickname),
{
    let k = friend_index(f, nickname);
    assert(friend_at(f, nickname, k));
    if k < i {
        assert(f[k].nickname@ != nickname);
    } else if k > i {
        assert(f[i].nickname@ != nickname);
    }
}

proof fn lemma_key_index(f: Seq<FriendRecord>, key: Seq<u8>, i: int)
    requires
        key_at(f, key, i),
    ensures
        key_index(f, key) == i,
        has_key(f, key),
{
    let k = key_index(f, key);
    assert(key_at(f, key, k));
    if k < i {
        assert(uri_key(f[k].url@) != Some(key));
    } else if k > i {
        assert(uri_key(f[i].url@) != Some(key));
    }
}

/// Adds a friend by a link, or updates the link of one. `my_url` is the user's own link, where
/// there is one.
pub fn add_friend_core(
    url: &str,
    nickname: &str,
    my_url: &Option<String>,
    friends: &mut Vec<FriendRecord>,
) -> (r: Result<FriendChange, FriendError>)
    ensures
        match add_outcome(url@, nickname@, optional_text(*my_url), old(friends)@) {
            Ok(c) => r == Ok::<FriendChange, FriendError>(c),
            Err(f) => r matches Err(e) && e@ == f,
        },
        friend_rows(final(friends)@) == rows_after_add(
            url@,
            nickname@,
            optional_text(*my_url),
            old(friends)@,
        ),
{
    let ghost before = friends@;
    let (_, key) = match parse_atom_uri(url) {
        Ok(p) => p,
        Err(e) => return Err(FriendError::InvalidLink(e)),
    };
    if let Some(mine) = my_url {
        if let Ok(p) = parse_atom_uri(&trim(mine)) {
            if same_bytes(&p.1, &key) {
                return Err(FriendError::OwnIdentity);
            }
        }
    }
    if let Some(i) = find_by_key(friends, &key) {
        proof {
            lemma_key_index(before, key@, i as int);
        }
        if !same_text(&friends[i].nickname, nickname) {
            return Err(FriendError::KnownAs(copy_text(&friends[i].nickname)));
        }
    }
    if let Some(i) = find_friend(friends, nickname) {
        proof {
            lemma_friend_index(before, nickname@, i as int);
        }
        let existing: [u8; 32] = match parse_atom_uri(&friends[i].url) {
            Ok(p) => p.1,
            Err(e) => return Err(FriendError::BadRecord(e)),
        };
        if !same_bytes(&existing, &key) {
            return Err(FriendError::OtherIdentity(copy_text(nickname)));
        }
        friends[i].url = copy_text(url);
        assert(friend_rows(friends@) =~= friend_rows(before).update(
            i as int,
            (
                nickname@,
                url@,
                vault_rows(before[i as int].shared_vaults@),
                before[i as int].last_seen,
            ),
        ));
        return Ok(FriendChange::Updated);
    }
    let record: FriendRecord = FriendRecord {
        nickname: copy_text(nickname),
        url: copy_text(url),
        shared_vaults: Vec::new(),
        last_seen: None,
    };
    let ghost row = friend_row(record);
    friends.push(record);
    proof {
        assert(vault_rows(Seq::empty()) =~= Seq::empty());
        assert(friend_rows(friends@) =~= friend_rows(before).push(row));
    }
    Ok(FriendChange::Added)
}

/// No two friends share a nickname.
pub open spec fn nicknames_unique(f: Seq<FriendRecord>) -> bool {
    forall|i: int, j: int|
        0 <= i < j < f.len() ==> (#[trigger] f[i]).nickname@ != (#[trigger] f[j]).nickname@
}

/// A nickname never comes to stand for another identity: after adding a friend, every record that
/// was there has its nickname and its identity.
pub proof fn law_nickname_keeps_identity(
    url: Seq<char>,
    nickname: Seq<char>,
    my_url: Option<Seq<char>>,
    f: Seq<FriendRecord>,
    i: int,
)
    requires
        0 <= i < f.len(),
    ensures
        rows_after_add(url, nickname, my_url, f)[i].0 == f[i].nickname@,
        uri_key(rows_after_add(url, nickname, my_url, f)[i].1) == uri_key(f[i].url@),
{
    let rows = friend_rows(f);
    assert(rows[i] == friend_row(f[i]));
    if add_outcome(url, nickname, my_url, f) == Ok::<FriendChange, FriendFault>(
        FriendChange::Updated,
    ) {
        lemma_first_friend(f, nickname);
        let k = friend_index(f, nickname);
        assert(friend_at(f, nickname, k));
    }
}

proof fn lemma_first_friend(f: Seq<FriendRecord>, nickname: Seq<char>)
    requires
        has_friend(f, nickname),
    ensures
        exists|i: int| friend_at(f, nickname, i),
    decreases f.len(),
{
    let m = choose|i: int| 0 <= i < f.len() && (#[trigger] f[i]).nickname@ == nickname;
    let init = f.subrange(0, f.len() - 1);
    if has_friend(init, nickname) {
        lemma_first_friend(init, nickname);
        let k = choose|i: int| friend_at(init, nickname, i);
        assert forall|j: int| 0 <= j < k implies (#[trigger] f[j]).nickname@ != nickname by {
            assert(init[j].nickname@ != nickname);
        }
        assert(friend_at(f, nickname, k));
    } else {
        assert forall|j: int| 0 <= j < f.len() - 1 implies (#[trigger] f[j]).nickname@
            != nickname by {
            assert(init[j].nickname@ == f[j].nickname@);
        }
        assert(m == f.len() - 1);
        assert(friend_at(f, nickname, m));
    }
}

/// Nicknames stay unique.
pub proof fn law_nicknames_stay_unique(
    url: Seq<char>,
    nickname: Seq<char>,
    my_url: Option<Seq<char>>,
    f: Seq<FriendRecord>,
    i: int,
    j: int,
)
    requires
        nicknames_unique(f),
        0 <= i < j < rows_after_add(url, nickname, my_url, f).len(),
    ensures
        rows_after_add(url, nickname, my_url, f)[i].0 != rows_after_add(
            url,
            nickname,
            my_url,
            f,
        )[j].0,
{
    assert(friend_rows(f).len() == f.len());
    if has_friend(f, nickname) {
        lemma_first_friend(f, nickname);
        assert(friend_at(f, nickname, friend_index(f, nickname)));
    }
    law_nickname_keeps_identity(url, nickname, my_url, f, i);
    if j < f.len() {
        law_nickname_keeps_identity(url, nickname, my_url, f, j);
        assert(f[i].nickname@ != f[j].nickname@);
    } else {
        assert(!has_friend(f, nickname));
        assert(f[i].nickname@ != nickname);
    }
}

// ── Listing ──────────────────────────────────────────────────────────────────

/// The line of a friend.
pub open spec fn friend_line(f: FriendRecord) -> Seq<char> {
    "👤 "@ + padded_text(f.nickname@, 15) + " 🔗 "@ + f.url@ + "\n"@
}

/// The lines of friends.
pub open spec fn friend_lines(f: Seq<FriendRecord>) -> Seq<char>
    decreases f.len(),
{
    if f.len() == 0 {
        Seq::empty()
    } else {
        friend_lines(f.subrange(0, f.len() - 1)) + friend_line(f[f.len() - 1])
    }
}

/// Lists the friends.
pub fn list_friends(friends: &Vec<FriendRecord>) -> (r: String)
    ensures
        r@ == if friends@.len() == 0 {
            "No friends added yet.\n"@
        } else {
            "--- 📋 Connected Friends ---\n"@ + friend_lines(friends@)
        },
{
    if friends.len() == 0 {
        return copy_text("No friends added yet.\n");
    }
    let mut out: String = copy_text("--- 📋 Connected Friends ---\n");
    let ghost head = out@;
    let ghost f = friends@;
    let mut i: usize = 0;
    assert(out@ =~= head + friend_lines(f.subrange(0, 0)));
    while i < friends.len()
        invariant
            i <= f.len(),
            f == friends@,
            out@ == head + friend_lines(f.subrange(0, i as int)),
        decreases f.len() - i,
    {
        let mut line: String = concat("👤 ", &pad_right(&friends[i].nickname, 15));
        push_text(&mut line, " 🔗 ");
        push_text(&mut line, &friends[i].url);
        push_text(&mut line, "\n");
        push_text(&mut out, &line);
        proof {
            let upto = f.subrange(0, i + 1);
            assert(upto.subrange(0, i as int) =~= f.subrange(0, i as int));
            assert(line@ =~= friend_line(f[i as int]));
            assert(out@ =~= head + friend_lines(upto));
        }
        i = i + 1;
    }
    assert(f.subrange(0, f.len() as int) =~= f);
    out
}

// ── Laws ─────────────────────────────────────────────────────────────────────

/// Every friend has a line, in the order of the address book.
pub proof fn law_every_friend_is_listed(f: Seq<FriendRecord>, g: FriendRecord, more: Seq<FriendRecord>)
    ensures
        friend_lines(Seq::empty()) == Seq::<char>::empty(),
        friend_lines(f.push(g)) == friend_lines(f) + friend_line(g),
        friend_lines(f + more) == friend_lines(f) + friend_lines(more),
    decreases more.len(),
{
    assert(f.push(g).subrange(0, f.len() as int) =~= f);
    if more.len() == 0 {
        assert(f + more =~= f);
        assert(friend_lines(f) + friend_lines(more) =~= friend_lines(f));
    } else {
        let init = more.subrange(0, more.len() - 1);
        law_every_friend_is_listed(f, g, init);
        assert((f + more).subrange(0, (f + more).len() - 1) =~= f + init);
        assert(friend_lines(f + more) =~= friend_lines(f) + friend_lines(more));
    }
}

/// The line of a friend shows the whole nickname, with spaces behind it up to a width of fifteen,
/// and the whole link.
pub proof fn law_line_of_a_friend(f: FriendRecord)
    ensures
        exists|spaces: Seq<char>|
            friend_line(f) == "👤 "@ + (f.nickname@ + spaces) + " 🔗 "@ + f.url@ + "\n"@ && spaces.len()
                == (if f.nickname@.len() < 15 {
                15 - f.nickname@.len()
            } else {
                0
            }) && (forall|i: int| 0 <= i < spaces.len() ==> #[trigger] spaces[i] == ' '),
{
    let name = f.nickname@;
    law_padding_adds_spaces(name, 15);
    let p = padded_text(name, 15);
    let spaces = p.subrange(name.len() as int, p.len() as int);
    assert(name + spaces =~= p) by {
        assert(p.subrange(0, name.len() as int) == name);
        assert(p =~= p.subrange(0, name.len() as int) + spaces);
    }
}

/// Where a friend is added, the address book has one more row, with the nickname and the link and
/// no vaults; where a friend is updated, the link of that friend changes and nothing else; where
/// adding is refused, nothing changes.
pub proof fn law_adding_changes_one_row(
    url: Seq<char>,
    nickname: Seq<char>,
    my_url: Option<Seq<char>>,
    f: Seq<FriendRecord>,
    i: int,
)
    ensures
        ({
            let rows = rows_after_add(url, nickname, my_url, f);
            match add_outcome(url, nickname, my_url, f) {
                Err(_) => rows == friend_rows(f),
                Ok(FriendChange::Added) => {
                    &&& rows.len() == f.len() + 1
                    &&& 0 <= i < f.len() ==> rows[i] == friend_rows(f)[i]
                    &&& rows[f.len() as int].0 == nickname
                    &&& rows[f.len() as int].1 == url
                    &&& rows[f.len() as int].2.len() == 0
                    &&& rows[f.len() as int].3 is None
                },
                Ok(FriendChange::Updated) => {
                    &&& rows.len() == f.len()
                    &&& 0 <= i < f.len() ==> rows[i].0 == f[i].nickname@
                    &&& 0 <= i < f.len() ==> rows[i].2 == vault_rows(f[i].shared_vaults@)
                    &&& 0 <= i < f.len() ==> rows[i].3 == f[i].last_seen
                    &&& 0 <= i < f.len() && f[i].nickname@ != nickname ==> rows[i].1 == f[i].url@
                    &&& 0 <= i < f.len() && f[i].nickname@ == nickname && (forall|j: int|
                        0 <= j < i ==> (#[trigger] f[j]).nickname@ != nickname) ==> rows[i].1 == url
                },
            }
        }),
{
    if add_outcome(url, nickname, my_url, f) == Ok::<FriendChange, FriendFault>(
        FriendChange::Updated,
    ) {
        assert(has_friend(f, nickname));
        lemma_first_friend(f, nickname);
        let k = friend_index(f, nickname);
        assert(friend_at(f, nickname, k));
        if 0 <= i < f.len() && f[i].nickname@ == nickname && (forall|j: int|
            0 <= j < i ==> (#[trigger] f[j]).nickname@ != nickname) {
            lemma_friend_index(f, nickname, i);
        }
    }
}

/// A friend is added or updated exactly where the link can be read, is not the own one, no other
/// nickname has its identity, and the nickname has no other identity; a new nickname is added, a
/// known one is updated.
pub proof fn law_when_a_friend_is_added(
    url: Seq<char>,
    nickname: Seq<char>,
    my_url: Option<Seq<char>>,
    f: Seq<FriendRecord>,
)
    requires
        forall|i: int, j: int|
            0 <= i < j < f.len() ==> uri_key((#[trigger] f[i]).url@) != uri_key(
                (#[trigger] f[j]).url@,
            ) || uri_key(f[i].url@) is None,
    ensures
        uri_key(url) is None <==> add_outcome(url, nickname, my_url, f) matches Err(
            FriendFault::InvalidLink(_),
        ),
        uri_key(url) is Some && my_url is Some && uri_key(trim_spec(my_url->Some_0)) == uri_key(url)
            ==> add_outcome(url, nickname, my_url, f) == Err::<FriendChange, FriendFault>(
            FriendFault::OwnIdentity,
        ),
        add_outcome(url, nickname, my_url, f) == Ok::<FriendChange, FriendFault>(FriendChange::Added)
            ==> !has_friend(f, nickname),
        add_outcome(url, nickname, my_url, f) == Ok::<FriendChange, FriendFault>(
            FriendChange::Updated,
        ) ==> has_friend(f, nickname),
        add_outcome(url, nickname, my_url, f) is Ok ==> {
            &&& uri_key(url) is Some
            &&& my_url is Some ==> uri_key(trim_spec(my_url->Some_0)) != uri_key(url)
            &&& forall|i: int|
                0 <= i < f.len() && uri_key((#[trigger] f[i]).url@) == uri_key(url)
                    ==> f[i].nickname@ == nickname
        },
        uri_key(url) is Some && (my_url is Some ==> uri_key(trim_spec(my_url->Some_0)) != uri_key(
            url,
        )) && !has_friend(f, nickname) && (forall|i: int|
            0 <= i < f.len() ==> uri_key((#[trigger] f[i]).url@) != uri_key(url)) ==> add_outcome(
            url,
            nickname,
            my_url,
            f,
        ) == Ok::<FriendChange, FriendFault>(FriendChange::Added),
{
    if uri_key(url) is Some {
        let key = uri_key(url)->Some_0;
        assert forall|i: int|
            0 <= i < f.len() && uri_key((#[trigger] f[i]).url@) == Some(key) && add_outcome(
                url,
                nickname,
                my_url,
                f,
            ) is Ok implies f[i].nickname@ == nickname by {
            assert(has_key(f, key));
            assert(key_at(f, key, i));
            lemma_key_index(f, key, i);
        }
    }
}

/// The words of a refusal and of a change hold the nickname, or what is wrong with the link.
pub proof fn law_friend_words(e: FriendError, change: FriendChange, nickname: Seq<char>)
    ensures
        match e {
            FriendError::InvalidLink(u) => e.text() == "Invalid atom:// link: "@ + u.text() && e@
                == FriendFault::InvalidLink(u@),
            FriendError::OwnIdentity => e.text() == "You cannot add your own identity as a friend."@
                && e@ is OwnIdentity,
            FriendError::KnownAs(n) => e.text()
                == "This identity is already saved under the nickname '"@ + n@ + "'."@ && e@
                == FriendFault::KnownAs(n@),
            FriendError::OtherIdentity(n) => e.text() == "SECURITY ALERT: Nickname '"@ + n@
                + "' is already associated with a DIFFERENT identity key! To overwrite, manually remove the old friend first."@
                && e@ == FriendFault::OtherIdentity(n@),
            FriendError::BadRecord(u) => e.text() == u.text() && e@ == FriendFault::BadRecord(u@),
        },
        change is Updated ==> change.text(nickname) == "Friend '"@ + nickname
            + "' routing address successfully updated!"@,
        change is Added ==> change.text(nickname) == "Friend '"@ + nickname
            + "' securely added! Make sure they add your atom link too."@,
{
}

/// A refusal tells who has the identity, or that the nickname belongs to another one.
pub proof fn law_refusals_name_the_other(
    url: Seq<char>,
    nickname: Seq<char>,
    my_url: Option<Seq<char>>,
    f: Seq<FriendRecord>,
    i: int,
)
    requires
        uri_key(url) is Some,
        my_url is Some ==> uri_key(trim_spec(my_url->Some_0)) != uri_key(url),
        0 <= i < f.len(),
    ensures
        uri_key(f[i].url@) == uri_key(url) && f[i].nickname@ != nickname && (forall|j: int|
            0 <= j < i ==> uri_key((#[trigger] f[j]).url@) != uri_key(url)) ==> add_outcome(
            url,
            nickname,
            my_url,
            f,
        ) == Err::<FriendChange, FriendFault>(FriendFault::KnownAs(f[i].nickname@)),
        f[i].nickname@ == nickname && (forall|j: int|
            0 <= j < i ==> (#[trigger] f[j]).nickname@ != nickname) && uri_key(f[i].url@) is Some
            && uri_key(f[i].url@) != uri_key(url) && (forall|j: int|
            0 <= j < f.len() ==> uri_key((#[trigger] f[j]).url@) != uri_key(url)) ==> add_outcome(
            url,
            nickname,
            my_url,
            f,
        ) == Err::<FriendChange, FriendFault>(FriendFault::OtherIdentity(nickname)),
        f[i].nickname@ == nickname && (forall|j: int|
            0 <= j < i ==> (#[trigger] f[j]).nickname@ != nickname) && uri_key(f[i].url@)
            == uri_key(url) && (forall|j: int|
            0 <= j < f.len() && j != i ==> uri_key((#[trigger] f[j]).url@) != uri_key(url))
            ==> add_outcome(url, nickname, my_url, f) == Ok::<FriendChange, FriendFault>(
            FriendChange::Updated,
        ),
{
    let key = uri_key(url)->Some_0;
    if uri_key(f[i].url@) == Some(key) && (forall|j: int|
        0 <= j < i ==> uri_key((#[trigger] f[j]).url@) != Some(key)) {
        assert(key_at(f, key, i));
        lemma_key_index(f, key, i);
        assert(has_key(f, key));
    }
    if f[i].nickname@ == nickname && (forall|j: int|
        0 <= j < i ==> (#[trigger] f[j]).nickname@ != nickname) {
        assert(friend_at(f, nickname, i));
        lemma_friend_index(f, nickname, i);
        assert(has_friend(f, nickname));
    }
}

} // verus!
