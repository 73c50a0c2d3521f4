//! The home screen: times, friends online, and the lines under a vault.

use crate::commands::p2p_utils::{FriendRecord, SharedVault};
use crate::commands::vault_registry::VaultEntry;
use crate::text::{concat, copy_text, decimal, decimal_spec};
use vstd::prelude::*;

verus! {

/// The seconds since a moment; none where it lies ahead.
pub open spec fn seconds_since(now: u64, ts: u64) -> nat {
    if now >= ts {
        (now - ts) as nat
    } else {
        0
    }
}

/// How long ago a moment was, in the largest whole unit.
pub open spec fn ago(now: u64, ts: u64) -> Seq<char> {
    let d = seconds_since(now, ts);
    if d < 60 {
        "just now"@
    } else if d < 3600 {
        decimal_spec(d / 60) + "m ago"@
    } else if d < 86400 {
        decimal_spec(d / 3600) + "h ago"@
    } else {
        decimal_spec(d / 86400) + "d ago"@
    }
}

/// How long ago a moment was.
pub fn relative_time(now: u64, ts: u64) -> (r: String)
    ensures
        r@ == ago(now, ts),
{
    let d: u64 = if now >= ts {
        now - ts
    } else {
        0
    };
    if d < 60 {
        copy_text("just now")
    } else if d < 3600 {
        concat(&decimal(d / 60), "m ago")
    } else if d < 86400 {
        concat(&decimal(d / 3600), "h ago")
    } else {
        concat(&decimal(d / 86400), "d ago")
    }
}

/// A friend counts as online for five minutes after a synchronisation.
pub open spec fn online(now: u64, last_seen: Option<u64>) -> bool {
    last_seen matches Some(t) && seconds_since(now, t) < 300
}

/// Whether a friend counts as online.
pub fn is_online(now: u64, last_seen: Option<u64>) -> (r: bool)
    ensures
        r == online(now, last_seen),
{
    match last_seen {
        Some(t) => {
            let d: u64 = if now >= t {
                now - t
            } else {
                0
            };
            d < 300
        },
        None => false,
    }
}

/// How many friends are online.
pub open spec fn online_spec(now: u64, f: Seq<FriendRecord>) -> nat
    decreases f.len(),
{
    if f.len() == 0 {
        0
    } else {
        online_spec(now, f.subrange(0, f.len() - 1)) + if online(now, f[f.len() - 1].last_seen) {
            1nat
        } else {
            0
        }
    }
}

/// How many friends are online, and how many are not.
pub fn online_counts(now: u64, friends: &Vec<FriendRecord>) -> (r: (usize, usize))
    ensures
        r.0 == online_spec(now, friends@),
        r.0 + r.1 == friends@.len(),
{
    let mut n: usize = 0;
    let mut i: usize = 0;
    while i < friends.len()
        invariant
            i <= friends@.len(),
            n <= i,
            n == online_spec(now, friends@.subrange(0, i as int)),
        decreases friends@.len() - i,
    {
        proof {
            let upto = friends@.subrange(0, i + 1);
            assert(upto.subrange(0, i as int) =~= friends@.subrange(0, i as int));
        }
        if is_online(now, friends[i].last_seen) {
            n = n + 1;
        }
        i = i + 1;
    }
    assert(friends@.subrange(0, friends@.len() as int) =~= friends@);
    (n, friends.len() - n)
}

/// The line under a friend's name.
pub fn friend_status(now: u64, last_seen: Option<u64>) -> (r: String)
    ensures
        r@ == match last_seen {
            None => "never synced"@,
            Some(t) => if online(now, last_seen) {
                "● online now"@
            } else {
                "last seen "@ + ago(now, t)
            },
        },
{
    match last_seen {
        None => copy_text("never synced"),
        Some(t) => {
            if is_online(now, last_seen) {
                copy_text("● online now")
            } else {
                concat("last seen ", &relative_time(now, t))
            }
        },
    }
}

/// What a shared vault is called: by its label, or by its original name where it has none.
pub fn shared_name(v: &SharedVault) -> (r: &str)
    ensures
        r@ == if v.label@.len() == 0 {
            v.original_name@
        } else {
            v.label@
        },
{
    if v.label.as_str().is_empty() {
        v.original_name.as_str()
    } else {
        v.label.as_str()
    }
}

/// The line under a vault: that its file is gone, when it was opened, or that it is new.
pub fn vault_line(now: u64, present: bool, entry: &VaultEntry) -> (r: String)
    ensures
        r@ == if !present {
            "⚠  File not found on disk"@
        } else if entry.last_opened > 0 {
            "Last opened  "@ + ago(now, entry.last_opened)
        } else {
            "Newly created"@
        },
{
    if !present {
        copy_text("⚠  File not found on disk")
    } else if entry.last_opened > 0 {
        concat("Last opened  ", &relative_time(now, entry.last_opened))
    } else {
        copy_text("Newly created")
    }
}

/// What is said where there are no vaults yet.
pub fn empty_hint(in_flatpak: bool) -> (r: &'static str)
    ensures
        r@ == if in_flatpak {
            "Create a new encrypted vault — it will be\nstored securely in your app data folder."@
        } else {
            "Create a new encrypted vault or browse\nfor an existing .aegis file."@
        },
{
    if in_flatpak {
        "Create a new encrypted vault — it will be\nstored securely in your app data folder."
    } else {
        "Create a new encrypted vault or browse\nfor an existing .aegis file."
    }
}

// ── Laws ─────────────────────────────────────────────────────────────────────

/// How long ago a moment was is told in whole minutes, hours or days, rounded down, and not at all
/// within the first minute or for a moment that lies ahead.
pub proof fn law_ago_counts_whole_units(now: u64, ts: u64, n: nat)
    requires
        0 < n,
    ensures
        now < ts + 60 ==> ago(now, ts) == "just now"@,
        n < 60 && ts + 60 * n <= now < ts + 60 * (n + 1) ==> ago(now, ts) == decimal_spec(n)
            + "m ago"@,
        n < 24 && ts + 3600 * n <= now < ts + 3600 * (n + 1) ==> ago(now, ts) == decimal_spec(n)
            + "h ago"@,
        ts + 86400 * n <= now < ts + 86400 * (n + 1) ==> ago(now, ts) == decimal_spec(n)
            + "d ago"@,
{
    let d = now - ts;
    if n < 60 && ts + 60 * n <= now < ts + 60 * (n + 1) {
        assert(d / 60 == n);
    }
    if n < 24 && ts + 3600 * n <= now < ts + 3600 * (n + 1) {
        assert(d / 3600 == n);
    }
    if ts + 86400 * n <= now < ts + 86400 * (n + 1) {
        assert(d / 86400 == n);
    }
}

/// A friend is online for less than five minutes after being seen, and one who was never seen is
/// not; of the friends, those who are online are counted.
pub proof fn law_friends_online_are_counted(now: u64, f: Seq<FriendRecord>, t: u64)
    ensures
        online(now, Some(t)) <==> now < t + 300,
        !online(now, None),
        online_spec(now, f) == f.filter(
            |x: FriendRecord| x.last_seen is Some && now < x.last_seen->Some_0 + 300,
        ).len(),
    decreases f.len(),
{
    reveal(Seq::filter);
    if f.len() > 0 {
        law_friends_online_are_counted(now, f.subrange(0, f.len() - 1), t);
        assert(f.drop_last() =~= f.subrange(0, f.len() - 1));
    }
}

} // verus!
