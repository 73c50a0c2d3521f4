//! The network screen: proposals, friends, and the status of a synchronisation.

use crate::commands::daemon::{default_place, SyncResponse};
use crate::commands::id::{beheaded, without_scheme};
use crate::gui::{Rgb, GRAY, GREEN, RED};
use crate::paths::{optional_text, pushed};
use crate::text::{concat, contains_text, copy_text, occurs_in};
use vstd::prelude::*;

verus! {

/// Where a vault is saved: where the user said, or else in a directory of the sender under the
/// downloads.
pub fn resolve_save_path(save_path: &str, sender_nick: &str, filename: &str, home: &str) -> (r:
    String)
    ensures
        r@ == if save_path@.len() == 0 {
            pushed(home@, "Downloads/"@ + sender_nick@ + "/"@ + filename@)
        } else {
            save_path@
        },
{
    if save_path.is_empty() {
        default_place(home, sender_nick, filename)
    } else {
        copy_text(save_path)
    }
}

/// The place that is offered for a proposed vault.
pub fn offered_place(home: &str, sender_nick: &str, filename: &str) -> (r: String)
    ensures
        r@ == pushed(home@, ".atom_vault/received/"@ + sender_nick@ + "/"@ + filename@),
{
    let mut rel: String = concat(".atom_vault/received/", sender_nick);
    crate::text::push_text(&mut rel, "/");
    crate::text::push_text(&mut rel, filename);
    crate::paths::push_path(home, &rel)
}

/// The answer to a proposal that a user accepts in the window.
pub fn accept_response(
    vault_label: &str,
    save_path: &str,
    sender_nick: &str,
    filename: &str,
    home: &str,
) -> (r: SyncResponse)
    ensures
        r.accepted,
        optional_text(r.label) == Some(
            if vault_label@.len() == 0 {
                "Synced Vault"@
            } else {
                vault_label@
            },
        ),
        optional_text(r.save_path) == Some(
            if save_path@.len() == 0 {
                pushed(home@, "Downloads/"@ + sender_nick@ + "/"@ + filename@)
            } else {
                save_path@
            },
        ),
{
    let label: String = if vault_label.is_empty() {
        copy_text("Synced Vault")
    } else {
        copy_text(vault_label)
    };
    SyncResponse {
        accepted: true,
        label: Some(label),
        save_path: Some(resolve_save_path(save_path, sender_nick, filename, home)),
    }
}

/// The answer to a proposal that a user rejects.
pub fn reject_response() -> (r: SyncResponse)
    ensures
        !r.accepted,
        r.label is None,
        r.save_path is None,
{
    SyncResponse { accepted: false, label: None, save_path: None }
}

/// The colour of the status of a synchronisation.
pub fn sync_status_color(msg: &str) -> (r: Rgb)
    ensures
        r == if occurs_in(msg@, "Failed"@) {
            RED
        } else if occurs_in(msg@, "Complete"@) {
            GREEN
        } else {
            GRAY
        },
{
    if contains_text(msg, "Failed") {
        RED
    } else if contains_text(msg, "Complete") {
        GREEN
    } else {
        GRAY
    }
}

/// Whether the fields for a new friend are filled; otherwise, what is said.
pub fn check_friend_form(nickname: &str, url: &str) -> (r: Option<&'static str>)
    ensures
        r is None <==> nickname@.len() > 0 && url@.len() > 0,
        r matches Some(e) ==> e@ == "Error: Nickname and URL are required."@,
{
    if nickname.is_empty() || url.is_empty() {
        Some("Error: Nickname and URL are required.")
    } else {
        None
    }
}

/// The own link as it is shown: with its scheme once, however it is stored.
pub fn shown_identity(stored: &Option<String>) -> (r: String)
    ensures
        r@ == match *stored {
            Some(s) => "atom://"@ + beheaded(s@, "atom://"@),
            None => "Identity not generated yet. Run daemon."@,
        },
{
    match stored {
        Some(s) => concat("atom://", &without_scheme(s)),
        None => copy_text("Identity not generated yet. Run daemon."),
    }
}

/// The status after a synchronisation.
pub fn sync_status(friend: &str, failure: &Option<String>) -> (r: String)
    ensures
        r@ == match *failure {
            None => "Sync Complete with "@ + friend@,
            Some(e) => "Sync Failed: "@ + e@,
        },
{
    match failure {
        None => concat("Sync Complete with ", friend),
        Some(e) => concat("Sync Failed: ", e),
    }
}

} // verus!
