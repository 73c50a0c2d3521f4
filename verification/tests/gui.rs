//! The windows.

use atom_vault::commands::daemon::{
    default_place, friend_for_sync, known_place, nickname_of, onion_address, own_link,
    proposal_step, record_answer, sync_reply, terminal_response, ProposalStep, SyncResponse,
};
use atom_vault::commands::p2p_utils::{parse_atom_uri, FriendRecord, SharedVault, SyncMessage};
use atom_vault::commands::vault_registry::VaultEntry;
use atom_vault::gui::app::{
    friends_stale, sync_target, AtomVaultApp, TransportTab, UnlockResult,
};
use atom_vault::gui::explorer::{extracted_status, is_valid_vfs_filename, status_color};
use atom_vault::gui::home::{
    empty_hint, friend_status, is_online, online_counts, relative_time, shared_name, vault_line,
};
use atom_vault::gui::login::{
    check_form, created_status, is_create_error, is_error_status, is_valid_vault_name, vault_file,
    CreateForm,
};
use atom_vault::gui::p2p::{
    accept_response, check_friend_form, offered_place, reject_response, resolve_save_path,
    shown_identity, sync_status, sync_status_color,
};
use atom_vault::gui::{Screen, GRAY, GREEN, RED};

#[test]
fn empty_filename_is_invalid() {
    assert!(!is_valid_vfs_filename(""));
}

#[test]
fn path_traversal_with_slash_is_invalid() {
    assert!(!is_valid_vfs_filename("../../etc/passwd"));
}

#[test]
fn backslash_in_filename_is_invalid() {
    assert!(!is_valid_vfs_filename("dir\\file.txt"));
}

#[test]
fn null_byte_in_filename_is_invalid() {
    assert!(!is_valid_vfs_filename("evil\0file"));
}

#[test]
fn normal_filenames_are_valid() {
    assert!(is_valid_vfs_filename("document.pdf"));
    assert!(is_valid_vfs_filename("my notes.txt"));
    assert!(is_valid_vfs_filename("archive.tar.gz"));
    assert!(is_valid_vfs_filename("résumé.docx"));
}

#[test]
fn error_message_maps_to_red() {
    let red = [220, 60, 60];
    assert_eq!(RED, red);
    assert_eq!(status_color("Error: something went wrong"), red);
    assert_eq!(status_color("Export failed: oops"), red);
    assert_eq!(status_color("Open Failed: viewer crashed"), red);
}

#[test]
fn success_message_maps_to_green() {
    let green = [80, 180, 80];
    assert_eq!(GREEN, green);
    assert_eq!(status_color("Success: file.txt imported."), green);
    assert_eq!(status_color("Permanently Shredded: secret.pdf"), green);
    assert_eq!(status_color("Closed securely: notes.txt"), green);
    assert_eq!(status_color("Renamed to: new_name.txt"), green);
    assert_eq!(status_color("Success: File exported."), green);
    assert_eq!(status_color(&extracted_status("a.txt", false)), green);
    assert_eq!(status_color(&extracted_status("a.txt", true)), green);
}

#[test]
fn neutral_message_maps_to_gray() {
    assert_eq!(status_color("Opening file.txt securely in sandbox..."), GRAY);
    assert_eq!(status_color(""), GRAY);
    assert_eq!(GRAY, [160, 160, 160]);
}

#[test]
fn empty_name_is_invalid() {
    assert!(!is_valid_vault_name(""));
}

#[test]
fn forward_slash_is_invalid() {
    assert!(!is_valid_vault_name("work/personal"));
}

#[test]
fn backslash_is_invalid() {
    assert!(!is_valid_vault_name("work\\personal"));
}

#[test]
fn null_byte_is_invalid() {
    assert!(!is_valid_vault_name("bad\0name"));
}

#[test]
fn normal_names_are_valid() {
    assert!(is_valid_vault_name("my-vault"));
    assert!(is_valid_vault_name("vault123"));
    assert!(is_valid_vault_name("My Vault"));
    assert!(is_valid_vault_name("secure.aegis"));
    assert!(is_valid_vault_name("über-tresor"));
}

#[test]
fn single_char_name_is_valid() {
    assert!(is_valid_vault_name("v"));
}

#[test]
fn sync_failed_maps_to_red() {
    assert_eq!(sync_status_color("Sync Failed: connection refused"), [220, 60, 60]);
    assert_eq!(sync_status_color(&sync_status("alice", &Some("gone".into()))), RED);
}

#[test]
fn sync_complete_maps_to_green() {
    assert_eq!(sync_status_color("Sync Complete with alice"), [80, 180, 80]);
    assert_eq!(sync_status("alice", &None), "Sync Complete with alice");
}

#[test]
fn sync_in_progress_maps_to_gray() {
    assert_eq!(sync_status_color("Initiating background sync..."), GRAY);
    assert_eq!(sync_status_color(""), GRAY);
}

#[test]
fn custom_path_returned_unchanged() {
    assert_eq!(
        resolve_save_path("/home/user/docs/secret.aegis", "bob", "secret.aegis", "/home/user"),
        "/home/user/docs/secret.aegis",
    );
}

#[test]
fn empty_path_generates_default_containing_nick_and_file() {
    let result = resolve_save_path("", "alice", "vault.aegis", "/home/user");
    assert!(result.contains("alice"), "default path should include sender nick, got: {result}");
    assert!(result.contains("vault.aegis"), "default path should include filename, got: {result}");
    assert_eq!(result, "/home/user/Downloads/alice/vault.aegis");
}

#[test]
fn empty_path_with_different_nick_and_file() {
    let r1 = resolve_save_path("", "carol", "report.pdf", "/home/user");
    let r2 = resolve_save_path("", "dave", "notes.txt", "/home/user");
    assert!(r1.contains("carol") && r1.contains("report.pdf"));
    assert!(r2.contains("dave") && r2.contains("notes.txt"));
    assert_ne!(r1, r2);
}

#[test]
fn a_proposal_is_answered() {
    let yes = accept_response("", "", "bob", "v.aegis", "/h");
    assert!(yes.accepted);
    assert_eq!(yes.label.as_deref(), Some("Synced Vault"));
    assert_eq!(yes.save_path.as_deref(), Some("/h/Downloads/bob/v.aegis"));
    let own = accept_response("work", "/x", "bob", "v.aegis", "/h");
    assert_eq!((own.label.as_deref(), own.save_path.as_deref()), (Some("work"), Some("/x")));
    let no = reject_response();
    assert!(!no.accepted && no.label.is_none() && no.save_path.is_none());
    assert_eq!(offered_place("/h", "bob", "v"), "/h/.atom_vault/received/bob/v");
}

#[test]
fn the_own_link_is_shown_with_one_scheme() {
    assert_eq!(shown_identity(&Some("abc".into())), "atom://abc");
    assert_eq!(shown_identity(&Some("atom://atom://abc".into())), "atom://abc");
    assert_eq!(shown_identity(&None), "Identity not generated yet. Run daemon.");
    assert!(check_friend_form("", "atom://x").is_some());
    assert!(check_friend_form("bob", "").is_some());
    assert!(check_friend_form("bob", "atom://x").is_none());
}

fn friend(nickname: &str, url: &str, last_seen: Option<u64>) -> FriendRecord {
    FriendRecord { nickname: nickname.into(), url: url.into(), shared_vaults: Vec::new(), last_seen }
}

#[test]
fn times_are_told_in_whole_units() {
    assert_eq!(relative_time(100, 41), "just now");
    assert_eq!(relative_time(100, 40), "1m ago");
    assert_eq!(relative_time(3600, 0), "1h ago");
    assert_eq!(relative_time(86400 * 3 + 1, 1), "3d ago");
    assert_eq!(relative_time(0, 50), "just now");
    assert!(is_online(1000, Some(701)) && !is_online(1000, Some(700)) && !is_online(1000, None));
    assert_eq!(friend_status(1000, None), "never synced");
    assert_eq!(friend_status(1000, Some(999)), "● online now");
    assert_eq!(friend_status(4000, Some(100)), "last seen 1h ago");
    let friends = vec![friend("a", "", Some(999)), friend("b", "", None), friend("c", "", Some(1))];
    assert_eq!(online_counts(1000, &friends), (1, 2));
}

#[test]
fn vaults_are_told_apart_on_the_home_screen() {
    let mut e = VaultEntry { name: "v".into(), path: "/v".into(), last_opened: 0 };
    assert_eq!(vault_line(100, true, &e), "Newly created");
    e.last_opened = 40;
    assert_eq!(vault_line(100, true, &e), "Last opened  1m ago");
    assert_eq!(vault_line(100, false, &e), "⚠  File not found on disk");
    assert!(empty_hint(true).contains("app data folder"));
    assert!(empty_hint(false).contains(".aegis"));
    let mut s = SharedVault {
        original_name: "o".into(),
        label: "".into(),
        local_path: "".into(),
        last_modified: 0,
    };
    assert_eq!(shared_name(&s), "o");
    s.label = "l".into();
    assert_eq!(shared_name(&s), "l");
}

#[test]
fn the_form_for_a_vault_is_checked() {
    assert_eq!(check_form("a/b", "p", "p"), Some("Invalid or empty vault name."));
    assert_eq!(check_form("a", "", ""), Some("Password cannot be empty."));
    assert_eq!(check_form("a", "p", "q"), Some("Passwords do not match."));
    assert_eq!(check_form("a", "p", "p"), None);
    let f = CreateForm {
        kdf_argon: false,
        dec_time: "x".into(),
        memory: "1024".into(),
        rounds: "".into(),
        threads: "+4".into(),
    };
    let r = f.kdf_request();
    assert_eq!((r.memory, r.rounds, r.threads, r.decryption_time), (Some(1024), None, Some(4), 1000));
    assert_eq!(vault_file("/h", "a"), "/h/.atom_vault/a.aegis");
    assert_eq!(created_status("a"), "Vault 'a' created. Select it to unlock.");
    assert!(is_create_error("Passwords do not match.") && !is_create_error("Deriving keys"));
    assert!(is_error_status("Error: x") && !is_error_status("Vault locked."));
}

#[test]
fn a_vault_is_unlocked_and_locked() {
    let mut app = AtomVaultApp::new();
    assert!(app.begin_unlock().is_none());
    assert_eq!(app.login_status, "Error: Please select a vault first!");
    app.open_listed("/v.aegis");
    assert!(app.screen == Screen::Login);
    assert!(app.begin_unlock().is_none());
    assert_eq!(app.login_status, "Error: Password cannot be empty!");
    app.password = "secret".into();
    let u = app.begin_unlock().unwrap();
    assert_eq!((u.path.as_str(), u.password.as_str(), u.confine), ("/v.aegis", "secret", true));
    assert_eq!(app.password, "");
    app.finish_unlock("/v.aegis", &UnlockResult::Refused);
    assert_eq!(app.login_status, "Error: Invalid password or corrupted vault.");
    app.finish_unlock("/v.aegis", &UnlockResult::NoFile("gone".into()));
    assert_eq!(app.login_status, "Error: Could not open file: gone");
    app.password = "again".into();
    assert!(!app.begin_unlock().unwrap().confine);
    app.finish_unlock("/v.aegis", &UnlockResult::Opened);
    assert!(app.screen == Screen::VaultExplorer && app.unlocked);
    assert_eq!(app.current_vault_path, "/v.aegis");
    app.open_network();
    assert!(app.screen == Screen::P2PDialog);
    app.choose_transport(TransportTab::Live);
    app.back_to_vault();
    app.lock();
    assert!(app.screen == Screen::Login && !app.unlocked);
    assert_eq!(app.login_status, "Vault locked.");
    app.password = "half typed".into();
    app.back_home();
    assert!(app.screen == Screen::Home && app.password.is_empty());
    app.vault_picked("/w");
    assert!(app.screen == Screen::Login);
}

#[test]
fn a_vault_is_made() {
    let mut app = AtomVaultApp::new();
    app.create_new();
    assert!(app.screen == Screen::CreateVault);
    assert!(app.check_create(&Some("/h".into())).is_none());
    assert_eq!(app.create_status, "Invalid or empty vault name.");
    app.create_name = "work".into();
    app.passphrase_generated("ten words");
    assert!(app.create_show_password);
    assert!(app.check_create(&None).is_none());
    assert_eq!(app.create_status, "Error: Cannot determine home directory.");
    assert_eq!(app.check_create(&Some("/h".into())).unwrap(), "/h/.atom_vault/work.aegis");
    let c = app.begin_create();
    assert_eq!((c.password.as_str(), c.confine), ("ten words", true));
    assert!(app.create_password.is_empty() && app.create_confirm.is_empty());
    app.finish_create("work", &Some("disk full".into()));
    assert_eq!(app.create_status, "Error: disk full");
    app.finish_create("work", &None);
    assert!(app.screen == Screen::Home && app.create_name.is_empty());
    assert_eq!(app.home_status, "Vault 'work' created. Select it to unlock.");
    app.create_new();
    app.cancel_create();
    assert!(app.screen == Screen::Home);
}

#[test]
fn files_come_and_go_through_the_explorer() {
    let mut app = AtomVaultApp::new();
    app.import_picked("/tmp/in/note.txt");
    assert_eq!(app.explorer_status, "Reading file...");
    assert_eq!(app.take_import(), "note.txt");
    assert_eq!(app.take_import(), "");
    app.import_unread("denied");
    assert_eq!(app.explorer_status, "Import Error: denied");
    app.begin_export("note.txt");
    assert_eq!(app.take_export().as_deref(), Some("note.txt"));
    assert!(app.take_export().is_none());
    app.exported(&None);
    assert_eq!(app.explorer_status, "Success: File exported.");
    app.exported(&Some("full".into()));
    assert_eq!(app.explorer_status, "Export Error: full");
    app.begin_view("note.txt");
    assert_eq!(app.explorer_status, "Opening note.txt securely...");
    app.viewer_closed();
    assert_eq!(app.explorer_status, "Opening note.txt securely...");
    app.viewer_started("note.txt");
    app.viewer_closed();
    assert_eq!(app.explorer_status, "Closed securely: note.txt");
    app.viewer_started("note.txt");
    app.viewer_failed("no viewer");
    assert_eq!(app.explorer_status, "Open failed: no viewer");
    assert!(app.viewer.is_none());
    app.report("x".into());
    assert_eq!(app.explorer_status, "x");
}

#[test]
fn friends_are_added_and_synchronised() {
    let mut app = AtomVaultApp::new();
    app.friend_nick = "bob".into();
    app.friend_url = "atom://x".into();
    app.friend_added(&Err("bad link".into()));
    assert_eq!((app.add_friend_status.as_str(), app.friend_nick.as_str()), ("Error: bad link", "bob"));
    app.friend_added(&Ok("added".into()));
    assert_eq!((app.add_friend_status.as_str(), app.friend_nick.as_str()), ("added", ""));
    let names = vec!["a".to_string(), "b".to_string()];
    assert_eq!(sync_target(&names, 1, false).as_deref(), Some("b"));
    assert_eq!(sync_target(&names, 1, true), None);
    assert_eq!(sync_target(&names, 2, false), None);
    assert!(friends_stale(false, true) && !friends_stale(true, true) && !friends_stale(false, false));
}

#[test]
fn the_own_link_reads_back() {
    let service = [7u8; 32];
    let secret = [9u8; 32];
    let link = own_link(&service, &secret);
    let (onion, key) = parse_atom_uri(&link).ok().unwrap();
    assert_eq!(onion, onion_address(&service));
    assert_eq!(onion.len(), 62);
    let signing = ed25519_dalek::SigningKey::from_bytes(&secret);
    assert_eq!(key, signing.verifying_key().to_bytes());
    let friends = vec![friend("bob", &link, None)];
    assert_eq!(nickname_of(&friends, &key), "bob");
    assert_eq!(nickname_of(&friends, &[1; 32]), "Unknown");
}

#[test]
fn a_proposal_finds_its_place() {
    let mut friends = vec![friend("bob", "", None)];
    assert_eq!(known_place(&friends, "bob", "v"), None);
    let yes = SyncResponse {
        accepted: true,
        label: None,
        save_path: Some("/p/v".into()),
    };
    let place = record_answer(&mut friends, "bob", "v", 5, &yes);
    assert_eq!(place.as_deref(), Some("/p/v"));
    assert_eq!(friends[0].shared_vaults[0].label, "Synced Vault");
    assert_eq!(known_place(&friends, "bob", "v").as_deref(), Some("/p/v"));
    let no = SyncResponse { accepted: false, label: None, save_path: None };
    assert!(record_answer(&mut friends, "bob", "w", 5, &no).is_none());
    assert_eq!(friends[0].shared_vaults.len(), 1);
    assert!(matches!(sync_reply(&place), (SyncMessage::Accept { .. }, true)));
    assert!(matches!(sync_reply(&Some("".into())), (SyncMessage::Reject, false)));
    assert!(matches!(sync_reply(&None), (SyncMessage::Reject, false)));
    let r = terminal_response(" Y\n", " work \n", " \n", &default_place("/h", "bob", "v"));
    assert!(r.accepted);
    assert_eq!(r.label.as_deref(), Some("work"));
    assert_eq!(r.save_path.as_deref(), Some("/h/Downloads/bob/v"));
    assert!(terminal_response("", "", "/x", "/o").save_path.as_deref() == Some("/x"));
    assert!(!terminal_response("n", "", "", "").accepted);
    assert_eq!(friend_for_sync(&friends, "bob"), Ok(0));
    assert_eq!(
        friend_for_sync(&friends, "eve").unwrap_err(),
        "Friend 'eve' not found in address book.",
    );
}

#[test]
fn a_proposal_is_asked_about_once() {
    let mut friends = vec![friend("bob", "", None)];
    assert!(matches!(proposal_step(&mut friends, "bob", "v", 5, &None), ProposalStep::Ask));
    let no = SyncResponse { accepted: false, label: None, save_path: None };
    assert!(matches!(
        proposal_step(&mut friends, "bob", "v", 5, &Some(no)),
        ProposalStep::Reply { message: SyncMessage::Reject, place: None, save: false },
    ));
    assert_eq!(friends[0].shared_vaults.len(), 0);
    let yes = SyncResponse { accepted: true, label: None, save_path: Some("/p/v".into()) };
    let (place, save) = match proposal_step(&mut friends, "bob", "v", 5, &Some(yes)) {
        ProposalStep::Reply { message: SyncMessage::Accept { action }, place, save } => {
            assert_eq!(action, "pull_from_you");
            (place, save)
        }
        _ => panic!("a reply was due"),
    };
    assert_eq!((place.as_deref(), save), (Some("/p/v"), true));
    assert_eq!(friends[0].shared_vaults.len(), 1);
    let again = match proposal_step(&mut friends, "bob", "v", 6, &None) {
        ProposalStep::Reply { place, save, .. } => (place, save),
        ProposalStep::Ask => panic!("the place is known"),
    };
    assert_eq!((again.0.as_deref(), again.1), (Some("/p/v"), false));
    assert_eq!(friends[0].shared_vaults.len(), 1);
    let nowhere = SyncResponse { accepted: true, label: None, save_path: None };
    assert!(matches!(
        proposal_step(&mut friends, "bob", "w", 5, &Some(nowhere)),
        ProposalStep::Reply { message: SyncMessage::Reject, place: None, save: true },
    ));
}
