//! The command line, the shell, the configuration and the address book.

use atom_vault::cli::{self, parse_atom_url, parse_vault_path};
use atom_vault::cmd;
use atom_vault::commands::friend::{add_friend_core, list_friends, FriendChange, FriendError};
use atom_vault::commands::id::{get_id_string, handle_id, IdError};
use atom_vault::commands::p2p_utils::{
    authorized_keys, find_by_key, find_friend, parse_atom_uri, update_friend_last_seen,
    AtomUriError, FriendRecord,
};
use atom_vault::commands::daemon::own_link;
use atom_vault::commands::shell::{
    answered_yes, command, shell_step, ShellAction, ShellEvent, ShellState,
};
use atom_vault::commands::vault_registry::{
    keep_existing, register_vault, remove_vault_from_registry, VaultEntry,
};
use atom_vault::commands::view::{
    backing_file, device_name, disk_persistence_possible, is_ram_only_zram, may_stay_unpinned,
    memfd_name, next_zero_write, raised_limit, swap_devices,
};
use atom_vault::config_crypto::{
    choose_key, decrypt_config, encrypt_config, encrypt_config_with, stored_key, ConfigError, MAGIC,
};
use atom_vault::secure_input::PasswordInput;
use atom_vault::vfs::{FileIndex, VaultMetadata};

#[test]
fn vault_names_are_checked() {
    assert_eq!(cli::parse_vault_name("my-vault_1").unwrap(), "my-vault_1");
    assert!(cli::parse_vault_name(" ").unwrap_err().contains("empty or whitespace"));
    assert!(cli::parse_vault_name(&"a".repeat(33)).unwrap_err().contains("exceed 32"));
    assert!(cli::parse_vault_name("é").unwrap_err().contains("only ASCII"));
    assert!(cli::parse_vault_name("a b").unwrap_err().contains("alphanumeric"));
    assert_eq!(cmd::parse_vault_name("a b").unwrap(), "a b");
    assert!(cmd::parse_vault_name(&"a".repeat(33)).is_err());
    assert!(cmd::parse_vault_name("é").unwrap_err().contains("ASCII characters"));
}

#[test]
fn paths_and_links_are_checked() {
    assert!(parse_vault_path("").is_err());
    assert!(parse_vault_path(&"a".repeat(4097)).unwrap_err().contains("too long"));
    assert_eq!(parse_vault_path("x.aegis").unwrap(), "x.aegis");
    assert!(parse_atom_url("http://x").is_err());
    assert_eq!(parse_atom_url("atom://x").unwrap(), "atom://x");
}

#[test]
fn links_are_refused_for_a_reason() {
    let link = own_link(&[1; 32], &[2; 32]);
    assert!(parse_atom_uri(&link).is_ok());
    assert!(matches!(parse_atom_uri("http://x"), Err(AtomUriError::InvalidPrefix)));
    assert!(matches!(parse_atom_uri("atom://x"), Err(AtomUriError::InvalidFormat)));
    assert!(matches!(parse_atom_uri("atom://x/y"), Err(AtomUriError::InvalidOnionLength)));
    let (onion, _) = parse_atom_uri(&link).ok().unwrap();
    let at = |key: &str| parse_atom_uri(&format!("atom://{onion}/{key}"));
    assert!(matches!(at("y"), Err(AtomUriError::InvalidKeyLength)));
    assert!(matches!(at(&"1".repeat(52)), Err(AtomUriError::Base32DecodeError(_))));
    // The bytes 2, 0, 0, ... are no point of the curve.
    let mut no_point = vec![0u8; 32];
    no_point[0] = 2;
    let text = atom_vault::base32::encode_blob(&no_point);
    assert!(matches!(at(&text), Err(AtomUriError::InvalidEd25519Key(_))));
    let upper = link.replace(&link[70..], &link[70..].to_uppercase());
    assert_eq!(parse_atom_uri(&upper).ok().unwrap().1, parse_atom_uri(&link).ok().unwrap().1);
    assert_eq!(
        parse_atom_uri("x").err().unwrap().message(),
        "URI must start with 'atom://'",
    );
}

#[test]
fn friends_keep_their_identity() {
    let alice = own_link(&[1; 32], &[2; 32]);
    let moved = own_link(&[9; 32], &[2; 32]);
    let bob = own_link(&[3; 32], &[4; 32]);
    let me = own_link(&[5; 32], &[6; 32]);
    let mine = Some(me.clone());
    let mut friends: Vec<FriendRecord> = Vec::new();
    assert!(list_friends(&friends).contains("No friends added yet."));
    let added = add_friend_core(&alice, "alice", &mine, &mut friends).ok().unwrap();
    assert_eq!(added, FriendChange::Added);
    assert_eq!(
        added.message("alice"),
        "Friend 'alice' securely added! Make sure they add your atom link too.",
    );
    assert!(matches!(
        add_friend_core(&me, "me", &mine, &mut friends),
        Err(FriendError::OwnIdentity)
    ));
    assert!(matches!(
        add_friend_core(&alice, "al", &mine, &mut friends),
        Err(FriendError::KnownAs(_))
    ));
    assert!(matches!(
        add_friend_core(&bob, "alice", &mine, &mut friends),
        Err(FriendError::OtherIdentity(_))
    ));
    assert!(matches!(
        add_friend_core("atom://", "x", &mine, &mut friends),
        Err(FriendError::InvalidLink(_))
    ));
    assert_eq!(friends.len(), 1);
    assert_eq!(
        add_friend_core(&moved, "alice", &mine, &mut friends).ok().unwrap(),
        FriendChange::Updated,
    );
    assert_eq!(friends[0].url, moved);
    assert!(add_friend_core(&bob, "bob", &None, &mut friends).is_ok());
    assert_eq!(find_friend(&friends, "bob"), Some(1));
    let keys = authorized_keys(&friends);
    assert_eq!(keys.len(), 2);
    assert_eq!(find_by_key(&friends, &keys[1]), Some(1));
    assert!(update_friend_last_seen(&mut friends, "bob", 77));
    assert!(!update_friend_last_seen(&mut friends, "eve", 77));
    assert_eq!(friends[1].last_seen, Some(77));
    assert!(list_friends(&friends).contains("alice"));
}

#[test]
fn the_registry_is_sorted_and_has_no_doubles() {
    let r = register_vault(Vec::new(), "/v/a.aegis", 5);
    let r = register_vault(r, "/v/b.aegis", 9);
    let r = register_vault(r, "/v/a.aegis", 7);
    let shape = |r: &Vec<VaultEntry>| -> Vec<(String, u64)> {
        r.iter().map(|e| (e.name.clone(), e.last_opened)).collect()
    };
    assert_eq!(shape(&r), vec![("b".to_string(), 9), ("a".to_string(), 7)]);
    assert_eq!(shape(&keep_existing(&r, &vec![false, true])), vec![("a".to_string(), 7)]);
    assert_eq!(shape(&remove_vault_from_registry(&r, "/v/b.aegis")), vec![("a".to_string(), 7)]);
    assert_eq!(register_vault(Vec::new(), "/", 1)[0].name, "/");
}

fn table(names: &[&str]) -> VaultMetadata {
    VaultMetadata {
        file_table: names
            .iter()
            .map(|n| FileIndex { vfs_name: n.to_string(), chunks: Vec::new(), last_modified_unix: 0 })
            .collect(),
        cdc_salt: [0; 32],
    }
}

#[test]
fn the_shell_knows_its_commands() {
    let m = table(&["a"]);
    assert!(matches!(command("  ", &m), (ShellState::Prompt, ShellAction::Nothing)));
    assert!(matches!(command("ls", &m).1, ShellAction::ListFiles));
    assert!(matches!(command("vacuum", &m).1, ShellAction::Compact));
    assert!(matches!(command("rm a", &m).1, ShellAction::RemoveFile { .. }));
    assert!(matches!(command("cat a", &m).1, ShellAction::ShowFile { .. }));
    assert!(matches!(command("import x y", &m).1, ShellAction::ImportFile { .. }));
    assert!(matches!(command("view a", &m).1, ShellAction::ViewFile { .. }));
    assert!(matches!(command("exit", &m), (ShellState::Closed, ShellAction::Leave(_))));
    for bad in ["rm", "cat", "view", "import x", "export a"] {
        match command(bad, &m).1 {
            ShellAction::Say(t) => assert!(t.contains("Usage: "), "{bad}"),
            _ => panic!("{bad}"),
        }
    }
    match command("view b", &m).1 {
        ShellAction::Say(t) => assert_eq!(t, "Error: File 'b' not found inside the vault.\n"),
        _ => panic!("a missing file is viewed"),
    }
    match command("\u{1}x", &m).1 {
        ShellAction::Say(t) => {
            assert_eq!(t, "Unknown command: '?x'. Type 'help' for available commands.\n")
        }
        _ => panic!("an unknown command is run"),
    }
}

#[test]
fn an_export_needs_a_yes() {
    let m = table(&["a"]);
    let line = |s: &str| ShellEvent::Line(s.to_string());
    let (asked, action) = shell_step(ShellState::Prompt, line("export a b"), &m);
    assert!(matches!(action, ShellAction::Ask(_)));
    let (state, action) = shell_step(asked, line("n"), &m);
    assert!(matches!(state, ShellState::Prompt) && matches!(action, ShellAction::Say(_)));
    let (asked, _) = shell_step(ShellState::Prompt, line("export a b"), &m);
    let (state, action) = shell_step(asked, line(" Y \n"), &m);
    assert!(matches!(action, ShellAction::ExportFile { force: false, .. }));
    let (state, action) = shell_step(state, ShellEvent::ExportExists, &m);
    assert!(matches!(action, ShellAction::Ask(_)));
    let (state, action) = shell_step(state, line("y"), &m);
    assert!(matches!(action, ShellAction::ExportFile { force: true, .. }));
    let (state, action) = shell_step(state, ShellEvent::ExportFailed("x".to_string()), &m);
    assert!(matches!(state, ShellState::Prompt));
    match action {
        ShellAction::Complain(t) => assert!(t.starts_with("Export failed: x")),
        _ => panic!("a failure is not told"),
    }
    assert!(answered_yes("y") && !answered_yes("yes") && !answered_yes(""));
}

#[test]
fn a_config_file_reads_back() {
    let key = [3u8; 32];
    let blob = encrypt_config(&key, b"{}");
    assert_eq!(blob[..5], MAGIC);
    assert_eq!(&MAGIC, b"ATOM\x01");
    assert_eq!(blob.len(), 2 + 45);
    assert_eq!(decrypt_config(&key, &blob).unwrap(), b"{}");
    assert_ne!(blob, encrypt_config(&key, b"{}"));
    assert_eq!(
        encrypt_config_with(&key, &[1; 24], b"x"),
        encrypt_config_with(&key, &[1; 24], b"x"),
    );
    assert_eq!(decrypt_config(&[4u8; 32], &blob), Err(ConfigError::Mismatch));
    assert_eq!(decrypt_config(&key, &blob[..20]), Err(ConfigError::Truncated));
    for len in [29, 30, 44] {
        let mut short = blob.clone();
        short.resize(len, 0);
        assert_eq!(decrypt_config(&key, &short), Err(ConfigError::Mismatch));
    }
    let empty = encrypt_config(&key, b"");
    assert_eq!(empty.len(), 45);
    assert_eq!(decrypt_config(&key, &empty).unwrap(), b"");
    assert_eq!(decrypt_config(&key, b"[]").unwrap(), b"[]");
    assert!(ConfigError::Truncated.message().contains("truncated"));
    assert!(ConfigError::Mismatch.message().contains("key mismatch"));
}

#[test]
fn the_key_of_the_configuration_is_kept() {
    assert_eq!(stored_key(&[1; 32]), Some([1; 32]));
    assert_eq!(stored_key(&[1; 31]), None);
    assert_eq!(choose_key(&Some(vec![1; 32])), ([1; 32], false));
    assert!(choose_key(&Some(vec![1; 31])).1);
    let (a, fresh) = choose_key(&None);
    assert!(fresh);
    assert_ne!(a, choose_key(&None).0);
}

#[test]
fn the_link_is_read_from_its_file() {
    let key = [3u8; 32];
    let file = encrypt_config(&key, b" atom://x\n");
    let id = get_id_string(&key, &Some(file));
    assert_eq!(id.as_deref().ok(), Some("atom://x"));
    assert_eq!(handle_id(&id).0, "🔗 Your Link : atom://x");
    assert_eq!(handle_id(&Ok("x".to_string())).0, "🔗 Your Link : atom://x");
    assert_eq!(get_id_string(&key, &None), Err(IdError::NotGenerated));
    assert_eq!(
        get_id_string(&key, &Some(vec![0xff])).unwrap_err().message(),
        "invalid utf-8 sequence of 1 bytes from index 0",
    );
    assert_eq!(
        get_id_string(&key, &Some(b"ATOM\x01".to_vec())),
        Err(IdError::Config(ConfigError::Truncated)),
    );
    assert!(handle_id(&Err(IdError::NotGenerated)).0.contains("Run 'atom daemon' first."));
}

#[test]
fn a_password_is_cut_at_its_capacity() {
    let mut p = PasswordInput::new();
    for b in "pässwort".bytes() {
        assert!(!p.push(b));
    }
    assert!(p.push(b'\n'));
    assert!(p.push(b'\r'));
    assert_eq!(p.finish().unwrap(), "pässwort");
    let mut long = PasswordInput::new();
    for _ in 0..200 {
        assert!(!long.push(b'x'));
    }
    assert_eq!(long.bytes.len(), 128);
    long.wipe();
    assert_eq!(long.finish().unwrap(), "");
    let mut bad = PasswordInput::new();
    bad.push(0xff);
    assert_eq!(bad.finish(), Err("Invalid UTF-8 sequence in password"));
}

#[test]
fn swap_is_known_by_its_device() {
    let swaps = "Filename Type Size\n/dev/zram0 partition 1\n\n/dev/sda2 partition 2\n";
    assert_eq!(swap_devices(swaps), vec!["/dev/zram0", "/dev/sda2"]);
    assert_eq!(device_name("/dev/zram0"), "zram0");
    assert_eq!(backing_file("/dev/zram0").as_deref(), Some("/sys/block/zram0/backing_dev"));
    assert_eq!(backing_file("/dev/sda2"), None);
    assert!(is_ram_only_zram("/dev/zram0", &Some("none\n".to_string())));
    assert!(!is_ram_only_zram("/dev/zram0", &None));
    assert!(!is_ram_only_zram("/dev/sda2", &Some("none".to_string())));
    let zram = Some(vec!["/dev/zram0".to_string()]);
    assert!(!disk_persistence_possible(&zram, &vec![Some("none".to_string())]));
    assert!(disk_persistence_possible(&zram, &vec![Some("/dev/sdb".to_string())]));
    assert!(disk_persistence_possible(&None, &vec![]));
    assert!(may_stay_unpinned(true, false) && !may_stay_unpinned(true, true));
    assert_eq!(next_zero_write(5000, 0), 4096);
    assert_eq!(next_zero_write(5000, 4096), 904);
    assert_eq!(next_zero_write(5000, 5000), 0);
    assert_eq!((raised_limit(1, 2), raised_limit(2, 2)), (Some(2), None));
    assert_eq!(memfd_name("a"), "atom_vault_memfd_a");
}
