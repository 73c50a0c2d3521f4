//! Live transfers.

use atom_vault::commands::live::{
    bind_port, done_text, handle_address, handle_id, handle_peers, handle_send, identity_summary,
    onion_parts, pair_complete, paired_text, pairing_intro, parse_endpoint, peer_line, round_text,
    set_endpoints, Endpoint, IdentitySummary, LivePeer, LiveState, PeerEntry, PeerTicket,
    ProgressMeter, TicketInfo,
};
use atom_vault::gui::live::{
    address_status, finished_status, is_failure, waiting_status, ContinueStep, Held, LiveForm,
    LiveRole, LiveStage,
};
use atom_vault::human::{human_bytes, percent};

#[test]
fn endpoints_parse_both_transports() {
    let v4 = "203.0.113.7:4433";
    assert!(matches!(parse_endpoint(v4, &Some(v4.to_string()), &Ok(())).unwrap(), Endpoint::Direct(_)));
    let v6 = "[2001:db8::1]:4433";
    assert!(matches!(parse_endpoint(v6, &Some(v6.to_string()), &Ok(())).unwrap(), Endpoint::Direct(_)));
    assert!(matches!(
        parse_endpoint(
            "abcdefghijklmnopqrstuvwxyz234567abcdefghijklmnopqrstuvwx.onion:4433",
            &None,
            &Ok(()),
        )
        .unwrap(),
        Endpoint::Onion { .. }
    ));
}

/// A mistyped address is refused where it is entered.
#[test]
fn bad_endpoints_are_refused() {
    for bad in ["203.0.113.7", "example.com:443", "203.0.113.7:notaport", ""] {
        assert!(parse_endpoint(bad, &None, &Ok(())).is_err(), "{bad} must be rejected");
    }
    assert_eq!(
        parse_endpoint("203.0.113.7:notaport", &None, &Ok(())).unwrap_err(),
        "'notaport' is not a port number",
    );
    assert!(parse_endpoint("x.onion:65536", &None, &Ok(())).is_err());
    assert_eq!(onion_parts(" x.onion:80 ", &None), Some(("x.onion".to_string(), 80)));
    assert_eq!(onion_parts("example.com:80", &None), None);
    assert_eq!(onion_parts("x.onion:80", &Some("x".to_string())), None);
    let refused = Err("invalid onion address".to_string());
    assert_eq!(
        parse_endpoint(" x.onion:80 ", &None, &refused).unwrap_err(),
        "invalid onion address",
    );
    assert_eq!(parse_endpoint(" x.onion:80 ", &None, &Ok(())).unwrap().text(), "x.onion:80");
}

/// A peer's entry survives the form in which it is stored.
#[test]
fn live_state_serialises() {
    let state = LiveState {
        my_endpoints: vec!["203.0.113.7:4433".into()],
        peers: vec![LivePeer { nickname: "bob".into(), ticket: "atom-live-1:abc".into() }],
    };
    let rows: Vec<(String, String)> =
        state.peers.iter().map(|p| (p.nickname.clone(), p.ticket.clone())).collect();
    let json = serde_json::to_vec(&(state.my_endpoints.clone(), rows)).unwrap();
    let (my_endpoints, rows): (Vec<String>, Vec<(String, String)>) =
        serde_json::from_slice(&json).unwrap();
    let back = LiveState {
        my_endpoints,
        peers: rows.into_iter().map(|(nickname, ticket)| LivePeer { nickname, ticket }).collect(),
    };
    assert_eq!(back.my_endpoints, state.my_endpoints);
    assert_eq!(back.peer("bob").unwrap().ticket, "atom-live-1:abc");
    assert!(back.peer("nobody").is_none());
}

#[test]
fn a_default_state_is_empty_not_an_error() {
    let state = LiveState::default();
    assert!(state.my_endpoints.is_empty());
    assert!(state.peers.is_empty());
    assert!(state.check_addresses().unwrap().contains("No address set."));
    assert_eq!(
        state.peer_ticket("bob").unwrap_err(),
        "No peer named 'bob'. Run 'atom live pair' first.",
    );
}

#[test]
fn bytes_are_readable_at_every_scale() {
    assert_eq!(human_bytes(0), "0 B");
    assert_eq!(human_bytes(512), "512 B");
    assert_eq!(human_bytes(1024), "1.0 KiB");
    assert_eq!(human_bytes(5 * 1024 * 1024 * 1024), "5.0 GiB");
}

#[test]
fn sizes_are_rounded_as_a_double_is_printed() {
    for n in [1023u64, 1025, 1075, 1076, 1126, 1536, 1127, 10_291, 1_048_575, 1_048_576, 9_999_999,
        123_456_789_012, u64::MAX, u64::MAX / 3, 1 << 53, (1 << 53) + 1]
    {
        let units = ["B", "KiB", "MiB", "GiB", "TiB"];
        let mut v = n as f64;
        let mut u = 0;
        while v >= 1024.0 && u < 4 {
            v /= 1024.0;
            u += 1;
        }
        let want = if u == 0 { format!("{n} B") } else { format!("{v:.1} {}", units[u]) };
        assert_eq!(human_bytes(n), want, "{n}");
    }
    for k in 0..3000u64 {
        let n = 1024 + 17 * k;
        let v = n as f64 / 1024.0;
        assert_eq!(human_bytes(n), format!("{v:.1} KiB"), "{n}");
    }
}

#[test]
fn progress_is_said_once_for_each_percent() {
    assert_eq!(percent(50, 200), 25);
    assert_eq!(percent(5, 0), 100);
    let mut m = ProgressMeter::new();
    assert_eq!(m.report("S", 0, 2048, 0), "\rS   0%  0 B / 2.0 KiB");
    assert_eq!(m.report("S", 1, 2048, 0), "");
    assert_eq!(
        m.report("S", 2048, 2048, 1024),
        "↻  Resuming from 1.0 KiB\n\rS 100%  2.0 KiB / 2.0 KiB",
    );
    assert_eq!(m.report("S", 2048, 2048, 1024), "");
    assert_eq!(done_text(1024, 0), "\n✅ Done — 1.0 KiB verified\n");
    assert!(done_text(1024, 3).contains("   3 cover frames sent"));
}

#[test]
fn addresses_are_checked_before_they_are_stored() {
    let mut state = LiveState::default();
    let good = vec!["203.0.113.7:4433".to_string(), "x.onion:1".to_string()];
    let sockets = vec![Some("203.0.113.7:4433".to_string()), None];
    assert!(set_endpoints(&mut state, &good, &sockets, &vec![Ok(()), Ok(())]).is_ok());
    assert_eq!(state.my_endpoints, good);
    let bad = vec!["x.onion:2".to_string(), "nonsense".to_string()];
    let none = vec![None, None];
    assert!(set_endpoints(&mut state, &bad, &none, &vec![Ok(()), Ok(())]).is_err());
    let mistyped = vec![Ok(()), Err("no".to_string())];
    assert_eq!(set_endpoints(&mut state, &good, &sockets, &mistyped), Err("no".to_string()));
    assert_eq!(state.my_endpoints, good);
    assert!(state.check_addresses().is_none());
    assert_eq!(bind_port(&vec![None, Some(4433), Some(1)]), Ok(4433));
    assert!(bind_port(&vec![None]).is_err());
    let s = identity_summary("id", "fp", true, &state);
    assert_eq!((s.id.as_str(), s.fingerprint.as_str(), s.hybrid), ("id", "fp", true));
    assert_eq!(s.endpoints, good);
}

fn ticket(id: &str) -> TicketInfo {
    TicketInfo { id: id.into(), fingerprint: format!("f-{id}"), text: format!("t-{id}") }
}

#[test]
fn a_nickname_keeps_its_identity() {
    let mut state = LiveState::default();
    assert!(pair_complete(&mut state, "bob", &ticket("me"), "me", &None)
        .unwrap_err()
        .contains("your own identity"));
    assert!(pair_complete(&mut state, "bob", &ticket("b"), "me", &None).is_ok());
    assert_eq!(state.peer_ticket("bob").unwrap(), "t-b");
    let err = pair_complete(&mut state, "bob", &ticket("x"), "me", &Some(ticket("b"))).unwrap_err();
    assert!(err.contains("SECURITY ALERT") && err.contains("f-b vs f-x"));
    assert_eq!(state.peer_ticket("bob").unwrap(), "t-b");
    let newer = TicketInfo { text: "t2".into(), ..ticket("b") };
    assert!(pair_complete(&mut state, "bob", &newer, "me", &Some(ticket("b"))).is_ok());
    assert_eq!(state.peer_ticket("bob").unwrap(), "t2");
    assert_eq!(state.peers.len(), 1);
    assert_eq!(peer_line("bob", "fp", true, false), "  bob              fp  PQ");
    assert!(peer_line("bob", "fp", false, true).ends_with("fp  classical  ⚠️ ticket expired"));
    assert_eq!(handle_send(false, "/v").unwrap_err(), "No such vault: /v");
}

#[test]
fn a_pairing_goes_through_its_rounds() {
    let mut f = LiveForm::new("/home/u");
    assert_eq!(f.save_path, "/home/u/.atom_vault/received/live.aegis");
    assert!(!f.can_start());
    f.nickname = " bob ".into();
    f.code_generated(&Ok("seven words".into()));
    assert_eq!(f.code, "seven words");
    assert!(f.can_start());
    f.round_one(&Ok("blob1".into()));
    assert!(f.stage == LiveStage::Exchange && f.held == Held::Pairing);
    assert!(!f.can_start() && !f.can_continue(false));
    assert!(f.blob_heading().starts_with("Round 1"));
    f.peer_blob = "theirs".into();
    assert!(f.can_continue(false) && !f.can_continue(true));
    assert_eq!(f.continue_step(), ContinueStep::Exchange);
    f.exchanged(&Ok("sealed".into()));
    assert_eq!((f.our_blob.as_str(), f.peer_blob.as_str()), ("sealed", ""));
    assert_eq!(f.continue_step(), ContinueStep::Complete);
    f.completed(&Ok("their fp".into()), "our fp");
    assert!(f.stage == LiveStage::Paired);
    assert_eq!(f.selected_peer, "bob");
    assert_eq!(f.status, "Paired with bob.");
    assert!(f.blob_heading().starts_with("Round 2"));
    assert!(f.can_transfer(false) && !f.can_transfer(true));
    f.pair_another();
    assert_eq!(f.selected_peer, "bob");
    assert_eq!((f.code.as_str(), f.our_fingerprint.as_str()), ("", ""));
}

#[test]
fn a_failed_round_uses_the_code_up() {
    let mut f = LiveForm::new("/home/u");
    f.code_generated(&Err("no entropy".into()));
    assert_eq!(f.status, "Failed: no entropy");
    f.round_one(&Err("no address".into()));
    assert!(f.stage == LiveStage::Code);
    f.round_one(&Ok("b".into()));
    f.exchanged(&Err("bad blob".into()));
    assert_eq!(f.continue_step(), ContinueStep::Nothing);
    assert_eq!(f.status, "Failed: bad blob");
    f.completed(&Err("x".into()), "");
    assert!(f.stage == LiveStage::Exchange);
    f.reset_pairing();
    assert!(f.stage == LiveStage::Code && f.our_blob.is_empty() && f.status.is_empty());
    f.vault_path = "v".into();
    assert_eq!(f.transfer_path(), "v");
    f.role = LiveRole::Receive;
    assert_eq!(f.transfer_path(), "/home/u/.atom_vault/received/live.aegis");
}

#[test]
fn the_live_panel_says_what_happened() {
    assert!(address_status("x.onion:1", &None).contains("over Tor"));
    assert!(address_status("1.2.3.4:1", &None).contains("both ISPs"));
    assert_eq!(address_status("x", &Some("e".into())), "Failed: e");
    assert!(is_failure("Failed: e") && is_failure("some error") && !is_failure("Paired"));
    assert_eq!(waiting_status("bob"), "Waiting to meet bob — they must run their side now.");
    assert_eq!(finished_status(2048, 7, &None), "Done — 2.0 KiB verified, 7 cover frames.");
    assert_eq!(finished_status(2048, 7, &Some("e".into())), "Failed: e");
}

// ── What is said ─────────────────────────────────────────────────────────────

fn a_summary(hybrid: bool, endpoints: Vec<String>) -> IdentitySummary {
    IdentitySummary { id: "abc".into(), fingerprint: "11-22".into(), hybrid, endpoints }
}

#[test]
fn the_own_identity_is_described() {
    let tail = "\nRead the fingerprint aloud when you pair. It covers both of your keys,\nso if it \
                matches on your peer's screen, nobody has substituted either one.\n";
    assert_eq!(
        handle_id(&a_summary(true, vec!["1.2.3.4:5".into(), "[::1]:6".into(), "h.onion:7".into()])),
        format!(
            "--- 🛡  Your Live Identity ---\n🔑 Identity  : abc\n👁  Fingerprint: 11-22\n\
             🧬 Post-quantum: yes (Ed25519 + ML-DSA-65)\n\
             📍 Address   : 1.2.3.4:5, [::1]:6, h.onion:7\n{}",
            tail
        )
    );
    let unset = handle_id(&a_summary(false, Vec::new()));
    assert!(unset.contains("no — classical only\n📍 Address   : not set\n\n👉 Run"));
    assert!(unset.ends_with(tail));
}

#[test]
fn only_a_direct_address_comes_with_a_warning() {
    let direct = handle_address("203.0.113.7:4433");
    assert!(direct.starts_with("✅ Peers will be told to reach you at 203.0.113.7:4433\n\n⚠️"));
    assert!(direct.ends_with("set an .onion address instead and the transfer will run over Tor.\n"));
    assert_eq!(
        handle_address("abc.onion:4433"),
        "✅ Peers will be told to reach you at abc.onion:4433\n"
    );
}

#[test]
fn peers_are_listed_with_their_addresses() {
    assert_eq!(
        handle_peers(&Vec::new()),
        "No paired peers yet. Run 'atom live pair --nickname <name>'.\n"
    );
    let peers = vec![
        PeerEntry {
            nickname: "bob".into(),
            ticket: Ok(PeerTicket {
                fingerprint: "11-22".into(),
                hybrid: true,
                expired: true,
                hints: vec!["1.2.3.4:5".into(), "h.onion:7".into()],
            }),
        },
        PeerEntry { nickname: "eve".into(), ticket: Err("truncated".into()) },
    ];
    assert_eq!(
        handle_peers(&peers),
        "--- 👥 Paired Peers ---\n  bob              11-22  PQ  ⚠️ ticket expired\n      via \
         1.2.3.4:5\n      via h.onion:7\n  eve              ⚠️ unreadable ticket: truncated\n"
    );
}

#[test]
fn a_pairing_says_what_to_do() {
    assert_eq!(pairing_intro("bob", &None), "Using the pairing code your peer gave you.\n");
    let intro = pairing_intro("bob", &Some("7-cat".into()));
    assert!(intro.starts_with("\n🔑 Your pairing code:  7-cat\n\n   Read it ALOUD to bob — in"));
    assert_eq!(
        round_text(2, "bob", "BLOB"),
        "\n── Round 2 ─ send this to bob:\n\nBLOB\n\nPaste bob's round-2 message, then Enter:\n> "
    );
    let done = paired_text("bob", "11-22", false, "33-44");
    assert!(done.starts_with(
        "\n✅ Paired with bob\n   Fingerprint : 11-22\n   Post-quantum: no\n   Your own    : 33-44\n"
    ));
}
