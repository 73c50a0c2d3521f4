//! The panel for live transfers: the two rounds of pairing, and the transfer.

use crate::cli::is_blank;
use crate::human::{human_bytes, human_spec};
use crate::paths::{push_path, pushed};
use crate::text::{
    around, concat, contains_text, copy_text, decimal, decimal_spec, occurs_in, push_text,
    starts_with, trim, trim_spec,
};
use vstd::prelude::*;

verus! {

/// Which side of a transfer the user performs.
#[derive(Debug, Clone, Copy, PartialEq, Eq, Structural)]
pub enum LiveRole {
    Send,
    Receive,
}

/// How far the pairing has come.
#[derive(Debug, Clone, Copy, PartialEq, Eq, Structural)]
pub enum LiveStage {
    /// The short code is agreed on.
    Code,
    /// The blobs are exchanged.
    Exchange,
    /// The peer is saved.
    Paired,
}

/// What is held between the rounds.
#[derive(Debug, Clone, Copy, PartialEq, Eq, Structural)]
pub enum Held {
    Nothing,
    /// The state of the first round.
    Pairing,
    /// The channel that the first round led to.
    Channel,
}

/// The state of the panel.
pub struct LiveForm<T> {
    pub role: LiveRole,
    pub stage: LiveStage,
    /// The code that is used.
    pub code: T,
    /// The code that was generated here, to be read aloud.
    pub our_code: T,
    pub nickname: T,
    pub our_blob: T,
    pub peer_blob: T,
    pub held: Held,
    pub our_fingerprint: T,
    pub peer_fingerprint: T,
    pub selected_peer: T,
    pub vault_path: T,
    pub save_path: T,
    pub status: T,
}

impl View for LiveForm<String> {
    type V = LiveForm<Seq<char>>;

    open spec fn view(&self) -> Self::V {
        LiveForm {
            role: self.role,
            stage: self.stage,
            code: self.code@,
            our_code: self.our_code@,
            nickname: self.nickname@,
            our_blob: self.our_blob@,
            peer_blob: self.peer_blob@,
            held: self.held,
            our_fingerprint: self.our_fingerprint@,
            peer_fingerprint: self.peer_fingerprint@,
            selected_peer: self.selected_peer@,
            vault_path: self.vault_path@,
            save_path: self.save_path@,
            status: self.status@,
        }
    }
}

/// The panel without anything that was derived from a code. A code serves once: whatever it led
/// to is discarded with it.
pub open spec fn reset_form(f: LiveForm<Seq<char>>) -> LiveForm<Seq<char>> {
    LiveForm {
        stage: LiveStage::Code,
        our_blob: Seq::empty(),
        peer_blob: Seq::empty(),
        held: Held::Nothing,
        our_fingerprint: Seq::empty(),
        peer_fingerprint: Seq::empty(),
        status: Seq::empty(),
        ..f
    }
}

/// The panel with a status.
pub open spec fn with_status(f: LiveForm<Seq<char>>, status: Seq<char>) -> LiveForm<Seq<char>> {
    LiveForm { status, ..f }
}

/// What the button that continues does.
#[derive(Debug, Clone, Copy, PartialEq, Eq, Structural)]
pub enum ContinueStep {
    /// Takes the peer's first blob.
    Exchange,
    /// Opens the peer's sealed ticket.
    Complete,
    Nothing,
}

/// The result of a step, as plain values.
pub open spec fn step_view(r: Result<String, String>) -> Result<Seq<char>, Seq<char>> {
    match r {
        Ok(s) => Ok(s@),
        Err(e) => Err(e@),
    }
}

impl LiveForm<String> {
    /// The panel at the start; received vaults go to the application's directory.
    pub fn new(home: &str) -> (r: Self)
        ensures
            r@.role == LiveRole::Send,
            r@.stage == LiveStage::Code,
            r@.held == Held::Nothing,
            r@.save_path == pushed(home@, ".atom_vault/received/live.aegis"@),
            r@.code.len() == 0 && r@.our_code.len() == 0 && r@.nickname.len() == 0,
            r@.our_blob.len() == 0 && r@.peer_blob.len() == 0,
            r@.our_fingerprint.len() == 0 && r@.peer_fingerprint.len() == 0,
            r@.selected_peer.len() == 0 && r@.vault_path.len() == 0 && r@.status.len() == 0,
    {
        LiveForm {
            role: LiveRole::Send,
            stage: LiveStage::Code,
            code: String::new(),
            our_code: String::new(),
            nickname: String::new(),
            our_blob: String::new(),
            peer_blob: String::new(),
            held: Held::Nothing,
            our_fingerprint: String::new(),
            peer_fingerprint: String::new(),
            selected_peer: String::new(),
            vault_path: String::new(),
            save_path: push_path(home, ".atom_vault/received/live.aegis"),
            status: String::new(),
        }
    }

    /// Discards everything that was derived from the code.
    pub fn reset_pairing(&mut self)
        ensures
            final(self)@ == reset_form(old(self)@),
    {
        self.stage = LiveStage::Code;
        self.our_blob = String::new();
        self.peer_blob = String::new();
        self.held = Held::Nothing;
        self.our_fingerprint = String::new();
        self.peer_fingerprint = String::new();
        self.status = String::new();
        assert(self@ == reset_form(old(self)@));
    }

    /// Takes a code that was generated, or the reason why there is none.
    pub fn code_generated(&mut self, code: &Result<String, String>)
        ensures
            final(self)@ == match step_view(*code) {
                Ok(c) => (LiveForm {
                    our_code: c,
                    code: c,
                    status: "Read this code aloud to your peer, then start round 1."@,
                    ..old(self)@
                }),
                Err(e) => with_status(old(self)@, "Failed: "@ + e),
            },
    {
        match code {
            Ok(c) => {
                self.our_code = copy_text(c);
                self.code = copy_text(c);
                self.status = copy_text("Read this code aloud to your peer, then start round 1.");
            },
            Err(e) => {
                self.status = concat("Failed: ", e);
            },
        }
    }

    /// Whether the first round can start: there is a code and a nickname.
    pub fn can_start(&self) -> (r: bool)
        ensures
            r == (self@.stage == LiveStage::Code && trim_spec(self@.code).len() > 0 && trim_spec(
                self@.nickname,
            ).len() > 0),
    {
        self.stage == LiveStage::Code && !is_blank(&self.code) && !is_blank(&self.nickname)
    }

    /// Takes the blob of the first round, or the reason why there is none.
    pub fn round_one(&mut self, blob: &Result<String, String>)
        ensures
            final(self)@ == match step_view(*blob) {
                Ok(b) => (LiveForm {
                    held: Held::Pairing,
                    our_blob: b,
                    stage: LiveStage::Exchange,
                    status: "Send your round-1 blob, paste theirs below."@,
                    ..old(self)@
                }),
                Err(e) => with_status(old(self)@, "Failed: "@ + e),
            },
    {
        match blob {
            Ok(b) => {
                self.held = Held::Pairing;
                self.our_blob = copy_text(b);
                self.stage = LiveStage::Exchange;
                self.status = copy_text("Send your round-1 blob, paste theirs below.");
            },
            Err(e) => {
                self.status = concat("Failed: ", e);
            },
        }
    }

    /// Whether a pasted blob can be taken.
    pub fn can_continue(&self, busy: bool) -> (r: bool)
        ensures
            r == (self@.stage == LiveStage::Exchange && trim_spec(self@.peer_blob).len() > 0
                && !busy),
    {
        self.stage == LiveStage::Exchange && !is_blank(&self.peer_blob) && !busy
    }

    /// What a pasted blob is: the peer's first while the first round is held, and then the peer's
    /// sealed ticket.
    pub fn continue_step(&self) -> (r: ContinueStep)
        ensures
            r == match self@.held {
                Held::Pairing => ContinueStep::Exchange,
                Held::Channel => ContinueStep::Complete,
                Held::Nothing => ContinueStep::Nothing,
            },
    {
        match self.held {
            Held::Pairing => ContinueStep::Exchange,
            Held::Channel => ContinueStep::Complete,
            Held::Nothing => ContinueStep::Nothing,
        }
    }

    /// Takes the sealed ticket that the exchange led to. The state of the first round is used up
    /// either way.
    pub fn exchanged(&mut self, sealed: &Result<String, String>)
        ensures
            final(self)@ == match step_view(*sealed) {
                Ok(s) => (LiveForm {
                    held: Held::Channel,
                    our_blob: s,
                    peer_blob: Seq::empty(),
                    status: "Now exchange round 2: send yours, paste theirs."@,
                    ..old(self)@
                }),
                Err(e) => (LiveForm {
                    held: Held::Nothing,
                    status: "Failed: "@ + e,
                    ..old(self)@
                }),
            },
    {
        match sealed {
            Ok(s) => {
                self.held = Held::Channel;
                self.our_blob = copy_text(s);
                self.peer_blob = String::new();
                self.status = copy_text("Now exchange round 2: send yours, paste theirs.");
                assert(self@.peer_blob =~= Seq::empty());
            },
            Err(e) => {
                self.held = Held::Nothing;
                self.status = concat("Failed: ", e);
            },
        }
    }

    /// Takes the fingerprint of the peer that was saved, and the own one.
    pub fn completed(&mut self, peer: &Result<String, String>, ours: &str)
        ensures
            final(self)@ == match step_view(*peer) {
                Ok(p) => (LiveForm {
                    peer_fingerprint: p,
                    our_fingerprint: ours@,
                    stage: LiveStage::Paired,
                    selected_peer: trim_spec(old(self)@.nickname),
                    status: "Paired with "@ + trim_spec(old(self)@.nickname) + "."@,
                    ..old(self)@
                }),
                Err(e) => with_status(old(self)@, "Failed: "@ + e),
            },
    {
        match peer {
            Ok(p) => {
                let nickname: String = trim(&self.nickname);
                self.peer_fingerprint = copy_text(p);
                self.our_fingerprint = copy_text(ours);
                self.stage = LiveStage::Paired;
                self.status = around("Paired with ", &nickname, ".");
                self.selected_peer = nickname;
            },
            Err(e) => {
                self.status = concat("Failed: ", e);
            },
        }
    }

    /// Makes the panel ready for another pairing. The peer that is selected stays.
    pub fn pair_another(&mut self)
        ensures
            final(self)@ == (LiveForm {
                code: Seq::empty(),
                our_code: Seq::empty(),
                nickname: Seq::empty(),
                ..reset_form(old(self)@)
            }),
    {
        self.reset_pairing();
        self.code = String::new();
        self.our_code = String::new();
        self.nickname = String::new();
        assert(self@.code =~= Seq::empty());
        assert(self@.our_code =~= Seq::empty());
        assert(self@.nickname =~= Seq::empty());
    }

    /// The heading over the own blob.
    pub fn blob_heading(&self) -> (r: &'static str)
        ensures
            r@ == if self@.stage == LiveStage::Exchange {
                "Round 1 — send this to your peer"@
            } else {
                "Round 2 — send this to your peer"@
            },
    {
        if self.stage == LiveStage::Exchange {
            "Round 1 — send this to your peer"
        } else {
            "Round 2 — send this to your peer"
        }
    }

    /// Whether a transfer can start: none is running and a peer is selected.
    pub fn can_transfer(&self, busy: bool) -> (r: bool)
        ensures
            r == (!busy && self@.selected_peer.len() > 0),
    {
        !busy && !self.selected_peer.as_str().is_empty()
    }

    /// The path of the transfer: what is sent, or where it goes.
    pub fn transfer_path(&self) -> (r: &str)
        ensures
            r@ == match self@.role {
                LiveRole::Send => self@.vault_path,
                LiveRole::Receive => self@.save_path,
            },
    {
        match self.role {
            LiveRole::Send => self.vault_path.as_str(),
            LiveRole::Receive => self.save_path.as_str(),
        }
    }
}

/// What is said after an address was saved, or why it was not.
pub fn address_status(address: &str, failure: &Option<String>) -> (r: String)
    ensures
        r@ == match *failure {
            Some(e) => "Failed: "@ + e@,
            None => if occurs_in(address@, ".onion"@) {
                "Address saved. Transfers to you will run over Tor."@
            } else {
                "Address saved. Note: both ISPs will see that you and your peer exchanged packets."@
            },
        },
{
    match failure {
        Some(e) => concat("Failed: ", e),
        None => {
            if contains_text(address, ".onion") {
                copy_text("Address saved. Transfers to you will run over Tor.")
            } else {
                copy_text(
                    "Address saved. Note: both ISPs will see that you and your peer exchanged packets.",
                )
            }
        },
    }
}

/// Whether the status of the panel reports a failure.
pub fn is_failure(status: &str) -> (r: bool)
    ensures
        r == ("Failed"@.is_prefix_of(status@) || occurs_in(status@, "error"@)),
{
    starts_with(status, "Failed") || contains_text(status, "error")
}

/// What is said while the peer is awaited.
pub fn waiting_status(peer: &str) -> (r: String)
    ensures
        r@ == "Waiting to meet "@ + peer@ + " — they must run their side now."@,
{
    around("Waiting to meet ", peer, " — they must run their side now.")
}

/// What is said of a transfer that is done: the bytes and the cover frames, or the reason of a
/// failure.
pub fn finished_status(total: u64, cover_frames: u64, failure: &Option<String>) -> (r: String)
    ensures
        r@ == match *failure {
            Some(e) => "Failed: "@ + e@,
            None => "Done — "@ + human_spec(total as nat) + " verified, "@ + decimal_spec(
                cover_frames as nat,
            ) + " cover frames."@,
        },
{
    match failure {
        Some(e) => concat("Failed: ", e),
        None => {
            let mut out: String = around("Done — ", &human_bytes(total), " verified, ");
            push_text(&mut out, &decimal(cover_frames));
            push_text(&mut out, " cover frames.");
            out
        },
    }
}

/// Editing a code leaves nothing of a pairing that the old code began.
pub proof fn law_reset_leaves_no_secret(f: LiveForm<Seq<char>>)
    ensures
        reset_form(f).held == Held::Nothing,
        reset_form(f).our_blob.len() == 0,
        reset_form(f).peer_blob.len() == 0,
        reset_form(f).peer_fingerprint.len() == 0,
        reset_form(f).our_fingerprint.len() == 0,
        reset_form(reset_form(f)) == reset_form(f),
{
}

// ── Laws ─────────────────────────────────────────────────────────────────────

/// Setting a status changes nothing else of the panel.
pub proof fn law_status_changes_alone(f: LiveForm<Seq<char>>, status: Seq<char>)
    ensures
        with_status(f, status).status == status,
        with_status(f, status).stage == f.stage,
        with_status(f, status).role == f.role,
        with_status(f, status).code == f.code,
        with_status(f, status).our_code == f.our_code,
        with_status(f, status).nickname == f.nickname,
        with_status(f, status).our_blob == f.our_blob,
        with_status(f, status).peer_blob == f.peer_blob,
        with_status(f, status).held == f.held,
        with_status(f, status).our_fingerprint == f.our_fingerprint,
        with_status(f, status).peer_fingerprint == f.peer_fingerprint,
        with_status(f, status).selected_peer == f.selected_peer,
        with_status(f, status).vault_path == f.vault_path,
        with_status(f, status).save_path == f.save_path,
{
}

/// Starting over keeps what the user chose, and only that: role, codes, nickname, peer and paths.
pub proof fn law_starting_over_keeps_the_choices(f: LiveForm<Seq<char>>)
    ensures
        reset_form(f).role == f.role,
        reset_form(f).code == f.code,
        reset_form(f).our_code == f.our_code,
        reset_form(f).nickname == f.nickname,
        reset_form(f).selected_peer == f.selected_peer,
        reset_form(f).vault_path == f.vault_path,
        reset_form(f).save_path == f.save_path,
        reset_form(f).stage is Code,
        reset_form(f).held is Nothing,
        reset_form(f).status.len() == 0,
        reset_form(reset_form(f)) == reset_form(f),
{
}

/// The panel is seen with all its texts, each in its own place.
pub proof fn law_panel_as_plain_values(f: LiveForm<String>)
    ensures
        f@.code == f.code@ && f@.our_code == f.our_code@ && f@.nickname == f.nickname@,
        f@.our_blob == f.our_blob@ && f@.peer_blob == f.peer_blob@,
        f@.our_fingerprint == f.our_fingerprint@ && f@.peer_fingerprint == f.peer_fingerprint@,
        f@.selected_peer == f.selected_peer@ && f@.vault_path == f.vault_path@ && f@.save_path
            == f.save_path@,
        f@.status == f.status@ && f@.stage == f.stage && f@.role == f.role && f@.held == f.held,
{
}

} // verus!
