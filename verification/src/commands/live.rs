//! Live transfers: addresses, the paired peers, and the lines of progress.

use crate::human::{human_bytes, human_spec, percent, percent_spec};
use crate::text::{
    all_white, around, chars_of, concat, contains_text, copy_text, decimal, decimal_spec, ends_with,
    find_last_char, is_white_space, join_texts, joined, last_index_of, law_decimal_is_read_back,
    law_first_and_last_place, law_numbers_are_read, law_trim_takes_white_space_from_the_ends,
    left_padded_text, occurs_in, pad_left, pad_right, padded_text, parse_port, port_number,
    push_text, same_text, string_of, trim, trim_spec, views,
};
use vstd::prelude::*;
use vstd::slice::slice_subrange;

verus! {

// ── Addresses ────────────────────────────────────────────────────────────────

/// Where a peer is reached.
#[derive(Debug)]
pub enum Endpoint<T> {
    /// A socket address, in its own notation.
    Direct(T),
    /// A port of an onion service.
    Onion { host: T, port: u16 },
}

impl View for Endpoint<String> {
    type V = Endpoint<Seq<char>>;

    open spec fn view(&self) -> Self::V {
        match self {
            Endpoint::Direct(a) => Endpoint::Direct(a@),
            Endpoint::Onion { host, port } => Endpoint::Onion { host: host@, port: *port },
        }
    }
}

/// An address as it is written.
pub open spec fn endpoint_text(e: Endpoint<Seq<char>>) -> Seq<char> {
    match e {
        Endpoint::Direct(a) => a,
        Endpoint::Onion { host, port } => host + ":"@ + decimal_spec(port as nat),
    }
}

/// The words of a check that may refuse.
pub open spec fn refusal(check: Result<(), String>) -> Option<Seq<char>> {
    match check {
        Ok(_) => None,
        Err(w) => Some(w@),
    }
}

/// What an address says. `socket` is the socket address that the text is, where it is one, and
/// `refused` is why its host and port are no onion address, where they are none.
pub open spec fn endpoint_spec(
    text: Seq<char>,
    socket: Option<Seq<char>>,
    refused: Option<Seq<char>>,
) -> Result<Endpoint<Seq<char>>, Seq<char>> {
    let t = trim_spec(text);
    match socket {
        Some(a) => Ok(Endpoint::Direct(a)),
        None => {
            let colon = find_last_char(t, ':');
            if colon < 0 {
                Err("An address needs a port, e.g. 203.0.113.7:4433"@)
            } else {
                let host = t.subrange(0, colon);
                let port = t.subrange(colon + 1, t.len() as int);
                match port_number(port) {
                    None => Err("'"@ + port + "' is not a port number"@),
                    Some(p) => if ".onion"@.is_suffix_of(host) {
                        match refused {
                            None => Ok(Endpoint::Onion { host, port: p }),
                            Some(w) => Err(w),
                        }
                    } else {
                        Err(
                            "'"@ + t
                                + "' is neither an ip:port nor an onion address. Enter the address your peer can reach you on."@,
                        )
                    },
                }
            }
        },
    }
}

/// The host and the port of a text that names an onion service, to be checked before the address is
/// read. A text that is a socket address names none.
pub fn onion_parts(text: &str, socket: &Option<String>) -> (r: Option<(String, u16)>)
    ensures
        match r {
            Some(p) => endpoint_spec(text@, crate::paths::optional_text(*socket), None) == Ok::<
                Endpoint<Seq<char>>,
                Seq<char>,
            >(Endpoint::Onion { host: p.0@, port: p.1 }),
            None => !(endpoint_spec(text@, crate::paths::optional_text(*socket), None) matches Ok(
                Endpoint::Onion { .. },
            )),
        },
{
    match parse_endpoint(text, socket, &Ok(())) {
        Ok(Endpoint::Onion { host, port }) => Some((host, port)),
        _ => None,
    }
}

/// Reads an address that a person wrote. `socket` is the socket address that the text is, where it
/// is one, and `onion` says whether its host and port, as `onion_parts` gives them, are an onion
/// address.
pub fn parse_endpoint(text: &str, socket: &Option<String>, onion: &Result<(), String>) -> (r: Result<
    Endpoint<String>,
    String,
>)
    ensures
        match endpoint_spec(text@, crate::paths::optional_text(*socket), refusal(*onion)) {
            Ok(e) => r matches Ok(x) && x@ == e,
            Err(f) => r matches Err(e) && e@ == f,
        },
{
    if let Some(a) = socket {
        return Ok(Endpoint::Direct(copy_text(a)));
    }
    let t: String = trim(text);
    let chars: Vec<char> = chars_of(&t);
    let colon: usize = match last_index_of(&chars, ':') {
        Some(i) => i,
        None => return Err(copy_text("An address needs a port, e.g. 203.0.113.7:4433")),
    };
    let host: String = string_of(slice_subrange(&chars, 0, colon));
    let port: String = string_of(slice_subrange(&chars, colon + 1, chars.len()));
    match parse_port(&port) {
        None => Err(around("'", &port, "' is not a port number")),
        Some(p) => {
            if ends_with(&host, ".onion") {
                match onion {
                    Ok(()) => Ok(Endpoint::Onion { host, port: p }),
                    Err(w) => Err(copy_text(w)),
                }
            } else {
                Err(
                    around(
                        "'",
                        &t,
                        "' is neither an ip:port nor an onion address. Enter the address your peer can reach you on.",
                    ),
                )
            }
        },
    }
}

impl Endpoint<String> {
    /// The address as it is written.
    pub fn text(&self) -> (r: String)
        ensures
            r@ == endpoint_text(self@),
    {
        match self {
            Endpoint::Direct(a) => copy_text(a),
            Endpoint::Onion { host, port } => {
                let mut out: String = concat(host, ":");
                push_text(&mut out, &decimal(*port as u64));
                out
            },
        }
    }
}

// ── What is remembered ───────────────────────────────────────────────────────

/// A peer that has been paired.
#[derive(Debug, Clone)]
pub struct LivePeer {
    pub nickname: String,
    /// The ticket of the peer as text.
    pub ticket: String,
}

/// What is remembered besides the private identity.
#[derive(Debug, Clone)]
pub struct LiveState {
    /// The addresses that peers are told.
    pub my_endpoints: Vec<String>,
    pub peers: Vec<LivePeer>,
}

/// The peers as plain values: nickname and ticket.
pub open spec fn peer_rows(p: Seq<LivePeer>) -> Seq<(Seq<char>, Seq<char>)> {
    p.map_values(|x: LivePeer| (x.nickname@, x.ticket@))
}

impl View for LiveState {
    type V = (Seq<Seq<char>>, Seq<(Seq<char>, Seq<char>)>);

    open spec fn view(&self) -> Self::V {
        (views(self.my_endpoints@), peer_rows(self.peers@))
    }
}

impl Default for LiveState {
    fn default() -> (r: Self)
        ensures
            r@.0.len() == 0,
            r@.1.len() == 0,
    {
        LiveState { my_endpoints: Vec::new(), peers: Vec::new() }
    }
}

/// The first peer of a nickname.
pub open spec fn peer_at(p: Seq<LivePeer>, nickname: Seq<char>, i: int) -> bool {
    &&& 0 <= i < p.len()
    &&& p[i].nickname@ == nickname
    &&& forall|j: int| 0 <= j < i ==> (#[trigger] p[j]).nickname@ != nickname
}

/// There is a peer of the nickname.
pub open spec fn has_peer(p: Seq<LivePeer>, nickname: Seq<char>) -> bool {
    exists|i: int| 0 <= i < p.len() && (#[trigger] p[i]).nickname@ == nickname
}

fn find_peer(peers: &Vec<LivePeer>, nickname: &str) -> (r: Option<usize>)
    ensures
        match r {
            Some(i) => peer_at(peers@, nickname@, i as int),
            None => !has_peer(peers@, nickname@),
        },
{
    let mut i: usize = 0;
    while i < peers.len()
        invariant
            i <= peers@.len(),
            forall|j: int| 0 <= j < i ==> (#[trigger] peers@[j]).nickname@ != nickname@,
        decreases peers@.len() - i,
    {
        if same_text(&peers[i].nickname, nickname) {
            return Some(i);
        }
        i = i + 1;
    }
    None
}

impl LiveState {
    /// The peer of a nickname.
    pub fn peer(&self, nickname: &str) -> (r: Option<&LivePeer>)
        ensures
            match r {
                Some(p) => exists|i: int| #[trigger]
                    peer_at(self.peers@, nickname@, i) && *p == self.peers@[i],
                None => !has_peer(self.peers@, nickname@),
            },
    {
        match find_peer(&self.peers, nickname) {
            Some(i) => {
                assert(peer_at(self.peers@, nickname@, i as int));
                Some(&self.peers[i])
            },
            None => None,
        }
    }

    /// The ticket of a peer, or that there is no such peer.
    pub fn peer_ticket(&self, nickname: &str) -> (r: Result<String, String>)
        ensures
            match r {
                Ok(t) => exists|i: int| #[trigger]
                    peer_at(self.peers@, nickname@, i) && t@ == self.peers@[i].ticket@,
                Err(e) => !has_peer(self.peers@, nickname@) && e@ == "No peer named '"@ + nickname@
                    + "'. Run 'atom live pair' first."@,
            },
    {
        match self.peer(nickname) {
            Some(p) => Ok(copy_text(&p.ticket)),
            None => Err(around("No peer named '", nickname, "'. Run 'atom live pair' first.")),
        }
    }

    /// Whether there is an address to put into a ticket; otherwise, what is said.
    pub fn check_addresses(&self) -> (r: Option<&'static str>)
        ensures
            r is None <==> self@.0.len() > 0,
            r matches Some(e) ==> e@
                == "No address set. Run 'atom live address <ip:port>' first so peers know where to reach you."@,
    {
        if self.my_endpoints.len() == 0 {
            Some(
                "No address set. Run 'atom live address <ip:port>' first so peers know where to reach you.",
            )
        } else {
            None
        }
    }
}

/// The written forms of the first `n` addresses, or what is wrong with the first that is wrong.
pub open spec fn endpoint_texts(
    addresses: Seq<String>,
    sockets: Seq<Option<String>>,
    onions: Seq<Result<(), String>>,
    n: nat,
) -> Result<Seq<Seq<char>>, Seq<char>>
    decreases n,
{
    if n == 0 {
        Ok(Seq::empty())
    } else {
        match endpoint_texts(addresses, sockets, onions, (n - 1) as nat) {
            Err(e) => Err(e),
            Ok(before) => match endpoint_spec(
                addresses[n - 1]@,
                crate::paths::optional_text(sockets[n - 1]),
                refusal(onions[n - 1]),
            ) {
                Err(e) => Err(e),
                Ok(e) => Ok(before.push(endpoint_text(e))),
            },
        }
    }
}

proof fn lemma_endpoint_texts_err(
    addresses: Seq<String>,
    sockets: Seq<Option<String>>,
    onions: Seq<Result<(), String>>,
    k: nat,
    n: nat,
)
    requires
        k <= n,
        endpoint_texts(addresses, sockets, onions, k) is Err,
    ensures
        endpoint_texts(addresses, sockets, onions, n) == endpoint_texts(addresses, sockets, onions, k),
    decreases n,
{
    if k < n {
        lemma_endpoint_texts_err(addresses, sockets, onions, k, (n - 1) as nat);
    }
}

/// Replaces the addresses that peers are told. All are checked before any is stored.
pub fn set_endpoints(
    state: &mut LiveState,
    addresses: &Vec<String>,
    sockets: &Vec<Option<String>>,
    onions: &Vec<Result<(), String>>,
) -> (r: Result<(), String>)
    requires
        addresses@.len() == sockets@.len(),
        addresses@.len() == onions@.len(),
    ensures
        final(state)@.1 == old(state)@.1,
        match endpoint_texts(addresses@, sockets@, onions@, addresses@.len()) {
            Ok(t) => r is Ok && final(state)@.0 == t,
            Err(f) => (r matches Err(e) && e@ == f) && final(state)@.0 == old(state)@.0,
        },
{
    let mut parsed: Vec<String> = Vec::new();
    let mut i: usize = 0;
    let ghost before = state@;
    assert(views(parsed@) =~= Seq::empty());
    while i < addresses.len()
        invariant
            i <= addresses@.len(),
            addresses@.len() == sockets@.len(),
            addresses@.len() == onions@.len(),
            state@ == before,
            before == old(state)@,
            endpoint_texts(addresses@, sockets@, onions@, i as nat) == Ok::<Seq<Seq<char>>, Seq<char>>(
                views(parsed@),
            ),
        decreases addresses@.len() - i,
    {
        let ghost done = views(parsed@);
        match parse_endpoint(&addresses[i], &sockets[i], &onions[i]) {
            Ok(e) => {
                let text: String = e.text();
                parsed.push(text);
                assert(views(parsed@) =~= done.push(text@));
            },
            Err(e) => {
                proof {
                    lemma_endpoint_texts_err(
                        addresses@,
                        sockets@,
                        onions@,
                        (i + 1) as nat,
                        addresses@.len(),
                    );
                }
                return Err(e);
            },
        }
        i = i + 1;
    }
    state.my_endpoints = parsed;
    Ok(())
}

/// The port to listen on: that of the first direct address. `ports` holds for each address its
/// port where it is direct.
pub fn bind_port(ports: &Vec<Option<u16>>) -> (r: Result<u16, &'static str>)
    ensures
        match r {
            Ok(p) => exists|i: int|
                0 <= i < ports@.len() && #[trigger] ports@[i] == Some(p) && forall|j: int|
                    0 <= j < i ==> #[trigger] ports@[j] is None,
            Err(e) => (forall|i: int| 0 <= i < ports@.len() ==> #[trigger] ports@[i] is None) && e@
                == "No direct address set. Run 'atom live address <ip:port>' first."@,
        },
{
    let mut i: usize = 0;
    while i < ports.len()
        invariant
            i <= ports@.len(),
            forall|j: int| 0 <= j < i ==> #[trigger] ports@[j] is None,
        decreases ports@.len() - i,
    {
        if let Some(p) = ports[i] {
            assert(ports@[i as int] == Some(p));
            return Ok(p);
        }
        i = i + 1;
    }
    Err("No direct address set. Run 'atom live address <ip:port>' first.")
}

// ── Identity ─────────────────────────────────────────────────────────────────

/// What a user sees of the own identity.
#[derive(Debug)]
pub struct IdentitySummary {
    pub id: String,
    pub fingerprint: String,
    /// The identity has a post-quantum key.
    pub hybrid: bool,
    pub endpoints: Vec<String>,
}

fn copy_texts(v: &Vec<String>) -> (r: Vec<String>)
    ensures
        views(r@) == views(v@),
{
    let mut out: Vec<String> = Vec::new();
    let mut i: usize = 0;
    while i < v.len()
        invariant
            i <= v@.len(),
            out@.len() == i,
            forall|j: int| 0 <= j < i ==> (#[trigger] out@[j])@ == v@[j]@,
        decreases v@.len() - i,
    {
        out.push(copy_text(&v[i]));
        i = i + 1;
    }
    assert(views(out@) =~= views(v@));
    out
}

/// What a user sees of the own identity.
pub fn identity_summary(id: &str, fingerprint: &str, hybrid: bool, state: &LiveState) -> (r:
    IdentitySummary)
    ensures
        r.id@ == id@,
        r.fingerprint@ == fingerprint@,
        r.hybrid == hybrid,
        views(r.endpoints@) == state@.0,
{
    IdentitySummary {
        id: copy_text(id),
        fingerprint: copy_text(fingerprint),
        hybrid,
        endpoints: copy_texts(&state.my_endpoints),
    }
}

/// What is said of the own identity.
pub open spec fn identity_text(s: IdentitySummary) -> Seq<char> {
    "--- 🛡  Your Live Identity ---\n🔑 Identity  : "@ + s.id@ + "\n👁  Fingerprint: "@
        + s.fingerprint@ + "\n🧬 Post-quantum: "@ + (if s.hybrid {
        "yes (Ed25519 + ML-DSA-65)"@
    } else {
        "no — classical only"@
    }) + (if s.endpoints@.len() == 0 {
        "\n📍 Address   : not set\n\n👉 Run 'atom live address <ip:port>' so peers know where to reach you.\n"@
    } else {
        "\n📍 Address   : "@ + joined(views(s.endpoints@), ", "@) + "\n"@
    })
        + "\nRead the fingerprint aloud when you pair. It covers both of your keys,\nso if it matches on your peer's screen, nobody has substituted either one.\n"@
}

/// What is said of the own identity.
pub fn handle_id(s: &IdentitySummary) -> (r: String)
    ensures
        r@ == identity_text(*s),
{
    let mut out: String = copy_text("--- 🛡  Your Live Identity ---\n🔑 Identity  : ");
    push_text(&mut out, &s.id);
    push_text(&mut out, "\n👁  Fingerprint: ");
    push_text(&mut out, &s.fingerprint);
    push_text(&mut out, "\n🧬 Post-quantum: ");
    push_text(
        &mut out,
        if s.hybrid {
            "yes (Ed25519 + ML-DSA-65)"
        } else {
            "no — classical only"
        },
    );
    let address: String = if s.endpoints.len() == 0 {
        copy_text(
            "\n📍 Address   : not set\n\n👉 Run 'atom live address <ip:port>' so peers know where to reach you.\n",
        )
    } else {
        around("\n📍 Address   : ", &join_texts(&s.endpoints, ", "), "\n")
    };
    push_text(&mut out, &address);
    push_text(
        &mut out,
        "\nRead the fingerprint aloud when you pair. It covers both of your keys,\nso if it matches on your peer's screen, nobody has substituted either one.\n",
    );
    out
}

/// What is said when the own address is set: that a direct address is seen by others, unless it is
/// an onion address.
pub fn handle_address(address: &str) -> (r: String)
    ensures
        r@ == "✅ Peers will be told to reach you at "@ + address@ + "\n"@ + if occurs_in(
            address@,
            ".onion"@,
        ) {
            Seq::empty()
        } else {
            "\n⚠️  This is a direct address. Your ISP and your peer's ISP will both see\nthat the two of you exchanged packets. If that pairing must stay hidden,\nset an .onion address instead and the transfer will run over Tor.\n"@
        },
{
    let mut out: String = around("✅ Peers will be told to reach you at ", address, "\n");
    let ghost head = out@;
    if !contains_text(address, ".onion") {
        push_text(
            &mut out,
            "\n⚠️  This is a direct address. Your ISP and your peer's ISP will both see\nthat the two of you exchanged packets. If that pairing must stay hidden,\nset an .onion address instead and the transfer will run over Tor.\n",
        );
    } else {
        assert(head + Seq::<char>::empty() =~= head);
    }
    out
}

// ── Pairing ──────────────────────────────────────────────────────────────────

/// What a ticket says of its owner, and its text.
#[derive(Debug)]
pub struct TicketInfo {
    pub id: String,
    pub fingerprint: String,
    pub text: String,
}

/// Why a pairing is refused: the ticket is the user's own, or the nickname belongs to another
/// identity.
pub open spec fn pair_fault(
    peers: Seq<LivePeer>,
    nickname: Seq<char>,
    ticket: TicketInfo,
    my_id: Seq<char>,
    stored: Option<TicketInfo>,
) -> Option<Seq<char>> {
    if ticket.id@ == my_id {
        Some("That ticket is your own identity — you cannot pair with yourself."@)
    } else if has_peer(peers, nickname) && stored is Some && stored->Some_0.id@ != ticket.id@ {
        Some(
            "SECURITY ALERT: '"@ + nickname + "' is already paired with a DIFFERENT identity ("@
                + stored->Some_0.fingerprint@ + " vs "@ + ticket.fingerprint@
                + "). Remove the old peer explicitly if you really mean to replace it."@,
        )
    } else {
        None
    }
}

/// Saves a peer under a nickname. `stored` is the ticket that is saved under it, where there is
/// one; a nickname is never bound to a second identity.
pub fn pair_complete(
    state: &mut LiveState,
    nickname: &str,
    ticket: &TicketInfo,
    my_id: &str,
    stored: &Option<TicketInfo>,
) -> (r: Result<(), String>)
    requires
        has_peer(old(state).peers@, nickname@) ==> *stored is Some,
    ensures
        final(state)@.0 == old(state)@.0,
        match pair_fault(old(state).peers@, nickname@, *ticket, my_id@, *stored) {
            Some(f) => (r matches Err(e) && e@ == f) && final(state)@ == old(state)@,
            None => {
                &&& r is Ok
                &&& !has_peer(old(state).peers@, nickname@) ==> final(state)@.1 == old(
                    state,
                )@.1.push((nickname@, ticket.text@))
                &&& forall|i: int| #[trigger]
                    peer_at(old(state).peers@, nickname@, i) ==> final(state)@.1 == old(
                        state,
                    )@.1.update(i, (nickname@, ticket.text@))
            },
        },
{
    if same_text(&ticket.id, my_id) {
        return Err(
            copy_text("That ticket is your own identity — you cannot pair with yourself."),
        );
    }
    let ghost before = state.peers@;
    match find_peer(&state.peers, nickname) {
        Some(i) => {
            assert(has_peer(before, nickname@));
            if let Some(old_ticket) = stored {
                if !same_text(&old_ticket.id, &ticket.id) {
                    let mut words: String = around(
                        "SECURITY ALERT: '",
                        nickname,
                        "' is already paired with a DIFFERENT identity (",
                    );
                    push_text(&mut words, &old_ticket.fingerprint);
                    push_text(&mut words, " vs ");
                    push_text(&mut words, &ticket.fingerprint);
                    push_text(
                        &mut words,
                        "). Remove the old peer explicitly if you really mean to replace it.",
                    );
                    return Err(words);
                }
            }
            state.peers[i].ticket = copy_text(&ticket.text);
            proof {
                assert forall|k: int| #[trigger] peer_at(before, nickname@, k) implies peer_rows(
                    state.peers@,
                ) == peer_rows(before).update(k, (nickname@, ticket.text@)) by {
                    if k < i {
                        assert(before[k].nickname@ != nickname@);
                    } else if k > i {
                        assert(before[i as int].nickname@ != nickname@);
                    }
                    assert(peer_rows(state.peers@) =~= peer_rows(before).update(
                        k,
                        (nickname@, ticket.text@),
                    ));
                }
            }
        },
        None => {
            let peer: LivePeer = LivePeer {
                nickname: copy_text(nickname),
                ticket: copy_text(&ticket.text),
            };
            state.peers.push(peer);
            assert(peer_rows(state.peers@) =~= peer_rows(before).push(
                (nickname@, ticket.text@),
            ));
        },
    }
    Ok(())
}

/// A nickname never comes to stand for a second identity: a ticket is accepted under the nickname
/// of a paired peer only where it is of the same identity, and the own identity is never accepted.
pub proof fn law_pairing_keeps_identity(
    peers: Seq<LivePeer>,
    nickname: Seq<char>,
    ticket: TicketInfo,
    my_id: Seq<char>,
    stored: TicketInfo,
)
    requires
        pair_fault(peers, nickname, ticket, my_id, Some(stored)) is None,
    ensures
        has_peer(peers, nickname) ==> ticket.id@ == stored.id@,
        ticket.id@ != my_id,
{
}

/// The line of a paired peer.
pub open spec fn peer_line_spec(
    nickname: Seq<char>,
    fingerprint: Seq<char>,
    hybrid: bool,
    expired: bool,
) -> Seq<char> {
    "  "@ + padded_text(nickname, 16) + " "@ + fingerprint + "  "@ + (if hybrid {
        "PQ"@
    } else {
        "classical"@
    }) + (if expired {
        "  ⚠️ ticket expired"@
    } else {
        ""@
    })
}

/// The line of a paired peer.
pub fn peer_line(nickname: &str, fingerprint: &str, hybrid: bool, expired: bool) -> (r: String)
    ensures
        r@ == peer_line_spec(nickname@, fingerprint@, hybrid, expired),
{
    let mut out: String = concat("  ", &pad_right(nickname, 16));
    push_text(&mut out, " ");
    push_text(&mut out, fingerprint);
    push_text(&mut out, "  ");
    push_text(
        &mut out,
        if hybrid {
            "PQ"
        } else {
            "classical"
        },
    );
    push_text(
        &mut out,
        if expired {
            "  ⚠️ ticket expired"
        } else {
            ""
        },
    );
    out
}

/// What is known of a paired peer: what its ticket says, or why it cannot be read.
#[derive(Debug)]
pub struct PeerEntry {
    pub nickname: String,
    pub ticket: Result<PeerTicket, String>,
}

/// What a ticket says of a peer.
#[derive(Debug)]
pub struct PeerTicket {
    pub fingerprint: String,
    pub hybrid: bool,
    pub expired: bool,
    /// The addresses under which the peer is reached.
    pub hints: Vec<String>,
}

/// The lines of the addresses of a peer.
pub open spec fn hint_lines(h: Seq<Seq<char>>) -> Seq<char>
    decreases h.len(),
{
    if h.len() == 0 {
        Seq::empty()
    } else {
        hint_lines(h.subrange(0, h.len() - 1)) + ("      via "@ + h[h.len() - 1] + "\n"@)
    }
}

/// The lines of a peer.
pub open spec fn entry_lines(e: PeerEntry) -> Seq<char> {
    match e.ticket {
        Ok(t) => peer_line_spec(e.nickname@, t.fingerprint@, t.hybrid, t.expired) + "\n"@
            + hint_lines(views(t.hints@)),
        Err(w) => "  "@ + padded_text(e.nickname@, 16) + " ⚠️ unreadable ticket: "@ + w@ + "\n"@,
    }
}

/// The lines of all peers.
pub open spec fn all_entry_lines(p: Seq<PeerEntry>) -> Seq<char>
    decreases p.len(),
{
    if p.len() == 0 {
        Seq::empty()
    } else {
        all_entry_lines(p.subrange(0, p.len() - 1)) + entry_lines(p[p.len() - 1])
    }
}

fn push_hint_lines(out: &mut String, hints: &Vec<String>)
    ensures
        final(out)@ == old(out)@ + hint_lines(views(hints@)),
{
    let mut i: usize = 0;
    let ghost head = out@;
    let ghost w = views(hints@);
    assert(out@ =~= head + hint_lines(w.subrange(0, 0)));
    while i < hints.len()
        invariant
            i <= hints@.len(),
            w == views(hints@),
            out@ == head + hint_lines(w.subrange(0, i as int)),
        decreases hints@.len() - i,
    {
        let line: String = around("      via ", &hints[i], "\n");
        push_text(out, &line);
        proof {
            let upto = w.subrange(0, i + 1);
            assert(upto.subrange(0, upto.len() - 1) =~= w.subrange(0, i as int));
            assert(out@ =~= head + hint_lines(upto));
        }
        i = i + 1;
    }
    assert(w.subrange(0, w.len() as int) =~= w);
}

fn peer_entry(e: &PeerEntry) -> (r: String)
    ensures
        r@ == entry_lines(*e),
{
    match &e.ticket {
        Ok(t) => {
            let mut out: String = peer_line(&e.nickname, &t.fingerprint, t.hybrid, t.expired);
            push_text(&mut out, "\n");
            push_hint_lines(&mut out, &t.hints);
            out
        },
        Err(w) => {
            let mut out: String = concat("  ", &pad_right(&e.nickname, 16));
            push_text(&mut out, " ⚠️ unreadable ticket: ");
            push_text(&mut out, w);
            push_text(&mut out, "\n");
            out
        },
    }
}

/// The listing of the paired peers.
pub fn handle_peers(peers: &Vec<PeerEntry>) -> (r: String)
    ensures
        r@ == if peers@.len() == 0 {
            "No paired peers yet. Run 'atom live pair --nickname <name>'.\n"@
        } else {
            "--- 👥 Paired Peers ---\n"@ + all_entry_lines(peers@)
        },
{
    if peers.len() == 0 {
        return copy_text("No paired peers yet. Run 'atom live pair --nickname <name>'.\n");
    }
    let mut out: String = copy_text("--- 👥 Paired Peers ---\n");
    let ghost head = out@;
    let ghost p = peers@;
    let mut i: usize = 0;
    assert(out@ =~= head + all_entry_lines(p.subrange(0, 0)));
    while i < peers.len()
        invariant
            i <= p.len(),
            p == peers@,
            out@ == head + all_entry_lines(p.subrange(0, i as int)),
        decreases p.len() - i,
    {
        push_text(&mut out, &peer_entry(&peers[i]));
        proof {
            let upto = p.subrange(0, i + 1);
            assert(upto.subrange(0, upto.len() - 1) =~= p.subrange(0, i as int));
            assert(out@ =~= head + all_entry_lines(upto));
        }
        i = i + 1;
    }
    assert(p.subrange(0, p.len() as int) =~= p);
    out
}

/// What is said at the beginning of a pairing: the code that was generated, or that the code of
/// the peer is used.
pub fn pairing_intro(nickname: &str, generated: &Option<String>) -> (r: String)
    ensures
        r@ == match generated {
            Some(code) => "\n🔑 Your pairing code:  "@ + code@ + "\n\n   Read it ALOUD to "@
                + nickname@
                + " — in person or on a call.\n   Do NOT send it through the same channel as the blobs below:\n   the whole design rests on those being two different channels.\n   Single use. If pairing fails, start again with a NEW code.\n"@,
            None => "Using the pairing code your peer gave you.\n"@,
        },
{
    match generated {
        Some(code) => {
            let mut out: String = around(
                "\n🔑 Your pairing code:  ",
                code,
                "\n\n   Read it ALOUD to ",
            );
            push_text(&mut out, nickname);
            push_text(
                &mut out,
                " — in person or on a call.\n   Do NOT send it through the same channel as the blobs below:\n   the whole design rests on those being two different channels.\n   Single use. If pairing fails, start again with a NEW code.\n",
            );
            out
        },
        None => copy_text("Using the pairing code your peer gave you.\n"),
    }
}

/// What is said in a round of a pairing: the message to send, and that the answer is to be pasted.
pub fn round_text(round: u64, nickname: &str, blob: &str) -> (r: String)
    ensures
        r@ == "\n── Round "@ + decimal_spec(round as nat) + " ─ send this to "@ + nickname@
            + ":\n\n"@ + blob@ + "\n\nPaste "@ + nickname@ + "'s round-"@ + decimal_spec(
            round as nat,
        ) + " message, then Enter:\n> "@,
{
    let mut out: String = around("\n── Round ", &decimal(round), " ─ send this to ");
    push_text(&mut out, nickname);
    push_text(&mut out, ":\n\n");
    push_text(&mut out, blob);
    push_text(&mut out, "\n\nPaste ");
    push_text(&mut out, nickname);
    push_text(&mut out, "'s round-");
    push_text(&mut out, &decimal(round));
    push_text(&mut out, " message, then Enter:\n> ");
    out
}

/// What is said when a pairing is complete.
pub fn paired_text(nickname: &str, fingerprint: &str, hybrid: bool, ours: &str) -> (r: String)
    ensures
        r@ == "\n✅ Paired with "@ + nickname@ + "\n   Fingerprint : "@ + fingerprint@
            + "\n   Post-quantum: "@ + (if hybrid {
            "yes"@
        } else {
            "no"@
        }) + "\n   Your own    : "@ + ours@
            + "\n\n👁  Now read both fingerprints aloud and check they match what "@ + nickname@
            + " sees.\nIf they differ, someone sat in the middle of your exchange — delete this\npeer and start over on a channel you trust more.\n"@,
{
    let mut out: String = around("\n✅ Paired with ", nickname, "\n   Fingerprint : ");
    push_text(&mut out, fingerprint);
    push_text(&mut out, "\n   Post-quantum: ");
    push_text(
        &mut out,
        if hybrid {
            "yes"
        } else {
            "no"
        },
    );
    push_text(&mut out, "\n   Your own    : ");
    push_text(&mut out, ours);
    push_text(
        &mut out,
        "\n\n👁  Now read both fingerprints aloud and check they match what ",
    );
    push_text(&mut out, nickname);
    push_text(
        &mut out,
        " sees.\nIf they differ, someone sat in the middle of your exchange — delete this\npeer and start over on a channel you trust more.\n",
    );
    out
}

// ── Progress ─────────────────────────────────────────────────────────────────

/// What has been said of the progress of a transfer.
pub struct ProgressMeter {
    /// The last percentage that was printed.
    pub last_pct: Option<u64>,
    /// That the transfer resumes has been said.
    pub resumed_noted: bool,
}

/// The line of progress.
pub open spec fn progress_line(label: Seq<char>, transferred: u64, total: u64) -> Seq<char> {
    "\r"@ + label + " "@ + left_padded_text(
        decimal_spec(percent_spec(transferred, total) as nat),
        3,
    ) + "%  "@ + human_spec(transferred as nat) + " / "@ + human_spec(total as nat)
}

/// What is printed on a report of progress: once, from where a transfer resumes, and a line
/// whenever the percentage changes.
pub open spec fn progress_text(
    m: ProgressMeter,
    label: Seq<char>,
    transferred: u64,
    total: u64,
    resumed_from: u64,
) -> Seq<char> {
    (if resumed_from > 0 && !m.resumed_noted {
        "↻  Resuming from "@ + human_spec(resumed_from as nat) + "\n"@
    } else {
        Seq::empty()
    }) + (if m.last_pct != Some(percent_spec(transferred, total)) {
        progress_line(label, transferred, total)
    } else {
        Seq::empty()
    })
}

impl ProgressMeter {
    /// Nothing has been said.
    pub fn new() -> (r: Self)
        ensures
            r.last_pct is None,
            !r.resumed_noted,
    {
        ProgressMeter { last_pct: None, resumed_noted: false }
    }

    /// Takes a report of progress and returns what is printed.
    pub fn report(&mut self, label: &str, transferred: u64, total: u64, resumed_from: u64) -> (r:
        String)
        ensures
            r@ == progress_text(*old(self), label@, transferred, total, resumed_from),
            final(self).last_pct == Some(percent_spec(transferred, total)),
            final(self).resumed_noted == (old(self).resumed_noted || resumed_from > 0),
    {
        let mut out: String = String::new();
        if resumed_from > 0 && !self.resumed_noted {
            self.resumed_noted = true;
            push_text(&mut out, &around("↻  Resuming from ", &human_bytes(resumed_from), "\n"));
        }
        let ghost head = out@;
        assert(head =~= (if resumed_from > 0 && !old(self).resumed_noted {
            "↻  Resuming from "@ + human_spec(resumed_from as nat) + "\n"@
        } else {
            Seq::empty()
        }));
        let pct: u64 = percent(transferred, total);
        let shown: bool = match self.last_pct {
            Some(p) => p == pct,
            None => false,
        };
        if !shown {
            self.last_pct = Some(pct);
            let mut line: String = around("\r", label, " ");
            push_text(&mut line, &pad_left(&decimal(pct), 3));
            push_text(&mut line, "%  ");
            push_text(&mut line, &human_bytes(transferred));
            push_text(&mut line, " / ");
            push_text(&mut line, &human_bytes(total));
            assert(line@ =~= progress_line(label@, transferred, total));
            push_text(&mut out, &line);
        }
        assert(out@ =~= progress_text(*old(self), label@, transferred, total, resumed_from));
        out
    }
}

/// What is said when a transfer is done.
pub fn done_text(total: u64, cover_frames: u64) -> (r: String)
    ensures
        r@ == "\n✅ Done — "@ + human_spec(total as nat) + " verified\n"@ + (if cover_frames > 0 {
            "   "@ + decimal_spec(cover_frames as nat)
                + " cover frames sent so the size and end time reveal nothing.\n"@
        } else {
            Seq::empty()
        }),
{
    let mut out: String = around("\n✅ Done — ", &human_bytes(total), " verified\n");
    if cover_frames > 0 {
        push_text(
            &mut out,
            &around(
                "   ",
                &decimal(cover_frames),
                " cover frames sent so the size and end time reveal nothing.\n",
            ),
        );
    }
    assert(out@ =~= "\n✅ Done — "@ + human_spec(total as nat) + " verified\n"@ + (if cover_frames
        > 0 {
        "   "@ + decimal_spec(cover_frames as nat)
            + " cover frames sent so the size and end time reveal nothing.\n"@
    } else {
        Seq::empty()
    }));
    out
}

/// Whether a vault that is to be sent was found; otherwise, what is said.
pub fn handle_send(vault_found: bool, vault_path: &str) -> (r: Result<(), String>)
    ensures
        r is Ok <==> vault_found,
        r matches Err(e) ==> e@ == "No such vault: "@ + vault_path@,
{
    if vault_found {
        Ok(())
    } else {
        Err(concat("No such vault: ", vault_path))
    }
}

// ── Laws ─────────────────────────────────────────────────────────────────────

/// The decimal notation of a number holds no colon and no white space.
proof fn lemma_digits_only(n: nat)
    ensures
        !decimal_spec(n).contains(':'),
        decimal_spec(n).len() > 0,
        !is_white_space(decimal_spec(n)[decimal_spec(n).len() - 1]),
{
    law_decimal_is_read_back(n);
    let d = decimal_spec(n);
    assert('0' <= d[d.len() - 1] <= '9');
    if d.contains(':') {
        let i = choose|i: int| 0 <= i < d.len() && d[i] == ':';
        assert('0' <= d[i] <= '9');
    }
}

/// An onion address with a port, whatever white space is around it, is the host before the last
/// colon and the port behind it, where host and port are such an address; a socket address is taken
/// as it is.
pub proof fn law_addresses_are_read(
    before: Seq<char>,
    host: Seq<char>,
    port: u16,
    after: Seq<char>,
    socket: Seq<char>,
    refused: Option<Seq<char>>,
)
    requires
        all_white(before),
        all_white(after),
        host.len() > 0,
        !is_white_space(host[0]),
    ensures
        endpoint_spec(before + socket + after, Some(socket), refused) == Ok::<
            Endpoint<Seq<char>>,
            Seq<char>,
        >(Endpoint::Direct(socket)),
        ".onion"@.is_suffix_of(host) && refused is None ==> endpoint_spec(
            before + (host.push(':') + decimal_spec(port as nat)) + after,
            None,
            refused,
        ) == Ok::<Endpoint<Seq<char>>, Seq<char>>(Endpoint::Onion { host, port }),
        ".onion"@.is_suffix_of(host) && refused is Some ==> endpoint_spec(
            before + (host.push(':') + decimal_spec(port as nat)) + after,
            None,
            refused,
        ) == Err::<Endpoint<Seq<char>>, Seq<char>>(refused->Some_0),
        !".onion"@.is_suffix_of(host) ==> endpoint_spec(
            before + (host.push(':') + decimal_spec(port as nat)) + after,
            None,
            refused,
        ) == Err::<Endpoint<Seq<char>>, Seq<char>>(
            "'"@ + (host.push(':') + decimal_spec(port as nat))
                + "' is neither an ip:port nor an onion address. Enter the address your peer can reach you on."@,
        ),
{
    let d = decimal_spec(port as nat);
    let t = host.push(':') + d;
    lemma_digits_only(port as nat);
    law_numbers_are_read(port as nat);
    assert(t[0] == host[0]);
    assert(t[t.len() - 1] == d[d.len() - 1]);
    law_trim_takes_white_space_from_the_ends(before, t, after);
    law_first_and_last_place(host, ':', d);
    assert(t.subrange(0, host.len() as int) =~= host);
    assert(t.subrange((host.len() + 1) as int, t.len() as int) =~= d);
}

/// An address without a colon is told that it needs a port, and one whose port is no number is
/// shown that port.
pub proof fn law_addresses_need_a_port(
    host: Seq<char>,
    port: Seq<char>,
    refused: Option<Seq<char>>,
)
    requires
        host.len() > 0,
        !is_white_space(host[0]) && !is_white_space(host[host.len() - 1]),
        port.len() > 0 ==> !is_white_space(port[port.len() - 1]),
    ensures
        !host.contains(':') ==> endpoint_spec(host, None, refused) == Err::<
            Endpoint<Seq<char>>,
            Seq<char>,
        >("An address needs a port, e.g. 203.0.113.7:4433"@),
        !port.contains(':') && port_number(port) is None ==> endpoint_spec(
            host.push(':') + port,
            None,
            refused,
        ) == Err::<Endpoint<Seq<char>>, Seq<char>>("'"@ + port + "' is not a port number"@),
{
    let none = Seq::<char>::empty();
    assert(none + host + none =~= host);
    law_trim_takes_white_space_from_the_ends(none, host, none);
    law_first_and_last_place(host, ':', port);
    let t = host.push(':') + port;
    assert(t[0] == host[0]);
    assert(t[t.len() - 1] == if port.len() > 0 {
        port[port.len() - 1]
    } else {
        ':'
    });
    assert(none + t + none =~= t);
    law_trim_takes_white_space_from_the_ends(none, t, none);
    assert(t.subrange(0, host.len() as int) =~= host);
    assert(t.subrange((host.len() + 1) as int, t.len() as int) =~= port);
}

/// An onion address is written so that reading it gives it back.
pub proof fn law_written_addresses_are_read_back(host: Seq<char>, port: u16)
    requires
        host.len() > 0,
        !is_white_space(host[0]),
        ".onion"@.is_suffix_of(host),
    ensures
        endpoint_spec(endpoint_text(Endpoint::Onion { host, port }), None, None) == Ok::<
            Endpoint<Seq<char>>,
            Seq<char>,
        >(Endpoint::Onion { host, port }),
{
    reveal_strlit(":");
    let none = Seq::<char>::empty();
    let t = host.push(':') + decimal_spec(port as nat);
    assert(endpoint_text(Endpoint::Onion { host, port }) =~= none + t + none);
    law_addresses_are_read(none, host, port, none, none, None);
}

/// Addresses are read one by one, all of them and in their order; the first that is wrong decides.
pub proof fn law_every_address_is_read(
    addresses: Seq<String>,
    sockets: Seq<Option<String>>,
    onions: Seq<Result<(), String>>,
    n: nat,
)
    ensures
        endpoint_texts(addresses, sockets, onions, 0) == Ok::<Seq<Seq<char>>, Seq<char>>(
            Seq::empty(),
        ),
        endpoint_texts(addresses, sockets, onions, n) matches Ok(before) ==> {
            &&& before.len() == n
            &&& match endpoint_spec(
                addresses[n as int]@,
                crate::paths::optional_text(sockets[n as int]),
                refusal(onions[n as int]),
            ) {
                Ok(e) => endpoint_texts(addresses, sockets, onions, n + 1) == Ok::<
                    Seq<Seq<char>>,
                    Seq<char>,
                >(before.push(endpoint_text(e))),
                Err(w) => endpoint_texts(addresses, sockets, onions, n + 1) == Err::<
                    Seq<Seq<char>>,
                    Seq<char>,
                >(w),
            }
        },
        endpoint_texts(addresses, sockets, onions, n) is Err ==> endpoint_texts(
            addresses,
            sockets,
            onions,
            n + 1,
        ) == endpoint_texts(addresses, sockets, onions, n),
    decreases n,
{
    if n > 0 {
        law_every_address_is_read(addresses, sockets, onions, (n - 1) as nat);
    }
}

/// Every address of a peer has its line, and every peer has lines, in their order.
pub proof fn law_every_peer_is_listed(
    h: Seq<Seq<char>>,
    hint: Seq<char>,
    p: Seq<PeerEntry>,
    e: PeerEntry,
)
    ensures
        hint_lines(Seq::empty()) == Seq::<char>::empty(),
        hint_lines(h.push(hint)) == hint_lines(h) + ("      via "@ + hint + "\n"@),
        all_entry_lines(Seq::empty()) == Seq::<char>::empty(),
        all_entry_lines(p.push(e)) == all_entry_lines(p) + entry_lines(e),
{
    assert(h.push(hint).subrange(0, h.len() as int) =~= h);
    assert(p.push(e).subrange(0, p.len() as int) =~= p);
}

/// The lines of a peer show the nickname, and what its ticket says: the fingerprint, the kind of
/// key, whether it has expired, and the addresses; or why the ticket cannot be read.
pub proof fn law_lines_of_a_peer(e: PeerEntry)
    ensures
        e.ticket matches Ok(t) ==> entry_lines(e) == "  "@ + padded_text(e.nickname@, 16) + " "@
            + t.fingerprint@ + "  "@ + (if t.hybrid {
            "PQ"@
        } else {
            "classical"@
        }) + (if t.expired {
            "  ⚠️ ticket expired"@
        } else {
            ""@
        }) + "\n"@ + hint_lines(t.hints@.map_values(|s: String| s@)),
        e.ticket matches Err(w) ==> entry_lines(e) == "  "@ + padded_text(e.nickname@, 16)
            + " ⚠️ unreadable ticket: "@ + w@ + "\n"@,
{
}

/// A pairing is refused exactly where the ticket is the own one, or where the nickname is paired
/// with another identity.
pub proof fn law_when_a_pairing_is_refused(
    peers: Seq<LivePeer>,
    nickname: Seq<char>,
    ticket: TicketInfo,
    my_id: Seq<char>,
    stored: Option<TicketInfo>,
)
    ensures
        pair_fault(peers, nickname, ticket, my_id, stored) is None <==> {
            &&& ticket.id@ != my_id
            &&& stored is Some && stored->Some_0.id@ != ticket.id@ ==> forall|i: int|
                0 <= i < peers.len() ==> (#[trigger] peers[i]).nickname@ != nickname
        },
        ticket.id@ == my_id ==> pair_fault(peers, nickname, ticket, my_id, stored) == Some(
            "That ticket is your own identity — you cannot pair with yourself."@,
        ),
        ticket.id@ != my_id && pair_fault(peers, nickname, ticket, my_id, stored) is Some
            ==> pair_fault(peers, nickname, ticket, my_id, stored) == Some(
            "SECURITY ALERT: '"@ + nickname + "' is already paired with a DIFFERENT identity ("@
                + stored->Some_0.fingerprint@ + " vs "@ + ticket.fingerprint@
                + "). Remove the old peer explicitly if you really mean to replace it."@,
        ),
{
}

/// Progress is reported whenever the percentage changes, and that a transfer resumes is said once,
/// before it.
pub proof fn law_progress_is_reported_on_change(
    m: ProgressMeter,
    label: Seq<char>,
    transferred: u64,
    total: u64,
    resumed_from: u64,
)
    ensures
        (resumed_from == 0 || m.resumed_noted) && m.last_pct == Some(
            percent_spec(transferred, total),
        ) ==> progress_text(m, label, transferred, total, resumed_from).len() == 0,
        (resumed_from == 0 || m.resumed_noted) && m.last_pct != Some(
            percent_spec(transferred, total),
        ) ==> progress_text(m, label, transferred, total, resumed_from) == progress_line(
            label,
            transferred,
            total,
        ),
        resumed_from > 0 && !m.resumed_noted ==> progress_text(
            m,
            label,
            transferred,
            total,
            resumed_from,
        ) == "↻  Resuming from "@ + human_spec(resumed_from as nat) + "\n"@ + (if m.last_pct != Some(
            percent_spec(transferred, total),
        ) {
            progress_line(label, transferred, total)
        } else {
            Seq::empty()
        }),
        progress_line(label, transferred, total) == "\r"@ + label + " "@ + left_padded_text(
            decimal_spec(percent_spec(transferred, total) as nat),
            3,
        ) + "%  "@ + human_spec(transferred as nat) + " / "@ + human_spec(total as nat),
{
    assert(Seq::<char>::empty() + progress_line(label, transferred, total) =~= progress_line(
        label,
        transferred,
        total,
    ));
}

/// What is said of the own identity names the identity, the fingerprint, the kind of keys and every
/// address.
pub proof fn law_identity_is_told_whole(s: IdentitySummary)
    ensures
        identity_text(s) == "--- 🛡  Your Live Identity ---\n🔑 Identity  : "@ + s.id@
            + "\n👁  Fingerprint: "@ + s.fingerprint@ + "\n🧬 Post-quantum: "@ + (if s.hybrid {
            "yes (Ed25519 + ML-DSA-65)"@
        } else {
            "no — classical only"@
        }) + (if s.endpoints@.len() == 0 {
            "\n📍 Address   : not set\n\n👉 Run 'atom live address <ip:port>' so peers know where to reach you.\n"@
        } else {
            "\n📍 Address   : "@ + joined(s.endpoints@.map_values(|x: String| x@), ", "@) + "\n"@
        })
            + "\nRead the fingerprint aloud when you pair. It covers both of your keys,\nso if it matches on your peer's screen, nobody has substituted either one.\n"@,
{
}

/// Addresses and peers are seen with all that is kept of them, one for one.
pub proof fn law_live_state_as_plain_values(s: LiveState, i: int, host: String, port: u16)
    ensures
        s@.0.len() == s.my_endpoints@.len(),
        0 <= i < s.my_endpoints@.len() ==> s@.0[i] == s.my_endpoints@[i]@,
        s@.1.len() == s.peers@.len(),
        0 <= i < s.peers@.len() ==> s@.1[i] == (s.peers@[i].nickname@, s.peers@[i].ticket@),
        (Endpoint::Onion { host, port })@ == (Endpoint::Onion { host: host@, port }),
        Endpoint::Direct(host)@ == Endpoint::Direct(host@),
{
}

} // verus!
