//! Headless mode: commands from lines of standard input, events as lines on
//! standard output.
//!
//! Useful for scripts and end-to-end tests (the terminal interface needs a
//! TTY). The output is machine-readable: `LISTEN`, `PEER`, `PRESENCE`, `MSG`,
//! `FILE`, `STATUS`. Reading and printing stay with the caller.
use vstd::prelude::*;
use crate::peer::{PeerKey, PeerKeyView};
use crate::message::{AppEvent, EventView, Presence, UiCommand, CommandView};
use crate::text::{
    trim, strip_prefix, decimal, decimal_string, chars_of, string_of, trimmed, strip_prefix_chars,
    chars_eq,
};

verus! {

broadcast use vstd::string::group_string_axioms;

/// What one input line asks for.
pub struct LineStep {
    /// The command for the engine, if any.
    pub command: Option<UiCommand>,
    /// A line to print, if any.
    pub output: Option<String>,
    /// Whether to go on reading; when not, the engine is to shut down.
    pub go_on: bool,
}

/// A step as values.
pub struct LineStepView {
    pub command: Option<CommandView>,
    pub output: Option<Seq<char>>,
    pub go_on: bool,
}

impl View for LineStep {
    type V = LineStepView;

    open spec fn view(&self) -> LineStepView {
        LineStepView {
            command: match self.command {
                Some(c) => Some(c@),
                None => None,
            },
            output: match self.output {
                Some(o) => Some(o@),
                None => None,
            },
            go_on: self.go_on,
        }
    }
}

/// The line printed when a message has no peer to go to.
pub open spec fn no_peers_line() -> Seq<char> {
    "STATUS нет пиров для отправки"@
}

/// An input line, trimmed: empty lines are skipped, `/quit` ends,
/// `/dial <address>` and `/refresh` go to the engine; `/verify`,
/// `/file <path>` and any other text go to the first known peer (without
/// one, a status line says so).
pub open spec fn line_step(line: Seq<char>, peers: Seq<PeerKeyView>) -> LineStepView {
    let l = trim(line);
    let go = |c: CommandView| LineStepView { command: Some(c), output: None, go_on: true };
    if l.len() == 0 {
        LineStepView { command: None, output: None, go_on: true }
    } else if l == "/quit"@ {
        LineStepView { command: None, output: None, go_on: false }
    } else {
        match strip_prefix(l, "/dial "@) {
            Some(addr) => go(CommandView::Dial { addr: trim(addr) }),
            None => if l == "/refresh"@ {
                go(CommandView::RefreshDiscovery)
            } else if peers.len() == 0 {
                LineStepView { command: None, output: Some(no_peers_line()), go_on: true }
            } else if l == "/verify"@ {
                go(CommandView::VerifyPeer { peer: peers[0] })
            } else {
                match strip_prefix(l, "/file "@) {
                    Some(path) => go(CommandView::SendFile { peer: peers[0], path: trim(path) }),
                    None => go(CommandView::SendText { peer: peers[0], text: l }),
                }
            },
        }
    }
}

/// The peers as values.
pub open spec fn keys_view(peers: Seq<PeerKey>) -> Seq<PeerKeyView> {
    peers.map_values(|p: PeerKey| p@)
}

fn step(command: UiCommand) -> (r: LineStep)
    ensures
        r@ == (LineStepView { command: Some(command@), output: None, go_on: true }),
{
    LineStep { command: Some(command), output: None, go_on: true }
}

/// Act on one input line; `peers` are the peers known so far, in the order
/// they were first seen.
pub fn handle_line(line: &str, peers: &Vec<PeerKey>) -> (r: LineStep)
    ensures
        r@ == line_step(line@, keys_view(peers@)),
{
    let l = trimmed(chars_of(line).as_slice());
    if l.len() == 0 {
        return LineStep { command: None, output: None, go_on: true };
    }
    if chars_eq(l.as_slice(), chars_of("/quit").as_slice()) {
        return LineStep { command: None, output: None, go_on: false };
    }
    match strip_prefix_chars(l.as_slice(), chars_of("/dial ").as_slice()) {
        Some(addr) => {
            let a = trimmed(addr.as_slice());
            return step(UiCommand::Dial { addr: string_of(a.as_slice()) });
        },
        None => {},
    }
    if chars_eq(l.as_slice(), chars_of("/refresh").as_slice()) {
        return step(UiCommand::RefreshDiscovery);
    }
    if peers.len() == 0 {
        return LineStep {
            command: None,
            output: Some("STATUS нет пиров для отправки".to_string()),
            go_on: true,
        };
    }
    assert(keys_view(peers@)[0] == peers@[0]@);
    let peer = peers[0].copy();
    if chars_eq(l.as_slice(), chars_of("/verify").as_slice()) {
        return step(UiCommand::VerifyPeer { peer });
    }
    match strip_prefix_chars(l.as_slice(), chars_of("/file ").as_slice()) {
        Some(path) => {
            let p = trimmed(path.as_slice());
            step(UiCommand::SendFile { peer, path: string_of(p.as_slice()) })
        },
        None => step(UiCommand::SendText { peer, text: string_of(l.as_slice()) }),
    }
}

/// The first line printed: the nickname and the fingerprint.
pub open spec fn ready_text(nick: Seq<char>, fingerprint: Seq<char>) -> Seq<char> {
    "READY "@ + nick + " "@ + fingerprint
}

/// The first line printed.
pub fn ready_line(nick: &str, fingerprint: &str) -> (r: String)
    ensures
        r@ == ready_text(nick@, fingerprint@),
{
    let mut s = "READY ".to_string();
    s.append(nick);
    s.append(" ");
    s.append(fingerprint);
    s
}

/// The state of a file transfer as printed.
pub open spec fn file_state(received: u64, total: u64, done: Option<Seq<char>>, outgoing: bool) -> Seq<
    char,
> {
    if outgoing {
        "sent"@
    } else {
        match done {
            Some(path) => "recv-done "@ + path,
            None => "recv "@ + decimal(received as nat) + "/"@ + decimal(total as nat),
        }
    }
}

/// The line printed for an event.
pub open spec fn event_line(ev: EventView) -> Seq<char> {
    match ev {
        EventView::Listening { addr } => "LISTEN "@ + addr,
        EventView::PeerDiscovered { peer, nick, fingerprint } => "PEER "@ + peer.text + " "@ + nick
            + " "@ + fingerprint,
        EventView::PeerPresence { peer, presence } => "PRESENCE "@ + peer.text + " "@ + (
        if presence == Presence::Online {
            "online"@
        } else {
            "offline"@
        }),
        EventView::MessageReceived { peer, text } => "MSG "@ + peer.text + " "@ + text,
        EventView::FileProgress { peer, name, received, total, done, outgoing } => "FILE "@
            + peer.text + " "@ + file_state(received, total, done, outgoing) + " "@ + name,
        EventView::Status(msg) => "STATUS "@ + msg,
    }
}

/// Whether a peer with these identifier bytes is in the list.
pub open spec fn knows(peers: Seq<PeerKeyView>, id: Seq<u8>) -> bool {
    exists|i: int| 0 <= i < peers.len() && peers[i].bytes == id
}

/// The known peers after an event: a newly discovered peer is added at the
/// end.
pub open spec fn peers_after(peers: Seq<PeerKeyView>, ev: EventView) -> Seq<PeerKeyView> {
    match ev {
        EventView::PeerDiscovered { peer, .. } => if knows(peers, peer.bytes) {
            peers
        } else {
            peers.push(peer)
        },
        _ => peers,
    }
}

/// The nickname list as values.
pub open spec fn names_view(names: Seq<(PeerKey, String)>) -> Seq<(PeerKeyView, Seq<char>)> {
    names.map_values(|e: (PeerKey, String)| (e.0@, e.1@))
}

/// The position of the entry for the peer with these identifier bytes (the
/// last one, if several).
pub open spec fn name_index(names: Seq<(PeerKeyView, Seq<char>)>, id: Seq<u8>) -> Option<int>
    decreases names.len(),
{
    if names.len() == 0 {
        None
    } else if names.last().0.bytes == id {
        Some(names.len() - 1)
    } else {
        name_index(names.drop_last(), id)
    }
}

/// The nickname recorded for the peer with these identifier bytes.
pub open spec fn name_of(names: Seq<(PeerKeyView, Seq<char>)>, id: Seq<u8>) -> Option<Seq<char>> {
    match name_index(names, id) {
        Some(i) => Some(names[i].1),
        None => None,
    }
}

/// The nicknames after an event: a discovered peer's nickname replaces the
/// one recorded for it, or is recorded at the end.
pub open spec fn names_after(names: Seq<(PeerKeyView, Seq<char>)>, ev: EventView) -> Seq<
    (PeerKeyView, Seq<char>),
> {
    match ev {
        EventView::PeerDiscovered { peer, nick, .. } => match name_index(names, peer.bytes) {
            Some(i) => names.update(i, (names[i].0, nick)),
            None => names.push((peer, nick)),
        },
        _ => names,
    }
}

/// No peer has two entries.
pub open spec fn distinct_names(names: Seq<(PeerKeyView, Seq<char>)>) -> bool {
    forall|i: int, j: int|
        0 <= i < j < names.len() ==> #[trigger] names[i].0.bytes != #[trigger] names[j].0.bytes
}

proof fn lemma_name_index(names: Seq<(PeerKeyView, Seq<char>)>, id: Seq<u8>)
    ensures
        match name_index(names, id) {
            Some(i) => 0 <= i < names.len() && names[i].0.bytes == id,
            None => forall|j: int| 0 <= j < names.len() ==> #[trigger] names[j].0.bytes != id,
        },
    decreases names.len(),
{
    if names.len() > 0 && names.last().0.bytes != id {
        lemma_name_index(names.drop_last(), id);
        if name_index(names.drop_last(), id) is None {
            assert forall|j: int| 0 <= j < names.len() implies #[trigger] names[j].0.bytes != id by {
                if j < names.len() - 1 {
                    assert(names.drop_last()[j] == names[j]);
                }
            }
        }
    }
}

proof fn lemma_name_index_unique(names: Seq<(PeerKeyView, Seq<char>)>, id: Seq<u8>, k: int)
    requires
        distinct_names(names),
        0 <= k < names.len(),
        names[k].0.bytes == id,
    ensures
        name_index(names, id) == Some(k),
    decreases names.len(),
{
    if k < names.len() - 1 {
        assert(names.last().0.bytes != id) by {
            assert(names[k].0.bytes != names[names.len() - 1].0.bytes);
        }
        assert(names.drop_last()[k] == names[k]);
        lemma_name_index_unique(names.drop_last(), id, k);
    }
}

/// Where the peer's nickname is recorded.
fn find_name(names: &Vec<(PeerKey, String)>, peer: &PeerKey) -> (r: Option<usize>)
    ensures
        match r {
            Some(i) => name_index(names_view(names@), peer@.bytes) == Some(i as int),
            None => name_index(names_view(names@), peer@.bytes) is None,
        },
{
    let ghost ns = names_view(names@);
    let mut i: usize = names.len();
    assert(ns.take(i as int) =~= ns);
    while i > 0
        invariant
            i <= names@.len(),
            ns == names_view(names@),
            name_index(ns, peer@.bytes) == name_index(ns.take(i as int), peer@.bytes),
        decreases i,
    {
        assert(ns[i - 1] == (names@[i - 1].0@, names@[i - 1].1@));
        assert(ns.take(i as int).drop_last() =~= ns.take(i - 1));
        if names[i - 1].0.same(peer) {
            return Some(i - 1);
        }
        i = i - 1;
    }
    assert(ns.take(0) =~= Seq::<(PeerKeyView, Seq<char>)>::empty());
    None
}

/// Record the peer's nickname.
fn record_name(names: &mut Vec<(PeerKey, String)>, peer: &PeerKey, nick: String)
    ensures
        names_view(final(names)@) == names_after(
            names_view(old(names)@),
            EventView::PeerDiscovered { peer: peer@, nick: nick@, fingerprint: Seq::empty() },
        ),
{
    let ghost before = names_view(names@);
    match find_name(names, peer) {
        Some(i) => {
            proof {
                lemma_name_index(before, peer@.bytes);
            }
            let ghost nv = nick@;
            names[i].1 = nick;
            assert(names_view(names@) =~= before.update(i as int, (before[i as int].0, nv)));
        },
        None => {
            let ghost nv = nick@;
            names.push((peer.copy(), nick));
            assert(names_view(names@) =~= before.push((peer@, nv)));
        },
    }
}

/// Whether the peer is in the list.
fn contains_peer(peers: &Vec<PeerKey>, peer: &PeerKey) -> (r: bool)
    ensures
        r == knows(keys_view(peers@), peer@.bytes),
{
    let mut i: usize = 0;
    while i < peers.len()
        invariant
            i <= peers@.len(),
            forall|j: int| 0 <= j < i ==> keys_view(peers@)[j].bytes != peer@.bytes,
        decreases peers@.len() - i,
    {
        assert(keys_view(peers@)[i as int] == peers@[i as int]@);
        if peers[i].same(peer) {
            return true;
        }
        i = i + 1;
    }
    false
}

fn append_decimal(s: &mut String, n: u64)
    ensures
        final(s)@ == old(s)@ + decimal(n as nat),
{
    let d = decimal_string(n);
    s.append(d.as_str());
}

/// Take in an event: note a newly discovered peer and its nickname, and give
/// the line to print.
pub fn handle_event(ev: AppEvent, peers: &mut Vec<PeerKey>, names: &mut Vec<(PeerKey, String)>) -> (r: String)
    ensures
        r@ == event_line(ev@),
        keys_view(final(peers)@) == peers_after(keys_view(old(peers)@), ev@),
        names_view(final(names)@) == names_after(names_view(old(names)@), ev@),
{
    match ev {
        AppEvent::Listening { addr } => {
            let mut s = "LISTEN ".to_string();
            s.append(addr.as_str());
            s
        },
        AppEvent::PeerDiscovered { peer, nick, fingerprint } => {
            let mut s = "PEER ".to_string();
            s.append(peer.text.as_str());
            s.append(" ");
            s.append(nick.as_str());
            s.append(" ");
            s.append(fingerprint.as_str());
            record_name(names, &peer, nick);
            if !contains_peer(peers, &peer) {
                let ghost before = peers@;
                peers.push(peer);
                assert(keys_view(peers@) =~= keys_view(before).push(peers@.last()@));
            }
            s
        },
        AppEvent::PeerPresence { peer, presence } => {
            let mut s = "PRESENCE ".to_string();
            s.append(peer.text.as_str());
            s.append(" ");
            match presence {
                Presence::Online => s.append("online"),
                Presence::Offline => s.append("offline"),
            }
            s
        },
        AppEvent::MessageReceived { peer, text } => {
            let mut s = "MSG ".to_string();
            s.append(peer.text.as_str());
            s.append(" ");
            s.append(text.as_str());
            s
        },
        AppEvent::FileProgress { peer, name, received, total, done, outgoing } => {
            let mut s = "FILE ".to_string();
            s.append(peer.text.as_str());
            s.append(" ");
            if outgoing {
                s.append("sent");
            } else {
                match done {
                    Some(path) => {
                        s.append("recv-done ");
                        s.append(path.as_str());
                    },
                    None => {
                        s.append("recv ");
                        append_decimal(&mut s, received);
                        s.append("/");
                        append_decimal(&mut s, total);
                    },
                }
            }
            s.append(" ");
            s.append(name.as_str());
            s
        },
        AppEvent::Status(msg) => {
            let mut s = "STATUS ".to_string();
            s.append(msg.as_str());
            s
        },
    }
}

/// No peer is listed twice.
pub open spec fn distinct_peers(peers: Seq<PeerKeyView>) -> bool {
    forall|i: int, j: int|
        0 <= i < j < peers.len() ==> #[trigger] peers[i].bytes != #[trigger] peers[j].bytes
}

/// The known peers stay a list without repeats, in the order they were first
/// seen: an event keeps the earlier ones where they are, and a discovered
/// peer is known afterwards.
pub proof fn law_peers_distinct(peers: Seq<PeerKeyView>, ev: EventView)
    requires
        distinct_peers(peers),
    ensures
        distinct_peers(peers_after(peers, ev)),
        peers_after(peers, ev).take(peers.len() as int) == peers,
        ev matches EventView::PeerDiscovered { peer, .. } ==> knows(peers_after(peers, ev), peer.bytes),
{
    let r = peers_after(peers, ev);
    assert(r.take(peers.len() as int) =~= peers);
    match ev {
        EventView::PeerDiscovered { peer, .. } => {
            if !knows(peers, peer.bytes) {
                assert(r[peers.len() as int] == peer);
            }
        },
        _ => {},
    }
}

/// The nickname list works as a map from peers to their latest nickname: a
/// discovery records the nickname it brings for its peer and leaves the others
/// as they were, and no peer comes to have two entries.
pub proof fn law_names_record(names: Seq<(PeerKeyView, Seq<char>)>, ev: EventView, id: Seq<u8>)
    requires
        distinct_names(names),
    ensures
        distinct_names(names_after(names, ev)),
        name_of(names_after(names, ev), id) == match ev {
            EventView::PeerDiscovered { peer, nick, .. } => if peer.bytes == id {
                Some(nick)
            } else {
                name_of(names, id)
            },
            _ => name_of(names, id),
        },
{
    let r = names_after(names, ev);
    match ev {
        EventView::PeerDiscovered { peer, nick, .. } => {
            lemma_name_index(names, peer.bytes);
            lemma_name_index(names, id);
            assert(distinct_names(r));
            lemma_name_index(r, id);
            match name_index(r, id) {
                Some(k) => {
                    lemma_name_index_unique(r, id, k);
                    if k < names.len() {
                        lemma_name_index_unique(names, id, k);
                    }
                },
                None => {
                    if let Some(k) = name_index(names, id) {
                        assert(r[k].0.bytes == id);
                    }
                },
            }
        },
        _ => {},
    }
}

/// A presence event prints the peer and its state: `online` when the peer
/// came online and `offline` when it went away, so the two presences always
/// give different lines.
pub proof fn law_presence_line(peer: PeerKeyView, presence: Presence)
    ensures
        event_line(EventView::PeerPresence { peer, presence }) == "PRESENCE "@ + peer.text + " "@
            + (if presence == Presence::Online {
            "online"@
        } else {
            "offline"@
        }),
        event_line(EventView::PeerPresence { peer, presence: Presence::Online }) != event_line(
            EventView::PeerPresence { peer, presence: Presence::Offline },
        ),
{
    reveal_strlit("online");
    reveal_strlit("offline");
    let on = event_line(EventView::PeerPresence { peer, presence: Presence::Online });
    let off = event_line(EventView::PeerPresence { peer, presence: Presence::Offline });
    let k = ("PRESENCE "@ + peer.text + " "@).len();
    assert(on.len() == k + 6);
    assert(off.len() == k + 7);
}

} // verus!
