//! Domain types and the messages between the interface and the engine.
use vstd::prelude::*;
use crate::peer::{PeerKey, PeerKeyView};

verus! {

/// Commands from the interface to the engine.
pub enum UiCommand {
    /// Start the node: listen on the port, set the nickname and dial the
    /// addresses. Sent once, from the start screen or directly at launch.
    Start { nick: String, port: u16, dials: Vec<String> },
    /// Send a text message to a peer.
    SendText { peer: PeerKey, text: String },
    /// Send a file to a peer.
    SendFile { peer: PeerKey, path: String },
    /// Mark a peer as trusted (the user compared the fingerprint).
    VerifyPeer { peer: PeerKey },
    /// Connect to an address by hand.
    Dial { addr: String },
    /// Search the local network for peers anew.
    RefreshDiscovery,
    /// Shut down.
    Quit,
}

/// Whether a peer is reachable.
#[derive(PartialEq, Eq, Structural, Clone, Copy, Debug)]
pub enum Presence {
    Online,
    Offline,
}

/// Events from the engine to the interface.
pub enum AppEvent {
    /// Our own listening address (a hint for the user).
    Listening { addr: String },
    /// A new peer was found or introduced itself.
    PeerDiscovered {
        peer: PeerKey,
        nick: String,
        /// Fingerprint of the long-term key, for comparison by hand.
        fingerprint: String,
    },
    /// The presence of a peer changed.
    PeerPresence { peer: PeerKey, presence: Presence },
    /// A decrypted text message arrived.
    MessageReceived { peer: PeerKey, text: String },
    /// Progress or end of a file transfer.
    FileProgress {
        peer: PeerKey,
        name: String,
        received: u64,
        total: u64,
        /// Where the file was saved, once the transfer is complete.
        done: Option<String>,
        outgoing: bool,
    },
    /// An informational message for the status line.
    Status(String),
}

/// A command as values.
pub enum CommandView {
    Start { nick: Seq<char>, port: u16, dials: Seq<Seq<char>> },
    SendText { peer: PeerKeyView, text: Seq<char> },
    SendFile { peer: PeerKeyView, path: Seq<char> },
    VerifyPeer { peer: PeerKeyView },
    Dial { addr: Seq<char> },
    RefreshDiscovery,
    Quit,
}

/// An event as values.
pub enum EventView {
    Listening { addr: Seq<char> },
    PeerDiscovered { peer: PeerKeyView, nick: Seq<char>, fingerprint: Seq<char> },
    PeerPresence { peer: PeerKeyView, presence: Presence },
    MessageReceived { peer: PeerKeyView, text: Seq<char> },
    FileProgress {
        peer: PeerKeyView,
        name: Seq<char>,
        received: u64,
        total: u64,
        done: Option<Seq<char>>,
        outgoing: bool,
    },
    Status(Seq<char>),
}

/// The texts of a list of strings.
pub open spec fn texts(v: Seq<String>) -> Seq<Seq<char>> {
    v.map_values(|s: String| s@)
}

impl View for UiCommand {
    type V = CommandView;

    open spec fn view(&self) -> CommandView {
        match self {
            UiCommand::Start { nick, port, dials } => CommandView::Start {
                nick: nick@,
                port: *port,
                dials: texts(dials@),
            },
            UiCommand::SendText { peer, text } => CommandView::SendText { peer: peer@, text: text@ },
            UiCommand::SendFile { peer, path } => CommandView::SendFile { peer: peer@, path: path@ },
            UiCommand::VerifyPeer { peer } => CommandView::VerifyPeer { peer: peer@ },
            UiCommand::Dial { addr } => CommandView::Dial { addr: addr@ },
            UiCommand::RefreshDiscovery => CommandView::RefreshDiscovery,
            UiCommand::Quit => CommandView::Quit,
        }
    }
}

impl View for AppEvent {
    type V = EventView;

    open spec fn view(&self) -> EventView {
        match self {
            AppEvent::Listening { addr } => EventView::Listening { addr: addr@ },
            AppEvent::PeerDiscovered { peer, nick, fingerprint } => EventView::PeerDiscovered {
                peer: peer@,
                nick: nick@,
                fingerprint: fingerprint@,
            },
            AppEvent::PeerPresence { peer, presence } => EventView::PeerPresence {
                peer: peer@,
                presence: *presence,
            },
            AppEvent::MessageReceived { peer, text } => EventView::MessageReceived {
                peer: peer@,
                text: text@,
            },
            AppEvent::FileProgress { peer, name, received, total, done, outgoing } =>
                EventView::FileProgress {
                peer: peer@,
                name: name@,
                received: *received,
                total: *total,
                done: match done {
                    Some(p) => Some(p@),
                    None => None,
                },
                outgoing: *outgoing,
            },
            AppEvent::Status(s) => EventView::Status(s@),
        }
    }
}

} // verus!
