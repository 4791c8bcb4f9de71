//! Wire types of the request-response protocol `/p2p-chat/1`.
//!
//! The content travels already encrypted in [`WireMsg::Encrypted`]; the key
//! bundle is sent in the clear (the libp2p transport encrypts it, and the user
//! compares it by fingerprint).
use vstd::prelude::*;

verus! {

/// Name of the request-response protocol.
pub const PROTOCOL: &'static str = "/p2p-chat/1";

/// A request (a message that is sent).
pub enum WireMsg {
    /// The bundle of keys for setting up an Olm session.
    KeyBundle {
        /// The long-term Ed25519 key (base64), the basis of the fingerprint.
        ed25519: String,
        /// The Curve25519 identity key (base64).
        curve25519: String,
        /// The one-time Curve25519 key (base64) for the key agreement.
        one_time_key: String,
        /// The shown nickname.
        nick: String,
    },
    /// An encrypted Olm payload: the parts `(type, body)` of an Olm message.
    Encrypted { ty: u8, body: Vec<u8> },
}

/// The answer to a request.
pub enum Ack {
    /// The request was taken.
    Accepted,
    /// The request was refused, with the reason.
    Refused(String),
}

/// A wire message as values.
pub enum WireView {
    KeyBundle { ed25519: Seq<char>, curve25519: Seq<char>, one_time_key: Seq<char>, nick: Seq<char> },
    Encrypted { ty: u8, body: Seq<u8> },
}

impl View for WireMsg {
    type V = WireView;

    open spec fn view(&self) -> WireView {
        match self {
            WireMsg::KeyBundle { ed25519, curve25519, one_time_key, nick } => WireView::KeyBundle {
                ed25519: ed25519@,
                curve25519: curve25519@,
                one_time_key: one_time_key@,
                nick: nick@,
            },
            WireMsg::Encrypted { ty, body } => WireView::Encrypted { ty: *ty, body: body@ },
        }
    }
}

} // verus!
