//! Peer identifiers as plain values.
use vstd::prelude::*;

verus! {

/// A network peer, held as the raw bytes of its libp2p identifier together
/// with the textual (base58) form that is shown to the user.
pub struct PeerKey {
    pub bytes: Vec<u8>,
    pub text: String,
}

/// A peer as values: its identifier bytes and its shown text.
pub struct PeerKeyView {
    pub bytes: Seq<u8>,
    pub text: Seq<char>,
}

impl View for PeerKey {
    type V = PeerKeyView;

    open spec fn view(&self) -> PeerKeyView {
        PeerKeyView { bytes: self.bytes@, text: self.text@ }
    }
}

/// The order that libp2p puts on peer identifiers, on their raw byte forms.
pub uninterp spec fn peer_order(a: Seq<u8>, b: Seq<u8>) -> bool;

/// Whether `libp2p::PeerId::from_bytes` accepts the bytes.
pub uninterp spec fn peer_id_valid(bytes: Seq<u8>) -> bool;

/// Calls `libp2p::PeerId::from_bytes` on both byte strings and compares the
/// two identifiers with `<` (the order that `PeerId` derives); when either
/// string is not a valid identifier the answer is `false`. Beside being a
/// fixed function of the two byte strings, the contract claims what the
/// source shows of that order: `from_bytes` reads a multihash and refuses
/// trailing bytes and varints that are not minimal, so two different accepted
/// byte strings give different identifiers, and the derived order on the
/// multihash's code, size and digest is total and strict; so of two different
/// valid identifiers exactly one comes first, and none comes before itself.
#[verifier::external_body]
pub(crate) fn peer_precedes(a: &[u8], b: &[u8]) -> (r: bool)
    ensures
        r == peer_order(a@, b@),
        r ==> peer_id_valid(a@) && peer_id_valid(b@),
        peer_id_valid(a@) && peer_id_valid(b@) && a@ != b@ ==> r != peer_order(b@, a@),
        a@ == b@ ==> !r,
{
    match (libp2p::PeerId::from_bytes(a), libp2p::PeerId::from_bytes(b)) {
        (Ok(x), Ok(y)) => x < y,
        _ => false,
    }
}

/// Of two different valid identifiers, exactly one comes first in libp2p's
/// order.
pub open spec fn one_first(a: Seq<u8>, b: Seq<u8>) -> bool {
    peer_id_valid(a) && peer_id_valid(b) && a != b ==> peer_order(a, b) != peer_order(b, a)
}

impl PeerKey {
    /// The identity of the peer: its raw identifier bytes.
    pub open spec fn id(&self) -> Seq<u8> {
        self.bytes@
    }

    /// Whether two keys name the same peer.
    pub fn same(&self, other: &PeerKey) -> (r: bool)
        ensures
            r == (self.id() == other.id()),
    {
        let n = self.bytes.len();
        if n != other.bytes.len() {
            return false;
        }
        let mut i: usize = 0;
        while i < n
            invariant
                n == self.bytes.len(),
                n == other.bytes.len(),
                i <= n,
                forall|j: int| 0 <= j < i ==> self.bytes@[j] == other.bytes@[j],
            decreases n - i,
        {
            if self.bytes[i] != other.bytes[i] {
                return false;
            }
            i = i + 1;
        }
        proof {
            assert(self.bytes@ =~= other.bytes@);
        }
        true
    }

    /// A copy of the key.
    pub fn copy(&self) -> (r: PeerKey)
        ensures
            r@ == self@,
    {
        PeerKey { bytes: self.bytes.clone(), text: self.text.clone() }
    }
}

} // verus!
