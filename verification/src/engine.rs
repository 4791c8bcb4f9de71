//! The engine: the decisions that tie network events, Olm sessions and the
//! interface together.
//!
//! The engine is a state machine. Each handler takes the current state and
//! one event (a command from the interface, a network event, a decoded
//! payload) and returns the effects to perform in order: events for the
//! interface, wire messages for peers, payloads to encode or decode, files to
//! read or save. The caller performs them and hands the results back.
use vstd::prelude::*;
use vodozemac::Curve25519PublicKey;
use crate::peer::{PeerKey, PeerKeyView, peer_order, peer_precedes, peer_id_valid, one_first};
use crate::crypto::{
    Plain, PlainView, seal, open, parse_message, OlmPayload, olm_decodes, CryptoError, OlmSession,
    SealedEntry,
};
use crate::identity::{
    Identity, CurveKey, pickle_decodes, stored_keys, fingerprint_text, fingerprint_of, curve25519_accepts,
    curve25519_base64,
};
use crate::message::{AppEvent, EventView, Presence, UiCommand, CommandView, texts};
use crate::protocol::{WireMsg, WireView};
use crate::address::{DialTarget, DialTargetView, parse_dial, parse_dial_spec, dial_error_text};
use crate::file_transfer::{
    IncomingFile, write_at, mark_range, covers, marked, lemma_arrival_marked, lemma_arrival_gap,
    prepare, is_chunking, chunk_count, chunk_bytes, send_name, CHUNK_SIZE,
    arrival, written, piece_bytes, once_each, arrives, chunk_end, lemma_chunk_bounds,
    lemma_arrival_written, lemma_arrival_bytes, lemma_arrival_partial,
};
use crate::text::{decimal, decimal_string};

verus! {

broadcast use vstd::string::group_string_axioms;

/// What the engine asks its caller to do.
pub enum Effect {
    /// Hand an event to the interface.
    Emit(AppEvent),
    /// Send a wire message to a peer.
    Send { peer: PeerKey, msg: WireMsg },
    /// Encode the payload and hand the bytes back with `Engine::encoded`.
    Encode { peer: PeerKey, plain: Plain },
    /// Decode the bytes into a payload and hand it back with `Engine::on_plain`.
    Decode { peer: PeerKey, bytes: Vec<u8> },
    /// Start listening on the port and report with `Engine::listen_result`.
    Listen { port: u16 },
    /// Dial the target; on success, when `announce` holds, tell the user.
    Dial { addr: String, target: DialTarget, announce: bool },
    /// Dial the addresses that local discovery just reported.
    DialDiscovered,
    /// Restart local discovery (forget what was found and ask again).
    RestartDiscovery,
    /// Store the identity (when it could be encoded).
    StoreIdentity { stored: Option<Vec<u8>> },
    /// Store the identity after a session that the peer started was made, and
    /// report whether that worked with `Engine::identity_stored`.
    StoreForSession { peer: PeerKey, identity: Vec<u8> },
    /// Read the file and hand it back with `Engine::file_loaded`.
    ReadFile { peer: PeerKey, path: String },
    /// Save a received file and report it with `file_saved`.
    SaveFile { peer: PeerKey, name: String, data: Vec<u8>, received: u64, total: u64 },
}

/// An effect as values.
pub enum EffectView {
    Emit(EventView),
    Send { peer: PeerKeyView, msg: WireView },
    Encode { peer: PeerKeyView, plain: PlainView },
    Decode { peer: PeerKeyView, bytes: Seq<u8> },
    Listen { port: u16 },
    Dial { addr: Seq<char>, target: DialTargetView, announce: bool },
    DialDiscovered,
    RestartDiscovery,
    StoreIdentity { stored: Option<Seq<u8>> },
    StoreForSession { peer: PeerKeyView, identity: Seq<u8> },
    ReadFile { peer: PeerKeyView, path: Seq<char> },
    SaveFile { peer: PeerKeyView, name: Seq<char>, data: Seq<u8>, received: u64, total: u64 },
}

impl View for Effect {
    type V = EffectView;

    open spec fn view(&self) -> EffectView {
        match self {
            Effect::Emit(e) => EffectView::Emit(e@),
            Effect::Send { peer, msg } => EffectView::Send { peer: peer@, msg: msg@ },
            Effect::Encode { peer, plain } => EffectView::Encode { peer: peer@, plain: plain@ },
            Effect::Decode { peer, bytes } => EffectView::Decode { peer: peer@, bytes: bytes@ },
            Effect::Listen { port } => EffectView::Listen { port: *port },
            Effect::Dial { addr, target, announce } => EffectView::Dial {
                addr: addr@,
                target: target@,
                announce: *announce,
            },
            Effect::DialDiscovered => EffectView::DialDiscovered,
            Effect::RestartDiscovery => EffectView::RestartDiscovery,
            Effect::StoreIdentity { stored } => EffectView::StoreIdentity {
                stored: match stored {
                    Some(b) => Some(b@),
                    None => None,
                },
            },
            Effect::StoreForSession { peer, identity } => EffectView::StoreForSession {
                peer: peer@,
                identity: identity@,
            },
            Effect::ReadFile { peer, path } => EffectView::ReadFile { peer: peer@, path: path@ },
            Effect::SaveFile { peer, name, data, received, total } => EffectView::SaveFile {
                peer: peer@,
                name: name@,
                data: data@,
                received: *received,
                total: *total,
            },
        }
    }
}

/// The effects as values.
pub open spec fn views(e: Seq<Effect>) -> Seq<EffectView> {
    e.map_values(|x: Effect| x@)
}

/// What the engine knows of one peer.
pub struct PeerModel {
    pub key: PeerKeyView,
    pub nick: Seq<char>,
    pub ed25519: Seq<char>,
    /// The peer's identity key (its base64 text), when it sent one that reads
    /// as a key.
    pub identity_curve: Option<Seq<char>>,
    /// The peer's one-time key (its base64 text), likewise.
    pub one_time_key: Option<Seq<char>>,
    pub has_session: bool,
    /// The peer's identity key and one-time key that the session we started
    /// was made with.
    pub session_keys: Option<(Seq<char>, Seq<char>)>,
    /// The peer's identity key that the session it started with us was made
    /// with.
    pub inbound_identity: Option<Seq<char>>,
    /// The payloads encrypted for the peer through the session, each with the
    /// type and body of its message.
    pub sealed: Seq<SealedEntry>,
    /// The payloads that came out of the session from the peer.
    pub opened: Seq<Seq<u8>>,
    /// A session that the peer started, kept back until the identity is
    /// stored.
    pub staged: Option<StagedView>,
    pub verified: bool,
    /// Whether we sent our key bundle to the peer.
    pub bundle_sent: bool,
    /// Whether the interface was told of the peer.
    pub announced: bool,
    /// Outgoing payloads that wait for the session.
    pub pending: Seq<PlainView>,
}

/// A session that the peer started, kept back until the identity is stored:
/// the identity key it was made from, what has gone through it, and the first
/// payload that came out of it.
pub struct StagedView {
    pub from: Seq<char>,
    pub sealed: Seq<SealedEntry>,
    pub opened: Seq<Seq<u8>>,
    pub plaintext: Seq<u8>,
}

/// An incoming file transfer as values.
pub struct FileModel {
    pub peer: Seq<u8>,
    pub id: u64,
    pub name: Option<Seq<char>>,
    pub total: Option<u64>,
    pub bytes: Seq<u8>,
    /// Which positions a chunk has written.
    pub have: Seq<bool>,
    pub filled: u64,
}

/// The state of the engine as values.
pub struct EngineModel {
    pub local: PeerKeyView,
    pub nick: Seq<char>,
    pub ed25519: Seq<char>,
    pub curve25519: Seq<char>,
    pub peers: Seq<PeerModel>,
    pub files: Seq<FileModel>,
    pub next_file_id: u64,
    pub started: bool,
    pub pending_dials: Seq<Seq<char>>,
}

/// The position of the peer with identifier `id` (the last one, if several).
pub open spec fn find_peer(ps: Seq<PeerModel>, id: Seq<u8>) -> Option<int>
    decreases ps.len(),
{
    if ps.len() == 0 {
        None
    } else if ps.last().key.bytes == id {
        Some(ps.len() - 1)
    } else {
        find_peer(ps.drop_last(), id)
    }
}

/// A peer that the engine has just heard of.
pub open spec fn fresh_peer(key: PeerKeyView) -> PeerModel {
    PeerModel {
        key,
        nick: Seq::empty(),
        ed25519: Seq::empty(),
        identity_curve: None,
        one_time_key: None,
        has_session: false,
        session_keys: None,
        inbound_identity: None,
        sealed: Seq::empty(),
        opened: Seq::empty(),
        staged: None,
        verified: false,
        bundle_sent: false,
        announced: false,
        pending: Seq::empty(),
    }
}

/// The position of the transfer `(peer, id)` (the last one, if several).
pub open spec fn find_file(fs: Seq<FileModel>, peer: Seq<u8>, id: u64) -> Option<int>
    decreases fs.len(),
{
    if fs.len() == 0 {
        None
    } else if fs.last().peer == peer && fs.last().id == id {
        Some(fs.len() - 1)
    } else {
        find_file(fs.drop_last(), peer, id)
    }
}

/// A transfer of which nothing has arrived yet.
pub open spec fn fresh_file(peer: Seq<u8>, id: u64) -> FileModel {
    FileModel { peer, id, name: None, total: None, bytes: Seq::empty(), have: Seq::empty(), filled: 0 }
}

impl EngineModel {
    pub open spec fn knows(self, id: Seq<u8>) -> bool {
        find_peer(self.peers, id) is Some
    }

    /// What is known of the peer (meaningful when `knows(id)`).
    pub open spec fn peer(self, id: Seq<u8>) -> PeerModel {
        self.peers[find_peer(self.peers, id)->0]
    }

    /// Replace what is known of a known peer.
    pub open spec fn set_peer(self, id: Seq<u8>, p: PeerModel) -> EngineModel {
        EngineModel { peers: self.peers.update(find_peer(self.peers, id)->0, p), ..self }
    }

    /// Add the peer if it is not known yet.
    pub open spec fn add_peer(self, key: PeerKeyView) -> EngineModel {
        if self.knows(key.bytes) {
            self
        } else {
            EngineModel { peers: self.peers.push(fresh_peer(key)), ..self }
        }
    }

    pub open spec fn has_file(self, peer: Seq<u8>, id: u64) -> bool {
        find_file(self.files, peer, id) is Some
    }

    pub open spec fn file(self, peer: Seq<u8>, id: u64) -> FileModel {
        self.files[find_file(self.files, peer, id)->0]
    }

    pub open spec fn add_file(self, peer: Seq<u8>, id: u64) -> EngineModel {
        if self.has_file(peer, id) {
            self
        } else {
            EngineModel { files: self.files.push(fresh_file(peer, id)), ..self }
        }
    }

    pub open spec fn set_file(self, peer: Seq<u8>, id: u64, f: FileModel) -> EngineModel {
        EngineModel { files: self.files.update(find_file(self.files, peer, id)->0, f), ..self }
    }

    pub open spec fn drop_file(self, peer: Seq<u8>, id: u64) -> EngineModel {
        EngineModel { files: self.files.remove(find_file(self.files, peer, id)->0), ..self }
    }
}

/// What the engine keeps of one peer.
struct PeerState {
    peer: PeerKey,
    nick: String,
    ed25519_b64: String,
    identity_curve: Option<CurveKey>,
    one_time_key: Option<CurveKey>,
    session: Option<OlmSession>,
    /// A session that the peer started, with its first payload and the
    /// identity key it was made from, until the identity is stored.
    staged: Option<(OlmSession, Vec<u8>, Ghost<Seq<char>>)>,
    /// The keys that the session we started was made with.
    session_keys: Ghost<Option<(Seq<char>, Seq<char>)>>,
    /// The identity key that the session the peer started was made with.
    inbound_identity: Ghost<Option<Seq<char>>>,
    verified: bool,
    bundle_sent: bool,
    announced: bool,
    pending_out: Vec<Plain>,
}

impl View for PeerState {
    type V = PeerModel;

    closed spec fn view(&self) -> PeerModel {
        PeerModel {
            key: self.peer@,
            nick: self.nick@,
            ed25519: self.ed25519_b64@,
            identity_curve: key_text(self.identity_curve),
            one_time_key: key_text(self.one_time_key),
            has_session: self.session is Some,
            session_keys: self.session_keys@,
            inbound_identity: self.inbound_identity@,
            sealed: session_sealed(self.session),
            opened: session_opened(self.session),
            staged: staged_view(self.staged),
            verified: self.verified,
            bundle_sent: self.bundle_sent,
            announced: self.announced,
            pending: self.pending_out@.map_values(|p: Plain| p@),
        }
    }
}

impl PeerState {
    fn new(key: PeerKey) -> (r: PeerState)
        ensures
            r@ == fresh_peer(key@),
    {
        let r = PeerState {
            peer: key,
            nick: String::new(),
            ed25519_b64: String::new(),
            identity_curve: None,
            one_time_key: None,
            session: None,
            staged: None,
            session_keys: Ghost(None),
            inbound_identity: Ghost(None),
            verified: false,
            bundle_sent: false,
            announced: false,
            pending_out: Vec::new(),
        };
        assert(r@.pending =~= Seq::<PlainView>::empty());
        r
    }
}

/// An incoming transfer with its peer and identifier.
struct IncomingEntry {
    peer: PeerKey,
    id: u64,
    file: IncomingFile,
}

impl View for IncomingEntry {
    type V = FileModel;

    closed spec fn view(&self) -> FileModel {
        FileModel {
            peer: self.peer@.bytes,
            id: self.id,
            name: self.file.name_field(),
            total: self.file.total_field(),
            bytes: self.file.bytes(),
            have: self.file.coverage(),
            filled: self.file.filled(),
        }
    }
}

/// The engine: our identity, what we know of each peer, and the incoming
/// file transfers.
pub struct Engine {
    identity: Identity,
    local_peer: PeerKey,
    peers: Vec<PeerState>,
    incoming_files: Vec<IncomingEntry>,
    next_file_id: u64,
    /// The node was started (it listens) — guards against a second start.
    started: bool,
    /// The addresses to dial once listening works.
    pending_dials: Vec<String>,
}

impl View for Engine {
    type V = EngineModel;

    closed spec fn view(&self) -> EngineModel {
        EngineModel {
            local: self.local_peer@,
            nick: self.identity.nick_text(),
            ed25519: self.identity.ed25519_text(),
            curve25519: self.identity.curve25519_text(),
            peers: self.peers@.map_values(|p: PeerState| p@),
            files: self.incoming_files@.map_values(|f: IncomingEntry| f@),
            next_file_id: self.next_file_id,
            started: self.started,
            pending_dials: texts(self.pending_dials@),
        }
    }
}

/// Append an effect.
fn push_effect(out: &mut Vec<Effect>, e: Effect)
    ensures
        views(final(out)@) == views(old(out)@).push(e@),
{
    out.push(e);
    assert(views(out@) =~= views(old(out)@).push(e@));
}

/// A status message for the interface.
pub open spec fn status(text: Seq<char>) -> EffectView {
    EffectView::Emit(EventView::Status(text))
}

impl Engine {
    /// A fresh engine for the identity and our own peer identifier.
    pub fn new(identity: Identity, local_peer: PeerKey) -> (r: Engine)
        ensures
            r@.local == local_peer@,
            r@.nick == identity.nick_text(),
            r@.ed25519 == identity.ed25519_text(),
            r@.curve25519 == identity.curve25519_text(),
            r@.peers == Seq::<PeerModel>::empty(),
            r@.files == Seq::<FileModel>::empty(),
            r@.next_file_id == 1,
            !r@.started,
            r@.pending_dials == Seq::<Seq<char>>::empty(),
    {
        let r = Engine {
            identity,
            local_peer,
            peers: Vec::new(),
            incoming_files: Vec::new(),
            next_file_id: 1,
            started: false,
            pending_dials: Vec::new(),
        };
        assert(r@.peers =~= Seq::<PeerModel>::empty());
        assert(r@.files =~= Seq::<FileModel>::empty());
        assert(r@.pending_dials =~= Seq::<Seq<char>>::empty());
        r
    }

    /// Our own peer identifier.
    pub fn local_peer(&self) -> (r: &PeerKey)
        ensures
            r@ == self@.local,
    {
        &self.local_peer
    }

    /// Whether another file can get an identifier of its own.
    pub fn can_send_file(&self) -> (r: bool)
        ensures
            r == (self@.next_file_id < u64::MAX),
    {
        self.next_file_id < u64::MAX
    }

    /// The identity of the node.
    pub fn identity(&self) -> (r: &Identity)
        ensures
            r.nick_text() == self@.nick,
            r.ed25519_text() == self@.ed25519,
    {
        &self.identity
    }

    /// The position of the peer.
    fn find(&self, key: &PeerKey) -> (r: Option<usize>)
        ensures
            match r {
                Some(i) => find_peer(self@.peers, key@.bytes) == Some(i as int) && i
                    < self.peers@.len(),
                None => find_peer(self@.peers, key@.bytes) is None,
            },
    {
        let ghost ps = self@.peers;
        let mut i: usize = self.peers.len();
        assert(ps.take(i as int) =~= ps);
        while i > 0
            invariant
                i <= self.peers@.len(),
                ps == self@.peers,
                ps.len() == self.peers@.len(),
                find_peer(ps, key@.bytes) == find_peer(ps.take(i as int), key@.bytes),
            decreases i,
        {
            assert(ps[i - 1] == self.peers@[i - 1]@);
            assert(ps.take(i as int).drop_last() =~= ps.take(i - 1));
            if self.peers[i - 1].peer.same(key) {
                return Some(i - 1);
            }
            i = i - 1;
        }
        None
    }
}


proof fn lemma_find_peer_update(ps: Seq<PeerModel>, i: int, p: PeerModel, id: Seq<u8>)
    requires
        0 <= i < ps.len(),
        p.key.bytes == ps[i].key.bytes,
    ensures
        find_peer(ps.update(i, p), id) == find_peer(ps, id),
    decreases ps.len(),
{
    if i < ps.len() - 1 {
        assert(ps.update(i, p).drop_last() =~= ps.drop_last().update(i, p));
        lemma_find_peer_update(ps.drop_last(), i, p, id);
    } else {
        assert(ps.update(i, p).drop_last() =~= ps.drop_last());
    }
}

proof fn lemma_find_peer_bound(ps: Seq<PeerModel>, id: Seq<u8>)
    ensures
        find_peer(ps, id) matches Some(i) ==> 0 <= i < ps.len() && ps[i].key.bytes == id,
    decreases ps.len(),
{
    if ps.len() > 0 {
        lemma_find_peer_bound(ps.drop_last(), id);
    }
}

/// The message when listening failed.
pub open spec fn listen_failed_text(port: u16, reason: Seq<char>) -> Seq<char> {
    "не удалось начать слушать на порту "@ + decimal(port as nat) + ": "@ + reason
}

/// The message that shows our fingerprint and nickname once the node runs.
pub open spec fn fingerprint_status_text(ed25519: Seq<char>, nick: Seq<char>) -> Seq<char> {
    "ваш fingerprint: "@ + fingerprint_text(ed25519) + " (ник: "@ + nick + ")"@
}

/// The effect for one address to dial: the dial itself, or a message when
/// the address cannot be read.
pub open spec fn dial_effect(addr: Seq<char>, announce: bool) -> EffectView {
    match parse_dial_spec(addr) {
        Ok(t) => EffectView::Dial { addr, target: t, announce },
        Err(e) => status("неверный адрес "@ + addr + ": "@ + dial_error_text(e)),
    }
}

/// The effects for dialing each address in turn.
pub open spec fn dial_effects(addrs: Seq<Seq<char>>) -> Seq<EffectView> {
    addrs.map_values(|a: Seq<char>| dial_effect(a, false))
}

/// Starting the node: once only; it sets the nickname (an empty one is
/// ignored), keeps the addresses to dial and asks to listen.
pub open spec fn start_step(m: EngineModel, nick: Seq<char>, port: u16, dials: Seq<Seq<char>>) -> (
    EngineModel,
    Seq<EffectView>,
) {
    if m.started {
        (m, seq![])
    } else {
        (
            EngineModel {
                started: true,
                nick: if nick.len() == 0 {
                    m.nick
                } else {
                    nick
                },
                pending_dials: dials,
                ..m
            },
            seq![EffectView::Listen { port }],
        )
    }
}

/// After trying to listen: on failure a message and nothing dialed; on
/// success each kept address is dialed, discovery restarts, and the user is
/// shown the fingerprint.
pub open spec fn listen_step(m: EngineModel, port: u16, failure: Option<Seq<char>>) -> (
    EngineModel,
    Seq<EffectView>,
) {
    let m2 = EngineModel { pending_dials: seq![], ..m };
    match failure {
        Some(reason) => (m2, seq![status(listen_failed_text(port, reason))]),
        None => (
            m2,
            dial_effects(m.pending_dials) + seq![
                EffectView::RestartDiscovery,
                status(fingerprint_status_text(m.ed25519, m.nick)),
            ],
        ),
    }
}

/// Marking a known peer as trusted.
pub open spec fn verify_step(m: EngineModel, id: Seq<u8>) -> (EngineModel, Seq<EffectView>) {
    if m.knows(id) {
        let p = m.peer(id);
        (
            m.set_peer(id, PeerModel { verified: true, ..p }),
            seq![status("пир "@ + p.nick + " помечен доверенным"@)],
        )
    } else {
        (m, seq![])
    }
}

/// The last connection to a peer closed (`remaining == 0`): it is offline.
pub open spec fn closed_step(m: EngineModel, key: PeerKeyView, remaining: u32) -> (
    EngineModel,
    Seq<EffectView>,
) {
    if remaining == 0 {
        (
            m.add_peer(key),
            seq![EffectView::Emit(EventView::PeerPresence { peer: key, presence: Presence::Offline })],
        )
    } else {
        (m, seq![])
    }
}

/// Our full listening address, with our peer identifier.
pub open spec fn listening_text(addr: Seq<char>, local: PeerKeyView) -> Seq<char> {
    addr + "/p2p/"@ + local.text
}

impl Engine {
    /// Make sure the peer is known; return its position.
    fn ensure_peer(&mut self, key: &PeerKey) -> (i: usize)
        ensures
            final(self)@ == old(self)@.add_peer(key@),
            find_peer(final(self)@.peers, key@.bytes) == Some(i as int),
            i < final(self).peers@.len(),
            final(self)@.peer(key@.bytes).key.bytes == key@.bytes,
    {
        match self.find(key) {
            Some(i) => {
                proof {
                    lemma_find_peer_bound(self@.peers, key@.bytes);
                }
                i
            },
            None => {
                let ghost old_peers = self@.peers;
                self.peers.push(PeerState::new(key.copy()));
                proof {
                    assert(self@.peers =~= old_peers.push(fresh_peer(key@)));
                    assert(self@.peers.drop_last() =~= old_peers);
                }
                self.peers.len() - 1
            },
        }
    }

    /// Start the node: listen, then dial. Only the first call does anything.
    pub fn start(&mut self, nick: String, port: u16, dials: Vec<String>) -> (r: Vec<Effect>)
        ensures
            (final(self)@, views(r@)) == start_step(old(self)@, nick@, port, texts(dials@)),
    {
        let mut out: Vec<Effect> = Vec::new();
        if self.started {
            assert(views(out@) =~= seq![]);
            return out;
        }
        self.started = true;
        self.identity.set_nick(nick);
        self.pending_dials = dials;
        push_effect(&mut out, Effect::Listen { port });
        assert(views(out@) =~= seq![EffectView::Listen { port }]);
        out
    }

    /// What came of listening: `failure` holds the reason when it failed.
    pub fn listen_result(&mut self, port: u16, failure: Option<String>) -> (r: Vec<Effect>)
        ensures
            (final(self)@, views(r@)) == listen_step(
                old(self)@,
                port,
                match failure {
                    Some(f) => Some(f@),
                    None => None,
                },
            ),
    {
        let mut out: Vec<Effect> = Vec::new();
        let mut dials: Vec<String> = Vec::new();
        std::mem::swap(&mut dials, &mut self.pending_dials);
        assert(texts(self.pending_dials@) =~= seq![]);
        match failure {
            Some(reason) => {
                let mut msg = "не удалось начать слушать на порту ".to_string();
                msg.append(decimal_string(port as u64).as_str());
                msg.append(": ");
                msg.append(reason.as_str());
                push_effect(&mut out, Effect::Emit(AppEvent::Status(msg)));
                assert(views(out@) =~= seq![status(listen_failed_text(port, reason@))]);
                out
            },
            None => {
                let n = dials.len();
                let mut k: usize = 0;
                while k < n
                    invariant
                        n == dials@.len(),
                        k <= n,
                        views(out@) =~= dial_effects(texts(dials@).take(k as int)),
                    decreases n - k,
                {
                    let e = Self::dial_target(dials[k].as_str(), false);
                    push_effect(&mut out, e);
                    proof {
                        assert(texts(dials@).take(k + 1) =~= texts(dials@).take(k as int).push(
                            dials@[k as int]@,
                        ));
                        assert(dial_effects(texts(dials@).take(k + 1)) =~= dial_effects(
                            texts(dials@).take(k as int),
                        ).push(dial_effect(dials@[k as int]@, false)));
                    }
                    k = k + 1;
                }
                assert(texts(dials@).take(n as int) =~= texts(dials@));
                push_effect(&mut out, Effect::RestartDiscovery);
                let mut msg = "ваш fingerprint: ".to_string();
                msg.append(self.identity.fingerprint().as_str());
                msg.append(" (ник: ");
                msg.append(self.identity.nick());
                msg.append(")");
                push_effect(&mut out, Effect::Emit(AppEvent::Status(msg)));
                assert(views(out@) =~= dial_effects(texts(dials@)) + seq![
                    EffectView::RestartDiscovery,
                    status(fingerprint_status_text(self@.ed25519, self@.nick)),
                ]);
                out
            },
        }
    }

    /// The effect for dialing one address.
    fn dial_target(addr: &str, announce: bool) -> (r: Effect)
        ensures
            r@ == dial_effect(addr@, announce),
    {
        match parse_dial(addr) {
            Ok(target) => Effect::Dial { addr: addr.to_string(), target, announce },
            Err(e) => {
                let mut msg = "неверный адрес ".to_string();
                msg.append(addr);
                msg.append(": ");
                msg.append(e.message().as_str());
                Effect::Emit(AppEvent::Status(msg))
            },
        }
    }

    /// Dial an address by hand.
    pub fn dial(&self, addr: &str) -> (r: Vec<Effect>)
        ensures
            views(r@) == seq![dial_effect(addr@, true)],
    {
        let mut out: Vec<Effect> = Vec::new();
        push_effect(&mut out, Self::dial_target(addr, true));
        assert(views(out@) =~= seq![dial_effect(addr@, true)]);
        out
    }

    /// Mark a peer as trusted.
    pub fn verify_peer(&mut self, key: &PeerKey) -> (r: Vec<Effect>)
        ensures
            (final(self)@, views(r@)) == verify_step(old(self)@, key@.bytes),
    {
        let mut out: Vec<Effect> = Vec::new();
        match self.find(key) {
            Some(i) => {
                let ghost old_m = self@;
                let ghost p = old_m.peer(key@.bytes);
                proof {
                    lemma_find_peer_bound(old_m.peers, key@.bytes);
                    assert(self.peers@[i as int]@ == p);
                }
                self.peers[i].verified = true;
                let mut msg = "пир ".to_string();
                msg.append(self.peers[i].nick.as_str());
                msg.append(" помечен доверенным");
                push_effect(&mut out, Effect::Emit(AppEvent::Status(msg)));
                proof {
                    assert(self.peers@[i as int]@ == PeerModel { verified: true, ..p });
                    assert(self@.peers =~= old_m.peers.update(i as int, PeerModel { verified: true, ..p }));
                    assert(views(out@) =~= seq![status("пир "@ + p.nick + " помечен доверенным"@)]);
                }
                out
            },
            None => {
                assert(views(out@) =~= seq![]);
                out
            },
        }
    }

    /// A new listening address of ours.
    pub fn new_listen_addr(&self, addr: &str) -> (r: Vec<Effect>)
        ensures
            views(r@) == seq![
                EffectView::Emit(EventView::Listening { addr: listening_text(addr@, self@.local) }),
            ],
    {
        let mut out: Vec<Effect> = Vec::new();
        let mut full = addr.to_string();
        full.append("/p2p/");
        full.append(self.local_peer.text.as_str());
        push_effect(&mut out, Effect::Emit(AppEvent::Listening { addr: full }));
        assert(views(out@) =~= seq![
            EffectView::Emit(EventView::Listening { addr: listening_text(addr@, self@.local) }),
        ]);
        out
    }

    /// A connection to a peer closed; `remaining` connections to it are left.
    pub fn connection_closed(&mut self, key: &PeerKey, remaining: u32) -> (r: Vec<Effect>)
        ensures
            (final(self)@, views(r@)) == closed_step(old(self)@, key@, remaining),
    {
        let mut out: Vec<Effect> = Vec::new();
        if remaining == 0 {
            self.ensure_peer(key);
            push_effect(
                &mut out,
                Effect::Emit(AppEvent::PeerPresence { peer: key.copy(), presence: Presence::Offline }),
            );
            assert(views(out@) =~= seq![
                EffectView::Emit(EventView::PeerPresence { peer: key@, presence: Presence::Offline }),
            ]);
        } else {
            assert(views(out@) =~= seq![]);
        }
        out
    }

    /// Local discovery reported peers: they are dialed once the node runs.
    /// (Before the start the user has not chosen a nickname yet, and the peers
    /// would keep the default one.)
    pub fn discovered(&self) -> (r: Vec<Effect>)
        ensures
            views(r@) == (if self@.started {
                seq![EffectView::DialDiscovered]
            } else {
                seq![]
            }),
    {
        let mut out: Vec<Effect> = Vec::new();
        if self.started {
            push_effect(&mut out, Effect::DialDiscovered);
        }
        assert(views(out@) =~= (if self@.started {
            seq![EffectView::DialDiscovered]
        } else {
            seq![]
        }));
        out
    }
}


/// What came of a dial: a message with the reason when it failed; when it
/// went out and was asked by hand, a message that it is under way.
pub open spec fn dial_outcome_spec(addr: Seq<char>, announce: bool, failure: Option<Seq<char>>) -> Seq<
    EffectView,
> {
    match failure {
        Some(reason) => seq![status("не удалось набрать "@ + addr + ": "@ + reason)],
        None => if announce {
            seq![status("набираю "@ + addr + "…"@)]
        } else {
            seq![]
        },
    }
}

/// The message when a file to send cannot be read.
pub open spec fn unreadable_text(reason: Seq<char>) -> Seq<char> {
    "не удалось прочитать файл: "@ + reason
}

/// What came of saving a received file: the completed transfer with the
/// path it was saved to, or a message with the reason.
pub open spec fn saved_outcome_spec(
    key: PeerKeyView,
    name: Seq<char>,
    received: u64,
    total: u64,
    result: Result<Seq<char>, Seq<char>>,
) -> Seq<EffectView> {
    match result {
        Ok(path) => seq![
            EffectView::Emit(
                EventView::FileProgress {
                    peer: key,
                    name,
                    received,
                    total,
                    done: Some(path),
                    outgoing: false,
                },
            ),
        ],
        Err(reason) => seq![status("сохранение файла не удалось: "@ + reason)],
    }
}

/// A result of texts as values.
pub open spec fn text_result(r: Result<String, String>) -> Result<Seq<char>, Seq<char>> {
    match r {
        Ok(t) => Ok(t@),
        Err(e) => Err(e@),
    }
}

fn status_effect(msg: String) -> (r: Effect)
    ensures
        r@ == status(msg@),
{
    Effect::Emit(AppEvent::Status(msg))
}

/// What came of a dial (`failure` holds the reason when it failed).
pub fn dial_outcome(addr: &str, announce: bool, failure: Option<String>) -> (r: Vec<Effect>)
    ensures
        views(r@) == dial_outcome_spec(
            addr@,
            announce,
            match failure {
                Some(f) => Some(f@),
                None => None,
            },
        ),
{
    let mut out: Vec<Effect> = Vec::new();
    match failure {
        Some(reason) => {
            let mut msg = "не удалось набрать ".to_string();
            msg.append(addr);
            msg.append(": ");
            msg.append(reason.as_str());
            push_effect(&mut out, status_effect(msg));
        },
        None => {
            if announce {
                let mut msg = "набираю ".to_string();
                msg.append(addr);
                msg.append("…");
                push_effect(&mut out, status_effect(msg));
            }
        },
    }
    assert(views(out@) =~= dial_outcome_spec(
        addr@,
        announce,
        match failure {
            Some(f) => Some(f@),
            None => None,
        },
    ));
    out
}

/// A file to send could not be read.
pub fn file_unreadable(reason: &str) -> (r: Vec<Effect>)
    ensures
        views(r@) == seq![status(unreadable_text(reason@))],
{
    let mut out: Vec<Effect> = Vec::new();
    let mut msg = "не удалось прочитать файл: ".to_string();
    msg.append(reason);
    push_effect(&mut out, status_effect(msg));
    assert(views(out@) =~= seq![status(unreadable_text(reason@))]);
    out
}

/// What came of saving a received file.
pub fn file_saved(key: PeerKey, name: String, received: u64, total: u64, result: Result<String, String>) -> (r: Vec<
    Effect,
>)
    ensures
        views(r@) == saved_outcome_spec(key@, name@, received, total, text_result(result)),
{
    let mut out: Vec<Effect> = Vec::new();
    let ghost rv = text_result(result);
    match result {
        Ok(path) => {
            push_effect(
                &mut out,
                Effect::Emit(
                    AppEvent::FileProgress {
                        peer: key,
                        name,
                        received,
                        total,
                        done: Some(path),
                        outgoing: false,
                    },
                ),
            );
        },
        Err(reason) => {
            let mut msg = "сохранение файла не удалось: ".to_string();
            msg.append(reason.as_str());
            push_effect(&mut out, status_effect(msg));
        },
    }
    assert(views(out@) =~= saved_outcome_spec(key@, name@, received, total, rv));
    out
}

/// Payloads to encode for a peer, in order.
pub open spec fn encodes(key: PeerKeyView, ps: Seq<PlainView>) -> Seq<EffectView> {
    ps.map_values(|p: PlainView| EffectView::Encode { peer: key, plain: p })
}

/// The text of a key that reads as a Curve25519 key.
pub open spec fn parsed(text: Seq<char>) -> Option<Seq<char>> {
    if curve25519_accepts(text) {
        Some(text)
    } else {
        None
    }
}

/// The text of a held key.
pub closed spec fn key_text(k: Option<CurveKey>) -> Option<Seq<char>> {
    match k {
        Some(c) => Some(c.text()),
        None => None,
    }
}

/// What went into a held session, if any.
pub closed spec fn session_sealed(s: Option<OlmSession>) -> Seq<SealedEntry> {
    match s {
        Some(x) => x.sealed(),
        None => Seq::empty(),
    }
}

/// What came out of a held session, if any.
pub closed spec fn session_opened(s: Option<OlmSession>) -> Seq<Seq<u8>> {
    match s {
        Some(x) => x.opened(),
        None => Seq::empty(),
    }
}

/// A staged session as values.
pub closed spec fn staged_view(s: Option<(OlmSession, Vec<u8>, Ghost<Seq<char>>)>) -> Option<StagedView> {
    match s {
        Some(t) => Some(
            StagedView { from: t.2@, sealed: t.0.sealed(), opened: t.0.opened(), plaintext: t.1@ },
        ),
        None => None,
    }
}

/// The peer once we started the session with it: made with its identity key
/// and its one-time key, nothing gone through it yet, and nothing waits any
/// more.
pub open spec fn started(p: PeerModel) -> PeerModel {
    PeerModel {
        has_session: true,
        session_keys: Some((p.identity_curve->0, p.one_time_key->0)),
        sealed: Seq::empty(),
        opened: Seq::empty(),
        pending: seq![],
        ..p
    }
}

/// The peer once the session it started with us was made, from its identity
/// key `from`, with what has gone through the session so far; nothing waits
/// any more.
pub open spec fn accepted(
    p: PeerModel,
    from: Seq<char>,
    sealed: Seq<SealedEntry>,
    opened: Seq<Seq<u8>>,
) -> PeerModel {
    PeerModel {
        has_session: true,
        inbound_identity: Some(from),
        sealed,
        opened,
        staged: None,
        pending: seq![],
        ..p
    }
}

/// Starting the session with a peer: only the side with the smaller peer
/// identifier starts it, once it has the peer's identity key and one-time
/// key. The first payload is a greeting with our nickname; the waiting
/// payloads follow in order.
pub open spec fn initiate_step(m: EngineModel, id: Seq<u8>) -> (EngineModel, Seq<EffectView>) {
    if m.knows(id) && peer_order(m.local.bytes, id) {
        let p = m.peer(id);
        if !p.has_session && p.identity_curve is Some && p.one_time_key is Some {
            (
                m.set_peer(id, started(p)),
                seq![EffectView::Encode { peer: p.key, plain: PlainView::Hello { nick: m.nick } }]
                    + encodes(p.key, p.pending),
            )
        } else {
            (m, seq![])
        }
    } else {
        (m, seq![])
    }
}

/// Sending a payload: at once when the session is there, otherwise it
/// waits in the peer's queue (and the session may start now).
pub open spec fn queue_step(m: EngineModel, key: PeerKeyView, plain: PlainView) -> (
    EngineModel,
    Seq<EffectView>,
) {
    if m.knows(key.bytes) && m.peer(key.bytes).has_session {
        (m, seq![EffectView::Encode { peer: m.peer(key.bytes).key, plain }])
    } else {
        let m1 = m.add_peer(key);
        let p = m1.peer(key.bytes);
        initiate_step(m1.set_peer(key.bytes, PeerModel { pending: p.pending.push(plain), ..p }), key.bytes)
    }
}

/// The effect sends our key bundle to the peer: our long-term key, our
/// identity key, a fresh one-time key and our nickname.
pub open spec fn is_bundle_for(e: EffectView, key: PeerKeyView, m: EngineModel) -> bool {
    e matches EffectView::Send {
        peer,
        msg: WireView::KeyBundle { ed25519, curve25519, nick, .. },
    } && peer == key && ed25519 == m.ed25519 && curve25519 == m.curve25519 && nick == m.nick
}

/// The bytes store the engine's identity: they read back as an account with
/// its keys.
pub open spec fn stores_identity(b: Seq<u8>, m: EngineModel) -> bool {
    pickle_decodes(b) && stored_keys(b) == (m.ed25519, m.curve25519)
}

/// The effect stores the identity again, with bytes that hold its keys when
/// they could be encoded.
pub open spec fn is_store_for(e: EffectView, m: EngineModel) -> bool {
    e matches EffectView::StoreIdentity { stored } && (stored matches Some(b) ==> stores_identity(
        b,
        m,
    ))
}

/// Sending our key bundle to a peer, once: a fresh one-time key is made
/// (and the identity stored again), the bundle goes out, the peer is marked.
pub open spec fn bundle_post(m: EngineModel, m2: EngineModel, e: Seq<EffectView>, key: PeerKeyView) -> bool {
    let m1 = m.add_peer(key);
    let p = m1.peer(key.bytes);
    if p.bundle_sent {
        m2 == m1 && e == Seq::<EffectView>::empty()
    } else {
        &&& m2 == m1.set_peer(key.bytes, PeerModel { bundle_sent: true, ..p })
        &&& e.len() == 2
        &&& is_store_for(e[0], m)
        &&& is_bundle_for(e[1], key, m)
    }
}

/// A connection to the peer was established: it is online, and it gets our
/// key bundle (once).
pub open spec fn connected_post(m: EngineModel, m2: EngineModel, e: Seq<EffectView>, key: PeerKeyView) -> bool {
    &&& e.len() >= 1
    &&& e[0] == EffectView::Emit(EventView::PeerPresence { peer: key, presence: Presence::Online })
    &&& bundle_post(m.add_peer(key), m2, e.skip(1), key)
}

/// A key bundle from a peer: its nickname and keys are kept, the interface
/// hears of the peer the first time, and the session may start.
pub open spec fn key_bundle_step(
    m: EngineModel,
    key: PeerKeyView,
    ed25519: Seq<char>,
    curve25519: Seq<char>,
    one_time_key: Seq<char>,
    nick: Seq<char>,
) -> (EngineModel, Seq<EffectView>) {
    let m1 = m.add_peer(key);
    let p = m1.peer(key.bytes);
    let p2 = PeerModel {
        nick,
        ed25519,
        identity_curve: parsed(curve25519),
        one_time_key: parsed(one_time_key),
        announced: true,
        ..p
    };
    let e1 = if p.announced {
        seq![]
    } else {
        seq![
            EffectView::Emit(
                EventView::PeerDiscovered { peer: key, nick, fingerprint: fingerprint_text(ed25519) },
            ),
        ]
    };
    let r = initiate_step(m1.set_peer(key.bytes, p2), key.bytes);
    (r.0, e1 + r.1)
}

/// An encoded payload for a peer: when the session is there, exactly these
/// bytes are encrypted through it (its record gains them with the message
/// they became) and that message goes out; otherwise they are dropped.
pub open spec fn encoded_post(
    m: EngineModel,
    m2: EngineModel,
    e: Seq<EffectView>,
    key: PeerKeyView,
    bytes: Seq<u8>,
) -> bool {
    if m.knows(key.bytes) && m.peer(key.bytes).has_session {
        let p = m.peer(key.bytes);
        let s = m2.peer(key.bytes).sealed.last();
        &&& m2 == m.set_peer(key.bytes, PeerModel { sealed: p.sealed.push(s), ..p })
        &&& s.0 == bytes
        &&& s.1 < 2
        &&& s.2.len() > bytes.len()
        &&& e == seq![EffectView::Send { peer: key, msg: WireView::Encrypted { ty: s.1, body: s.2 } }]
    } else {
        &&& m2 == m
        &&& e == Seq::<EffectView>::empty()
    }
}

/// The model with the queue of the peer at position `i` emptied.
pub open spec fn without_pending(m: EngineModel, i: int) -> EngineModel {
    EngineModel { peers: m.peers.update(i, PeerModel { pending: seq![], ..m.peers[i] }), ..m }
}

proof fn lemma_set_add(m: EngineModel, key: PeerKeyView)
    ensures
        m.add_peer(key).knows(key.bytes),
        m.add_peer(key).peer(key.bytes).key.bytes == key.bytes,
        m.knows(key.bytes) ==> m.add_peer(key) == m,
{
    lemma_find_peer_bound(m.peers, key.bytes);
    if !m.knows(key.bytes) {
        assert(m.peers.push(fresh_peer(key)).drop_last() =~= m.peers);
    }
}

impl Engine {
    /// Hand the waiting payloads of peer `i` over for encoding, in order.
    fn flush_pending(&mut self, i: usize, out: &mut Vec<Effect>)
        requires
            i < old(self).peers@.len(),
        ensures
            final(self)@ == without_pending(old(self)@, i as int),
            views(final(out)@) == views(old(out)@) + encodes(
                old(self)@.peers[i as int].key,
                old(self)@.peers[i as int].pending,
            ),
    {
        let ghost m = self@;
        let ghost p = m.peers[i as int];
        let mut pending: Vec<Plain> = Vec::new();
        std::mem::swap(&mut pending, &mut self.peers[i].pending_out);
        let ghost orig = pending@.map_values(|x: Plain| x@);
        assert(orig == p.pending);
        proof {
            assert(self.peers@[i as int].pending_out@.map_values(|x: Plain| x@) =~= Seq::<PlainView>::empty());
            assert(self.peers@[i as int]@ == PeerModel { pending: seq![], ..p });
            assert(self@.peers =~= m.peers.update(i as int, PeerModel { pending: seq![], ..p }));
        }
        let ghost out0 = views(out@);
        let n_items = pending.len();
        let ghost n = pending@.len();
        let mut k: usize = 0;
        assert(orig.skip(0) =~= orig);
        assert(out0 + encodes(p.key, orig.take(0)) =~= out0);
        while pending.len() > 0
            invariant
                i < self.peers@.len(),
                self@ == without_pending(m, i as int),
                self.peers@[i as int].peer@ == p.key,
                n == orig.len(),
                n <= usize::MAX,
                k + pending@.len() == n,
                pending@.map_values(|x: Plain| x@) == orig.skip(k as int),
                views(out@) == out0 + encodes(p.key, orig.take(k as int)),
            decreases pending@.len(),
        {
            let ghost before = pending@;
            let plain = pending.remove(0);
            proof {
                assert(before.map_values(|x: Plain| x@)[0] == plain@);
                assert(orig.skip(k as int)[0] == plain@);
                let pm = pending@.map_values(|x: Plain| x@);
                let bm = before.map_values(|x: Plain| x@);
                assert forall|j: int| 0 <= j < pm.len() implies #[trigger] pm[j] == orig.skip(k + 1)[j] by {
                    assert(pending@[j] == before[j + 1]);
                    assert(bm[j + 1] == orig.skip(k as int)[j + 1]);
                }
                assert(pending@.map_values(|x: Plain| x@) =~= orig.skip(k + 1));
                assert(orig.take(k + 1) =~= orig.take(k as int).push(plain@));
                assert(encodes(p.key, orig.take(k + 1)) =~= encodes(p.key, orig.take(k as int)).push(
                    EffectView::Encode { peer: p.key, plain: plain@ },
                ));
            }
            let key = self.peers[i].peer.copy();
            push_effect(out, Effect::Encode { peer: key, plain });
            k = k + 1;
        }
        assert(orig.take(k as int) =~= orig);
    }

    /// Start the session with the peer if we are the side that starts it and
    /// its keys are there.
    fn maybe_initiate(&mut self, key: &PeerKey, out: &mut Vec<Effect>)
        ensures
            final(self)@ == initiate_step(old(self)@, key@.bytes).0,
            one_first(old(self)@.local.bytes, key@.bytes),
            views(final(out)@) == views(old(out)@) + initiate_step(old(self)@, key@.bytes).1,
    {
        let ghost m = self@;
        let we_initiate = peer_precedes(self.local_peer.bytes.as_slice(), key.bytes.as_slice());
        let i = match self.find(key) {
            Some(i) => i,
            None => {
                assert(views(out@) =~= views(out@) + seq![]);
                return;
            },
        };
        proof {
            lemma_find_peer_bound(m.peers, key@.bytes);
        }
        let ghost p = m.peer(key@.bytes);
        assert(self.peers@[i as int]@ == p);
        if !we_initiate || self.peers[i].session.is_some() {
            assert(views(out@) =~= views(out@) + seq![]);
            return;
        }
        let identity_curve = match &self.peers[i].identity_curve {
            Some(k) => *k,
            None => {
                assert(views(out@) =~= views(out@) + seq![]);
                return;
            },
        };
        let one_time_key = match &self.peers[i].one_time_key {
            Some(k) => *k,
            None => {
                assert(views(out@) =~= views(out@) + seq![]);
                return;
            },
        };
        let (session, used) = self.identity.create_outbound(&identity_curve, &one_time_key);
        self.peers[i].session = Some(session);
        self.peers[i].session_keys = Ghost(Some(used@));
        let ghost p1 = PeerModel { pending: p.pending, ..started(p) };
        proof {
            assert(self.peers@[i as int]@ == p1);
            assert(self@.peers =~= m.peers.update(i as int, p1));
        }
        let hello = Plain::Hello { nick: self.identity.nick().to_string() };
        let peer_key = self.peers[i].peer.copy();
        push_effect(out, Effect::Encode { peer: peer_key, plain: hello });
        let ghost mid = views(out@);
        self.flush_pending(i, out);
        proof {
            assert(self@.peers =~= m.peers.update(i as int, started(p)));
            assert(views(out@) =~= views(old(out)@) + (seq![
                EffectView::Encode { peer: p.key, plain: PlainView::Hello { nick: m.nick } },
            ] + encodes(p.key, p.pending)));
        }
    }

    /// Send a payload to the peer, or keep it until the session exists.
    fn queue_out(&mut self, key: &PeerKey, plain: Plain, out: &mut Vec<Effect>)
        ensures
            final(self)@ == queue_step(old(self)@, key@, plain@).0,
            views(final(out)@) == views(old(out)@) + queue_step(old(self)@, key@, plain@).1,
    {
        let ghost m = self@;
        match self.find(key) {
            Some(i) => {
                proof {
                    lemma_find_peer_bound(m.peers, key@.bytes);
                }
                assert(self.peers@[i as int]@ == m.peer(key@.bytes));
                if self.peers[i].session.is_some() {
                    let peer_key = self.peers[i].peer.copy();
                    let ghost pv = plain@;
                    push_effect(out, Effect::Encode { peer: peer_key, plain });
                    assert(views(out@) =~= views(old(out)@) + seq![
                        EffectView::Encode { peer: m.peer(key@.bytes).key, plain: pv },
                    ]);
                    return;
                }
            },
            None => {},
        }
        let i = self.ensure_peer(key);
        let ghost m1 = self@;
        let ghost p = m1.peer(key@.bytes);
        proof {
            lemma_set_add(m, key@);
        }
        assert(self.peers@[i as int]@ == p);
        let ghost pv = plain@;
        self.peers[i].pending_out.push(plain);
        proof {
            assert(self.peers@[i as int]@.pending =~= p.pending.push(pv));
            assert(self.peers@[i as int]@ == PeerModel { pending: p.pending.push(pv), ..p });
            assert(self@.peers =~= m1.peers.update(i as int, PeerModel { pending: p.pending.push(pv), ..p }));
            lemma_find_peer_update(m1.peers, i as int, PeerModel { pending: p.pending.push(pv), ..p }, key@.bytes);
        }
        self.maybe_initiate(key, out);
    }

    /// Send our key bundle to the peer, once.
    fn send_bundle(&mut self, key: &PeerKey, out: &mut Vec<Effect>)
        ensures
            bundle_post(old(self)@, final(self)@, views(final(out)@).skip(old(out)@.len() as int), key@),
            views(final(out)@).take(old(out)@.len() as int) == views(old(out)@),
            final(out)@.len() >= old(out)@.len(),
    {
        let ghost m = self@;
        let ghost out0 = views(out@);
        let i = self.ensure_peer(key);
        let ghost m1 = self@;
        let ghost p = m1.peer(key@.bytes);
        proof {
            lemma_set_add(m, key@);
        }
        assert(self.peers@[i as int]@ == p);
        if self.peers[i].bundle_sent {
            assert(views(out@).skip(out0.len() as int) =~= Seq::<EffectView>::empty());
            assert(views(out@).take(out0.len() as int) =~= out0);
            return;
        }
        let (otk, stored) = self.identity.take_one_time_key();
        push_effect(out, Effect::StoreIdentity { stored });
        let bundle = WireMsg::KeyBundle {
            ed25519: self.identity.identity_ed_base64(),
            curve25519: self.identity.identity_curve_base64(),
            one_time_key: curve25519_base64(&otk),
            nick: self.identity.nick().to_string(),
        };
        push_effect(out, Effect::Send { peer: key.copy(), msg: bundle });
        self.peers[i].bundle_sent = true;
        proof {
            assert(self.peers@[i as int]@ == PeerModel { bundle_sent: true, ..p });
            assert(self@.peers =~= m1.peers.update(i as int, PeerModel { bundle_sent: true, ..p }));
            assert(views(out@).take(out0.len() as int) =~= out0);
            let e = views(out@).skip(out0.len() as int);
            assert(e.len() == 2);
            assert(e[0] == views(out@)[out0.len() as int]);
            assert(e[1] == views(out@)[out0.len() + 1int]);
        }
    }

    /// A connection to the peer was established.
    pub fn connection_established(&mut self, key: &PeerKey) -> (r: Vec<Effect>)
        ensures
            connected_post(old(self)@, final(self)@, views(r@), key@),
    {
        let mut out: Vec<Effect> = Vec::new();
        self.ensure_peer(key);
        push_effect(
            &mut out,
            Effect::Emit(AppEvent::PeerPresence { peer: key.copy(), presence: Presence::Online }),
        );
        let ghost e0 = views(out@);
        assert(e0 =~= seq![
            EffectView::Emit(EventView::PeerPresence { peer: key@, presence: Presence::Online }),
        ]);
        self.send_bundle(key, &mut out);
        proof {
            lemma_set_add(old(self)@, key@);
            assert(views(out@).take(1)[0] == views(out@)[0]);
        }
        out
    }

    /// Send a text message to the peer.
    pub fn send_text(&mut self, key: &PeerKey, text: String) -> (r: Vec<Effect>)
        ensures
            final(self)@ == queue_step(old(self)@, key@, PlainView::Text(text@)).0,
            views(r@) == queue_step(old(self)@, key@, PlainView::Text(text@)).1,
    {
        let mut out: Vec<Effect> = Vec::new();
        self.queue_out(key, Plain::Text(text), &mut out);
        assert(views(out@) =~= seq![] + queue_step(old(self)@, key@, PlainView::Text(text@)).1);
        out
    }

    /// A key bundle arrived from the peer.
    pub fn key_bundle(
        &mut self,
        key: &PeerKey,
        ed25519: String,
        curve25519: String,
        one_time_key: String,
        nick: String,
    ) -> (r: Vec<Effect>)
        ensures
            (final(self)@, views(r@)) == key_bundle_step(
                old(self)@,
                key@,
                ed25519@,
                curve25519@,
                one_time_key@,
                nick@,
            ),
            one_first(old(self)@.local.bytes, key@.bytes),
    {
        let ghost m = self@;
        let identity_curve = CurveKey::parse(curve25519.as_str());
        let otk = CurveKey::parse(one_time_key.as_str());
        let i = self.ensure_peer(key);
        let ghost m1 = self@;
        let ghost p = m1.peer(key@.bytes);
        proof {
            lemma_set_add(m, key@);
        }
        assert(self.peers@[i as int]@ == p);
        let fingerprint = fingerprint_of(ed25519.as_str());
        let ghost nick_v = nick@;
        let ghost ed_v = ed25519@;
        let shown_nick = nick.clone();
        self.peers[i].nick = nick;
        self.peers[i].ed25519_b64 = ed25519;
        self.peers[i].identity_curve = identity_curve;
        self.peers[i].one_time_key = otk;
        let announced = self.peers[i].announced;
        self.peers[i].announced = true;
        let ghost p2 = PeerModel {
            nick: nick_v,
            ed25519: ed_v,
            identity_curve: parsed(curve25519@),
            one_time_key: parsed(one_time_key@),
            announced: true,
            ..p
        };
        proof {
            assert(self.peers@[i as int]@ == p2);
            assert(self@.peers =~= m1.peers.update(i as int, p2));
            lemma_find_peer_update(m1.peers, i as int, p2, key@.bytes);
        }
        let mut out: Vec<Effect> = Vec::new();
        if !announced {
            push_effect(
                &mut out,
                Effect::Emit(
                    AppEvent::PeerDiscovered { peer: key.copy(), nick: shown_nick, fingerprint },
                ),
            );
        }
        let ghost e1 = views(out@);
        assert(e1 =~= (if p.announced {
            seq![]
        } else {
            seq![
                EffectView::Emit(
                    EventView::PeerDiscovered { peer: key@, nick: nick_v, fingerprint: fingerprint_text(ed_v) },
                ),
            ]
        }));
        self.maybe_initiate(key, &mut out);
        out
    }

    /// The encoded bytes of a payload for the peer: encrypt and send them.
    pub fn encoded(&mut self, key: &PeerKey, bytes: &[u8]) -> (r: Vec<Effect>)
        ensures
            encoded_post(old(self)@, final(self)@, views(r@), key@, bytes@),
    {
        let ghost m = self@;
        let mut out: Vec<Effect> = Vec::new();
        let i = match self.find(key) {
            Some(i) => i,
            None => {
                assert(views(out@) =~= Seq::<EffectView>::empty());
                return out;
            },
        };
        proof {
            lemma_find_peer_bound(m.peers, key@.bytes);
        }
        assert(self.peers@[i as int]@ == m.peer(key@.bytes));
        let ghost p = m.peer(key@.bytes);
        if self.peers[i].session.is_none() {
            assert(views(out@) =~= Seq::<EffectView>::empty());
            return out;
        }
        let sealed = match &mut self.peers[i].session {
            Some(session) => seal(session, bytes),
            None => {
                assert(false);
                return out;
            },
        };
        let (ty, body) = sealed;
        let ghost p2 = PeerModel { sealed: p.sealed.push((bytes@, ty, body@)), ..p };
        proof {
            assert(self.peers@[i as int]@ == p2);
            assert(self@.peers =~= m.peers.update(i as int, p2));
            lemma_set_peer(m, key@.bytes, p2);
            assert(self@ == m.set_peer(key@.bytes, p2));
            assert(self@.peer(key@.bytes).sealed.last() == (bytes@, ty, body@));
        }
        let ghost bv = body@;
        push_effect(&mut out, Effect::Send { peer: key.copy(), msg: WireMsg::Encrypted { ty, body } });
        assert(views(out@) =~= seq![
            EffectView::Send { peer: key@, msg: WireView::Encrypted { ty, body: bv } },
        ]);
        out
    }
}


/// The effect hands decrypted bytes from the peer over for decoding.
pub open spec fn is_decode_for(e: EffectView, key: PeerKeyView) -> bool {
    e matches EffectView::Decode { peer, .. } && peer == key
}

/// An encrypted payload from the peer. With a session it is decrypted (and,
/// when that works, what came out of the session is handed over for
/// decoding). Without one, a pre-key message from a peer whose identity key
/// we have may create the session: it is kept back, with its first payload,
/// until the identity is stored again (see `stored_step`). Whether decryption
/// and session creation succeed depends on the keys, so both outcomes are
/// allowed there.
pub open spec fn encrypted_post(
    m: EngineModel,
    m2: EngineModel,
    e: Seq<EffectView>,
    key: PeerKeyView,
    ty: u8,
    body: Seq<u8>,
) -> bool {
    let id = key.bytes;
    if m.knows(id) && m.peer(id).has_session {
        let p = m.peer(id);
        ||| (m2 == m && e == Seq::<EffectView>::empty())
        ||| {
            &&& e.len() == 1
            &&& e[0] matches EffectView::Decode { peer, bytes } && peer == key && m2 == m.set_peer(
                id,
                PeerModel { opened: p.opened.push(bytes), ..p },
            )
        }
    } else if !(ty == 0 && olm_decodes(ty as nat, body) && m.knows(id)
        && m.peer(id).identity_curve is Some) {
        m2 == m && e == Seq::<EffectView>::empty()
    } else {
        let p = m.peer(id);
        ||| (m2 == m && e == Seq::<EffectView>::empty())
        ||| {
            let st = m2.peer(id).staged->0;
            &&& m2 == m.set_peer(id, PeerModel { staged: Some(st), ..p })
            &&& st.from == p.identity_curve->0
            &&& st.sealed == Seq::<SealedEntry>::empty()
            &&& st.opened == seq![st.plaintext]
            &&& e.len() == 1
            &&& e[0] matches EffectView::StoreForSession { peer, identity } && peer == key
                && stores_identity(identity, m)
        }
    }
}

/// The name shown for an incoming transfer.
pub open spec fn shown_name(f: FileModel) -> Seq<char> {
    match f.name {
        Some(n) => n,
        None => "file"@,
    }
}

/// The size shown for an incoming transfer: the announced one, or what came.
pub open spec fn shown_total(f: FileModel) -> u64 {
    match f.total {
        Some(t) => t,
        None => f.filled,
    }
}

/// The size is known and every byte of it came.
pub open spec fn is_complete(f: FileModel) -> bool {
    f.total matches Some(t) && covers(f.have, t as int)
}

/// After a change to the transfer `(peer, id)`: a complete transfer is saved
/// and forgotten; otherwise the interface hears of the progress. Without such
/// a transfer nothing happens.
pub open spec fn finalize_step(m: EngineModel, key: PeerKeyView, id: u64) -> (
    EngineModel,
    Seq<EffectView>,
) {
    if !m.has_file(key.bytes, id) {
        (m, seq![])
    } else {
        let f = m.file(key.bytes, id);
        if is_complete(f) {
            (
                m.drop_file(key.bytes, id),
                seq![
                    EffectView::SaveFile {
                        peer: key,
                        name: shown_name(f),
                        data: f.bytes,
                        received: f.filled,
                        total: shown_total(f),
                    },
                ],
            )
        } else {
            (
                m,
                seq![
                    EffectView::Emit(
                        EventView::FileProgress {
                            peer: key,
                            name: shown_name(f),
                            received: f.filled,
                            total: shown_total(f),
                            done: None,
                            outgoing: false,
                        },
                    ),
                ],
            )
        }
    }
}

/// The transfer `(peer, id)` as it stands, or a fresh one.
pub open spec fn file_or_fresh(m: EngineModel, peer: Seq<u8>, id: u64) -> FileModel {
    if m.has_file(peer, id) {
        m.file(peer, id)
    } else {
        fresh_file(peer, id)
    }
}

/// A chunk can be taken without overflow (anything else always can).
pub open spec fn plain_fits(m: EngineModel, key: PeerKeyView, plain: PlainView) -> bool {
    match plain {
        PlainView::FileChunk { id, offset, data, .. } => {
            &&& offset + data.len() <= usize::MAX
            &&& file_or_fresh(m, key.bytes, id).filled + data.len() <= u64::MAX
        },
        _ => true,
    }
}

/// A decrypted payload from the peer.
pub open spec fn plain_step(m: EngineModel, key: PeerKeyView, plain: PlainView) -> (
    EngineModel,
    Seq<EffectView>,
) {
    match plain {
        PlainView::Hello { nick } => if m.knows(key.bytes) && nick.len() > 0 {
            (m.set_peer(key.bytes, PeerModel { nick, ..m.peer(key.bytes) }), seq![])
        } else {
            (m, seq![])
        },
        PlainView::Text(text) => (
            m,
            seq![EffectView::Emit(EventView::MessageReceived { peer: key, text })],
        ),
        PlainView::FileOffer { id, name, size } => {
            let m1 = m.add_file(key.bytes, id);
            let f = m1.file(key.bytes, id);
            finalize_step(
                m1.set_file(key.bytes, id, FileModel { name: Some(name), total: Some(size), ..f }),
                key,
                id,
            )
        },
        PlainView::FileChunk { id, offset, total, data } => {
            let m1 = m.add_file(key.bytes, id);
            let f = m1.file(key.bytes, id);
            finalize_step(
                m1.set_file(
                    key.bytes,
                    id,
                    FileModel {
                        total: Some(total),
                        bytes: write_at(f.bytes, offset as int, data),
                        have: mark_range(f.have, offset as int, offset + data.len()),
                        filled: (f.filled + data.len()) as u64,
                        ..f
                    },
                ),
                key,
                id,
            )
        },
    }
}

proof fn lemma_find_file_bound(fs: Seq<FileModel>, peer: Seq<u8>, id: u64)
    ensures
        find_file(fs, peer, id) matches Some(i) ==> 0 <= i < fs.len() && fs[i].peer == peer
            && fs[i].id == id,
    decreases fs.len(),
{
    if fs.len() > 0 {
        lemma_find_file_bound(fs.drop_last(), peer, id);
    }
}

proof fn lemma_find_file_update(fs: Seq<FileModel>, i: int, f: FileModel, peer: Seq<u8>, id: u64)
    requires
        0 <= i < fs.len(),
        f.peer == fs[i].peer,
        f.id == fs[i].id,
    ensures
        find_file(fs.update(i, f), peer, id) == find_file(fs, peer, id),
    decreases fs.len(),
{
    if i < fs.len() - 1 {
        assert(fs.update(i, f).drop_last() =~= fs.drop_last().update(i, f));
        lemma_find_file_update(fs.drop_last(), i, f, peer, id);
    } else {
        assert(fs.update(i, f).drop_last() =~= fs.drop_last());
    }
}

impl Engine {
    /// The position of the transfer `(peer, id)`.
    fn find_file(&self, key: &PeerKey, id: u64) -> (r: Option<usize>)
        ensures
            match r {
                Some(i) => find_file(self@.files, key@.bytes, id) == Some(i as int) && i
                    < self.incoming_files@.len(),
                None => find_file(self@.files, key@.bytes, id) is None,
            },
    {
        let ghost fs = self@.files;
        let mut i: usize = self.incoming_files.len();
        assert(fs.take(i as int) =~= fs);
        while i > 0
            invariant
                i <= self.incoming_files@.len(),
                fs == self@.files,
                fs.len() == self.incoming_files@.len(),
                find_file(fs, key@.bytes, id) == find_file(fs.take(i as int), key@.bytes, id),
            decreases i,
        {
            assert(fs[i - 1] == self.incoming_files@[i - 1]@);
            assert(fs.take(i as int).drop_last() =~= fs.take(i - 1));
            if self.incoming_files[i - 1].id == id && self.incoming_files[i - 1].peer.same(key) {
                return Some(i - 1);
            }
            i = i - 1;
        }
        None
    }

    /// Make sure the transfer `(peer, id)` exists; return its position.
    fn ensure_file(&mut self, key: &PeerKey, id: u64) -> (i: usize)
        ensures
            final(self)@ == old(self)@.add_file(key@.bytes, id),
            find_file(final(self)@.files, key@.bytes, id) == Some(i as int),
            i < final(self).incoming_files@.len(),
    {
        match self.find_file(key, id) {
            Some(i) => i,
            None => {
                let ghost old_files = self@.files;
                self.incoming_files.push(IncomingEntry { peer: key.copy(), id, file: IncomingFile::new() });
                proof {
                    assert(self@.files =~= old_files.push(fresh_file(key@.bytes, id)));
                    assert(self@.files.drop_last() =~= old_files);
                }
                self.incoming_files.len() - 1
            },
        }
    }

    /// Whether a decoded payload can be taken (a chunk must not overflow the
    /// transfer's counters).
    pub fn plain_fits(&self, key: &PeerKey, plain: &Plain) -> (r: bool)
        ensures
            r == plain_fits(self@, key@, plain@),
    {
        match plain {
            Plain::FileChunk { id, offset, data, .. } => {
                match self.find_file(key, *id) {
                    Some(i) => {
                        proof {
                            lemma_find_file_bound(self@.files, key@.bytes, *id);
                        }
                        assert(self.incoming_files@[i as int]@ == self@.file(key@.bytes, *id));
                        self.incoming_files[i].file.fits(*offset, data.len())
                    },
                    None => {
                        *offset <= usize::MAX as u64 && (data.len() as u64) <= (usize::MAX as u64)
                            - *offset
                    },
                }
            },
            _ => true,
        }
    }

    /// Save or report the transfer `(peer, id)`; nothing when there is none.
    fn finalize_or_progress(&mut self, key: &PeerKey, id: u64, out: &mut Vec<Effect>)
        ensures
            final(self)@ == finalize_step(old(self)@, key@, id).0,
            views(final(out)@) == views(old(out)@) + finalize_step(old(self)@, key@, id).1,
    {
        let ghost m = self@;
        let i = match self.find_file(key, id) {
            Some(i) => i,
            None => {
                assert(views(out@) =~= views(old(out)@) + seq![]);
                return;
            },
        };
        proof {
            lemma_find_file_bound(m.files, key@.bytes, id);
        }
        let ghost f = m.file(key@.bytes, id);
        assert(self.incoming_files@[i as int]@ == f);
        let received = self.incoming_files[i].file.received();
        let total = self.incoming_files[i].file.total();
        let name = self.incoming_files[i].file.name();
        if self.incoming_files[i].file.is_complete() {
            let entry = self.incoming_files.remove(i);
            let data = entry.file.contents().clone();
            push_effect(out, Effect::SaveFile { peer: key.copy(), name, data, received, total });
            proof {
                assert(self@.files =~= m.files.remove(i as int));
            }
        } else {
            push_effect(
                out,
                Effect::Emit(
                    AppEvent::FileProgress {
                        peer: key.copy(),
                        name,
                        received,
                        total,
                        done: None,
                        outgoing: false,
                    },
                ),
            );
        }
    }

    /// A decoded payload from the peer.
    pub fn on_plain(&mut self, key: &PeerKey, plain: Plain) -> (r: Vec<Effect>)
        requires
            plain_fits(old(self)@, key@, plain@),
        ensures
            (final(self)@, views(r@)) == plain_step(old(self)@, key@, plain@),
    {
        let ghost m = self@;
        let ghost pv = plain@;
        let mut out: Vec<Effect> = Vec::new();
        match plain {
            Plain::Hello { nick } => {
                match self.find(key) {
                    Some(i) => {
                        if !nick.as_str().is_empty() {
                            proof {
                                lemma_find_peer_bound(m.peers, key@.bytes);
                            }
                            let ghost p = m.peer(key@.bytes);
                            assert(self.peers@[i as int]@ == p);
                            let ghost nv = nick@;
                            self.peers[i].nick = nick;
                            proof {
                                assert(self.peers@[i as int]@ == PeerModel { nick: nv, ..p });
                                assert(self@.peers =~= m.peers.update(i as int, PeerModel { nick: nv, ..p }));
                            }
                        }
                    },
                    None => {},
                }
                assert(views(out@) =~= seq![]);
                out
            },
            Plain::Text(text) => {
                push_effect(&mut out, Effect::Emit(AppEvent::MessageReceived { peer: key.copy(), text }));
                assert(views(out@) =~= plain_step(m, key@, pv).1);
                out
            },
            Plain::FileOffer { id, name, size } => {
                let i = self.ensure_file(key, id);
                let ghost m1 = self@;
                let ghost f = m1.file(key@.bytes, id);
                proof {
                    lemma_find_file_bound(m1.files, key@.bytes, id);
                }
                assert(self.incoming_files@[i as int]@ == f);
                let ghost nv = name@;
                self.incoming_files[i].file.set_name(name);
                self.incoming_files[i].file.set_total(size);
                let ghost f2 = FileModel { name: Some(nv), total: Some(size), ..f };
                proof {
                    assert(self.incoming_files@[i as int]@ == f2);
                    assert(self@.files =~= m1.files.update(i as int, f2));
                    lemma_find_file_update(m1.files, i as int, f2, key@.bytes, id);
                }
                self.finalize_or_progress(key, id, &mut out);
                assert(views(out@) =~= plain_step(m, key@, pv).1);
                out
            },
            Plain::FileChunk { id, offset, total, data } => {
                let i = self.ensure_file(key, id);
                let ghost m1 = self@;
                let ghost f = m1.file(key@.bytes, id);
                proof {
                    lemma_find_file_bound(m1.files, key@.bytes, id);
                    if m.has_file(key@.bytes, id) {
                        assert(m1 == m);
                    } else {
                        assert(f == fresh_file(key@.bytes, id));
                    }
                }
                assert(self.incoming_files@[i as int]@ == f);
                self.incoming_files[i].file.set_total(total);
                self.incoming_files[i].file.push(offset, data.as_slice());
                let ghost f2 = FileModel {
                    total: Some(total),
                    bytes: write_at(f.bytes, offset as int, data@),
                    have: mark_range(f.have, offset as int, offset + data@.len()),
                    filled: (f.filled + data@.len()) as u64,
                    ..f
                };
                proof {
                    assert(self.incoming_files@[i as int]@ == f2);
                    assert(self@.files =~= m1.files.update(i as int, f2));
                    lemma_find_file_update(m1.files, i as int, f2, key@.bytes, id);
                }
                self.finalize_or_progress(key, id, &mut out);
                assert(views(out@) =~= plain_step(m, key@, pv).1);
                out
            },
        }
    }
}


/// The payloads that carry a file: one chunk after another, each with its
/// offset and the full size.
pub open spec fn chunk_plains(id: u64, data: Seq<u8>) -> Seq<PlainView> {
    Seq::new(
        chunk_count(data.len()),
        |k: int|
            PlainView::FileChunk {
                id,
                offset: (k * CHUNK_SIZE) as u64,
                total: data.len() as u64,
                data: chunk_bytes(data, k),
            },
    )
}

/// Sending several payloads to the peer, one after another.
pub open spec fn queue_all(m: EngineModel, key: PeerKeyView, ps: Seq<PlainView>) -> (
    EngineModel,
    Seq<EffectView>,
)
    decreases ps.len(),
{
    if ps.len() == 0 {
        (m, seq![])
    } else {
        let r = queue_all(m, key, ps.drop_last());
        let q = queue_step(r.0, key, ps.last());
        (q.0, r.1 + q.1)
    }
}

/// Sending a file that was read: it gets the next transfer identifier; the
/// offer goes out, then the chunks in order, and the interface hears that the
/// file was sent.
pub open spec fn file_send_step(m: EngineModel, key: PeerKeyView, path: Seq<char>, data: Seq<u8>) -> (
    EngineModel,
    Seq<EffectView>,
) {
    let id = m.next_file_id;
    let size = data.len() as u64;
    let name = send_name(path);
    let m0 = EngineModel { next_file_id: (id + 1) as u64, ..m };
    let r1 = queue_step(m0, key, PlainView::FileOffer { id, name, size });
    let r2 = queue_all(r1.0, key, chunk_plains(id, data));
    (
        r2.0,
        r1.1 + r2.1 + seq![
            EffectView::Emit(
                EventView::FileProgress {
                    peer: key,
                    name,
                    received: size,
                    total: size,
                    done: None,
                    outgoing: true,
                },
            ),
        ],
    )
}

/// What a command from the interface does.
pub open spec fn command_step(m: EngineModel, cmd: CommandView) -> (EngineModel, Seq<EffectView>) {
    match cmd {
        CommandView::Start { nick, port, dials } => start_step(m, nick, port, dials),
        CommandView::SendText { peer, text } => queue_step(m, peer, PlainView::Text(text)),
        CommandView::SendFile { peer, path } => (m, seq![EffectView::ReadFile { peer, path }]),
        CommandView::VerifyPeer { peer } => verify_step(m, peer.bytes),
        CommandView::Dial { addr } => (m, seq![dial_effect(addr, true)]),
        CommandView::RefreshDiscovery => (m, seq![EffectView::RestartDiscovery]),
        CommandView::Quit => (m, seq![]),
    }
}

/// What a decryption gave: the payload goes to decoding; a failure is dropped.
pub open spec fn opened_step(key: PeerKeyView, result: Result<Seq<u8>, CryptoError>) -> Seq<EffectView> {
    match result {
        Ok(bytes) => seq![EffectView::Decode { peer: key, bytes }],
        Err(_) => seq![],
    }
}

/// A decryption result as values.
pub open spec fn bytes_result(r: Result<Vec<u8>, CryptoError>) -> Result<Seq<u8>, CryptoError> {
    match r {
        Ok(b) => Ok(b@),
        Err(e) => Err(e),
    }
}

/// Act on what the decryption of a payload from the peer gave.
pub fn opened(key: &PeerKey, result: Result<Vec<u8>, CryptoError>) -> (r: Vec<Effect>)
    ensures
        views(r@) == opened_step(key@, bytes_result(result)),
{
    let ghost rv = bytes_result(result);
    let mut out: Vec<Effect> = Vec::new();
    match result {
        Ok(bytes) => push_effect(&mut out, Effect::Decode { peer: key.copy(), bytes }),
        Err(_) => {},
    }
    assert(views(out@) =~= opened_step(key@, rv));
    out
}

/// A receiving session made from a pre-key message of a known peer that had
/// none, from the peer's identity key `from` (`created` is its first payload,
/// the bytes that store the identity after it, and what has gone through the
/// session; nothing when it could not be made): the session is kept back with
/// its first payload, and the identity is to be stored with those bytes.
pub open spec fn created_step(
    m: EngineModel,
    key: PeerKeyView,
    created: Option<(Seq<u8>, Seq<u8>, Seq<SealedEntry>, Seq<Seq<u8>>)>,
    from: Seq<char>,
) -> (EngineModel, Seq<EffectView>) {
    let id = key.bytes;
    match created {
        Some((pt, stored, sealed, opened)) => if m.knows(id) && !m.peer(id).has_session {
            let p = m.peer(id);
            (
                m.set_peer(
                    id,
                    PeerModel {
                        staged: Some(StagedView { from, sealed, opened, plaintext: pt }),
                        ..p
                    },
                ),
                seq![EffectView::StoreForSession { peer: key, identity: stored }],
            )
        } else {
            (m, seq![])
        },
        None => (m, seq![]),
    }
}

/// The identity was stored (`ok`) or not after a session that the peer
/// started was made. When it was, the session is taken up: the waiting
/// payloads go out in order and its first payload goes to decoding. When it
/// was not, the session is dropped, as if it had not been made.
pub open spec fn stored_step(m: EngineModel, key: PeerKeyView, ok: bool) -> (
    EngineModel,
    Seq<EffectView>,
) {
    let id = key.bytes;
    if m.knows(id) && m.peer(id).staged is Some && !m.peer(id).has_session {
        let p = m.peer(id);
        let st = p.staged->0;
        if ok {
            (
                m.set_peer(id, accepted(p, st.from, st.sealed, st.opened)),
                encodes(p.key, p.pending) + seq![EffectView::Decode { peer: key, bytes: st.plaintext }],
            )
        } else {
            (m.set_peer(id, PeerModel { staged: None, ..p }), seq![])
        }
    } else {
        (m, seq![])
    }
}

/// The first payload of a created session, the bytes that store the
/// identity, and what has gone through the session, as values.
pub open spec fn created_view(c: Option<(OlmSession, Vec<u8>, Vec<u8>)>) -> Option<
    (Seq<u8>, Seq<u8>, Seq<SealedEntry>, Seq<Seq<u8>>),
> {
    match c {
        Some(t) => Some((t.1@, t.2@, t.0.sealed(), t.0.opened())),
        None => None,
    }
}

impl Engine {
    /// An encrypted payload from the peer.
    pub fn encrypted(&mut self, key: &PeerKey, ty: u8, body: &[u8]) -> (r: Vec<Effect>)
        ensures
            encrypted_post(old(self)@, final(self)@, views(r@), key@, ty, body@),
    {
        let ghost m = self@;
        let mut out: Vec<Effect> = Vec::new();
        match self.find(key) {
            Some(i) => {
                proof {
                    lemma_find_peer_bound(m.peers, key@.bytes);
                }
                assert(self.peers@[i as int]@ == m.peer(key@.bytes));
                if self.peers[i].session.is_some() {
                    let ghost p = m.peer(key@.bytes);
                    let result = match &mut self.peers[i].session {
                        Some(session) => open(session, ty, body),
                        None => {
                            assert(false);
                            return out;
                        },
                    };
                    proof {
                        let rv = bytes_result(result);
                        if rv is Ok {
                            let p2 = PeerModel { opened: p.opened.push(rv->Ok_0), ..p };
                            assert(self.peers@[i as int]@ == p2);
                            assert(self@.peers =~= m.peers.update(i as int, p2));
                        } else {
                            assert(self.peers@[i as int]@ == p);
                            assert(self@.peers =~= m.peers);
                        }
                    }
                    return opened(key, result);
                }
            },
            None => {},
        }
        self.try_inbound(key, ty, body, &mut out);
        out
    }

    /// Create the receiving session from a pre-key message and hand over its
    /// first payload.
    fn try_inbound(&mut self, key: &PeerKey, ty: u8, body: &[u8], out: &mut Vec<Effect>)
        requires
            old(out)@.len() == 0,
            !(old(self)@.knows(key@.bytes) && old(self)@.peer(key@.bytes).has_session),
        ensures
            encrypted_post(old(self)@, final(self)@, views(final(out)@), key@, ty, body@),
    {
        let ghost m = self@;
        assert(views(out@) =~= Seq::<EffectView>::empty());
        let msg = match parse_message(ty, body) {
            Ok(msg) => msg,
            Err(_) => return,
        };
        let prekey = match msg {
            OlmPayload::PreKey(pk) => pk,
            OlmPayload::Normal(_) => return,
        };
        let i = match self.find(key) {
            Some(i) => i,
            None => return,
        };
        proof {
            lemma_find_peer_bound(m.peers, key@.bytes);
        }
        let ghost p = m.peer(key@.bytes);
        assert(self.peers@[i as int]@ == p);
        let their_identity = match &self.peers[i].identity_curve {
            Some(k) => *k,
            None => return,
        };
        let (created, from) = self.identity.create_inbound(&their_identity, &prekey);
        let ghost pt = created_view(created);
        *out = self.session_created(key, created, from);
        proof {
            if pt is Some {
                let cv = pt->0;
                let np = PeerModel {
                    staged: Some(StagedView { from: from@, sealed: cv.2, opened: cv.3, plaintext: cv.0 }),
                    ..p
                };
                lemma_set_peer(m, key@.bytes, np);
            }
        }
    }

    /// Act on the outcome of making the receiving session for the peer from its
    /// identity key `from`: the session with the first payload and the bytes
    /// that store the identity, or nothing. The session is kept back until the
    /// identity is stored.
    pub fn session_created(
        &mut self,
        key: &PeerKey,
        created: Option<(OlmSession, Vec<u8>, Vec<u8>)>,
        from: Ghost<Seq<char>>,
    ) -> (r: Vec<Effect>)
        ensures
            (final(self)@, views(r@)) == created_step(old(self)@, key@, created_view(created), from@),
    {
        let ghost m = self@;
        let ghost ptv = created_view(created);
        let mut out: Vec<Effect> = Vec::new();
        assert(views(out@) =~= Seq::<EffectView>::empty());
        let (session, plaintext, stored) = match created {
            Some(c) => c,
            None => return out,
        };
        let i = match self.find(key) {
            Some(i) => i,
            None => return out,
        };
        proof {
            lemma_find_peer_bound(m.peers, key@.bytes);
        }
        let ghost p = m.peer(key@.bytes);
        assert(self.peers@[i as int]@ == p);
        if self.peers[i].session.is_some() {
            return out;
        }
        let ghost cv = ptv->0;
        self.peers[i].staged = Some((session, plaintext, from));
        let ghost p1 = PeerModel {
            staged: Some(StagedView { from: from@, sealed: cv.2, opened: cv.3, plaintext: cv.0 }),
            ..p
        };
        proof {
            assert(self.peers@[i as int]@ == p1);
            assert(self@.peers =~= m.peers.update(i as int, p1));
        }
        let ghost sv = stored@;
        push_effect(&mut out, Effect::StoreForSession { peer: key.copy(), identity: stored });
        assert(views(out@) =~= seq![EffectView::StoreForSession { peer: key@, identity: sv }]);
        out
    }

    /// Whether the identity could be stored after a session that the peer
    /// started was made: take the session up, or drop it.
    pub fn identity_stored(&mut self, key: &PeerKey, ok: bool) -> (r: Vec<Effect>)
        ensures
            (final(self)@, views(r@)) == stored_step(old(self)@, key@, ok),
    {
        let ghost m = self@;
        let mut out: Vec<Effect> = Vec::new();
        assert(views(out@) =~= Seq::<EffectView>::empty());
        let i = match self.find(key) {
            Some(i) => i,
            None => return out,
        };
        proof {
            lemma_find_peer_bound(m.peers, key@.bytes);
        }
        let ghost p = m.peer(key@.bytes);
        assert(self.peers@[i as int]@ == p);
        if self.peers[i].session.is_some() || self.peers[i].staged.is_none() {
            return out;
        }
        let staged = self.peers[i].staged.take();
        let (session, plaintext, from) = match staged {
            Some(t) => t,
            None => {
                assert(false);
                return out;
            },
        };
        let ghost st = p.staged->0;
        if !ok {
            proof {
                assert(self.peers@[i as int]@ == PeerModel { staged: None, ..p });
                assert(self@.peers =~= m.peers.update(i as int, PeerModel { staged: None, ..p }));
            }
            return out;
        }
        self.peers[i].session = Some(session);
        self.peers[i].inbound_identity = Ghost(Some(from@));
        let ghost p1 = PeerModel { pending: p.pending, ..accepted(p, st.from, st.sealed, st.opened) };
        proof {
            assert(self.peers@[i as int]@ == p1);
            assert(self@.peers =~= m.peers.update(i as int, p1));
        }
        self.flush_pending(i, &mut out);
        push_effect(&mut out, Effect::Decode { peer: key.copy(), bytes: plaintext });
        proof {
            assert(self@.peers =~= m.peers.update(i as int, accepted(p, st.from, st.sealed, st.opened)));
            assert(views(out@) =~= encodes(p.key, p.pending) + seq![
                EffectView::Decode { peer: key@, bytes: st.plaintext },
            ]);
        }
        out
    }

    /// A file was read for sending to the peer.
    pub fn file_loaded(&mut self, key: &PeerKey, path: &str, data: Vec<u8>) -> (r: Vec<Effect>)
        requires
            old(self)@.next_file_id < u64::MAX,
        ensures
            (final(self)@, views(r@)) == file_send_step(old(self)@, key@, path@, data@),
    {
        let ghost m = self@;
        let prepared = prepare(path, data.as_slice());
        let name = prepared.name;
        let size = prepared.size;
        let id = self.next_file_id;
        self.next_file_id = self.next_file_id + 1;
        let ghost m0 = self@;
        let mut out: Vec<Effect> = Vec::new();
        let offer = Plain::FileOffer { id, name: name.clone(), size };
        self.queue_out(key, offer, &mut out);
        let ghost r1 = queue_step(m0, key@, PlainView::FileOffer { id, name: name@, size });
        assert(views(out@) =~= r1.1);
        let mut chunks = prepared.chunks;
        let ghost cps = chunk_plains(id, data@);
        let ghost all = chunks@;
        let n = chunks.len();
        let mut k: usize = 0;
        assert(cps.take(0) =~= Seq::<PlainView>::empty());
        assert(chunks@ =~= all.skip(0));
        while chunks.len() > 0
            invariant
                is_chunking(data@, all),
                cps == chunk_plains(id, data@),
                cps.len() == all.len(),
                n == all.len(),
                k + chunks@.len() == n,
                chunks@ == all.skip(k as int),
                size == data@.len(),
                self@ == queue_all(r1.0, key@, cps.take(k as int)).0,
                views(out@) == r1.1 + queue_all(r1.0, key@, cps.take(k as int)).1,
            decreases chunks@.len(),
        {
            let ghost before = chunks@;
            let (offset, bytes) = chunks.remove(0);
            assert(before[0] == all[k as int]);
            assert(chunks@ =~= all.skip(k + 1));
            let plain = Plain::FileChunk { id, offset, total: size, data: bytes };
            assert(plain@ == cps[k as int]);
            let ghost prev = queue_all(r1.0, key@, cps.take(k as int));
            let ghost before_out = views(out@);
            self.queue_out(key, plain, &mut out);
            proof {
                assert(cps.take(k + 1).drop_last() =~= cps.take(k as int));
                assert(cps.take(k + 1).last() == cps[k as int]);
                assert(views(out@) =~= r1.1 + queue_all(r1.0, key@, cps.take(k + 1)).1);
            }
            k = k + 1;
        }
        assert(cps.take(k as int) =~= cps);
        push_effect(
            &mut out,
            Effect::Emit(
                AppEvent::FileProgress {
                    peer: key.copy(),
                    name,
                    received: size,
                    total: size,
                    done: None,
                    outgoing: true,
                },
            ),
        );
        out
    }

    /// Carry out a command from the interface.
    pub fn handle_ui_command(&mut self, cmd: UiCommand) -> (r: Vec<Effect>)
        ensures
            (final(self)@, views(r@)) == command_step(old(self)@, cmd@),
    {
        match cmd {
            UiCommand::Start { nick, port, dials } => self.start(nick, port, dials),
            UiCommand::SendText { peer, text } => self.send_text(&peer, text),
            UiCommand::SendFile { peer, path } => {
                let mut out: Vec<Effect> = Vec::new();
                push_effect(&mut out, Effect::ReadFile { peer, path });
                assert(views(out@) =~= command_step(old(self)@, cmd@).1);
                out
            },
            UiCommand::VerifyPeer { peer } => self.verify_peer(&peer),
            UiCommand::Dial { addr } => self.dial(addr.as_str()),
            UiCommand::RefreshDiscovery => {
                let mut out: Vec<Effect> = Vec::new();
                push_effect(&mut out, Effect::RestartDiscovery);
                assert(views(out@) =~= seq![EffectView::RestartDiscovery]);
                out
            },
            UiCommand::Quit => {
                let out: Vec<Effect> = Vec::new();
                assert(views(out@) =~= seq![]);
                out
            },
        }
    }

    /// A wire message from the peer.
    pub fn handle_wire(&mut self, key: &PeerKey, msg: WireMsg) -> (r: Vec<Effect>)
        ensures
            match msg@ {
                WireView::KeyBundle { ed25519, curve25519, one_time_key, nick } => (
                final(self)@,
                views(r@),
            ) == key_bundle_step(old(self)@, key@, ed25519, curve25519, one_time_key, nick),
                WireView::Encrypted { ty, body } => encrypted_post(
                    old(self)@,
                    final(self)@,
                    views(r@),
                    key@,
                    ty,
                    body,
                ),
            },
    {
        match msg {
            WireMsg::KeyBundle { ed25519, curve25519, one_time_key, nick } => self.key_bundle(
                key,
                ed25519,
                curve25519,
                one_time_key,
                nick,
            ),
            WireMsg::Encrypted { ty, body } => self.encrypted(key, ty, body.as_slice()),
        }
    }
}


proof fn lemma_set_peer(m: EngineModel, id: Seq<u8>, p: PeerModel)
    requires
        m.knows(id),
        p.key.bytes == id,
    ensures
        m.set_peer(id, p).knows(id),
        m.set_peer(id, p).peer(id) == p,
        forall|other: Seq<u8>|
            find_peer(#[trigger] m.set_peer(id, p).peers, other) == find_peer(m.peers, other),
{
    lemma_find_peer_bound(m.peers, id);
    let i = find_peer(m.peers, id)->0;
    assert forall|other: Seq<u8>| find_peer(#[trigger] m.set_peer(id, p).peers, other) == find_peer(m.peers, other) by {
        lemma_find_peer_update(m.peers, i, p, other);
    }
}

proof fn lemma_initiate_keeps(m: EngineModel, id: Seq<u8>)
    ensures
        ({
            let m2 = initiate_step(m, id).0;
            &&& m2.local == m.local && m2.nick == m.nick && m2.files == m.files
            &&& m2.next_file_id == m.next_file_id && m2.started == m.started
            &&& m2.pending_dials == m.pending_dials
            &&& m2.peers.len() == m.peers.len()
            &&& m.knows(id) ==> m2.knows(id) && m2.peer(id).bundle_sent == m.peer(id).bundle_sent
                && m2.peer(id).announced == m.peer(id).announced
        }),
{
    if m.knows(id) && peer_order(m.local.bytes, id) {
        let p = m.peer(id);
        if !p.has_session && p.identity_curve is Some && p.one_time_key is Some {
            lemma_find_peer_bound(m.peers, id);
            lemma_set_peer(m, id, started(p));
        }
    }
}

proof fn lemma_queue_keeps(m: EngineModel, key: PeerKeyView, plain: PlainView)
    ensures
        ({
            let m2 = queue_step(m, key, plain).0;
            &&& m2.local == m.local && m2.nick == m.nick && m2.files == m.files
            &&& m2.next_file_id == m.next_file_id && m2.started == m.started
            &&& m2.pending_dials == m.pending_dials
        }),
{
    if !(m.knows(key.bytes) && m.peer(key.bytes).has_session) {
        let m1 = m.add_peer(key);
        let p = m1.peer(key.bytes);
        lemma_initiate_keeps(
            m1.set_peer(key.bytes, PeerModel { pending: p.pending.push(plain), ..p }),
            key.bytes,
        );
    }
}

proof fn lemma_queue_all_keeps(m: EngineModel, key: PeerKeyView, ps: Seq<PlainView>)
    ensures
        ({
            let m2 = queue_all(m, key, ps).0;
            &&& m2.local == m.local && m2.nick == m.nick && m2.files == m.files
            &&& m2.next_file_id == m.next_file_id && m2.started == m.started
        }),
    decreases ps.len(),
{
    if ps.len() > 0 {
        lemma_queue_all_keeps(m, key, ps.drop_last());
        lemma_queue_keeps(queue_all(m, key, ps.drop_last()).0, key, ps.last());
    }
}

/// The node starts once: a second start, whatever it asks for, changes
/// nothing and does nothing.
pub proof fn law_start_once(
    m: EngineModel,
    nick: Seq<char>,
    port: u16,
    dials: Seq<Seq<char>>,
    nick2: Seq<char>,
    port2: u16,
    dials2: Seq<Seq<char>>,
)
    ensures
        ({
            let first = start_step(m, nick, port, dials).0;
            start_step(first, nick2, port2, dials2) == (first, Seq::<EffectView>::empty())
        }),
{
}

/// Our key bundle goes to each peer at most once: after it was sent, sending
/// it again changes nothing and sends nothing.
pub proof fn law_bundle_once(
    m: EngineModel,
    m1: EngineModel,
    e1: Seq<EffectView>,
    m2: EngineModel,
    e2: Seq<EffectView>,
    key: PeerKeyView,
)
    requires
        bundle_post(m, m1, e1, key),
        bundle_post(m1, m2, e2, key),
    ensures
        m1.knows(key.bytes),
        m1.peer(key.bytes).bundle_sent,
        m2 == m1,
        e2 == Seq::<EffectView>::empty(),
{
    lemma_set_add(m, key);
    let ma = m.add_peer(key);
    let p = ma.peer(key.bytes);
    if !p.bundle_sent {
        lemma_set_peer(ma, key.bytes, PeerModel { bundle_sent: true, ..p });
    }
    lemma_set_add(m1, key);
}

/// The interface hears of a peer once: a second key bundle from it emits no
/// discovery event (only, possibly, the payloads of a session that starts).
pub proof fn law_announce_once(
    m: EngineModel,
    key: PeerKeyView,
    ed: Seq<char>,
    curve: Seq<char>,
    otk: Seq<char>,
    nick: Seq<char>,
    ed2: Seq<char>,
    curve2: Seq<char>,
    otk2: Seq<char>,
    nick2: Seq<char>,
)
    ensures
        ({
            let first = key_bundle_step(m, key, ed, curve, otk, nick).0;
            let second = key_bundle_step(first, key, ed2, curve2, otk2, nick2).1;
            forall|i: int| 0 <= i < second.len() ==> (#[trigger] second[i]) is Encode
        }),
{
    lemma_set_add(m, key);
    let m1 = m.add_peer(key);
    let p = m1.peer(key.bytes);
    let p2 = PeerModel {
        nick,
        ed25519: ed,
        identity_curve: parsed(curve),
        one_time_key: parsed(otk),
        announced: true,
        ..p
    };
    lemma_set_peer(m1, key.bytes, p2);
    let mid = m1.set_peer(key.bytes, p2);
    lemma_initiate_keeps(mid, key.bytes);
    let first = initiate_step(mid, key.bytes).0;
    assert(first.knows(key.bytes) && first.peer(key.bytes).announced);
    lemma_set_add(first, key);
    let q = first.peer(key.bytes);
    let q2 = PeerModel {
        nick: nick2,
        ed25519: ed2,
        identity_curve: parsed(curve2),
        one_time_key: parsed(otk2),
        announced: true,
        ..q
    };
    let second = key_bundle_step(first, key, ed2, curve2, otk2, nick2).1;
    let init = initiate_step(first.set_peer(key.bytes, q2), key.bytes).1;
    assert(second =~= seq![] + init);
}

/// The side whose peer identifier does not come first never starts the
/// session: without a session its payloads wait, in the order they were
/// given, and nothing is sent.
pub proof fn law_responder_waits(m: EngineModel, key: PeerKeyView, ps: Seq<PlainView>)
    requires
        m.knows(key.bytes),
        !m.peer(key.bytes).has_session,
        !peer_order(m.local.bytes, key.bytes),
    ensures
        queue_all(m, key, ps).1 == Seq::<EffectView>::empty(),
        queue_all(m, key, ps).0 == m.set_peer(
            key.bytes,
            PeerModel { pending: m.peer(key.bytes).pending + ps, ..m.peer(key.bytes) },
        ),
    decreases ps.len(),
{
    let id = key.bytes;
    let p = m.peer(id);
    lemma_find_peer_bound(m.peers, id);
    if ps.len() == 0 {
        assert(p.pending + ps =~= p.pending);
        assert(m.peers.update(find_peer(m.peers, id)->0, p) =~= m.peers);
    } else {
        law_responder_waits(m, key, ps.drop_last());
        let mid = m.set_peer(id, PeerModel { pending: p.pending + ps.drop_last(), ..p });
        lemma_set_peer(m, id, PeerModel { pending: p.pending + ps.drop_last(), ..p });
        lemma_set_add(mid, key);
        let q = mid.peer(id);
        let last = mid.set_peer(id, PeerModel { pending: q.pending.push(ps.last()), ..q });
        assert(q.pending.push(ps.last()) =~= p.pending + ps);
        lemma_set_peer(mid, id, PeerModel { pending: q.pending.push(ps.last()), ..q });
        assert(last.peers =~= m.set_peer(id, PeerModel { pending: p.pending + ps, ..p }).peers);
        assert(queue_all(m, key, ps).1 =~= Seq::<EffectView>::empty());
    }
}

/// Each file sent gets its own identifier: the offer carries the next one,
/// and the counter moves past it.
pub proof fn law_file_ids(m: EngineModel, key: PeerKeyView, path: Seq<char>, data: Seq<u8>)
    requires
        m.next_file_id < u64::MAX,
    ensures
        file_send_step(m, key, path, data).0.next_file_id == m.next_file_id + 1,
{
    let id = m.next_file_id;
    let m0 = EngineModel { next_file_id: (id + 1) as u64, ..m };
    let offer = PlainView::FileOffer { id, name: send_name(path), size: data.len() as u64 };
    lemma_queue_keeps(m0, key, offer);
    lemma_queue_all_keeps(queue_step(m0, key, offer).0, key, chunk_plains(id, data));
}

/// Marking a known peer as trusted sets its flag and keeps everything else.
pub proof fn law_verify(m: EngineModel, id: Seq<u8>)
    requires
        m.knows(id),
    ensures
        verify_step(m, id).0.knows(id),
        verify_step(m, id).0.peer(id) == (PeerModel { verified: true, ..m.peer(id) }),
{
    lemma_find_peer_bound(m.peers, id);
    lemma_set_peer(m, id, PeerModel { verified: true, ..m.peer(id) });
}

/// No peer is held twice, and no transfer `(peer, id)` is held twice.
pub open spec fn model_wf(m: EngineModel) -> bool {
    &&& forall|i: int, j: int|
        0 <= i < j < m.peers.len() ==> #[trigger] m.peers[i].key.bytes != #[trigger] m.peers[j].key.bytes
    &&& forall|i: int, j: int|
        0 <= i < j < m.files.len() ==> !(#[trigger] m.files[i].peer == #[trigger] m.files[j].peer
            && m.files[i].id == m.files[j].id)
}

proof fn lemma_find_peer_none(ps: Seq<PeerModel>, id: Seq<u8>)
    requires
        find_peer(ps, id) is None,
    ensures
        forall|i: int| 0 <= i < ps.len() ==> #[trigger] ps[i].key.bytes != id,
    decreases ps.len(),
{
    if ps.len() > 0 {
        lemma_find_peer_none(ps.drop_last(), id);
        assert forall|i: int| 0 <= i < ps.len() implies #[trigger] ps[i].key.bytes != id by {
            if i < ps.len() - 1 {
                assert(ps[i] == ps.drop_last()[i]);
            }
        }
    }
}

proof fn lemma_find_file_none(fs: Seq<FileModel>, peer: Seq<u8>, id: u64)
    requires
        find_file(fs, peer, id) is None,
    ensures
        forall|i: int| 0 <= i < fs.len() ==> !(#[trigger] fs[i].peer == peer && fs[i].id == id),
    decreases fs.len(),
{
    if fs.len() > 0 {
        lemma_find_file_none(fs.drop_last(), peer, id);
        assert forall|i: int| 0 <= i < fs.len() implies !(#[trigger] fs[i].peer == peer && fs[i].id
            == id) by {
            if i < fs.len() - 1 {
                assert(fs[i] == fs.drop_last()[i]);
            }
        }
    }
}

proof fn lemma_wf_add_peer(m: EngineModel, key: PeerKeyView)
    requires
        model_wf(m),
    ensures
        model_wf(m.add_peer(key)),
{
    if !m.knows(key.bytes) {
        lemma_find_peer_none(m.peers, key.bytes);
        let ps = m.peers.push(fresh_peer(key));
        assert forall|i: int, j: int| 0 <= i < j < ps.len() implies #[trigger] ps[i].key.bytes
            != #[trigger] ps[j].key.bytes by {
            if j == m.peers.len() {
                assert(m.peers[i].key.bytes != key.bytes);
            } else {
                assert(ps[i] == m.peers[i] && ps[j] == m.peers[j]);
            }
        }
    }
}

proof fn lemma_wf_set_peer(m: EngineModel, id: Seq<u8>, p: PeerModel)
    requires
        model_wf(m),
        m.knows(id),
        p.key.bytes == id,
    ensures
        model_wf(m.set_peer(id, p)),
{
    lemma_find_peer_bound(m.peers, id);
    let k = find_peer(m.peers, id)->0;
    let ps = m.set_peer(id, p).peers;
    assert forall|i: int, j: int| 0 <= i < j < ps.len() implies #[trigger] ps[i].key.bytes
        != #[trigger] ps[j].key.bytes by {
        assert(ps[i].key.bytes == m.peers[i].key.bytes);
        assert(ps[j].key.bytes == m.peers[j].key.bytes);
    }
}

proof fn lemma_wf_add_file(m: EngineModel, peer: Seq<u8>, id: u64)
    requires
        model_wf(m),
    ensures
        model_wf(m.add_file(peer, id)),
        m.add_file(peer, id).has_file(peer, id),
        m.add_file(peer, id).file(peer, id).peer == peer,
        m.add_file(peer, id).file(peer, id).id == id,
{
    lemma_find_file_bound(m.files, peer, id);
    if !m.has_file(peer, id) {
        lemma_find_file_none(m.files, peer, id);
        let fs = m.files.push(fresh_file(peer, id));
        assert(fs.drop_last() =~= m.files);
        assert forall|i: int, j: int| 0 <= i < j < fs.len() implies !(#[trigger] fs[i].peer
            == #[trigger] fs[j].peer && fs[i].id == fs[j].id) by {
            if j == m.files.len() {
                assert(!(m.files[i].peer == peer && m.files[i].id == id));
            } else {
                assert(fs[i] == m.files[i] && fs[j] == m.files[j]);
            }
        }
    }
}

proof fn lemma_wf_set_file(m: EngineModel, peer: Seq<u8>, id: u64, f: FileModel)
    requires
        model_wf(m),
        m.has_file(peer, id),
        f.peer == peer,
        f.id == id,
    ensures
        model_wf(m.set_file(peer, id, f)),
        m.set_file(peer, id, f).has_file(peer, id),
{
    lemma_find_file_bound(m.files, peer, id);
    let fs = m.set_file(peer, id, f).files;
    assert forall|i: int, j: int| 0 <= i < j < fs.len() implies !(#[trigger] fs[i].peer
        == #[trigger] fs[j].peer && fs[i].id == fs[j].id) by {
        assert(fs[i].peer == m.files[i].peer && fs[i].id == m.files[i].id);
        assert(fs[j].peer == m.files[j].peer && fs[j].id == m.files[j].id);
    }
    let k = find_file(m.files, peer, id)->0;
    if find_file(fs, peer, id) is None {
        lemma_find_file_none(fs, peer, id);
        assert(fs[k].peer == peer && fs[k].id == id);
    }
}

proof fn lemma_wf_drop_file(m: EngineModel, peer: Seq<u8>, id: u64)
    requires
        model_wf(m),
        m.has_file(peer, id),
    ensures
        model_wf(m.drop_file(peer, id)),
{
    lemma_find_file_bound(m.files, peer, id);
    let k = find_file(m.files, peer, id)->0;
    let fs = m.drop_file(peer, id).files;
    assert forall|i: int, j: int| 0 <= i < j < fs.len() implies !(#[trigger] fs[i].peer
        == #[trigger] fs[j].peer && fs[i].id == fs[j].id) by {
        let a = if i < k { i } else { i + 1 };
        let b = if j < k { j } else { j + 1 };
        assert(fs[i] == m.files[a] && fs[j] == m.files[b]);
    }
}

proof fn lemma_wf_initiate(m: EngineModel, id: Seq<u8>)
    requires
        model_wf(m),
    ensures
        model_wf(initiate_step(m, id).0),
{
    if m.knows(id) && peer_order(m.local.bytes, id) {
        let p = m.peer(id);
        if !p.has_session && p.identity_curve is Some && p.one_time_key is Some {
            lemma_find_peer_bound(m.peers, id);
            lemma_wf_set_peer(m, id, started(p));
        }
    }
}

proof fn lemma_wf_queue(m: EngineModel, key: PeerKeyView, plain: PlainView)
    requires
        model_wf(m),
    ensures
        model_wf(queue_step(m, key, plain).0),
{
    if !(m.knows(key.bytes) && m.peer(key.bytes).has_session) {
        let m1 = m.add_peer(key);
        lemma_wf_add_peer(m, key);
        lemma_set_add(m, key);
        let p = m1.peer(key.bytes);
        let m2 = m1.set_peer(key.bytes, PeerModel { pending: p.pending.push(plain), ..p });
        lemma_wf_set_peer(m1, key.bytes, PeerModel { pending: p.pending.push(plain), ..p });
        lemma_wf_initiate(m2, key.bytes);
    }
}

proof fn lemma_wf_queue_all(m: EngineModel, key: PeerKeyView, ps: Seq<PlainView>)
    requires
        model_wf(m),
    ensures
        model_wf(queue_all(m, key, ps).0),
    decreases ps.len(),
{
    if ps.len() > 0 {
        lemma_wf_queue_all(m, key, ps.drop_last());
        lemma_wf_queue(queue_all(m, key, ps.drop_last()).0, key, ps.last());
    }
}

proof fn lemma_wf_finalize(m: EngineModel, key: PeerKeyView, id: u64)
    requires
        model_wf(m),
        m.has_file(key.bytes, id),
    ensures
        model_wf(finalize_step(m, key, id).0),
{
    if is_complete(m.file(key.bytes, id)) {
        lemma_wf_drop_file(m, key.bytes, id);
    }
}

proof fn lemma_wf_bundle(m: EngineModel, m2: EngineModel, e: Seq<EffectView>, key: PeerKeyView)
    requires
        model_wf(m),
        bundle_post(m, m2, e, key),
    ensures
        model_wf(m2),
{
    let m1 = m.add_peer(key);
    lemma_wf_add_peer(m, key);
    lemma_set_add(m, key);
    let p = m1.peer(key.bytes);
    if !p.bundle_sent {
        lemma_wf_set_peer(m1, key.bytes, PeerModel { bundle_sent: true, ..p });
    }
}

/// The engine holds one entry per peer and one per incoming transfer: every
/// command, every outcome of listening, closed connection and file to send
/// keeps it so.
pub proof fn law_entries_unique_local(
    m: EngineModel,
    cmd: CommandView,
    port: u16,
    failure: Option<Seq<char>>,
    key: PeerKeyView,
    remaining: u32,
    path: Seq<char>,
    data: Seq<u8>,
)
    requires
        model_wf(m),
    ensures
        model_wf(command_step(m, cmd).0),
        model_wf(listen_step(m, port, failure).0),
        model_wf(closed_step(m, key, remaining).0),
        m.next_file_id < u64::MAX ==> model_wf(file_send_step(m, key, path, data).0),
{
    match cmd {
        CommandView::SendText { peer, text } => lemma_wf_queue(m, peer, PlainView::Text(text)),
        CommandView::VerifyPeer { peer } => {
            if m.knows(peer.bytes) {
                lemma_find_peer_bound(m.peers, peer.bytes);
                lemma_wf_set_peer(m, peer.bytes, PeerModel { verified: true, ..m.peer(peer.bytes) });
            }
        },
        _ => {},
    }
    if remaining == 0 {
        lemma_wf_add_peer(m, key);
    }
    if m.next_file_id < u64::MAX {
        let id = m.next_file_id;
        let m0 = EngineModel { next_file_id: (id + 1) as u64, ..m };
        let offer = PlainView::FileOffer { id, name: send_name(path), size: data.len() as u64 };
        lemma_wf_queue(m0, key, offer);
        lemma_wf_queue_all(queue_step(m0, key, offer).0, key, chunk_plains(id, data));
    }
}

/// The engine holds one entry per peer and one per incoming transfer: every
/// event from a peer (a connection, a key bundle, an encoded or encrypted
/// payload, a decoded one) keeps it so, whatever the outcome of the
/// cryptography.
pub proof fn law_entries_unique_remote(
    m: EngineModel,
    key: PeerKeyView,
    ed25519: Seq<char>,
    curve25519: Seq<char>,
    one_time_key: Seq<char>,
    nick: Seq<char>,
    plain: PlainView,
    m2: EngineModel,
    e: Seq<EffectView>,
    ty: u8,
    body: Seq<u8>,
)
    requires
        model_wf(m),
    ensures
        model_wf(key_bundle_step(m, key, ed25519, curve25519, one_time_key, nick).0),
        model_wf(plain_step(m, key, plain).0),
        connected_post(m, m2, e, key) ==> model_wf(m2),
        encoded_post(m, m2, e, key, body) ==> model_wf(m2),
        encrypted_post(m, m2, e, key, ty, body) ==> model_wf(m2),
{
    let id = key.bytes;
    let m1 = m.add_peer(key);
    lemma_wf_add_peer(m, key);
    lemma_set_add(m, key);
    let p = m1.peer(id);
    let p2 = PeerModel {
        nick,
        ed25519,
        identity_curve: parsed(curve25519),
        one_time_key: parsed(one_time_key),
        announced: true,
        ..p
    };
    lemma_wf_set_peer(m1, id, p2);
    lemma_wf_initiate(m1.set_peer(id, p2), id);
    match plain {
        PlainView::Hello { nick } => {
            if m.knows(id) && nick.len() > 0 {
                lemma_find_peer_bound(m.peers, id);
                lemma_wf_set_peer(m, id, PeerModel { nick, ..m.peer(id) });
            }
        },
        PlainView::FileOffer { id: fid, name, size } => {
            let f1 = m.add_file(id, fid);
            lemma_wf_add_file(m, id, fid);
            let f = f1.file(id, fid);
            let nf = FileModel { name: Some(name), total: Some(size), ..f };
            lemma_wf_set_file(f1, id, fid, nf);
            lemma_wf_finalize(f1.set_file(id, fid, nf), key, fid);
        },
        PlainView::FileChunk { id: fid, offset, total, data } => {
            let f1 = m.add_file(id, fid);
            lemma_wf_add_file(m, id, fid);
            let f = f1.file(id, fid);
            let nf = FileModel {
                total: Some(total),
                bytes: write_at(f.bytes, offset as int, data),
                have: mark_range(f.have, offset as int, offset + data.len()),
                filled: (f.filled + data.len()) as u64,
                ..f
            };
            lemma_wf_set_file(f1, id, fid, nf);
            lemma_wf_finalize(f1.set_file(id, fid, nf), key, fid);
        },
        _ => {},
    }
    if connected_post(m, m2, e, key) {
        lemma_wf_bundle(m.add_peer(key), m2, e.skip(1), key);
    }
    if encoded_post(m, m2, e, key, body) && m.knows(id) && m.peer(id).has_session {
        lemma_find_peer_bound(m.peers, id);
        let q = m.peer(id);
        lemma_wf_set_peer(m, id, PeerModel { sealed: q.sealed.push(m2.peer(id).sealed.last()), ..q });
    }
    if encrypted_post(m, m2, e, key, ty, body) && m.knows(id) {
        lemma_find_peer_bound(m.peers, id);
        let q = m.peer(id);
        if m2 != m {
            if q.has_session {
                if let EffectView::Decode { bytes, .. } = e[0] {
                    lemma_wf_set_peer(m, id, PeerModel { opened: q.opened.push(bytes), ..q });
                }
            } else {
                lemma_wf_set_peer(m, id, PeerModel { staged: Some(m2.peer(id).staged->0), ..q });
            }
        }
    }
}

/// Decoded payloads from the peer, taken one after another.
pub open spec fn plain_steps(m: EngineModel, key: PeerKeyView, ps: Seq<PlainView>) -> (
    EngineModel,
    Seq<EffectView>,
)
    decreases ps.len(),
{
    if ps.len() == 0 {
        (m, seq![])
    } else {
        let r = plain_steps(m, key, ps.drop_last());
        let q = plain_step(r.0, key, ps.last());
        (q.0, r.1 + q.1)
    }
}

/// The chunks of a file as they arrive, in the order given by their
/// positions.
pub open spec fn chunks_in_order(id: u64, data: Seq<u8>, order: Seq<int>) -> Seq<PlainView> {
    order.map_values(|k: int| chunk_plains(id, data)[k])
}

/// The transfer `(key, id)` holds what the first `j` chunks brought.
spec fn receiving(m: EngineModel, key: PeerKeyView, id: u64, data: Seq<u8>, order: Seq<int>, j: int) -> bool {
    let a = arrival(data, order).take(j);
    &&& m.has_file(key.bytes, id)
    &&& m.file(key.bytes, id) == FileModel {
        peer: key.bytes,
        id,
        name: None,
        total: Some(data.len() as u64),
        bytes: written(Seq::empty(), a),
        have: marked(Seq::empty(), a),
        filled: piece_bytes(a) as u64,
    }
}

proof fn lemma_file_after_set(m: EngineModel, peer: Seq<u8>, id: u64, f: FileModel)
    requires
        m.has_file(peer, id),
        f.peer == peer,
        f.id == id,
    ensures
        m.set_file(peer, id, f).has_file(peer, id),
        m.set_file(peer, id, f).file(peer, id) == f,
{
    lemma_find_file_bound(m.files, peer, id);
    let i = find_file(m.files, peer, id)->0;
    lemma_find_file_update(m.files, i, f, peer, id);
}

proof fn lemma_drop_file_gone(m: EngineModel, peer: Seq<u8>, id: u64)
    requires
        model_wf(m),
        m.has_file(peer, id),
    ensures
        !m.drop_file(peer, id).has_file(peer, id),
{
    lemma_find_file_bound(m.files, peer, id);
    let k = find_file(m.files, peer, id)->0;
    let fs = m.drop_file(peer, id).files;
    lemma_find_file_bound(fs, peer, id);
    if let Some(i) = find_file(fs, peer, id) {
        let a = if i < k { i } else { i + 1 };
        assert(fs[i] == m.files[a]);
        if a < k {
            assert(!(m.files[a].peer == m.files[k].peer && m.files[a].id == m.files[k].id));
        } else {
            assert(!(m.files[k].peer == m.files[a].peer && m.files[k].id == m.files[a].id));
        }
    }
}

proof fn lemma_prefix_bytes(data: Seq<u8>, order: Seq<int>, j: int)
    requires
        once_each(order, chunk_count(data.len()) as int),
        0 <= j <= order.len(),
    ensures
        piece_bytes(arrival(data, order).take(j)) <= data.len(),
        j < order.len() && data.len() > 0 ==> piece_bytes(arrival(data, order).take(j)) < data.len(),
{
    lemma_arrival_bytes(data, order);
    if j == order.len() {
        assert(arrival(data, order).take(j) =~= arrival(data, order));
    } else if data.len() > 0 {
        lemma_arrival_partial(data, order, j);
    } else {
        let ps = arrival(data, order);
        assert(order.len() == 1) by {
            assert(arrives(order, 0));
            if order.len() > 1 {
                assert(order[0] == 0 && order[1] == 0);
                assert(order[0] != order[1]);
            }
        }
        assert(j == 0);
        assert(ps.take(0) =~= Seq::<(int, Seq<u8>)>::empty());
    }
}

/// One chunk more: from what the first `j` chunks brought to what `j + 1`
/// bring; the last one completes the transfer, which is saved and forgotten.
proof fn lemma_chunk_arrives(m: EngineModel, key: PeerKeyView, id: u64, data: Seq<u8>, order: Seq<int>, j: int)
    requires
        model_wf(m),
        data.len() <= usize::MAX,
        once_each(order, chunk_count(data.len()) as int),
        0 <= j < order.len(),
        j == 0 ==> !m.has_file(key.bytes, id),
        j > 0 ==> receiving(m, key, id, data, order, j),
    ensures
        ({
            let plain = chunks_in_order(id, data, order)[j];
            let q = plain_step(m, key, plain);
            let a = arrival(data, order).take(j + 1);
            &&& plain_fits(m, key, plain)
            &&& model_wf(q.0)
            &&& q.1.len() == 1
            &&& j + 1 < order.len() ==> receiving(q.0, key, id, data, order, j + 1) && q.1[0]
                == EffectView::Emit(
                EventView::FileProgress {
                    peer: key,
                    name: "file"@,
                    received: piece_bytes(a) as u64,
                    total: data.len() as u64,
                    done: None,
                    outgoing: false,
                },
            )
            &&& j + 1 == order.len() ==> !q.0.has_file(key.bytes, id) && q.1[0] == EffectView::SaveFile {
                peer: key,
                name: "file"@,
                data,
                received: data.len() as u64,
                total: data.len() as u64,
            }
        }),
{
    let n = data.len() as int;
    let k = order[j];
    lemma_chunk_bounds(data.len(), k);
    let d = chunk_bytes(data, k);
    let off = k * CHUNK_SIZE;
    let plain = chunks_in_order(id, data, order)[j];
    assert(plain == PlainView::FileChunk { id, offset: off as u64, total: n as u64, data: d });
    let full = arrival(data, order);
    assert(full.take(j + 1).drop_last() =~= full.take(j));
    assert(full.take(j + 1).last() == (off, d));
    lemma_prefix_bytes(data, order, j);
    lemma_prefix_bytes(data, order, j + 1);
    assert(piece_bytes(full.take(j + 1)) == piece_bytes(full.take(j)) + d.len());
    let m1 = m.add_file(key.bytes, id);
    lemma_wf_add_file(m, key.bytes, id);
    let f = m1.file(key.bytes, id);
    if j == 0 {
        assert(full.take(0) =~= Seq::<(int, Seq<u8>)>::empty());
        assert(m.files.push(fresh_file(key.bytes, id)).last() == fresh_file(key.bytes, id));
        assert(f == fresh_file(key.bytes, id));
    } else {
        assert(m1 == m);
    }
    assert(f.filled == piece_bytes(full.take(j)));
    assert(f.bytes == written(Seq::empty(), full.take(j)));
    assert(f.have == marked(Seq::empty(), full.take(j)));
    let nf = FileModel {
        total: Some(n as u64),
        bytes: write_at(f.bytes, off, d),
        have: mark_range(f.have, off, off + d.len()),
        filled: (f.filled + d.len()) as u64,
        ..f
    };
    let m2 = m1.set_file(key.bytes, id, nf);
    lemma_wf_set_file(m1, key.bytes, id, nf);
    lemma_file_after_set(m1, key.bytes, id, nf);
    assert(nf.bytes == written(Seq::empty(), full.take(j + 1)));
    assert(nf.filled == piece_bytes(full.take(j + 1)));
    assert(nf.have == marked(Seq::empty(), full.take(j + 1)));
    if j + 1 < order.len() {
        if n > 0 {
            lemma_arrival_gap(data, order, j + 1);
            assert(!is_complete(nf));
        } else {
            assert(order.len() == 1) by {
                assert(arrives(order, 0));
                if order.len() > 1 {
                    assert(order[0] == 0 && order[1] == 0);
                    assert(order[0] != order[1]);
                }
            }
        }
        assert(receiving(m2, key, id, data, order, j + 1));
    } else {
        assert(full.take(j + 1) =~= full);
        lemma_arrival_written(data, order);
        lemma_arrival_bytes(data, order);
        lemma_arrival_marked(data, order);
        assert(is_complete(nf));
        lemma_drop_file_gone(m2, key.bytes, id);
        lemma_wf_drop_file(m2, key.bytes, id);
    }
}

/// A file comes through whole: when the chunks that a sender hands over for
/// a file reach the engine in any order, each exactly once, and nothing of
/// that transfer was there before, every chunk can be taken, each but the
/// last reports progress, and the last one has exactly the file's bytes
/// saved, after which the transfer is forgotten. (Without an offer the file
/// is saved under the name `file`.)
pub proof fn law_file_arrives(m: EngineModel, key: PeerKeyView, id: u64, data: Seq<u8>, order: Seq<int>)
    requires
        model_wf(m),
        !m.has_file(key.bytes, id),
        data.len() <= usize::MAX,
        once_each(order, chunk_count(data.len()) as int),
    ensures
        ({
            let ps = chunks_in_order(id, data, order);
            let r = plain_steps(m, key, ps);
            &&& forall|j: int|
                0 <= j < ps.len() ==> plain_fits(
                    #[trigger] plain_steps(m, key, ps.take(j)).0,
                    key,
                    ps[j],
                )
            &&& !r.0.has_file(key.bytes, id)
            &&& model_wf(r.0)
            &&& r.1.len() == ps.len()
            &&& r.1.last() == EffectView::SaveFile {
                peer: key,
                name: "file"@,
                data,
                received: data.len() as u64,
                total: data.len() as u64,
            }
            &&& forall|j: int|
                0 <= j < ps.len() - 1 ==> (#[trigger] r.1[j]) matches EffectView::Emit(
                    EventView::FileProgress { done: None, .. },
                )
        }),
{
    let ps = chunks_in_order(id, data, order);
    let len = ps.len() as int;
    assert(len > 0) by {
        assert(arrives(order, 0));
    }
    lemma_steps_prefix(m, key, id, data, order, len);
    assert(ps.take(len) =~= ps);
}

/// What the first `j` chunks do.
proof fn lemma_steps_prefix(m: EngineModel, key: PeerKeyView, id: u64, data: Seq<u8>, order: Seq<int>, j: int)
    requires
        model_wf(m),
        !m.has_file(key.bytes, id),
        data.len() <= usize::MAX,
        once_each(order, chunk_count(data.len()) as int),
        0 <= j <= order.len(),
    ensures
        ({
            let ps = chunks_in_order(id, data, order);
            let len = ps.len() as int;
            let cur = plain_steps(m, key, ps.take(j));
            &&& model_wf(cur.0)
            &&& cur.1.len() == j
            &&& j == 0 ==> cur.0 == m
            &&& 0 < j < len ==> receiving(cur.0, key, id, data, order, j)
            &&& j == len ==> !cur.0.has_file(key.bytes, id)
            &&& j == len ==> cur.1.last() == (EffectView::SaveFile {
                peer: key,
                name: "file"@,
                data,
                received: data.len() as u64,
                total: data.len() as u64,
            })
            &&& forall|t: int|
                0 <= t < j ==> plain_fits(#[trigger] plain_steps(m, key, ps.take(t)).0, key, ps[t])
            &&& forall|t: int|
                0 <= t < j && t < len - 1 ==> (#[trigger] cur.1[t]) matches EffectView::Emit(
                    EventView::FileProgress { done: None, .. },
                )
        }),
    decreases j,
{
    let ps = chunks_in_order(id, data, order);
    assert(arrives(order, 0));
    if j == 0 {
        assert(ps.take(0) =~= Seq::<PlainView>::empty());
    } else {
        lemma_steps_prefix(m, key, id, data, order, j - 1);
        let cur = plain_steps(m, key, ps.take(j - 1));
        lemma_chunk_arrives(cur.0, key, id, data, order, j - 1);
        assert(ps.take(j).drop_last() =~= ps.take(j - 1));
        assert(ps.take(j).last() == ps[j - 1]);
        let q = plain_step(cur.0, key, ps[j - 1]);
        assert(plain_steps(m, key, ps.take(j)) == (q.0, cur.1 + q.1));
        let e = cur.1 + q.1;
        let len = ps.len() as int;
        assert(e.len() == j);
        assert(e[j - 1] == q.1[0]);
        assert forall|t: int| 0 <= t < j implies plain_fits(
            #[trigger] plain_steps(m, key, ps.take(t)).0,
            key,
            ps[t],
        ) by {
            if t == j - 1 {
                assert(plain_steps(m, key, ps.take(t)) == cur);
            }
        }
        assert forall|t: int| 0 <= t < j && t < len - 1 implies (#[trigger] e[t]) matches EffectView::Emit(
            EventView::FileProgress { done: None, .. },
        ) by {
            if t < j - 1 {
                assert(e[t] == cur.1[t]);
            }
        }
    }
}

proof fn lemma_queue_all_session(m: EngineModel, key: PeerKeyView, ps: Seq<PlainView>)
    requires
        m.knows(key.bytes),
        m.peer(key.bytes).has_session,
    ensures
        queue_all(m, key, ps) == (m, encodes(m.peer(key.bytes).key, ps)),
    decreases ps.len(),
{
    if ps.len() == 0 {
        assert(encodes(m.peer(key.bytes).key, ps) =~= Seq::<EffectView>::empty());
    } else {
        lemma_queue_all_session(m, key, ps.drop_last());
        let k = m.peer(key.bytes).key;
        assert(encodes(k, ps) =~= encodes(k, ps.drop_last()) + seq![
            EffectView::Encode { peer: k, plain: ps.last() },
        ]);
    }
}

/// A file goes out whole and in order: with the session there, sending a
/// file that was read hands over for encryption its offer, then each of its
/// chunks in order (the chunks that, delivered in any order, give the file
/// back), and tells the interface that the file was sent.
pub proof fn law_file_sent(m: EngineModel, key: PeerKeyView, path: Seq<char>, data: Seq<u8>)
    requires
        m.knows(key.bytes),
        m.peer(key.bytes).has_session,
        m.next_file_id < u64::MAX,
    ensures
        ({
            let id = m.next_file_id;
            let to = m.peer(key.bytes).key;
            let size = data.len() as u64;
            file_send_step(m, key, path, data).1 == seq![
                EffectView::Encode {
                    peer: to,
                    plain: PlainView::FileOffer { id, name: send_name(path), size },
                },
            ] + encodes(to, chunk_plains(id, data)) + seq![
                EffectView::Emit(
                    EventView::FileProgress {
                        peer: key,
                        name: send_name(path),
                        received: size,
                        total: size,
                        done: None,
                        outgoing: true,
                    },
                ),
            ]
        }),
{
    let id = m.next_file_id;
    let m0 = EngineModel { next_file_id: (id + 1) as u64, ..m };
    assert(m0.peers == m.peers);
    let offer = PlainView::FileOffer { id, name: send_name(path), size: data.len() as u64 };
    lemma_queue_all_session(m0, key, chunk_plains(id, data));
}

proof fn lemma_starts(m: EngineModel, id: Seq<u8>)
    requires
        m.knows(id),
        m.peer(id).identity_curve is Some,
        m.peer(id).one_time_key is Some,
        !m.peer(id).has_session,
    ensures
        initiate_step(m, id).0.knows(id),
        initiate_step(m, id).0.peer(id).has_session == peer_order(m.local.bytes, id),
{
    lemma_find_peer_bound(m.peers, id);
    if peer_order(m.local.bytes, id) {
        lemma_set_peer(m, id, started(m.peer(id)));
    }
}

/// Exactly one of two peers starts the session between them: when each
/// engine knows the other with readable keys and neither has a session with
/// it yet, of the two steps that consider starting it, one makes the session
/// and the other does not. The identifiers are libp2p's, different and valid;
/// `one_first` is what `key_bundle` states of them.
pub proof fn law_one_side_starts(ma: EngineModel, mb: EngineModel)
    requires
        one_first(ma.local.bytes, mb.local.bytes),
        peer_id_valid(ma.local.bytes),
        peer_id_valid(mb.local.bytes),
        ma.local.bytes != mb.local.bytes,
        ma.knows(mb.local.bytes),
        mb.knows(ma.local.bytes),
        ma.peer(mb.local.bytes).identity_curve is Some,
        ma.peer(mb.local.bytes).one_time_key is Some,
        !ma.peer(mb.local.bytes).has_session,
        mb.peer(ma.local.bytes).identity_curve is Some,
        mb.peer(ma.local.bytes).one_time_key is Some,
        !mb.peer(ma.local.bytes).has_session,
    ensures
        initiate_step(ma, mb.local.bytes).0.peer(mb.local.bytes).has_session
            != initiate_step(mb, ma.local.bytes).0.peer(ma.local.bytes).has_session,
{
    lemma_starts(ma, mb.local.bytes);
    lemma_starts(mb, ma.local.bytes);
}

/// The side whose peer identifier comes first starts the session as soon as
/// it has the peer's key bundle (with keys that can be read): the session is
/// there afterwards, made with the bundle's identity key and one-time key in
/// their places, and the greeting with our nickname goes out first, then the
/// payloads that waited, in order.
pub proof fn law_initiator_starts(
    m: EngineModel,
    key: PeerKeyView,
    ed: Seq<char>,
    curve: Seq<char>,
    otk: Seq<char>,
    nick: Seq<char>,
)
    requires
        peer_order(m.local.bytes, key.bytes),
        curve25519_accepts(curve),
        curve25519_accepts(otk),
        !(m.knows(key.bytes) && m.peer(key.bytes).has_session),
    ensures
        ({
            let r = key_bundle_step(m, key, ed, curve, otk, nick);
            let m1 = m.add_peer(key);
            let p = m1.peer(key.bytes);
            let init = seq![
                EffectView::Encode { peer: p.key, plain: PlainView::Hello { nick: m.nick } },
            ] + encodes(p.key, p.pending);
            &&& r.0.knows(key.bytes)
            &&& r.0.peer(key.bytes).has_session
            &&& r.0.peer(key.bytes).session_keys == Some((curve, otk))
            &&& r.0.peer(key.bytes).pending == Seq::<PlainView>::empty()
            &&& r.1 == (if p.announced {
                init
            } else {
                seq![
                    EffectView::Emit(
                        EventView::PeerDiscovered {
                            peer: key,
                            nick,
                            fingerprint: fingerprint_text(ed),
                        },
                    ),
                ] + init
            })
        }),
{
    lemma_set_add(m, key);
    let m1 = m.add_peer(key);
    let p = m1.peer(key.bytes);
    let p2 = PeerModel {
        nick,
        ed25519: ed,
        identity_curve: parsed(curve),
        one_time_key: parsed(otk),
        announced: true,
        ..p
    };
    lemma_set_peer(m1, key.bytes, p2);
    let mid = m1.set_peer(key.bytes, p2);
    assert(mid.local == m.local && mid.nick == m.nick);
    assert(!p.has_session);
    lemma_set_peer(mid, key.bytes, started(p2));
    if p.announced {
        assert(key_bundle_step(m, key, ed, curve, otk, nick).1 =~= seq![] + initiate_step(
            mid,
            key.bytes,
        ).1);
    }
}

} // verus!
