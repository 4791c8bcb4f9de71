//! The payload carried under Olm encryption, and the sealing and opening of it.
//!
//! Everything that peers exchange over the content channel is first encoded
//! from a [`Plain`] (by the caller, which owns the serialisation) and then
//! encrypted with the Olm session of the peer. This keeps the wire layer free
//! of application meaning.
use vstd::prelude::*;
use vodozemac::olm::{Account, Message, OlmMessage, PreKeyMessage, Session, SessionConfig};
use vodozemac::Curve25519PublicKey;

verus! {

#[verifier::external_type_specification]
#[verifier::external_body]
pub struct OutsideSession(Session);

#[verifier::external_type_specification]
#[verifier::external_body]
pub struct OutsidePreKeyMessage(PreKeyMessage);

#[verifier::external_type_specification]
#[verifier::external_body]
pub struct OutsideNormalMessage(Message);

#[verifier::external_type_specification]
#[verifier::external_body]
pub struct OutsideDecodeError(vodozemac::DecodeError);

#[verifier::external_type_specification]
#[verifier::external_body]
pub struct OutsideDecryptionError(vodozemac::olm::DecryptionError);

/// The decrypted application payload.
pub enum Plain {
    /// The first control packet of a new session (not shown to the user).
    Hello { nick: String },
    /// A text message.
    Text(String),
    /// An offer to send a file.
    FileOffer { id: u64, name: String, size: u64 },
    /// One chunk of a file. It carries `total`, so that receiving does not
    /// depend on the order of delivery nor on the offer arriving first.
    FileChunk {
        id: u64,
        /// Offset of this chunk in bytes from the start of the file.
        offset: u64,
        /// Full size of the file in bytes.
        total: u64,
        data: Vec<u8>,
    },
}

/// A payload as values.
pub enum PlainView {
    Hello { nick: Seq<char> },
    Text(Seq<char>),
    FileOffer { id: u64, name: Seq<char>, size: u64 },
    FileChunk { id: u64, offset: u64, total: u64, data: Seq<u8> },
}

impl View for Plain {
    type V = PlainView;

    open spec fn view(&self) -> PlainView {
        match self {
            Plain::Hello { nick } => PlainView::Hello { nick: nick@ },
            Plain::Text(t) => PlainView::Text(t@),
            Plain::FileOffer { id, name, size } => PlainView::FileOffer {
                id: *id,
                name: name@,
                size: *size,
            },
            Plain::FileChunk { id, offset, total, data } => PlainView::FileChunk {
                id: *id,
                offset: *offset,
                total: *total,
                data: data@,
            },
        }
    }
}

/// An Olm message split by kind.
pub enum OlmPayload {
    /// The first message of a session, which can create the receiving session.
    PreKey(PreKeyMessage),
    /// A message of an established session.
    Normal(Message),
}

/// Why a received payload could not be opened.
#[derive(PartialEq, Eq, Structural, Clone, Copy, Debug)]
pub enum CryptoError {
    /// The `(type, body)` parts are not an Olm message.
    Malformed,
    /// The session could not decrypt the message.
    Undecryptable,
}

/// Whether `OlmMessage::from_parts` accepts the type and body.
pub uninterp spec fn olm_decodes(ty: nat, body: Seq<u8>) -> bool;

/// Calls `OlmMessage::from_parts`. Its source accepts only the types 0 (a
/// pre-key message) and 1 (a normal message) and decodes the body of each;
/// whether the body decodes is a fixed function of the type and the body.
#[verifier::external_body]
fn olm_from_parts(ty: usize, body: &[u8]) -> (r: Result<OlmPayload, vodozemac::DecodeError>)
    ensures
        (r is Ok) == olm_decodes(ty as nat, body@),
        ty >= 2 ==> r is Err,
        r matches Ok(p) ==> (p is PreKey <==> ty == 0),
{
    match OlmMessage::from_parts(ty, body) {
        Ok(OlmMessage::PreKey(m)) => Ok(OlmPayload::PreKey(m)),
        Ok(OlmMessage::Normal(m)) => Ok(OlmPayload::Normal(m)),
        Err(e) => Err(e),
    }
}

/// One encryption through a session: the payload, and the type and body of
/// the Olm message it became.
pub type SealedEntry = (Seq<u8>, u8, Seq<u8>);

/// An Olm session, with a record of what went through it: each payload that
/// it encrypted (with the message it became) and each payload that came out of
/// it. Only the calls into the session add to the record.
pub struct OlmSession {
    session: Session,
    sealed: Ghost<Seq<SealedEntry>>,
    opened: Ghost<Seq<Seq<u8>>>,
}

impl OlmSession {
    /// The payloads encrypted through this session, in order, each with the
    /// type and body of its message.
    pub closed spec fn sealed(&self) -> Seq<SealedEntry> {
        self.sealed@
    }

    /// The payloads that came out of this session, in order.
    pub closed spec fn opened(&self) -> Seq<Seq<u8>> {
        self.opened@
    }

    /// Take a session made elsewhere; nothing has gone through it here yet.
    pub fn new(session: Session) -> (r: OlmSession)
        ensures
            r.sealed() == Seq::<SealedEntry>::empty(),
            r.opened() == Seq::<Seq<u8>>::empty(),
    {
        OlmSession { session, sealed: Ghost(Seq::empty()), opened: Ghost(Seq::empty()) }
    }
}

/// Calls `Account::create_outbound_session` with the default session
/// configuration. The session depends on fresh randomness; nothing has gone
/// through it yet.
#[verifier::external_body]
pub(crate) fn outbound_session(
    account: &Account,
    identity_key: Curve25519PublicKey,
    one_time_key: Curve25519PublicKey,
) -> (r: OlmSession)
    ensures
        r.sealed() == Seq::<SealedEntry>::empty(),
        r.opened() == Seq::<Seq<u8>>::empty(),
{
    let session = account.create_outbound_session(SessionConfig::default(), identity_key, one_time_key);
    OlmSession { session, sealed: Ghost(Seq::empty()), opened: Ghost(Seq::empty()) }
}

/// Calls `Account::create_inbound_session` and splits the result into the
/// session and the plaintext of the pre-key message, which is the first payload
/// that came out of the session (the source decrypts the message with the new
/// session and hands back that plaintext). Whether it succeeds depends on the
/// one-time keys that the account holds, of which nothing is stated.
#[verifier::external_body]
pub(crate) fn inbound_session(
    account: &mut Account,
    their_identity: Curve25519PublicKey,
    prekey: &PreKeyMessage,
) -> (r: Result<(OlmSession, Vec<u8>), vodozemac::olm::SessionCreationError>)
    ensures
        r matches Ok(x) ==> x.0.sealed() == Seq::<SealedEntry>::empty() && x.0.opened() == seq![
            x.1@,
        ],
{
    match account.create_inbound_session(their_identity, prekey) {
        Ok(r) => Ok((
            OlmSession { session: r.session, sealed: Ghost(Seq::empty()), opened: Ghost(Seq::empty()) },
            r.plaintext,
        )),
        Err(e) => Err(e),
    }
}

/// Calls `Session::encrypt` on the payload and splits the message with
/// `OlmMessage::to_parts`; the record gains the payload with the message it
/// became. The source encrypts exactly this payload, gives the type as 0 or 1,
/// and the body holds the whole payload encrypted with AES-CBC and PKCS#7
/// padding (at least one byte longer than the payload) together with its
/// framing and MAC, so the body is longer than the payload. The ciphertext
/// itself depends on the state of the session's ratchet, of which nothing is
/// stated.
#[verifier::external_body]
fn olm_encrypt(s: &mut OlmSession, payload: &[u8]) -> (r: (usize, Vec<u8>))
    ensures
        r.0 < 2,
        r.1@.len() > payload@.len(),
        final(s).sealed() == old(s).sealed().push((payload@, r.0 as u8, r.1@)),
        final(s).opened() == old(s).opened(),
{
    s.session.encrypt(payload).to_parts()
}

/// Calls `Session::decrypt` on the message; what it gives back is added to the
/// record of payloads that came out of the session. The outcome depends on the
/// state of the session's ratchet, of which nothing is stated.
#[verifier::external_body]
fn olm_decrypt(s: &mut OlmSession, msg: &OlmPayload) -> (r: Result<
    Vec<u8>,
    vodozemac::olm::DecryptionError,
>)
    ensures
        final(s).sealed() == old(s).sealed(),
        final(s).opened() == match r {
            Ok(b) => old(s).opened().push(b@),
            Err(_) => old(s).opened(),
        },
{
    let m = match msg {
        OlmPayload::PreKey(p) => OlmMessage::PreKey(p.clone()),
        OlmPayload::Normal(n) => OlmMessage::Normal(n.clone()),
    };
    s.session.decrypt(&m)
}

/// Encrypt an encoded payload into the `(type, body)` parts of an Olm message
/// for the wire layer; the session's record gains the payload with those
/// parts. The body carries the whole payload, encrypted and framed, so it is
/// longer than the payload.
pub fn seal(session: &mut OlmSession, payload: &[u8]) -> (r: (u8, Vec<u8>))
    ensures
        r.0 < 2,
        r.1@.len() > payload@.len(),
        final(session).sealed() == old(session).sealed().push((payload@, r.0, r.1@)),
        final(session).opened() == old(session).opened(),
{
    let (ty, body) = olm_encrypt(session, payload);
    (ty as u8, body)
}

/// Rebuild an Olm message from its wire parts.
pub fn parse_message(ty: u8, body: &[u8]) -> (r: Result<OlmPayload, CryptoError>)
    ensures
        (r is Ok) == olm_decodes(ty as nat, body@),
        ty >= 2 ==> r is Err,
        r matches Ok(p) ==> (p is PreKey <==> ty == 0),
        r matches Err(e) ==> e == CryptoError::Malformed,
{
    match olm_from_parts(ty as usize, body) {
        Ok(p) => Ok(p),
        Err(_) => Err(CryptoError::Malformed),
    }
}

/// Decrypt the wire parts `(type, body)` back into the encoded payload: what
/// comes back is what came out of the session, and is added to its record.
pub fn open(session: &mut OlmSession, ty: u8, body: &[u8]) -> (r: Result<Vec<u8>, CryptoError>)
    ensures
        !olm_decodes(ty as nat, body@) ==> r == Err::<Vec<u8>, CryptoError>(CryptoError::Malformed),
        olm_decodes(ty as nat, body@) ==> !(r == Err::<Vec<u8>, CryptoError>(CryptoError::Malformed)),
        final(session).sealed() == old(session).sealed(),
        final(session).opened() == match r {
            Ok(b) => old(session).opened().push(b@),
            Err(_) => old(session).opened(),
        },
{
    let msg = match parse_message(ty, body) {
        Ok(m) => m,
        Err(e) => return Err(e),
    };
    match olm_decrypt(session, &msg) {
        Ok(bytes) => Ok(bytes),
        Err(_) => Err(CryptoError::Undecryptable),
    }
}

} // verus!
