//! The long-term cryptographic identity of the node, on top of vodozemac.
//!
//! The key pair is kept on disk by the caller (this module hands out the
//! bytes to store), so the fingerprint stays the same between runs.
use vstd::prelude::*;
use vodozemac::olm::{Account, AccountPickle, PreKeyMessage};
use vodozemac::Curve25519PublicKey;
use vstd::utf8::{valid_utf8, decode_utf8};
use crate::text::{chars_of, chars_eq};
use crate::crypto::{OlmSession, SealedEntry, outbound_session, inbound_session};

verus! {

broadcast use vstd::string::group_string_axioms;

#[verifier::external_type_specification]
#[verifier::external_body]
pub struct OutsideAccount(Account);

#[verifier::external_type_specification]
#[verifier::external_body]
pub struct OutsideCurveKey(Curve25519PublicKey);

#[verifier::external_type_specification]
#[verifier::external_body]
pub struct OutsideSessionCreationError(vodozemac::olm::SessionCreationError);

/// Whether `Curve25519PublicKey::from_base64` accepts the text.
pub uninterp spec fn curve25519_accepts(text: Seq<char>) -> bool;

/// Whether `rmp_serde::from_slice::<AccountPickle>` accepts the bytes.
pub uninterp spec fn pickle_decodes(bytes: Seq<u8>) -> bool;

/// The base64 forms of the Ed25519 and the Curve25519 identity keys of the
/// account that the bytes store: the account pickle that
/// `rmp_serde::from_slice` reads from them, made an account with
/// `Account::from_pickle`.
pub uninterp spec fn stored_keys(bytes: Seq<u8>) -> (Seq<char>, Seq<char>);

/// Calls `Account::new`, which draws fresh random keys.
#[verifier::external_body]
fn account_new() -> Account {
    Account::new()
}

/// Calls `rmp_serde::from_slice` to read a stored account pickle, makes the
/// account with `Account::from_pickle`, and gives it with the base64 forms of
/// its two identity keys (`ed25519_key`, `curve25519_key`, `to_base64`).
/// Whether the bytes can be read, and the keys, are fixed functions of the
/// bytes; nothing else is stated of the account.
#[verifier::external_body]
fn open_account(bytes: &[u8]) -> (r: Option<(Account, String, String)>)
    ensures
        (r is Some) == pickle_decodes(bytes@),
        r matches Some(x) ==> (x.1@, x.2@) == stored_keys(bytes@),
{
    match rmp_serde::from_slice::<AccountPickle>(bytes) {
        Ok(pickle) => {
            let account = Account::from_pickle(pickle);
            let ed = account.ed25519_key().to_base64();
            let curve = account.curve25519_key().to_base64();
            Some((account, ed, curve))
        },
        Err(_) => None,
    }
}

/// Calls `rmp_serde::to_vec` on `Account::pickle`, and gives the bytes with
/// the base64 forms of the account's two identity keys. The contract claims
/// that the bytes read back as an account with those same keys: the pickle
/// holds both secret keys, `Account::from_pickle` derives the public keys from
/// them, and MessagePack reads what it writes. Encoding can fail (the writer
/// reserves memory with `try_reserve` and reports when it is refused), so
/// success is not stated; nor is anything of the bytes beyond the two keys
/// (they also hold the one-time keys).
#[verifier::external_body]
fn encode_account(account: &Account) -> (r: Option<(Vec<u8>, String, String)>)
    ensures
        r matches Some(x) ==> pickle_decodes(x.0@) && stored_keys(x.0@) == (x.1@, x.2@),
{
    match rmp_serde::to_vec(&account.pickle()) {
        Ok(bytes) => Some(
            (bytes, account.ed25519_key().to_base64(), account.curve25519_key().to_base64()),
        ),
        Err(_) => None,
    }
}

/// Calls `Account::curve25519_key`. The key is opaque here (it comes from the
/// account's secret); nothing is stated of it.
#[verifier::external_body]
fn account_curve25519(account: &Account) -> Curve25519PublicKey {
    account.curve25519_key()
}

/// Calls `Curve25519PublicKey::to_base64`. The key is opaque here, so nothing
/// is stated of the text.
#[verifier::external_body]
pub(crate) fn curve25519_base64(key: &Curve25519PublicKey) -> String {
    key.to_base64()
}

/// Calls `Curve25519PublicKey::from_base64`; an error becomes `None`. Whether
/// it succeeds is a fixed function of the text.
#[verifier::external_body]
pub(crate) fn curve25519_from_base64(text: &str) -> (r: Option<Curve25519PublicKey>)
    ensures
        (r is Some) == curve25519_accepts(text@),
{
    match Curve25519PublicKey::from_base64(text) {
        Ok(k) => Some(k),
        Err(_) => None,
    }
}

/// Calls `Account::generate_one_time_keys(1)` and takes the created key. The
/// source creates exactly `count` keys, so one is always there.
#[verifier::external_body]
fn generate_one_time_key(account: &mut Account) -> (r: Option<Curve25519PublicKey>)
    ensures
        r is Some,
{
    account.generate_one_time_keys(1).created.into_iter().next()
}

/// Calls `std::str::from_utf8` and copies the text out; `None` for bytes that
/// are not UTF-8.
#[verifier::external_body]
fn utf8_text(bytes: &[u8]) -> (r: Option<String>)
    ensures
        (r is Some) == valid_utf8(bytes@),
        r matches Some(t) ==> t@ == decode_utf8(bytes@),
{
    match std::str::from_utf8(bytes) {
        Ok(s) => Some(s.to_string()),
        Err(_) => None,
    }
}

/// The text of a group of bytes: its UTF-8 decoding, or nothing when it is not
/// valid UTF-8.
pub open spec fn group_text(b: Seq<u8>) -> Seq<char> {
    if valid_utf8(b) {
        decode_utf8(b)
    } else {
        Seq::empty()
    }
}

/// The fingerprint of an encoded key: its bytes in groups of four, each shown
/// as text, separated by single spaces.
pub open spec fn fingerprint_bytes(b: Seq<u8>) -> Seq<char>
    decreases b.len(),
{
    if b.len() <= 4 {
        group_text(b)
    } else {
        group_text(b.take(4)) + seq![' '] + fingerprint_bytes(b.skip(4))
    }
}

/// The fingerprint of a base64 key text.
pub open spec fn fingerprint_text(b64: Seq<char>) -> Seq<char> {
    fingerprint_bytes(vstd::utf8::encode_utf8(b64))
}

/// Format a base64 key as a fingerprint (groups of four characters) for
/// comparison by hand.
pub fn fingerprint_of(b64: &str) -> (r: String)
    ensures
        r@ == fingerprint_text(b64@),
{
    let bytes = b64.as_bytes();
    let ghost b = bytes@;
    let n = bytes.len();
    let mut out = String::new();
    let mut i: usize = 0;
    while i < n
        invariant
            b == bytes@,
            n == b.len(),
            i <= n,
            fingerprint_bytes(b) == out@ + (if i >= n {
                Seq::<char>::empty()
            } else if i == 0 {
                fingerprint_bytes(b)
            } else {
                seq![' '] + fingerprint_bytes(b.skip(i as int))
            }),
        decreases n - i,
    {
        let end = if n - i > 4 {
            i + 4
        } else {
            n
        };
        let group = crate::file_transfer::copy_range(bytes, i, end);
        let ghost s = b.skip(i as int);
        proof {
            assert(s.take(end - i) =~= group@);
            if end - i == s.len() {
                assert(s.take(end - i) =~= s);
            }
            if n - i > 4 {
                assert(s.skip(4) =~= b.skip(i + 4));
            }
        }
        let ghost before = out@;
        if i > 0 {
            out.append(" ");
            proof {
                reveal_strlit(" ");
            }
        }
        match utf8_text(group.as_slice()) {
            Some(t) => out.append(t.as_str()),
            None => {},
        }
        proof {
            if i == 0 {
                assert(b.skip(0) =~= b);
            }
        }
        i = end;
        proof {
            if end >= n {
                assert(out@ + Seq::<char>::empty() =~= out@);
            }
        }
    }
    proof {
        if n == 0 {
            assert(group_text(b) =~= Seq::<char>::empty()) by {
                assert(b =~= Seq::<u8>::empty());
                reveal_with_fuel(vstd::utf8::decode_utf8, 1);
            }
        }
    }
    out
}

/// A Curve25519 public key of a peer, with the base64 text it was read from.
#[derive(Clone, Copy)]
pub struct CurveKey {
    key: Curve25519PublicKey,
    text: Ghost<Seq<char>>,
}

impl CurveKey {
    /// The base64 text the key was read from.
    pub closed spec fn text(&self) -> Seq<char> {
        self.text@
    }

    /// Read a key from its base64 text; `None` when the text is not a key.
    pub fn parse(text: &str) -> (r: Option<CurveKey>)
        ensures
            (r is Some) == curve25519_accepts(text@),
            r matches Some(k) ==> k.text() == text@,
    {
        match curve25519_from_base64(text) {
            Some(key) => Some(CurveKey { key, text: Ghost(text@) }),
            None => None,
        }
    }
}

/// Why an identity could not be set up.
#[derive(PartialEq, Eq, Structural, Clone, Copy, Debug)]
pub enum IdentityError {
    /// The stored identity is not a readable account pickle.
    Corrupt,
    /// The account could not be encoded for storage.
    Unencodable,
}

/// The node's long-term identity: an Olm account and the nickname shown to
/// peers.
pub struct Identity {
    account: Account,
    nick: String,
    path: String,
    ed25519_b64: String,
    curve25519_b64: String,
}

impl Identity {
    pub closed spec fn nick_text(&self) -> Seq<char> {
        self.nick@
    }

    pub closed spec fn path_text(&self) -> Seq<char> {
        self.path@
    }

    /// The base64 form of the Curve25519 identity key.
    pub closed spec fn curve25519_text(&self) -> Seq<char> {
        self.curve25519_b64@
    }

    /// The base64 form of the long-term Ed25519 key.
    pub closed spec fn ed25519_text(&self) -> Seq<char> {
        self.ed25519_b64@
    }

    /// The bytes store this identity's keys, and can be read back.
    pub open spec fn stored_in(&self, bytes: Seq<u8>) -> bool {
        &&& pickle_decodes(bytes)
        &&& stored_keys(bytes) == (self.ed25519_text(), self.curve25519_text())
    }

    /// Load the identity from the stored bytes (if there are any) or create a
    /// new one; return it with the bytes that store it. Loaded keys are those
    /// that the bytes store, and the bytes handed back are the stored ones;
    /// a new identity comes with the bytes of its fresh account.
    pub fn load_or_create(nick: String, path: String, stored: Option<Vec<u8>>) -> (r: Result<
        (Identity, Vec<u8>),
        IdentityError,
    >)
        ensures
            match stored {
                Some(b) => if pickle_decodes(b@) {
                    &&& r is Ok
                    &&& r->Ok_0.1@ == b@
                    &&& (r->Ok_0.0.ed25519_text(), r->Ok_0.0.curve25519_text()) == stored_keys(b@)
                } else {
                    r == Err::<(Identity, Vec<u8>), IdentityError>(IdentityError::Corrupt)
                },
                None => r is Ok || r == Err::<(Identity, Vec<u8>), IdentityError>(
                    IdentityError::Unencodable,
                ),
            },
            r matches Ok(p) ==> p.0.nick_text() == nick@ && p.0.path_text() == path@ && p.0.stored_in(
                p.1@,
            ),
    {
        match stored {
            Some(bytes) => match open_account(bytes.as_slice()) {
                Some((account, ed25519_b64, curve25519_b64)) => Ok(
                    (Identity { account, nick, path, ed25519_b64, curve25519_b64 }, bytes),
                ),
                None => Err(IdentityError::Corrupt),
            },
            None => {
                let account = account_new();
                match encode_account(&account) {
                    Some((bytes, ed25519_b64, curve25519_b64)) => Ok(
                        (Identity { account, nick, path, ed25519_b64, curve25519_b64 }, bytes),
                    ),
                    None => Err(IdentityError::Unencodable),
                }
            },
        }
    }

    /// The bytes that store the account as it is now, handed out only when they
    /// hold this identity's keys (they always do: neither a new one-time key
    /// nor a used-up one changes the identity keys).
    fn encoded(&self) -> (r: Option<Vec<u8>>)
        ensures
            r matches Some(b) ==> self.stored_in(b@),
    {
        match encode_account(&self.account) {
            Some((bytes, ed, curve)) => {
                let a = chars_of(ed.as_str());
                let b = chars_of(self.ed25519_b64.as_str());
                let c = chars_of(curve.as_str());
                let d = chars_of(self.curve25519_b64.as_str());
                if chars_eq(a.as_slice(), b.as_slice()) && chars_eq(c.as_slice(), d.as_slice()) {
                    Some(bytes)
                } else {
                    None
                }
            },
            None => None,
        }
    }

    /// The nickname.
    pub fn nick(&self) -> (r: &str)
        ensures
            r@ == self.nick_text(),
    {
        self.nick.as_str()
    }

    /// Where the identity is stored.
    pub fn path(&self) -> (r: &str)
        ensures
            r@ == self.path_text(),
    {
        self.path.as_str()
    }

    /// Change the shown nickname; an empty one is ignored. (The nickname is not
    /// part of the stored identity.)
    pub fn set_nick(&mut self, nick: String)
        ensures
            final(self).nick_text() == (if nick@.len() == 0 {
                old(self).nick_text()
            } else {
                nick@
            }),
            final(self).path_text() == old(self).path_text(),
            final(self).ed25519_text() == old(self).ed25519_text(),
            final(self).curve25519_text() == old(self).curve25519_text(),
    {
        if !nick.as_str().is_empty() {
            self.nick = nick;
        }
    }

    /// The Curve25519 identity key.
    pub fn identity_curve(&self) -> Curve25519PublicKey {
        account_curve25519(&self.account)
    }

    /// The base64 form of the Curve25519 identity key.
    pub fn identity_curve_base64(&self) -> (r: String)
        ensures
            r@ == self.curve25519_text(),
    {
        self.curve25519_b64.clone()
    }

    /// The base64 form of the long-term Ed25519 key.
    pub fn identity_ed_base64(&self) -> (r: String)
        ensures
            r@ == self.ed25519_text(),
    {
        self.ed25519_b64.clone()
    }

    /// The fingerprint of the long-term key, for comparison by hand.
    pub fn fingerprint(&self) -> (r: String)
        ensures
            r@ == fingerprint_text(self.ed25519_text()),
    {
        fingerprint_of(self.ed25519_b64.as_str())
    }

    /// Generate a fresh public one-time key for a new peer, with the bytes that
    /// store the account after it (when they can be encoded; they store this
    /// identity's keys). Each peer gets its own key; the private part stays in
    /// the account for the inbound session.
    pub fn take_one_time_key(&mut self) -> (r: (Curve25519PublicKey, Option<Vec<u8>>))
        ensures
            r.1 matches Some(b) ==> final(self).stored_in(b@),
            final(self).nick_text() == old(self).nick_text(),
            final(self).path_text() == old(self).path_text(),
            final(self).ed25519_text() == old(self).ed25519_text(),
            final(self).curve25519_text() == old(self).curve25519_text(),
    {
        let key = generate_one_time_key(&mut self.account).unwrap();
        let stored = self.encoded();
        (key, stored)
    }

    /// Create the outbound Olm session to a peer from its identity key and one
    /// of its one-time keys; the result records the texts of the two keys, in
    /// that order.
    pub fn create_outbound(&self, peer_identity: &CurveKey, peer_otk: &CurveKey) -> (r: (
        OlmSession,
        Ghost<(Seq<char>, Seq<char>)>,
    ))
        ensures
            r.0.sealed() == Seq::<SealedEntry>::empty(),
            r.0.opened() == Seq::<Seq<u8>>::empty(),
            r.1@ == (peer_identity.text(), peer_otk.text()),
    {
        let session = outbound_session(&self.account, peer_identity.key, peer_otk.key);
        (session, Ghost((peer_identity.text(), peer_otk.text())))
    }

    /// Create the inbound session from a pre-key message and the peer's
    /// identity key; return the session, the plaintext of the message (the
    /// first payload that came out of the session) and the
    /// bytes that store the account (whose one-time key was used up; they store
    /// this identity's keys), with the text of the identity key it was made
    /// from.
    pub fn create_inbound(
        &mut self,
        their_identity: &CurveKey,
        prekey: &PreKeyMessage,
    ) -> (r: (Option<(OlmSession, Vec<u8>, Vec<u8>)>, Ghost<Seq<char>>))
        ensures
            r.0 matches Some(c) ==> final(self).stored_in(c.2@),
            r.0 matches Some(c) ==> c.0.sealed() == Seq::<SealedEntry>::empty() && c.0.opened()
                == seq![c.1@],
            r.1@ == their_identity.text(),
            final(self).nick_text() == old(self).nick_text(),
            final(self).path_text() == old(self).path_text(),
            final(self).ed25519_text() == old(self).ed25519_text(),
            final(self).curve25519_text() == old(self).curve25519_text(),
    {
        let created = match inbound_session(&mut self.account, their_identity.key, prekey) {
            Ok((session, plaintext)) => match self.encoded() {
                Some(bytes) => Some((session, plaintext, bytes)),
                None => None,
            },
            Err(_) => None,
        };
        (created, Ghost(their_identity.text()))
    }
}

/// The keys persist between runs: the bytes handed out to store an identity
/// can be loaded again, and an identity loaded from them has the same keys,
/// hence the same fingerprint.
pub proof fn law_keys_persist(first: Identity, bytes: Seq<u8>, second: Identity)
    requires
        first.stored_in(bytes),
        (second.ed25519_text(), second.curve25519_text()) == stored_keys(bytes),
    ensures
        pickle_decodes(bytes),
        second.ed25519_text() == first.ed25519_text(),
        second.curve25519_text() == first.curve25519_text(),
        fingerprint_text(second.ed25519_text()) == fingerprint_text(first.ed25519_text()),
{
}

} // verus!
