//! Session keys: the keys that an identity allows to sign in its name, each
//! with the date until which it is good and the number of times it was
//! used.
//!
//! A use of a key comes with a signed blob. The engine checks that the blob
//! names the caller and that the data it signs is the SHA-256 digest of the
//! transaction hash followed by the count of the key. The digest is
//! `sha2`'s; what is stated of it is not proved here.

use crate::action::same_bytes;
use crate::ledger::Ledger;
use sha2::Digest;
use vstd::prelude::*;

verus! {

/// One key of an identity.
#[derive(Debug)]
pub struct SessionKey {
    pub key: String,
    /// The time, in milliseconds, after which the key is no longer good.
    pub expiration_date: u128,
    /// How often the key was used.
    pub nonce: u64,
}

/// A session key as a mathematical value.
pub struct SessionKeyView {
    pub key: Seq<char>,
    pub expiration_date: u128,
    pub nonce: u64,
}

impl View for SessionKey {
    type V = SessionKeyView;

    open spec fn view(&self) -> SessionKeyView {
        SessionKeyView {
            key: self.key@,
            expiration_date: self.expiration_date,
            nonce: self.nonce,
        }
    }
}

impl Clone for SessionKey {
    fn clone(&self) -> (copy: Self)
        ensures
            copy@ == self@,
    {
        SessionKey {
            key: self.key.clone(),
            expiration_date: self.expiration_date,
            nonce: self.nonce,
        }
    }
}

impl SessionKey {
    /// A key that was never used.
    pub fn new(key: String, expiration_date: u128) -> (made: SessionKey)
        ensures
            made@ == (SessionKeyView { key: key@, expiration_date, nonce: 0 }),
    {
        SessionKey { key, expiration_date, nonce: 0 }
    }

    /// Whether `self` and `other` are the same key with the same date and
    /// the same count.
    pub fn same_as(&self, other: &SessionKey) -> (same: bool)
        ensures
            same == (self@ == other@),
    {
        self.key == other.key && self.expiration_date == other.expiration_date && self.nonce
            == other.nonce
    }
}

/// What an identity can ask of the manager.
#[derive(Debug)]
pub enum SessionKeyManagerAction {
    Add { session_key: SessionKey },
    Revoke { session_key: SessionKey },
    Use { session_key: SessionKey },
}

/// The signed blob that comes with the use of a key, as far as the manager
/// reads it.
#[derive(Debug)]
pub struct Secp256k1Blob {
    /// Who signed.
    pub identity: String,
    /// The data that was signed.
    pub data: Vec<u8>,
}

/// The blob that stands behind the action in its transaction.
#[derive(Debug)]
pub enum VerifierBlob {
    /// The transaction has no blob there.
    Missing,
    /// The blob there is no signed blob.
    Undecodable,
    Signed(Secp256k1Blob),
}

/// Why the manager refuses an action.
#[derive(Clone, Copy, Debug, PartialEq, Eq, Structural)]
pub enum SessionKeyError {
    /// The transaction came without its context.
    MissingContext,
    /// No blob stands behind the action.
    MissingVerifierBlob,
    /// The caller has no keys.
    NoSessionKeys,
    /// The caller has no such key.
    KeyNotFound,
    /// The blob behind the action is no signed blob.
    UndecodableBlob,
    /// The blob was signed by another identity.
    IdentityMismatch,
    /// The blob signs other data.
    DataMismatch,
    /// The key is no longer good.
    Expired,
    /// The key cannot be used once more: its count is full.
    NonceOverflow,
}

/// The keys of one identity, in the order in which they were added.
pub struct KeyRing {
    pub keys: Vec<SessionKey>,
}

/// The keys `keys` as mathematical values.
pub open spec fn key_views(keys: Seq<SessionKey>) -> Seq<SessionKeyView> {
    Seq::new(keys.len(), |i: int| keys[i]@)
}

impl View for KeyRing {
    type V = Seq<SessionKeyView>;

    open spec fn view(&self) -> Seq<SessionKeyView> {
        key_views(self.keys@)
    }
}

/// The SHA-256 digest of `data`: what `sha2::Sha256::digest` returns.
pub uninterp spec fn sha256(data: Seq<u8>) -> Seq<u8>;

/// The digest of `data`: `sha2::Digest::digest` of `sha2::Sha256`.
///
/// The bytes that come back are the SHA-256 digest of `data`, which depends
/// on the bytes of `data` alone. This is stated of the outside function,
/// not proved.
#[verifier::external_body]
fn sha256_digest(data: &[u8]) -> (digest: Vec<u8>)
    ensures
        digest@ == sha256(data@),
{
    sha2::Sha256::digest(data).to_vec()
}

/// Byte `at` of `n`, the lowest byte first.
pub open spec fn le_byte(n: u64, at: int) -> u8 {
    ((n >> ((8 * at) as u64)) & 0xff) as u8
}

/// The eight bytes of `n`, the lowest first.
pub open spec fn le_bytes(n: u64) -> Seq<u8> {
    Seq::new(8, |at: int| le_byte(n, at))
}

/// The data that the use of a key signs: the hash of the transaction, then
/// the count of the key.
pub open spec fn signed_message(tx_hash: Seq<u8>, nonce: u64) -> Seq<u8> {
    tx_hash + le_bytes(nonce)
}

/// The place, from `from` on, of the first of `ring` that is `key`.
pub open spec fn first_key(ring: Seq<SessionKeyView>, key: SessionKeyView, from: int) -> Option<
    int,
>
    decreases ring.len() - from,
{
    if from < 0 || from >= ring.len() {
        None
    } else if ring[from] == key {
        Some(from)
    } else {
        first_key(ring, key, from + 1)
    }
}

/// The keys of `caller` in `m`: none where `m` has no entry.
pub open spec fn ring_of(m: Map<Seq<char>, Seq<SessionKeyView>>, caller: Seq<char>) -> Seq<
    SessionKeyView,
> {
    if m.contains_key(caller) {
        m[caller]
    } else {
        Seq::empty()
    }
}

/// Adding a key: it goes to the end of the caller's keys.
pub open spec fn added(m: Map<Seq<char>, Seq<SessionKeyView>>, caller: Seq<char>, key: SessionKeyView) -> Map<
    Seq<char>,
    Seq<SessionKeyView>,
> {
    m.insert(caller, ring_of(m, caller).push(key))
}

/// Revoking a key: the first of the caller's keys that is this key goes.
pub open spec fn revoked(m: Map<Seq<char>, Seq<SessionKeyView>>, caller: Seq<char>, key: SessionKeyView) -> Result<
    Map<Seq<char>, Seq<SessionKeyView>>,
    SessionKeyError,
> {
    if !m.contains_key(caller) {
        Err(SessionKeyError::NoSessionKeys)
    } else {
        match first_key(m[caller], key, 0) {
            None => Err(SessionKeyError::KeyNotFound),
            Some(at) => Ok(m.insert(caller, m[caller].remove(at))),
        }
    }
}

/// A blob as far as the rule of a use reads it: nothing, something that is
/// no signed blob, or the signer and the signed data.
pub enum VerifierView {
    Missing,
    Undecodable,
    Signed(Seq<char>, Seq<u8>),
}

impl View for VerifierBlob {
    type V = VerifierView;

    open spec fn view(&self) -> VerifierView {
        match self {
            VerifierBlob::Missing => VerifierView::Missing,
            VerifierBlob::Undecodable => VerifierView::Undecodable,
            VerifierBlob::Signed(blob) => VerifierView::Signed(blob.identity@, blob.data@),
        }
    }
}

/// Using a key: the transaction has its context and a signed blob behind
/// the action, the caller holds the key, the blob names the caller and signs
/// the digest of the transaction hash and the key's count, and the key is
/// still good at `timestamp`. The count of the first such key then goes up
/// by one.
pub open spec fn used(
    m: Map<Seq<char>, Seq<SessionKeyView>>,
    caller: Seq<char>,
    key: SessionKeyView,
    blob: VerifierView,
    tx_hash: Seq<u8>,
    timestamp: Option<u128>,
) -> Result<Map<Seq<char>, Seq<SessionKeyView>>, SessionKeyError> {
    if timestamp is None {
        Err(SessionKeyError::MissingContext)
    } else if blob is Missing {
        Err(SessionKeyError::MissingVerifierBlob)
    } else if !m.contains_key(caller) {
        Err(SessionKeyError::NoSessionKeys)
    } else {
        match first_key(m[caller], key, 0) {
            None => Err(SessionKeyError::KeyNotFound),
            Some(at) => match blob {
                VerifierView::Signed(signer, data) => if signer != caller {
                    Err(SessionKeyError::IdentityMismatch)
                } else if data != sha256(signed_message(tx_hash, key.nonce)) {
                    Err(SessionKeyError::DataMismatch)
                } else if key.expiration_date < timestamp->0 {
                    Err(SessionKeyError::Expired)
                } else if key.nonce == u64::MAX {
                    Err(SessionKeyError::NonceOverflow)
                } else {
                    Ok(
                        m.insert(
                            caller,
                            m[caller].update(
                                at,
                                SessionKeyView { nonce: (key.nonce + 1) as u64, ..key },
                            ),
                        ),
                    )
                },
                _ => Err(SessionKeyError::UndecodableBlob),
            },
        }
    }
}

/// The data that the use of a key with count `nonce` signs in the
/// transaction `tx_hash`.
pub fn message_to_sign(tx_hash: &Vec<u8>, nonce: u64) -> (message: Vec<u8>)
    ensures
        message@ == signed_message(tx_hash@, nonce),
{
    let mut message: Vec<u8> = Vec::new();
    let mut at: usize = 0;
    while at < tx_hash.len()
        invariant
            at <= tx_hash@.len(),
            message@ == tx_hash@.take(at as int),
        decreases tx_hash@.len() - at,
    {
        message.push(tx_hash[at]);
        assert(tx_hash@.take(at as int).push(tx_hash@[at as int]) == tx_hash@.take(at + 1));
        at += 1;
    }
    assert(tx_hash@.take(at as int) == tx_hash@);
    let mut byte: u64 = 0;
    while byte < 8
        invariant
            byte <= 8,
            message@ == tx_hash@ + le_bytes(nonce).take(byte as int),
        decreases 8 - byte,
    {
        let ghost before = message@;
        message.push(((nonce >> (8 * byte)) & 0xff) as u8);
        assert(message@ =~= tx_hash@ + le_bytes(nonce).take(byte + 1)) by {
            assert(message@[before.len() as int] == le_byte(nonce, byte as int));
            assert(le_bytes(nonce).take(byte + 1) =~= le_bytes(nonce).take(byte as int).push(
                le_byte(nonce, byte as int),
            ));
        }
        byte += 1;
    }
    assert(le_bytes(nonce).take(8) =~= le_bytes(nonce));
    message
}

/// A copy of `ring`.
fn copy_ring(ring: &KeyRing) -> (copy: KeyRing)
    ensures
        copy@ == ring@,
{
    let mut keys: Vec<SessionKey> = Vec::new();
    let mut at: usize = 0;
    while at < ring.keys.len()
        invariant
            at <= ring.keys@.len(),
            keys@.len() == at,
            forall|i: int| 0 <= i < at ==> (#[trigger] keys@[i])@ == ring.keys@[i]@,
        decreases ring.keys@.len() - at,
    {
        keys.push(ring.keys[at].clone());
        at += 1;
    }
    let copy = KeyRing { keys };
    assert(copy@ =~= ring@);
    copy
}

/// The place of the first key of `ring` that is `key`.
fn find_key(ring: &KeyRing, key: &SessionKey) -> (found: Option<usize>)
    ensures
        match found {
            Some(at) => at < ring.keys@.len() && first_key(ring@, key@, 0) == Some(at as int),
            None => first_key(ring@, key@, 0).is_none(),
        },
{
    let mut at: usize = 0;
    while at < ring.keys.len()
        invariant
            at <= ring.keys@.len(),
            first_key(ring@, key@, 0) == first_key(ring@, key@, at as int),
        decreases ring.keys@.len() - at,
    {
        if ring.keys[at].same_as(key) {
            return Some(at);
        }
        at += 1;
    }
    None
}

/// The keys that each identity allows.
pub struct SessionKeyManager {
    pub session_keys: Ledger<KeyRing>,
}

impl View for SessionKeyManager {
    type V = Map<Seq<char>, Seq<SessionKeyView>>;

    open spec fn view(&self) -> Map<Seq<char>, Seq<SessionKeyView>> {
        self.session_keys@
    }
}

impl Default for SessionKeyManager {
    fn default() -> (manager: Self)
        ensures
            manager@ == Map::<Seq<char>, Seq<SessionKeyView>>::empty(),
    {
        SessionKeyManager { session_keys: Ledger::new() }
    }
}

impl SessionKeyManager {
    /// Adds `session_key` to the keys of `caller`.
    pub fn add_session_key(&mut self, caller: &String, session_key: SessionKey)
        ensures
            final(self)@ == added(old(self)@, caller@, session_key@),
    {
        let mut ring = match self.session_keys.get(caller) {
            Some(ring) => copy_ring(ring),
            None => KeyRing { keys: Vec::new() },
        };
        let ghost before = ring@;
        assert(before == ring_of(self@, caller@));
        ring.keys.push(session_key);
        assert(ring@ =~= before.push(session_key@));
        self.session_keys.insert(caller, ring);
    }

    /// Takes `session_key` out of the keys of `caller`.
    pub fn revoke_session_key(&mut self, caller: &String, session_key: &SessionKey) -> (res: Result<
        (),
        SessionKeyError,
    >)
        ensures
            match revoked(old(self)@, caller@, session_key@) {
                Ok(next) => res.is_ok() && final(self)@ == next,
                Err(reason) => res == Err::<(), SessionKeyError>(reason) && final(self)@ == old(
                    self,
                )@,
            },
    {
        let mut ring = match self.session_keys.get(caller) {
            Some(ring) => copy_ring(ring),
            None => {
                return Err(SessionKeyError::NoSessionKeys);
            },
        };
        let at = match find_key(&ring, session_key) {
            Some(at) => at,
            None => {
                return Err(SessionKeyError::KeyNotFound);
            },
        };
        let ghost before = ring@;
        ring.keys.remove(at);
        assert(ring@ =~= before.remove(at as int));
        self.session_keys.insert(caller, ring);
        Ok(())
    }

    /// Uses `session_key` in the name of `caller`, in the transaction
    /// `tx_hash` that was ordered at `timestamp`, with `blob` standing behind
    /// the action.
    pub fn use_session_key(
        &mut self,
        caller: &String,
        session_key: &SessionKey,
        blob: &VerifierBlob,
        tx_hash: &Vec<u8>,
        timestamp: Option<u128>,
    ) -> (res: Result<(), SessionKeyError>)
        ensures
            match used(old(self)@, caller@, session_key@, blob@, tx_hash@, timestamp) {
                Ok(next) => res.is_ok() && final(self)@ == next,
                Err(reason) => res == Err::<(), SessionKeyError>(reason) && final(self)@ == old(
                    self,
                )@,
            },
    {
        let now = match timestamp {
            Some(now) => now,
            None => {
                return Err(SessionKeyError::MissingContext);
            },
        };
        match blob {
            VerifierBlob::Missing => {
                return Err(SessionKeyError::MissingVerifierBlob);
            },
            _ => {},
        }
        let mut ring = match self.session_keys.get(caller) {
            Some(ring) => copy_ring(ring),
            None => {
                return Err(SessionKeyError::NoSessionKeys);
            },
        };
        let at = match find_key(&ring, session_key) {
            Some(at) => at,
            None => {
                return Err(SessionKeyError::KeyNotFound);
            },
        };
        let signed = match blob {
            VerifierBlob::Signed(signed) => signed,
            _ => {
                return Err(SessionKeyError::UndecodableBlob);
            },
        };
        if !(signed.identity == *caller) {
            return Err(SessionKeyError::IdentityMismatch);
        }
        let message = message_to_sign(tx_hash, session_key.nonce);
        let digest = sha256_digest(message.as_slice());
        if !same_bytes(&signed.data, &digest) {
            return Err(SessionKeyError::DataMismatch);
        }
        if session_key.expiration_date < now {
            return Err(SessionKeyError::Expired);
        }
        if session_key.nonce == u64::MAX {
            return Err(SessionKeyError::NonceOverflow);
        }
        let ghost before = ring@;
        let next = SessionKey {
            key: session_key.key.clone(),
            expiration_date: session_key.expiration_date,
            nonce: session_key.nonce + 1,
        };
        ring.keys[at] = next;
        assert(ring@ =~= before.update(
            at as int,
            SessionKeyView { nonce: (session_key.nonce + 1) as u64, ..session_key@ },
        ));
        self.session_keys.insert(caller, ring);
        Ok(())
    }

    /// Runs one action of `caller`.
    pub fn execute(
        &mut self,
        caller: &String,
        action: SessionKeyManagerAction,
        blob: &VerifierBlob,
        tx_hash: &Vec<u8>,
        timestamp: Option<u128>,
    ) -> (res: Result<(), SessionKeyError>)
        ensures
            match action {
                SessionKeyManagerAction::Add { session_key } => res.is_ok() && final(self)@
                    == added(old(self)@, caller@, session_key@),
                SessionKeyManagerAction::Revoke { session_key } => match revoked(
                    old(self)@,
                    caller@,
                    session_key@,
                ) {
                    Ok(next) => res.is_ok() && final(self)@ == next,
                    Err(reason) => res == Err::<(), SessionKeyError>(reason) && final(self)@
                        == old(self)@,
                },
                SessionKeyManagerAction::Use { session_key } => match used(
                    old(self)@,
                    caller@,
                    session_key@,
                    blob@,
                    tx_hash@,
                    timestamp,
                ) {
                    Ok(next) => res.is_ok() && final(self)@ == next,
                    Err(reason) => res == Err::<(), SessionKeyError>(reason) && final(self)@
                        == old(self)@,
                },
            },
    {
        match action {
            SessionKeyManagerAction::Add { session_key } => {
                self.add_session_key(caller, session_key);
                Ok(())
            },
            SessionKeyManagerAction::Revoke { session_key } => self.revoke_session_key(
                caller,
                &session_key,
            ),
            SessionKeyManagerAction::Use { session_key } => self.use_session_key(
                caller,
                &session_key,
                blob,
                tx_hash,
                timestamp,
            ),
        }
    }
}

} // verus!
