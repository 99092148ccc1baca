//! The secure session with the headset: the Hello handshake, the claim or
//! authenticate branch, the request sequence counter and the encryption of
//! every request after the Hello.
use vstd::prelude::*;
use crate::crypto::{
    box_opened, box_sealed, hmac_sha256, hmac_sign, open, public_key_of, random_array, seal,
    x25519_public, NONCE_LEN,
};
use crate::error::QuestError;
use crate::framer::{chunk_size, fragment_message, fragments};
use crate::messages::{
    bytes_message, encode_request, hello_fields, hello_request, hello_result, read_hello, read_response,
    request_bytes, response_result, single_bytes_message, Method,
};
use crate::wire::message_bytes;
use vstd::slice::{slice_subrange, slice_to_vec};

verus! {

/// The BLE MTU that requests are fragmented for.
pub const DEFAULT_MTU: usize = 23;

/// Where a session stands in the handshake.
#[derive(Debug, Clone, Copy, PartialEq, Eq, Structural)]
pub enum SessionState {
    /// Connected, before the Hello exchange.
    Connected,
    /// The headset is claimed and sent a challenge; the client must answer it.
    Authenticating,
    /// The headset is unclaimed; the client installs its device secret.
    Claiming,
    /// Authenticated: any method may be called.
    Ready,
    /// The handshake failed; the session is dead.
    Failed,
    /// The transport was dropped.
    Closed,
}

/// The value of a session.
pub struct SessionView {
    pub state: SessionState,
    pub local_secret: Seq<u8>,
    pub local_public: Seq<u8>,
    pub peer_public: Option<Seq<u8>>,
    /// The sequence number of the next request.
    pub seq: int,
    pub device_key: Option<Seq<u8>>,
    /// The challenge that the Hello reply carried.
    pub challenge: Option<Seq<u8>>,
    /// The device secret being installed while claiming.
    pub pending_key: Option<Seq<u8>>,
}

/// The bytes of an optional 32-byte key.
pub open spec fn key_view(k: Option<[u8; 32]>) -> Option<Seq<u8>> {
    match k {
        Some(k) => Some(k@),
        None => None,
    }
}

/// The bytes of an optional byte vector.
pub open spec fn bytes_view(b: Option<Vec<u8>>) -> Option<Seq<u8>> {
    match b {
        Some(b) => Some(b@),
        None => None,
    }
}

/// The bytes of an optional borrowed byte vector.
pub open spec fn body_arg_view(b: Option<&Vec<u8>>) -> Option<Seq<u8>> {
    match b {
        Some(b) => Some(b@),
        None => None,
    }
}

/// The value of a call's outcome.
pub open spec fn outcome_view(r: Result<Option<Vec<u8>>, QuestError>) -> Result<Option<Seq<u8>>, QuestError> {
    match r {
        Ok(b) => Ok(bytes_view(b)),
        Err(e) => Err(e),
    }
}

/// Whether method `m` may be sent in state `s`: only Hello before the
/// handshake, the challenge answer or the claim during it, and any method
/// but Hello once ready.
pub open spec fn permitted(s: SessionState, m: Method) -> bool {
    match s {
        SessionState::Connected => m == Method::Hello,
        SessionState::Authenticating => m == Method::Authenticate,
        SessionState::Claiming => m == Method::OculusSetUserSecret,
        SessionState::Ready => m != Method::Hello,
        _ => false,
    }
}

/// The framer payload of a request: the bare envelope for Hello, otherwise
/// the nonce followed by the sealed envelope.
pub open spec fn request_payload_of(v: SessionView, m: Method, body: Option<Seq<u8>>, nonce: Seq<u8>) -> Seq<u8> {
    let envelope = request_bytes(m, v.seq as u32, body);
    if m == Method::Hello {
        envelope
    } else {
        nonce + box_sealed(v.peer_public.unwrap(), v.local_secret, nonce, envelope)
    }
}

/// What a response blob gives the caller of `m`: for Hello the plaintext
/// envelope; otherwise the blob is a 24-byte nonce and a box, opened first.
pub open spec fn response_of(v: SessionView, m: Method, blob: Seq<u8>) -> Result<Option<Seq<u8>>, QuestError> {
    if m == Method::Hello {
        response_result(m, blob)
    } else if v.peer_public is None {
        Err(QuestError::ProtocolError)
    } else if blob.len() < 24 {
        Err(QuestError::CryptoFailed)
    } else {
        match box_opened(
            v.peer_public.unwrap(),
            v.local_secret,
            blob.take(24),
            blob.skip(24),
        ) {
            Some(p) => response_result(m, p),
            None => Err(QuestError::CryptoFailed),
        }
    }
}

/// A session with one headset.
pub struct Session {
    state: SessionState,
    local_secret: [u8; 32],
    local_public: [u8; 32],
    peer_public: Option<[u8; 32]>,
    seq: i32,
    device_key: Option<[u8; 32]>,
    challenge: Option<Vec<u8>>,
    pending_key: Option<[u8; 32]>,
}

impl View for Session {
    type V = SessionView;

    closed spec fn view(&self) -> SessionView {
        SessionView {
            state: self.state,
            local_secret: self.local_secret@,
            local_public: self.local_public@,
            peer_public: key_view(self.peer_public),
            seq: self.seq as int,
            device_key: key_view(self.device_key),
            challenge: bytes_view(self.challenge),
            pending_key: key_view(self.pending_key),
        }
    }
}

impl Session {
    /// The session's internal consistency: the public key belongs to the
    /// secret, the counter is not negative, and the peer key is known in every
    /// state after the Hello exchange.
    pub open spec fn wf(&self) -> bool {
        let v = self@;
        &&& v.seq >= 0
        &&& v.local_secret.len() == 32
        &&& v.local_public == x25519_public(v.local_secret)
        &&& v.state == SessionState::Connected ==> v.peer_public is None && v.challenge is None
        &&& (v.state == SessionState::Authenticating || v.state == SessionState::Claiming
            || v.state == SessionState::Ready) ==> v.peer_public is Some
        &&& v.state == SessionState::Authenticating ==> v.challenge is Some
        &&& v.peer_public matches Some(k) ==> k.len() == 32
        &&& v.device_key matches Some(k) ==> k.len() == 32
    }

    /// A session right after GATT discovery, with the given ephemeral secret
    /// and, where this host already claimed the headset, its device secret.
    pub fn with_secret(local_secret: [u8; 32], device_key: Option<[u8; 32]>) -> (r: Session)
        ensures
            r.wf(),
            r@ == (SessionView {
                state: SessionState::Connected,
                local_secret: local_secret@,
                local_public: x25519_public(local_secret@),
                peer_public: None,
                seq: 0,
                device_key: key_view(device_key),
                challenge: None,
                pending_key: None,
            }),
    {
        let local_public = public_key_of(&local_secret);
        Session {
            state: SessionState::Connected,
            local_secret,
            local_public,
            peer_public: None,
            seq: 0,
            device_key,
            challenge: None,
            pending_key: None,
        }
    }

    /// A session right after GATT discovery, with a fresh random ephemeral secret.
    pub fn new(device_key: Option<[u8; 32]>) -> (r: Session)
        ensures
            r.wf(),
            r@.state == SessionState::Connected,
            r@.seq == 0,
            r@.peer_public is None,
            r@.device_key == key_view(device_key),
            r@.challenge is None,
            r@.pending_key is None,
            r@.local_secret.len() == 32,
            r@.local_public == x25519_public(r@.local_secret),
    {
        Session::with_secret(random_array::<32>(), device_key)
    }

    /// Where the session stands.
    pub fn state(&self) -> (r: SessionState)
        ensures
            r == self@.state,
    {
        self.state
    }

    /// The sequence number that the next request will carry.
    pub fn next_seq(&self) -> (r: i32)
        ensures
            r as int == self@.seq,
    {
        self.seq
    }

    /// The device secret: loaded at connection, or installed by a claim.
    pub fn device_key(&self) -> (r: Option<[u8; 32]>)
        ensures
            key_view(r) == self@.device_key,
    {
        self.device_key
    }

    /// The client's ephemeral public key.
    pub fn local_public(&self) -> (r: [u8; 32])
        ensures
            r@ == self@.local_public,
    {
        self.local_public
    }

    /// The body of the Hello request: the client's ephemeral public key, the
    /// given 16-byte client challenge, and the application id and version.
    pub fn hello_body_with_challenge(&self, client_challenge: &[u8; 16]) -> (r: Vec<u8>)
        ensures
            r@ == message_bytes(hello_fields(self@.local_public, client_challenge@)),
    {
        hello_request(&self.local_public, client_challenge)
    }

    /// The body of the Hello request, with a fresh random client challenge.
    pub fn hello_body(&self) -> (r: Vec<u8>)
        ensures
            exists|c: Seq<u8>|
                c.len() == 16 && r@ == message_bytes(#[trigger] hello_fields(self@.local_public, c)),
    {
        let challenge = random_array::<16>();
        self.hello_body_with_challenge(&challenge)
    }

    /// Builds the framer payload of a request and advances the sequence counter.
    ///
    /// Fails with `ProtocolError`, leaving the session unchanged, exactly where
    /// the state does not permit `m` or the counter is exhausted.
    pub fn request_payload(&mut self, m: Method, body: Option<&Vec<u8>>, nonce: &[u8; 24]) -> (r:
        Result<Vec<u8>, QuestError>)
        requires
            old(self).wf(),
        ensures
            final(self).wf(),
            r is Ok <==> permitted(old(self)@.state, m) && old(self)@.seq < 0x7fff_ffff,
            r is Err ==> r == Err::<Vec<u8>, QuestError>(QuestError::ProtocolError),
            r is Err ==> final(self)@ == old(self)@,
            r matches Ok(p) ==> {
                &&& p@ == request_payload_of(old(self)@, m, body_arg_view(body), nonce@)
                &&& final(self)@ == (SessionView { seq: old(self)@.seq + 1, ..old(self)@ })
                &&& m != Method::Hello ==> p@.len() == NONCE_LEN + request_bytes(
                    m,
                    old(self)@.seq as u32,
                    body_arg_view(body),
                ).len() + 16
            },
    {
        let allowed = match self.state {
            SessionState::Connected => m == Method::Hello,
            SessionState::Authenticating => m == Method::Authenticate,
            SessionState::Claiming => m == Method::OculusSetUserSecret,
            SessionState::Ready => m != Method::Hello,
            _ => false,
        };
        if !allowed || self.seq == i32::MAX {
            return Err(QuestError::ProtocolError);
        }
        let envelope = encode_request(m, self.seq as u32, body);
        let payload = if m == Method::Hello {
            envelope
        } else {
            let peer = match &self.peer_public {
                Some(k) => k,
                None => return Err(QuestError::ProtocolError),
            };
            let sealed = match seal(peer, &self.local_secret, nonce, envelope.as_slice()) {
                Ok(c) => c,
                Err(_) => return Err(QuestError::CryptoFailed),
            };
            let mut p = slice_to_vec(nonce.as_slice());
            let mut k: usize = 0;
            let ghost start = p@;
            while k < sealed.len()
                invariant
                    k <= sealed@.len(),
                    p@ == start + sealed@.take(k as int),
                decreases sealed@.len() - k,
            {
                p.push(sealed[k]);
                k = k + 1;
                assert(p@ =~= start + sealed@.take(k as int));
            }
            assert(sealed@.take(k as int) =~= sealed@);
            p
        };
        self.seq = self.seq + 1;
        Ok(payload)
    }

    /// Builds the packets of a request for the default MTU, under the given nonce.
    pub fn outbound(&mut self, m: Method, body: Option<&Vec<u8>>, nonce: &[u8; 24]) -> (r: Result<
        Vec<Vec<u8>>,
        QuestError,
    >)
        requires
            old(self).wf(),
        ensures
            final(self).wf(),
            r is Ok <==> permitted(old(self)@.state, m) && old(self)@.seq < 0x7fff_ffff,
            r is Err ==> r == Err::<Vec<Vec<u8>>, QuestError>(QuestError::ProtocolError),
            r is Err ==> final(self)@ == old(self)@,
            r matches Ok(pk) ==> {
                &&& pk@.map_values(|q: Vec<u8>| q@) == fragments(
                    request_payload_of(old(self)@, m, body_arg_view(body), nonce@),
                    chunk_size(DEFAULT_MTU as int),
                )
                &&& final(self)@ == (SessionView { seq: old(self)@.seq + 1, ..old(self)@ })
            },
    {
        let payload = self.request_payload(m, body, nonce)?;
        match fragment_message(payload.as_slice(), DEFAULT_MTU) {
            Ok(pk) => {
                assert(pk@.map_values(|q: Vec<u8>| q@) =~= fragments(
                    payload@,
                    chunk_size(DEFAULT_MTU as int),
                ));
                Ok(pk)
            },
            Err(e) => Err(e),
        }
    }

    /// Builds the packets of a request for the default MTU under a fresh random nonce.
    pub fn send_request(&mut self, m: Method, body: Option<&Vec<u8>>) -> (r: Result<
        Vec<Vec<u8>>,
        QuestError,
    >)
        requires
            old(self).wf(),
        ensures
            final(self).wf(),
            r is Ok <==> permitted(old(self)@.state, m) && old(self)@.seq < 0x7fff_ffff,
            r is Err ==> r == Err::<Vec<Vec<u8>>, QuestError>(QuestError::ProtocolError),
            r is Err ==> final(self)@ == old(self)@,
            r matches Ok(pk) ==> {
                &&& exists|nonce: Seq<u8>|
                    nonce.len() == 24 && pk@.map_values(|q: Vec<u8>| q@) == fragments(
                        #[trigger] request_payload_of(old(self)@, m, body_arg_view(body), nonce),
                        chunk_size(DEFAULT_MTU as int),
                    )
                &&& final(self)@ == (SessionView { seq: old(self)@.seq + 1, ..old(self)@ })
            },
    {
        let nonce = random_array::<24>();
        self.outbound(m, body, &nonce)
    }

    /// Reads the reply to a call of `m` from the reassembled blob: opens the box
    /// (but for Hello), decodes the envelope and checks its status code.
    pub fn open_response(&self, m: Method, blob: &[u8]) -> (r: Result<Option<Vec<u8>>, QuestError>)
        requires
            self.wf(),
        ensures
            outcome_view(r) == response_of(self@, m, blob@),
    {
        if m == Method::Hello {
            return read_response(m, blob);
        }
        let peer = match &self.peer_public {
            Some(k) => k,
            None => return Err(QuestError::ProtocolError),
        };
        if blob.len() < NONCE_LEN {
            return Err(QuestError::CryptoFailed);
        }
        let nonce_bytes = slice_to_vec(slice_subrange(blob, 0, NONCE_LEN));
        let nonce = nonce_array(&nonce_bytes);
        let ciphertext = slice_subrange(blob, NONCE_LEN, blob.len());
        match open(peer, &self.local_secret, &nonce, ciphertext) {
            Ok(plain) => read_response(m, plain.as_slice()),
            Err(_) => Err(QuestError::CryptoFailed),
        }
    }

    /// Takes the body of the Hello reply: learns the server's key, which
    /// derives the box, and moves to authenticating (a challenge came) or
    /// claiming (none came); returns the challenge.
    ///
    /// Outside the `Connected` state fails with `ProtocolError` and changes
    /// nothing; a missing or malformed body fails the handshake.
    pub fn accept_hello(&mut self, body: Option<Vec<u8>>) -> (r: Result<Option<Vec<u8>>, QuestError>)
        requires
            old(self).wf(),
        ensures
            final(self).wf(),
            old(self)@.state != SessionState::Connected ==> r == Err::<Option<Vec<u8>>, QuestError>(
                QuestError::ProtocolError,
            ) && final(self)@ == old(self)@,
            old(self)@.state == SessionState::Connected ==> match (
                bytes_view(body),
                r,
            ) {
                (Some(b), Ok(c)) => hello_result(b) matches Some((k, ch)) && ch == bytes_view(c)
                    && final(self)@ == (SessionView {
                    state: if ch is Some {
                        SessionState::Authenticating
                    } else {
                        SessionState::Claiming
                    },
                    peer_public: Some(k),
                    challenge: ch,
                    ..old(self)@
                }),
                (Some(b), Err(e)) => hello_result(b) is None && e == QuestError::HandshakeFailed
                    && final(self)@ == (SessionView { state: SessionState::Failed, ..old(self)@ }),
                (None, Err(e)) => e == QuestError::HandshakeFailed && final(self)@ == (SessionView {
                    state: SessionState::Failed,
                    ..old(self)@
                }),
                (None, Ok(_)) => false,
            },
    {
        if self.state != SessionState::Connected {
            return Err(QuestError::ProtocolError);
        }
        let b = match body {
            Some(b) => b,
            None => {
                self.state = SessionState::Failed;
                return Err(QuestError::HandshakeFailed);
            },
        };
        match read_hello(b.as_slice()) {
            Some((key, challenge)) => {
                self.peer_public = Some(key);
                self.state = if challenge.is_some() {
                    SessionState::Authenticating
                } else {
                    SessionState::Claiming
                };
                let out = match &challenge {
                    Some(c) => Some(slice_to_vec(c.as_slice())),
                    None => None,
                };
                self.challenge = challenge;
                Ok(out)
            },
            None => {
                self.state = SessionState::Failed;
                Err(QuestError::HandshakeFailed)
            },
        }
    }

    /// The request that follows the Hello exchange: the signed challenge
    /// (`Authenticate`) where the headset sent one, else the device secret
    /// (`OculusSetUserSecret`): the one held, or `fresh_key` where none is.
    ///
    /// Authenticating without a device secret fails with `AuthMissingKey` and
    /// fails the session; outside these two states fails with `ProtocolError`.
    pub fn handshake_reply_with_key(&mut self, fresh_key: &[u8; 32]) -> (r: Result<
        (Method, Vec<u8>),
        QuestError,
    >)
        requires
            old(self).wf(),
        ensures
            final(self).wf(),
            old(self)@.state == SessionState::Authenticating ==> match old(self)@.device_key {
                Some(k) => r matches Ok((m, b)) && m == Method::Authenticate && b@
                    == single_bytes_message(hmac_sha256(k, old(self)@.challenge.unwrap()))
                    && final(self)@ == old(self)@,
                None => r == Err::<(Method, Vec<u8>), QuestError>(QuestError::AuthMissingKey)
                    && final(self)@ == (SessionView { state: SessionState::Failed, ..old(self)@ }),
            },
            old(self)@.state == SessionState::Claiming ==> {
                let key = match old(self)@.device_key {
                    Some(k) => k,
                    None => fresh_key@,
                };
                &&& r matches Ok((m, b)) && m == Method::OculusSetUserSecret && b@
                    == single_bytes_message(key)
                &&& final(self)@ == (SessionView { pending_key: Some(key), ..old(self)@ })
            },
            old(self)@.state != SessionState::Authenticating && old(self)@.state
                != SessionState::Claiming ==> r == Err::<(Method, Vec<u8>), QuestError>(
                QuestError::ProtocolError,
            ) && final(self)@ == old(self)@,
    {
        match self.state {
            SessionState::Authenticating => {
                let key = match &self.device_key {
                    Some(k) => k,
                    None => {
                        self.state = SessionState::Failed;
                        return Err(QuestError::AuthMissingKey);
                    },
                };
                let challenge = match &self.challenge {
                    Some(c) => c,
                    None => return Err(QuestError::ProtocolError),
                };
                match hmac_sign(key, challenge.as_slice()) {
                    Ok(tag) => Ok((Method::Authenticate, bytes_message(tag.as_slice()))),
                    Err(_) => Err(QuestError::CryptoFailed),
                }
            },
            SessionState::Claiming => {
                let key: [u8; 32] = match self.device_key {
                    Some(k) => k,
                    None => *fresh_key,
                };
                self.pending_key = Some(key);
                Ok((Method::OculusSetUserSecret, bytes_message(key.as_slice())))
            },
            _ => Err(QuestError::ProtocolError),
        }
    }

    /// The request that follows the Hello exchange; a claim installs a fresh
    /// random device secret where none is held.
    pub fn handshake_reply(&mut self) -> (r: Result<(Method, Vec<u8>), QuestError>)
        requires
            old(self).wf(),
        ensures
            final(self).wf(),
            old(self)@.state == SessionState::Authenticating ==> match old(self)@.device_key {
                Some(k) => r matches Ok((m, b)) && m == Method::Authenticate && b@
                    == single_bytes_message(hmac_sha256(k, old(self)@.challenge.unwrap()))
                    && final(self)@ == old(self)@,
                None => r == Err::<(Method, Vec<u8>), QuestError>(QuestError::AuthMissingKey)
                    && final(self)@ == (SessionView { state: SessionState::Failed, ..old(self)@ }),
            },
            old(self)@.state == SessionState::Claiming ==> ({
                &&& r is Ok
                &&& final(self)@.pending_key is Some
                &&& final(self)@.pending_key.unwrap().len() == 32
                &&& r->Ok_0.0 == Method::OculusSetUserSecret
                &&& r->Ok_0.1@ == single_bytes_message(final(self)@.pending_key.unwrap())
                &&& old(self)@.device_key is Some ==> final(self)@.pending_key
                    == old(self)@.device_key
                &&& final(self)@ == (SessionView {
                    pending_key: final(self)@.pending_key,
                    ..old(self)@
                })
            }),
            old(self)@.state != SessionState::Authenticating && old(self)@.state
                != SessionState::Claiming ==> r == Err::<(Method, Vec<u8>), QuestError>(
                QuestError::ProtocolError,
            ) && final(self)@ == old(self)@,
    {
        let fresh = random_array::<32>();
        self.handshake_reply_with_key(&fresh)
    }

    /// Takes the outcome of the call that `handshake_reply` built: success
    /// makes the session ready (after a claim, the installed secret becomes
    /// the device secret, to be persisted); failure fails the session and is
    /// handed back. Outside the handshake fails with `ProtocolError`.
    pub fn finish_handshake(&mut self, outcome: &Result<Option<Vec<u8>>, QuestError>) -> (r: Result<
        (),
        QuestError,
    >)
        requires
            old(self).wf(),
        ensures
            final(self).wf(),
            (old(self)@.state == SessionState::Authenticating || (old(self)@.state
                == SessionState::Claiming && old(self)@.pending_key is Some)) ==> match outcome {
                Ok(_) => r is Ok && final(self)@ == (SessionView {
                    state: SessionState::Ready,
                    device_key: if old(self)@.state == SessionState::Claiming {
                        old(self)@.pending_key
                    } else {
                        old(self)@.device_key
                    },
                    ..old(self)@
                }),
                Err(e) => r == Err::<(), QuestError>(*e) && final(self)@ == (SessionView {
                    state: SessionState::Failed,
                    ..old(self)@
                }),
            },
            !(old(self)@.state == SessionState::Authenticating || (old(self)@.state
                == SessionState::Claiming && old(self)@.pending_key is Some)) ==> r == Err::<
                (),
                QuestError,
            >(QuestError::ProtocolError) && final(self)@ == old(self)@,
    {
        let claiming = self.state == SessionState::Claiming && self.pending_key.is_some();
        if self.state != SessionState::Authenticating && !claiming {
            return Err(QuestError::ProtocolError);
        }
        match outcome {
            Ok(_) => {
                if claiming {
                    self.device_key = self.pending_key;
                }
                self.state = SessionState::Ready;
                Ok(())
            },
            Err(e) => {
                self.state = SessionState::Failed;
                Err(*e)
            },
        }
    }

    /// The device secret held in a key file: the file must hold exactly 32
    /// bytes, else it is a `ConfigError`.
    pub fn device_key_from_file(contents: &[u8]) -> (r: Result<[u8; 32], QuestError>)
        ensures
            contents@.len() == 32 <==> r is Ok,
            r matches Ok(k) ==> k@ == contents@,
            r is Err ==> r == Err::<[u8; 32], QuestError>(QuestError::ConfigError),
    {
        if contents.len() != 32 {
            return Err(QuestError::ConfigError);
        }
        let mut key: [u8; 32] = [0u8; 32];
        let mut i: usize = 0;
        while i < 32
            invariant
                i <= 32,
                contents@.len() == 32,
                forall|j: int| 0 <= j < i ==> key@[j] == contents@[j],
            decreases 32 - i,
        {
            key[i] = contents[i];
            i = i + 1;
        }
        assert(key@ =~= contents@);
        Ok(key)
    }

    /// The transport was lost or dropped: the session is closed.
    pub fn disconnect(&mut self)
        requires
            old(self).wf(),
        ensures
            final(self).wf(),
            final(self)@ == (SessionView { state: SessionState::Closed, ..old(self)@ }),
    {
        self.state = SessionState::Closed;
    }
}

/// The 24 bytes of `b` as an array.
fn nonce_array(b: &Vec<u8>) -> (r: [u8; 24])
    requires
        b@.len() == 24,
    ensures
        r@ == b@,
{
    let mut a: [u8; 24] = [0u8; 24];
    let mut i: usize = 0;
    while i < 24
        invariant
            i <= 24,
            b@.len() == 24,
            forall|j: int| 0 <= j < i ==> a@[j] == b@[j],
        decreases 24 - i,
    {
        a[i] = b[i];
        i = i + 1;
    }
    assert(a@ =~= b@);
    a
}

} // verus!
