use crypto_box::aead::Aead;
use crypto_box::{PublicKey, SalsaBox, SecretKey};
use hmac::Mac;
use hzospal::error::QuestError;
use hzospal::framer::PacketAssembler;
use hzospal::messages::{encode_request, Method, APP_ID, APP_VERSION};
use hzospal::session::{Session, SessionState};
use hzospal::wire::{encode_message, find_bytes, find_varint, parse_message, Field, WireValue};

fn bytes(number: u32, b: &[u8]) -> Field {
    Field { number, value: WireValue::Bytes(b.to_vec()) }
}

fn varint(number: u32, v: u64) -> Field {
    Field { number, value: WireValue::Varint(v) }
}

fn envelope(code: u64, seq: u64, body: Option<Vec<u8>>) -> Vec<u8> {
    let mut fields = vec![varint(1, code), varint(2, seq)];
    if let Some(b) = body {
        fields.push(bytes(3, &b));
    }
    encode_message(&fields)
}

fn reassemble(packets: &[Vec<u8>]) -> Vec<u8> {
    let mut assembler = PacketAssembler::new();
    let mut out = None;
    for p in packets {
        out = assembler.handle_notification(p);
    }
    out.expect("packets form one message")
}

fn hmac_sha256(key: &[u8], msg: &[u8]) -> Vec<u8> {
    let mut mac = <hmac::Hmac<sha2::Sha256> as Mac>::new_from_slice(key).unwrap();
    mac.update(msg);
    mac.finalize().into_bytes().to_vec()
}

/// The headset's side of the protocol.
struct Headset {
    secret: SecretKey,
}

impl Headset {
    fn new() -> Self {
        Headset { secret: SecretKey::from([0x42u8; 32]) }
    }

    fn public(&self) -> [u8; 32] {
        self.secret.public_key().to_bytes()
    }

    fn hello_reply(&self, challenge: Option<&[u8]>) -> Vec<u8> {
        let mut signed = vec![bytes(1, &self.public())];
        if let Some(c) = challenge {
            signed.push(bytes(2, c));
        }
        let hello_response = encode_message(&vec![bytes(1, &encode_message(&signed))]);
        envelope(0, 0, Some(hello_response))
    }

    fn salsa(&self, client: [u8; 32]) -> SalsaBox {
        SalsaBox::new(&PublicKey::from(client), &self.secret)
    }

    fn open_request(&self, client: [u8; 32], payload: &[u8]) -> Vec<Field> {
        let plain = self
            .salsa(client)
            .decrypt(crypto_box::Nonce::from_slice(&payload[..24]), &payload[24..])
            .unwrap();
        parse_message(&plain).unwrap()
    }

    fn seal_reply(&self, client: [u8; 32], plain: &[u8]) -> Vec<u8> {
        let nonce = [0x17u8; 24];
        let mut out = nonce.to_vec();
        out.extend(self.salsa(client).encrypt(&crypto_box::Nonce::from(nonce), plain).unwrap());
        out
    }
}

/// Runs the Hello exchange; returns the client challenge that the request carried.
fn hello(session: &mut Session, headset: &Headset, challenge: Option<&[u8]>) -> Vec<u8> {
    let body = session.hello_body();
    let packets = session.send_request(Method::Hello, Some(&body)).unwrap();
    let request = parse_message(&reassemble(&packets)).unwrap();
    assert_eq!(find_varint(&request, 1), Some(1));
    assert_eq!(find_varint(&request, 2), Some(Method::Hello.wire_number()));
    assert_eq!(find_varint(&request, 3), Some(0));
    let hello = parse_message(&find_bytes(&request, 4).unwrap()).unwrap();
    assert_eq!(find_bytes(&hello, 1), Some(session.local_public().to_vec()));
    assert_eq!(find_bytes(&hello, 3), Some(APP_ID.as_bytes().to_vec()));
    assert_eq!(find_bytes(&hello, 4), Some(APP_VERSION.as_bytes().to_vec()));
    let client_challenge = find_bytes(&hello, 2).unwrap();
    assert_eq!(client_challenge.len(), 16);

    let reply = headset.hello_reply(challenge);
    let body = session.open_response(Method::Hello, &reply).unwrap();
    let got = session.accept_hello(body).unwrap();
    assert_eq!(got, challenge.map(|c| c.to_vec()));
    client_challenge
}

#[test]
fn fresh_claim_installs_and_keeps_a_32_byte_key() {
    let headset = Headset::new();
    let mut session = Session::new(None);
    hello(&mut session, &headset, None);
    assert_eq!(session.state(), SessionState::Claiming);

    let (method, body) = session.handshake_reply().unwrap();
    assert_eq!(method, Method::OculusSetUserSecret);
    let packets = session.send_request(method, Some(&body)).unwrap();
    let request = headset.open_request(session.local_public(), &reassemble(&packets));
    assert_eq!(find_varint(&request, 2), Some(Method::OculusSetUserSecret.wire_number()));
    assert_eq!(find_varint(&request, 3), Some(1));
    let claim = parse_message(&find_bytes(&request, 4).unwrap()).unwrap();
    let installed = find_bytes(&claim, 1).unwrap();
    assert_eq!(installed.len(), 32);

    let reply = headset.seal_reply(session.local_public(), &envelope(0, 1, None));
    let outcome = session.open_response(method, &reply);
    assert_eq!(outcome, Ok(None));
    assert_eq!(session.finish_handshake(&outcome), Ok(()));
    assert_eq!(session.state(), SessionState::Ready);
    let key = session.device_key().unwrap();
    assert_eq!(key.len(), 32);
    assert_eq!(key.to_vec(), installed);
}

#[test]
fn claim_uses_a_supplied_key() {
    let headset = Headset::new();
    let mut session = Session::new(Some([3u8; 32]));
    hello(&mut session, &headset, None);
    let (method, body) = session.handshake_reply_with_key(&[9u8; 32]).unwrap();
    assert_eq!(method, Method::OculusSetUserSecret);
    let claim = parse_message(&body).unwrap();
    assert_eq!(find_bytes(&claim, 1), Some(vec![3u8; 32]));
}

#[test]
fn reauthentication_signs_the_challenge() {
    let headset = Headset::new();
    let key = [0xA5u8; 32];
    let challenge = b"server-challenge-0123".to_vec();
    let mut session = Session::new(Some(key));
    hello(&mut session, &headset, Some(&challenge));
    assert_eq!(session.state(), SessionState::Authenticating);

    let (method, body) = session.handshake_reply().unwrap();
    assert_eq!(method, Method::Authenticate);
    let packets = session.send_request(method, Some(&body)).unwrap();
    let request = headset.open_request(session.local_public(), &reassemble(&packets));
    assert_eq!(find_varint(&request, 2), Some(Method::Authenticate.wire_number()));
    let auth = parse_message(&find_bytes(&request, 4).unwrap()).unwrap();
    let signed = find_bytes(&auth, 1).unwrap();
    assert_eq!(signed, hmac_sha256(&key, &challenge));
    assert_ne!(signed, challenge);

    let reply = headset.seal_reply(session.local_public(), &envelope(0, 1, None));
    let outcome = session.open_response(method, &reply);
    assert_eq!(session.finish_handshake(&outcome), Ok(()));
    assert_eq!(session.state(), SessionState::Ready);
    assert_eq!(session.device_key(), Some(key));
}

#[test]
fn wrong_key_is_rejected() {
    let headset = Headset::new();
    let right = [1u8; 32];
    let challenge = vec![7u8; 16];
    let mut session = Session::new(Some([2u8; 32]));
    hello(&mut session, &headset, Some(&challenge));
    let (method, body) = session.handshake_reply().unwrap();
    let packets = session.send_request(method, Some(&body)).unwrap();
    let request = headset.open_request(session.local_public(), &reassemble(&packets));
    let auth = parse_message(&find_bytes(&request, 4).unwrap()).unwrap();
    let code = if find_bytes(&auth, 1).unwrap() == hmac_sha256(&right, &challenge) { 0 } else { 1 };
    assert_eq!(code, 1);

    let reply = headset.seal_reply(session.local_public(), &envelope(code, 1, None));
    let outcome = session.open_response(method, &reply);
    assert_eq!(outcome, Err(QuestError::AuthRejected));
    assert_eq!(session.finish_handshake(&outcome), Err(QuestError::AuthRejected));
    assert_eq!(session.state(), SessionState::Failed);
}

#[test]
fn challenge_without_key_is_auth_missing_key() {
    let headset = Headset::new();
    let mut session = Session::new(None);
    hello(&mut session, &headset, Some(b"abc"));
    assert_eq!(session.handshake_reply(), Err(QuestError::AuthMissingKey));
    assert_eq!(session.state(), SessionState::Failed);
}

#[test]
fn hello_without_body_or_with_bad_key_fails_handshake() {
    let mut session = Session::new(None);
    assert_eq!(session.accept_hello(None), Err(QuestError::HandshakeFailed));
    assert_eq!(session.state(), SessionState::Failed);

    let mut session = Session::new(None);
    let signed = encode_message(&vec![bytes(1, &[1u8; 31])]);
    let body = encode_message(&vec![bytes(1, &signed)]);
    assert_eq!(session.accept_hello(Some(body)), Err(QuestError::HandshakeFailed));

    let mut session = Session::new(None);
    assert_eq!(session.accept_hello(Some(vec![0xFF])), Err(QuestError::HandshakeFailed));
}

#[test]
fn methods_out_of_state_are_protocol_errors() {
    let mut session = Session::new(None);
    assert_eq!(
        session.send_request(Method::HmdStatus, None),
        Err(QuestError::ProtocolError)
    );
    assert_eq!(session.next_seq(), 0);
    assert_eq!(session.handshake_reply(), Err(QuestError::ProtocolError));
    assert_eq!(session.finish_handshake(&Ok(None)), Err(QuestError::ProtocolError));
    assert_eq!(session.open_response(Method::HmdStatus, &[0u8; 40]), Err(QuestError::ProtocolError));
    session.disconnect();
    assert_eq!(session.state(), SessionState::Closed);
    assert_eq!(session.send_request(Method::Hello, None), Err(QuestError::ProtocolError));
}

fn ready_session(headset: &Headset) -> Session {
    let mut session = Session::new(None);
    hello(&mut session, headset, None);
    let (method, body) = session.handshake_reply().unwrap();
    session.send_request(method, Some(&body)).unwrap();
    session.finish_handshake(&Ok(None)).unwrap();
    session
}

#[test]
fn sequence_numbers_count_requests() {
    let headset = Headset::new();
    let mut session = ready_session(&headset);
    assert_eq!(session.next_seq(), 2);
    for n in 2..6u64 {
        let packets = session.send_request(Method::HmdStatus, None).unwrap();
        let request = headset.open_request(session.local_public(), &reassemble(&packets));
        assert_eq!(find_varint(&request, 3), Some(n));
        assert_eq!(find_bytes(&request, 4), None);
    }
    assert_eq!(session.next_seq(), 6);
}

#[test]
fn requests_after_hello_are_sealed() {
    let headset = Headset::new();
    let mut session = ready_session(&headset);
    let body = vec![1u8, 2, 3];
    let nonce = [5u8; 24];
    let payload = session.request_payload(Method::DevModeSet, Some(&body), &nonce).unwrap();
    let envelope = encode_request(Method::DevModeSet, 2, Some(&body));
    assert_eq!(&payload[..24], &nonce);
    assert_eq!(payload.len(), 24 + envelope.len() + 16);
    assert_ne!(&payload[24 + 16..], &envelope[..]);
    let plain = headset
        .salsa(session.local_public())
        .decrypt(crypto_box::Nonce::from_slice(&nonce), &payload[24..])
        .unwrap();
    assert_eq!(plain, envelope);

    let mut fresh = Session::new(None);
    let hello = fresh.hello_body_with_challenge(&[0u8; 16]);
    let payload = fresh.request_payload(Method::Hello, Some(&hello), &nonce).unwrap();
    assert_eq!(payload, encode_request(Method::Hello, 0, Some(&hello)));
}

#[test]
fn tampered_or_short_replies_are_crypto_failures() {
    let headset = Headset::new();
    let session = ready_session(&headset);
    let mut reply = headset.seal_reply(session.local_public(), &envelope(0, 2, Some(vec![8])));
    assert_eq!(session.open_response(Method::HmdStatus, &reply), Ok(Some(vec![8])));
    let last = reply.len() - 1;
    reply[last] ^= 1;
    assert_eq!(session.open_response(Method::HmdStatus, &reply), Err(QuestError::CryptoFailed));
    assert_eq!(session.open_response(Method::HmdStatus, &[0u8; 10]), Err(QuestError::CryptoFailed));
}

#[test]
fn nonzero_code_is_protocol_error() {
    let headset = Headset::new();
    let session = ready_session(&headset);
    let reply = headset.seal_reply(session.local_public(), &envelope(3, 2, Some(vec![8])));
    assert_eq!(session.open_response(Method::HmdStatus, &reply), Err(QuestError::ProtocolError));
}

#[test]
fn public_key_belongs_to_secret() {
    let a = Session::with_secret([0x42u8; 32], None);
    assert_eq!(a.local_public(), Headset::new().public());
    assert_ne!(a.local_public(), [0x42u8; 32]);
}

#[test]
fn key_file_must_hold_exactly_32_bytes() {
    assert_eq!(Session::device_key_from_file(&[7u8; 32]), Ok([7u8; 32]));
    assert_eq!(Session::device_key_from_file(&[7u8; 33]), Err(QuestError::ConfigError));
    assert_eq!(Session::device_key_from_file(&[7u8; 31]), Err(QuestError::ConfigError));
    assert_eq!(Session::device_key_from_file(&[]), Err(QuestError::ConfigError));
}
