//! The companion server's messages: the request / response envelope and the
//! bodies that the handshake and the typed commands use, as protobuf fields.
use vstd::prelude::*;
use vstd::slice::slice_to_vec;
use vstd::string::StringSliceAdditionalSpecFns;
use crate::wire::{
    encode_message, field_wf, fields_view, find_bytes, lemma_message_round_trip, find_varint, last_bytes, last_varint,
    message_bytes, message_parse, parse_message, Field, FieldData, WireData, WireValue,
};

verus! {

/// Application id that the client announces in its Hello.
pub const APP_ID: &'static str = "com.oculus.companion.server";

/// Application version that the client announces in its Hello.
pub const APP_VERSION: &'static str = "1.0.0";

/// Envelope version stamped on every request.
pub const REQUEST_VERSION: u64 = 1;

/// The methods that the companion server offers.
#[derive(Debug, Clone, Copy, PartialEq, Eq, Structural)]
pub enum Method {
    Hello,
    Authenticate,
    OculusSetUserSecret,
    HmdStatus,
    DevModeSet,
    DevModeStatus,
    OtaEnabledSet,
    OtaEnabledStatus,
    AdbModeSet,
    MetaSetAccessTokenCombined,
    RetailSkipFirstTimeNux,
}

/// The number that stands for a method in the request envelope.
pub open spec fn method_number(m: Method) -> u64 {
    match m {
        Method::Hello => 1,
        Method::Authenticate => 2,
        Method::OculusSetUserSecret => 3,
        Method::HmdStatus => 4,
        Method::DevModeSet => 5,
        Method::DevModeStatus => 6,
        Method::OtaEnabledSet => 7,
        Method::OtaEnabledStatus => 8,
        Method::AdbModeSet => 9,
        Method::MetaSetAccessTokenCombined => 10,
        Method::RetailSkipFirstTimeNux => 11,
    }
}

impl Method {
    /// The number that stands for this method in the request envelope.
    pub fn wire_number(&self) -> (r: u64)
        ensures
            r == method_number(*self),
    {
        match self {
            Method::Hello => 1,
            Method::Authenticate => 2,
            Method::OculusSetUserSecret => 3,
            Method::HmdStatus => 4,
            Method::DevModeSet => 5,
            Method::DevModeStatus => 6,
            Method::OtaEnabledSet => 7,
            Method::OtaEnabledStatus => 8,
            Method::AdbModeSet => 9,
            Method::MetaSetAccessTokenCombined => 10,
            Method::RetailSkipFirstTimeNux => 11,
        }
    }
}

/// A length-delimited field.
pub open spec fn bytes_field(number: u32, b: Seq<u8>) -> FieldData {
    FieldData { number, data: WireData::Bytes(b) }
}

/// A varint field.
pub open spec fn varint_field(number: u32, v: u64) -> FieldData {
    FieldData { number, data: WireData::Varint(v) }
}

/// The fields of a request envelope: version, method, sequence number and,
/// where there is one, the body.
pub open spec fn request_fields(m: Method, seq: u32, body: Option<Seq<u8>>) -> Seq<FieldData> {
    let head = seq![
        varint_field(1, REQUEST_VERSION),
        varint_field(2, method_number(m)),
        varint_field(3, seq as u64),
    ];
    match body {
        Some(b) => head.push(bytes_field(4, b)),
        None => head,
    }
}

/// The encoded request envelope.
pub open spec fn request_bytes(m: Method, seq: u32, body: Option<Seq<u8>>) -> Seq<u8> {
    message_bytes(request_fields(m, seq, body))
}

/// Whether a response status code (an int32, its low 32 bits) means success.
pub open spec fn code_is_success(code: u64) -> bool {
    code % 0x1_0000_0000 == 0
}

/// What a decoded response envelope gives the caller of `m`: its body, if
/// any, when the status code is zero (or absent); otherwise a failure, which
/// for `Authenticate` is a rejection of the challenge response.
pub open spec fn response_result(m: Method, plaintext: Seq<u8>) -> Result<
    Option<Seq<u8>>,
    crate::error::QuestError,
> {
    match message_parse(plaintext) {
        None => Err(crate::error::QuestError::ProtocolError),
        Some(fs) => {
            let ok = match last_varint(fs, 1) {
                Some(c) => code_is_success(c),
                None => true,
            };
            if !ok {
                if m == Method::Authenticate {
                    Err(crate::error::QuestError::AuthRejected)
                } else {
                    Err(crate::error::QuestError::ProtocolError)
                }
            } else {
                Ok(last_bytes(fs, 3))
            }
        },
    }
}

/// The fields of a Hello request.
pub open spec fn hello_fields(client_public: Seq<u8>, client_challenge: Seq<u8>) -> Seq<FieldData> {
    seq![
        bytes_field(1, client_public),
        bytes_field(2, client_challenge),
        bytes_field(3, APP_ID.spec_bytes()),
        bytes_field(4, APP_VERSION.spec_bytes()),
    ]
}

/// What the client reads from a Hello reply body: the server's 32-byte
/// public key and the authentication challenge, if the headset sent one.
pub open spec fn hello_result(body: Seq<u8>) -> Option<(Seq<u8>, Option<Seq<u8>>)> {
    match message_parse(body) {
        None => None,
        Some(fs) => match last_bytes(fs, 1) {
            None => None,
            Some(signed) => match message_parse(signed) {
                None => None,
                Some(sfs) => match last_bytes(sfs, 1) {
                    Some(k) => if k.len() == 32 {
                        Some((k, last_bytes(sfs, 2)))
                    } else {
                        None
                    },
                    None => None,
                },
            },
        },
    }
}

/// A message of one length-delimited field numbered 1.
pub open spec fn single_bytes_message(b: Seq<u8>) -> Seq<u8> {
    message_bytes(seq![bytes_field(1, b)])
}

/// A message of one varint field numbered 1.
pub open spec fn single_flag_message(on: bool) -> Seq<u8> {
    message_bytes(seq![varint_field(1, if on { 1 } else { 0 })])
}

/// The flag that a status reply carries in its field 1 (absent means off).
pub open spec fn status_flag(body: Seq<u8>) -> Option<bool> {
    match message_parse(body) {
        None => None,
        Some(fs) => match last_varint(fs, 1) {
            Some(v) => Some(v != 0),
            None => Some(false),
        },
    }
}

/// Encodes a request envelope.
pub fn encode_request(m: Method, seq: u32, body: Option<&Vec<u8>>) -> (r: Vec<u8>)
    ensures
        r@ == request_bytes(
            m,
            seq,
            match body {
                Some(b) => Some(b@),
                None => None,
            },
        ),
{
    let mut fields: Vec<Field> = Vec::new();
    fields.push(Field { number: 1, value: WireValue::Varint(REQUEST_VERSION) });
    fields.push(Field { number: 2, value: WireValue::Varint(m.wire_number()) });
    fields.push(Field { number: 3, value: WireValue::Varint(seq as u64) });
    match body {
        Some(b) => {
            fields.push(Field { number: 4, value: WireValue::Bytes(copy_bytes(b)) });
        },
        None => {},
    }
    let ghost spec_body = match body {
        Some(b) => Some(b@),
        None => None,
    };
    assert(fields_view(fields@) =~= request_fields(m, seq, spec_body));
    encode_message(&fields)
}

/// A copy of `b`.
pub fn copy_bytes(b: &Vec<u8>) -> (r: Vec<u8>)
    ensures
        r@ == b@,
{
    slice_to_vec(b.as_slice())
}

/// Decodes a response envelope for a call of `m`.
pub fn read_response(m: Method, plaintext: &[u8]) -> (r: Result<Option<Vec<u8>>, crate::error::QuestError>)
    ensures
        match r {
            Ok(Some(b)) => response_result(m, plaintext@) == Ok::<Option<Seq<u8>>, crate::error::QuestError>(Some(b@)),
            Ok(None) => response_result(m, plaintext@) == Ok::<Option<Seq<u8>>, crate::error::QuestError>(None),
            Err(e) => response_result(m, plaintext@) == Err::<Option<Seq<u8>>, crate::error::QuestError>(e),
        },
{
    let fields = match parse_message(plaintext) {
        Some(fs) => fs,
        None => return Err(crate::error::QuestError::ProtocolError),
    };
    let ok = match find_varint(&fields, 1) {
        Some(c) => c % 0x1_0000_0000 == 0,
        None => true,
    };
    if !ok {
        if m == Method::Authenticate {
            Err(crate::error::QuestError::AuthRejected)
        } else {
            Err(crate::error::QuestError::ProtocolError)
        }
    } else {
        Ok(find_bytes(&fields, 3))
    }
}

/// Encodes a Hello request.
pub fn hello_request(client_public: &[u8; 32], client_challenge: &[u8; 16]) -> (r: Vec<u8>)
    ensures
        r@ == message_bytes(hello_fields(client_public@, client_challenge@)),
{
    let mut fields: Vec<Field> = Vec::new();
    fields.push(Field { number: 1, value: WireValue::Bytes(slice_to_vec(client_public.as_slice())) });
    fields.push(Field { number: 2, value: WireValue::Bytes(slice_to_vec(client_challenge.as_slice())) });
    fields.push(Field { number: 3, value: WireValue::Bytes(slice_to_vec(APP_ID.as_bytes())) });
    fields.push(Field { number: 4, value: WireValue::Bytes(slice_to_vec(APP_VERSION.as_bytes())) });
    assert(fields_view(fields@) =~= hello_fields(client_public@, client_challenge@));
    encode_message(&fields)
}

/// Reads a Hello reply body: the server's public key and the challenge, if any.
pub fn read_hello(body: &[u8]) -> (r: Option<([u8; 32], Option<Vec<u8>>)>)
    ensures
        match r {
            Some((k, c)) => hello_result(body@) == Some(
                (
                    k@,
                    match c {
                        Some(c) => Some(c@),
                        None => None,
                    },
                ),
            ),
            None => hello_result(body@) is None,
        },
{
    let fields = parse_message(body)?;
    let signed = find_bytes(&fields, 1)?;
    let signed_fields = parse_message(signed.as_slice())?;
    let key = find_bytes(&signed_fields, 1)?;
    if key.len() != 32 {
        return None;
    }
    let challenge = find_bytes(&signed_fields, 2);
    Some((key_array(&key), challenge))
}

/// The 32 bytes of `b` as an array.
pub fn key_array(b: &Vec<u8>) -> (r: [u8; 32])
    requires
        b@.len() == 32,
    ensures
        r@ == b@,
{
    let mut a: [u8; 32] = [0u8; 32];
    let mut i: usize = 0;
    while i < 32
        invariant
            i <= 32,
            b@.len() == 32,
            forall|j: int| 0 <= j < i ==> a@[j] == b@[j],
        decreases 32 - i,
    {
        a[i] = b[i];
        i = i + 1;
    }
    assert(a@ =~= b@);
    a
}

/// Encodes a message of one length-delimited field numbered 1 (the
/// Authenticate and OculusSetUserSecret bodies).
pub fn bytes_message(b: &[u8]) -> (r: Vec<u8>)
    ensures
        r@ == single_bytes_message(b@),
{
    let mut fields: Vec<Field> = Vec::new();
    fields.push(Field { number: 1, value: WireValue::Bytes(slice_to_vec(b)) });
    assert(fields_view(fields@) =~= seq![bytes_field(1, b@)]);
    encode_message(&fields)
}

/// Encodes a message of one flag field numbered 1 (the DevModeSet,
/// OtaEnabledSet and AdbModeSet bodies).
pub fn flag_message(on: bool) -> (r: Vec<u8>)
    ensures
        r@ == single_flag_message(on),
{
    let mut fields: Vec<Field> = Vec::new();
    fields.push(Field { number: 1, value: WireValue::Varint(if on { 1 } else { 0 }) });
    assert(fields_view(fields@) =~= seq![varint_field(1, if on { 1 } else { 0 })]);
    encode_message(&fields)
}

/// Reads the flag of a status reply (DevModeStatus, OtaEnabledStatus, AdbModeSet).
pub fn read_status_flag(body: &[u8]) -> (r: Option<bool>)
    ensures
        r == status_flag(body@),
{
    let fields = parse_message(body)?;
    match find_varint(&fields, 1) {
        Some(v) => Some(v != 0),
        None => Some(false),
    }
}

/// The fields of a MetaSetAccessTokenCombined request: the same token for
/// Meta and the Horizon profile, and the same user id for both.
pub open spec fn access_token_fields(token: Seq<u8>, user_id: Seq<u8>) -> Seq<FieldData> {
    seq![
        bytes_field(1, token),
        bytes_field(2, token),
        bytes_field(3, user_id),
        bytes_field(4, user_id),
    ]
}

/// The fields of a RetailSkipFirstTimeNux request: the default skip type with
/// reboot, do-not-disturb and guardian changes off, either issuing the skip
/// or asking for its status.
pub open spec fn skip_nux_fields(get_status: bool) -> Seq<FieldData> {
    if get_status {
        seq![varint_field(4, 1)]
    } else {
        seq![
            varint_field(1, 0),
            varint_field(2, 0),
            varint_field(3, 0),
            varint_field(4, 0),
            varint_field(5, 0),
        ]
    }
}

/// Whether a skip-NUX status reply says the skip is finished (status 0).
pub open spec fn nux_finished(body: Seq<u8>) -> Option<bool> {
    match message_parse(body) {
        None => None,
        Some(fs) => Some(last_varint(fs, 1) == Some(0u64)),
    }
}

/// Encodes a MetaSetAccessTokenCombined request.
pub fn access_token_request(token: &[u8], user_id: &[u8]) -> (r: Vec<u8>)
    ensures
        r@ == message_bytes(access_token_fields(token@, user_id@)),
{
    let mut fields: Vec<Field> = Vec::new();
    fields.push(Field { number: 1, value: WireValue::Bytes(slice_to_vec(token)) });
    fields.push(Field { number: 2, value: WireValue::Bytes(slice_to_vec(token)) });
    fields.push(Field { number: 3, value: WireValue::Bytes(slice_to_vec(user_id)) });
    fields.push(Field { number: 4, value: WireValue::Bytes(slice_to_vec(user_id)) });
    assert(fields_view(fields@) =~= access_token_fields(token@, user_id@));
    encode_message(&fields)
}

/// Encodes a RetailSkipFirstTimeNux request.
pub fn skip_nux_request(get_status: bool) -> (r: Vec<u8>)
    ensures
        r@ == message_bytes(skip_nux_fields(get_status)),
{
    let mut fields: Vec<Field> = Vec::new();
    if get_status {
        fields.push(Field { number: 4, value: WireValue::Varint(1) });
    } else {
        fields.push(Field { number: 1, value: WireValue::Varint(0) });
        fields.push(Field { number: 2, value: WireValue::Varint(0) });
        fields.push(Field { number: 3, value: WireValue::Varint(0) });
        fields.push(Field { number: 4, value: WireValue::Varint(0) });
        fields.push(Field { number: 5, value: WireValue::Varint(0) });
    }
    assert(fields_view(fields@) =~= skip_nux_fields(get_status));
    encode_message(&fields)
}

/// Reads a skip-NUX status reply: whether the skip is finished.
pub fn read_nux_finished(body: &[u8]) -> (r: Option<bool>)
    ensures
        r == nux_finished(body@),
{
    let fields = parse_message(body)?;
    match find_varint(&fields, 1) {
        Some(v) => Some(v == 0),
        None => Some(false),
    }
}

/// A request envelope reads back as its fields: whoever decodes the
/// envelope that `encode_request` built for sequence number `seq` finds
/// version 1, the method's number, `seq` and the body, if any.
///
/// With the counter that a session starts at 0 and advances by one on each
/// request it builds (and on nothing else), this makes the n-th request of a
/// session carry sequence number n.
pub proof fn lemma_request_envelope_fields(m: Method, seq: u32, body: Option<Seq<u8>>)
    requires
        body matches Some(b) ==> b.len() < 0x1_0000_0000_0000_0000,
    ensures
        message_parse(request_bytes(m, seq, body)) == Some(request_fields(m, seq, body)),
        last_varint(request_fields(m, seq, body), 1) == Some(REQUEST_VERSION),
        last_varint(request_fields(m, seq, body), 2) == Some(method_number(m)),
        last_varint(request_fields(m, seq, body), 3) == Some(seq as u64),
        last_bytes(request_fields(m, seq, body), 4) == body,
{
    let fs = request_fields(m, seq, body);
    assert forall|i: int| 0 <= i < fs.len() implies field_wf(#[trigger] fs[i]) by {}
    lemma_message_round_trip(fs);
    let head = seq![
        varint_field(1, REQUEST_VERSION),
        varint_field(2, method_number(m)),
        varint_field(3, seq as u64),
    ];
    assert(head.drop_last() =~= seq![varint_field(1, REQUEST_VERSION), varint_field(2, method_number(m))]);
    assert(head.drop_last().drop_last() =~= seq![varint_field(1, REQUEST_VERSION)]);
    assert(head.drop_last().drop_last().drop_last() =~= Seq::<FieldData>::empty());
    let h2 = head.drop_last();
    let h1 = h2.drop_last();
    assert(last_varint(h1, 1) == Some(REQUEST_VERSION));
    assert(last_varint(h2, 1) == Some(REQUEST_VERSION));
    assert(last_varint(head, 1) == Some(REQUEST_VERSION));
    assert(last_varint(h2, 2) == Some(method_number(m)));
    assert(last_varint(head, 2) == Some(method_number(m)));
    assert(h1.drop_last() =~= Seq::<FieldData>::empty());
    assert(h1.len() == 1 && h1.last() == varint_field(1, REQUEST_VERSION));
    assert(last_bytes(Seq::<FieldData>::empty(), 4) is None);
    assert(last_bytes(h1, 4) == last_bytes(h1.drop_last(), 4));
    assert(last_bytes(h1, 4) is None);
    assert(last_bytes(h2, 4) is None);
    assert(last_bytes(head, 4) is None);
    match body {
        Some(b) => {
            assert(fs.drop_last() =~= head);
            assert(last_varint(fs, 1) == last_varint(head, 1));
            assert(last_varint(fs, 2) == last_varint(head, 2));
            assert(last_varint(head, 3) == Some(seq as u64));
            assert(last_varint(fs, 3) == last_varint(head, 3));
        },
        None => {},
    }
}

} // verus!
