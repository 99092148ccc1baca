use hzospal::error::QuestError;
use hzospal::messages::{encode_request, read_response, Method};
use hzospal::wire::{encode_message, parse_message, Field, WireValue};

#[test]
fn varints_encode_in_seven_bit_groups() {
    let out = encode_message(&vec![Field { number: 1, value: WireValue::Varint(300) }]);
    assert_eq!(out, vec![0x08, 0xAC, 0x02]);
    let out = encode_message(&vec![Field { number: 2, value: WireValue::Bytes(b"hi".to_vec()) }]);
    assert_eq!(out, vec![0x12, 0x02, b'h', b'i']);
}

#[test]
fn messages_parse_back() {
    let fields = vec![
        Field { number: 1, value: WireValue::Varint(u64::MAX) },
        Field { number: 7, value: WireValue::Bytes(vec![1, 2, 3]) },
        Field { number: 3, value: WireValue::Fixed32(vec![1, 2, 3, 4]) },
        Field { number: 4, value: WireValue::Fixed64(vec![0; 8]) },
    ];
    let bytes = encode_message(&fields);
    assert_eq!(parse_message(&bytes), Some(fields));
}

#[test]
fn malformed_messages_are_refused() {
    assert_eq!(parse_message(&[0x12, 0x05, 1]), None);
    assert_eq!(parse_message(&[0x00, 0x01]), None);
    assert_eq!(parse_message(&[0x0B]), None);
    assert_eq!(parse_message(&[0x08, 0x80]), None);
    assert_eq!(parse_message(&[]), Some(vec![]));
}

#[test]
fn request_envelope_layout() {
    let body = vec![0xAA];
    let bytes = encode_request(Method::HmdStatus, 5, Some(&body));
    assert_eq!(bytes, vec![0x08, 0x01, 0x10, 0x04, 0x18, 0x05, 0x22, 0x01, 0xAA]);
    assert_eq!(encode_request(Method::Hello, 0, None), vec![0x08, 0x01, 0x10, 0x01, 0x18, 0x00]);
}

#[test]
fn response_envelope_reading() {
    assert_eq!(read_response(Method::HmdStatus, &[0x08, 0x00, 0x1A, 0x01, 0x07]), Ok(Some(vec![7])));
    assert_eq!(read_response(Method::HmdStatus, &[0x10, 0x03]), Ok(None));
    assert_eq!(read_response(Method::HmdStatus, &[0x08, 0x01]), Err(QuestError::ProtocolError));
    assert_eq!(read_response(Method::Authenticate, &[0x08, 0x01]), Err(QuestError::AuthRejected));
    assert_eq!(read_response(Method::HmdStatus, &[0x1A]), Err(QuestError::ProtocolError));
}
