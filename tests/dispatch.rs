use hzospal::commands::{Command, CommandOutcome, CommandRun};
use hzospal::dispatch::{poll_step, within_budget, PollStep};
use hzospal::error::QuestError;
use hzospal::framer::{fragment_message, PacketAssembler};
use hzospal::messages::{
    access_token_request, flag_message, read_nux_finished, read_response, read_status_flag,
    skip_nux_request, Method,
};
use hzospal::wire::{encode_message, find_varint, parse_message, Field, WireValue};

fn flag_reply(v: u64) -> Vec<u8> {
    encode_message(&vec![Field { number: 1, value: WireValue::Varint(v) }])
}

#[test]
fn busy_reads_back_off_then_message_arrives() {
    let mut assembler = PacketAssembler::new();
    let mut waits = Vec::new();
    for t in 0..3u64 {
        match poll_step(&mut assembler, &[0xFF], t * 500) {
            PollStep::Wait(ms) => waits.push(ms),
            other => panic!("unexpected {:?}", other),
        }
    }
    assert_eq!(waits, vec![500, 500, 500]);
    let response = encode_message(&vec![
        Field { number: 1, value: WireValue::Varint(0) },
        Field { number: 2, value: WireValue::Varint(4) },
        Field { number: 3, value: WireValue::Bytes(b"reply".to_vec()) },
    ]);
    let packet = fragment_message(&response, 23).unwrap();
    assert_eq!(packet.len(), 1);
    let blob = match poll_step(&mut assembler, &packet[0], 1500) {
        PollStep::Complete(blob) => blob,
        other => panic!("unexpected {:?}", other),
    };
    assert_eq!(read_response(Method::HmdStatus, &blob), Ok(Some(b"reply".to_vec())));
}

#[test]
fn empty_read_and_partial_message_waits() {
    let mut assembler = PacketAssembler::new();
    assert_eq!(poll_step(&mut assembler, &[], 0), PollStep::Wait(100));
    let packets = fragment_message(&[9u8; 30], 23).unwrap();
    assert_eq!(poll_step(&mut assembler, &packets[0], 10), PollStep::Wait(50));
    assert_eq!(poll_step(&mut assembler, &packets[1], 20), PollStep::Complete(vec![9u8; 30]));
}

#[test]
fn poll_past_budget_times_out() {
    let mut assembler = PacketAssembler::new();
    let packet = fragment_message(b"late", 23).unwrap();
    assert_eq!(poll_step(&mut assembler, &packet[0], 30_001), PollStep::TimedOut);
    assert_eq!(assembler.next_seq(), 0);
    assert_eq!(poll_step(&mut assembler, &packet[0], 30_000), PollStep::Complete(b"late".to_vec()));
}

#[test]
fn set_dev_mode_is_confirmed_by_status() {
    let mut run = CommandRun::start(Command::SetDevMode(true));
    let (method, body) = run.call();
    assert_eq!(method, Method::DevModeSet);
    let body = body.unwrap();
    assert_eq!(body, vec![0x08, 0x01]);
    assert_eq!(read_status_flag(&body), Some(true));
    assert_eq!(run.on_reply(None, 0), Ok(None));
    let (method, body) = run.call();
    assert_eq!(method, Method::DevModeStatus);
    assert_eq!(body, None);
    assert_eq!(run.on_reply(Some(flag_reply(1)), 10), Ok(Some(CommandOutcome::Flag(true))));
}

#[test]
fn set_ota_mode_reports_what_the_headset_says() {
    let mut run = CommandRun::start(Command::SetOtaMode(false));
    let (method, body) = run.call();
    assert_eq!(method, Method::OtaEnabledSet);
    assert_eq!(body, Some(vec![0x08, 0x00]));
    assert_eq!(run.on_reply(Some(vec![]), 0), Ok(None));
    assert_eq!(run.call().0, Method::OtaEnabledStatus);
    assert_eq!(run.on_reply(Some(vec![]), 0), Ok(Some(CommandOutcome::Flag(false))));
}

#[test]
fn status_reply_without_body_is_protocol_error() {
    let mut run = CommandRun::start(Command::SetAdbMode(true));
    assert_eq!(run.call(), (Method::AdbModeSet, Some(flag_message(true))));
    assert_eq!(run.on_reply(None, 0), Err(QuestError::ProtocolError));
    let mut run = CommandRun::start(Command::HmdStatus);
    assert_eq!(run.call(), (Method::HmdStatus, None));
    assert_eq!(run.on_reply(Some(vec![0xFF]), 0), Err(QuestError::ProtocolError));
    let mut run = CommandRun::start(Command::HmdStatus);
    assert_eq!(run.on_reply(None, 0), Err(QuestError::ProtocolError));
    let mut run = CommandRun::start(Command::HmdStatus);
    let status = flag_reply(3);
    assert_eq!(run.on_reply(Some(status.clone()), 0), Ok(Some(CommandOutcome::Status(status))));
}

#[test]
fn skip_nux_polls_until_status_zero() {
    let token = access_token_request(b"token", b"1");
    let fields = parse_message(&token).unwrap();
    assert_eq!(fields.len(), 4);
    let mut run = CommandRun::start(Command::SkipNux(token.clone()));
    assert_eq!(run.call(), (Method::MetaSetAccessTokenCombined, Some(token)));
    assert_eq!(run.on_reply(None, 0), Ok(None));
    let (method, body) = run.call();
    assert_eq!(method, Method::RetailSkipFirstTimeNux);
    assert_eq!(body, Some(skip_nux_request(false)));
    assert_eq!(run.on_reply(None, 0), Ok(None));
    let (_, body) = run.call();
    let body = body.unwrap();
    assert_eq!(find_varint(&parse_message(&body).unwrap(), 4), Some(1));
    assert_eq!(run.on_reply(Some(flag_reply(2)), 1000), Ok(None));
    assert_eq!(run.call().1, Some(body));
    assert_eq!(run.on_reply(Some(flag_reply(0)), 2000), Ok(Some(CommandOutcome::NuxSkipped)));
}

#[test]
fn skip_nux_polling_is_bounded() {
    let mut run = CommandRun::start(Command::SkipNux(vec![]));
    run.on_reply(None, 0).unwrap();
    run.on_reply(None, 0).unwrap();
    assert_eq!(run.on_reply(Some(flag_reply(1)), 60_001), Err(QuestError::Timeout));
    assert_eq!(read_nux_finished(&flag_reply(0)), Some(true));
    assert_eq!(read_nux_finished(&[]), Some(false));
}

#[test]
fn busy_reads_leave_a_partial_message_alone() {
    let mut assembler = PacketAssembler::new();
    let packets = fragment_message(&[4u8; 30], 23).unwrap();
    assert_eq!(poll_step(&mut assembler, &packets[0], 0), PollStep::Wait(50));
    assert_eq!(poll_step(&mut assembler, &[0xFF], 10), PollStep::Wait(500));
    assert_eq!(assembler.next_seq(), 1);
    assert_eq!(poll_step(&mut assembler, &packets[1], 520), PollStep::Complete(vec![4u8; 30]));
}

#[test]
fn budget_check_before_reading() {
    assert!(within_budget(0));
    assert!(within_budget(30_000));
    assert!(!within_budget(30_001));
}
