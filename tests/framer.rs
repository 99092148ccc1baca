use hzospal::error::QuestError;
use hzospal::framer::{fragment_message, PacketAssembler};

#[test]
fn test_fragment_message_simple() {
    let data = b"Hello World";
    let mtu = 20; // 15 payload bytes per packet: one packet
    let packets = fragment_message(data, mtu).unwrap();

    assert_eq!(packets.len(), 1);
    let p = &packets[0];
    assert_eq!(p.len(), 2 + 11);
    assert_eq!(p[0], 0x80);
    assert_eq!(p[1], 0x00);
    assert_eq!(&p[2..], data);
}

#[test]
fn test_fragment_message_split() {
    let data = b"Hello World This Is A Long Message"; // 34 bytes
    let mtu = 10; // 5 payload bytes per packet
    let packets = fragment_message(data, mtu).unwrap();

    assert_eq!(packets.len(), 7);

    assert_eq!(packets[0][0], 0x00);
    assert_eq!(packets[0][1], 0x00);
    assert_eq!(&packets[0][2..], b"Hello");

    assert_eq!(packets[6][0], 0x80);
    assert_eq!(packets[6][1], 0x06);
    assert_eq!(&packets[6][2..], b"sage");
}

#[test]
fn test_reassembly_simple() {
    let mut assembler = PacketAssembler::new();
    let data = b"TestPayload";
    let packet = vec![
        0x80, 0x00, b'T', b'e', b's', b't', b'P', b'a', b'y', b'l', b'o', b'a', b'd',
    ];

    let result = assembler.handle_notification(&packet);
    assert_eq!(result, Some(data.to_vec()));
}

#[test]
fn test_reassembly_split() {
    let mut assembler = PacketAssembler::new();
    let expected = b"Hello World This Is A Long Message".to_vec();

    let packets = fragment_message(&expected, 10).unwrap();

    let mut result = None;
    for p in packets {
        result = assembler.handle_notification(&p);
    }

    assert_eq!(result, Some(expected));
}

#[test]
fn test_sequence_mismatch_reset() {
    let mut assembler = PacketAssembler::new();

    let _ = assembler.handle_notification(&[0x00, 0x00, 0xAA]);

    let result = assembler.handle_notification(&[0x80, 0x05, 0xBB]);

    assert_eq!(result, None);
    assert_eq!(assembler.next_seq(), 0);
}

#[test]
fn test_sequence_reset_with_start() {
    let mut assembler = PacketAssembler::new();

    assembler.handle_notification(&[0x00, 0x00, 0xAA]);

    let result = assembler.handle_notification(&[0x80, 0x00, 0xCC]);

    assert_eq!(result, Some(vec![0xCC]));
}

#[test]
fn fragmentation_of_hundred_bytes_at_default_mtu() {
    let data: Vec<u8> = (0..100u32).map(|i| i as u8).collect();
    let packets = fragment_message(&data, 23).unwrap();
    assert_eq!(packets.len(), 6);
    let headers: Vec<(u8, u8)> = packets.iter().map(|p| (p[0], p[1])).collect();
    assert_eq!(
        headers,
        vec![(0x00, 0x00), (0x00, 0x01), (0x00, 0x02), (0x00, 0x03), (0x00, 0x04), (0x80, 0x05)]
    );
    for p in &packets[..5] {
        assert_eq!(p.len(), 20);
    }
    assert_eq!(packets[5].len(), 2 + 10);
    let joined: Vec<u8> = packets.iter().flat_map(|p| p[2..].to_vec()).collect();
    assert_eq!(joined, data);
}

#[test]
fn fragment_mtu_without_room_is_config_error() {
    assert_eq!(fragment_message(b"abc", 5), Err(QuestError::ConfigError));
    assert_eq!(fragment_message(b"abc", 0), Err(QuestError::ConfigError));
    assert_eq!(fragment_message(b"abc", 6).unwrap().len(), 3);
}

#[test]
fn fragment_empty_payload_gives_no_packets() {
    assert_eq!(fragment_message(b"", 23).unwrap().len(), 0);
}

#[test]
fn round_trip_across_mtus() {
    let data: Vec<u8> = (0..1000u32).map(|i| (i * 7 % 251) as u8).collect();
    for mtu in [7usize, 8, 23, 100, 512] {
        let packets = fragment_message(&data, mtu).unwrap();
        assert_eq!(packets.len(), (data.len() + (mtu - 5) - 1) / (mtu - 5));
        let mut assembler = PacketAssembler::new();
        for (i, p) in packets.iter().enumerate() {
            let out = assembler.handle_notification(p);
            assert_eq!((p[0] & 0x80) != 0, i == packets.len() - 1);
            if i + 1 < packets.len() {
                assert_eq!(out, None);
            } else {
                assert_eq!(out, Some(data.clone()));
            }
        }
        assert_eq!(assembler.next_seq(), 0);
    }
}

#[test]
fn headers_wrap_sequence_at_13_bits() {
    let data = vec![0x5Au8; 8200];
    let packets = fragment_message(&data, 6).unwrap();
    assert_eq!(packets.len(), 8200);
    for (i, p) in packets.iter().enumerate() {
        let seq = (((p[0] & 0x1F) as usize) << 8) | p[1] as usize;
        assert_eq!(seq, i % 8192);
    }
    assert_eq!(packets[8192][0], 0x00);
    assert_eq!(packets[8192][1], 0x00);
    assert_eq!(packets[8199][0], 0x80);
}

#[test]
fn resync_on_new_single_packet_message() {
    let a = vec![1u8; 50];
    let packets_a = fragment_message(&a, 23).unwrap();
    let mut assembler = PacketAssembler::new();
    assert_eq!(assembler.handle_notification(&packets_a[0]), None);
    assert_eq!(assembler.handle_notification(&packets_a[1]), None);
    let b = fragment_message(b"fresh", 23).unwrap();
    assert_eq!(b.len(), 1);
    assert_eq!(assembler.handle_notification(&b[0]), Some(b"fresh".to_vec()));
    assert_eq!(assembler.next_seq(), 0);
}

#[test]
fn short_packets_are_dropped() {
    let mut assembler = PacketAssembler::new();
    assert_eq!(assembler.handle_notification(&[0x00, 0x00, 0x01]), None);
    assert_eq!(assembler.handle_notification(&[0x80]), None);
    assert_eq!(assembler.next_seq(), 1);
    assert_eq!(assembler.handle_notification(&[0x80, 0x01, 0x02]), Some(vec![0x01, 0x02]));
}

#[test]
fn mismatched_nonzero_seq_discards() {
    let mut assembler = PacketAssembler::default();
    assert_eq!(assembler.handle_notification(&[0x80, 0x03, 0x01]), None);
    assert_eq!(assembler.next_seq(), 0);
}
