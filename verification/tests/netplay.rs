use howlingwind::netplay::{
    classify_datagram, latest_test_input, ping_packet, session_state_name, sync_test_passed, test_input_packet,
    Datagram, FrameInput, InputBuffer, InputPacket, NetplaySession, NetplayStatusInfo, SessionState, SyncPacket,
    TEST_FRAME,
};
use std::collections::HashMap;

fn input(buttons: u16, sx: i8) -> FrameInput {
    FrameInput { buttons, stick_x: sx, stick_y: -3, cstick_x: 4, cstick_y: -128, trigger_l: 7, trigger_r: 255 }
}

#[test]
fn input_packet_round_trip() {
    let p = InputPacket { frame: 0x01020304, player_id: 1, input: input(0x1234, -100), checksum: 0 };
    let bytes = p.serialize();
    assert_eq!(&bytes[0..4], &0x484F574Cu32.to_le_bytes());
    assert_eq!(&bytes[4..8], &[4, 3, 2, 1]);
    assert_eq!(bytes[8], 1);
    assert_eq!(&bytes[9..11], &[0x34, 0x12]);
    assert_eq!(bytes[11], (-100i8) as u8);
    let crc = crc32fast::hash(&bytes[4..17]);
    assert_eq!(&bytes[17..20], &crc.to_le_bytes()[0..3]);
    let back = InputPacket::deserialize(&bytes).expect("well-formed packet");
    assert_eq!(back.frame, p.frame);
    assert_eq!(back.player_id, 1);
    assert_eq!(back.input, p.input);
    assert_eq!(back.checksum, crc);
}

#[test]
fn input_packet_rejects_bad_magic_and_crc() {
    let p = InputPacket { frame: 9, player_id: 0, input: input(1, 2), checksum: 0 };
    let mut bytes = p.serialize();
    bytes[0] ^= 0xFF;
    assert!(InputPacket::deserialize(&bytes).is_none());
    let mut bytes = p.serialize();
    bytes[12] ^= 0x01;
    assert!(InputPacket::deserialize(&bytes).is_none());
}

#[test]
fn sync_packet_round_trip() {
    let s = SyncPacket { frame: 600, state_hash: 0xDEADBEEF, p1_health: 12, p2_health: 300 };
    let bytes = s.serialize();
    assert_eq!(bytes.len(), 16);
    let back = SyncPacket::deserialize(&bytes).expect("sync packet");
    assert_eq!(back.frame, 600);
    assert_eq!(back.state_hash, 0xDEADBEEF);
    assert_eq!(back.p1_health, 12);
    assert_eq!(back.p2_health, 300);
    assert!(SyncPacket::deserialize(&bytes[0..15]).is_none());
    let mut bad = bytes;
    bad[3] = 0;
    assert!(SyncPacket::deserialize(&bad).is_none());
}

#[test]
fn ping_is_answered_and_pong_carries_time() {
    let ping = ping_packet(123456789);
    match classify_datagram(&ping) {
        Datagram::Ping(reply) => {
            assert_eq!(&reply[0..4], &0x504F4E47u32.to_le_bytes());
            assert_eq!(&reply[4..12], &123456789u64.to_le_bytes());
            match classify_datagram(&reply) {
                Datagram::Pong(t) => assert_eq!(t, 123456789),
                other => panic!("expected pong, got {:?}", other),
            }
        }
        other => panic!("expected ping, got {:?}", other),
    }
    assert!(matches!(classify_datagram(&[1, 2, 3]), Datagram::Ignored));
}

#[test]
fn classify_input_and_sync_datagrams() {
    let p = InputPacket { frame: 5, player_id: 1, input: input(8, 0), checksum: 0 };
    match classify_datagram(&p.serialize()) {
        Datagram::Input(q) => assert_eq!(q.frame, 5),
        other => panic!("expected input, got {:?}", other),
    }
    let s = SyncPacket { frame: 60, state_hash: 1, p1_health: 0, p2_health: 0 };
    match classify_datagram(&s.serialize()) {
        Datagram::Sync(q) => assert_eq!(q.frame, 60),
        other => panic!("expected sync, got {:?}", other),
    }
}

#[test]
fn input_buffer_confirms_and_predicts() {
    let mut b = InputBuffer::new(40);
    let a = input(1, 10);
    let c = input(2, 20);
    assert!(!b.add_remote(10, a));
    assert_eq!(b.get_remote(10), (a, false));
    // A frame not yet received is predicted from the latest remote input.
    let (predicted, is_predicted) = b.get_remote(11);
    assert!(is_predicted);
    assert_eq!(predicted, a);
    // The real input differs from the prediction: a rollback is needed.
    assert!(b.add_remote(11, c));
    assert_eq!(b.get_remote(11), (c, false));
    assert_eq!(b.latest_remote_frame, 11);
    b.add_local(3, a);
    assert_eq!(b.latest_local_frame, 3);
}

#[test]
fn input_buffer_prediction_without_data_is_neutral() {
    let mut b = InputBuffer::new(10);
    let (p, predicted) = b.get_remote(0);
    assert!(predicted);
    assert_eq!(p, FrameInput::default());
}

#[test]
fn session_flow_and_stall() {
    let mut s = NetplaySession::new(0, 2, 7);
    assert_eq!(s.state, SessionState::Disconnected);
    s.mark_bound(7000);
    assert_eq!(s.state, SessionState::Connecting);
    s.set_peer("1.2.3.4:7000".to_string());
    assert_eq!(s.state, SessionState::Connected);
    let pkt = s.send_input(input(3, 1));
    assert_eq!(pkt.frame, 0);
    for _ in 0..9 {
        s.advance_frame();
    }
    assert_eq!(s.frames_ahead(), 9);
    assert!(s.should_stall());
    let remote = vec![
        InputPacket { frame: 4, player_id: 1, input: input(1, 1), checksum: 0 },
        InputPacket { frame: TEST_FRAME, player_id: 1, input: input(9, 9), checksum: 0 },
    ];
    let frames = s.process_received(&remote);
    assert!(frames.is_empty());
    assert_eq!(s.frames_ahead(), 5);
    assert!(!s.should_stall());
    let info = NetplayStatusInfo::of(Some(&s));
    assert_eq!(info.state, "Connected");
    assert!(info.peer_connected);
    assert_eq!(info.current_frame, 9);
    assert_eq!(NetplayStatusInfo::of(None).state, "None");
}

#[test]
fn mispredicted_frames_come_back_sorted() {
    let mut s = NetplaySession::new(1, 2, 7);
    s.set_peer("peer".to_string());
    for _ in 0..3 {
        let _ = s.get_remote_input();
        s.advance_frame();
    }
    // Frames 0..3 were predicted as neutral; real inputs differ.
    let remote = vec![
        InputPacket { frame: 2, player_id: 0, input: input(5, 5), checksum: 0 },
        InputPacket { frame: 0, player_id: 0, input: input(6, 6), checksum: 0 },
    ];
    let frames = s.process_received(&remote);
    assert_eq!(frames, vec![0, 2]);
}

#[test]
fn desync_is_detected_only_on_disagreement() {
    let mut s = NetplaySession::new(0, 2, 7);
    let mut hashes = HashMap::new();
    hashes.insert(60u32, 111u32);
    let agree = SyncPacket { frame: 60, state_hash: 111, p1_health: 0, p2_health: 0 };
    assert_eq!(s.check_sync_packet(agree, &hashes), None);
    let unknown = SyncPacket { frame: 120, state_hash: 5, p1_health: 0, p2_health: 0 };
    assert_eq!(s.check_sync_packet(unknown, &hashes), None);
    let differ = SyncPacket { frame: 60, state_hash: 222, p1_health: 0, p2_health: 0 };
    assert_eq!(s.check_sync_packet(differ, &hashes), Some((60, 111, 222)));
    assert_eq!(s.desync_info, Some((60, 111, 222)));
}

#[test]
fn ping_from_session_is_recorded() {
    let mut s = NetplaySession::new(0, 2, 7);
    let buf = s.send_ping(42);
    assert_eq!(s.last_ping_sent_us, 42);
    assert_eq!(&buf[4..12], &42u64.to_le_bytes());
}

#[test]
fn controller_test_helpers() {
    let p = test_input_packet(1, 0x0100, -5, 6);
    assert_eq!(p.frame, TEST_FRAME);
    assert_eq!(p.input.cstick_x, 0);
    let none = latest_test_input(&vec![]);
    assert!(!none.got_remote);
    let got = latest_test_input(&vec![p, test_input_packet(1, 0x0200, 1, 2)]);
    assert!(got.got_remote);
    assert_eq!(got.buttons, 0x0200);
    assert_eq!((got.stick_x, got.stick_y), (1, 2));
    assert!(sync_test_passed(3));
    assert!(!sync_test_passed(2));
    assert_eq!(session_state_name(SessionState::Playing), "Playing");
}

#[test]
fn input_packet_encode_and_decode_with_a_given_checksum() {
    let p = InputPacket { frame: 7, player_id: 1, input: input(0x0102, 5), checksum: 0 };
    let bytes = p.encode(0xAABBCCDD);
    assert_eq!(&bytes[0..4], &0x484F574Cu32.to_le_bytes());
    assert_eq!(&bytes[4..9], &[7, 0, 0, 0, 1]);
    assert_eq!(&bytes[9..17], &[0x02, 0x01, 5, (-3i8) as u8, 4, 0x80, 7, 255]);
    assert_eq!(&bytes[17..20], &[0xDD, 0xCC, 0xBB]);
    let back = InputPacket::decode(&bytes, 0x11BBCCDD).expect("low 24 bits match");
    assert_eq!(back.frame, 7);
    assert_eq!(back.player_id, 1);
    assert_eq!(back.input, p.input);
    assert_eq!(back.checksum, 0x11BBCCDD);
    assert!(InputPacket::decode(&bytes, 0xAABBCCDE).is_none());
    let mut bad_magic = bytes;
    bad_magic[3] = 0;
    assert!(InputPacket::decode(&bad_magic, 0xAABBCCDD).is_none());
}

fn sync(frame: u32, state_hash: u32) -> SyncPacket {
    SyncPacket { frame, state_hash, p1_health: 0, p2_health: 0 }
}

#[test]
fn sync_checks_stop_at_first_desync() {
    let mut session = NetplaySession::new(0, 2, 7);
    let mut hashes = HashMap::new();
    hashes.insert(30u32, 5u32);
    hashes.insert(60u32, 7u32);
    let packets = vec![sync(30, 5), sync(45, 1), sync(60, 8), sync(90, 1)];
    assert_eq!(session.process_sync_packets(&packets, &hashes), (Some((60, 7, 8)), 3));
    assert_eq!(session.desync_info, Some((60, 7, 8)));
    let mut fresh = NetplaySession::new(0, 2, 7);
    assert_eq!(fresh.process_sync_packets(&vec![sync(30, 5), sync(90, 2)], &hashes), (None, 2));
    assert_eq!(fresh.desync_info, None);
}
