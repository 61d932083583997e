use dummycloud::protocol::{checksum, ProtocolError, RequestType};
use dummycloud::stream::{hex, next_packet_len, process_packet, take_next_packet, PacketAction};

fn frame(msg_type: u8, payload: &[u8]) -> Vec<u8> {
    let mut f = vec![0xa5, (payload.len() % 256) as u8, (payload.len() / 256) as u8, 0, msg_type, 1, 2, 0x15, 0xcd, 0x5b, 0x07];
    f.extend_from_slice(payload);
    f.push(0);
    f.push(0x15);
    let n = f.len();
    f[n - 2] = checksum(&f);
    f
}

#[test]
fn next_packet_len_skips_garbage_before_a_frame() {
    let mut pending = vec![0x00, 0x01, 0x02];
    pending.extend(frame(0x47, &[1, 2, 3]));
    assert_eq!(next_packet_len(&mut pending), Some(16));
    assert_eq!(pending[0], 0xa5);
    assert_eq!(pending.len(), 16);
}

#[test]
fn next_packet_len_waits_for_a_full_header() {
    let mut pending = vec![0x00; 10];
    assert_eq!(next_packet_len(&mut pending), None);
    assert_eq!(pending.len(), 10);
    let mut pending = vec![0x00; 12];
    assert_eq!(next_packet_len(&mut pending), None);
    assert_eq!(pending, vec![0x00; 10]);
}

#[test]
fn next_packet_len_drops_oversized_frames() {
    let mut pending = vec![0xa5, 0xff, 0xff, 0, 0, 0, 0, 0, 0, 0, 0, 9];
    assert_eq!(next_packet_len(&mut pending), None);
    assert!(pending.is_empty());
}

#[test]
fn take_next_packet_splits_a_stream() {
    let first = frame(0x41, &[7; 5]);
    let second = frame(0x47, &[8; 2]);
    let mut pending = first.clone();
    pending.extend_from_slice(&second[..4]);
    assert_eq!(take_next_packet(&mut pending), Some(first));
    assert_eq!(take_next_packet(&mut pending), None);
    assert_eq!(pending, second[..4].to_vec());
    pending.extend_from_slice(&second[4..]);
    assert_eq!(take_next_packet(&mut pending), Some(second));
    assert!(pending.is_empty());
}

#[test]
fn process_packet_drops_what_is_not_a_frame() {
    match process_packet(&[0xa5, 0, 0]) {
        PacketAction::Drop(e) => assert_eq!(e, ProtocolError::PacketTooShort { len: 3 }),
        other => panic!("unexpected {:?}", other),
    }
}

#[test]
fn process_packet_drops_unreadable_data() {
    match process_packet(&frame(0x42, &[0x00, 0x08, 0x01])) {
        PacketAction::DropData(_, e) => assert_eq!(e, ProtocolError::PayloadTooShort { got: 3, need: 251 }),
        other => panic!("unexpected {:?}", other),
    }
}

#[test]
fn process_packet_replies_to_handshakes_and_heartbeats() {
    match process_packet(&frame(0x41, &[0u8; 12])) {
        PacketAction::Reply(r) => {
            assert_eq!(r.request_type, RequestType::Handshake);
            assert!(matches!(r.handshake, Some(Err(ProtocolError::PayloadTooShort { got: 12, need: 210 }))));
            assert!(r.data.is_none());
            assert_eq!(r.packet.header.logger_serial, 0x075bcd15);
        },
        other => panic!("unexpected {:?}", other),
    }
    match process_packet(&frame(0x47, &[1])) {
        PacketAction::Reply(r) => {
            assert_eq!(r.request_type, RequestType::Heartbeat);
            assert!(r.handshake.is_none());
            assert!(r.data.is_none());
        },
        other => panic!("unexpected {:?}", other),
    }
    match process_packet(&frame(0x42, &[0x00, 0x09])) {
        PacketAction::Reply(r) => {
            assert_eq!(r.request_type, RequestType::Data);
            assert!(r.data.is_none());
        },
        other => panic!("unexpected {:?}", other),
    }
}

#[test]
fn hex_dump() {
    assert_eq!(hex(&[0x00, 0x0f, 0xa5, 0xff]), "000fa5ff");
    assert_eq!(hex(&[]), "");
}
