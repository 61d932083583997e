use dummycloud::protocol::{
    build_time_response, build_time_response_at, checksum, packet_total_len, parse_data_payload,
    parse_logger_payload, parse_packet, Packet, ProtocolError, RequestType, FOOTER_LEN, HEADER_LEN,
};

fn write_u16_le(buf: &mut [u8], offset: usize, value: u16) {
    buf[offset..offset + 2].copy_from_slice(&value.to_le_bytes());
}

fn write_u32_le(buf: &mut [u8], offset: usize, value: u32) {
    buf[offset..offset + 4].copy_from_slice(&value.to_le_bytes());
}

fn packet_with_payload(payload: &[u8]) -> Vec<u8> {
    let mut packet = vec![0u8; HEADER_LEN + payload.len() + FOOTER_LEN];
    packet[0] = 0xa5;
    write_u16_le(&mut packet, 1, payload.len() as u16);
    packet[3] = 0x00;
    packet[4] = 0x41;
    packet[5] = 0x02;
    packet[6] = 0x03;
    write_u32_le(&mut packet, 7, 1234567890);
    packet[HEADER_LEN..HEADER_LEN + payload.len()].copy_from_slice(payload);
    let checksum_index = packet.len() - 2;
    packet[checksum_index] = checksum(&packet);
    let magic_index = packet.len() - 1;
    packet[magic_index] = 0x15;
    packet
}

#[test]
fn parses_packet_and_builds_time_response() {
    let packet = packet_with_payload(&[0x08, 0x01]);
    let parsed = parse_packet(&packet).expect("packet parses");
    let response = build_time_response(&parsed);

    assert_eq!(response.len(), 23);
    assert_eq!(response[0], 0xa5);
    assert_eq!(response[4], 0x11);
    assert_eq!(response[11], 0x08);
    assert_eq!(response[12], 0x01);
    assert_eq!(response[21], checksum(&response));
    assert_eq!(response[22], 0x15);
}

#[test]
fn rejects_wrong_footer_magic() {
    let mut packet = packet_with_payload(&[0x08, 0x01]);
    let last = packet.len() - 1;
    packet[last] = 0xff;

    assert!(parse_packet(&packet).is_err());
}

#[test]
fn wrong_footer_magic_names_the_byte() {
    let mut packet = packet_with_payload(&[0x08, 0x01]);
    let last = packet.len() - 1;
    packet[last] = 0xff;
    assert_eq!(parse_packet(&packet).unwrap_err(), ProtocolError::InvalidFooterMagic { found: 0xff });
}

#[test]
fn parse_packet_reads_header_and_payload() {
    let packet = packet_with_payload(&[0x08, 0x01, 0x7f]);
    let parsed = parse_packet(&packet).unwrap();
    assert_eq!(parsed.header.unknown1, 0x00);
    assert_eq!(parsed.header.msg_type, 0x41);
    assert_eq!(parsed.header.msg_id_response, 0x02);
    assert_eq!(parsed.header.msg_id_request, 0x03);
    assert_eq!(parsed.header.logger_serial, 1234567890);
    assert_eq!(parsed.payload, vec![0x08, 0x01, 0x7f]);
}

#[test]
fn parse_packet_errors_in_order() {
    assert_eq!(parse_packet(&[0xa5; 12]).unwrap_err(), ProtocolError::PacketTooShort { len: 12 });
    let mut packet = packet_with_payload(&[1, 2]);
    packet[0] = 0x00;
    assert_eq!(parse_packet(&packet).unwrap_err(), ProtocolError::InvalidHeaderMagic { found: 0 });
    let mut packet = packet_with_payload(&[1, 2]);
    packet.push(0x15);
    assert_eq!(
        parse_packet(&packet).unwrap_err(),
        ProtocolError::LengthMismatch { payload_len: 2, packet_len: 16 }
    );
}

#[test]
fn checksum_sums_between_magic_and_checksum() {
    assert_eq!(checksum(&[0xa5, 1, 2, 3, 0, 0x15]), 6);
    assert_eq!(checksum(&[0xa5, 0xff, 0x02, 0xee, 0x15]), 0x01);
    assert_eq!(checksum(&[0xa5, 0x00, 0x15]), 0);
}

#[test]
fn packet_total_len_reads_length_prefix() {
    assert_eq!(packet_total_len(&[0xa5; 10]), None);
    assert_eq!(packet_total_len(&[0x00; 11]), Some(Err(ProtocolError::InvalidHeaderMagic { found: 0 })));
    let packet = packet_with_payload(&[9; 300]);
    assert_eq!(packet_total_len(&packet), Some(Ok(packet.len())));
    assert_eq!(packet_total_len(&packet[..11]), Some(Ok(313)));
}

#[test]
fn time_response_carries_the_time_and_parses_back() {
    let packet = parse_packet(&packet_with_payload(&[0x08, 0x01])).unwrap();
    let response = build_time_response_at(&packet, 0x6553_f100);
    assert_eq!(
        response,
        vec![
            0xa5, 10, 0, 0x00, 0x11, 0x03, 0x03, 0xd2, 0x02, 0x96, 0x49, 0x08, 0x01, 0x00, 0xf1,
            0x53, 0x65, 0, 0, 0, 0, 0x86, 0x15
        ]
    );
    let back = parse_packet(&response).unwrap();
    assert_eq!(back.header.msg_type, 0x11);
    assert_eq!(back.header.msg_id_response, 0x03);
    assert_eq!(back.header.logger_serial, 1234567890);
    assert_eq!(back.payload.len(), 10);
}

#[test]
fn time_response_wraps_counters_and_handles_empty_payload() {
    let packet = Packet {
        header: dummycloud::protocol::Header {
            unknown1: 7,
            msg_type: 0x10,
            msg_id_response: 0xff,
            msg_id_request: 9,
            logger_serial: 1,
        },
        payload: Vec::new(),
    };
    let response = build_time_response_at(&packet, 0);
    assert_eq!(response[3], 7);
    assert_eq!(response[4], 0xe0);
    assert_eq!(response[5], 0x00);
    assert_eq!(response[11], 0x00);
    assert_eq!(response[21], checksum(&response));
}

#[test]
fn request_types_and_names() {
    assert_eq!(RequestType::from_byte(0x41), RequestType::Handshake);
    assert_eq!(RequestType::from_byte(0x42), RequestType::Data);
    assert_eq!(RequestType::from_byte(0x43), RequestType::Wifi);
    assert_eq!(RequestType::from_byte(0x47), RequestType::Heartbeat);
    assert_eq!(RequestType::from_byte(0x48), RequestType::Unknown(0x48));
    assert_eq!(RequestType::Handshake.name(), "HANDSHAKE");
    assert_eq!(RequestType::Data.name(), "DATA");
    assert_eq!(RequestType::Wifi.name(), "WIFI");
    assert_eq!(RequestType::Heartbeat.name(), "HEARTBEAT");
    assert_eq!(RequestType::Unknown(3).name(), "UNKNOWN");
}

fn packet_of(payload: Vec<u8>) -> Packet {
    parse_packet(&packet_with_payload(&payload)).unwrap()
}

#[test]
fn logger_payload_reads_nul_terminated_texts() {
    let mut payload = vec![0u8; 210];
    payload[19..25].copy_from_slice(b"MW3_16");
    payload[65..75].copy_from_slice(b"192.0.2.15");
    payload[89..99].copy_from_slice(b"V1.1.00.0F");
    payload[172..180].copy_from_slice(b"test-net");
    payload[181] = b'x';
    let logger = parse_logger_payload(&packet_of(payload)).unwrap();
    assert_eq!(logger.fw_ver, "MW3_16");
    assert_eq!(logger.ip, "192.0.2.15");
    assert_eq!(logger.ver, "V1.1.00.0F");
    assert_eq!(logger.ssid, "test-net");
    assert_eq!(logger.mac, None);
}

#[test]
fn logger_payload_field_without_nul_runs_to_its_end() {
    let mut payload = vec![b'a'; 210];
    payload[60] = 0;
    let logger = parse_logger_payload(&packet_of(payload)).unwrap();
    assert_eq!(logger.fw_ver.len(), 41);
    assert_eq!(logger.ip.len(), 17);
}

#[test]
fn logger_payload_too_short() {
    let err = parse_logger_payload(&packet_of(vec![0u8; 209])).unwrap_err();
    assert_eq!(err, ProtocolError::PayloadTooShort { got: 209, need: 210 });
}

#[test]
fn data_payload_errors_and_other_devices() {
    assert_eq!(
        parse_data_payload(&packet_of(vec![0x08])).unwrap_err(),
        ProtocolError::PayloadTooShort { got: 1, need: 2 }
    );
    assert!(parse_data_payload(&packet_of(vec![0x00, 0x09, 1, 2])).unwrap().is_none());
    assert_eq!(
        parse_data_payload(&packet_of(vec![0x00, 0x08, 1, 2])).unwrap_err(),
        ProtocolError::PayloadTooShort { got: 4, need: 251 }
    );
}

#[test]
fn historic_data_payload_is_all_zero() {
    let mut payload = vec![0x55u8; 251];
    payload[0] = 0x80;
    payload[1] = 0x08;
    let data = parse_data_payload(&packet_of(payload)).unwrap().unwrap();
    assert!(data.pv.is_empty());
    assert_eq!(data.grid.active_power_w, 0);
    assert_eq!(data.inverter.radiator_temp_celsius, 0);
    assert_eq!(data.inverter_meta.mppt_count, 0);
}

#[test]
fn data_payload_readings() {
    let mut payload = vec![0u8; 251];
    payload[1] = 0x08;
    write_u32_le(&mut payload, 59, 345);
    write_u32_le(&mut payload, 33, 1234);
    write_u32_le(&mut payload, 37, 98765);
    write_u16_le(&mut payload, 45, 2301);
    write_u16_le(&mut payload, 57, 5002);
    write_u16_le(&mut payload, 63, (-250i16) as u16);
    payload[131] = 2;
    write_u16_le(&mut payload, 85, 315);
    write_u16_le(&mut payload, 87, 52);
    write_u16_le(&mut payload, 136, 17);
    payload[145] = 0x01;
    payload[146] = 0x02;
    write_u16_le(&mut payload, 89, 65535);
    write_u16_le(&mut payload, 91, 65535);
    let data = parse_data_payload(&packet_of(payload)).unwrap().unwrap();
    assert_eq!(data.pv.len(), 4);
    assert_eq!(data.pv[0].v, 315);
    assert_eq!(data.pv[0].i, 52);
    assert_eq!(data.pv[0].w, 16380);
    assert_eq!(data.pv[0].kwh_today, 17);
    assert_eq!(data.pv[0].kwh_total, 0x0102);
    assert_eq!(data.pv[1].w, 4294836225);
    assert_eq!(data.pv[2].w, 0);
    assert_eq!(data.grid.active_power_w, 345);
    assert_eq!(data.grid.kwh_today, 1234);
    assert_eq!(data.grid.kwh_total, 98765);
    assert_eq!(data.grid.v, 2301);
    assert_eq!(data.grid.hz, 5002);
    assert_eq!(data.inverter.radiator_temp_celsius, -250);
    assert_eq!(data.inverter_meta.mppt_count, 2);
}
