//! The Deye logger wire format: framing, field readers, payload decoding and
//! the time response that the cloud sends back.
//!
//! A frame is `0xa5`, the payload length as little-endian `u16`, four header
//! bytes, the logger serial as little-endian `u32`, the payload, a checksum
//! byte (the byte sum of everything between the magic bytes, modulo 256) and
//! `0x15`.

use vstd::prelude::*;
use crate::text::{ascii_chars, all_ascii, lossy_utf8, utf8_lossy};

verus! {

/// TCP port on which the inverters expect their cloud endpoint.
pub const PORT: u16 = 10000;
/// Bytes before the payload: magic, payload length, four header bytes, serial.
pub const HEADER_LEN: usize = 11;
/// Bytes after the payload: checksum and magic.
pub const FOOTER_LEN: usize = 2;
/// First byte of every frame.
pub const HEADER_MAGIC: u8 = 0xa5;
/// Last byte of every frame.
pub const FOOTER_MAGIC: u8 = 0x15;
/// Length of the time response frame.
pub const TIME_RESPONSE_LEN: usize = 23;

/// The fixed part of a frame.
#[derive(Debug, Clone, Copy, PartialEq, Eq)]
pub struct Header {
    pub unknown1: u8,
    pub msg_type: u8,
    pub msg_id_response: u8,
    pub msg_id_request: u8,
    pub logger_serial: u32,
}

/// A frame split into header and payload.
#[derive(Debug, Clone)]
pub struct Packet {
    pub header: Header,
    pub payload: Vec<u8>,
}

/// The text fields of a handshake payload.
#[derive(Debug, Clone)]
pub struct LoggerPayload {
    pub fw_ver: String,
    pub ip: String,
    pub ver: String,
    pub ssid: String,
    /// MAC address of the logger when the handshake carries one; the
    /// handshake layout decoded by `parse_logger_payload` has none.
    pub mac: Option<String>,
}

/// One PV input, in the fixed-point units in which the inverter reports it.
#[derive(Debug, Clone, Copy, PartialEq, Eq)]
pub struct PvData {
    /// Voltage in tenths of a volt.
    pub v: u16,
    /// Current in tenths of an ampere.
    pub i: u16,
    /// Power in hundredths of a watt: exactly `v * i`.
    pub w: u32,
    /// Energy today in tenths of a kWh.
    pub kwh_today: u16,
    /// Energy in total in tenths of a kWh.
    pub kwh_total: u16,
}

/// Grid side readings.
#[derive(Debug, Clone, Copy, PartialEq, Eq)]
pub struct GridData {
    /// Active power in watts.
    pub active_power_w: u32,
    /// Energy today in hundredths of a kWh.
    pub kwh_today: u32,
    /// Energy in total in tenths of a kWh.
    pub kwh_total: u32,
    /// Voltage in tenths of a volt.
    pub v: u16,
    /// Frequency in hundredths of a hertz.
    pub hz: u16,
}

/// Inverter readings.
#[derive(Debug, Clone, Copy, PartialEq, Eq)]
pub struct InverterData {
    /// Radiator temperature in hundredths of a degree Celsius.
    pub radiator_temp_celsius: i16,
}

/// Facts about the inverter itself.
#[derive(Debug, Clone, Copy, PartialEq, Eq)]
pub struct InverterMeta {
    pub mppt_count: u8,
}

/// The readings of a microinverter data payload.
#[derive(Debug, Clone)]
pub struct DataPayload {
    pub pv: Vec<PvData>,
    pub grid: GridData,
    pub inverter: InverterData,
    pub inverter_meta: InverterMeta,
}

/// The message type byte of a frame.
#[derive(Debug, Copy, Clone, PartialEq, Eq)]
pub enum RequestType {
    Handshake,
    Data,
    Wifi,
    Heartbeat,
    Unknown(u8),
}

/// Why a frame or payload was refused.
#[derive(Debug, Copy, Clone, PartialEq, Eq)]
pub enum ProtocolError {
    /// Fewer bytes than header and footer need.
    PacketTooShort { len: usize },
    /// The first byte is not `0xa5`.
    InvalidHeaderMagic { found: u8 },
    /// The declared payload length does not fit the frame length.
    LengthMismatch { payload_len: u16, packet_len: usize },
    /// The last byte is not `0x15`.
    InvalidFooterMagic { found: u8 },
    /// The payload is shorter than its layout needs.
    PayloadTooShort { got: usize, need: usize },
    /// A field lies beyond the end of the buffer.
    MissingField { offset: usize },
}

// ---------------------------------------------------------------------------
// Specifications
// ---------------------------------------------------------------------------

/// Little-endian `u16` stored at `off`.
pub open spec fn spec_u16_le(b: Seq<u8>, off: int) -> int {
    b[off] + 256 * b[off + 1]
}

/// Big-endian `u16` stored at `off`.
pub open spec fn spec_u16_be(b: Seq<u8>, off: int) -> int {
    256 * b[off] + b[off + 1]
}

/// Little-endian two's complement `i16` stored at `off`.
pub open spec fn spec_i16_le(b: Seq<u8>, off: int) -> int {
    let u = spec_u16_le(b, off);
    if u >= 32768 { u - 65536 } else { u }
}

/// Little-endian `u32` stored at `off`.
pub open spec fn spec_u32_le(b: Seq<u8>, off: int) -> int {
    b[off] + 256 * b[off + 1] + 65536 * b[off + 2] + 16777216 * b[off + 3]
}

/// The four little-endian bytes of `x`.
pub open spec fn spec_u32_le_bytes(x: u32) -> Seq<u8> {
    seq![
        (x % 256) as u8,
        ((x / 256) % 256) as u8,
        ((x / 65536) % 256) as u8,
        ((x / 16777216) % 256) as u8,
    ]
}

/// Sum of all bytes.
pub open spec fn spec_byte_sum(s: Seq<u8>) -> nat
    decreases s.len(),
{
    if s.len() == 0 {
        0
    } else {
        spec_byte_sum(s.drop_last()) + (s.last() as nat)
    }
}

/// The checksum of a frame: the byte sum of everything but the first byte
/// and the last two, modulo 256.
pub open spec fn spec_checksum(msg: Seq<u8>) -> u8 {
    (spec_byte_sum(msg.subrange(1, msg.len() - 2)) % 256) as u8
}

/// Total frame length announced by a buffer that starts a frame.
pub open spec fn spec_frame_len(b: Seq<u8>) -> int {
    HEADER_LEN + spec_u16_le(b, 1) + FOOTER_LEN
}

/// What `packet_total_len` reports for a buffer.
pub open spec fn spec_packet_total_len(b: Seq<u8>) -> Option<Result<usize, ProtocolError>> {
    if b.len() < HEADER_LEN {
        None
    } else if b[0] != HEADER_MAGIC {
        Some(Err(ProtocolError::InvalidHeaderMagic { found: b[0] }))
    } else {
        Some(Ok(spec_frame_len(b) as usize))
    }
}

/// The buffer holds exactly one frame.
pub open spec fn packet_well_framed(b: Seq<u8>) -> bool {
    &&& b.len() >= HEADER_LEN + FOOTER_LEN
    &&& b[0] == HEADER_MAGIC
    &&& spec_frame_len(b) == b.len()
    &&& b[b.len() - 1] == FOOTER_MAGIC
}

/// The first check that a buffer which is not a frame fails.
pub open spec fn framing_error(b: Seq<u8>) -> ProtocolError {
    if b.len() < HEADER_LEN + FOOTER_LEN {
        ProtocolError::PacketTooShort { len: b.len() as usize }
    } else if b[0] != HEADER_MAGIC {
        ProtocolError::InvalidHeaderMagic { found: b[0] }
    } else if spec_frame_len(b) != b.len() {
        ProtocolError::LengthMismatch {
            payload_len: spec_u16_le(b, 1) as u16,
            packet_len: b.len() as usize,
        }
    } else {
        ProtocolError::InvalidFooterMagic { found: b[b.len() - 1] }
    }
}

/// The header fields of a frame.
pub open spec fn spec_header(b: Seq<u8>) -> Header {
    Header {
        unknown1: b[3],
        msg_type: b[4],
        msg_id_response: b[5],
        msg_id_request: b[6],
        logger_serial: spec_u32_le(b, 7) as u32,
    }
}

/// The payload of a frame.
pub open spec fn spec_payload(b: Seq<u8>) -> Seq<u8> {
    b.subrange(HEADER_LEN as int, b.len() - FOOTER_LEN)
}

/// Index of the first zero byte, or the length when there is none.
pub open spec fn first_null(b: Seq<u8>) -> nat
    decreases b.len(),
{
    if b.len() == 0 {
        0
    } else if b[0] == 0 {
        0
    } else {
        1 + first_null(b.drop_first())
    }
}

/// The bytes of a NUL-terminated field before its first zero.
pub open spec fn null_prefix(b: Seq<u8>) -> Seq<u8> {
    b.take(first_null(b) as int)
}

/// A NUL-terminated text field: the bytes before the first zero, decoded.
pub open spec fn spec_text_field(b: Seq<u8>) -> Seq<char> {
    lossy_utf8(null_prefix(b))
}

/// `text` is the text of field `b`, and when the bytes before the first
/// zero are ASCII, it holds them one character per byte.
pub open spec fn text_field_is(b: Seq<u8>, text: Seq<char>) -> bool {
    &&& text == spec_text_field(b)
    &&& all_ascii(null_prefix(b)) ==> text == ascii_chars(null_prefix(b))
}


/// One PV input read from a data payload.
pub open spec fn spec_pv(p: Seq<u8>, v_off: int, i_off: int, today_off: int, total_off: int) -> PvData {
    PvData {
        v: spec_u16_le(p, v_off) as u16,
        i: spec_u16_le(p, i_off) as u16,
        w: (spec_u16_le(p, v_off) * spec_u16_le(p, i_off)) as u32,
        kwh_today: spec_u16_le(p, today_off) as u16,
        kwh_total: spec_u16_be(p, total_off) as u16,
    }
}

/// The four PV inputs of a microinverter payload, in order.
pub open spec fn spec_pv_inputs(p: Seq<u8>) -> Seq<PvData> {
    seq![
        spec_pv(p, 85, 87, 136, 145),
        spec_pv(p, 89, 91, 138, 149),
        spec_pv(p, 93, 95, 140, 153),
        spec_pv(p, 97, 99, 142, 157),
    ]
}

/// Grid readings of a microinverter payload.
pub open spec fn spec_grid(p: Seq<u8>) -> GridData {
    GridData {
        active_power_w: spec_u32_le(p, 59) as u32,
        kwh_today: spec_u32_le(p, 33) as u32,
        kwh_total: spec_u32_le(p, 37) as u32,
        v: spec_u16_le(p, 45) as u16,
        hz: spec_u16_le(p, 57) as u16,
    }
}

/// Readings of a payload marked as historic: all zero.
pub open spec fn zero_grid() -> GridData {
    GridData { active_power_w: 0, kwh_today: 0, kwh_total: 0, v: 0, hz: 0 }
}

/// Minimum length of a microinverter data payload.
pub const MICROINVERTER_PAYLOAD_LEN: usize = 251;
/// Minimum length of a handshake payload.
pub const LOGGER_PAYLOAD_LEN: usize = 210;

/// What `parse_data_payload` returns for a payload, where the readings are
/// given by `spec_data_payload_holds`.
pub open spec fn spec_data_payload_holds(p: Seq<u8>, d: DataPayload) -> bool {
    if p[0] >= 0x80 {
        &&& d.pv@.len() == 0
        &&& d.grid == zero_grid()
        &&& d.inverter == (InverterData { radiator_temp_celsius: 0 })
        &&& d.inverter_meta == (InverterMeta { mppt_count: 0 })
    } else {
        &&& d.pv@ == spec_pv_inputs(p)
        &&& d.grid == spec_grid(p)
        &&& d.inverter == (InverterData { radiator_temp_celsius: spec_i16_le(p, 63) as i16 })
        &&& d.inverter_meta == (InverterMeta { mppt_count: p[131] })
    }
}

/// Why `parse_data_payload` refuses a payload, if it does.
pub open spec fn spec_data_payload_error(p: Seq<u8>) -> Option<ProtocolError> {
    if p.len() < 2 {
        Some(ProtocolError::PayloadTooShort { got: p.len() as usize, need: 2 })
    } else if p[1] != 0x08 {
        None
    } else if p.len() < MICROINVERTER_PAYLOAD_LEN {
        Some(ProtocolError::PayloadTooShort { got: p.len() as usize, need: MICROINVERTER_PAYLOAD_LEN })
    } else {
        None
    }
}

/// The payload is a microinverter data payload that can be read.
pub open spec fn data_payload_present(p: Seq<u8>) -> bool {
    p.len() >= MICROINVERTER_PAYLOAD_LEN && p[1] == 0x08
}

/// `r` is what `parse_logger_payload` returns for payload `p`.
pub open spec fn logger_payload_result(p: Seq<u8>, r: Result<LoggerPayload, ProtocolError>) -> bool {
    match r {
        Ok(l) => {
            &&& p.len() >= LOGGER_PAYLOAD_LEN
            &&& text_field_is(p.subrange(19, 60), l.fw_ver@)
            &&& text_field_is(p.subrange(65, 82), l.ip@)
            &&& text_field_is(p.subrange(89, 130), l.ver@)
            &&& text_field_is(p.subrange(172, 210), l.ssid@)
            &&& l.mac is None
        },
        Err(e) => p.len() < LOGGER_PAYLOAD_LEN && e == (ProtocolError::PayloadTooShort {
            got: p.len() as usize,
            need: LOGGER_PAYLOAD_LEN,
        }),
    }
}

/// The time response frame without checksum and footer.
pub open spec fn spec_time_response_body(h: Header, first: u8, now: u32) -> Seq<u8> {
    seq![HEADER_MAGIC, 10u8, 0u8, h.unknown1,
        (if h.msg_type >= 0x30 { h.msg_type - 0x30 } else { h.msg_type + 256 - 0x30 }) as u8,
        (if h.msg_id_response < 255 { h.msg_id_response + 1 } else { 0 }) as u8,
        h.msg_id_request]
        + spec_u32_le_bytes(h.logger_serial)
        + seq![first, 1u8]
        + spec_u32_le_bytes(now)
        + seq![0u8, 0u8, 0u8, 0u8]
}

/// The time response frame: it acknowledges the request described by `h`,
/// echoes the first payload byte `first` and carries the Unix time `now`.
pub open spec fn spec_time_response(h: Header, first: u8, now: u32) -> Seq<u8> {
    let body = spec_time_response_body(h, first, now);
    body.push((spec_byte_sum(body.drop_first()) % 256) as u8).push(FOOTER_MAGIC)
}

/// The first payload byte, or zero for an empty payload.
pub open spec fn first_or_zero(p: Seq<u8>) -> u8 {
    if p.len() > 0 { p[0] } else { 0 }
}

// ---------------------------------------------------------------------------
// Executable code
// ---------------------------------------------------------------------------

impl RequestType {
    /// The request type that a message type byte names.
    pub open spec fn spec_from_byte(value: u8) -> RequestType {
        if value == 0x41 {
            RequestType::Handshake
        } else if value == 0x42 {
            RequestType::Data
        } else if value == 0x43 {
            RequestType::Wifi
        } else if value == 0x47 {
            RequestType::Heartbeat
        } else {
            RequestType::Unknown(value)
        }
    }

    /// Classifies a message type byte.
    pub fn from_byte(value: u8) -> (res: Self)
        ensures
            res == Self::spec_from_byte(value),
    {
        match value {
            0x41 => Self::Handshake,
            0x42 => Self::Data,
            0x43 => Self::Wifi,
            0x47 => Self::Heartbeat,
            other => Self::Unknown(other),
        }
    }

    /// The name of a request type.
    pub open spec fn spec_name(self) -> Seq<char> {
        match self {
            RequestType::Handshake => "HANDSHAKE"@,
            RequestType::Data => "DATA"@,
            RequestType::Wifi => "WIFI"@,
            RequestType::Heartbeat => "HEARTBEAT"@,
            RequestType::Unknown(_) => "UNKNOWN"@,
        }
    }

    /// The name under which the type is logged.
    pub fn name(self) -> (res: &'static str)
        ensures
            res@ == self.spec_name(),
    {
        match self {
            Self::Handshake => "HANDSHAKE",
            Self::Data => "DATA",
            Self::Wifi => "WIFI",
            Self::Heartbeat => "HEARTBEAT",
            Self::Unknown(_) => "UNKNOWN",
        }
    }
}

/// Length of the frame that `buf` starts: `None` while fewer than
/// `HEADER_LEN` bytes are there, an error when the first byte is not the
/// header magic.
pub fn packet_total_len(buf: &[u8]) -> (res: Option<Result<usize, ProtocolError>>)
    ensures
        res == spec_packet_total_len(buf@),
{
    if buf.len() < HEADER_LEN {
        return None;
    }
    if buf[0] != HEADER_MAGIC {
        return Some(Err(ProtocolError::InvalidHeaderMagic { found: buf[0] }));
    }
    let payload_len = read_u16_le(buf, 1);
    match payload_len {
        Some(n) => Some(Ok(HEADER_LEN + n as usize + FOOTER_LEN)),
        None => Some(Err(ProtocolError::MissingField { offset: 1 })),
    }
}

/// Splits one frame into header and payload.
pub fn parse_packet(buf: &[u8]) -> (res: Result<Packet, ProtocolError>)
    ensures
        match res {
            Ok(p) => {
                &&& packet_well_framed(buf@)
                &&& p.header == spec_header(buf@)
                &&& p.payload@ == spec_payload(buf@)
            },
            Err(e) => !packet_well_framed(buf@) && e == framing_error(buf@),
        },
{
    if buf.len() < HEADER_LEN + FOOTER_LEN {
        return Err(ProtocolError::PacketTooShort { len: buf.len() });
    }
    let header = parse_header(buf)?;
    parse_footer(buf)?;
    let payload = vstd::slice::slice_to_vec(
        vstd::slice::slice_subrange(buf, HEADER_LEN, buf.len() - FOOTER_LEN),
    );
    Ok(Packet { header, payload })
}

/// Reads the text fields of a handshake payload.
pub fn parse_logger_payload(packet: &Packet) -> (res: Result<LoggerPayload, ProtocolError>)
    ensures
        logger_payload_result(packet.payload@, res),
{
    let payload = packet.payload.as_slice();
    require_len(payload, LOGGER_PAYLOAD_LEN)?;
    Ok(LoggerPayload {
        fw_ver: ascii_until_null(vstd::slice::slice_subrange(payload, 19, 60)),
        ip: ascii_until_null(vstd::slice::slice_subrange(payload, 65, 82)),
        ver: ascii_until_null(vstd::slice::slice_subrange(payload, 89, 130)),
        ssid: ascii_until_null(vstd::slice::slice_subrange(payload, 172, 210)),
        mac: None,
    })
}

/// Reads a data payload: `Ok(None)` for payloads of other devices than
/// microinverters (second byte other than `0x08`).
pub fn parse_data_payload(packet: &Packet) -> (res: Result<Option<DataPayload>, ProtocolError>)
    ensures
        ({
            let p = packet.payload@;
            match res {
                Err(e) => spec_data_payload_error(p) == Some(e),
                Ok(None) => spec_data_payload_error(p) is None && !data_payload_present(p),
                Ok(Some(d)) => data_payload_present(p) && spec_data_payload_holds(p, d),
            }
        }),
{
    let payload = packet.payload.as_slice();
    require_len(payload, 2)?;
    if payload[1] == 0x08 {
        let d = parse_microinverter_payload(packet)?;
        Ok(Some(d))
    } else {
        Ok(None)
    }
}

/// The time response to `packet`, carrying the Unix time `now`.
pub fn build_time_response_at(packet: &Packet, now: u32) -> (res: Vec<u8>)
    ensures
        res@ == spec_time_response(packet.header, first_or_zero(packet.payload@), now),
{
    let mut response: Vec<u8> = vec![0u8; TIME_RESPONSE_LEN];
    let h = packet.header;
    response.set(0, HEADER_MAGIC);
    write_u16_le(&mut response, 1, 10);
    response.set(3, h.unknown1);
    response.set(4, h.msg_type.wrapping_sub(0x30));
    response.set(5, h.msg_id_response.wrapping_add(1));
    response.set(6, h.msg_id_request);
    write_u32_le(&mut response, 7, h.logger_serial);
    let first = if packet.payload.len() > 0 { packet.payload[0] } else { 0 };
    response.set(11, first);
    response.set(12, 0x01);
    write_u32_le(&mut response, 13, now);
    write_u32_le(&mut response, 17, 0);
    let ghost body = spec_time_response_body(h, first, now);
    assert(response@.subrange(0, 21) =~= body);
    assert(response@.subrange(1, 21) =~= body.drop_first());
    let sum = checksum(response.as_slice());
    response.set(21, sum);
    response.set(22, FOOTER_MAGIC);
    assert(response@ =~= spec_time_response(h, first, now));
    response
}

/// Reads `std::time::SystemTime::now` as the time since the Unix epoch
/// (zero for a clock set before it): whole seconds, and the nanoseconds past
/// them from `Duration::subsec_nanos`. Claimed only that the nanoseconds are
/// below one billion, as that method documents; what time it is rests on the
/// machine and is not stated.
#[verifier::external_body]
pub(crate) fn unix_time_now() -> (res: (u64, u32))
    ensures
        res.1 < 1_000_000_000,
{
    let since_epoch = std::time::SystemTime::now()
        .duration_since(std::time::UNIX_EPOCH)
        .unwrap_or_default();
    (since_epoch.as_secs(), since_epoch.subsec_nanos())
}

/// The time response to `packet`, carrying the current Unix time in seconds
/// (truncated to 32 bits).
pub fn build_time_response(packet: &Packet) -> (res: Vec<u8>)
    ensures
        exists|now: u32| res@ == spec_time_response(packet.header, first_or_zero(packet.payload@), now),
{
    let (secs, _) = unix_time_now();
    let now = secs as u32;
    build_time_response_at(packet, now)
}

/// The checksum of a frame: the wrapping byte sum of all bytes but the first
/// and the last two.
pub fn checksum(msg: &[u8]) -> (res: u8)
    requires
        msg@.len() >= 3,
    ensures
        res == spec_checksum(msg@),
{
    let end = msg.len() - 2;
    let mut sum: u8 = 0;
    let mut i: usize = 1;
    while i < end
        invariant
            end == msg@.len() - 2,
            1 <= i <= end,
            sum == spec_byte_sum(msg@.subrange(1, i as int)) % 256,
        decreases end - i,
    {
        let ghost prev = msg@.subrange(1, i as int);
        assert(msg@.subrange(1, i + 1).drop_last() =~= prev);
        sum = ((sum as u16 + msg[i] as u16) % 256) as u8;
        i = i + 1;
    }
    sum
}

fn parse_header(buf: &[u8]) -> (res: Result<Header, ProtocolError>)
    requires
        buf@.len() >= HEADER_LEN + FOOTER_LEN,
    ensures
        match res {
            Ok(h) => {
                &&& buf@[0] == HEADER_MAGIC
                &&& spec_frame_len(buf@) == buf@.len()
                &&& h == spec_header(buf@)
            },
            Err(e) => {
                &&& (buf@[0] != HEADER_MAGIC || spec_frame_len(buf@) != buf@.len())
                &&& e == framing_error(buf@)
            },
        },
{
    let payload_length = match read_u16_le(buf, 1) {
        Some(n) => n,
        None => return Err(ProtocolError::MissingField { offset: 1 }),
    };
    let expected_len = HEADER_LEN + payload_length as usize + FOOTER_LEN;
    if buf[0] != HEADER_MAGIC {
        return Err(ProtocolError::InvalidHeaderMagic { found: buf[0] });
    }
    if expected_len != buf.len() {
        return Err(ProtocolError::LengthMismatch { payload_len: payload_length, packet_len: buf.len() });
    }
    let logger_serial = match read_u32_le(buf, 7) {
        Some(n) => n,
        None => return Err(ProtocolError::MissingField { offset: 7 }),
    };
    Ok(Header {
        unknown1: buf[3],
        msg_type: buf[4],
        msg_id_response: buf[5],
        msg_id_request: buf[6],
        logger_serial,
    })
}

fn parse_footer(buf: &[u8]) -> (res: Result<(), ProtocolError>)
    requires
        buf@.len() >= 1,
    ensures
        res is Ok <==> buf@[buf@.len() - 1] == FOOTER_MAGIC,
        res matches Err(e) ==> e == (ProtocolError::InvalidFooterMagic { found: buf@[buf@.len() - 1] }),
{
    let magic = buf[buf.len() - 1];
    if magic != FOOTER_MAGIC {
        return Err(ProtocolError::InvalidFooterMagic { found: magic });
    }
    Ok(())
}

fn parse_microinverter_payload(packet: &Packet) -> (res: Result<DataPayload, ProtocolError>)
    ensures
        packet.payload@.len() < MICROINVERTER_PAYLOAD_LEN <==> res is Err,
        res matches Err(e) ==> e == (ProtocolError::PayloadTooShort {
            got: packet.payload@.len() as usize,
            need: MICROINVERTER_PAYLOAD_LEN,
        }),
        res matches Ok(d) ==> spec_data_payload_holds(packet.payload@, d),
{
    let payload = packet.payload.as_slice();
    require_len(payload, MICROINVERTER_PAYLOAD_LEN)?;
    if payload[0] >= 0x80 {
        return Ok(DataPayload {
            pv: Vec::new(),
            grid: GridData { active_power_w: 0, kwh_today: 0, kwh_total: 0, v: 0, hz: 0 },
            inverter: InverterData { radiator_temp_celsius: 0 },
            inverter_meta: InverterMeta { mppt_count: 0 },
        });
    }
    let mut pv: Vec<PvData> = Vec::new();
    pv.push(parse_pv(payload, 85, 87, 136, 145));
    pv.push(parse_pv(payload, 89, 91, 138, 149));
    pv.push(parse_pv(payload, 93, 95, 140, 153));
    pv.push(parse_pv(payload, 97, 99, 142, 157));
    assert(pv@ =~= spec_pv_inputs(payload@));
    let grid = GridData {
        active_power_w: read_u32_le(payload, 59).unwrap(),
        kwh_today: read_u32_le(payload, 33).unwrap(),
        kwh_total: read_u32_le(payload, 37).unwrap(),
        v: read_u16_le(payload, 45).unwrap(),
        hz: read_u16_le(payload, 57).unwrap(),
    };
    let temp = read_i16_le(payload, 63).unwrap();
    Ok(DataPayload {
        pv,
        grid,
        inverter: InverterData { radiator_temp_celsius: temp },
        inverter_meta: InverterMeta { mppt_count: payload[131] },
    })
}

fn parse_pv(payload: &[u8], v_offset: usize, i_offset: usize, today_offset: usize, total_offset: usize) -> (res: PvData)
    requires
        v_offset + 2 <= payload@.len(),
        i_offset + 2 <= payload@.len(),
        today_offset + 2 <= payload@.len(),
        total_offset + 2 <= payload@.len(),
    ensures
        res == spec_pv(payload@, v_offset as int, i_offset as int, today_offset as int, total_offset as int),
{
    let v = read_u16_le(payload, v_offset).unwrap();
    let i = read_u16_le(payload, i_offset).unwrap();
    assert(v as int * i as int <= 65535 * 65535) by (nonlinear_arith)
        requires v <= 65535, i <= 65535;
    let w = v as u32 * i as u32;
    PvData {
        v,
        i,
        w,
        kwh_today: read_u16_le(payload, today_offset).unwrap(),
        kwh_total: read_u16_be(payload, total_offset).unwrap(),
    }
}

fn require_len(buf: &[u8], len: usize) -> (res: Result<(), ProtocolError>)
    ensures
        res is Ok <==> buf@.len() >= len,
        res matches Err(e) ==> e == (ProtocolError::PayloadTooShort { got: buf@.len() as usize, need: len }),
{
    if buf.len() < len {
        return Err(ProtocolError::PayloadTooShort { got: buf.len(), need: len });
    }
    Ok(())
}

proof fn lemma_first_null(b: Seq<u8>, e: int)
    requires
        0 <= e <= b.len(),
        forall|j: int| 0 <= j < e ==> b[j] != 0,
        e == b.len() || b[e] == 0,
    ensures
        first_null(b) == e,
    decreases b.len(),
{
    if b.len() > 0 && e > 0 {
        assert forall|j: int| 0 <= j < e - 1 implies b.drop_first()[j] != 0 by {
            assert(b.drop_first()[j] == b[j + 1]);
        }
        if e < b.len() {
            assert(b.drop_first()[e - 1] == b[e]);
        }
        lemma_first_null(b.drop_first(), e - 1);
    }
}

fn ascii_until_null(buf: &[u8]) -> (res: String)
    ensures
        text_field_is(buf@, res@),
{
    let mut end: usize = 0;
    while end < buf.len() && buf[end] != 0
        invariant
            end <= buf@.len(),
            forall|j: int| 0 <= j < end ==> buf@[j] != 0,
        decreases buf@.len() - end,
    {
        end = end + 1;
    }
    proof {
        lemma_first_null(buf@, end as int);
    }
    let prefix = vstd::slice::slice_subrange(buf, 0, end);
    assert(prefix@ =~= buf@.take(end as int));
    utf8_lossy(prefix)
}

fn read_u16_le(buf: &[u8], offset: usize) -> (res: Option<u16>)
    ensures
        offset + 2 <= buf@.len() <==> res is Some,
        res matches Some(v) ==> v == spec_u16_le(buf@, offset as int),
{
    if offset > buf.len() || buf.len() - offset < 2 {
        return None;
    }
    let lo = buf[offset] as u16;
    let hi = buf[offset + 1] as u16;
    Some(lo + 256 * hi)
}

fn read_i16_le(buf: &[u8], offset: usize) -> (res: Option<i16>)
    ensures
        offset + 2 <= buf@.len() <==> res is Some,
        res matches Some(v) ==> v == spec_i16_le(buf@, offset as int),
{
    match read_u16_le(buf, offset) {
        Some(u) => {
            if u >= 32768 {
                Some((u as i32 - 65536) as i16)
            } else {
                Some(u as i16)
            }
        },
        None => None,
    }
}

fn read_u16_be(buf: &[u8], offset: usize) -> (res: Option<u16>)
    ensures
        offset + 2 <= buf@.len() <==> res is Some,
        res matches Some(v) ==> v == spec_u16_be(buf@, offset as int),
{
    if offset > buf.len() || buf.len() - offset < 2 {
        return None;
    }
    let hi = buf[offset] as u16;
    let lo = buf[offset + 1] as u16;
    Some(256 * hi + lo)
}

fn read_u32_le(buf: &[u8], offset: usize) -> (res: Option<u32>)
    ensures
        offset + 4 <= buf@.len() <==> res is Some,
        res matches Some(v) ==> v == spec_u32_le(buf@, offset as int),
{
    if offset > buf.len() || buf.len() - offset < 4 {
        return None;
    }
    let b0 = buf[offset] as u32;
    let b1 = buf[offset + 1] as u32;
    let b2 = buf[offset + 2] as u32;
    let b3 = buf[offset + 3] as u32;
    Some(b0 + 256 * b1 + 65536 * b2 + 16777216 * b3)
}

fn write_u16_le(buf: &mut Vec<u8>, offset: usize, value: u16)
    requires
        offset + 2 <= old(buf)@.len(),
    ensures
        final(buf)@ == old(buf)@.update(offset as int, (value % 256) as u8).update(
            offset + 1,
            (value / 256) as u8,
        ),
{
    let n = buf.len();
    buf.set(offset, (value % 256) as u8);
    buf.set(offset + 1, (value / 256) as u8);
}

fn write_u32_le(buf: &mut Vec<u8>, offset: usize, value: u32)
    requires
        offset + 4 <= old(buf)@.len(),
    ensures
        final(buf)@ == old(buf)@.subrange(0, offset as int) + spec_u32_le_bytes(value)
            + old(buf)@.subrange(offset + 4, old(buf)@.len() as int),
{
    let ghost start = buf@;
    let n = buf.len();
    buf.set(offset, (value % 256) as u8);
    buf.set(offset + 1, ((value / 256) % 256) as u8);
    buf.set(offset + 2, ((value / 65536) % 256) as u8);
    buf.set(offset + 3, ((value / 16777216) % 256) as u8);
    assert(buf@ =~= start.subrange(0, offset as int) + spec_u32_le_bytes(value) + start.subrange(
        offset + 4,
        start.len() as int,
    ));
}


// ---------------------------------------------------------------------------
// Laws
// ---------------------------------------------------------------------------

/// The header of a frame that answers `h`.
pub open spec fn response_header(h: Header) -> Header {
    Header {
        unknown1: h.unknown1,
        msg_type: (if h.msg_type >= 0x30 { h.msg_type - 0x30 } else { h.msg_type + 256 - 0x30 }) as u8,
        msg_id_response: (if h.msg_id_response < 255 { h.msg_id_response + 1 } else { 0 }) as u8,
        msg_id_request: h.msg_id_request,
        logger_serial: h.logger_serial,
    }
}

/// Writing a `u32` as four little-endian bytes and reading it back gives
/// the same number.
pub proof fn lemma_u32_le_roundtrip(x: u32)
    ensures
        spec_u32_le(spec_u32_le_bytes(x), 0) == x,
{
    let b = spec_u32_le_bytes(x);
    assert((x % 256) + 256 * ((x / 256) % 256) + 65536 * ((x / 65536) % 256) + 16777216 * ((x
        / 16777216) % 256) == x) by (bit_vector);
}

/// Every time response is one well-formed frame: header magic, a declared
/// payload length of ten bytes that matches its length, the footer magic,
/// and a checksum byte equal to the checksum of the frame. Its header
/// acknowledges the request: the message type lowered by `0x30`, the
/// response counter advanced by one, the request counter and the logger
/// serial kept.
pub proof fn lemma_time_response_well_framed(h: Header, first: u8, now: u32)
    ensures
        ({
            let r = spec_time_response(h, first, now);
            &&& r.len() == TIME_RESPONSE_LEN
            &&& packet_well_framed(r)
            &&& spec_header(r) == response_header(h)
            &&& spec_payload(r) == seq![first, 1u8] + spec_u32_le_bytes(now) + seq![0u8, 0u8, 0u8, 0u8]
            &&& r[21] == spec_checksum(r)
            &&& spec_u32_le(spec_payload(r), 2) == now
        }),
{
    let body = spec_time_response_body(h, first, now);
    let r = spec_time_response(h, first, now);
    lemma_u32_le_roundtrip(h.logger_serial);
    lemma_u32_le_roundtrip(now);
    let sb = spec_u32_le_bytes(h.logger_serial);
    let nb = spec_u32_le_bytes(now);
    assert(r[7] == sb[0] && r[8] == sb[1] && r[9] == sb[2] && r[10] == sb[3]);
    assert(spec_u32_le(r, 7) == spec_u32_le(sb, 0));
    assert(r.subrange(1, 21) =~= body.drop_first());
    assert(spec_payload(r) =~= seq![first, 1u8] + nb + seq![0u8, 0u8, 0u8, 0u8]);
    assert(spec_u32_le(spec_payload(r), 2) == spec_u32_le(nb, 0));
}

/// For a buffer holding one frame, `packet_total_len` reports exactly the
/// buffer's length: the length prefix and the frame parser agree.
pub proof fn lemma_total_len_of_frame(b: Seq<u8>)
    requires
        packet_well_framed(b),
    ensures
        spec_packet_total_len(b) == Some(Ok::<usize, ProtocolError>(b.len() as usize)),
{
}

/// The payload of a frame is exactly as long as its header declares.
pub proof fn lemma_payload_len_of_frame(b: Seq<u8>)
    requires
        packet_well_framed(b),
    ensures
        spec_payload(b).len() == spec_u16_le(b, 1),
{
}

/// The frame length that `packet_total_len` reports depends on the first
/// `HEADER_LEN` bytes only: bytes that follow them do not change it.
pub proof fn lemma_total_len_prefix(b: Seq<u8>, rest: Seq<u8>)
    requires
        b.len() >= HEADER_LEN,
    ensures
        spec_packet_total_len(b + rest) == spec_packet_total_len(b),
{
    assert((b + rest)[0] == b[0] && (b + rest)[1] == b[1] && (b + rest)[2] == b[2]);
}


/// Where a readable microinverter payload keeps each reading. PV input `n`
/// (counted from 0) has its voltage and current as little-endian words at
/// `85 + 4n` and `87 + 4n`, its power as their product, its energy today as
/// a little-endian word at `136 + 2n` and its total energy as a big-endian
/// word at `145 + 4n`. The grid keeps its active power, energy today and
/// total energy as little-endian double words at 59, 33 and 37, its voltage
/// and frequency as little-endian words at 45 and 57; the radiator
/// temperature is a signed little-endian word at 63 and the tracker count
/// is byte 131.
pub proof fn lemma_microinverter_reading_offsets(p: Seq<u8>, d: DataPayload, n: int)
    requires
        data_payload_present(p),
        p[0] < 0x80,
        spec_data_payload_holds(p, d),
        0 <= n < 4,
    ensures
        d.pv@.len() == 4,
        d.pv@[n].v == p[85 + 4 * n] + 256 * p[86 + 4 * n],
        d.pv@[n].i == p[87 + 4 * n] + 256 * p[88 + 4 * n],
        d.pv@[n].w == d.pv@[n].v * d.pv@[n].i,
        d.pv@[n].kwh_today == p[136 + 2 * n] + 256 * p[137 + 2 * n],
        d.pv@[n].kwh_total == 256 * p[145 + 4 * n] + p[146 + 4 * n],
        d.grid.active_power_w == p[59] + 256 * p[60] + 65536 * p[61] + 16777216 * p[62],
        d.grid.kwh_today == p[33] + 256 * p[34] + 65536 * p[35] + 16777216 * p[36],
        d.grid.kwh_total == p[37] + 256 * p[38] + 65536 * p[39] + 16777216 * p[40],
        d.grid.v == p[45] + 256 * p[46],
        d.grid.hz == p[57] + 256 * p[58],
        d.inverter.radiator_temp_celsius == (if p[64] >= 128 { p[63] + 256 * p[64] - 65536 } else { p[63] + 256 * p[64] }),
        d.inverter_meta.mppt_count == p[131],
{
    let pv = d.pv@[n];
    let v = p[85 + 4 * n] + 256 * p[86 + 4 * n];
    let c = p[87 + 4 * n] + 256 * p[88 + 4 * n];
    assert(0 <= v < 65536 && 0 <= c < 65536);
    assert(0 <= v * c <= 65535 * 65535) by (nonlinear_arith)
        requires
            0 <= v < 65536,
            0 <= c < 65536,
    ;
    assert(p[136 + 2 * n] + 256 * p[137 + 2 * n] < 65536);
    assert(256 * p[145 + 4 * n] + p[146 + 4 * n] < 65536);
    assert(p[59] + 256 * p[60] + 65536 * p[61] + 16777216 * p[62] < 0x1_0000_0000);
    assert(p[33] + 256 * p[34] + 65536 * p[35] + 16777216 * p[36] < 0x1_0000_0000);
    assert(p[37] + 256 * p[38] + 65536 * p[39] + 16777216 * p[40] < 0x1_0000_0000);
    if n == 0 {
        assert(pv == spec_pv(p, 85, 87, 136, 145));
    } else if n == 1 {
        assert(pv == spec_pv(p, 89, 91, 138, 149));
    } else if n == 2 {
        assert(pv == spec_pv(p, 93, 95, 140, 153));
    } else {
        assert(pv == spec_pv(p, 97, 99, 142, 157));
    }
}


/// Bytes `start .. start + len` of `p` are ASCII and none is zero, and the
/// text ends there with a zero byte or with the end of its field at `end`.
pub open spec fn ascii_text_at(p: Seq<u8>, start: int, end: int, len: int) -> bool {
    &&& 0 <= len <= end - start
    &&& forall|k: int| start <= k < start + len ==> 0 < #[trigger] p[k] < 0x80
    &&& start + len < end ==> p[start + len] == 0
}

proof fn lemma_first_null_at(b: Seq<u8>, e: int)
    requires
        0 <= e <= b.len(),
        forall|k: int| 0 <= k < e ==> b[k] != 0,
        e < b.len() ==> b[e] == 0,
    ensures
        first_null(b) == e,
    decreases b.len(),
{
    if b.len() > 0 && e > 0 {
        assert forall|k: int| 0 <= k < e - 1 implies b.drop_first()[k] != 0 by {
            assert(b.drop_first()[k] == b[k + 1]);
        }
        lemma_first_null_at(b.drop_first(), e - 1);
    }
}

proof fn lemma_ascii_field(p: Seq<u8>, start: int, end: int, len: int, text: Seq<char>)
    requires
        0 <= start <= end <= p.len(),
        ascii_text_at(p, start, end, len),
        text_field_is(p.subrange(start, end), text),
    ensures
        text == ascii_chars(p.subrange(start, start + len)),
{
    let b = p.subrange(start, end);
    assert forall|k: int| 0 <= k < len implies b[k] != 0 by {
        assert(b[k] == p[start + k]);
    }
    if start + len < end {
        assert(b[len] == p[start + len]);
    }
    lemma_first_null_at(b, len);
    assert(null_prefix(b) =~= p.subrange(start, start + len));
    assert forall|k: int| 0 <= k < len implies null_prefix(b)[k] < 0x80 by {
        assert(null_prefix(b)[k] == p[start + k]);
    }
}

/// Where a handshake keeps its texts: the firmware version starts at byte
/// 19 (field up to 60), the IP address at 65 (up to 82), the hardware version
/// at 89 (up to 130) and the Wi-Fi SSID at 172 (up to 210). A field holding
/// ASCII text ended by a zero byte, or filling the field, is read as exactly
/// those bytes, one character each.
pub proof fn lemma_handshake_text_offsets(p: Seq<u8>, l: LoggerPayload)
    requires
        logger_payload_result(p, Ok(l)),
    ensures
        forall|n: int| #[trigger] ascii_text_at(p, 19, 60, n) ==> l.fw_ver@ == ascii_chars(p.subrange(19, 19 + n)),
        forall|n: int| #[trigger] ascii_text_at(p, 65, 82, n) ==> l.ip@ == ascii_chars(p.subrange(65, 65 + n)),
        forall|n: int| #[trigger] ascii_text_at(p, 89, 130, n) ==> l.ver@ == ascii_chars(p.subrange(89, 89 + n)),
        forall|n: int| #[trigger] ascii_text_at(p, 172, 210, n) ==> l.ssid@ == ascii_chars(p.subrange(172, 172 + n)),
{
    assert forall|n: int| #[trigger] ascii_text_at(p, 19, 60, n) implies l.fw_ver@ == ascii_chars(p.subrange(19, 19 + n)) by {
        lemma_ascii_field(p, 19, 60, n, l.fw_ver@);
    }
    assert forall|n: int| #[trigger] ascii_text_at(p, 65, 82, n) implies l.ip@ == ascii_chars(p.subrange(65, 65 + n)) by {
        lemma_ascii_field(p, 65, 82, n, l.ip@);
    }
    assert forall|n: int| #[trigger] ascii_text_at(p, 89, 130, n) implies l.ver@ == ascii_chars(p.subrange(89, 89 + n)) by {
        lemma_ascii_field(p, 89, 130, n, l.ver@);
    }
    assert forall|n: int| #[trigger] ascii_text_at(p, 172, 210, n) implies l.ssid@ == ascii_chars(p.subrange(172, 172 + n)) by {
        lemma_ascii_field(p, 172, 210, n, l.ssid@);
    }
}

} // verus!
