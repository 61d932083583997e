//! Cutting the byte stream of a logger connection into frames, and deciding
//! what to do with each frame.

use vstd::prelude::*;
use vstd::slice::{slice_subrange, slice_to_vec};
use crate::protocol::{
    DataPayload, HEADER_LEN, HEADER_MAGIC, LoggerPayload, Packet, ProtocolError, RequestType,
    data_payload_present, framing_error, logger_payload_result, packet_total_len,
    packet_well_framed, parse_data_payload, parse_logger_payload, parse_packet,
    spec_data_payload_error, spec_data_payload_holds, spec_frame_len, spec_header,
    spec_payload,
};
use crate::text::{hex_digit, hex_digit_char, string_from_chars};

verus! {

/// Frames announcing more bytes than this are treated as garbage.
pub const MAX_PACKET_LEN: usize = 4096;

/// How many leading bytes resynchronisation drops: bytes are dropped while
/// a full header is buffered that does not start with the header magic.
pub open spec fn resync_skip(s: Seq<u8>) -> nat
    decreases s.len(),
{
    if s.len() < HEADER_LEN || s[0] == HEADER_MAGIC {
        0
    } else {
        1 + resync_skip(s.drop_first())
    }
}

/// The buffer once resynchronised.
pub open spec fn resynced(s: Seq<u8>) -> Seq<u8> {
    s.skip(resync_skip(s) as int)
}

/// A resynchronised buffer whose frame announces more than `MAX_PACKET_LEN`.
pub open spec fn oversized(s: Seq<u8>) -> bool {
    s.len() >= HEADER_LEN && spec_frame_len(s) > MAX_PACKET_LEN
}

/// What `next_packet_len` reports for a buffer.
pub open spec fn spec_next_packet_len(s: Seq<u8>) -> Option<usize> {
    let r = resynced(s);
    if r.len() < HEADER_LEN || oversized(r) {
        None
    } else {
        Some(spec_frame_len(r) as usize)
    }
}

/// What the buffer holds after `next_packet_len`.
pub open spec fn spec_after_resync(s: Seq<u8>) -> Seq<u8> {
    let r = resynced(s);
    if oversized(r) { Seq::empty() } else { r }
}

/// The next complete frame of a buffer, if one is there.
pub open spec fn spec_next_packet(s: Seq<u8>) -> Option<Seq<u8>> {
    match spec_next_packet_len(s) {
        Some(n) => {
            let r = resynced(s);
            if r.len() >= n { Some(r.take(n as int)) } else { None }
        },
        None => None,
    }
}

/// What the buffer holds after `take_next_packet`.
pub open spec fn spec_after_next_packet(s: Seq<u8>) -> Seq<u8> {
    match spec_next_packet(s) {
        Some(p) => resynced(s).skip(p.len() as int),
        None => spec_after_resync(s),
    }
}

proof fn lemma_resync_bounded(s: Seq<u8>)
    ensures
        resync_skip(s) <= s.len(),
    decreases s.len(),
{
    if s.len() >= HEADER_LEN && s[0] != HEADER_MAGIC {
        lemma_resync_bounded(s.drop_first());
    }
}

proof fn lemma_resync_step(s: Seq<u8>)
    requires
        s.len() >= HEADER_LEN,
        s[0] != HEADER_MAGIC,
    ensures
        resync_skip(s) == 1 + resync_skip(s.drop_first()),
        resynced(s) == resynced(s.drop_first()),
{
    let k = resync_skip(s.drop_first());
    lemma_resync_bounded(s.drop_first());
    assert(resync_skip(s) == 1 + k);
    assert(s.skip(1 + k as int) =~= s.drop_first().skip(k as int));
}

/// Drops bytes until the buffer starts with a header magic (or holds less
/// than a header), then reports the length of the frame it starts. A frame
/// longer than `MAX_PACKET_LEN` empties the buffer.
pub fn next_packet_len(pending: &mut Vec<u8>) -> (res: Option<usize>)
    ensures
        res == spec_next_packet_len(old(pending)@),
        final(pending)@ == spec_after_resync(old(pending)@),
{
    let ghost orig = pending@;
    loop
        invariant
            orig == old(pending)@,
            resynced(pending@) == resynced(orig),
        decreases pending@.len(),
    {
        let result = packet_total_len(pending.as_slice());
        match result {
            None => {
                assert(pending@.skip(0) =~= pending@);
                return None;
            },
            Some(Ok(total_len)) => {
                assert(pending@.skip(0) =~= pending@);
                if total_len <= MAX_PACKET_LEN {
                    return Some(total_len);
                }
                pending.clear();
                return None;
            },
            Some(Err(_)) => {
                let ghost before = pending@;
                proof {
                    lemma_resync_step(before);
                }
                pending.remove(0);
                assert(pending@ =~= before.drop_first());
            },
        }
    }
}


/// Takes the next complete frame off the front of the buffer (after
/// resynchronising it); `None` while the frame is still incomplete.
pub fn take_next_packet(pending: &mut Vec<u8>) -> (res: Option<Vec<u8>>)
    ensures
        res matches Some(p) ==> spec_next_packet(old(pending)@) == Some(p@),
        res is None ==> spec_next_packet(old(pending)@) is None,
        final(pending)@ == spec_after_next_packet(old(pending)@),
{
    let total_len = match next_packet_len(pending) {
        Some(n) => n,
        None => return None,
    };
    if pending.len() < total_len {
        return None;
    }
    let len = pending.len();
    let packet = slice_to_vec(slice_subrange(pending.as_slice(), 0, total_len));
    let rest = slice_to_vec(slice_subrange(pending.as_slice(), total_len, len));
    assert(packet@ =~= pending@.take(total_len as int));
    assert(rest@ =~= pending@.skip(total_len as int));
    *pending = rest;
    Some(packet)
}

/// What to do with one frame taken off the stream.
#[derive(Debug)]
pub enum PacketAction {
    /// The bytes are not a frame: log the error, send nothing.
    Drop(ProtocolError),
    /// A data frame whose payload cannot be read: log the error, send nothing.
    DropData(Packet, ProtocolError),
    /// Answer the frame with the time response.
    Reply(PacketReply),
}

/// A frame that gets the time response, with what was read from it.
#[derive(Debug)]
pub struct PacketReply {
    pub packet: Packet,
    pub request_type: RequestType,
    /// For a handshake: its text fields, or why they could not be read.
    pub handshake: Option<Result<LoggerPayload, ProtocolError>>,
    /// For a microinverter data frame: its readings (publish them first).
    pub data: Option<DataPayload>,
}

/// Decides how one frame is handled: parse it, read the payload of
/// handshake and data frames, and tell whether it is answered.
pub fn process_packet(packet_bytes: &[u8]) -> (res: PacketAction)
    ensures
        ({
            let b = packet_bytes@;
            let p = spec_payload(b);
            let rt = RequestType::spec_from_byte(b[4]);
            match res {
                PacketAction::Drop(e) => !packet_well_framed(b) && e == framing_error(b),
                PacketAction::DropData(packet, e) => {
                    &&& packet_well_framed(b)
                    &&& rt == RequestType::Data
                    &&& spec_data_payload_error(p) == Some(e)
                    &&& packet.header == spec_header(b)
                    &&& packet.payload@ == p
                },
                PacketAction::Reply(r) => {
                    &&& packet_well_framed(b)
                    &&& r.packet.header == spec_header(b)
                    &&& r.packet.payload@ == p
                    &&& r.request_type == rt
                    &&& (rt == RequestType::Data ==> spec_data_payload_error(p) is None)
                    &&& (r.data is Some <==> rt == RequestType::Data && data_payload_present(p))
                    &&& (r.data matches Some(d) ==> spec_data_payload_holds(p, d))
                    &&& (r.handshake is Some <==> rt == RequestType::Handshake)
                    &&& (r.handshake matches Some(h) ==> logger_payload_result(p, h))
                },
            }
        }),
{
    let packet = match parse_packet(packet_bytes) {
        Ok(packet) => packet,
        Err(err) => return PacketAction::Drop(err),
    };
    let request_type = RequestType::from_byte(packet.header.msg_type);
    match request_type {
        RequestType::Handshake => {
            let handshake = parse_logger_payload(&packet);
            PacketAction::Reply(PacketReply { packet, request_type, handshake: Some(handshake), data: None })
        },
        RequestType::Data => match parse_data_payload(&packet) {
            Ok(data) => PacketAction::Reply(PacketReply { packet, request_type, handshake: None, data }),
            Err(err) => PacketAction::DropData(packet, err),
        },
        _ => PacketAction::Reply(PacketReply { packet, request_type, handshake: None, data: None }),
    }
}

/// Every byte as two lower-case hexadecimal digits.
pub open spec fn spec_hex(b: Seq<u8>) -> Seq<char>
    decreases b.len(),
{
    if b.len() == 0 {
        Seq::empty()
    } else {
        spec_hex(b.drop_last()) + seq![hex_digit(b.last() as int / 16), hex_digit(b.last() as int % 16)]
    }
}

/// Hex dump of a byte buffer, as logged for received frames.
pub fn hex(buf: &[u8]) -> (res: String)
    ensures
        res@ == spec_hex(buf@),
{
    let mut out: Vec<char> = Vec::new();
    let mut i: usize = 0;
    while i < buf.len()
        invariant
            i <= buf@.len(),
            out@ == spec_hex(buf@.take(i as int)),
        decreases buf@.len() - i,
    {
        let b = buf[i];
        out.push(hex_digit_char((b / 16) as u32));
        out.push(hex_digit_char((b % 16) as u32));
        assert(buf@.take(i + 1).drop_last() =~= buf@.take(i as int));
        i = i + 1;
        assert(out@ =~= spec_hex(buf@.take(i as int)));
    }
    assert(buf@.take(buf@.len() as int) =~= buf@);
    string_from_chars(&out)
}

/// A stream that holds a frame of at most `MAX_PACKET_LEN` bytes followed by
/// anything at all yields exactly that frame and keeps the rest for later:
/// framing neither loses nor invents bytes.
pub proof fn lemma_stream_yields_frame(frame: Seq<u8>, rest: Seq<u8>)
    requires
        packet_well_framed(frame),
        frame.len() <= MAX_PACKET_LEN,
    ensures
        spec_next_packet(frame + rest) == Some(frame),
        spec_after_next_packet(frame + rest) == rest,
{
    let s = frame + rest;
    assert(s[0] == frame[0] && s[1] == frame[1] && s[2] == frame[2]);
    assert(resync_skip(s) == 0);
    assert(resynced(s) =~= s);
    assert(s.take(frame.len() as int) =~= frame);
    assert(s.skip(frame.len() as int) =~= rest);
}

/// Once resynchronised, a buffer starts with the header magic or holds less
/// than a header; resynchronising again changes nothing.
pub proof fn lemma_resync_idempotent(s: Seq<u8>)
    ensures
        resynced(s).len() < HEADER_LEN || resynced(s)[0] == HEADER_MAGIC,
        resync_skip(resynced(s)) == 0,
    decreases s.len(),
{
    if s.len() >= HEADER_LEN && s[0] != HEADER_MAGIC {
        lemma_resync_step(s);
        lemma_resync_idempotent(s.drop_first());
    } else {
        assert(resynced(s) =~= s);
    }
}

} // verus!
