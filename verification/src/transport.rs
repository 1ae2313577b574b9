use vstd::prelude::*;
use byteorder::{BigEndian, ByteOrder};
use crate::error::{IoError, IoErrorKind, PtpIpError, error_from_io};
use crate::stream::{MemStream, append_bytes};
use crate::text::{ascii_chars, hex_bytes_padded, hex_string_padded, decimal_bytes, decimal_string, string_from_utf8};
use crate::types::{DeviceInfo, StorageInfo};
use vstd::utf8::{valid_utf8, decode_utf8};
use crate::types::{PtpIpMessageType, PtpIpPacket, SessionConfig, message_type_code};
use std::time::{Duration, Instant};
use crate::utils::{be_value, be_bytes, pow256, lemma_be_bytes_len, lemma_be_value_of_bytes};

verus! {

// ------------------------------
// Big-endian fields, through byteorder
// ------------------------------

/// Reads a big-endian `u16` from the first two bytes of `buf`, with
/// `byteorder::BigEndian::read_u16` (which panics on shorter input).
#[verifier::external_body]
pub(crate) fn be_read_u16(buf: &[u8]) -> (r: u16)
    requires
        buf@.len() >= 2,
    ensures
        r as nat == be_value(buf@.take(2)),
{
    BigEndian::read_u16(buf)
}

/// Reads a big-endian `u32` from the first four bytes of `buf`, with
/// `byteorder::BigEndian::read_u32` (which panics on shorter input).
#[verifier::external_body]
pub(crate) fn be_read_u32(buf: &[u8]) -> (r: u32)
    requires
        buf@.len() >= 4,
    ensures
        r as nat == be_value(buf@.take(4)),
{
    BigEndian::read_u32(buf)
}

/// Reads a big-endian `u64` from the first eight bytes of `buf`, with
/// `byteorder::BigEndian::read_u64` (which panics on shorter input).
#[verifier::external_body]
pub(crate) fn be_read_u64(buf: &[u8]) -> (r: u64)
    requires
        buf@.len() >= 8,
    ensures
        r as nat == be_value(buf@.take(8)),
{
    BigEndian::read_u64(buf)
}

/// The big-endian bytes of `n`, written by `byteorder::BigEndian::write_u16`.
#[verifier::external_body]
pub(crate) fn be_u16_bytes(n: u16) -> (r: [u8; 2])
    ensures
        r@ == be_bytes(n as nat, 2),
{
    let mut b = [0u8; 2];
    BigEndian::write_u16(&mut b, n);
    b
}

/// The big-endian bytes of `n`, written by `byteorder::BigEndian::write_u32`.
#[verifier::external_body]
pub(crate) fn be_u32_bytes(n: u32) -> (r: [u8; 4])
    ensures
        r@ == be_bytes(n as nat, 4),
{
    let mut b = [0u8; 4];
    BigEndian::write_u32(&mut b, n);
    b
}

/// The big-endian bytes of `n`, written by `byteorder::BigEndian::write_u64`.
#[verifier::external_body]
pub(crate) fn be_u64_bytes(n: u64) -> (r: [u8; 8])
    ensures
        r@ == be_bytes(n as nat, 8),
{
    let mut b = [0u8; 8];
    BigEndian::write_u64(&mut b, n);
    b
}

/// The big-endian value of the two bytes of `s` at `off`.
pub open spec fn u16_at(s: Seq<u8>, off: int) -> nat {
    be_value(s.subrange(off, off + 2))
}

/// The big-endian value of the four bytes of `s` at `off`.
pub open spec fn u32_at(s: Seq<u8>, off: int) -> nat {
    be_value(s.subrange(off, off + 4))
}

/// The big-endian value of the eight bytes of `s` at `off`.
pub open spec fn u64_at(s: Seq<u8>, off: int) -> nat {
    be_value(s.subrange(off, off + 8))
}

// ------------------------------
// Packet header
// ------------------------------

/// A PTP/IP packet header.
#[derive(Debug)]
pub struct PtpIpHeader {
    pub message_type: u16,
    pub reserved: u16,
    pub transaction_id: u32,
    /// Only data blocks carry it on the wire.
    pub payload_length: u32,
}

/// The wire form of a header: type, reserved field and transaction id, and, for a
/// data block, the payload length.
pub open spec fn header_bytes(h: PtpIpHeader) -> Seq<u8> {
    be_bytes(h.message_type as nat, 2) + be_bytes(h.reserved as nat, 2) + be_bytes(
        h.transaction_id as nat,
        4,
    ) + if h.message_type == 4 {
        be_bytes(h.payload_length as nat, 4)
    } else {
        Seq::<u8>::empty()
    }
}

impl PtpIpHeader {
    /// The bytes of this header on the wire.
    pub fn to_bytes(&self) -> (r: Vec<u8>)
        ensures
            r@ == header_bytes(*self),
    {
        let mut bytes: Vec<u8> = Vec::new();
        append_bytes(&mut bytes, &be_u16_bytes(self.message_type));
        append_bytes(&mut bytes, &be_u16_bytes(self.reserved));
        append_bytes(&mut bytes, &be_u32_bytes(self.transaction_id));
        if self.message_type == 4 {
            append_bytes(&mut bytes, &be_u32_bytes(self.payload_length));
        }
        assert(bytes@ =~= header_bytes(*self));
        bytes
    }
}

/// The wire form of a packet of type code `code`, transaction id `tid` and payload
/// `payload` as `send_packet` writes it: the header, whose length field (data blocks
/// only) holds the payload length modulo 2^32, then the payload.
pub open spec fn frame_bytes(code: u16, tid: u32, payload: Seq<u8>) -> Seq<u8> {
    header_bytes(
        PtpIpHeader {
            message_type: code,
            reserved: 0,
            transaction_id: tid,
            payload_length: (payload.len() % 0x1_0000_0000) as u32,
        },
    ) + payload
}

/// The wire form of a packet as `send_packet` writes it.
pub open spec fn packet_bytes(p: PtpIpPacket) -> Seq<u8> {
    frame_bytes(message_type_code(p.message_type), p.transaction_id, p.payload@)
}

/// Sends a PTP/IP packet: its header, then its payload.
pub fn send_packet(stream: &mut MemStream, packet: &PtpIpPacket) -> (r: Result<(), PtpIpError>)
    ensures
        r is Ok,
        final(stream).written() == old(stream).written() + packet_bytes(*packet),
        final(stream).unread() == old(stream).unread(),
{
    let header = PtpIpHeader {
        message_type: packet.message_type.as_u16(),
        reserved: 0,
        transaction_id: packet.transaction_id,
        payload_length: ((packet.payload.len() as u64) % 0x1_0000_0000) as u32,
    };
    let header_bytes = header.to_bytes();
    stream.write_all(header_bytes.as_slice());
    if packet.payload.len() > 0 {
        stream.write_all(packet.payload.as_slice());
    }
    stream.flush();
    proof {
        if packet.payload@.len() == 0 {
            assert(packet_bytes(*packet) =~= header_bytes@);
        }
        assert(stream.written() =~= old(stream).written() + packet_bytes(*packet));
    }
    Ok(())
}

// ------------------------------
// Receiving packets
// ------------------------------

/// The header that `PtpIpHeader::from_stream` reads from `s`: when the message type
/// was already read (`known` is `Some`), the reserved field and transaction id
/// follow at once; otherwise the type comes first. Data blocks add a length field.
/// The second component is the number of bytes the header takes.
pub open spec fn spec_header(known: Option<u16>, s: Seq<u8>) -> (PtpIpHeader, int) {
    let base: int = if known is Some { 0 } else { 2 };
    let code: u16 = match known {
        Some(t) => t,
        None => u16_at(s, 0) as u16,
    };
    let len: u32 = if code == 4 { u32_at(s, base + 6) as u32 } else { 0 };
    (
        PtpIpHeader {
            message_type: code,
            reserved: u16_at(s, base) as u16,
            transaction_id: u32_at(s, base + 2) as u32,
            payload_length: len,
        },
        base + 6 + if code == 4 { 4int } else { 0int },
    )
}

/// How many bytes `s` must hold before the header is known to be complete: the
/// fixed part first, then, for a data block, the length field.
pub open spec fn header_available(known: Option<u16>, s: Seq<u8>) -> bool {
    let fixed: int = if known is Some { 6 } else { 8 };
    s.len() >= fixed && s.len() >= spec_header(known, s).1
}

/// What receiving one packet from the front of a byte sequence gives.
pub enum RecvOutcome {
    /// A packet of the given type, transaction id and payload.
    Packet { message_type: PtpIpMessageType, transaction_id: u32, payload: Seq<u8> },
    /// The bytes ran out before the packet was complete.
    ReadFailed,
    /// The message type code is none that can be received.
    UnknownType(u16),
}

/// What `recv_packet` reads from the front of `s`, and the bytes it leaves.
/// A data block carries its payload length in the header; a response block carries,
/// after the header, a length that counts itself and the payload (a missing or too
/// small length gives an empty payload); command and event blocks carry none.
pub open spec fn spec_recv_packet(s: Seq<u8>) -> (RecvOutcome, Seq<u8>) {
    if s.len() < 8 {
        (RecvOutcome::ReadFailed, Seq::<u8>::empty())
    } else {
        let code = u16_at(s, 0);
        let tid = u32_at(s, 4) as u32;
        if code == 4 {
            if s.len() < 12 {
                (RecvOutcome::ReadFailed, Seq::<u8>::empty())
            } else {
                let n: int = u32_at(s, 8) as int;
                if s.len() < 12 + n {
                    (RecvOutcome::ReadFailed, Seq::<u8>::empty())
                } else {
                    (
                        RecvOutcome::Packet {
                            message_type: PtpIpMessageType::DataBlock,
                            transaction_id: tid,
                            payload: s.subrange(12, 12 + n),
                        },
                        s.skip(12 + n),
                    )
                }
            }
        } else if code == 5 {
            if s.len() < 12 {
                (
                    RecvOutcome::Packet {
                        message_type: PtpIpMessageType::ResponseBlock,
                        transaction_id: tid,
                        payload: Seq::<u8>::empty(),
                    },
                    Seq::<u8>::empty(),
                )
            } else {
                let total: int = u32_at(s, 8) as int;
                if total <= 4 {
                    (
                        RecvOutcome::Packet {
                            message_type: PtpIpMessageType::ResponseBlock,
                            transaction_id: tid,
                            payload: Seq::<u8>::empty(),
                        },
                        s.skip(12),
                    )
                } else if s.len() < 8 + total {
                    (RecvOutcome::ReadFailed, Seq::<u8>::empty())
                } else {
                    (
                        RecvOutcome::Packet {
                            message_type: PtpIpMessageType::ResponseBlock,
                            transaction_id: tid,
                            payload: s.subrange(12, 8 + total),
                        },
                        s.skip(8 + total),
                    )
                }
            }
        } else if code == 3 {
            (
                RecvOutcome::Packet {
                    message_type: PtpIpMessageType::CommandBlock,
                    transaction_id: tid,
                    payload: Seq::<u8>::empty(),
                },
                s.skip(8),
            )
        } else if code == 6 {
            (
                RecvOutcome::Packet {
                    message_type: PtpIpMessageType::EventBlock,
                    transaction_id: tid,
                    payload: Seq::<u8>::empty(),
                },
                s.skip(8),
            )
        } else {
            (RecvOutcome::UnknownType(code as u16), s.skip(8))
        }
    }
}

/// The text of the error for a message type that cannot be received.
pub open spec fn unknown_type_text(code: u16) -> Seq<char> {
    "Unknown message type: 0x"@ + ascii_chars(hex_bytes_padded(code as nat, 4))
}

/// The error of a failed receive agrees with the expected outcome.
pub open spec fn recv_failure_matches(e: PtpIpError, o: RecvOutcome) -> bool {
    match o {
        RecvOutcome::ReadFailed => e matches PtpIpError::Io(io) && io.kind
            == IoErrorKind::UnexpectedEof,
        RecvOutcome::UnknownType(c) => e matches PtpIpError::ProtocolError(m) && m@
            == unknown_type_text(c),
        RecvOutcome::Packet { .. } => false,
    }
}

/// The result of a receive agrees with the expected outcome.
pub open spec fn recv_result_matches(r: Result<PtpIpPacket, PtpIpError>, o: RecvOutcome) -> bool {
    match o {
        RecvOutcome::Packet { message_type, transaction_id, payload } => r matches Ok(p) && p.message_type
            == message_type && p.transaction_id == transaction_id && p.payload@ == payload,
        RecvOutcome::ReadFailed => r matches Err(PtpIpError::Io(e)) && e.kind
            == IoErrorKind::UnexpectedEof,
        RecvOutcome::UnknownType(c) => r matches Err(PtpIpError::ProtocolError(m)) && m@
            == unknown_type_text(c),
    }
}

/// A range of a suffix is a range of the whole.
proof fn lemma_skip_subrange(s: Seq<u8>, a: int, i: int, j: int)
    requires
        0 <= a <= s.len(),
        0 <= i <= j <= s.len() - a,
    ensures
        s.skip(a).subrange(i, j) == s.subrange(a + i, a + j),
{
    assert(s.skip(a).subrange(i, j) =~= s.subrange(a + i, a + j));
}

/// A prefix is the range from the start.
proof fn lemma_take_subrange(s: Seq<u8>, n: int)
    requires
        0 <= n <= s.len(),
    ensures
        s.take(n) == s.subrange(0, n),
{
    assert(s.take(n) =~= s.subrange(0, n));
}

/// Two bytes hold a value below 2^16.
proof fn lemma_u16_bound(s: Seq<u8>, off: int)
    requires
        0 <= off,
        off + 2 <= s.len(),
    ensures
        u16_at(s, off) < 0x10000,
{
    crate::utils::lemma_be_value_bound(s.subrange(off, off + 2));
    reveal_with_fuel(pow256, 3);
}

/// Four bytes hold a value below 2^32.
proof fn lemma_u32_bound(s: Seq<u8>, off: int)
    requires
        0 <= off,
        off + 4 <= s.len(),
    ensures
        u32_at(s, off) < 0x1_0000_0000,
{
    crate::utils::lemma_be_value_bound(s.subrange(off, off + 4));
    reveal_with_fuel(pow256, 5);
}

/// Reads `n` bytes, turning a failed read into the library's error.
fn read_bytes(stream: &mut MemStream, n: usize) -> (r: Result<Vec<u8>, PtpIpError>)
    ensures
        final(stream).written() == old(stream).written(),
        n <= old(stream).unread().len() ==> {
            &&& r matches Ok(b) && b@ == old(stream).unread().take(n as int)
            &&& final(stream).unread() == old(stream).unread().skip(n as int)
        },
        n > old(stream).unread().len() ==> {
            &&& r matches Err(PtpIpError::Io(e)) && e.kind == IoErrorKind::UnexpectedEof
            &&& final(stream).unread() == Seq::<u8>::empty()
        },
{
    match stream.read_exact(n) {
        Ok(b) => Ok(b),
        Err(e) => Err(PtpIpError::from_io(e)),
    }
}

impl PtpIpHeader {
    /// Reads a header; `message_type` is the type code when it was already read.
    pub fn from_stream(stream: &mut MemStream, message_type: Option<u16>) -> (r: Result<
        PtpIpHeader,
        PtpIpError,
    >)
        ensures
            final(stream).written() == old(stream).written(),
            header_available(message_type, old(stream).unread()) ==> {
                &&& r matches Ok(h) && h == spec_header(message_type, old(stream).unread()).0
                &&& final(stream).unread() == old(stream).unread().skip(
                    spec_header(message_type, old(stream).unread()).1,
                )
            },
            !header_available(message_type, old(stream).unread()) ==> {
                &&& r matches Err(PtpIpError::Io(e)) && e.kind == IoErrorKind::UnexpectedEof
                &&& final(stream).unread() == Seq::<u8>::empty()
            },
    {
        let ghost s = stream.unread();
        let read_size: usize = if message_type.is_some() { 6 } else { 8 };
        let header_bytes = read_bytes(stream, read_size)?;
        let hb = header_bytes.as_slice();
        let (code, base): (u16, usize) = match message_type {
            Some(t) => (t, 0),
            None => (be_read_u16(hb), 2),
        };
        let reserved = be_read_u16(&hb[base..base + 2]);
        let transaction_id = be_read_u32(&hb[base + 2..base + 6]);
        proof {
            lemma_take_subrange(s, 2);
            assert(hb@.take(2) == s.subrange(0, 2));
            assert(hb@.subrange(base as int, base + 2).take(2) == s.subrange(base as int, base + 2));
            assert(hb@.subrange(base + 2, base + 6).take(4) == s.subrange(base + 2, base + 6));
        }
        let payload_length: u32 = if code == 4 {
            let len_bytes = read_bytes(stream, 4)?;
            proof {
                assert(len_bytes@.take(4) =~= s.subrange(base + 6, base + 10));
            }
            be_read_u32(len_bytes.as_slice())
        } else {
            0
        };
        proof {
            if code == 4 {
                assert(s.skip(read_size as int).skip(4) =~= s.skip(read_size + 4));
            }
        }
        Ok(PtpIpHeader { message_type: code, reserved, transaction_id, payload_length })
    }
}

/// Receives one PTP/IP packet.
pub fn recv_packet(stream: &mut MemStream) -> (r: Result<PtpIpPacket, PtpIpError>)
    ensures
        final(stream).written() == old(stream).written(),
        final(stream).unread() == spec_recv_packet(old(stream).unread()).1,
        recv_result_matches(r, spec_recv_packet(old(stream).unread()).0),
{
    let ghost s = stream.unread();
    let type_bytes = read_bytes(stream, 2)?;
    let code = be_read_u16(type_bytes.as_slice());
    proof {
        assert(type_bytes@.take(2) =~= s.subrange(0, 2));
        lemma_u16_bound(s, 0);
        let s1 = s.skip(2);
        if s1.len() >= 6 {
            lemma_skip_subrange(s, 2, 0, 2);
            lemma_skip_subrange(s, 2, 2, 6);
            lemma_u32_bound(s, 4);
        }
        if s1.len() >= 10 {
            lemma_skip_subrange(s, 2, 6, 10);
            lemma_u32_bound(s, 8);
        }
    }
    let header = PtpIpHeader::from_stream(stream, Some(code))?;
    let message_type = match header.message_type {
        3 => PtpIpMessageType::CommandBlock,
        4 => PtpIpMessageType::DataBlock,
        5 => PtpIpMessageType::ResponseBlock,
        6 => PtpIpMessageType::EventBlock,
        _ => {
            let mut m = String::from_str("Unknown message type: 0x");
            let h = hex_string_padded(header.message_type as u64, 4);
            m.append(h.as_str());
            proof {
                assert(s.skip(2).skip(6) =~= s.skip(8));
            }
            return Err(PtpIpError::ProtocolError(m));
        },
    };
    proof {
        assert(s.skip(2).skip(6) =~= s.skip(8));
    }
    if header.message_type == 4 {
        proof {
            assert(s.skip(2).skip(10) =~= s.skip(12));
        }
        let n = header.payload_length as usize;
        let payload = if n > 0 {
            read_bytes(stream, n)?
        } else {
            Vec::new()
        };
        proof {
            assert(s.skip(12).take(n as int) =~= s.subrange(12, 12 + n));
            assert(s.skip(12).skip(n as int) =~= s.skip(12 + n));
            if n == 0 {
                assert(s.subrange(12, 12) =~= Seq::<u8>::empty());
                assert(s.skip(12 + n) =~= s.skip(12));
            }
        }
        return Ok(PtpIpPacket { message_type, transaction_id: header.transaction_id, payload });
    }
    if header.message_type == 5 {
        match stream.read_exact(4) {
            Ok(len_bytes) => {
                let total_len = be_read_u32(len_bytes.as_slice());
                proof {
                    assert(len_bytes@.take(4) =~= s.subrange(8, 12));
                    assert(s.skip(8).skip(4) =~= s.skip(12));
                }
                if total_len >= 4 {
                    let n = (total_len - 4) as usize;
                    let payload = if n > 0 {
                        read_bytes(stream, n)?
                    } else {
                        Vec::new()
                    };
                    proof {
                        assert(s.skip(12).take(n as int) =~= s.subrange(12, 12 + n));
                        assert(s.skip(12).skip(n as int) =~= s.skip(12 + n));
                        if n == 0 {
                            assert(s.subrange(12, 12) =~= Seq::<u8>::empty());
                        }
                    }
                    return Ok(
                        PtpIpPacket { message_type, transaction_id: header.transaction_id, payload },
                    );
                }
            },
            Err(_) => {},
        }
    }
    Ok(PtpIpPacket { message_type, transaction_id: header.transaction_id, payload: Vec::new() })
}

// ------------------------------
// Laws of sending and receiving
// ------------------------------

/// A field that holds the encoding of `v` reads as `v`.
pub(crate) proof fn lemma_field_value(s: Seq<u8>, off: int, v: nat, n: nat)
    requires
        0 <= off,
        off + n <= s.len(),
        v < pow256(n),
        s.subrange(off, off + n) == be_bytes(v, n),
    ensures
        be_value(s.subrange(off, off + n)) == v,
{
    lemma_be_value_of_bytes(v, n);
}

/// The first eight bytes of a sent packet hold its type code and transaction id.
proof fn lemma_packet_prefix(p: PtpIpPacket, rest: Seq<u8>)
    ensures
        ({
            let s = packet_bytes(p) + rest;
            &&& s.len() >= 8
            &&& u16_at(s, 0) == message_type_code(p.message_type) as nat
            &&& u32_at(s, 4) == p.transaction_id as nat
        }),
{
    let s = packet_bytes(p) + rest;
    lemma_be_bytes_len(message_type_code(p.message_type) as nat, 2);
    lemma_be_bytes_len(0, 2);
    lemma_be_bytes_len(p.transaction_id as nat, 4);
    lemma_be_bytes_len((p.payload@.len() % 0x1_0000_0000) as nat, 4);
    reveal_with_fuel(pow256, 5);
    assert(s.subrange(0, 2) =~= be_bytes(message_type_code(p.message_type) as nat, 2));
    assert(s.subrange(4, 8) =~= be_bytes(p.transaction_id as nat, 4));
    lemma_field_value(s, 0, message_type_code(p.message_type) as nat, 2);
    lemma_field_value(s, 4, p.transaction_id as nat, 4);
}

/// A data block that was sent is received whole: same type, transaction id and
/// payload, and the bytes after it are left unread (its payload must be shorter
/// than 2^32 bytes, the reach of the length field).
pub proof fn lemma_data_block_roundtrip(p: PtpIpPacket, rest: Seq<u8>)
    requires
        p.message_type == PtpIpMessageType::DataBlock,
        p.payload@.len() < 0x1_0000_0000,
    ensures
        spec_recv_packet(packet_bytes(p) + rest) == (
            RecvOutcome::Packet {
                message_type: PtpIpMessageType::DataBlock,
                transaction_id: p.transaction_id,
                payload: p.payload@,
            },
            rest,
        ),
{
    let s = packet_bytes(p) + rest;
    let n = p.payload@.len();
    lemma_packet_prefix(p, rest);
    lemma_be_bytes_len(4, 2);
    lemma_be_bytes_len(0, 2);
    lemma_be_bytes_len(p.transaction_id as nat, 4);
    lemma_be_bytes_len(n, 4);
    reveal_with_fuel(pow256, 5);
    assert(s.subrange(8, 12) =~= be_bytes(n, 4));
    lemma_field_value(s, 8, n, 4);
    assert(s.subrange(12, 12 + n as int) =~= p.payload@);
    assert(s.skip(12 + n as int) =~= rest);
}

/// A command or event block that was sent is received with its type and
/// transaction id but an empty payload: the receiver reads no payload for these
/// types, so the sent payload is left unread, in front of the bytes after it.
pub proof fn lemma_command_event_roundtrip(p: PtpIpPacket, rest: Seq<u8>)
    requires
        p.message_type == PtpIpMessageType::CommandBlock || p.message_type
            == PtpIpMessageType::EventBlock,
    ensures
        spec_recv_packet(packet_bytes(p) + rest) == (
            RecvOutcome::Packet {
                message_type: p.message_type,
                transaction_id: p.transaction_id,
                payload: Seq::<u8>::empty(),
            },
            p.payload@ + rest,
        ),
{
    let s = packet_bytes(p) + rest;
    lemma_packet_prefix(p, rest);
    lemma_be_bytes_len(message_type_code(p.message_type) as nat, 2);
    lemma_be_bytes_len(0, 2);
    lemma_be_bytes_len(p.transaction_id as nat, 4);
    assert(s.skip(8) =~= p.payload@ + rest);
}

/// The wire form of a response block whose length field counts itself and the body.
pub open spec fn response_bytes(transaction_id: u32, body: Seq<u8>) -> Seq<u8> {
    be_bytes(5, 2) + be_bytes(0, 2) + be_bytes(transaction_id as nat, 4) + be_bytes(
        (body.len() + 4) as nat,
        4,
    ) + body
}

/// A response block framed with a length that counts itself and the body is
/// received with exactly that body (bodies up to 2^32 - 5 bytes).
pub proof fn lemma_response_framing(transaction_id: u32, body: Seq<u8>, rest: Seq<u8>)
    requires
        body.len() + 4 < 0x1_0000_0000,
    ensures
        spec_recv_packet(response_bytes(transaction_id, body) + rest) == (
            RecvOutcome::Packet {
                message_type: PtpIpMessageType::ResponseBlock,
                transaction_id,
                payload: body,
            },
            rest,
        ),
{
    let s = response_bytes(transaction_id, body) + rest;
    let n = body.len();
    lemma_be_bytes_len(5, 2);
    lemma_be_bytes_len(0, 2);
    lemma_be_bytes_len(transaction_id as nat, 4);
    lemma_be_bytes_len((n + 4) as nat, 4);
    reveal_with_fuel(pow256, 5);
    assert(s.subrange(0, 2) =~= be_bytes(5, 2));
    assert(s.subrange(4, 8) =~= be_bytes(transaction_id as nat, 4));
    assert(s.subrange(8, 12) =~= be_bytes((n + 4) as nat, 4));
    lemma_field_value(s, 0, 5, 2);
    lemma_field_value(s, 4, transaction_id as nat, 4);
    lemma_field_value(s, 8, (n + 4) as nat, 4);
    assert(u16_at(s, 0) == 5);
    assert(u32_at(s, 8) == n + 4);
    if n == 0 {
        assert(s.skip(12) =~= rest);
        assert(body =~= Seq::<u8>::empty());
    } else {
        assert(s.subrange(12, 12 + n as int) =~= body);
        assert(s.skip(12 + n as int) =~= rest);
    }
}

// ------------------------------
// Incremental receiving, for connections read piece by piece
// ------------------------------

/// What a packet receiver waits for.
#[derive(Debug, Clone, Copy, PartialEq, Eq, Structural)]
pub enum RecvStage {
    /// The two bytes of the message type.
    AwaitType,
    /// The reserved field and the transaction id, after a type of this code.
    AwaitHeader { code: u16 },
    /// The payload length of a data block.
    AwaitDataLength { transaction_id: u32 },
    /// The payload of a data block.
    AwaitDataPayload { transaction_id: u32, length: u32 },
    /// The length field of a response block.
    AwaitResponseLength { transaction_id: u32 },
    /// The payload of a response block.
    AwaitResponsePayload { transaction_id: u32, length: u32 },
    /// Nothing: the packet was delivered or the receive failed.
    Finished,
}

/// What the caller of a packet receiver does next.
#[derive(Debug)]
pub enum RecvAction {
    /// Read exactly this many bytes and feed the result back.
    Read(usize),
    /// The packet is complete.
    Complete(PtpIpPacket),
    /// The receive failed with this error.
    Fail(PtpIpError),
}

/// The action delivers a packet of this type, transaction id and payload.
pub open spec fn delivers(r: RecvAction, t: PtpIpMessageType, tid: u32, payload: Seq<u8>) -> bool {
    r matches RecvAction::Complete(p) && p.message_type == t && p.transaction_id == tid
        && p.payload@ == payload
}

/// The action fails because the message type code cannot be received.
pub open spec fn rejects_type(r: RecvAction, code: u16) -> bool {
    r matches RecvAction::Fail(PtpIpError::ProtocolError(m)) && m@ == unknown_type_text(code)
}

/// The number of bytes a stage waits for.
pub open spec fn stage_need(stage: RecvStage) -> nat {
    match stage {
        RecvStage::AwaitType => 2,
        RecvStage::AwaitHeader { .. } => 6,
        RecvStage::AwaitDataLength { .. } => 4,
        RecvStage::AwaitDataPayload { length, .. } => length as nat,
        RecvStage::AwaitResponseLength { .. } => 4,
        RecvStage::AwaitResponsePayload { length, .. } => length as nat,
        RecvStage::Finished => 0,
    }
}

/// How far a stage is from the end, for termination.
pub open spec fn stage_rank(stage: RecvStage) -> nat {
    match stage {
        RecvStage::AwaitType => 4,
        RecvStage::AwaitHeader { .. } => 3,
        RecvStage::AwaitDataLength { .. } => 2,
        RecvStage::AwaitResponseLength { .. } => 2,
        RecvStage::AwaitDataPayload { .. } => 1,
        RecvStage::AwaitResponsePayload { .. } => 1,
        RecvStage::Finished => 0,
    }
}

/// What a receiver in `stage` delivers when the bytes still to come are `s`
/// (a read of more bytes than `s` holds fails and consumes them all), and what it
/// leaves unread.
pub open spec fn stage_outcome(stage: RecvStage, s: Seq<u8>) -> (RecvOutcome, Seq<u8>)
    decreases stage_rank(stage),
{
    match stage {
        RecvStage::AwaitType => if s.len() < 2 {
            (RecvOutcome::ReadFailed, Seq::<u8>::empty())
        } else {
            stage_outcome(RecvStage::AwaitHeader { code: u16_at(s, 0) as u16 }, s.skip(2))
        },
        RecvStage::AwaitHeader { code } => if s.len() < 6 {
            (RecvOutcome::ReadFailed, Seq::<u8>::empty())
        } else {
            let tid = u32_at(s, 2) as u32;
            if code == 4 {
                stage_outcome(RecvStage::AwaitDataLength { transaction_id: tid }, s.skip(6))
            } else if code == 5 {
                stage_outcome(RecvStage::AwaitResponseLength { transaction_id: tid }, s.skip(6))
            } else if code == 3 {
                (
                    RecvOutcome::Packet {
                        message_type: PtpIpMessageType::CommandBlock,
                        transaction_id: tid,
                        payload: Seq::<u8>::empty(),
                    },
                    s.skip(6),
                )
            } else if code == 6 {
                (
                    RecvOutcome::Packet {
                        message_type: PtpIpMessageType::EventBlock,
                        transaction_id: tid,
                        payload: Seq::<u8>::empty(),
                    },
                    s.skip(6),
                )
            } else {
                (RecvOutcome::UnknownType(code), s.skip(6))
            }
        },
        RecvStage::AwaitDataLength { transaction_id } => if s.len() < 4 {
            (RecvOutcome::ReadFailed, Seq::<u8>::empty())
        } else if u32_at(s, 0) == 0 {
            (
                RecvOutcome::Packet {
                    message_type: PtpIpMessageType::DataBlock,
                    transaction_id,
                    payload: Seq::<u8>::empty(),
                },
                s.skip(4),
            )
        } else {
            stage_outcome(
                RecvStage::AwaitDataPayload { transaction_id, length: u32_at(s, 0) as u32 },
                s.skip(4),
            )
        },
        RecvStage::AwaitDataPayload { transaction_id, length } => if s.len() < length {
            (RecvOutcome::ReadFailed, Seq::<u8>::empty())
        } else {
            (
                RecvOutcome::Packet {
                    message_type: PtpIpMessageType::DataBlock,
                    transaction_id,
                    payload: s.take(length as int),
                },
                s.skip(length as int),
            )
        },
        RecvStage::AwaitResponseLength { transaction_id } => if s.len() < 4 {
            (
                RecvOutcome::Packet {
                    message_type: PtpIpMessageType::ResponseBlock,
                    transaction_id,
                    payload: Seq::<u8>::empty(),
                },
                Seq::<u8>::empty(),
            )
        } else if u32_at(s, 0) <= 4 {
            (
                RecvOutcome::Packet {
                    message_type: PtpIpMessageType::ResponseBlock,
                    transaction_id,
                    payload: Seq::<u8>::empty(),
                },
                s.skip(4),
            )
        } else {
            stage_outcome(
                RecvStage::AwaitResponsePayload {
                    transaction_id,
                    length: (u32_at(s, 0) - 4) as u32,
                },
                s.skip(4),
            )
        },
        RecvStage::AwaitResponsePayload { transaction_id, length } => if s.len() < length {
            (RecvOutcome::ReadFailed, Seq::<u8>::empty())
        } else {
            (
                RecvOutcome::Packet {
                    message_type: PtpIpMessageType::ResponseBlock,
                    transaction_id,
                    payload: s.take(length as int),
                },
                s.skip(length as int),
            )
        },
        RecvStage::Finished => (RecvOutcome::ReadFailed, s),
    }
}

/// One step of a packet receiver: in `stage`, given the result `read` of the read
/// it asked for, it moves to `next` and answers `r`.
pub open spec fn feed_step(stage: RecvStage, read: Result<Vec<u8>, IoError>, next: RecvStage, r: RecvAction) -> bool {
    match read {
        Err(e) => match stage {
            RecvStage::AwaitResponseLength { transaction_id } => next
                == RecvStage::Finished && delivers(
                r,
                PtpIpMessageType::ResponseBlock,
                transaction_id,
                Seq::<u8>::empty(),
            ),
            _ => next == RecvStage::Finished && r == RecvAction::Fail(
                error_from_io(e),
            ),
        },
        Ok(b) => match stage {
            RecvStage::AwaitType => next == RecvStage::AwaitHeader {
                code: be_value(b@) as u16,
            } && r == RecvAction::Read(6),
            RecvStage::AwaitHeader { code } => {
                let tid = u32_at(b@, 2) as u32;
                if code == 4 {
                    next == RecvStage::AwaitDataLength { transaction_id: tid } && r
                        == RecvAction::Read(4)
                } else if code == 5 {
                    next == RecvStage::AwaitResponseLength { transaction_id: tid }
                        && r == RecvAction::Read(4)
                } else if code == 3 || code == 6 {
                    next == RecvStage::Finished && delivers(
                        r,
                        if code == 3 {
                            PtpIpMessageType::CommandBlock
                        } else {
                            PtpIpMessageType::EventBlock
                        },
                        tid,
                        Seq::<u8>::empty(),
                    )
                } else {
                    next == RecvStage::Finished && rejects_type(r, code)
                }
            },
            RecvStage::AwaitDataLength { transaction_id } => if be_value(b@) == 0 {
                next == RecvStage::Finished && delivers(
                    r,
                    PtpIpMessageType::DataBlock,
                    transaction_id,
                    Seq::<u8>::empty(),
                )
            } else {
                next == RecvStage::AwaitDataPayload {
                    transaction_id,
                    length: be_value(b@) as u32,
                } && r == RecvAction::Read(be_value(b@) as usize)
            },
            RecvStage::AwaitResponseLength { transaction_id } => if be_value(b@)
                <= 4 {
                next == RecvStage::Finished && delivers(
                    r,
                    PtpIpMessageType::ResponseBlock,
                    transaction_id,
                    Seq::<u8>::empty(),
                )
            } else {
                next == RecvStage::AwaitResponsePayload {
                    transaction_id,
                    length: (be_value(b@) - 4) as u32,
                } && r == RecvAction::Read((be_value(b@) - 4) as usize)
            },
            RecvStage::AwaitDataPayload { transaction_id, .. } => next
                == RecvStage::Finished && delivers(
                r,
                PtpIpMessageType::DataBlock,
                transaction_id,
                b@,
            ),
            RecvStage::AwaitResponsePayload { transaction_id, .. } => next
                == RecvStage::Finished && delivers(
                r,
                PtpIpMessageType::ResponseBlock,
                transaction_id,
                b@,
            ),
            RecvStage::Finished => false,
        },
    }
    
}

/// Receives a packet piece by piece: the caller reads exactly the number of bytes
/// that each `RecvAction::Read` asks for and feeds the result back, until the
/// packet is complete or the receive fails.
#[derive(Debug)]
pub struct PacketReceiver {
    pub stage: RecvStage,
}

impl PacketReceiver {
    /// A receiver about to read a packet; its first read is of two bytes.
    pub fn new() -> (r: PacketReceiver)
        ensures
            r.stage == RecvStage::AwaitType,
    {
        PacketReceiver { stage: RecvStage::AwaitType }
    }

    /// The number of bytes the receiver waits for.
    pub fn pending_read(&self) -> (n: usize)
        ensures
            n as nat == stage_need(self.stage),
    {
        match self.stage {
            RecvStage::AwaitType => 2,
            RecvStage::AwaitHeader { .. } => 6,
            RecvStage::AwaitDataLength { .. } => 4,
            RecvStage::AwaitDataPayload { length, .. } => length as usize,
            RecvStage::AwaitResponseLength { .. } => 4,
            RecvStage::AwaitResponsePayload { length, .. } => length as usize,
            RecvStage::Finished => 0,
        }
    }

    /// Takes the result of the read the receiver asked for and says what to do next.
    /// A failed read ends the receive with its error, except for the length field of
    /// a response block: without it the response is delivered with an empty payload.
    pub fn feed(&mut self, read: Result<Vec<u8>, IoError>) -> (r: RecvAction)
        requires
            old(self).stage != RecvStage::Finished,
            read matches Ok(b) ==> b@.len() == stage_need(old(self).stage),
        ensures
            feed_step(old(self).stage, read, final(self).stage, r),
    {
        let stage = self.stage;
        self.stage = RecvStage::Finished;
        match read {
            Err(e) => match stage {
                RecvStage::AwaitResponseLength { transaction_id } => RecvAction::Complete(
                    PtpIpPacket {
                        message_type: PtpIpMessageType::ResponseBlock,
                        transaction_id,
                        payload: Vec::new(),
                    },
                ),
                _ => RecvAction::Fail(PtpIpError::from_io(e)),
            },
            Ok(b) => {
                let bs = b.as_slice();
                proof {
                    assert(b@.take(b@.len() as int) =~= b@);
                }
                match stage {
                    RecvStage::AwaitType => {
                        let code = be_read_u16(bs);
                        self.stage = RecvStage::AwaitHeader { code };
                        RecvAction::Read(6)
                    },
                    RecvStage::AwaitHeader { code } => {
                        let tid = be_read_u32(&bs[2..6]);
                        proof {
                            assert(bs@.subrange(2, 6).take(4) =~= b@.subrange(2, 6));
                        }
                        if code == 4 {
                            self.stage = RecvStage::AwaitDataLength { transaction_id: tid };
                            RecvAction::Read(4)
                        } else if code == 5 {
                            self.stage = RecvStage::AwaitResponseLength { transaction_id: tid };
                            RecvAction::Read(4)
                        } else if code == 3 {
                            RecvAction::Complete(
                                PtpIpPacket {
                                    message_type: PtpIpMessageType::CommandBlock,
                                    transaction_id: tid,
                                    payload: Vec::new(),
                                },
                            )
                        } else if code == 6 {
                            RecvAction::Complete(
                                PtpIpPacket {
                                    message_type: PtpIpMessageType::EventBlock,
                                    transaction_id: tid,
                                    payload: Vec::new(),
                                },
                            )
                        } else {
                            let mut m = String::from_str("Unknown message type: 0x");
                            let h = hex_string_padded(code as u64, 4);
                            m.append(h.as_str());
                            RecvAction::Fail(PtpIpError::ProtocolError(m))
                        }
                    },
                    RecvStage::AwaitDataLength { transaction_id } => {
                        let n = be_read_u32(bs);
                        if n == 0 {
                            RecvAction::Complete(
                                PtpIpPacket {
                                    message_type: PtpIpMessageType::DataBlock,
                                    transaction_id,
                                    payload: Vec::new(),
                                },
                            )
                        } else {
                            self.stage = RecvStage::AwaitDataPayload { transaction_id, length: n };
                            RecvAction::Read(n as usize)
                        }
                    },
                    RecvStage::AwaitResponseLength { transaction_id } => {
                        let total = be_read_u32(bs);
                        if total <= 4 {
                            RecvAction::Complete(
                                PtpIpPacket {
                                    message_type: PtpIpMessageType::ResponseBlock,
                                    transaction_id,
                                    payload: Vec::new(),
                                },
                            )
                        } else {
                            self.stage = RecvStage::AwaitResponsePayload {
                                transaction_id,
                                length: total - 4,
                            };
                            RecvAction::Read((total - 4) as usize)
                        }
                    },
                    RecvStage::AwaitDataPayload { transaction_id, .. } => RecvAction::Complete(
                        PtpIpPacket {
                            message_type: PtpIpMessageType::DataBlock,
                            transaction_id,
                            payload: b,
                        },
                    ),
                    RecvStage::AwaitResponsePayload { transaction_id, .. } => RecvAction::Complete(
                        PtpIpPacket {
                            message_type: PtpIpMessageType::ResponseBlock,
                            transaction_id,
                            payload: b,
                        },
                    ),
                    RecvStage::Finished => RecvAction::Fail(PtpIpError::Timeout),
                }
            },
        }
    }
}

/// `read` is what reading `n` bytes from the front of `s` gives: those bytes, or,
/// when `s` holds fewer, an end-of-data failure.
pub open spec fn read_of(s: Seq<u8>, n: nat, read: Result<Vec<u8>, IoError>) -> bool {
    if n <= s.len() {
        read matches Ok(b) && b@ == s.take(n as int)
    } else {
        read matches Err(e) && e.kind == IoErrorKind::UnexpectedEof
    }
}

/// What is left of `s` after reading `n` bytes (nothing, when it held fewer).
pub open spec fn rest_of(s: Seq<u8>, n: nat) -> Seq<u8> {
    if n <= s.len() {
        s.skip(n as int)
    } else {
        Seq::<u8>::empty()
    }
}

/// Every step of a packet receiver fed from the front of a byte sequence keeps it on
/// the course that `stage_outcome` gives: when it asks for another read, the
/// outcome from the new stage on the rest of the bytes is the outcome it was
/// heading for; when it completes or fails, that is the outcome, and the bytes left
/// are the rest.
pub proof fn lemma_feed_follows(
    stage: RecvStage,
    s: Seq<u8>,
    read: Result<Vec<u8>, IoError>,
    next: RecvStage,
    r: RecvAction,
)
    requires
        stage != RecvStage::Finished,
        read_of(s, stage_need(stage), read),
        feed_step(stage, read, next, r),
    ensures
        match r {
            RecvAction::Read(n) => next != RecvStage::Finished && n == stage_need(next)
                && stage_outcome(stage, s) == stage_outcome(next, rest_of(s, stage_need(stage))),
            RecvAction::Complete(p) => stage_outcome(stage, s) == (
                RecvOutcome::Packet {
                    message_type: p.message_type,
                    transaction_id: p.transaction_id,
                    payload: p.payload@,
                },
                rest_of(s, stage_need(stage)),
            ),
            RecvAction::Fail(e) => recv_failure_matches(e, stage_outcome(stage, s).0)
                && stage_outcome(stage, s).1 == rest_of(s, stage_need(stage)),
        },
{
    let need = stage_need(stage);
    if need <= s.len() {
        let b = s.take(need as int);
        assert(b =~= s.subrange(0, need as int));
        if need >= 6 {
            assert(b.subrange(2, 6) =~= s.subrange(2, 6));
        }
        if need >= 2 {
            assert(b.subrange(0, 2) =~= s.subrange(0, 2));
        }
        if need >= 4 {
            assert(b.subrange(0, 4) =~= s.subrange(0, 4));
        }
        match stage {
            RecvStage::AwaitHeader { code } => {
                lemma_u32_bound(s, 2);
            },
            RecvStage::AwaitType => {
                lemma_u16_bound(s, 0);
            },
            RecvStage::AwaitDataLength { .. } => {
                lemma_u32_bound(s, 0);
            },
            RecvStage::AwaitResponseLength { .. } => {
                lemma_u32_bound(s, 0);
            },
            _ => {},
        }
    }
}

/// A packet receiver fed from a byte sequence delivers exactly what `recv_packet`
/// reads from it, and leaves the same bytes unread.
pub proof fn lemma_receiver_agrees(s: Seq<u8>)
    ensures
        stage_outcome(RecvStage::AwaitType, s) == spec_recv_packet(s),
{
    reveal_with_fuel(stage_outcome, 5);
    if s.len() >= 2 {
        let s2 = s.skip(2);
        lemma_skip_subrange(s, 0, 0, 2);
        assert(s.skip(0) =~= s);
        if s2.len() >= 6 {
            lemma_skip_subrange(s, 2, 2, 6);
            lemma_u16_bound(s, 0);
            lemma_u32_bound(s, 4);
            let s8 = s2.skip(6);
            assert(s8 =~= s.skip(8));
            let code = u16_at(s, 0);
            if s.len() >= 12 {
                lemma_skip_subrange(s, 8, 0, 4);
                lemma_u32_bound(s, 8);
                assert(s8.skip(4) =~= s.skip(12));
                let n = u32_at(s, 8) as int;
                if code == 4 {
                    if n == 0 {
                        assert(s.subrange(12, 12) =~= Seq::<u8>::empty());
                    } else if s.len() >= 12 + n {
                        assert(s.skip(12).take(n) =~= s.subrange(12, 12 + n));
                        assert(s.skip(12).skip(n) =~= s.skip(12 + n));
                    }
                } else if code == 5 {
                    if n > 4 && s.len() >= 8 + n {
                        assert(s.skip(12).take(n - 4) =~= s.subrange(12, 8 + n));
                        assert(s.skip(12).skip(n - 4) =~= s.skip(8 + n));
                    }
                }
            }
        }
    }
}

// ------------------------------
// Receiving with a type filter and a time limit
// ------------------------------

/// The monotonic clock's time type, `std::time::Instant`, carried opaquely.
#[verifier::external_type_specification]
#[verifier::external_body]
pub struct ExInstant(std::time::Instant);

/// The current time of the monotonic clock, from `Instant::now`.
#[verifier::external_body]
pub(crate) fn instant_now() -> Instant {
    Instant::now()
}

/// The time passed since `start`, from `Instant::elapsed`.
#[verifier::external_body]
pub(crate) fn instant_elapsed(start: &Instant) -> Duration {
    start.elapsed()
}

/// The whole nanoseconds of a duration, from `Duration::as_nanos`.
#[verifier::external_body]
pub(crate) fn duration_as_nanos(d: &Duration) -> u128 {
    d.as_nanos()
}

/// Whether `elapsed_nanos` nanoseconds are more than `timeout_secs` whole seconds.
pub fn timeout_exceeded(elapsed_nanos: u128, timeout_secs: u64) -> (r: bool)
    ensures
        r == (elapsed_nanos > timeout_secs as nat * 1_000_000_000),
{
    elapsed_nanos > (timeout_secs as u128) * 1_000_000_000u128
}

/// Whether more than `timeout_secs` seconds have passed since `start` (see
/// `timeout_exceeded`). The time passed is the clock's reading, so nothing is
/// stated of the answer itself.
pub fn timed_out(start: &Instant, timeout_secs: u64) -> bool {
    let elapsed = instant_elapsed(start);
    timeout_exceeded(duration_as_nanos(&elapsed), timeout_secs)
}

/// A packet that was received consumes at least its eight header bytes.
pub proof fn lemma_recv_consumes(s: Seq<u8>)
    ensures
        spec_recv_packet(s).0 is Packet ==> spec_recv_packet(s).1.len() + 8 <= s.len(),
{
}

/// Whether a packet of type `t` passes a filter for type `expected` (no filter passes all).
pub open spec fn type_passes(expected: Option<PtpIpMessageType>, t: PtpIpMessageType) -> bool {
    match expected {
        Some(e) => t == e,
        None => true,
    }
}

/// What `recv_packet_filtered` reads from the front of `s` when the clock does not
/// run out: packets of other types are skipped until one of the expected type
/// arrives or a receive fails.
pub open spec fn spec_recv_filtered(s: Seq<u8>, expected: Option<PtpIpMessageType>) -> (
    RecvOutcome,
    Seq<u8>,
)
    decreases s.len(),
{
    let (o, rest) = spec_recv_packet(s);
    match o {
        RecvOutcome::Packet { message_type, .. } => if !type_passes(expected, message_type)
            && rest.len() < s.len() {
            spec_recv_filtered(rest, expected)
        } else {
            (o, rest)
        },
        _ => (o, rest),
    }
}

/// Receives packets until one of the expected type arrives (any type, when
/// `expected` is `None`), skipping the others; fails with `Timeout` once more than
/// `config.timeout` seconds have passed before a receive.
pub fn recv_packet_filtered(
    stream: &mut MemStream,
    expected_type: Option<PtpIpMessageType>,
    config: &SessionConfig,
) -> (r: Result<PtpIpPacket, PtpIpError>)
    ensures
        final(stream).written() == old(stream).written(),
        !(r matches Err(PtpIpError::Timeout)) ==> {
            &&& final(stream).unread() == spec_recv_filtered(old(stream).unread(), expected_type).1
            &&& recv_result_matches(r, spec_recv_filtered(old(stream).unread(), expected_type).0)
        },
{
    let start_time = instant_now();
    let ghost target = spec_recv_filtered(stream.unread(), expected_type);
    loop
        invariant
            stream.written() == old(stream).written(),
            spec_recv_filtered(stream.unread(), expected_type) == target,
            target == spec_recv_filtered(old(stream).unread(), expected_type),
        decreases stream.unread().len(),
    {
        if timed_out(&start_time, config.timeout) {
            return Err(PtpIpError::Timeout);
        }
        let ghost s = stream.unread();
        proof {
            lemma_recv_consumes(s);
        }
        let received = recv_packet(stream);
        proof {
            let (o, rest) = spec_recv_packet(s);
            assert(spec_recv_filtered(s, expected_type) == match o {
                RecvOutcome::Packet { message_type, .. } => if !type_passes(
                    expected_type,
                    message_type,
                ) && rest.len() < s.len() {
                    spec_recv_filtered(rest, expected_type)
                } else {
                    (o, rest)
                },
                _ => (o, rest),
            });
        }
        let packet = match received {
            Ok(p) => p,
            Err(e) => {
                return Err(e);
            },
        };
        if let Some(expected) = expected_type {
            if packet.message_type != expected {
                continue;
            }
        }
        return Ok(packet);
    }
}

// ------------------------------
// Dataset parsing
// ------------------------------

/// Why parsing a dataset fails.
pub enum ParseFailure {
    /// A field lies past the end of the data (reported as an input/output error).
    ReadPastEnd,
    /// The data breaks the protocol; the text says how.
    Protocol(Seq<char>),
    /// A string field is not valid UTF-8.
    BadText,
}

/// The error value agrees with the expected reason.
pub open spec fn failure_matches(e: PtpIpError, f: ParseFailure) -> bool {
    match f {
        ParseFailure::ReadPastEnd => e matches PtpIpError::Io(io) && io.kind
            == IoErrorKind::UnexpectedEof,
        ParseFailure::Protocol(m) => e matches PtpIpError::ProtocolError(x) && x@ == m,
        ParseFailure::BadText => e is StringEncoding,
    }
}

/// The index of the first NUL byte of `s`, or its length when it has none.
pub open spec fn text_end(s: Seq<u8>) -> int {
    if exists|i: int| 0 <= i < s.len() && s[i] == 0 && (forall|j: int| 0 <= j < i ==> s[j] != 0) {
        choose|i: int| 0 <= i < s.len() && s[i] == 0 && (forall|j: int| 0 <= j < i ==> s[j] != 0)
    } else {
        s.len() as int
    }
}

/// The text of the error for a string field that lies outside the data.
pub open spec fn out_of_bounds_text(offset: nat, length: nat, data_len: nat) -> Seq<char> {
    "String extraction out of bounds: offset="@ + ascii_chars(decimal_bytes(offset)) + ", length="@
        + ascii_chars(decimal_bytes(length)) + ", data length="@ + ascii_chars(
        decimal_bytes(data_len),
    )
}

/// The string stored in `data` at `offset`, `length` bytes long and cut at its
/// first NUL byte, decoded as UTF-8.
pub open spec fn spec_extract(data: Seq<u8>, offset: nat, length: nat) -> Result<
    Seq<char>,
    ParseFailure,
> {
    if offset + length > data.len() {
        Err(ParseFailure::Protocol(out_of_bounds_text(offset, length, data.len())))
    } else {
        let field = data.subrange(offset as int, (offset + length) as int);
        let text = field.take(text_end(field));
        if valid_utf8(text) {
            Ok(decode_utf8(text))
        } else {
            Err(ParseFailure::BadText)
        }
    }
}

/// The result of an extraction agrees with the expected outcome.
pub open spec fn text_result_matches(r: Result<String, PtpIpError>, o: Result<Seq<char>, ParseFailure>) -> bool {
    match o {
        Ok(t) => r matches Ok(x) && x@ == t,
        Err(f) => r matches Err(e) && failure_matches(e, f),
    }
}

/// Extracts the string stored at `offset`, `length` bytes long, cut at its first
/// NUL byte.
pub fn extract_string(data: &[u8], offset: usize, length: usize) -> (r: Result<String, PtpIpError>)
    ensures
        text_result_matches(r, spec_extract(data@, offset as nat, length as nat)),
{
    if offset > data.len() || length > data.len() - offset {
        let mut m = String::from_str("String extraction out of bounds: offset=");
        let a = decimal_string(offset as u64);
        m.append(a.as_str());
        m.append(", length=");
        let b = decimal_string(length as u64);
        m.append(b.as_str());
        m.append(", data length=");
        let c = decimal_string(data.len() as u64);
        m.append(c.as_str());
        return Err(PtpIpError::ProtocolError(m));
    }
    let ghost field = data@.subrange(offset as int, offset + length);
    let mut end: usize = 0;
    while end < length && data[offset + end] != 0
        invariant
            end <= length,
            offset + length <= data.len(),
            field == data@.subrange(offset as int, offset + length),
            forall|j: int| 0 <= j < end ==> field[j] != 0,
        decreases length - end,
    {
        end = end + 1;
    }
    proof {
        if end < length {
            assert(field[end as int] == 0);
            assert(0 <= end < field.len() && field[end as int] == 0 && (forall|j: int|
                0 <= j < end ==> field[j] != 0));
            let c = choose|i: int|
                0 <= i < field.len() && field[i] == 0 && (forall|j: int| 0 <= j < i ==> field[j] != 0);
            assert(c == end as int) by {
                if c < end {
                    assert(field[c] != 0);
                }
                if c > end {
                    assert(field[end as int] != 0);
                }
            }
        } else {
            assert(!exists|i: int|
                0 <= i < field.len() && field[i] == 0 && (forall|j: int| 0 <= j < i ==> field[j] != 0));
        }
    }
    let mut bytes: Vec<u8> = Vec::new();
    let mut k: usize = 0;
    while k < end
        invariant
            k <= end <= length,
            offset + length <= data.len(),
            field == data@.subrange(offset as int, offset + length),
            bytes@ == field.take(k as int),
        decreases end - k,
    {
        bytes.push(data[offset + k]);
        k = k + 1;
        assert(bytes@ =~= field.take(k as int));
    }
    match string_from_utf8(bytes) {
        Ok(s) => Ok(s),
        Err(msg) => Err(PtpIpError::StringEncoding(msg)),
    }
}

/// The big-endian `u16` at `off` in `data`.
pub(crate) fn u16_field(data: &[u8], off: usize) -> (r: u16)
    requires
        off + 2 <= data.len(),
    ensures
        r as nat == u16_at(data@, off as int),
{
    let r = be_read_u16(&data[off..off + 2]);
    proof {
        assert(data@.subrange(off as int, off + 2).take(2) =~= data@.subrange(off as int, off + 2));
    }
    r
}

/// The big-endian `u32` at `off` in `data`.
pub(crate) fn u32_field(data: &[u8], off: usize) -> (r: u32)
    requires
        off + 4 <= data.len(),
    ensures
        r as nat == u32_at(data@, off as int),
{
    let r = be_read_u32(&data[off..off + 4]);
    proof {
        assert(data@.subrange(off as int, off + 4).take(4) =~= data@.subrange(off as int, off + 4));
    }
    r
}

/// The big-endian `u64` at `off` in `data`.
pub(crate) fn u64_field(data: &[u8], off: usize) -> (r: u64)
    requires
        off + 8 <= data.len(),
    ensures
        r as nat == u64_at(data@, off as int),
{
    let r = be_read_u64(&data[off..off + 8]);
    proof {
        assert(data@.subrange(off as int, off + 8).take(8) =~= data@.subrange(off as int, off + 8));
    }
    r
}

/// The error of a field that lies past the end of the data.
pub(crate) fn read_past_end() -> (e: PtpIpError)
    ensures
        failure_matches(e, ParseFailure::ReadPastEnd),
{
    PtpIpError::Io(IoError::unexpected_eof())
}

/// Device information, as a model over plain values.
pub struct DeviceInfoModel {
    pub manufacturer: Seq<char>,
    pub model: Seq<char>,
    pub device_version: Seq<char>,
    pub serial_number: Seq<char>,
    pub supported_operations: Seq<u16>,
}

/// What `parse_device_info` reads from a device-info response payload: after an
/// 8-byte header, the offsets and lengths of the manufacturer, model, version and
/// serial number strings (32-bit each), then a 16-bit count of operation codes and
/// the codes (16-bit each); the strings lie at their offsets in the payload.
pub open spec fn spec_device_info(data: Seq<u8>) -> Result<DeviceInfoModel, ParseFailure> {
    if data.len() < 24 {
        Err(ParseFailure::Protocol("Insufficient data length for device info"@))
    } else if data.len() < 42 {
        Err(ParseFailure::ReadPastEnd)
    } else {
        let count = u16_at(data, 40);
        if data.len() < 42 + 2 * count {
            Err(ParseFailure::ReadPastEnd)
        } else {
            let ops = Seq::new(count, |i: int| u16_at(data, 42 + 2 * i) as u16);
            match spec_extract(data, u32_at(data, 8), u32_at(data, 12)) {
                Err(f) => Err(f),
                Ok(manufacturer) => match spec_extract(data, u32_at(data, 16), u32_at(data, 20)) {
                    Err(f) => Err(f),
                    Ok(model) => match spec_extract(data, u32_at(data, 24), u32_at(data, 28)) {
                        Err(f) => Err(f),
                        Ok(device_version) => match spec_extract(
                            data,
                            u32_at(data, 32),
                            u32_at(data, 36),
                        ) {
                            Err(f) => Err(f),
                            Ok(serial_number) => Ok(
                                DeviceInfoModel {
                                    manufacturer,
                                    model,
                                    device_version,
                                    serial_number,
                                    supported_operations: ops,
                                },
                            ),
                        },
                    },
                },
            }
        }
    }
}

/// The parsed device information agrees with the expected outcome.
pub open spec fn device_info_matches(r: Result<DeviceInfo, PtpIpError>, o: Result<DeviceInfoModel, ParseFailure>) -> bool {
    match o {
        Ok(d) => r matches Ok(x) && x.manufacturer@ == d.manufacturer && x.model@ == d.model
            && x.device_version@ == d.device_version && x.serial_number@ == d.serial_number
            && x.supported_operations@ == d.supported_operations,
        Err(f) => r matches Err(e) && failure_matches(e, f),
    }
}

/// Parses a device-info response payload (see `spec_device_info`).
pub fn parse_device_info(data: &[u8]) -> (r: Result<DeviceInfo, PtpIpError>)
    ensures
        device_info_matches(r, spec_device_info(data@)),
{
    if data.len() < 24 {
        return Err(PtpIpError::ProtocolError(String::from_str("Insufficient data length for device info")));
    }
    if data.len() < 42 {
        return Err(read_past_end());
    }
    let manufacturer_offset = u32_field(data, 8) as usize;
    let manufacturer_len = u32_field(data, 12) as usize;
    let model_offset = u32_field(data, 16) as usize;
    let model_len = u32_field(data, 20) as usize;
    let version_offset = u32_field(data, 24) as usize;
    let version_len = u32_field(data, 28) as usize;
    let serial_offset = u32_field(data, 32) as usize;
    let serial_len = u32_field(data, 36) as usize;
    let ops_count = u16_field(data, 40) as usize;
    if data.len() - 42 < 2 * ops_count {
        return Err(read_past_end());
    }
    let mut supported_operations: Vec<u16> = Vec::new();
    let mut i: usize = 0;
    while i < ops_count
        invariant
            i <= ops_count,
            42 + 2 * ops_count <= data.len(),
            ops_count == u16_at(data@, 40),
            supported_operations@ == Seq::new(i as nat, |k: int| u16_at(data@, 42 + 2 * k) as u16),
        decreases ops_count - i,
    {
        let op = u16_field(data, 42 + 2 * i);
        supported_operations.push(op);
        i = i + 1;
        assert(supported_operations@ =~= Seq::new(i as nat, |k: int| u16_at(data@, 42 + 2 * k) as u16));
    }
    let manufacturer = extract_string(data, manufacturer_offset, manufacturer_len)?;
    let model = extract_string(data, model_offset, model_len)?;
    let device_version = extract_string(data, version_offset, version_len)?;
    let serial_number = extract_string(data, serial_offset, serial_len)?;
    Ok(DeviceInfo { manufacturer, model, device_version, serial_number, supported_operations })
}

/// Storage information, as a model over plain values.
pub struct StorageInfoModel {
    pub storage_id: u32,
    pub storage_type: u16,
    pub filesystem_type: u16,
    pub access_capability: u16,
    pub max_capacity: u64,
    pub free_space_in_bytes: u64,
    pub free_space_in_objects: u32,
    pub storage_description: Seq<char>,
    pub volume_label: Seq<char>,
}

/// What `parse_storage_info` reads from a storage-info response payload: after an
/// 8-byte header, the storage id (32-bit), type, filesystem type and access
/// capability (16-bit each), maximum capacity and free bytes (64-bit each), free
/// objects (32-bit), then the offsets and lengths of the description and volume
/// label strings (32-bit each); the strings lie at their offsets in the payload.
pub open spec fn spec_storage_info(data: Seq<u8>) -> Result<StorageInfoModel, ParseFailure> {
    if data.len() < 40 {
        Err(ParseFailure::Protocol("Insufficient data length for storage info"@))
    } else if data.len() < 54 {
        Err(ParseFailure::ReadPastEnd)
    } else {
        match spec_extract(data, u32_at(data, 38), u32_at(data, 42)) {
            Err(f) => Err(f),
            Ok(storage_description) => match spec_extract(data, u32_at(data, 46), u32_at(data, 50)) {
                Err(f) => Err(f),
                Ok(volume_label) => Ok(
                    StorageInfoModel {
                        storage_id: u32_at(data, 8) as u32,
                        storage_type: u16_at(data, 12) as u16,
                        filesystem_type: u16_at(data, 14) as u16,
                        access_capability: u16_at(data, 16) as u16,
                        max_capacity: u64_at(data, 18) as u64,
                        free_space_in_bytes: u64_at(data, 26) as u64,
                        free_space_in_objects: u32_at(data, 34) as u32,
                        storage_description,
                        volume_label,
                    },
                ),
            },
        }
    }
}

/// The parsed storage information agrees with the expected outcome.
pub open spec fn storage_info_matches(r: Result<StorageInfo, PtpIpError>, o: Result<StorageInfoModel, ParseFailure>) -> bool {
    match o {
        Ok(d) => r matches Ok(x) && x.storage_id == d.storage_id && x.storage_type == d.storage_type
            && x.filesystem_type == d.filesystem_type && x.access_capability == d.access_capability
            && x.max_capacity == d.max_capacity && x.free_space_in_bytes == d.free_space_in_bytes
            && x.free_space_in_objects == d.free_space_in_objects && x.storage_description@
            == d.storage_description && x.volume_label@ == d.volume_label,
        Err(f) => r matches Err(e) && failure_matches(e, f),
    }
}

/// Parses a storage-info response payload (see `spec_storage_info`).
pub fn parse_storage_info(data: &[u8]) -> (r: Result<StorageInfo, PtpIpError>)
    ensures
        storage_info_matches(r, spec_storage_info(data@)),
{
    if data.len() < 40 {
        return Err(PtpIpError::ProtocolError(String::from_str("Insufficient data length for storage info")));
    }
    if data.len() < 54 {
        return Err(read_past_end());
    }
    let storage_id = u32_field(data, 8);
    let storage_type = u16_field(data, 12);
    let filesystem_type = u16_field(data, 14);
    let access_capability = u16_field(data, 16);
    let max_capacity = u64_field(data, 18);
    let free_space_in_bytes = u64_field(data, 26);
    let free_space_in_objects = u32_field(data, 34);
    let desc_offset = u32_field(data, 38) as usize;
    let desc_len = u32_field(data, 42) as usize;
    let label_offset = u32_field(data, 46) as usize;
    let label_len = u32_field(data, 50) as usize;
    let storage_description = extract_string(data, desc_offset, desc_len)?;
    let volume_label = extract_string(data, label_offset, label_len)?;
    Ok(
        StorageInfo {
            storage_id,
            storage_type,
            filesystem_type,
            access_capability,
            max_capacity,
            free_space_in_bytes,
            free_space_in_objects,
            storage_description,
            volume_label,
        },
    )
}

/// A device-info payload whose operation codes were written big-endian (a 16-bit
/// count at byte 40, then the codes from byte 42) parses, when it parses at all,
/// to exactly those codes, in order and whole: every 16-bit value reads back
/// unchanged.
pub proof fn lemma_device_info_reads_written_operations(
    data: Seq<u8>,
    r: Result<DeviceInfo, PtpIpError>,
    operations: Seq<u16>,
)
    requires
        operations.len() < 0x10000,
        data.len() >= 42 + 2 * operations.len(),
        data.subrange(40, 42) == be_bytes(operations.len(), 2),
        forall|i: int|
            0 <= i < operations.len() ==> data.subrange(42 + 2 * i, 44 + 2 * i) == be_bytes(
                #[trigger] operations[i] as nat,
                2,
            ),
        device_info_matches(r, spec_device_info(data)),
        r is Ok,
    ensures
        r matches Ok(x) && x.supported_operations@ == operations,
{
    reveal_with_fuel(pow256, 3);
    lemma_field_value(data, 40, operations.len(), 2);
    let x = r->Ok_0;
    assert forall|i: int| 0 <= i < operations.len() implies x.supported_operations@[i]
        == operations[i] by {
        lemma_field_value(data, 42 + 2 * i, operations[i] as nat, 2);
    }
    assert(x.supported_operations@ =~= operations);
}

/// A storage-info payload whose numeric fields were written big-endian at their
/// offsets (storage id at 8, types at 12, 14 and 16, maximum capacity at 18, free
/// bytes at 26, free objects at 34) parses, when it parses at all, to exactly the
/// values written: every 16-, 32- and 64-bit field reads back whole.
pub proof fn lemma_storage_info_reads_written(
    data: Seq<u8>,
    r: Result<StorageInfo, PtpIpError>,
    storage_id: u32,
    storage_type: u16,
    filesystem_type: u16,
    access_capability: u16,
    max_capacity: u64,
    free_space_in_bytes: u64,
    free_space_in_objects: u32,
)
    requires
        data.len() >= 54,
        data.subrange(8, 12) == be_bytes(storage_id as nat, 4),
        data.subrange(12, 14) == be_bytes(storage_type as nat, 2),
        data.subrange(14, 16) == be_bytes(filesystem_type as nat, 2),
        data.subrange(16, 18) == be_bytes(access_capability as nat, 2),
        data.subrange(18, 26) == be_bytes(max_capacity as nat, 8),
        data.subrange(26, 34) == be_bytes(free_space_in_bytes as nat, 8),
        data.subrange(34, 38) == be_bytes(free_space_in_objects as nat, 4),
        storage_info_matches(r, spec_storage_info(data)),
        r is Ok,
    ensures
        r matches Ok(x) && x.storage_id == storage_id && x.storage_type == storage_type
            && x.filesystem_type == filesystem_type && x.access_capability == access_capability
            && x.max_capacity == max_capacity && x.free_space_in_bytes == free_space_in_bytes
            && x.free_space_in_objects == free_space_in_objects,
{
    reveal_with_fuel(pow256, 9);
    lemma_field_value(data, 8, storage_id as nat, 4);
    lemma_field_value(data, 12, storage_type as nat, 2);
    lemma_field_value(data, 14, filesystem_type as nat, 2);
    lemma_field_value(data, 16, access_capability as nat, 2);
    lemma_field_value(data, 18, max_capacity as nat, 8);
    lemma_field_value(data, 26, free_space_in_bytes as nat, 8);
    lemma_field_value(data, 34, free_space_in_objects as nat, 4);
}

/// The bytes of a packet on the wire (see `packet_bytes`), for callers that write
/// them to a connection themselves.
pub fn encode_packet(packet: &PtpIpPacket) -> (r: Vec<u8>)
    ensures
        r@ == packet_bytes(*packet),
{
    let header = PtpIpHeader {
        message_type: packet.message_type.as_u16(),
        reserved: 0,
        transaction_id: packet.transaction_id,
        payload_length: ((packet.payload.len() as u64) % 0x1_0000_0000) as u32,
    };
    let mut bytes = header.to_bytes();
    append_bytes(&mut bytes, packet.payload.as_slice());
    bytes
}

/// Whether a packet passes the type filter of `recv_packet_filtered`.
pub fn type_filter_passes(expected: Option<PtpIpMessageType>, packet: &PtpIpPacket) -> (r: bool)
    ensures
        r == type_passes(expected, packet.message_type),
{
    match expected {
        Some(e) => packet.message_type == e,
        None => true,
    }
}

/// Whether another attempt is allowed after `retries` failed ones, with at most
/// `max_retries` retries: the first attempt and `max_retries` more.
pub fn retry_allowed(retries: usize, max_retries: usize) -> (r: bool)
    ensures
        r == (retries <= max_retries),
{
    retries <= max_retries
}

/// The error reported when sending a packet failed on every attempt.
pub fn send_failure(max_retries: usize, cause: &PtpIpError) -> (r: PtpIpError)
    ensures
        r matches PtpIpError::Other(m) && m@ == "Failed to send packet after "@ + ascii_chars(
            decimal_bytes(max_retries as nat),
        ) + " retries: "@ + crate::error::error_text(*cause),
{
    let mut m = String::from_str("Failed to send packet after ");
    let n = decimal_string(max_retries as u64);
    m.append(n.as_str());
    m.append(" retries: ");
    let c = cause.describe();
    m.append(c.as_str());
    PtpIpError::Other(m)
}

} // verus!
