use vstd::prelude::*;
use crate::error::{IoError, IoErrorKind, PtpIpError};
use crate::stream::{MemStream, append_bytes};
use crate::text::{
    ascii_chars, hex_bytes_padded, hex_string_padded, decimal_bytes, decimal_string, trim_where,
    lemma_trim_start, lemma_trim_end,
};
use std::path::{Path, PathBuf};
use crate::transport::{
    be_u16_bytes, be_u32_bytes, be_u64_bytes, u16_at, u32_at, u16_field, u32_field, frame_bytes,
    send_packet, recv_packet_filtered, spec_recv_filtered, recv_result_matches, recv_failure_matches, RecvOutcome,
    lemma_recv_consumes, u64_field, u64_at, spec_extract, extract_string, failure_matches,
    ParseFailure, read_past_end, type_passes,
};
use crate::types::{
    generate_transaction_id, PtpIpMessageType, PtpIpPacket, SessionConfig, ObjectInfo, EventType, PtpEvent,
    message_type_code, event_code, DownloadStats,
};
use crate::utils::{be_value, be_bytes};

verus! {

// ------------------------------
// Commands
// ------------------------------

/// The big-endian bytes of a list of 32-bit parameters.
pub open spec fn params_bytes(params: Seq<u32>) -> Seq<u8>
    decreases params.len(),
{
    if params.len() == 0 {
        Seq::<u8>::empty()
    } else {
        params_bytes(params.drop_last()) + be_bytes(params.last() as nat, 4)
    }
}

/// The wire form of a PTP command: version 0 and the operation code (16-bit each),
/// the parameter count (32-bit, of a count kept in 16 bits), then the parameters.
pub open spec fn command_bytes(opcode: u16, count: u16, params: Seq<u32>) -> Seq<u8> {
    be_bytes(0, 2) + be_bytes(opcode as nat, 2) + be_bytes(count as nat, 4) + params_bytes(params)
}

/// The 32-bit big-endian parameters that `send_command` reads from a parameter
/// buffer whose length is a multiple of four.
pub open spec fn params_of(bytes: Seq<u8>) -> Seq<u32> {
    Seq::new(bytes.len() / 4, |i: int| u32_at(bytes, 4 * i) as u32)
}

/// The bytes of `n` parameters are `4 * n` bytes long.
proof fn lemma_params_bytes_len(params: Seq<u32>)
    ensures
        params_bytes(params).len() == 4 * params.len(),
    decreases params.len(),
{
    if params.len() > 0 {
        lemma_params_bytes_len(params.drop_last());
        crate::utils::lemma_be_bytes_len(params.last() as nat, 4);
    }
}

/// The `i`-th four bytes of a parameter list's bytes encode its `i`-th parameter.
proof fn lemma_params_bytes_at(params: Seq<u32>, i: int)
    requires
        0 <= i < params.len(),
    ensures
        params_bytes(params).subrange(4 * i, 4 * i + 4) == be_bytes(params[i] as nat, 4),
    decreases params.len(),
{
    let init = params.drop_last();
    lemma_params_bytes_len(init);
    crate::utils::lemma_be_bytes_len(params.last() as nat, 4);
    let whole = params_bytes(params);
    if i == params.len() - 1 {
        assert(whole.subrange(4 * i, 4 * i + 4) =~= be_bytes(params.last() as nat, 4));
    } else {
        lemma_params_bytes_at(init, i);
        assert(whole.subrange(4 * i, 4 * i + 4) =~= params_bytes(init).subrange(4 * i, 4 * i + 4));
    }
}

/// The parameters that `send_command` reads from the bytes of a parameter list are
/// that list: building parameters as 32-bit big-endian values and reading them
/// back loses nothing.
pub proof fn lemma_params_roundtrip(params: Seq<u32>)
    ensures
        params_bytes(params).len() % 4 == 0,
        params_of(params_bytes(params)) == params,
{
    let bytes = params_bytes(params);
    lemma_params_bytes_len(params);
    assert forall|i: int| 0 <= i < params.len() implies #[trigger] params_of(bytes)[i] == params[i] by {
        lemma_params_bytes_at(params, i);
        reveal_with_fuel(crate::utils::pow256, 5);
        crate::utils::lemma_be_value_of_bytes(params[i] as nat, 4);
    }
    assert(params_of(bytes) =~= params);
}

/// A PTP command.
#[derive(Debug)]
pub struct PtpCommand {
    /// Operation code.
    pub opcode: u16,
    /// Number of parameters, kept in 16 bits.
    pub parameter_count: u16,
    /// Parameter list.
    pub parameters: Vec<u32>,
}

impl PtpCommand {
    /// A command with the given operation code and parameters.
    pub fn new(opcode: u16, parameters: &[u32]) -> (r: PtpCommand)
        ensures
            r.opcode == opcode,
            r.parameter_count as nat == parameters@.len() % 0x10000,
            r.parameters@ == parameters@,
    {
        let mut ps: Vec<u32> = Vec::new();
        let mut i: usize = 0;
        while i < parameters.len()
            invariant
                i <= parameters@.len(),
                ps@ == parameters@.take(i as int),
            decreases parameters@.len() - i,
        {
            ps.push(parameters[i]);
            i = i + 1;
            assert(ps@ =~= parameters@.take(i as int));
        }
        assert(ps@ =~= parameters@);
        PtpCommand {
            opcode,
            parameter_count: ((parameters.len() as u64) % 0x10000) as u16,
            parameters: ps,
        }
    }

    /// The bytes of this command on the wire.
    pub fn to_bytes(&self) -> (r: Vec<u8>)
        ensures
            r@ == command_bytes(self.opcode, self.parameter_count, self.parameters@),
    {
        let mut bytes: Vec<u8> = Vec::new();
        append_bytes(&mut bytes, &be_u16_bytes(0));
        append_bytes(&mut bytes, &be_u16_bytes(self.opcode));
        append_bytes(&mut bytes, &be_u32_bytes(self.parameter_count as u32));
        let ghost head = bytes@;
        let mut i: usize = 0;
        while i < self.parameters.len()
            invariant
                i <= self.parameters@.len(),
                bytes@ == head + params_bytes(self.parameters@.take(i as int)),
            decreases self.parameters@.len() - i,
        {
            append_bytes(&mut bytes, &be_u32_bytes(self.parameters[i]));
            i = i + 1;
            proof {
                let t = self.parameters@.take(i as int);
                assert(t.drop_last() =~= self.parameters@.take(i - 1));
                assert(bytes@ =~= head + params_bytes(t));
            }
        }
        assert(self.parameters@.take(self.parameters@.len() as int) =~= self.parameters@);
        assert(bytes@ =~= command_bytes(self.opcode, self.parameter_count, self.parameters@));
        bytes
    }
}

/// The command block that carries a PTP command: the parameter bytes are read as
/// 32-bit big-endian parameters; a parameter buffer whose length is not a multiple
/// of four fails to read.
pub fn command_packet(opcode: u16, transaction_id: u32, parameters: &[u8]) -> (r: Result<
    PtpIpPacket,
    PtpIpError,
>)
    ensures
        parameters@.len() % 4 != 0 ==> (r matches Err(PtpIpError::Io(e)) && e.kind
            == IoErrorKind::UnexpectedEof),
        parameters@.len() % 4 == 0 ==> (r matches Ok(p) && p.message_type
            == PtpIpMessageType::CommandBlock && p.transaction_id == transaction_id && p.payload@
            == command_bytes(
            opcode,
            ((parameters@.len() / 4) % 0x10000) as u16,
            params_of(parameters@),
        )),
{
    if parameters.len() % 4 != 0 {
        return Err(PtpIpError::Io(IoError::unexpected_eof()));
    }
    let mut params: Vec<u32> = Vec::new();
    let mut pos: usize = 0;
    while pos < parameters.len()
        invariant
            pos % 4 == 0,
            pos <= parameters@.len(),
            parameters@.len() % 4 == 0,
            params@ == params_of(parameters@).take(pos as int / 4),
        decreases parameters@.len() - pos,
    {
        let v = u32_field(parameters, pos);
        params.push(v);
        pos = pos + 4;
        assert(params@ =~= params_of(parameters@).take(pos as int / 4));
    }
    assert(params@ =~= params_of(parameters@));
    let command = PtpCommand::new(opcode, params.as_slice());
    let command_bytes = command.to_bytes();
    Ok(PtpIpPacket { message_type: PtpIpMessageType::CommandBlock, transaction_id, payload: command_bytes })
}

/// Sends a PTP command: the parameter bytes are read as 32-bit big-endian
/// parameters, and the command goes out in a command block. A parameter buffer
/// whose length is not a multiple of four fails to read, and nothing is sent.
pub fn send_command(
    stream: &mut MemStream,
    opcode: u16,
    transaction_id: u32,
    parameters: &[u8],
    config: &SessionConfig,
) -> (r: Result<(), PtpIpError>)
    ensures
        final(stream).unread() == old(stream).unread(),
        parameters@.len() % 4 != 0 ==> {
            &&& r matches Err(PtpIpError::Io(e)) && e.kind == IoErrorKind::UnexpectedEof
            &&& final(stream).written() == old(stream).written()
        },
        parameters@.len() % 4 == 0 ==> {
            &&& r is Ok
            &&& final(stream).written() == old(stream).written() + frame_bytes(
                3,
                transaction_id,
                command_bytes(
                    opcode,
                    ((parameters@.len() / 4) % 0x10000) as u16,
                    params_of(parameters@),
                ),
            )
        },
{
    let packet = command_packet(opcode, transaction_id, parameters)?;
    send_packet(stream, &packet)
}

// ------------------------------
// Responses
// ------------------------------

/// The response code of a response payload: the 16 bits after the 2-byte version.
pub open spec fn response_code(payload: Seq<u8>) -> u16 {
    u16_at(payload, 2) as u16
}

/// A response payload reports success: it is at least 8 bytes long and its code is OK (0x2001).
pub open spec fn response_ok(payload: Seq<u8>) -> bool {
    payload.len() >= 8 && response_code(payload) == 0x2001
}

/// The text that describes a failing response code.
pub open spec fn response_error_text(code: u16) -> Seq<char> {
    if code == 0x2002 {
        "General error"@
    } else if code == 0x2003 {
        "Session not open"@
    } else if code == 0x2004 {
        "Invalid transaction ID"@
    } else if code == 0x2005 {
        "Unsupported operation"@
    } else if code == 0x2006 {
        "Unsupported parameter"@
    } else if code == 0x2007 {
        "Incomplete transfer"@
    } else if code == 0x2008 {
        "Invalid storage ID"@
    } else if code == 0x2009 {
        "Invalid object handle"@
    } else {
        "Unknown error (0x"@ + ascii_chars(hex_bytes_padded(code as nat, 4)) + ")"@
    }
}

/// The error for a response payload that does not report success.
pub open spec fn response_error_matches(e: PtpIpError, payload: Seq<u8>) -> bool {
    if payload.len() < 8 {
        e matches PtpIpError::ProtocolError(m) && m@ == "Insufficient response packet length"@
    } else {
        e matches PtpIpError::DeviceError { code, message } && code == response_code(payload) as u32
            && message@ == response_error_text(response_code(payload))
    }
}

/// The text that describes a failing response code.
pub fn response_error_message(code: u16) -> (r: String)
    ensures
        r@ == response_error_text(code),
{
    match code {
        0x2002 => String::from_str("General error"),
        0x2003 => String::from_str("Session not open"),
        0x2004 => String::from_str("Invalid transaction ID"),
        0x2005 => String::from_str("Unsupported operation"),
        0x2006 => String::from_str("Unsupported parameter"),
        0x2007 => String::from_str("Incomplete transfer"),
        0x2008 => String::from_str("Invalid storage ID"),
        0x2009 => String::from_str("Invalid object handle"),
        _ => {
            let mut m = String::from_str("Unknown error (0x");
            let h = hex_string_padded(code as u64, 4);
            m.append(h.as_str());
            m.append(")");
            m
        },
    }
}

/// Checks a response for errors: a payload shorter than 8 bytes breaks the
/// protocol, and a response code other than OK is the device's error.
pub fn check_response_error(packet: &PtpIpPacket) -> (r: Result<(), PtpIpError>)
    ensures
        response_ok(packet.payload@) ==> r is Ok,
        !response_ok(packet.payload@) ==> (r matches Err(e) && response_error_matches(
            e,
            packet.payload@,
        )),
{
    if packet.payload.len() < 8 {
        return Err(
            PtpIpError::ProtocolError(String::from_str("Insufficient response packet length")),
        );
    }
    let response_code = u16_field(packet.payload.as_slice(), 2);
    if response_code != 0x2001 {
        let message = response_error_message(response_code);
        return Err(PtpIpError::DeviceError { code: response_code as u32, message });
    }
    Ok(())
}

/// What to do with a response block while waiting for the response to transaction
/// `expected_transaction_id`: `None` to keep waiting (it answers another
/// transaction), or the result to return.
pub fn response_step(packet: PtpIpPacket, expected_transaction_id: u32) -> (r: Option<
    Result<PtpIpPacket, PtpIpError>,
>)
    ensures
        packet.transaction_id != expected_transaction_id ==> r is None,
        packet.transaction_id == expected_transaction_id && response_ok(packet.payload@) ==> (r matches Some(
            Ok(p),
        ) && p == packet),
        packet.transaction_id == expected_transaction_id && !response_ok(packet.payload@) ==> (r matches Some(
            Err(e),
        ) && response_error_matches(e, packet.payload@)),
{
    if packet.transaction_id != expected_transaction_id {
        return None;
    }
    match check_response_error(&packet) {
        Ok(()) => Some(Ok(packet)),
        Err(e) => Some(Err(e)),
    }
}

/// What `get_response` reads from the front of `s` when the clock does not run
/// out: response blocks of other transactions are skipped until the one for
/// `tid` arrives or a receive fails.
pub open spec fn spec_get_response(s: Seq<u8>, tid: u32) -> (RecvOutcome, Seq<u8>)
    decreases s.len(),
{
    let (o, rest) = spec_recv_filtered(s, Some(PtpIpMessageType::ResponseBlock));
    match o {
        RecvOutcome::Packet { transaction_id, .. } => if transaction_id != tid && rest.len()
            < s.len() {
            spec_get_response(rest, tid)
        } else {
            (o, rest)
        },
        _ => (o, rest),
    }
}

/// The result of `get_response` agrees with the outcome of the receive.
pub open spec fn response_result_matches(r: Result<PtpIpPacket, PtpIpError>, o: RecvOutcome) -> bool {
    match o {
        RecvOutcome::Packet { message_type, transaction_id, payload } => if response_ok(payload) {
            r matches Ok(p) && p.message_type == message_type && p.transaction_id == transaction_id
                && p.payload@ == payload
        } else {
            r matches Err(e) && response_error_matches(e, payload)
        },
        _ => recv_result_matches(r, o),
    }
}

/// A response block received by the type filter consumes bytes.
proof fn lemma_filtered_consumes(s: Seq<u8>, expected: Option<PtpIpMessageType>)
    ensures
        spec_recv_filtered(s, expected).0 is Packet ==> spec_recv_filtered(s, expected).1.len()
            < s.len(),
    decreases s.len(),
{
    let (o, rest) = crate::transport::spec_recv_packet(s);
    lemma_recv_consumes(s);
    if o is Packet && rest.len() < s.len() {
        lemma_filtered_consumes(rest, expected);
    }
}

/// Receives the response to transaction `expected_transaction_id`, skipping
/// responses to other transactions, and checks it for errors.
pub fn get_response(
    stream: &mut MemStream,
    expected_transaction_id: u32,
    config: &SessionConfig,
) -> (r: Result<PtpIpPacket, PtpIpError>)
    ensures
        final(stream).written() == old(stream).written(),
        !(r matches Err(PtpIpError::Timeout)) ==> {
            &&& final(stream).unread() == spec_get_response(
                old(stream).unread(),
                expected_transaction_id,
            ).1
            &&& response_result_matches(
                r,
                spec_get_response(old(stream).unread(), expected_transaction_id).0,
            )
        },
{
    let ghost target = spec_get_response(stream.unread(), expected_transaction_id);
    loop
        invariant
            stream.written() == old(stream).written(),
            spec_get_response(stream.unread(), expected_transaction_id) == target,
            target == spec_get_response(old(stream).unread(), expected_transaction_id),
        decreases stream.unread().len(),
    {
        let ghost s = stream.unread();
        proof {
            lemma_filtered_consumes(s, Some(PtpIpMessageType::ResponseBlock));
        }
        let received = recv_packet_filtered(stream, Some(PtpIpMessageType::ResponseBlock), config);
        let packet = match received {
            Ok(p) => p,
            Err(e) => {
                return Err(e);
            },
        };
        match response_step(packet, expected_transaction_id) {
            None => {},
            Some(result) => {
                return result;
            },
        }
    }
}

// ------------------------------
// Dataset parsing
// ------------------------------

/// A list of 32-bit values after an 8-byte header: a 32-bit count, then the values.
/// Data shorter than 10 bytes breaks the protocol (`too_short` says how).
pub open spec fn spec_u32_list(data: Seq<u8>, too_short: Seq<char>) -> Result<Seq<u32>, ParseFailure> {
    if data.len() < 10 {
        Err(ParseFailure::Protocol(too_short))
    } else if data.len() < 12 {
        Err(ParseFailure::ReadPastEnd)
    } else {
        let n = u32_at(data, 8);
        if data.len() < 12 + 4 * n {
            Err(ParseFailure::ReadPastEnd)
        } else {
            Ok(Seq::new(n, |i: int| u32_at(data, 12 + 4 * i) as u32))
        }
    }
}

/// The parsed list agrees with the expected outcome.
pub open spec fn u32_list_matches(r: Result<Vec<u32>, PtpIpError>, o: Result<Seq<u32>, ParseFailure>) -> bool {
    match o {
        Ok(v) => r matches Ok(x) && x@ == v,
        Err(f) => r matches Err(e) && failure_matches(e, f),
    }
}

/// Reads the count at byte 8 and that many 32-bit values after it.
fn read_u32_list(data: &[u8]) -> (r: Result<Vec<u32>, PtpIpError>)
    requires
        data@.len() >= 10,
    ensures
        u32_list_matches(r, spec_u32_list(data@, Seq::<char>::empty())),
{
    if data.len() < 12 {
        return Err(read_past_end());
    }
    let count = u32_field(data, 8) as usize;
    if (data.len() - 12) / 4 < count {
        return Err(read_past_end());
    }
    let mut values: Vec<u32> = Vec::new();
    let mut i: usize = 0;
    while i < count
        invariant
            i <= count,
            12 + 4 * count <= data.len(),
            count == u32_at(data@, 8),
            values@ == Seq::new(i as nat, |k: int| u32_at(data@, 12 + 4 * k) as u32),
        decreases count - i,
    {
        let v = u32_field(data, 12 + 4 * i);
        values.push(v);
        i = i + 1;
        assert(values@ =~= Seq::new(i as nat, |k: int| u32_at(data@, 12 + 4 * k) as u32));
    }
    Ok(values)
}

/// Parses a storage id list (see `spec_u32_list`).
pub fn parse_storage_ids(data: &[u8]) -> (r: Result<Vec<u32>, PtpIpError>)
    ensures
        u32_list_matches(r, spec_u32_list(data@, "Insufficient data for storage ID list"@)),
{
    if data.len() < 10 {
        return Err(PtpIpError::ProtocolError(String::from_str("Insufficient data for storage ID list")));
    }
    read_u32_list(data)
}

/// Parses an object handle list (see `spec_u32_list`).
pub fn parse_object_handles(data: &[u8]) -> (r: Result<Vec<u32>, PtpIpError>)
    ensures
        u32_list_matches(r, spec_u32_list(data@, "Insufficient data length for object handles"@)),
{
    if data.len() < 10 {
        return Err(
            PtpIpError::ProtocolError(String::from_str("Insufficient data length for object handles")),
        );
    }
    read_u32_list(data)
}

/// Object information, as a model over plain values.
pub struct ObjectInfoModel {
    pub storage_id: u32,
    pub object_format: u16,
    pub protection_status: u8,
    pub object_size: u64,
    pub thumb_size: u32,
    pub filename: Seq<char>,
    pub capture_date: Seq<char>,
    pub modification_date: Seq<char>,
    pub keywords: Seq<char>,
}

/// What `parse_object_info` reads from an object-info response payload: after an
/// 8-byte header, the storage id (32-bit), format (16-bit), protection status
/// (8-bit) and a reserved byte, the object size (64-bit) and thumbnail size
/// (32-bit), then the offsets and lengths of the file name, capture date,
/// modification date and keywords strings (32-bit each).
pub open spec fn spec_object_info(data: Seq<u8>) -> Result<ObjectInfoModel, ParseFailure> {
    if data.len() < 64 {
        Err(ParseFailure::Protocol("Insufficient data length for object info"@))
    } else {
        match spec_extract(data, u32_at(data, 28), u32_at(data, 32)) {
            Err(f) => Err(f),
            Ok(filename) => match spec_extract(data, u32_at(data, 36), u32_at(data, 40)) {
                Err(f) => Err(f),
                Ok(capture_date) => match spec_extract(data, u32_at(data, 44), u32_at(data, 48)) {
                    Err(f) => Err(f),
                    Ok(modification_date) => match spec_extract(
                        data,
                        u32_at(data, 52),
                        u32_at(data, 56),
                    ) {
                        Err(f) => Err(f),
                        Ok(keywords) => Ok(
                            ObjectInfoModel {
                                storage_id: u32_at(data, 8) as u32,
                                object_format: u16_at(data, 12) as u16,
                                protection_status: data[14],
                                object_size: u64_at(data, 16) as u64,
                                thumb_size: u32_at(data, 24) as u32,
                                filename,
                                capture_date,
                                modification_date,
                                keywords,
                            },
                        ),
                    },
                },
            },
        }
    }
}

/// The parsed object information agrees with the expected outcome, for the object `handle`.
pub open spec fn object_info_matches(
    r: Result<ObjectInfo, PtpIpError>,
    o: Result<ObjectInfoModel, ParseFailure>,
    handle: u32,
) -> bool {
    match o {
        Ok(d) => r matches Ok(x) && x.handle == handle && x.storage_id == d.storage_id
            && x.object_format == d.object_format && x.protection_status == d.protection_status
            && x.object_size == d.object_size && x.thumb_size == d.thumb_size && x.filename@
            == d.filename && x.capture_date@ == d.capture_date && x.modification_date@
            == d.modification_date && x.keywords@ == d.keywords,
        Err(f) => r matches Err(e) && failure_matches(e, f),
    }
}

/// Parses an object-info response payload (see `spec_object_info`).
pub fn parse_object_info(data: &[u8], object_handle: u32) -> (r: Result<ObjectInfo, PtpIpError>)
    ensures
        object_info_matches(r, spec_object_info(data@), object_handle),
{
    if data.len() < 64 {
        return Err(PtpIpError::ProtocolError(String::from_str("Insufficient data length for object info")));
    }
    let storage_id = u32_field(data, 8);
    let object_format = u16_field(data, 12);
    let protection_status = data[14];
    let object_size = u64_field(data, 16);
    let thumb_size = u32_field(data, 24);
    let filename_offset = u32_field(data, 28) as usize;
    let filename_len = u32_field(data, 32) as usize;
    let capture_date_offset = u32_field(data, 36) as usize;
    let capture_date_len = u32_field(data, 40) as usize;
    let modification_date_offset = u32_field(data, 44) as usize;
    let modification_date_len = u32_field(data, 48) as usize;
    let keywords_offset = u32_field(data, 52) as usize;
    let keywords_len = u32_field(data, 56) as usize;
    let filename = extract_string(data, filename_offset, filename_len)?;
    let capture_date = extract_string(data, capture_date_offset, capture_date_len)?;
    let modification_date = extract_string(data, modification_date_offset, modification_date_len)?;
    let keywords = extract_string(data, keywords_offset, keywords_len)?;
    Ok(
        ObjectInfo {
            handle: object_handle,
            storage_id,
            object_format,
            protection_status,
            object_size,
            thumb_size,
            filename,
            capture_date,
            modification_date,
            keywords,
        },
    )
}

/// The text of the error for an event code that names no event.
pub open spec fn unknown_event_text(code: u16) -> Seq<char> {
    "Unknown event type: 0x"@ + ascii_chars(hex_bytes_padded(code as nat, 4))
}

/// What `parse_event_packet` reads from an event payload: the event code and the
/// parameter count (16-bit each), then the parameters (32-bit each). The second
/// component is the parameter list when the payload is long enough to hold it.
pub open spec fn event_payload_ok(payload: Seq<u8>) -> bool {
    payload.len() >= 6 && payload.len() >= 4 + 4 * u16_at(payload, 2)
}

/// The parameters of an event payload.
pub open spec fn event_params(payload: Seq<u8>) -> Seq<u32> {
    Seq::new(u16_at(payload, 2), |i: int| u32_at(payload, 4 + 4 * i) as u32)
}

/// The event parsed from a packet agrees with the expected outcome: a payload shorter
/// than 6 bytes breaks the protocol, parameters past its end fail to read, and the
/// event code must name an event type.
pub open spec fn event_matches(r: Result<PtpEvent, PtpIpError>, packet: PtpIpPacket) -> bool {
    let payload = packet.payload@;
    if payload.len() < 6 {
        r matches Err(PtpIpError::ProtocolError(m)) && m@
            == "Insufficient data length for event packet"@
    } else if !event_payload_ok(payload) {
        r matches Err(e) && failure_matches(e, ParseFailure::ReadPastEnd)
    } else if exists|t: EventType| event_code(t) == u16_at(payload, 0) {
        r matches Ok(ev) && event_code(ev.event_type) == u16_at(payload, 0) && ev.transaction_id
            == packet.transaction_id && ev.parameters@ == event_params(payload)
    } else {
        r matches Err(PtpIpError::ProtocolError(m)) && m@ == unknown_event_text(
            u16_at(payload, 0) as u16,
        )
    }
}

/// Parses an event packet (see `event_matches`).
pub fn parse_event_packet(packet: &PtpIpPacket) -> (r: Result<PtpEvent, PtpIpError>)
    ensures
        event_matches(r, *packet),
        r matches Ok(ev) ==> ev.parameters@.len() == u16_at(packet.payload@, 2) && forall|i: int|
            0 <= i < ev.parameters@.len() ==> #[trigger] ev.parameters@[i] as nat == u32_at(
                packet.payload@,
                4 + 4 * i,
            ),
{
    let payload = packet.payload.as_slice();
    if payload.len() < 6 {
        return Err(
            PtpIpError::ProtocolError(String::from_str("Insufficient data length for event packet")),
        );
    }
    let code = u16_field(payload, 0);
    let param_count = u16_field(payload, 2) as usize;
    if (payload.len() - 4) / 4 < param_count {
        return Err(read_past_end());
    }
    let mut parameters: Vec<u32> = Vec::new();
    let mut i: usize = 0;
    while i < param_count
        invariant
            i <= param_count,
            4 + 4 * param_count <= payload.len(),
            param_count == u16_at(payload@, 2),
            parameters@ == Seq::new(i as nat, |k: int| u32_at(payload@, 4 + 4 * k) as u32),
        decreases param_count - i,
    {
        let v = u32_field(payload, 4 + 4 * i);
        parameters.push(v);
        i = i + 1;
        assert(parameters@ =~= Seq::new(i as nat, |k: int| u32_at(payload@, 4 + 4 * k) as u32));
    }
    let event_type = match code {
        0x4001 => EventType::ObjectAdded,
        0x4002 => EventType::ObjectRemoved,
        0x4003 => EventType::StoreAdded,
        0x4004 => EventType::StoreRemoved,
        0x4005 => EventType::DevicePropChanged,
        0x4006 => EventType::RequestObjectTransfer,
        _ => {
            proof {
                assert forall|t: EventType| event_code(t) != code by {
                    match t {
                        _ => {},
                    }
                }
            }
            let mut m = String::from_str("Unknown event type: 0x");
            let h = hex_string_padded(code as u64, 4);
            m.append(h.as_str());
            return Err(PtpIpError::ProtocolError(m));
        },
    };
    assert(event_code(event_type) == code);
    proof {
        assert forall|k: int| 0 <= k < parameters@.len() implies #[trigger] parameters@[k] as nat
            == u32_at(payload@, 4 + 4 * k) by {
            crate::utils::lemma_be_value_bound(payload@.subrange(4 + 4 * k, 8 + 4 * k));
            reveal_with_fuel(crate::utils::pow256, 5);
        }
    }
    Ok(PtpEvent { event_type, transaction_id: packet.transaction_id, parameters })
}

/// What an event listener does with the result of a receive.
#[derive(Debug)]
pub enum ListenAction {
    /// Hand this event to the receiver of events.
    Deliver(PtpEvent),
    /// Nothing to hand on: keep listening.
    Skip,
    /// The connection failed: stop listening.
    Stop,
}

/// An event packet that `parse_event_packet` accepts.
pub open spec fn event_parses(packet: PtpIpPacket) -> bool {
    event_payload_ok(packet.payload@) && exists|t: EventType| event_code(t) == u16_at(packet.payload@, 0)
}

/// Decides what an event listener does with the result of receiving an event
/// block: an event that parses is delivered, one that does not is skipped, a
/// timeout is skipped (the listener keeps waiting), and any other failure stops it.
pub fn event_listen_step(received: Result<PtpIpPacket, PtpIpError>) -> (r: ListenAction)
    ensures
        match received {
            Ok(p) => if event_parses(p) {
                r matches ListenAction::Deliver(ev) && event_code(ev.event_type) == u16_at(
                    p.payload@,
                    0,
                ) && ev.transaction_id == p.transaction_id && ev.parameters@ == event_params(
                    p.payload@,
                )
            } else {
                r is Skip
            },
            Err(PtpIpError::Timeout) => r is Skip,
            Err(_) => r is Stop,
        },
{
    match received {
        Ok(packet) => match parse_event_packet(&packet) {
            Ok(event) => ListenAction::Deliver(event),
            Err(_) => ListenAction::Skip,
        },
        Err(PtpIpError::Timeout) => ListenAction::Skip,
        Err(_) => ListenAction::Stop,
    }
}

/// Reads one byte.
pub fn read_u8_be(reader: &mut MemStream) -> (r: Result<u8, PtpIpError>)
    ensures
        final(reader).written() == old(reader).written(),
        old(reader).unread().len() >= 1 ==> {
            &&& r matches Ok(v) && v == old(reader).unread()[0]
            &&& final(reader).unread() == old(reader).unread().skip(1)
        },
        old(reader).unread().len() < 1 ==> {
            &&& r matches Err(PtpIpError::Io(e)) && e.kind == IoErrorKind::UnexpectedEof
            &&& final(reader).unread().len() == 0
        },
{
    match reader.read_exact(1) {
        Ok(b) => Ok(b[0]),
        Err(e) => Err(PtpIpError::from_io(e)),
    }
}

// ------------------------------
// Data blocks
// ------------------------------

/// What `receive_data_block` reads from the front of `s` when the clock does not
/// run out: the payloads of the data blocks of transaction `tid`, appended to
/// `acc`, until an empty one ends the transfer (data blocks of other transactions
/// are skipped); or the outcome of the receive that failed.
pub open spec fn spec_data_blocks(s: Seq<u8>, tid: u32, acc: Seq<u8>) -> (Result<Seq<u8>, RecvOutcome>, Seq<u8>)
    decreases s.len(),
{
    let (o, rest) = spec_recv_filtered(s, Some(PtpIpMessageType::DataBlock));
    match o {
        RecvOutcome::Packet { transaction_id, payload, .. } => if rest.len() >= s.len() {
            (Ok(acc), rest)
        } else if transaction_id != tid {
            spec_data_blocks(rest, tid, acc)
        } else if payload.len() == 0 {
            (Ok(acc), rest)
        } else {
            spec_data_blocks(rest, tid, acc + payload)
        },
        _ => (Err(o), rest),
    }
}

/// Takes a data block while collecting the data of transaction
/// `expected_transaction_id`: returns whether the transfer is complete. Blocks of
/// other transactions are ignored; an empty block ends the transfer; any other
/// block's payload is appended to `data`.
pub fn data_block_step(data: &mut Vec<u8>, packet: &PtpIpPacket, expected_transaction_id: u32) -> (done: bool)
    ensures
        packet.transaction_id != expected_transaction_id ==> !done && final(data)@ == old(data)@,
        packet.transaction_id == expected_transaction_id && packet.payload@.len() == 0 ==> done
            && final(data)@ == old(data)@,
        packet.transaction_id == expected_transaction_id && packet.payload@.len() > 0 ==> !done
            && final(data)@ == old(data)@ + packet.payload@,
{
    if packet.transaction_id != expected_transaction_id {
        return false;
    }
    if packet.payload.len() == 0 {
        return true;
    }
    append_bytes(data, packet.payload.as_slice());
    false
}

/// Receives the data of transaction `expected_transaction_id`: data blocks until an
/// empty one (see `spec_data_blocks`).
pub fn receive_data_block(
    stream: &mut MemStream,
    expected_transaction_id: u32,
    config: &SessionConfig,
) -> (r: Result<Vec<u8>, PtpIpError>)
    ensures
        final(stream).written() == old(stream).written(),
        !(r matches Err(PtpIpError::Timeout)) ==> {
            &&& final(stream).unread() == spec_data_blocks(
                old(stream).unread(),
                expected_transaction_id,
                Seq::<u8>::empty(),
            ).1
            &&& match spec_data_blocks(
                old(stream).unread(),
                expected_transaction_id,
                Seq::<u8>::empty(),
            ).0 {
                Ok(d) => r matches Ok(v) && v@ == d,
                Err(o) => r matches Err(e) && recv_failure_matches(e, o),
            }
        },
{
    let mut total_data: Vec<u8> = Vec::new();
    let ghost target = spec_data_blocks(stream.unread(), expected_transaction_id, Seq::<u8>::empty());
    loop
        invariant
            stream.written() == old(stream).written(),
            spec_data_blocks(stream.unread(), expected_transaction_id, total_data@) == target,
            target == spec_data_blocks(
                old(stream).unread(),
                expected_transaction_id,
                Seq::<u8>::empty(),
            ),
        decreases stream.unread().len(),
    {
        let ghost s = stream.unread();
        proof {
            lemma_filtered_consumes(s, Some(PtpIpMessageType::DataBlock));
        }
        let received = recv_packet_filtered(stream, Some(PtpIpMessageType::DataBlock), config);
        let packet = match received {
            Ok(p) => p,
            Err(e) => {
                return Err(e);
            },
        };
        if data_block_step(&mut total_data, &packet, expected_transaction_id) {
            return Ok(total_data);
        }
    }
}

// ------------------------------
// Request parameters and replies of the camera operations
// ------------------------------

/// The parameter bytes of an operation that takes one 32-bit value (a storage id,
/// an object handle or a session id).
pub fn u32_param(value: u32) -> (r: Vec<u8>)
    ensures
        r@ == be_bytes(value as nat, 4),
{
    let mut params: Vec<u8> = Vec::new();
    append_bytes(&mut params, &be_u32_bytes(value));
    params
}

/// The parameter bytes of GetObjectHandles: the storage id, the object format, a
/// reserved 16-bit zero, a start index of zero and the maximum count.
pub fn object_handles_params(storage_id: u32, object_format: u16, max_count: u32) -> (r: Vec<u8>)
    ensures
        r@ == be_bytes(storage_id as nat, 4) + be_bytes(object_format as nat, 2) + be_bytes(0, 2)
            + be_bytes(0, 4) + be_bytes(max_count as nat, 4),
{
    let mut params: Vec<u8> = Vec::new();
    append_bytes(&mut params, &be_u32_bytes(storage_id));
    append_bytes(&mut params, &be_u16_bytes(object_format));
    append_bytes(&mut params, &be_u16_bytes(0));
    append_bytes(&mut params, &be_u32_bytes(0));
    append_bytes(&mut params, &be_u32_bytes(max_count));
    params
}

/// The parameter bytes of InitiateCapture: the storage id, the object format and a
/// reserved 16-bit zero.
pub fn capture_params(storage_id: u32, format: u16) -> (r: Vec<u8>)
    ensures
        r@ == be_bytes(storage_id as nat, 4) + be_bytes(format as nat, 2) + be_bytes(0, 2),
{
    let mut params: Vec<u8> = Vec::new();
    append_bytes(&mut params, &be_u32_bytes(storage_id));
    append_bytes(&mut params, &be_u16_bytes(format));
    append_bytes(&mut params, &be_u16_bytes(0));
    params
}

/// The parameter bytes of GetPartialObject: the object handle, the 64-bit offset
/// and the length.
pub fn partial_object_params(object_handle: u32, offset: u64, length: u32) -> (r: Vec<u8>)
    ensures
        r@ == be_bytes(object_handle as nat, 4) + be_bytes(offset as nat, 8) + be_bytes(
            length as nat,
            4,
        ),
{
    let mut params: Vec<u8> = Vec::new();
    append_bytes(&mut params, &be_u32_bytes(object_handle));
    append_bytes(&mut params, &be_u64_bytes(offset));
    append_bytes(&mut params, &be_u32_bytes(length));
    params
}

/// The handle of the new object in an InitiateCapture response payload: the
/// 32-bit value after the 8-byte header.
pub fn capture_object_handle(payload: &[u8]) -> (r: Result<u32, PtpIpError>)
    ensures
        payload@.len() < 12 ==> (r matches Err(PtpIpError::ProtocolError(m)) && m@
            == "Insufficient data length for capture response"@),
        payload@.len() >= 12 ==> (r matches Ok(h) && h as nat == u32_at(payload@, 8)),
{
    if payload.len() < 12 {
        return Err(
            PtpIpError::ProtocolError(String::from_str("Insufficient data length for capture response")),
        );
    }
    Ok(u32_field(payload, 8))
}

/// What a GetPartialObject transaction does to a stream: it sends the command with
/// the handle, offset and length, then receives the transaction's data blocks (see
/// `spec_data_blocks`); when the clock runs out the receive may stop early.
pub open spec fn partial_object_done(
    before: MemStream,
    after: MemStream,
    r: Result<Vec<u8>, PtpIpError>,
    object_handle: u32,
    offset: u64,
    length: u32,
    transaction_id: u32,
) -> bool {
    let params = be_bytes(object_handle as nat, 4) + be_bytes(offset as nat, 8) + be_bytes(
        length as nat,
        4,
    );
    let sent = frame_bytes(3, transaction_id, command_bytes(0x101B, 4, params_of(params)));
    let (o, rest) = spec_data_blocks(before.unread(), transaction_id, Seq::<u8>::empty());
    &&& after.written() == before.written() + sent
    &&& !(r matches Err(PtpIpError::Timeout)) ==> {
        &&& after.unread() == rest
        &&& match o {
            Ok(d) => r matches Ok(v) && v@ == d,
            Err(x) => r matches Err(e) && recv_failure_matches(e, x),
        }
    }
}

/// Downloads `length` bytes of an object from `offset` in transaction
/// `transaction_id` (see `partial_object_done`).
pub fn get_partial_object_in(
    stream: &mut MemStream,
    object_handle: u32,
    offset: u64,
    length: u32,
    transaction_id: u32,
    config: &SessionConfig,
) -> (r: Result<Vec<u8>, PtpIpError>)
    ensures
        partial_object_done(
            *old(stream),
            *final(stream),
            r,
            object_handle,
            offset,
            length,
            transaction_id,
        ),
{
    let params = partial_object_params(object_handle, offset, length);
    proof {
        crate::utils::lemma_be_bytes_len(object_handle as nat, 4);
        crate::utils::lemma_be_bytes_len(offset as nat, 8);
        crate::utils::lemma_be_bytes_len(length as nat, 4);
    }
    send_command(stream, 0x101B, transaction_id, params.as_slice(), config)?;
    receive_data_block(stream, transaction_id, config)
}

/// Downloads `length` bytes of an object from `offset` in a new transaction whose
/// id is random (see `partial_object_done`).
pub fn get_partial_object(
    stream: &mut MemStream,
    object_handle: u32,
    offset: u64,
    length: u32,
    config: &SessionConfig,
) -> (r: Result<Vec<u8>, PtpIpError>)
    ensures
        exists|tid: u32|
            partial_object_done(
                *old(stream),
                *final(stream),
                r,
                object_handle,
                offset,
                length,
                tid,
            ),
{
    let transaction_id = generate_transaction_id();
    get_partial_object_in(stream, object_handle, offset, length, transaction_id, config)
}

// ------------------------------
// Resume files
// ------------------------------

/// The final component of a path, as `std::path::Path::file_name` gives it
/// (`None` for a root, a path that ends in `..`, or an empty path).
pub uninterp spec fn path_file_name_of(path: Seq<char>) -> Option<Seq<char>>;

/// A path with its final component replaced by `name`, as
/// `std::path::PathBuf::set_file_name` makes it.
pub uninterp spec fn path_with_file_name_of(path: Seq<char>, name: Seq<char>) -> Seq<char>;

/// The final component of `path`, from `Path::file_name` (converted to text).
#[verifier::external_body]
fn path_file_name(path: &str) -> (r: Option<String>)
    ensures
        match r {
            Some(n) => path_file_name_of(path@) == Some(n@),
            None => path_file_name_of(path@) is None,
        },
{
    match Path::new(path).file_name() {
        Some(n) => Some(n.to_string_lossy().into_owned()),
        None => None,
    }
}

/// `path` with its final component replaced by `name`, from `PathBuf::set_file_name`.
#[verifier::external_body]
fn path_with_file_name(path: &str, name: &str) -> (r: String)
    ensures
        r@ == path_with_file_name_of(path@, name@),
{
    let mut p = PathBuf::from(path);
    p.set_file_name(name);
    p.to_string_lossy().into_owned()
}

/// The name of the partial download file of a file named `name`.
pub open spec fn temp_file_name(name: Option<Seq<char>>) -> Seq<char> {
    match name {
        Some(n) => "."@ + n + ".download"@,
        None => ".download.tmp"@,
    }
}

/// The name of the resume record of a file named `name`.
pub open spec fn resume_file_name(name: Option<Seq<char>>) -> Seq<char> {
    match name {
        Some(n) => "."@ + n + ".resume"@,
        None => ".resume"@,
    }
}

/// The path of the partial download of `save_path`: a hidden file beside it,
/// `.<name>.download` (`.download.tmp` when the path has no file name).
pub fn get_temp_path(save_path: &str) -> (r: String)
    ensures
        r@ == path_with_file_name_of(save_path@, temp_file_name(path_file_name_of(save_path@))),
{
    let file_name = match path_file_name(save_path) {
        Some(n) => {
            let mut f = String::from_str(".");
            f.append(n.as_str());
            f.append(".download");
            f
        },
        None => String::from_str(".download.tmp"),
    };
    path_with_file_name(save_path, file_name.as_str())
}

/// The path of the resume record of `save_path`: a hidden file beside it,
/// `.<name>.resume` (`.resume` when the path has no file name).
pub fn get_resume_path(save_path: &str) -> (r: String)
    ensures
        r@ == path_with_file_name_of(save_path@, resume_file_name(path_file_name_of(save_path@))),
{
    let file_name = match path_file_name(save_path) {
        Some(n) => {
            let mut f = String::from_str(".");
            f.append(n.as_str());
            f.append(".resume");
            f
        },
        None => String::from_str(".resume"),
    };
    path_with_file_name(save_path, file_name.as_str())
}

/// The text a resume record holds for `offset`: its decimal digits.
pub fn resume_record(offset: usize) -> (r: String)
    ensures
        r@ == ascii_chars(decimal_bytes(offset as nat)),
{
    decimal_string(offset as u64)
}

/// Whether `c` is white space, as `char::is_whitespace` defines it (the Unicode
/// White_Space property).
pub open spec fn is_white_space(c: char) -> bool {
    ||| '\u{9}' <= c <= '\u{d}'
    ||| c == ' '
    ||| c == '\u{85}'
    ||| c == '\u{a0}'
    ||| c == '\u{1680}'
    ||| '\u{2000}' <= c <= '\u{200a}'
    ||| c == '\u{2028}'
    ||| c == '\u{2029}'
    ||| c == '\u{202f}'
    ||| c == '\u{205f}'
    ||| c == '\u{3000}'
}

/// Whether `c` is white space (see `is_white_space`).
pub fn char_is_white_space(c: char) -> (r: bool)
    ensures
        r == is_white_space(c),
{
    ('\u{9}' <= c && c <= '\u{d}') || c == ' ' || c == '\u{85}' || c == '\u{a0}' || c == '\u{1680}'
        || ('\u{2000}' <= c && c <= '\u{200a}') || c == '\u{2028}' || c == '\u{2029}' || c
        == '\u{202f}' || c == '\u{205f}' || c == '\u{3000}'
}

/// `s` without its leading and trailing white space, as `str::trim` gives it.
pub open spec fn trim_white_space(s: Seq<char>) -> Seq<char> {
    trim_where(s, |c: char| is_white_space(c))
}

/// The value of a sequence of decimal digits.
pub open spec fn digits_value(s: Seq<char>) -> nat
    decreases s.len(),
{
    if s.len() == 0 {
        0
    } else {
        digits_value(s.drop_last()) * 10 + (s.last() as nat - 48) as nat
    }
}

/// Every character is an ASCII decimal digit.
pub open spec fn all_digits(s: Seq<char>) -> bool {
    forall|i: int| 0 <= i < s.len() ==> '0' <= #[trigger] s[i] <= '9'
}

/// The `usize` that `t` denotes, as `str::parse::<usize>` reads it: an optional `+`
/// and at least one decimal digit, whose value fits in a `usize`.
pub open spec fn parse_usize(t: Seq<char>) -> Option<usize> {
    let digits = if t.len() > 0 && t[0] == '+' { t.drop_first() } else { t };
    if digits.len() > 0 && all_digits(digits) && digits_value(digits) <= usize::MAX {
        Some(digits_value(digits) as usize)
    } else {
        None
    }
}

/// The offset that a resume record holds: its text without surrounding white
/// space, read as a `usize`; any other text is invalid resume data.
pub fn parse_resume_offset(text: &str) -> (r: Result<usize, PtpIpError>)
    ensures
        match parse_usize(trim_white_space(text@)) {
            Some(v) => r == Ok::<usize, PtpIpError>(v),
            None => r matches Err(PtpIpError::InvalidResumeData),
        },
{
    let n = text.unicode_len();
    let mut start: usize = 0;
    while start < n && char_is_white_space(text.get_char(start))
        invariant
            start <= n,
            n == text@.len(),
            forall|i: int| 0 <= i < start ==> is_white_space(#[trigger] text@[i]),
        decreases n - start,
    {
        start = start + 1;
    }
    let mut end: usize = n;
    while end > start && char_is_white_space(text.get_char(end - 1))
        invariant
            start <= end <= n,
            n == text@.len(),
            forall|i: int| end <= i < n ==> is_white_space(#[trigger] text@[i]),
        decreases end,
    {
        end = end - 1;
    }
    let ghost s = text@;
    proof {
        let ws = |c: char| is_white_space(c);
        lemma_trim_start(s, ws, start as int);
        let u = s.skip(start as int);
        assert forall|k: int| end - start <= k < u.len() implies ws(#[trigger] u[k]) by {
            assert(u[k] == s[start + k]);
        }
        if end > start {
            assert(u[end - start - 1] == s[end - 1]);
        }
        lemma_trim_end(u, ws, end - start);
        assert(u.take(end - start) =~= s.subrange(start as int, end as int));
    }
    let mut i: usize = start;
    if i < end && text.get_char(i) == '+' {
        i = i + 1;
    }
    let ghost digits = s.subrange(i as int, end as int);
    proof {
        let t = s.subrange(start as int, end as int);
        if t.len() > 0 && t[0] == '+' {
            assert(t.drop_first() =~= digits);
        } else {
            assert(t =~= digits);
        }
    }
    if i == end {
        return Err(PtpIpError::InvalidResumeData);
    }
    let mut value: usize = 0;
    let first = i;
    while i < end
        invariant
            first <= i <= end <= n,
            n == text@.len(),
            digits == s.subrange(first as int, end as int),
            s == text@,
            trim_white_space(s) == s.subrange(start as int, end as int),
            digits == (if s.subrange(start as int, end as int).len() > 0 && s.subrange(
                start as int,
                end as int,
            )[0] == '+' {
                s.subrange(start as int, end as int).drop_first()
            } else {
                s.subrange(start as int, end as int)
            }),
            value as nat == digits_value(s.subrange(first as int, i as int)),
            all_digits(s.subrange(first as int, i as int)),
        decreases end - i,
    {
        let c = text.get_char(i);
        if c < '0' || c > '9' {
            proof {
                assert(!all_digits(digits)) by {
                    assert(digits[i - first] == c);
                }
            }
            return Err(PtpIpError::InvalidResumeData);
        }
        let d = (c as u32 - 48) as usize;
        let ghost prefix = s.subrange(first as int, i as int);
        let ghost next = s.subrange(first as int, i + 1);
        proof {
            assert(next.drop_last() =~= prefix);
            assert(next.last() == c);
        }
        if value > (usize::MAX - d) / 10 {
            proof {
                assert(digits_value(next) > usize::MAX) by (nonlinear_arith)
                    requires
                        digits_value(next) == value * 10 + d,
                        value > (usize::MAX - d) / 10,
                        d <= 9,
                ;
                if all_digits(digits) {
                    lemma_digits_value_prefix(digits, (i + 1 - first) as int);
                    assert(digits.take((i + 1 - first) as int) =~= next);
                }
            }
            return Err(PtpIpError::InvalidResumeData);
        }
        value = value * 10 + d;
        i = i + 1;
        proof {
            assert forall|k: int| 0 <= k < next.len() implies '0' <= #[trigger] next[k] <= '9' by {
                if k < prefix.len() {
                    assert(next[k] == prefix[k]);
                }
            }
        }
    }
    Ok(value)
}

/// A prefix of a digit sequence has no larger value.
proof fn lemma_digits_value_prefix(s: Seq<char>, k: int)
    requires
        0 <= k <= s.len(),
        all_digits(s),
    ensures
        digits_value(s.take(k)) <= digits_value(s),
    decreases s.len() - k,
{
    if k < s.len() {
        lemma_digits_value_prefix(s, k + 1);
        let t = s.take(k + 1);
        assert(t.drop_last() =~= s.take(k));
        assert('0' <= s[k] <= '9');
    } else {
        assert(s.take(k) =~= s);
    }
}

/// The value of the decimal text of `n` is `n`, and the text is made of digits.
pub proof fn lemma_decimal_digits(n: nat)
    ensures
        ascii_chars(decimal_bytes(n)).len() > 0,
        all_digits(ascii_chars(decimal_bytes(n))),
        digits_value(ascii_chars(decimal_bytes(n))) == n,
    decreases n,
{
    let t = ascii_chars(decimal_bytes(n));
    if n < 10 {
        assert(t.len() == 1);
        assert(t[0] == ((48 + n) as u8) as char);
        assert(t.drop_last().len() == 0);
        assert((((48 + n) as u8) as char) as nat == 48 + n);
        assert(digits_value(t) == digits_value(t.drop_last()) * 10 + (t.last() as nat - 48) as nat);
    } else {
        lemma_decimal_digits(n / 10);
        let p = ascii_chars(decimal_bytes(n / 10));
        assert(decimal_bytes(n) == crate::text::digits_bytes(n / 10, 10).push(
            crate::text::digit_byte(n % 10),
        ));
        assert(t.drop_last() =~= p);
        assert(t.last() == ((48 + n % 10) as u8) as char);
        assert((((48 + n % 10) as u8) as char) as nat == 48 + n % 10);
        assert(digits_value(t) == digits_value(p) * 10 + n % 10);
        assert forall|i: int| 0 <= i < t.len() implies '0' <= #[trigger] t[i] <= '9' by {
            if i < p.len() {
                assert(t[i] == p[i]);
            }
        }
    }
}

/// A resume record reads back as the offset it was written for: its text has no
/// surrounding white space, and it reads as that `usize`.
pub proof fn lemma_resume_record_roundtrip(offset: usize)
    ensures
        parse_usize(trim_white_space(ascii_chars(decimal_bytes(offset as nat)))) == Some(offset),
{
    let t = ascii_chars(decimal_bytes(offset as nat));
    let ws = |c: char| is_white_space(c);
    lemma_decimal_digits(offset as nat);
    assert('0' <= t[0] <= '9');
    assert('0' <= t[t.len() - 1] <= '9');
    lemma_trim_start(t, ws, 0);
    assert(t.skip(0) =~= t);
    lemma_trim_end(t, ws, t.len() as int);
    assert(t.take(t.len() as int) =~= t);
}

/// What to do about an interrupted download.
#[derive(Debug, Clone, Copy, PartialEq, Eq, Structural)]
pub enum ResumePlan {
    /// The target file is complete: use it as it is.
    UseTarget,
    /// The record and the partial file disagree: delete both and start over.
    Restart,
    /// The partial file is complete: rename it to the target and delete the record.
    Promote,
    /// Append to the partial file from this offset.
    Resume(usize),
    /// No usable record: start over (deleting a partial file left without one).
    Fresh,
}

/// Whether a target file of `target_len` bytes is the complete download of
/// `total_size` bytes (the length is compared as a `usize`).
pub fn target_complete(target_len: u64, total_size: usize) -> (r: bool)
    ensures
        r == ((target_len as usize) == total_size),
{
    (target_len as usize) == total_size
}

/// The plan for a partial file of `temp_len` bytes (compared as a `usize`) whose
/// record says `offset` bytes were saved, for a download of `total_size` bytes:
/// start over when they disagree, promote a complete file, resume otherwise.
pub open spec fn spec_resume_plan(offset: usize, temp_len: u64, total_size: usize) -> ResumePlan {
    if (temp_len as usize) != offset {
        ResumePlan::Restart
    } else if offset >= total_size {
        ResumePlan::Promote
    } else {
        ResumePlan::Resume(offset)
    }
}

/// What to do with a partial file of `temp_len` bytes whose record says `offset`
/// bytes were saved, for a download of `total_size` bytes.
pub fn resume_plan(offset: usize, temp_len: u64, total_size: usize) -> (r: ResumePlan)
    ensures
        r == spec_resume_plan(offset, temp_len, total_size),
{
    if (temp_len as usize) != offset {
        ResumePlan::Restart
    } else if offset >= total_size {
        ResumePlan::Promote
    } else {
        ResumePlan::Resume(offset)
    }
}

/// Decides where a download of `total_size` bytes starts, from what lies on disk:
/// `target_len` is the length of the target file, if there is one; `record` is the
/// text of the resume record and the length of the partial file, when both exist.
/// A target of the full size is used as it is; otherwise a record is read (text
/// that is no offset is invalid resume data) and planned with `spec_resume_plan`;
/// without one the download starts fresh.
pub fn resume_decision(total_size: usize, target_len: Option<u64>, record: Option<(&str, u64)>) -> (r: Result<ResumePlan, PtpIpError>)
    ensures
        (target_len matches Some(l) && (l as usize) == total_size) ==> r == Ok::<ResumePlan, PtpIpError>(ResumePlan::UseTarget),
        !(target_len matches Some(l) && (l as usize) == total_size) ==> match record {
            None => r == Ok::<ResumePlan, PtpIpError>(ResumePlan::Fresh),
            Some((text, temp_len)) => match parse_usize(trim_white_space(text@)) {
                Some(offset) => r == Ok::<ResumePlan, PtpIpError>(spec_resume_plan(offset, temp_len, total_size)),
                None => r matches Err(PtpIpError::InvalidResumeData),
            },
        },
{
    if let Some(l) = target_len {
        if target_complete(l, total_size) {
            return Ok(ResumePlan::UseTarget);
        }
    }
    match record {
        None => Ok(ResumePlan::Fresh),
        Some((text, temp_len)) => {
            let offset = parse_resume_offset(text)?;
            Ok(resume_plan(offset, temp_len, total_size))
        },
    }
}

/// The offset a download continues from under a plan.
pub fn plan_offset(plan: ResumePlan, total_size: usize) -> (r: usize)
    ensures
        r == match plan {
            ResumePlan::UseTarget => total_size,
            ResumePlan::Promote => total_size,
            ResumePlan::Resume(o) => o,
            _ => 0,
        },
{
    match plan {
        ResumePlan::UseTarget => total_size,
        ResumePlan::Promote => total_size,
        ResumePlan::Resume(o) => o,
        _ => 0,
    }
}

// ------------------------------
// Chunked download
// ------------------------------

/// The size of the next chunk when `remaining` bytes are left: the chunk size,
/// or what is left when that is less than the minimum chunk size, and never more
/// than what is left.
pub open spec fn spec_chunk_size(remaining: nat, chunk_size: nat, min_chunk_size: nat) -> nat {
    if remaining < min_chunk_size {
        remaining
    } else if chunk_size < remaining {
        chunk_size
    } else {
        remaining
    }
}

/// Where a download that starts at `offset` and receives every chunk complete
/// stops: it takes chunks of `spec_chunk_size` until the offset reaches the total.
pub open spec fn download_end(offset: nat, total: nat, chunk_size: nat, min_chunk_size: nat) -> nat
    decreases total - offset,
    when chunk_size > 0
{
    if offset >= total {
        offset
    } else {
        download_end(
            offset + spec_chunk_size((total - offset) as nat, chunk_size, min_chunk_size),
            total,
            chunk_size,
            min_chunk_size,
        )
    }
}

/// A download from any offset up to the total, with a positive chunk size, stops
/// at exactly the total: no chunk reaches past the end of the object, and every
/// chunk moves the download forward.
pub proof fn lemma_download_reaches_total(offset: nat, total: nat, chunk_size: nat, min_chunk_size: nat)
    requires
        offset <= total,
        chunk_size > 0,
    ensures
        download_end(offset, total, chunk_size, min_chunk_size) == total,
    decreases total - offset,
{
    if offset < total {
        let c = spec_chunk_size((total - offset) as nat, chunk_size, min_chunk_size);
        assert(0 < c <= total - offset);
        lemma_download_reaches_total(offset + c, total, chunk_size, min_chunk_size);
    }
}

/// The size of the next chunk when `remaining` bytes are left (see `spec_chunk_size`).
pub fn next_chunk_size(remaining: usize, chunk_size: usize, min_chunk_size: usize) -> (r: usize)
    ensures
        r == spec_chunk_size(remaining as nat, chunk_size as nat, min_chunk_size as nat),
        r <= remaining,
        remaining > 0 && chunk_size > 0 ==> r > 0,
{
    let wanted = if remaining < min_chunk_size {
        remaining
    } else {
        chunk_size
    };
    if wanted < remaining {
        wanted
    } else {
        remaining
    }
}

/// The error for a chunk that came back with another size than asked for.
pub fn incomplete_chunk(expected: usize, received: usize) -> (r: PtpIpError)
    ensures
        r matches PtpIpError::ProtocolError(m) && m@ == "Incomplete chunk data: expected "@
            + ascii_chars(decimal_bytes(expected as nat)) + " bytes, received "@ + ascii_chars(
            decimal_bytes(received as nat),
        ) + " bytes"@,
{
    let mut m = String::from_str("Incomplete chunk data: expected ");
    let a = decimal_string(expected as u64);
    m.append(a.as_str());
    m.append(" bytes, received ");
    let b = decimal_string(received as u64);
    m.append(b.as_str());
    m.append(" bytes");
    PtpIpError::ProtocolError(m)
}

/// Takes a chunk downloaded at `offset`: when `received` bytes came back for a chunk
/// of `expected` bytes the download fails (see `incomplete_chunk`) and the
/// statistics stay as they were; otherwise the download moves past the chunk, the
/// statistics count it, and the new offset is returned.
pub fn accept_chunk(stats: &mut DownloadStats, offset: usize, expected: usize, received: usize) -> (r: Result<usize, PtpIpError>)
    requires
        offset + expected <= usize::MAX,
        old(stats).chunks < usize::MAX,
    ensures
        received != expected ==> {
            &&& r matches Err(PtpIpError::ProtocolError(m)) && m@ == "Incomplete chunk data: expected "@
                + ascii_chars(decimal_bytes(expected as nat)) + " bytes, received "@ + ascii_chars(
                decimal_bytes(received as nat),
            ) + " bytes"@
            &&& *final(stats) == *old(stats)
        },
        received == expected ==> {
            &&& r == Ok::<usize, PtpIpError>((offset + expected) as usize)
            &&& final(stats).downloaded_bytes == (offset + expected) as u64
            &&& final(stats).chunks == old(stats).chunks + 1
            &&& final(stats).total_bytes == old(stats).total_bytes
            &&& final(stats).retries == old(stats).retries
            &&& final(stats).duration_ms == old(stats).duration_ms
        },
{
    if received != expected {
        return Err(incomplete_chunk(expected, received));
    }
    let next = offset + expected;
    stats.downloaded_bytes = next as u64;
    stats.chunks = stats.chunks + 1;
    Ok(next)
}

/// Counts a failed chunk download in the statistics; `retries` is the number of
/// failed attempts at this chunk, this one included. Returns whether another
/// attempt is allowed (at most `max_retries` retries).
pub fn note_chunk_failure(stats: &mut DownloadStats, retries: usize, max_retries: usize) -> (again: bool)
    requires
        old(stats).retries < usize::MAX,
    ensures
        again == (retries <= max_retries),
        final(stats).retries == old(stats).retries + 1,
        final(stats).total_bytes == old(stats).total_bytes,
        final(stats).downloaded_bytes == old(stats).downloaded_bytes,
        final(stats).chunks == old(stats).chunks,
        final(stats).duration_ms == old(stats).duration_ms,
{
    stats.retries = stats.retries + 1;
    retries <= max_retries
}

// ------------------------------
// Laws of the dataset parsers: what was written is read back
// ------------------------------

/// A list payload written big-endian — 8 header bytes, the count at byte 8, then
/// the values from byte 12 — parses to exactly the values written, in order and
/// whole: every 32-bit id or handle reads back unchanged (this holds for
/// `parse_storage_ids` and `parse_object_handles`, whatever their text for a too
/// short payload).
pub proof fn lemma_u32_list_reads_written(
    data: Seq<u8>,
    too_short: Seq<char>,
    r: Result<Vec<u32>, PtpIpError>,
    values: Seq<u32>,
)
    requires
        values.len() < 0x1_0000_0000,
        data.len() >= 12 + 4 * values.len(),
        data.subrange(8, 12) == be_bytes(values.len(), 4),
        forall|i: int|
            0 <= i < values.len() ==> data.subrange(12 + 4 * i, 16 + 4 * i) == be_bytes(
                #[trigger] values[i] as nat,
                4,
            ),
        u32_list_matches(r, spec_u32_list(data, too_short)),
    ensures
        r matches Ok(v) && v@ == values,
{
    reveal_with_fuel(crate::utils::pow256, 5);
    crate::transport::lemma_field_value(data, 8, values.len(), 4);
    let v = r->Ok_0;
    assert forall|i: int| 0 <= i < values.len() implies v@[i] == values[i] by {
        crate::transport::lemma_field_value(data, 12 + 4 * i, values[i] as nat, 4);
    }
    assert(v@ =~= values);
}

/// An object-info payload whose numeric fields were written big-endian at their
/// offsets (storage id at 8, format at 12, protection status at 14, object size at
/// 16, thumbnail size at 24) parses, when it parses at all, to exactly the values
/// written, for the object it was asked about: every 16-, 32- and 64-bit field
/// reads back whole.
pub proof fn lemma_object_info_reads_written(
    data: Seq<u8>,
    object_handle: u32,
    r: Result<ObjectInfo, PtpIpError>,
    storage_id: u32,
    object_format: u16,
    protection_status: u8,
    object_size: u64,
    thumb_size: u32,
)
    requires
        data.len() >= 64,
        data.subrange(8, 12) == be_bytes(storage_id as nat, 4),
        data.subrange(12, 14) == be_bytes(object_format as nat, 2),
        data[14] == protection_status,
        data.subrange(16, 24) == be_bytes(object_size as nat, 8),
        data.subrange(24, 28) == be_bytes(thumb_size as nat, 4),
        object_info_matches(r, spec_object_info(data), object_handle),
        r is Ok,
    ensures
        r matches Ok(x) && x.handle == object_handle && x.storage_id == storage_id
            && x.object_format == object_format && x.protection_status == protection_status
            && x.object_size == object_size && x.thumb_size == thumb_size,
{
    reveal_with_fuel(crate::utils::pow256, 9);
    crate::transport::lemma_field_value(data, 8, storage_id as nat, 4);
    crate::transport::lemma_field_value(data, 12, object_format as nat, 2);
    crate::transport::lemma_field_value(data, 16, object_size as nat, 8);
    crate::transport::lemma_field_value(data, 24, thumb_size as nat, 4);
}

/// An event block whose payload was written big-endian — the event type's code,
/// the parameter count (16-bit each), then the parameters (32-bit each) — parses
/// to exactly that event: its type, the block's transaction id, and every
/// parameter whole and in order.
pub proof fn lemma_event_reads_written(
    packet: PtpIpPacket,
    r: Result<PtpEvent, PtpIpError>,
    event_type: EventType,
    parameters: Seq<u32>,
)
    requires
        parameters.len() < 0x10000,
        packet.payload@.len() >= 6,
        packet.payload@.len() >= 4 + 4 * parameters.len(),
        packet.payload@.subrange(0, 2) == be_bytes(event_code(event_type) as nat, 2),
        packet.payload@.subrange(2, 4) == be_bytes(parameters.len(), 2),
        forall|i: int|
            0 <= i < parameters.len() ==> packet.payload@.subrange(4 + 4 * i, 8 + 4 * i)
                == be_bytes(#[trigger] parameters[i] as nat, 4),
        event_matches(r, packet),
    ensures
        r matches Ok(ev) && ev.event_type == event_type && ev.transaction_id
            == packet.transaction_id && ev.parameters@ == parameters,
{
    let payload = packet.payload@;
    reveal_with_fuel(crate::utils::pow256, 5);
    crate::transport::lemma_field_value(payload, 0, event_code(event_type) as nat, 2);
    crate::transport::lemma_field_value(payload, 2, parameters.len(), 2);
    assert(event_code(event_type) == u16_at(payload, 0));
    let ev = r->Ok_0;
    assert(ev.event_type == event_type);
    assert forall|i: int| 0 <= i < parameters.len() implies ev.parameters@[i] == parameters[i] by {
        crate::transport::lemma_field_value(payload, 4 + 4 * i, parameters[i] as nat, 4);
    }
    assert(ev.parameters@ =~= parameters);
}

} // verus!
