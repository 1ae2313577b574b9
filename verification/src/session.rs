use vstd::prelude::*;
use crate::commands::{
    command_bytes, get_response, send_command, spec_get_response, u32_param, response_ok,
    response_error_matches,
};
use crate::error::PtpIpError;
use crate::stream::{append_bytes, MemStream};
use crate::transport::{
    be_u32_bytes, frame_bytes, u16_at, u32_at, u16_field, u32_field,
    recv_failure_matches, RecvOutcome,
};
use crate::types::SessionConfig;
use crate::utils::be_bytes;

verus! {

/// A storage id list as a session reads it: a 16-bit count, then the ids
/// (32-bit each); `None` when the data is too short for the count or the ids.
pub open spec fn spec_session_storage_ids(data: Seq<u8>) -> Option<Seq<u32>> {
    if data.len() < 2 || data.len() < 2 + 4 * u16_at(data, 0) {
        None
    } else {
        Some(Seq::new(u16_at(data, 0), |i: int| u32_at(data, 2 + 4 * i) as u32))
    }
}

/// Parses a storage id list in the session's format: a 16-bit count, then the ids.
pub fn parse_storage_ids(data: &[u8]) -> (r: Result<Vec<u32>, PtpIpError>)
    ensures
        data@.len() < 2 ==> (r matches Err(PtpIpError::ProtocolError(m)) && m@
            == "存储 ID 列表数据长度不足"@),
        data@.len() >= 2 && spec_session_storage_ids(data@) is None ==> (r matches Err(
            PtpIpError::ProtocolError(m),
        ) && m@ == "存储 ID 数据不完整"@),
        spec_session_storage_ids(data@) matches Some(ids) ==> (r matches Ok(v) && v@ == ids),
{
    if data.len() < 2 {
        return Err(PtpIpError::ProtocolError(String::from_str("存储 ID 列表数据长度不足")));
    }
    let count = u16_field(data, 0) as usize;
    let mut storage_ids: Vec<u32> = Vec::new();
    let mut i: usize = 0;
    while i < count
        invariant
            i <= count,
            count == u16_at(data@, 0),
            data@.len() >= 2,
            2 + 4 * i <= data.len() + 4,
            storage_ids@ == Seq::new(i as nat, |k: int| u32_at(data@, 2 + 4 * k) as u32),
            i > 0 ==> 2 + 4 * i <= data.len(),
        decreases count - i,
    {
        let start = 2 + 4 * i;
        if data.len() < 4 || start > data.len() - 4 {
            return Err(PtpIpError::ProtocolError(String::from_str("存储 ID 数据不完整")));
        }
        let v = u32_field(data, start);
        storage_ids.push(v);
        i = i + 1;
        assert(storage_ids@ =~= Seq::new(i as nat, |k: int| u32_at(data@, 2 + 4 * k) as u32));
    }
    Ok(storage_ids)
}

/// The parameter bytes of the session's OpenSession command: the 32-bit id of the
/// session to open.
pub fn open_session_params(session_id: u32) -> (r: Vec<u8>)
    ensures
        r@ == be_bytes(session_id as nat, 4),
{
    let mut params: Vec<u8> = Vec::new();
    append_bytes(&mut params, &be_u32_bytes(session_id));
    params
}

/// The session id in an OpenSession response payload: its first 32 bits.
pub fn session_id_from_response(payload: &[u8]) -> (r: Result<u32, PtpIpError>)
    ensures
        payload@.len() < 4 ==> (r matches Err(PtpIpError::ProtocolError(m)) && m@
            == "OpenSession 响应数据不足"@),
        payload@.len() >= 4 ==> (r matches Ok(id) && id as nat == u32_at(payload@, 0)),
{
    if payload.len() < 4 {
        return Err(PtpIpError::ProtocolError(String::from_str("OpenSession 响应数据不足")));
    }
    Ok(u32_field(payload, 0))
}

/// Whether a session should send a keep-alive before its next command: it is
/// connected and more than its keep-alive interval (`keep_alive_secs` whole
/// seconds) has passed since its last activity, `idle_nanos` nanoseconds ago.
pub fn heartbeat_due(is_connected: bool, idle_nanos: u128, keep_alive_secs: u64) -> (r: bool)
    ensures
        r == (is_connected && idle_nanos > keep_alive_secs as nat * 1_000_000_000),
{
    is_connected && idle_nanos > (keep_alive_secs as u128) * 1_000_000_000u128
}

/// The result of opening a session agrees with the outcome of the receive: a
/// response that reports success gives the session id in its first 32 bits, any
/// other response the device's error, and a failed receive its error.
pub open spec fn session_opened(r: Result<u32, PtpIpError>, o: RecvOutcome) -> bool {
    match o {
        RecvOutcome::Packet { payload, .. } => if response_ok(payload) {
            r matches Ok(id) && id as nat == u32_at(payload, 0)
        } else {
            r matches Err(e) && response_error_matches(e, payload)
        },
        _ => r matches Err(e) && recv_failure_matches(e, o),
    }
}

/// Opens session `session_id`: sends OpenSession (0x1002) with the session id as
/// its parameter, waits for the response to that transaction, and reads the
/// session id from it.
pub fn send_open_session(
    stream: &mut MemStream,
    transaction_id: u32,
    session_id: u32,
    config: &SessionConfig,
) -> (r: Result<u32, PtpIpError>)
    ensures
        final(stream).written() == old(stream).written() + frame_bytes(
            3,
            transaction_id,
            command_bytes(0x1002, 1, seq![session_id]),
        ),
        !(r matches Err(PtpIpError::Timeout)) ==> {
            &&& final(stream).unread() == spec_get_response(old(stream).unread(), transaction_id).1
            &&& session_opened(r, spec_get_response(old(stream).unread(), transaction_id).0)
        },
{
    let params = open_session_params(session_id);
    proof {
        crate::utils::lemma_be_bytes_len(session_id as nat, 4);
        reveal_with_fuel(crate::utils::pow256, 5);
        crate::utils::lemma_be_value_of_bytes(session_id as nat, 4);
        assert(params@.subrange(0, 4) =~= params@);
        assert(crate::commands::params_of(params@) =~= seq![session_id]);
    }
    send_command(stream, 0x1002, transaction_id, params.as_slice(), config)?;
    let response = get_response(stream, transaction_id, config)?;
    session_id_from_response(response.payload.as_slice())
}

/// The result of a command whose response is only checked agrees with the
/// outcome of the receive: success for a response that reports it, the device's
/// error for another response, the receive's error otherwise.
pub open spec fn response_checked(r: Result<(), PtpIpError>, o: RecvOutcome) -> bool {
    match o {
        RecvOutcome::Packet { payload, .. } => if response_ok(payload) {
            r is Ok
        } else {
            r matches Err(e) && response_error_matches(e, payload)
        },
        _ => r matches Err(e) && recv_failure_matches(e, o),
    }
}

/// Closes a session: sends CloseSession (0x1003) with the session id, then waits
/// for the response to that transaction.
pub fn send_close_session(
    stream: &mut MemStream,
    transaction_id: u32,
    session_id: u32,
    config: &SessionConfig,
) -> (r: Result<(), PtpIpError>)
    ensures
        final(stream).written() == old(stream).written() + frame_bytes(
            3,
            transaction_id,
            command_bytes(0x1003, 1, seq![session_id]),
        ),
        !(r matches Err(PtpIpError::Timeout)) ==> {
            &&& final(stream).unread() == spec_get_response(old(stream).unread(), transaction_id).1
            &&& response_checked(r, spec_get_response(old(stream).unread(), transaction_id).0)
        },
{
    let params = u32_param(session_id);
    proof {
        crate::utils::lemma_be_bytes_len(session_id as nat, 4);
        reveal_with_fuel(crate::utils::pow256, 5);
        crate::utils::lemma_be_value_of_bytes(session_id as nat, 4);
        assert(params@.subrange(0, 4) =~= params@);
        assert(crate::commands::params_of(params@) =~= seq![session_id]);
    }
    send_command(stream, 0x1003, transaction_id, params.as_slice(), config)?;
    let _ = get_response(stream, transaction_id, config)?;
    Ok(())
}

/// A storage id list written big-endian in the session's format — a 16-bit count,
/// then the ids (32-bit each) — parses to exactly the ids written, in order and
/// whole.
pub proof fn lemma_session_storage_ids_read_written(data: Seq<u8>, r: Result<Vec<u32>, PtpIpError>, ids: Seq<u32>)
    requires
        ids.len() < 0x10000,
        data.len() >= 2 + 4 * ids.len(),
        data.subrange(0, 2) == be_bytes(ids.len(), 2),
        forall|i: int|
            0 <= i < ids.len() ==> data.subrange(2 + 4 * i, 6 + 4 * i) == be_bytes(
                #[trigger] ids[i] as nat,
                4,
            ),
        spec_session_storage_ids(data) matches Some(parsed) ==> (r matches Ok(v) && v@ == parsed),
    ensures
        r matches Ok(v) && v@ == ids,
{
    reveal_with_fuel(crate::utils::pow256, 5);
    crate::transport::lemma_field_value(data, 0, ids.len(), 2);
    let v = r->Ok_0;
    assert forall|i: int| 0 <= i < ids.len() implies v@[i] == ids[i] by {
        crate::transport::lemma_field_value(data, 2 + 4 * i, ids[i] as nat, 4);
    }
    assert(v@ =~= ids);
}

} // verus!
