use ptpip_core::error::PtpIpError;
use ptpip_core::session::{
    heartbeat_due, open_session_params, parse_storage_ids, send_close_session, send_open_session,
    session_id_from_response,
};
use ptpip_core::stream::MemStream;
use ptpip_core::types::SessionConfig;

#[test]
fn test_parse_storage_ids_success() {
    let data = [0x00, 0x02, 0x00, 0x00, 0x00, 0x01, 0x00, 0x00, 0x00, 0x02];
    let result = parse_storage_ids(&data);
    assert!(result.is_ok());
    assert_eq!(result.unwrap(), vec![0x00000001, 0x00000002]);
}

#[test]
fn session_test_parse_storage_ids_insufficient_data() {
    let data = [0x00];
    let result = parse_storage_ids(&data);
    assert!(matches!(result, Err(PtpIpError::ProtocolError(_))));
}

#[test]
fn test_parse_storage_ids_incomplete() {
    let data = [0x00, 0x02, 0x00, 0x00];
    let result = parse_storage_ids(&data);
    assert!(matches!(result, Err(PtpIpError::ProtocolError(_))));
}

#[test]
fn session_storage_id_messages() {
    match parse_storage_ids(&[0x00]) {
        Err(PtpIpError::ProtocolError(m)) => assert_eq!(m, "存储 ID 列表数据长度不足"),
        other => panic!("unexpected result {:?}", other),
    }
    match parse_storage_ids(&[0x00, 0x01, 0x00]) {
        Err(PtpIpError::ProtocolError(m)) => assert_eq!(m, "存储 ID 数据不完整"),
        other => panic!("unexpected result {:?}", other),
    }
    assert_eq!(parse_storage_ids(&[0x00, 0x00]).unwrap(), Vec::<u32>::new());
}

#[test]
fn session_open_and_heartbeat() {
    assert_eq!(open_session_params(0x0A0B0C0D), vec![0x0A, 0x0B, 0x0C, 0x0D]);
    assert_eq!(session_id_from_response(&[0, 0, 0, 7, 9]).unwrap(), 7);
    assert!(matches!(session_id_from_response(&[0, 0, 0]), Err(PtpIpError::ProtocolError(_))));
    let keep_alive = SessionConfig::default().keep_alive_interval;
    assert_eq!(keep_alive, 10);
    // With the default interval of ten seconds, twelve idle seconds make a heartbeat due.
    assert!(heartbeat_due(true, 12_000_000_000, keep_alive));
    assert!(heartbeat_due(true, 10_000_000_001, keep_alive));
    assert!(!heartbeat_due(true, 10_000_000_000, keep_alive));
    assert!(!heartbeat_due(false, 99_000_000_000, keep_alive));
}

#[test]
fn open_session_sends_id_and_reads_reply() {
    let reply = [0x00, 0x05, 0x00, 0x00, 0x00, 0x00, 0x00, 0x01, 0x00, 0x00, 0x00, 0x0C, 0x00, 0x00,
        0x20, 0x01, 0x00, 0x00, 0x00, 0x00];
    let mut stream = MemStream::new(&reply);
    let config = SessionConfig::default();
    let id = send_open_session(&mut stream, 1, 0x11223344, &config).unwrap();
    // The session id is read from the first 32 bits of the response payload.
    assert_eq!(id, 0x00002001);
    let expected = [0x00, 0x03, 0x00, 0x00, 0x00, 0x00, 0x00, 0x01, 0x00, 0x00, 0x10, 0x02, 0x00,
        0x00, 0x00, 0x01, 0x11, 0x22, 0x33, 0x44];
    assert_eq!(stream.written_data(), &expected);

    let refused = [0x00, 0x05, 0x00, 0x00, 0x00, 0x00, 0x00, 0x01, 0x00, 0x00, 0x00, 0x0C, 0x00,
        0x00, 0x20, 0x02, 0x00, 0x00, 0x00, 0x00];
    let mut stream = MemStream::new(&refused);
    assert!(matches!(
        send_open_session(&mut stream, 1, 5, &config),
        Err(PtpIpError::DeviceError { code: 0x2002, .. })
    ));
}

#[test]
fn close_session_sends_command_and_checks_reply() {
    let reply = [0x00, 0x05, 0x00, 0x00, 0x00, 0x00, 0x00, 0x02, 0x00, 0x00, 0x00, 0x0C, 0x00, 0x00,
        0x20, 0x01, 0x00, 0x00, 0x00, 0x00];
    let mut stream = MemStream::new(&reply);
    let config = SessionConfig::default();
    send_close_session(&mut stream, 2, 0x0A0B0C0D, &config).unwrap();
    let expected = [0x00, 0x03, 0x00, 0x00, 0x00, 0x00, 0x00, 0x02, 0x00, 0x00, 0x10, 0x03, 0x00,
        0x00, 0x00, 0x01, 0x0A, 0x0B, 0x0C, 0x0D];
    assert_eq!(stream.written_data(), &expected);

    let bad_reply = [0x00, 0x05, 0x00, 0x00, 0x00, 0x00, 0x00, 0x02, 0x00, 0x00, 0x00, 0x0C, 0x00,
        0x00, 0x20, 0x03, 0x00, 0x00, 0x00, 0x00];
    let mut stream = MemStream::new(&bad_reply);
    assert!(matches!(
        send_close_session(&mut stream, 2, 1, &config),
        Err(PtpIpError::DeviceError { code: 0x2003, .. })
    ));
}
