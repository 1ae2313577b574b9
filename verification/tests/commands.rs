use ptpip_core::commands::{
    accept_chunk, event_listen_step, resume_decision, note_chunk_failure, ListenAction,
    capture_object_handle, capture_params, char_is_white_space, check_response_error,
    get_partial_object_in, get_response, get_resume_path, get_temp_path, incomplete_chunk,
    next_chunk_size, object_handles_params, parse_event_packet, parse_object_handles,
    parse_object_info, parse_resume_offset, parse_storage_ids, partial_object_params, plan_offset,
    read_u8_be, receive_data_block, response_error_message, response_step, resume_plan,
    resume_record, send_command, target_complete, u32_param, PtpCommand, ResumePlan,
};
use ptpip_core::error::PtpIpError;
use ptpip_core::stream::MemStream;
use ptpip_core::transport::extract_string;
use ptpip_core::types::{
    DownloadStats, EventType, PtpIpMessageType, PtpIpPacket, PtpOperationCode, SessionConfig,
};
use ptpip_core::utils::chunk_vector;
use std::path::Path;

fn response_packet(transaction_id: u32, payload: Vec<u8>) -> PtpIpPacket {
    PtpIpPacket { message_type: PtpIpMessageType::ResponseBlock, transaction_id, payload }
}

fn event_packet(transaction_id: u32, payload: Vec<u8>) -> PtpIpPacket {
    PtpIpPacket { message_type: PtpIpMessageType::EventBlock, transaction_id, payload }
}

#[test]
fn test_send_command() {
    let mut mock_stream = MemStream::new(&[]);
    let config = SessionConfig::default();
    let transaction_id = 0x12345678;
    let opcode = PtpOperationCode::GetDeviceInfo.as_u16();
    let params = vec![0x01, 0x02, 0x03, 0x04];
    send_command(&mut mock_stream, opcode, transaction_id, &params, &config).unwrap();
    let expected = [
        0x00, 0x03, 0x00, 0x00, 0x12, 0x34, 0x56, 0x78, 0x00, 0x00, 0x10, 0x01, 0x00, 0x00, 0x00,
        0x01, 0x01, 0x02, 0x03, 0x04,
    ];
    assert_eq!(mock_stream.written_data(), &expected);
}

#[test]
fn test_get_response() {
    let response_data = [
        0x00, 0x05, 0x00, 0x00, 0x12, 0x34, 0x56, 0x78, 0x00, 0x00, 0x00, 0x0C, 0x00, 0x00, 0x20,
        0x01, 0x00, 0x00, 0x00, 0x00,
    ];
    let mut mock_stream = MemStream::new(&response_data);
    let config = SessionConfig::default();
    let response = get_response(&mut mock_stream, 0x12345678, &config).unwrap();
    assert_eq!(response.message_type, PtpIpMessageType::ResponseBlock);
    assert_eq!(response.transaction_id, 0x12345678);
    assert_eq!(response.payload, &response_data[12..]);
}

#[test]
fn test_get_response_wrong_tid_then_ok() {
    let packet1: Vec<u8> = [
        0x00, 0x05, 0x00, 0x00, 0x11, 0x11, 0x11, 0x11, 0x00, 0x00, 0x00, 0x08, 0x00, 0x00, 0x00,
        0x00,
    ]
    .into();
    let packet2: Vec<u8> = [
        0x00, 0x05, 0x00, 0x00, 0x12, 0x34, 0x56, 0x78, 0x00, 0x00, 0x00, 0x0C, 0x00, 0x00, 0x20,
        0x01, 0x00, 0x00, 0x00, 0x00,
    ]
    .into();
    let mut read_data = packet1;
    read_data.extend_from_slice(&packet2);
    let mut mock_stream = MemStream::new(&read_data);
    let config = SessionConfig::default();
    let response = get_response(&mut mock_stream, 0x12345678, &config).unwrap();
    assert_eq!(response.transaction_id, 0x12345678);
    assert_eq!(response.payload, &[0x00, 0x00, 0x20, 0x01, 0x00, 0x00, 0x00, 0x00]);
}

#[test]
fn get_response_reports_device_error() {
    let data = [
        0x00, 0x05, 0x00, 0x00, 0x00, 0x00, 0x00, 0x09, 0x00, 0x00, 0x00, 0x0C, 0x00, 0x00, 0x20,
        0x05, 0x00, 0x00, 0x00, 0x00,
    ];
    let mut stream = MemStream::new(&data);
    let config = SessionConfig::default();
    match get_response(&mut stream, 9, &config) {
        Err(PtpIpError::DeviceError { code, message }) => {
            assert_eq!(code, 0x2005);
            assert_eq!(message, "Unsupported operation");
        }
        other => panic!("unexpected result {:?}", other),
    }
}

#[test]
fn test_check_response_error() {
    let mut payload = vec![0x00, 0x00, 0x20, 0x01];
    payload.extend_from_slice(&[0x00, 0x00, 0x00, 0x00]);
    let packet = response_packet(0x12345678, payload.clone());
    assert!(check_response_error(&packet).is_ok());

    let err_packet = response_packet(0x12345678, vec![0x00, 0x00, 0x20, 0x02, 0x00, 0x00, 0x00, 0x00]);
    let result = check_response_error(&err_packet);
    assert!(matches!(result, Err(PtpIpError::DeviceError { .. })));
}

#[test]
fn test_parse_storage_ids() {
    let data = [
        0x00, 0x00, 0x00, 0x00, 0x20, 0x01, 0x00, 0x00, 0x00, 0x00, 0x00, 0x02, 0x00, 0x00, 0x00,
        0x01, 0x00, 0x00, 0x00, 0x02,
    ];
    assert_eq!(parse_storage_ids(&data).unwrap(), vec![1, 2]);
}

#[test]
fn test_parse_object_handles() {
    let data = [
        0x00, 0x00, 0x00, 0x00, 0x20, 0x01, 0x00, 0x00, 0x00, 0x00, 0x00, 0x03, 0x00, 0x00, 0x00,
        0x0A, 0x00, 0x00, 0x00, 0x0B, 0x00, 0x00, 0x00, 0x0C,
    ];
    assert_eq!(parse_object_handles(&data).unwrap(), vec![10, 11, 12]);
}

fn object_info_data() -> Vec<u8> {
    let filename_offset = 60usize;
    let filename_len = 12usize;
    let capture_date_offset = 72usize;
    let capture_date_len = 19usize;
    let modification_date_offset = 91usize;
    let modification_date_len = 19usize;
    let keywords_offset = 110usize;
    let keywords_len = 8usize;
    let mut data = vec![0u8; 8];
    data.extend_from_slice(&1u32.to_be_bytes());
    data.extend_from_slice(&2u16.to_be_bytes());
    data.push(0);
    data.push(0);
    data.extend_from_slice(&256u64.to_be_bytes());
    data.extend_from_slice(&64u32.to_be_bytes());
    data.extend_from_slice(&(filename_offset as u32).to_be_bytes());
    data.extend_from_slice(&(filename_len as u32).to_be_bytes());
    data.extend_from_slice(&(capture_date_offset as u32).to_be_bytes());
    data.extend_from_slice(&(capture_date_len as u32).to_be_bytes());
    data.extend_from_slice(&(modification_date_offset as u32).to_be_bytes());
    data.extend_from_slice(&(modification_date_len as u32).to_be_bytes());
    data.extend_from_slice(&(keywords_offset as u32).to_be_bytes());
    data.extend_from_slice(&(keywords_len as u32).to_be_bytes());
    assert_eq!(data.len(), 60);
    data.extend_from_slice(b"IMAGE001.jpg\0");
    data.extend_from_slice(b"2023-01-01 12:00:00");
    data.extend_from_slice(b"2023-01-01 12:30:00");
    data.extend_from_slice(b"vacation");
    data
}

#[test]
fn test_parse_object_info() {
    let data = object_info_data();
    let object_info = parse_object_info(&data, 0x12345678).unwrap();
    assert_eq!(object_info.handle, 0x12345678);
    assert_eq!(object_info.storage_id, 1);
    assert_eq!(object_info.object_format, 2);
    assert_eq!(object_info.protection_status, 0);
    assert_eq!(object_info.object_size, 256);
    assert_eq!(object_info.thumb_size, 64);
    assert!(!object_info.filename.is_empty());
    assert!(!object_info.keywords.is_empty());
}

#[test]
fn parse_object_info_exact_strings() {
    let data = object_info_data();
    let object_info = parse_object_info(&data, 1).unwrap();
    assert_eq!(object_info.filename, "IMAGE001.jpg");
    // The fields overlap their neighbours: each is cut at its own length and first NUL.
    assert_eq!(object_info.capture_date, "");
    assert_eq!(object_info.modification_date, "02023-01-01 12:30:0");
    assert_eq!(object_info.keywords, "0vacatio");
}

#[test]
fn test_parse_event_packet() {
    let data = [0x40, 0x01, 0x00, 0x01, 0x00, 0x00, 0x00, 0x0A];
    let packet = event_packet(0x87654321, data.to_vec());
    let event = parse_event_packet(&packet).unwrap();
    assert_eq!(event.event_type, EventType::ObjectAdded);
    assert_eq!(event.transaction_id, 0x87654321);
    assert_eq!(event.parameters, vec![10]);
}

#[test]
fn commands_test_chunk_vector() {
    let data = vec![1, 2, 3, 4, 5, 6, 7];
    let chunks = chunk_vector(&data, 3);
    assert_eq!(chunks, vec![vec![1, 2, 3], vec![4, 5, 6], vec![7]]);
}

#[test]
fn test_ptp_command_to_bytes() {
    let command = PtpCommand::new(0x1001, &[0x00000001, 0x00000002]);
    let bytes = command.to_bytes();
    let expected = [
        0x00, 0x00, 0x10, 0x01, 0x00, 0x00, 0x00, 0x02, 0x00, 0x00, 0x00, 0x01, 0x00, 0x00, 0x00,
        0x02,
    ];
    assert_eq!(bytes, expected);
}

#[test]
fn test_send_command_empty_params() {
    let mut mock_stream = MemStream::new(&[]);
    let config = SessionConfig::default();
    send_command(
        &mut mock_stream,
        PtpOperationCode::GetDeviceInfo.as_u16(),
        0x12345678,
        &[],
        &config,
    )
    .unwrap();
    let written = mock_stream.written_data();
    assert!(written.len() >= 16);
    assert_eq!(&written[0..2], &[0x00, 0x03]);
    assert_eq!(&written[12..16], &[0x00, 0x00, 0x00, 0x00]);
}

#[test]
fn test_send_command_params_not_multiple_of_four() {
    let mut mock_stream = MemStream::new(&[]);
    let config = SessionConfig::default();
    let result = send_command(
        &mut mock_stream,
        PtpOperationCode::GetDeviceInfo.as_u16(),
        0x12345678,
        &[0x01, 0x02, 0x03],
        &config,
    );
    assert!(result.is_err());
    assert!(mock_stream.written_data().is_empty());
}

#[test]
fn test_check_response_error_insufficient_payload() {
    let packet = response_packet(0, vec![0x00, 0x00, 0x00]);
    let result = check_response_error(&packet);
    assert!(matches!(result, Err(PtpIpError::ProtocolError(_))));
}

#[test]
fn test_check_response_error_device_errors() {
    for (code, desc) in [
        (0x2002u16, "General error"),
        (0x2003, "Session not open"),
        (0x2004, "Invalid transaction ID"),
        (0x2005, "Unsupported operation"),
        (0x2006, "Unsupported parameter"),
        (0x2007, "Incomplete transfer"),
        (0x2008, "Invalid storage ID"),
        (0x2009, "Invalid object handle"),
    ] {
        let mut payload = vec![0x00, 0x00];
        payload.extend_from_slice(&code.to_be_bytes());
        payload.extend_from_slice(&[0x00, 0x00, 0x00, 0x00]);
        let packet = response_packet(0, payload);
        let result = check_response_error(&packet);
        assert!(matches!(result, Err(PtpIpError::DeviceError { .. })));
        assert_eq!(response_error_message(code), desc);
    }
}

#[test]
fn test_check_response_error_unknown_code() {
    let mut payload = vec![0x00, 0x00, 0x20, 0x99];
    payload.extend_from_slice(&[0x00, 0x00, 0x00, 0x00]);
    let packet = response_packet(0, payload);
    let result = check_response_error(&packet);
    if let Err(PtpIpError::DeviceError { code, .. }) = result {
        assert_eq!(code, 0x2099);
    } else {
        panic!("expected DeviceError with code 0x2099");
    }
}

#[test]
fn unknown_response_code_text() {
    assert_eq!(response_error_message(0x2099), "Unknown error (0x2099)");
    assert_eq!(response_error_message(0x00ab), "Unknown error (0x00AB)");
}

#[test]
fn commands_test_parse_storage_ids_insufficient_data() {
    let data = [0u8; 8];
    let result = parse_storage_ids(&data);
    assert!(matches!(result, Err(PtpIpError::ProtocolError(_))));
}

#[test]
fn test_parse_storage_ids_insufficient_after_count() {
    let mut data = vec![0u8; 8];
    data.extend_from_slice(&1u32.to_be_bytes());
    data.push(0);
    let result = parse_storage_ids(&data);
    assert!(result.is_err());
}

#[test]
fn test_parse_object_handles_insufficient_data() {
    let data = [0u8; 8];
    let result = parse_object_handles(&data);
    assert!(matches!(result, Err(PtpIpError::ProtocolError(_))));
}

#[test]
fn test_parse_object_handles_insufficient_after_count() {
    let mut data = vec![0u8; 8];
    data.extend_from_slice(&1u32.to_be_bytes());
    data.push(0);
    let result = parse_object_handles(&data);
    assert!(result.is_err());
}

#[test]
fn test_parse_object_info_insufficient_data() {
    let data = [0u8; 60];
    let result = parse_object_info(&data, 1);
    assert!(matches!(result, Err(PtpIpError::ProtocolError(_))));
}

#[test]
fn test_parse_object_info_extract_string_out_of_bounds() {
    let mut data = vec![0u8; 64];
    data[28..32].copy_from_slice(&1000u32.to_be_bytes());
    data[32..36].copy_from_slice(&10u32.to_be_bytes());
    let result = parse_object_info(&data, 1);
    assert!(matches!(result, Err(PtpIpError::ProtocolError(_))));
}

#[test]
fn test_parse_event_packet_insufficient_data() {
    let packet = event_packet(0, vec![0x40, 0x01]);
    let result = parse_event_packet(&packet);
    assert!(matches!(result, Err(PtpIpError::ProtocolError(_))));
}

#[test]
fn test_parse_event_packet_unknown_event_type() {
    let mut data = vec![0x40, 0xFF, 0x00, 0x00];
    data.extend_from_slice(&0u32.to_be_bytes());
    let packet = event_packet(0, data);
    let result = parse_event_packet(&packet);
    assert!(matches!(result, Err(PtpIpError::ProtocolError(_))));
}

#[test]
fn test_parse_event_packet_insufficient_params() {
    let data = [0x40, 0x01, 0x00, 0x01, 0x00, 0x00];
    let packet = event_packet(0, data.to_vec());
    let result = parse_event_packet(&packet);
    assert!(result.is_err());
}

#[test]
fn test_parse_event_packet_all_event_types() {
    for (code, event_type) in [
        (0x4001u16, EventType::ObjectAdded),
        (0x4002, EventType::ObjectRemoved),
        (0x4003, EventType::StoreAdded),
        (0x4004, EventType::StoreRemoved),
        (0x4005, EventType::DevicePropChanged),
        (0x4006, EventType::RequestObjectTransfer),
    ] {
        let mut data = vec![];
        data.extend_from_slice(&code.to_be_bytes());
        data.extend_from_slice(&0u16.to_be_bytes());
        data.extend_from_slice(&[0u8; 2]);
        let packet = event_packet(1, data);
        let event = parse_event_packet(&packet).unwrap();
        assert_eq!(event.event_type, event_type);
        assert_eq!(event.transaction_id, 1);
    }
}

#[test]
fn test_extract_string_out_of_bounds() {
    let data = b"hello";
    let result = extract_string(data, 0, 10);
    assert!(matches!(result, Err(PtpIpError::ProtocolError(_))));
}

#[test]
fn test_extract_string_invalid_utf8() {
    let data = vec![0xFF, 0xFE, 0xFD];
    let result = extract_string(&data, 0, 3);
    assert!(matches!(result, Err(PtpIpError::StringEncoding(_))));
}

#[test]
fn test_extract_string_success_with_null() {
    let data = b"hello\0world";
    assert_eq!(extract_string(data, 0, 11).unwrap(), "hello");
}

#[test]
fn test_read_u8_be() {
    let data = [0xAB];
    let mut cursor = MemStream::new(&data);
    assert_eq!(read_u8_be(&mut cursor).unwrap(), 0xAB);
}

#[test]
fn test_read_u8_be_eof() {
    let mut cursor = MemStream::new(&[]);
    let result = read_u8_be(&mut cursor);
    assert!(result.is_err());
}

#[test]
fn test_get_temp_path() {
    let temp = get_temp_path("/tmp/photo.jpg");
    let name = Path::new(&temp).file_name().unwrap().to_str().unwrap().to_string();
    assert_eq!(name, ".photo.jpg.download");
    assert_eq!(temp, "/tmp/.photo.jpg.download");
}

#[test]
fn test_get_temp_path_no_filename() {
    let temp = get_temp_path(".");
    let name = Path::new(&temp)
        .file_name()
        .map(|n| n.to_string_lossy().into_owned())
        .unwrap_or_default();
    assert_eq!(name, ".download.tmp");
}

#[test]
fn test_get_resume_path() {
    let resume = get_resume_path("/tmp/photo.jpg");
    let name = Path::new(&resume).file_name().unwrap().to_str().unwrap().to_string();
    assert_eq!(name, ".photo.jpg.resume");
}

#[test]
fn test_get_resume_path_no_filename() {
    let resume = get_resume_path("/tmp/");
    assert!(resume.ends_with(".resume"));
}

#[test]
fn resume_record_roundtrip() {
    for offset in [0usize, 7, 512, 1024, 123456789] {
        let text = resume_record(offset);
        assert_eq!(text, offset.to_string());
        assert_eq!(parse_resume_offset(&text).unwrap(), offset);
    }
}

#[test]
fn parse_resume_offset_cases() {
    assert_eq!(parse_resume_offset("  512\n").unwrap(), 512);
    assert_eq!(parse_resume_offset("+42").unwrap(), 42);
    assert!(matches!(parse_resume_offset("not_a_number"), Err(PtpIpError::InvalidResumeData)));
    assert!(matches!(parse_resume_offset(""), Err(PtpIpError::InvalidResumeData)));
    assert!(matches!(parse_resume_offset("-1"), Err(PtpIpError::InvalidResumeData)));
    assert!(matches!(
        parse_resume_offset("99999999999999999999999"),
        Err(PtpIpError::InvalidResumeData)
    ));
    assert!(char_is_white_space('\u{3000}'));
    assert!(!char_is_white_space('x'));
}

#[test]
fn resume_plans() {
    assert!(target_complete(100, 100));
    assert!(!target_complete(99, 100));
    assert_eq!(resume_plan(100, 200, 1024), ResumePlan::Restart);
    assert_eq!(resume_plan(512, 512, 1024), ResumePlan::Resume(512));
    assert_eq!(resume_plan(1024, 1024, 1024), ResumePlan::Promote);
    assert_eq!(plan_offset(ResumePlan::Resume(512), 1024), 512);
    assert_eq!(plan_offset(ResumePlan::Promote, 1024), 1024);
    assert_eq!(plan_offset(ResumePlan::UseTarget, 1024), 1024);
    assert_eq!(plan_offset(ResumePlan::Fresh, 1024), 0);
    assert_eq!(plan_offset(ResumePlan::Restart, 1024), 0);
}

#[test]
fn chunk_sizes() {
    assert_eq!(next_chunk_size(10_000_000, 1024 * 1024, 64 * 1024), 1024 * 1024);
    assert_eq!(next_chunk_size(1000, 1024 * 1024, 64 * 1024), 1000);
    assert_eq!(next_chunk_size(100 * 1024, 1024 * 1024, 64 * 1024), 100 * 1024);
    assert_eq!(next_chunk_size(0, 1024, 64), 0);
    match incomplete_chunk(10, 4) {
        PtpIpError::ProtocolError(m) => {
            assert_eq!(m, "Incomplete chunk data: expected 10 bytes, received 4 bytes")
        }
        other => panic!("unexpected error {:?}", other),
    }
}

#[test]
fn operation_parameters() {
    assert_eq!(u32_param(0x01020304), vec![1, 2, 3, 4]);
    assert_eq!(
        object_handles_params(0xFFFFFFFF, 0x3801, 100),
        vec![0xFF, 0xFF, 0xFF, 0xFF, 0x38, 0x01, 0, 0, 0, 0, 0, 0, 0x00, 0x00, 0x00, 0x64]
    );
    assert_eq!(capture_params(0x00010001, 0x3801), vec![0x00, 0x01, 0x00, 0x01, 0x38, 0x01, 0, 0]);
    assert_eq!(
        partial_object_params(5, 0x100, 16),
        vec![0, 0, 0, 5, 0, 0, 0, 0, 0, 0, 1, 0, 0, 0, 0, 16]
    );
    assert!(matches!(capture_object_handle(&[0u8; 11]), Err(PtpIpError::ProtocolError(_))));
    let mut payload = vec![0u8; 8];
    payload.extend_from_slice(&[0, 0, 0, 42]);
    assert_eq!(capture_object_handle(&payload).unwrap(), 42);
}

#[test]
fn response_step_decisions() {
    let ok = response_packet(5, vec![0, 0, 0x20, 0x01, 0, 0, 0, 0]);
    assert!(response_step(ok, 6).is_none());
    let ok = response_packet(5, vec![0, 0, 0x20, 0x01, 0, 0, 0, 0]);
    assert!(matches!(response_step(ok, 5), Some(Ok(_))));
    let bad = response_packet(5, vec![0, 0, 0x20, 0x02, 0, 0, 0, 0]);
    assert!(matches!(response_step(bad, 5), Some(Err(PtpIpError::DeviceError { .. }))));
}

fn data_block(tid: u32, payload: &[u8]) -> Vec<u8> {
    let mut v = vec![0x00, 0x04, 0x00, 0x00];
    v.extend_from_slice(&tid.to_be_bytes());
    v.extend_from_slice(&(payload.len() as u32).to_be_bytes());
    v.extend_from_slice(payload);
    v
}

#[test]
fn receive_data_blocks_until_empty() {
    let mut data = data_block(3, &[1, 2]);
    data.extend(data_block(9, &[7, 7]));
    data.extend(data_block(3, &[3]));
    data.extend(data_block(3, &[]));
    let mut stream = MemStream::new(&data);
    let config = SessionConfig::default();
    assert_eq!(receive_data_block(&mut stream, 3, &config).unwrap(), vec![1, 2, 3]);
}

#[test]
fn partial_object_sends_command_and_collects_data() {
    let mut data = data_block(0x42, &[5, 6, 7]);
    data.extend(data_block(0x42, &[]));
    let mut stream = MemStream::new(&data);
    let config = SessionConfig::default();
    let got = get_partial_object_in(&mut stream, 1, 2, 3, 0x42, &config).unwrap();
    assert_eq!(got, vec![5, 6, 7]);
    let expected = [
        0x00, 0x03, 0x00, 0x00, 0x00, 0x00, 0x00, 0x42, 0x00, 0x00, 0x10, 0x1B, 0x00, 0x00, 0x00,
        0x04, 0x00, 0x00, 0x00, 0x01, 0x00, 0x00, 0x00, 0x00, 0x00, 0x00, 0x00, 0x02, 0x00, 0x00,
        0x00, 0x03,
    ];
    assert_eq!(stream.written_data(), &expected);
}

#[test]
fn chunk_accounting() {
    let mut stats = DownloadStats::default();
    assert_eq!(accept_chunk(&mut stats, 100, 50, 50).unwrap(), 150);
    assert_eq!(stats.downloaded_bytes, 150);
    assert_eq!(stats.chunks, 1);
    match accept_chunk(&mut stats, 150, 50, 20) {
        Err(PtpIpError::ProtocolError(m)) => {
            assert_eq!(m, "Incomplete chunk data: expected 50 bytes, received 20 bytes")
        }
        other => panic!("unexpected result {:?}", other),
    }
    assert_eq!(stats.downloaded_bytes, 150);
    assert_eq!(stats.chunks, 1);
    assert!(note_chunk_failure(&mut stats, 1, 3));
    assert!(note_chunk_failure(&mut stats, 3, 3));
    assert!(!note_chunk_failure(&mut stats, 4, 3));
    assert_eq!(stats.retries, 3);
}

#[test]
fn event_listener_decisions() {
    let good = event_packet(4, vec![0x40, 0x02, 0x00, 0x01, 0x00, 0x00, 0x00, 0x07]);
    match event_listen_step(Ok(good)) {
        ListenAction::Deliver(ev) => {
            assert_eq!(ev.event_type, EventType::ObjectRemoved);
            assert_eq!(ev.transaction_id, 4);
            assert_eq!(ev.parameters, vec![7]);
        }
        other => panic!("unexpected action {:?}", other),
    }
    let unknown = event_packet(4, vec![0x40, 0xFF, 0x00, 0x00, 0x00, 0x00]);
    assert!(matches!(event_listen_step(Ok(unknown)), ListenAction::Skip));
    assert!(matches!(event_listen_step(Err(PtpIpError::Timeout)), ListenAction::Skip));
    assert!(matches!(
        event_listen_step(Err(PtpIpError::ProtocolError("x".to_string()))),
        ListenAction::Stop
    ));
}

#[test]
fn chunked_download_ends_at_total() {
    for (start, total, chunk, min) in [
        (0usize, 10_000_000usize, 1024 * 1024, 64 * 1024),
        (512, 1024, 1024 * 1024, 64 * 1024),
        (0, 7, 3, 0),
        (5, 5, 3, 0),
        (0, 1000, 1, 2000),
    ] {
        let mut stats = DownloadStats::default();
        let mut offset = start;
        while offset < total {
            let size = next_chunk_size(total - offset, chunk, min);
            assert!(size > 0 && size <= total - offset);
            offset = accept_chunk(&mut stats, offset, size, size).unwrap();
        }
        assert_eq!(offset, total);
    }
}

#[test]
fn parameters_read_back_as_built() {
    let values = [0x00000001u32, 0xDEADBEEF, 0x7F000001];
    let mut params = Vec::new();
    for v in values {
        params.extend(u32_param(v));
    }
    let mut sent = MemStream::new(&[]);
    let config = SessionConfig::default();
    send_command(&mut sent, 0x1007, 9, &params, &config).unwrap();
    let command = PtpCommand::new(0x1007, &values);
    let mut expected = vec![0x00, 0x03, 0x00, 0x00, 0x00, 0x00, 0x00, 0x09];
    expected.extend(command.to_bytes());
    assert_eq!(sent.written_data(), &expected[..]);
}

#[test]
fn resume_decisions() {
    // A complete target is used as it is.
    assert_eq!(resume_decision(100, Some(100), Some(("7", 7))).unwrap(), ResumePlan::UseTarget);
    // No record: start fresh, also beside an incomplete target.
    assert_eq!(resume_decision(100, None, None).unwrap(), ResumePlan::Fresh);
    assert_eq!(resume_decision(100, Some(40), None).unwrap(), ResumePlan::Fresh);
    // A record is planned against the partial file.
    assert_eq!(resume_decision(1024, None, Some(("512", 512))).unwrap(), ResumePlan::Resume(512));
    assert_eq!(resume_decision(1024, None, Some(("100", 200))).unwrap(), ResumePlan::Restart);
    assert_eq!(resume_decision(1024, None, Some(("1024\n", 1024))).unwrap(), ResumePlan::Promote);
    assert!(matches!(
        resume_decision(1024, None, Some(("not_a_number", 100))),
        Err(PtpIpError::InvalidResumeData)
    ));
}
