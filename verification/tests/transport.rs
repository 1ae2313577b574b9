use ptpip_core::error::{IoError, IoErrorKind, PtpIpError};
use ptpip_core::stream::MemStream;
use ptpip_core::transport::{
    encode_packet, extract_string, parse_device_info, parse_storage_info, recv_packet,
    recv_packet_filtered, retry_allowed, send_failure, send_packet, timeout_exceeded,
    type_filter_passes,
    PacketReceiver, PtpIpHeader, RecvAction,
};
use ptpip_core::types::{PtpIpMessageType, PtpIpPacket, SessionConfig};

fn command_packet_with(payload: Vec<u8>) -> PtpIpPacket {
    PtpIpPacket {
        message_type: PtpIpMessageType::CommandBlock,
        transaction_id: 0x12345678,
        payload,
    }
}

#[test]
fn test_ptp_ip_header_from_stream() {
    let data = b"\x00\x03\x00\x00\x12\x34\x56\x78";
    let mut stream = MemStream::new(data);
    let header = PtpIpHeader::from_stream(&mut stream, None).unwrap();
    assert_eq!(header.message_type, 0x0003);
    assert_eq!(header.reserved, 0x0000);
    assert_eq!(header.transaction_id, 0x12345678);
    assert_eq!(header.payload_length, 0);

    let data = b"\x00\x04\x00\x00\x87\x65\x43\x21\x00\x00\x00\x0A";
    let mut stream = MemStream::new(data);
    let header = PtpIpHeader::from_stream(&mut stream, None).unwrap();
    assert_eq!(header.message_type, 0x0004);
    assert_eq!(header.transaction_id, 0x87654321);
    assert_eq!(header.payload_length, 0x0000000A);
}

#[test]
fn test_ptp_ip_header_to_bytes() {
    let header = PtpIpHeader {
        message_type: 0x0005,
        reserved: 0x0000,
        transaction_id: 0x11223344,
        payload_length: 0,
    };
    assert_eq!(header.to_bytes(), b"\x00\x05\x00\x00\x11\x22\x33\x44");

    let header = PtpIpHeader {
        message_type: 0x0004,
        reserved: 0x0000,
        transaction_id: 0x44332211,
        payload_length: 0x00000005,
    };
    assert_eq!(header.to_bytes(), b"\x00\x04\x00\x00\x44\x33\x22\x11\x00\x00\x00\x05");
}

#[test]
fn test_send_packet() {
    let mut mock_stream = MemStream::new(&[]);
    let packet = command_packet_with(vec![0x01, 0x02, 0x03]);
    send_packet(&mut mock_stream, &packet).unwrap();
    let expected = b"\x00\x03\x00\x00\x12\x34\x56\x78\x01\x02\x03";
    assert_eq!(mock_stream.written_data(), expected);
}

#[test]
fn test_recv_packet() {
    let data = b"\x00\x05\x00\x00\x12\x34\x56\x78\x00\x00\x00\x08\x00\x00\x00\x00";
    let mut mock_stream = MemStream::new(data);
    let packet = recv_packet(&mut mock_stream).unwrap();
    assert_eq!(packet.message_type, PtpIpMessageType::ResponseBlock);
    assert_eq!(packet.transaction_id, 0x12345678);
    assert_eq!(packet.payload, b"\x00\x00\x00\x00");

    let data = b"\x00\x04\x00\x00\x87\x65\x43\x21\x00\x00\x00\x05\x01\x02\x03\x04\x05";
    let mut mock_stream = MemStream::new(data);
    let packet = recv_packet(&mut mock_stream).unwrap();
    assert_eq!(packet.message_type, PtpIpMessageType::DataBlock);
    assert_eq!(packet.transaction_id, 0x87654321);
    assert_eq!(packet.payload, b"\x01\x02\x03\x04\x05");
}

fn device_info_data() -> Vec<u8> {
    let manuf_off = 46usize;
    let manuf_len = 11usize;
    let model_off = 57usize;
    let model_len = 5usize;
    let version_off = 62usize;
    let version_len = 5usize;
    let serial_off = 67usize;
    let serial_len = 12usize;
    let mut data = vec![0u8; 8];
    data.extend_from_slice(&(manuf_off as u32).to_be_bytes());
    data.extend_from_slice(&(manuf_len as u32).to_be_bytes());
    data.extend_from_slice(&(model_off as u32).to_be_bytes());
    data.extend_from_slice(&(model_len as u32).to_be_bytes());
    data.extend_from_slice(&(version_off as u32).to_be_bytes());
    data.extend_from_slice(&(version_len as u32).to_be_bytes());
    data.extend_from_slice(&(serial_off as u32).to_be_bytes());
    data.extend_from_slice(&(serial_len as u32).to_be_bytes());
    data.extend_from_slice(&2u16.to_be_bytes());
    data.extend_from_slice(&0x1001u16.to_be_bytes());
    data.extend_from_slice(&0x1002u16.to_be_bytes());
    while data.len() < manuf_off {
        data.push(0);
    }
    data.extend_from_slice(b"Manufacturer");
    while data.len() < model_off {
        data.push(0);
    }
    data.extend_from_slice(b"Model");
    while data.len() < version_off {
        data.push(0);
    }
    data.extend_from_slice(b"1.0.0");
    while data.len() < serial_off {
        data.push(0);
    }
    data.extend_from_slice(b"SN1234567890");
    data
}

#[test]
fn test_parse_device_info() {
    let data = device_info_data();
    let device_info = parse_device_info(&data).unwrap();
    assert_eq!(device_info.supported_operations.len(), 2);
    assert!(device_info.supported_operations.contains(&0x1001));
    assert!(device_info.supported_operations.contains(&0x1002));
    assert!(!device_info.manufacturer.is_empty());
    assert!(!device_info.model.is_empty());
}

#[test]
fn parse_device_info_exact_fields() {
    // Each string field is cut to its declared length.
    let data = device_info_data();
    let device_info = parse_device_info(&data).unwrap();
    // The declared fields overlap the strings written after them.
    assert_eq!(device_info.manufacturer, "Manufacture");
    assert_eq!(device_info.model, "rMode");
    assert_eq!(device_info.device_version, "l1.0.");
    assert_eq!(device_info.serial_number, "0SN123456789");
    assert_eq!(device_info.supported_operations, vec![0x1001, 0x1002]);
}

#[test]
fn test_parse_storage_info() {
    let desc_off = 54usize;
    let desc_len = 16usize;
    let label_off = 70usize;
    let label_len = 7usize;
    let mut data = vec![0u8; 8];
    data.extend_from_slice(&1u32.to_be_bytes());
    data.extend_from_slice(&1u16.to_be_bytes());
    data.extend_from_slice(&2u16.to_be_bytes());
    data.extend_from_slice(&3u16.to_be_bytes());
    data.extend_from_slice(&65536u64.to_be_bytes());
    data.extend_from_slice(&32768u64.to_be_bytes());
    data.extend_from_slice(&100u32.to_be_bytes());
    data.extend_from_slice(&(desc_off as u32).to_be_bytes());
    data.extend_from_slice(&(desc_len as u32).to_be_bytes());
    data.extend_from_slice(&(label_off as u32).to_be_bytes());
    data.extend_from_slice(&(label_len as u32).to_be_bytes());
    while data.len() < desc_off {
        data.push(0);
    }
    data.extend_from_slice(b"Internal Storage");
    while data.len() < label_off {
        data.push(0);
    }
    data.extend_from_slice(b"SD Card");

    let storage_info = parse_storage_info(&data).unwrap();
    assert_eq!(storage_info.storage_id, 1);
    assert_eq!(storage_info.storage_type, 1);
    assert_eq!(storage_info.filesystem_type, 2);
    assert_eq!(storage_info.access_capability, 3);
    assert_eq!(storage_info.max_capacity, 65536);
    assert_eq!(storage_info.free_space_in_bytes, 32768);
    assert_eq!(storage_info.free_space_in_objects, 100);
    assert_eq!(storage_info.storage_description, "Internal Storage");
    assert_eq!(storage_info.volume_label, "SD Card");
}

#[test]
fn test_extract_string() {
    let data = b"Hello\0World\0Test";
    assert_eq!(extract_string(data, 0, 5).unwrap(), "Hello");
    assert_eq!(extract_string(data, 6, 5).unwrap(), "World");
    assert_eq!(extract_string(data, 12, 4).unwrap(), "Test");
    let result = extract_string(data, 20, 5);
    assert!(result.is_err());
}

#[test]
fn extract_string_error_text() {
    let data = b"Hello\0World\0Test";
    match extract_string(data, 20, 5) {
        Err(PtpIpError::ProtocolError(m)) => assert_eq!(
            m,
            "String extraction out of bounds: offset=20, length=5, data length=16"
        ),
        other => panic!("unexpected result {:?}", other),
    }
}

#[test]
fn test_parse_device_info_insufficient_data() {
    let data = [0u8; 20];
    let result = parse_device_info(&data);
    assert!(matches!(result, Err(PtpIpError::ProtocolError(_))));
}

#[test]
fn test_parse_storage_info_insufficient_data() {
    let data = [0u8; 30];
    let result = parse_storage_info(&data);
    assert!(matches!(result, Err(PtpIpError::ProtocolError(_))));
}

#[test]
fn test_recv_packet_unknown_message_type() {
    let data = b"\x00\x01\x00\x00\x12\x34\x56\x78";
    let mut stream = MemStream::new(data);
    let result = recv_packet(&mut stream);
    assert!(matches!(result, Err(PtpIpError::ProtocolError(_))));
}

#[test]
fn recv_packet_truncated_is_io_error() {
    let data = b"\x00\x05\x00";
    let mut stream = MemStream::new(data);
    match recv_packet(&mut stream) {
        Err(PtpIpError::Io(e)) => assert_eq!(e.kind, IoErrorKind::UnexpectedEof),
        other => panic!("unexpected result {:?}", other),
    }
}

#[test]
fn test_ptp_ip_header_from_stream_with_message_type() {
    let data = b"\x00\x00\x12\x34\x56\x78";
    let mut stream = MemStream::new(data);
    let header = PtpIpHeader::from_stream(&mut stream, Some(0x0003)).unwrap();
    assert_eq!(header.message_type, 0x0003);
    assert_eq!(header.reserved, 0x0000);
    assert_eq!(header.transaction_id, 0x12345678);
    assert_eq!(header.payload_length, 0);
}

#[test]
fn test_send_packet_empty_payload() {
    let mut mock_stream = MemStream::new(&[]);
    let packet = command_packet_with(vec![]);
    send_packet(&mut mock_stream, &packet).unwrap();
    assert_eq!(mock_stream.written_data(), b"\x00\x03\x00\x00\x12\x34\x56\x78");
}

#[test]
fn test_recv_packet_filtered_type_mismatch() {
    let mut data = vec![];
    data.extend_from_slice(b"\x00\x03\x00\x00\x12\x34\x56\x78");
    data.extend_from_slice(b"\x00\x05\x00\x00\x12\x34\x56\x78\x00\x00\x00\x08\x00\x00\x00\x00");
    let mut stream = MemStream::new(&data);
    let config = SessionConfig::default();
    let packet =
        recv_packet_filtered(&mut stream, Some(PtpIpMessageType::ResponseBlock), &config).unwrap();
    assert_eq!(packet.message_type, PtpIpMessageType::ResponseBlock);
}

#[test]
fn data_block_roundtrip_through_stream() {
    let packet = PtpIpPacket {
        message_type: PtpIpMessageType::DataBlock,
        transaction_id: 7,
        payload: vec![9, 8, 7],
    };
    let mut out = MemStream::new(&[]);
    send_packet(&mut out, &packet).unwrap();
    let mut back = MemStream::new(out.written_data());
    let received = recv_packet(&mut back).unwrap();
    assert_eq!(received.message_type, PtpIpMessageType::DataBlock);
    assert_eq!(received.transaction_id, 7);
    assert_eq!(received.payload, vec![9, 8, 7]);
}

#[test]
fn encode_packet_matches_send() {
    let packet = command_packet_with(vec![1, 2]);
    let mut out = MemStream::new(&[]);
    send_packet(&mut out, &packet).unwrap();
    assert_eq!(encode_packet(&packet), out.written_data().to_vec());
}

#[test]
fn receiver_reads_response_in_pieces() {
    let data = b"\x00\x05\x00\x00\x12\x34\x56\x78\x00\x00\x00\x08\xAA\xBB\xCC\xDD";
    let mut stream = MemStream::new(data);
    let mut rx = PacketReceiver::new();
    let mut reads = 0;
    let packet = loop {
        let n = rx.pending_read();
        let chunk = stream.read_exact(n);
        reads += 1;
        match rx.feed(chunk) {
            RecvAction::Read(_) => continue,
            RecvAction::Complete(p) => break p,
            RecvAction::Fail(e) => panic!("receive failed: {:?}", e),
        }
    };
    assert_eq!(reads, 4);
    assert_eq!(packet.message_type, PtpIpMessageType::ResponseBlock);
    assert_eq!(packet.transaction_id, 0x12345678);
    assert_eq!(packet.payload, vec![0xAA, 0xBB, 0xCC, 0xDD]);
}

#[test]
fn receiver_fails_on_read_error() {
    let mut rx = PacketReceiver::new();
    let err = IoError { kind: IoErrorKind::TimedOut, message: "slow".to_string() };
    assert!(matches!(rx.feed(Err(err)), RecvAction::Fail(PtpIpError::Timeout)));
    let mut rx = PacketReceiver::new();
    let err = IoError { kind: IoErrorKind::ConnectionReset, message: "reset".to_string() };
    match rx.feed(Err(err)) {
        RecvAction::Fail(PtpIpError::Io(e)) => assert_eq!(e.kind, IoErrorKind::ConnectionReset),
        other => panic!("unexpected action {:?}", other),
    }
}

#[test]
fn type_filter_and_retry_decisions() {
    let packet = command_packet_with(vec![]);
    assert!(type_filter_passes(None, &packet));
    assert!(type_filter_passes(Some(PtpIpMessageType::CommandBlock), &packet));
    assert!(!type_filter_passes(Some(PtpIpMessageType::ResponseBlock), &packet));
    assert!(retry_allowed(3, 3));
    assert!(!retry_allowed(4, 3));
    let cause = PtpIpError::Timeout;
    match send_failure(3, &cause) {
        PtpIpError::Other(m) => {
            assert_eq!(m, "Failed to send packet after 3 retries: Operation timed out")
        }
        other => panic!("unexpected error {:?}", other),
    }
}

fn receive_in_pieces(data: &[u8]) -> (Result<PtpIpPacket, PtpIpError>, Vec<u8>) {
    let mut stream = MemStream::new(data);
    let mut rx = PacketReceiver::new();
    loop {
        let n = rx.pending_read();
        let chunk = stream.read_exact(n);
        match rx.feed(chunk) {
            RecvAction::Read(_) => continue,
            RecvAction::Complete(p) => return (Ok(p), rest_of(stream, data)),
            RecvAction::Fail(e) => return (Err(e), rest_of(stream, data)),
        }
    }
}

fn rest_of(mut stream: MemStream, data: &[u8]) -> Vec<u8> {
    let mut rest = Vec::new();
    for _ in 0..data.len() {
        match stream.read_exact(1) {
            Ok(b) => rest.extend(b),
            Err(_) => break,
        }
    }
    rest
}

#[test]
fn receiver_agrees_with_recv_packet() {
    let inputs: Vec<Vec<u8>> = vec![
        b"\x00\x05\x00\x00\x12\x34\x56\x78\x00\x00\x00\x08\x00\x00\x00\x00\xFF".to_vec(),
        b"\x00\x04\x00\x00\x87\x65\x43\x21\x00\x00\x00\x02\x01\x02\x03".to_vec(),
        b"\x00\x04\x00\x00\x87\x65\x43\x21\x00\x00\x00\x00\x09".to_vec(),
        b"\x00\x03\x00\x00\x00\x00\x00\x01\x01\x02".to_vec(),
        b"\x00\x06\x00\x00\x00\x00\x00\x01".to_vec(),
        b"\x00\x05\x00\x00\x00\x00\x00\x01\x00\x00".to_vec(),
        b"\x00\x05\x00\x00\x00\x00\x00\x01\x00\x00\x00\x03\x07".to_vec(),
        b"\x00\x05\x00\x00\x00\x00\x00\x01\x00\x00\x00\x09\x07".to_vec(),
        b"\x00\x09\x00\x00\x00\x00\x00\x01\x05".to_vec(),
        b"\x00\x04\x00".to_vec(),
        vec![],
    ];
    for data in inputs {
        let (a, rest_a) = receive_in_pieces(&data);
        let mut stream = MemStream::new(&data);
        let b = recv_packet(&mut stream);
        let rest_b = rest_of(stream, &data);
        assert_eq!(format!("{:?}", a), format!("{:?}", b), "input {:?}", data);
        assert_eq!(rest_a, rest_b, "input {:?}", data);
    }
}

#[test]
fn timeout_decision() {
    assert!(!timeout_exceeded(30_000_000_000, 30));
    assert!(timeout_exceeded(30_000_000_001, 30));
    assert!(timeout_exceeded(1, 0));
    assert!(!timeout_exceeded(0, 0));
}
