use ptpip_core::stream::MemStream;
use ptpip_core::utils::{
    bytes_to_hex, checksum, chunk_vector, duration_ms, read_u16_be, read_u32_be, read_u64_be,
    write_u16_be, write_u32_be, write_u64_be, get_timestamp, timestamp_from,
};

#[test]
fn test_read_u16_be() {
    let data = [0x12, 0x34];
    let mut cursor = MemStream::new(&data);
    assert_eq!(read_u16_be(&mut cursor).unwrap(), 0x1234);
}

#[test]
fn test_read_u32_be() {
    let data = [0x12, 0x34, 0x56, 0x78];
    let mut cursor = MemStream::new(&data);
    assert_eq!(read_u32_be(&mut cursor).unwrap(), 0x12345678);
}

#[test]
fn test_read_u64_be() {
    let data = [0x12, 0x34, 0x56, 0x78, 0x9A, 0xBC, 0xDE, 0xF0];
    let mut cursor = MemStream::new(&data);
    assert_eq!(read_u64_be(&mut cursor).unwrap(), 0x123456789ABCDEF0);
}

#[test]
fn test_write_u16_be() {
    assert_eq!(write_u16_be(0x1234), [0x12, 0x34]);
}

#[test]
fn test_write_u32_be() {
    assert_eq!(write_u32_be(0x12345678), [0x12, 0x34, 0x56, 0x78]);
}

#[test]
fn test_write_u64_be() {
    assert_eq!(
        write_u64_be(0x123456789ABCDEF0),
        [0x12, 0x34, 0x56, 0x78, 0x9A, 0xBC, 0xDE, 0xF0]
    );
}

#[test]
fn write_then_read_gives_the_value_back() {
    for v in [0u64, 1, 0xFF, 0x1234_5678_9ABC_DEF0, u64::MAX] {
        let bytes = write_u64_be(v);
        let mut s = MemStream::new(&bytes);
        assert_eq!(read_u64_be(&mut s).unwrap(), v);
    }
    for v in [0u32, 0x8000_0001, u32::MAX] {
        let bytes = write_u32_be(v);
        let mut s = MemStream::new(&bytes);
        assert_eq!(read_u32_be(&mut s).unwrap(), v);
    }
    for v in [0u16, 0x00FF, 0xFF00, u16::MAX] {
        let bytes = write_u16_be(v);
        let mut s = MemStream::new(&bytes);
        assert_eq!(read_u16_be(&mut s).unwrap(), v);
    }
}

#[test]
fn test_checksum() {
    let data = [0x01, 0x02, 0x03, 0x04];
    assert_eq!(checksum(&data), 0x000A);

    let data = [0xFF, 0xFF];
    assert_eq!(checksum(&data), 0x01FE);
}

#[test]
fn checksum_wraps_at_0x10000() {
    let data = vec![0xFFu8; 300];
    assert_eq!(checksum(&data), ((300u32 * 255) % 0x10000) as u16);
    assert_eq!(checksum(&[]), 0);
}

#[test]
fn test_bytes_to_hex() {
    let data = [0x01, 0x02, 0x03, 0x04, 0x05];
    assert_eq!(bytes_to_hex(&data), "01 02 03 04 05");

    let mut long_data = vec![0u8; 200];
    for i in 0..200 {
        long_data[i] = i as u8;
    }
    let hex = bytes_to_hex(&long_data);
    assert!(hex.contains("... [136 bytes omitted] ..."));
}

#[test]
fn bytes_to_hex_exact_forms() {
    assert_eq!(bytes_to_hex(&[]), "");
    assert_eq!(bytes_to_hex(&[0xAB, 0x0F]), "AB 0F");
    let data: Vec<u8> = (0..129u32).map(|i| i as u8).collect();
    let hex = bytes_to_hex(&data);
    let head: Vec<String> = (0..32).map(|i| format!("{:02X}", i)).collect();
    let tail: Vec<String> = (97..129).map(|i| format!("{:02X}", i)).collect();
    assert_eq!(
        hex,
        format!("{} ... [65 bytes omitted] ... {}", head.join(" "), tail.join(" "))
    );
    let exactly_128 = vec![0x7Fu8; 128];
    assert_eq!(bytes_to_hex(&exactly_128).len(), 128 * 3 - 1);
}

#[test]
fn test_duration_ms() {
    assert_eq!(duration_ms(100, 200), 100);
    assert_eq!(duration_ms(200, 100), 0);
    assert_eq!(duration_ms(500, 500), 0);
}

#[test]
fn utils_test_chunk_vector() {
    let data = vec![1, 2, 3, 4, 5, 6, 7];
    let chunks = chunk_vector(&data, 3);
    assert_eq!(chunks, vec![vec![1, 2, 3], vec![4, 5, 6], vec![7]]);

    let data: Vec<i32> = vec![];
    let chunks = chunk_vector(&data, 3);
    assert!(chunks.is_empty());

    let data = vec![1, 2, 3];
    let chunks = chunk_vector(&data, 5);
    assert_eq!(chunks, vec![vec![1, 2, 3]]);
}

#[test]
fn test_read_u16_be_eof() {
    let data = [0x12];
    let mut cursor = MemStream::new(&data);
    let result = read_u16_be(&mut cursor);
    assert!(result.is_err());
}

#[test]
fn test_read_u32_be_eof() {
    let data = [0x12, 0x34];
    let mut cursor = MemStream::new(&data);
    let result = read_u32_be(&mut cursor);
    assert!(result.is_err());
}

#[test]
fn test_read_u64_be_eof() {
    let data = [0x12, 0x34, 0x56];
    let mut cursor = MemStream::new(&data);
    let result = read_u64_be(&mut cursor);
    assert!(result.is_err());
}

#[test]
fn reads_advance_through_the_stream() {
    let data = [0x00, 0x01, 0x00, 0x00, 0x00, 0x02, 0x09];
    let mut s = MemStream::new(&data);
    assert_eq!(read_u16_be(&mut s).unwrap(), 1);
    assert_eq!(read_u32_be(&mut s).unwrap(), 2);
    assert!(read_u16_be(&mut s).is_err());
    assert!(read_u16_be(&mut s).is_err());
}

#[test]
fn timestamp_is_after_2020() {
    // 2020-01-01T00:00:00Z in milliseconds.
    assert!(get_timestamp() > 1_577_836_800_000);
}

#[test]
fn timestamp_from_clock_readings() {
    assert_eq!(timestamp_from(None), 0);
    assert_eq!(timestamp_from(Some(1_700_000_000_123)), 1_700_000_000_123);
    assert_eq!(timestamp_from(Some((1u128 << 64) + 5)), 5);
}
