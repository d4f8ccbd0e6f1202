use rman_wad::wad::{compression_from_u8, content, header, parse};
use rman_wad::wad::{CompressionType, ContentVersion, HeaderVersion};
use rman_wad::DecodeError;

fn push_u16(out: &mut Vec<u8>, x: u16) {
    out.extend_from_slice(&x.to_le_bytes());
}

fn push_u32(out: &mut Vec<u8>, x: u32) {
    out.extend_from_slice(&x.to_le_bytes());
}

fn push_u64(out: &mut Vec<u8>, x: u64) {
    out.extend_from_slice(&x.to_le_bytes());
}

/// A major-1 archive: header fields at 4, one 24-byte record at 12.
fn wad_v1_bytes(compression_word: u32) -> Vec<u8> {
    let mut buf: Vec<u8> = Vec::new();
    buf.extend_from_slice(b"RW");
    buf.push(1); // major
    buf.push(0); // minor
    push_u16(&mut buf, 0x0100); // entry offset
    push_u16(&mut buf, 0x0018); // entry size
    push_u32(&mut buf, 1); // file count
    // record 0 at byte 12
    push_u64(&mut buf, 0x1122_3344_5566_7788); // hash
    push_u32(&mut buf, 0x100); // data offset
    push_u32(&mut buf, 10); // compressed size
    push_u32(&mut buf, 20); // uncompressed size
    push_u32(&mut buf, compression_word); // compression as u32 for major 1
    buf
}

#[test]
fn v1_scenario_header_and_single_record() {
    let buf = wad_v1_bytes(0);
    let f = parse(&buf).unwrap();
    assert_eq!(f.header.major, 1);
    assert_eq!(f.header.minor, 0);
    assert_eq!(f.header.file_count, 1);
    assert_eq!(
        f.header.version,
        HeaderVersion::V1 { entry_offset: 256, entry_size: 24 }
    );
    assert_eq!(f.content.len(), 1);
    // the record is read starting at byte 12
    assert_eq!(f.content[0].hash, 0x1122_3344_5566_7788);
    assert_eq!(f.content[0].data_offset, 0x100);
    assert_eq!(f.content[0].compressed_size, 10);
    assert_eq!(f.content[0].uncompressed_size, 20);
    assert_eq!(f.content[0].compression_type, CompressionType::NONE);
    assert_eq!(f.content[0].version, ContentVersion::V1 {});
}

#[test]
fn v1_compression_word_uses_low_byte() {
    // a major-1 compression field is a u32; only its low byte selects
    let buf = wad_v1_bytes(0x0000_0103);
    let f = parse(&buf).unwrap();
    assert_eq!(f.content[0].compression_type, CompressionType::ZSTD);
}

#[test]
fn compression_byte_three_is_zstd_four_is_rejected() {
    assert_eq!(compression_from_u8(0), Ok(CompressionType::NONE));
    assert_eq!(compression_from_u8(1), Ok(CompressionType::GZIP));
    assert_eq!(compression_from_u8(2), Ok(CompressionType::REFERENCE));
    assert_eq!(compression_from_u8(3), Ok(CompressionType::ZSTD));
    assert_eq!(
        compression_from_u8(4),
        Err(DecodeError::UnsupportedVersion { value: 4 })
    );
    assert_eq!(
        compression_from_u8(255),
        Err(DecodeError::UnsupportedVersion { value: 255 })
    );
}

#[test]
fn out_of_range_compression_fails_whole_decode() {
    let buf = wad_v1_bytes(4);
    assert_eq!(parse(&buf), Err(DecodeError::UnsupportedVersion { value: 4 }));
}

#[test]
fn v2_header_and_record_at_100() {
    let mut buf: Vec<u8> = Vec::new();
    buf.extend_from_slice(b"RW");
    buf.push(2); // major
    buf.push(7); // minor
    buf.push(3); // ecdsa length at 4
    buf.extend_from_slice(&[9, 8, 7]); // signature prefix at 5
    while buf.len() < 88 {
        buf.push(0); // rest of the 83-byte padded region
    }
    push_u64(&mut buf, 0xaaaa_bbbb_cccc_dddd); // file checksum at 88
    push_u16(&mut buf, 0x0200); // entry offset at 96
    push_u16(&mut buf, 0x0020); // entry size at 98
    // record 0 starts at byte 100; its hash's low four bytes double as
    // the file count at 100
    push_u32(&mut buf, 1); // file count / low half of hash
    push_u32(&mut buf, 0x5555_6666); // high half of hash
    push_u32(&mut buf, 0x300); // data offset at 108
    push_u32(&mut buf, 11); // compressed size
    push_u32(&mut buf, 22); // uncompressed size
    buf.push(2); // compression byte at 120
    buf.push(1); // duplicate flag at 121
    push_u16(&mut buf, 0); // skipped bytes at 122
    push_u64(&mut buf, 0x9999_0000_1111_2222); // sha256 at 124
    let f = parse(&buf).unwrap();
    assert_eq!(f.header.major, 2);
    assert_eq!(f.header.minor, 7);
    assert_eq!(f.header.file_count, 1);
    assert_eq!(
        f.header.version,
        HeaderVersion::V2 {
            ecdsa: vec![9, 8, 7],
            file_checksum: 0xaaaa_bbbb_cccc_dddd,
            entry_offset: 0x0200,
            entry_size: 0x0020,
        }
    );
    assert_eq!(f.content.len(), 1);
    assert_eq!(f.content[0].hash, 0x5555_6666_0000_0001);
    assert_eq!(f.content[0].data_offset, 0x300);
    assert_eq!(f.content[0].compression_type, CompressionType::REFERENCE);
    assert_eq!(
        f.content[0].version,
        ContentVersion::V2 { is_duplicate: true, sha256: 0x9999_0000_1111_2222 }
    );
}

#[test]
fn v3_header_and_record_at_268() {
    let mut buf: Vec<u8> = Vec::new();
    buf.extend_from_slice(b"RW");
    buf.push(3); // major
    buf.push(1); // minor
    for i in 0..256u32 {
        buf.push((i % 251) as u8); // fixed 256-byte ecdsa blob at 4
    }
    push_u64(&mut buf, 0x1234_5678_9abc_def0); // file checksum at 260
    // record 0 starts at byte 268; its hash's low four bytes double as
    // the file count at 268
    push_u32(&mut buf, 1); // file count / low half of hash
    push_u32(&mut buf, 0x7777_8888); // high half of hash
    push_u32(&mut buf, 0x400); // data offset
    push_u32(&mut buf, 33); // compressed size
    push_u32(&mut buf, 44); // uncompressed size
    buf.push(1); // compression byte: GZIP
    buf.push(0); // duplicate flag
    push_u16(&mut buf, 0);
    push_u64(&mut buf, 5);
    let f = parse(&buf).unwrap();
    assert_eq!(f.header.major, 3);
    assert_eq!(f.header.file_count, 1);
    let expected_ecdsa: Vec<u8> = (0..256u32).map(|i| (i % 251) as u8).collect();
    assert_eq!(
        f.header.version,
        HeaderVersion::V3 { ecdsa: expected_ecdsa, file_checksum: 0x1234_5678_9abc_def0 }
    );
    assert_eq!(f.content.len(), 1);
    assert_eq!(f.content[0].hash, 0x7777_8888_0000_0001);
    assert_eq!(f.content[0].compression_type, CompressionType::GZIP);
    assert_eq!(
        f.content[0].version,
        ContentVersion::V2 { is_duplicate: false, sha256: 5 }
    );
}

#[test]
fn wrong_magic_is_invalid() {
    let buf = b"RX\x01\x00".to_vec();
    assert_eq!(header(&buf), Err(DecodeError::InvalidMagic { position: 0 }));
}

#[test]
fn unknown_major_version_is_rejected() {
    let buf = b"RW\x04\x00".to_vec();
    assert_eq!(header(&buf), Err(DecodeError::UnsupportedVersion { value: 4 }));
    assert_eq!(
        content(&buf, 4, 1),
        Err(DecodeError::UnsupportedVersion { value: 4 })
    );
}

#[test]
fn truncated_header_is_rejected() {
    let buf = b"RW\x01\x00".to_vec();
    assert_eq!(
        header(&buf),
        Err(DecodeError::Truncated { position: 4, width: 8, available: 4 })
    );
}

#[test]
fn truncated_record_is_rejected() {
    let mut buf = wad_v1_bytes(0);
    buf.truncate(30); // cut into the only record
    assert!(matches!(parse(&buf), Err(DecodeError::Truncated { .. })));
}

#[test]
fn declared_count_past_end_is_truncated() {
    let mut buf = wad_v1_bytes(0);
    // declare two records but provide one
    buf[8] = 2;
    assert!(matches!(parse(&buf), Err(DecodeError::Truncated { .. })));
}

#[test]
fn content_records_keep_on_disk_order() {
    let mut buf: Vec<u8> = Vec::new();
    buf.extend_from_slice(b"RW");
    buf.push(1);
    buf.push(0);
    push_u16(&mut buf, 0);
    push_u16(&mut buf, 24);
    push_u32(&mut buf, 3);
    for i in 0..3u64 {
        push_u64(&mut buf, 0xa000 + i);
        push_u32(&mut buf, 0x10 * i as u32);
        push_u32(&mut buf, 1 + i as u32);
        push_u32(&mut buf, 2 + i as u32);
        push_u32(&mut buf, 0);
    }
    let f = parse(&buf).unwrap();
    assert_eq!(f.content.len(), 3);
    for i in 0..3usize {
        assert_eq!(f.content[i].hash, 0xa000 + i as u64);
        assert_eq!(f.content[i].data_offset, 0x10 * i as u32);
    }
}
