use rman_wad::rman::{bundles, directories, files, header, languages, offset_map, parse};
use rman_wad::DecodeError;

fn push_u16(out: &mut Vec<u8>, x: u16) {
    out.extend_from_slice(&x.to_le_bytes());
}

fn push_u32(out: &mut Vec<u8>, x: u32) {
    out.extend_from_slice(&x.to_le_bytes());
}

fn push_u64(out: &mut Vec<u8>, x: u64) {
    out.extend_from_slice(&x.to_le_bytes());
}

fn rman_header_bytes(offset: u32, length: u32, manifest_id: u64, decompressed: u32) -> Vec<u8> {
    let mut buf: Vec<u8> = Vec::new();
    buf.extend_from_slice(b"RMAN");
    buf.push(1); // major
    buf.push(0); // minor
    buf.push(0); // unknown
    buf.push(0); // signature type
    push_u32(&mut buf, offset);
    push_u32(&mut buf, length);
    push_u64(&mut buf, manifest_id);
    push_u32(&mut buf, decompressed);
    buf
}

#[test]
fn header_scenario_decodes_all_fields() {
    // header decode alone: offset and length point past the buffer, and
    // nothing of the body is touched
    let buf = rman_header_bytes(0x1000, 0x2000, 0x0123_4567_89ab_cdef, 77);
    let h = header(&buf).unwrap();
    assert_eq!(h.magic, "RMAN");
    assert_eq!(h.major, 1);
    assert_eq!(h.minor, 0);
    assert_eq!(h.unknown, 0);
    assert_eq!(h.signature_type, 0);
    assert_eq!(h.offset, 0x1000);
    assert_eq!(h.length, 0x2000);
    assert_eq!(h.manifest_id, 0x0123_4567_89ab_cdef);
    assert_eq!(h.decompressed_length, 77);
}

#[test]
fn header_wrong_magic_is_invalid() {
    let mut buf = rman_header_bytes(0, 0, 0, 0);
    buf[3] = b'X';
    assert_eq!(header(&buf), Err(DecodeError::InvalidMagic { position: 0 }));
}

#[test]
fn header_truncated_fixed_region() {
    let buf = b"RMAN\x01\x00".to_vec();
    assert_eq!(
        header(&buf),
        Err(DecodeError::Truncated { position: 4, width: 24, available: 6 })
    );
}

#[test]
fn offset_map_adds_field_constants() {
    let mut buf: Vec<u8> = Vec::new();
    push_u32(&mut buf, 4); // root table position
    push_u32(&mut buf, 0); // skipped field
    push_u32(&mut buf, 16); // bundle raw
    push_u32(&mut buf, 16); // language raw
    push_u32(&mut buf, 16); // file raw
    push_u32(&mut buf, 16); // folder raw
    let om = offset_map(&buf).unwrap();
    assert_eq!(om.bundle_offset, 4 + 16 + 4);
    assert_eq!(om.language_offset, 4 + 16 + 8);
    assert_eq!(om.file_offset, 4 + 16 + 12);
    assert_eq!(om.folder_offset, 4 + 16 + 16);
}

#[test]
fn bundle_section_with_nested_chunks() {
    let mut buf: Vec<u8> = Vec::new();
    push_u32(&mut buf, 1); // one bundle
    push_u32(&mut buf, 12); // entry at 4 -> table at 16
    // bundle vtable at 8: slots {bundle_id: 4, chunks: 12, unused, unused}
    push_u16(&mut buf, 4);
    push_u16(&mut buf, 12);
    push_u16(&mut buf, 0);
    push_u16(&mut buf, 0);
    // bundle table at 16
    push_u32(&mut buf, 8); // soffset -> vtable at 8
    push_u64(&mut buf, 0xb1d_0001); // bundle id at 20
    // chunk vector at 28
    push_u32(&mut buf, 2);
    push_u32(&mut buf, 18); // entry at 32 -> chunk table at 50
    push_u32(&mut buf, 34); // entry at 36 -> chunk table at 70
    // chunk vtable at 40: slots {_, _, chunk_id: 4, compressed: 12, uncompressed: 16}
    push_u16(&mut buf, 0);
    push_u16(&mut buf, 0);
    push_u16(&mut buf, 4);
    push_u16(&mut buf, 12);
    push_u16(&mut buf, 16);
    // chunk table 0 at 50
    push_u32(&mut buf, 10); // soffset -> vtable at 40
    push_u64(&mut buf, 0xc0_0001);
    push_u32(&mut buf, 100);
    push_u32(&mut buf, 200);
    // chunk table 1 at 70
    push_u32(&mut buf, 30); // soffset -> vtable at 40
    push_u64(&mut buf, 0xc0_0002);
    push_u32(&mut buf, 300);
    push_u32(&mut buf, 400);
    let got = bundles(&buf, 0).unwrap();
    assert_eq!(got.len(), 1);
    assert_eq!(got[0].bundle_id, 0xb1d_0001);
    assert_eq!(got[0].chunks.len(), 2);
    assert_eq!(got[0].chunks[0].chunk_id, 0xc0_0001);
    assert_eq!(got[0].chunks[0].compressed_size, 100);
    assert_eq!(got[0].chunks[0].uncompressed_size, 200);
    assert_eq!(got[0].chunks[1].chunk_id, 0xc0_0002);
    assert_eq!(got[0].chunks[1].compressed_size, 300);
    assert_eq!(got[0].chunks[1].uncompressed_size, 400);
}

#[test]
fn language_section_resolves_name_and_id() {
    let mut buf: Vec<u8> = Vec::new();
    push_u32(&mut buf, 1);
    push_u32(&mut buf, 10); // entry at 4 -> table at 14
    // language vtable at 8: slots {name: 4, unused, id: 8}
    push_u16(&mut buf, 4);
    push_u16(&mut buf, 0);
    push_u16(&mut buf, 8);
    // language table at 14
    push_u32(&mut buf, 6); // soffset -> vtable at 8
    push_u32(&mut buf, 5); // name field at 18: blob at 23
    buf.push(31); // language id at 22
    // name blob at 23
    push_u32(&mut buf, 2);
    buf.extend_from_slice(b"en");
    let got = languages(&buf, 0).unwrap();
    assert_eq!(got.len(), 1);
    assert_eq!(got[0].id, 31);
    assert_eq!(got[0].name, "en");
}

#[test]
fn language_missing_name_field() {
    let mut buf: Vec<u8> = Vec::new();
    push_u32(&mut buf, 1);
    push_u32(&mut buf, 10); // entry at 4 -> table at 14
    // language vtable at 8: every slot absent
    push_u16(&mut buf, 0);
    push_u16(&mut buf, 0);
    push_u16(&mut buf, 0);
    // language table at 14
    push_u32(&mut buf, 6); // soffset -> vtable at 8
    assert_eq!(languages(&buf, 0), Err(DecodeError::MissingField { field: 0 }));
}

#[test]
fn directory_absent_ids_default_to_zero() {
    let mut buf: Vec<u8> = Vec::new();
    push_u32(&mut buf, 1);
    push_u32(&mut buf, 14); // entry at 4 -> table at 18
    // directory vtable at 8: slots {_, _, id: 0, parent: 0, name: 4}
    push_u16(&mut buf, 0);
    push_u16(&mut buf, 0);
    push_u16(&mut buf, 0);
    push_u16(&mut buf, 0);
    push_u16(&mut buf, 4);
    // directory table at 18
    push_u32(&mut buf, 10); // soffset -> vtable at 8
    push_u32(&mut buf, 4); // name field at 22: blob at 26
    push_u32(&mut buf, 4);
    buf.extend_from_slice(b"root");
    let got = directories(&buf, 0).unwrap();
    assert_eq!(got.len(), 1);
    assert_eq!(got[0].id, 0);
    assert_eq!(got[0].parent_id, 0);
    assert_eq!(got[0].name, "root");
}

#[test]
fn directory_present_ids_are_read() {
    let mut buf: Vec<u8> = Vec::new();
    push_u32(&mut buf, 1);
    push_u32(&mut buf, 14); // entry at 4 -> table at 18
    // directory vtable at 8: slots {_, _, id: 4, parent: 12, name: 20}
    push_u16(&mut buf, 0);
    push_u16(&mut buf, 0);
    push_u16(&mut buf, 4);
    push_u16(&mut buf, 12);
    push_u16(&mut buf, 20);
    // directory table at 18
    push_u32(&mut buf, 10); // soffset -> vtable at 8
    push_u64(&mut buf, 42); // id at 22
    push_u64(&mut buf, 7); // parent at 30
    push_u32(&mut buf, 4); // name field at 38: blob at 42
    push_u32(&mut buf, 1);
    buf.extend_from_slice(b"d");
    let got = directories(&buf, 0).unwrap();
    assert_eq!(got.len(), 1);
    assert_eq!(got[0].id, 42);
    assert_eq!(got[0].parent_id, 7);
    assert_eq!(got[0].name, "d");
}

#[test]
fn file_section_resolves_all_fields() {
    let mut buf: Vec<u8> = Vec::new();
    push_u32(&mut buf, 1);
    push_u32(&mut buf, 34); // entry at 4 -> table at 38
    // file vtable at 8: 15 slots
    let slots: [u16; 15] = [0, 36, 4, 12, 20, 28, 24, 0, 0, 0, 0, 32, 0, 0, 0];
    for s in slots.iter() {
        push_u16(&mut buf, *s);
    }
    // file table at 38
    push_u32(&mut buf, 30); // soffset -> vtable at 8
    push_u64(&mut buf, 0xf11e); // file id at 42 (slot 2 -> +4)
    push_u64(&mut buf, 9); // directory id at 50 (slot 3 -> +12)
    push_u32(&mut buf, 4096); // size at 58 (slot 4 -> +20)
    push_u32(&mut buf, 0b101); // language mask at 62 (slot 6 -> +24)
    push_u32(&mut buf, 28); // name field at 66 (slot 5 -> +28): blob at 94
    push_u32(&mut buf, 31); // symlink field at 70 (slot 11 -> +32): blob at 101
    // chunk-id long vector at 74 (slot 1 -> +36)
    push_u32(&mut buf, 2);
    push_u64(&mut buf, 0xc1);
    push_u64(&mut buf, 0xc2);
    // name blob at 94
    push_u32(&mut buf, 3);
    buf.extend_from_slice(b"abc");
    // symlink blob at 101: empty string
    push_u32(&mut buf, 0);
    let got = files(&buf, 0).unwrap();
    assert_eq!(got.len(), 1);
    assert_eq!(got[0].id, 0xf11e);
    assert_eq!(got[0].name, "abc");
    assert_eq!(got[0].symlink, "");
    assert_eq!(got[0].directory_id, 9);
    assert_eq!(got[0].size, 4096);
    assert_eq!(got[0].language, 0b101);
    assert_eq!(got[0].chunk_ids, vec![0xc1u64, 0xc2u64]);
}

fn empty_body_bytes() -> Vec<u8> {
    // root at 4; all four sections hold zero records
    let mut body: Vec<u8> = Vec::new();
    push_u32(&mut body, 4);
    push_u32(&mut body, 0); // skipped root field
    push_u32(&mut body, 16); // bundles -> 24
    push_u32(&mut body, 16); // languages -> 28
    push_u32(&mut body, 16); // files -> 32
    push_u32(&mut body, 16); // folders -> 36
    push_u32(&mut body, 0);
    push_u32(&mut body, 0);
    push_u32(&mut body, 0);
    push_u32(&mut body, 0);
    body
}

#[test]
fn parse_whole_manifest_with_compressed_body() {
    let body = empty_body_bytes();
    let compressed = zstd::encode_all(body.as_slice(), 0).unwrap();
    let mut input = rman_header_bytes(28, compressed.len() as u32, 5, body.len() as u32);
    input.extend_from_slice(&compressed);
    let f = parse(&input).unwrap();
    assert_eq!(f.header.magic, "RMAN");
    assert_eq!(f.header.manifest_id, 5);
    assert_eq!(f.body.bundles.len(), 0);
    assert_eq!(f.body.languages.len(), 0);
    assert_eq!(f.body.files.len(), 0);
    assert_eq!(f.body.directories.len(), 0);
}

#[test]
fn parse_rejects_corrupt_compressed_body() {
    let garbage: Vec<u8> = vec![1, 2, 3, 4, 5, 6, 7, 8];
    let mut input = rman_header_bytes(28, garbage.len() as u32, 5, 0);
    input.extend_from_slice(&garbage);
    assert_eq!(parse(&input), Err(DecodeError::DecompressionFailed));
}

#[test]
fn parse_rejects_body_range_past_end() {
    let input = rman_header_bytes(28, 100, 5, 0);
    assert_eq!(
        parse(&input),
        Err(DecodeError::Truncated { position: 28, width: 100, available: 28 })
    );
}
