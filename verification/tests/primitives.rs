use rman_wad::DecodeError;
use rman_wad::{
    parse_long_vector, parse_vector, parse_vtable, read_bytes, read_i32, read_indirect_string,
    read_tag, read_u16, read_u32, read_u64, read_u8,
};

fn push_u16(out: &mut Vec<u8>, x: u16) {
    out.extend_from_slice(&x.to_le_bytes());
}

fn push_u32(out: &mut Vec<u8>, x: u32) {
    out.extend_from_slice(&x.to_le_bytes());
}

fn push_u64(out: &mut Vec<u8>, x: u64) {
    out.extend_from_slice(&x.to_le_bytes());
}

#[test]
fn read_primitives_little_endian() {
    let buf: Vec<u8> = vec![0x01, 0x02, 0x03, 0x04, 0x05, 0x06, 0x07, 0x08];
    assert_eq!(read_u8(&buf, 0), Ok(0x01));
    assert_eq!(read_u8(&buf, 7), Ok(0x08));
    assert_eq!(read_u16(&buf, 0), Ok(0x0201));
    assert_eq!(read_u32(&buf, 0), Ok(0x04030201));
    assert_eq!(read_u32(&buf, 4), Ok(0x08070605));
    assert_eq!(read_u64(&buf, 0), Ok(0x0807060504030201));
    assert_eq!(read_i32(&buf, 0), Ok(0x04030201));
}

#[test]
fn read_i32_negative_value() {
    let buf: Vec<u8> = vec![0xfc, 0xff, 0xff, 0xff];
    assert_eq!(read_i32(&buf, 0), Ok(-4));
}

#[test]
fn truncated_reads_fail_with_truncated() {
    let buf: Vec<u8> = vec![0x01, 0x02, 0x03];
    assert_eq!(
        read_u8(&buf, 3),
        Err(DecodeError::Truncated { position: 3, width: 1, available: 3 })
    );
    assert_eq!(
        read_u16(&buf, 2),
        Err(DecodeError::Truncated { position: 2, width: 2, available: 3 })
    );
    assert_eq!(
        read_u32(&buf, 0),
        Err(DecodeError::Truncated { position: 0, width: 4, available: 3 })
    );
    assert_eq!(
        read_u64(&buf, 0),
        Err(DecodeError::Truncated { position: 0, width: 8, available: 3 })
    );
    assert_eq!(
        read_i32(&buf, 1),
        Err(DecodeError::Truncated { position: 1, width: 4, available: 3 })
    );
    assert_eq!(
        read_bytes(&buf, 1, 3),
        Err(DecodeError::Truncated { position: 1, width: 3, available: 3 })
    );
    let empty: Vec<u8> = Vec::new();
    assert_eq!(
        read_u8(&empty, 0),
        Err(DecodeError::Truncated { position: 0, width: 1, available: 0 })
    );
}

#[test]
fn read_tag_checks_magic() {
    let buf: Vec<u8> = vec![82, 77, 65, 78, 1];
    let tag: Vec<u8> = vec![82, 77, 65, 78];
    assert_eq!(read_tag(&buf, 0, &tag), Ok(()));
    let other: Vec<u8> = vec![82, 77, 65, 79];
    assert_eq!(read_tag(&other, 0, &tag), Err(DecodeError::InvalidMagic { position: 0 }));
    let short: Vec<u8> = vec![82, 77];
    assert_eq!(
        read_tag(&short, 0, &tag),
        Err(DecodeError::Truncated { position: 0, width: 4, available: 2 })
    );
}

#[test]
fn long_vector_counts_zero_and_one() {
    let mut buf: Vec<u8> = Vec::new();
    push_u32(&mut buf, 0);
    assert_eq!(parse_long_vector(&buf, 0), Ok(Vec::new()));

    let mut buf1: Vec<u8> = Vec::new();
    push_u32(&mut buf1, 1);
    push_u64(&mut buf1, 0xdead_beef_0123_4567);
    assert_eq!(parse_long_vector(&buf1, 0), Ok(vec![0xdead_beef_0123_4567u64]));
}

#[test]
fn long_vector_large_count_keeps_order() {
    let n: u32 = 10_000;
    let mut buf: Vec<u8> = Vec::new();
    push_u32(&mut buf, n);
    for i in 0..n {
        push_u64(&mut buf, i as u64 * 3 + 1);
    }
    let got = parse_long_vector(&buf, 0).unwrap();
    assert_eq!(got.len(), 10_000);
    for i in 0..n as usize {
        assert_eq!(got[i], i as u64 * 3 + 1);
    }
}

#[test]
fn long_vector_declared_count_past_end_is_truncated() {
    let mut buf: Vec<u8> = Vec::new();
    push_u32(&mut buf, 2);
    push_u64(&mut buf, 7);
    // one value short of the declared two
    assert_eq!(
        parse_long_vector(&buf, 0),
        Err(DecodeError::Truncated { position: 4, width: 16, available: 12 })
    );
}

#[test]
fn vtable_resolves_field_offsets() {
    // vtable (3 slots) directly before the table, soffset = 6
    let mut buf: Vec<u8> = Vec::new();
    push_u16(&mut buf, 8);
    push_u16(&mut buf, 0);
    push_u16(&mut buf, 12);
    push_u32(&mut buf, 6); // soffset at table position 6
    let got = parse_vtable(&buf, 6, 3).unwrap();
    assert_eq!(got, vec![8u16, 0u16, 12u16]);
}

#[test]
fn vtable_after_table_with_negative_soffset() {
    // soffset = -4 places the vtable right after the table
    let mut buf: Vec<u8> = Vec::new();
    push_u32(&mut buf, 0xffff_fffc); // -4 as little-endian i32
    push_u16(&mut buf, 4);
    push_u16(&mut buf, 10);
    let got = parse_vtable(&buf, 0, 2).unwrap();
    assert_eq!(got, vec![4u16, 10u16]);
}

#[test]
fn vtable_out_of_bounds_is_truncated() {
    let mut buf: Vec<u8> = Vec::new();
    push_u32(&mut buf, 100); // soffset points far before the buffer
    assert!(matches!(parse_vtable(&buf, 0, 2), Err(DecodeError::Truncated { .. })));
}

#[test]
fn vector_counts_zero_and_one() {
    let mut buf: Vec<u8> = Vec::new();
    push_u32(&mut buf, 0);
    let got = parse_vector(&buf, 0, 2).unwrap();
    assert_eq!(got.len(), 0);

    // count 1: entry at 4 holds offset 4, so the table sits at 8;
    // its vtable (2 slots) sits at 12, soffset = -4
    let mut buf1: Vec<u8> = Vec::new();
    push_u32(&mut buf1, 1);
    push_u32(&mut buf1, 4);
    push_u32(&mut buf1, 0xffff_fffc);
    push_u16(&mut buf1, 6);
    push_u16(&mut buf1, 8);
    let got1 = parse_vector(&buf1, 0, 2).unwrap();
    assert_eq!(got1.len(), 1);
    assert_eq!(got1[0].table_pos, 8);
    assert_eq!(got1[0].fields, vec![6u16, 8u16]);
}

#[test]
fn vector_large_count_keeps_order() {
    // 10,000 entries all pointing at one shared table
    let n: u32 = 10_000;
    let table_pos: u64 = 4 + 8 * (n as u64);
    let mut buf: Vec<u8> = Vec::new();
    push_u32(&mut buf, n);
    for i in 0..n {
        let entry_pos = 4 + 4 * i as u64;
        push_u32(&mut buf, (table_pos - entry_pos) as u32);
    }
    // the area between the entries and the table holds the vtable (1 slot)
    while buf.len() < table_pos as usize - 2 {
        buf.push(0);
    }
    push_u16(&mut buf, 9); // vtable slot 0
    push_u32(&mut buf, 2); // soffset at the table: vtable is 2 bytes before
    let got = parse_vector(&buf, 0, 1).unwrap();
    assert_eq!(got.len(), 10_000);
    for i in 0..n as usize {
        assert_eq!(got[i].table_pos, table_pos);
        assert_eq!(got[i].fields, vec![9u16]);
    }
}

#[test]
fn vector_entry_table_past_end_is_truncated() {
    let mut buf: Vec<u8> = Vec::new();
    push_u32(&mut buf, 1);
    push_u32(&mut buf, 1000); // table position far past the end
    assert!(matches!(parse_vector(&buf, 0, 1), Err(DecodeError::Truncated { .. })));
}

#[test]
fn indirect_string_resolves_and_repairs() {
    // field at 0 holds relative offset 8; blob at 8: length 5 + "hello"
    let mut buf: Vec<u8> = Vec::new();
    push_u32(&mut buf, 8);
    push_u32(&mut buf, 0); // filler
    push_u32(&mut buf, 5);
    buf.extend_from_slice(b"hello");
    assert_eq!(read_indirect_string(&buf, 0), Ok(String::from("hello")));

    // invalid UTF-8 is repaired, not fatal
    let mut bad: Vec<u8> = Vec::new();
    push_u32(&mut bad, 8);
    push_u32(&mut bad, 0);
    push_u32(&mut bad, 2);
    bad.push(0xff);
    bad.push(0x61);
    let got = read_indirect_string(&bad, 0).unwrap();
    assert_eq!(got, String::from_utf8_lossy(&[0xff, 0x61]).into_owned());
}

#[test]
fn indirect_string_declared_length_past_end_is_truncated() {
    let mut buf: Vec<u8> = Vec::new();
    push_u32(&mut buf, 4);
    push_u32(&mut buf, 50); // declared length far past the end
    assert_eq!(
        read_indirect_string(&buf, 0),
        Err(DecodeError::Truncated { position: 8, width: 50, available: 8 })
    );
}
