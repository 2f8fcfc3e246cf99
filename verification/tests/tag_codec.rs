use game_case::codec::{read_header, read_id, read_size, ElementSize, ParseError};
use game_case::vint::{read_be, write_id, write_size, write_uint};

#[test]
fn identifier_round_trip_all_widths() {
    for &id in &[0x80u32, 0xFF, 0x4286, 0x5B00, 0x7FFF, 0x2E_8A09, 0x3F_FFFF, 0x1E8A_A000, 0x1FFF_FFFF] {
        let mut buf: Vec<u8> = Vec::new();
        write_id(&mut buf, id);
        let (got, p) = read_id(&buf, 0, buf.len()).expect("identifier should decode");
        assert_eq!(got, id);
        assert_eq!(p, buf.len());
    }
}

#[test]
fn identifier_width_follows_first_byte() {
    let mut buf: Vec<u8> = Vec::new();
    write_id(&mut buf, 0x5B00);
    assert_eq!(buf, vec![0x5B, 0x00]);
    let mut buf4: Vec<u8> = Vec::new();
    write_id(&mut buf4, 0x1E8A_A000);
    assert_eq!(buf4, vec![0x1E, 0x8A, 0xA0, 0x00]);
}

#[test]
fn size_round_trip_boundaries() {
    for &v in &[0u64, 1, 0x7E, 0x7F, 0x3FFE, 0x3FFF, 0x1F_FFFE, 0xFFF_FFFE, 0xFF_FFFF_FFFF_FFFE] {
        let mut buf: Vec<u8> = Vec::new();
        write_size(&mut buf, v);
        let (got, p) = read_size(&buf, 0, buf.len()).expect("size should decode");
        assert!(matches!(got, ElementSize::Known(k) if k == v), "size {v} came back wrong");
        assert_eq!(p, buf.len());
    }
}

#[test]
fn smallest_size_fits_one_byte_and_grows_at_the_reserved_pattern() {
    let mut one: Vec<u8> = Vec::new();
    write_size(&mut one, 0x7E);
    assert_eq!(one, vec![0xFE]);
    // 0x7F would collide with the one-byte all-ones pattern, so it takes two bytes
    let mut two: Vec<u8> = Vec::new();
    write_size(&mut two, 0x7F);
    assert_eq!(two, vec![0x40, 0x7F]);
}

#[test]
fn reserved_all_ones_pattern_reads_as_unknown() {
    let buf = vec![0xFFu8];
    let (got, p) = read_size(&buf, 0, 1).expect("the reserved pattern still decodes");
    assert!(matches!(got, ElementSize::Unknown));
    assert_eq!(p, 1);
}

#[test]
fn zero_first_byte_is_a_malformed_tag() {
    let buf = vec![0x00u8, 0x12];
    assert_eq!(read_id(&buf, 0, 2), Err(ParseError::MalformedTag));
    assert_eq!(read_size(&buf, 0, 2), Err(ParseError::MalformedTag));
}

#[test]
fn truncated_identifier_is_unexpected_eof() {
    // 0x5B announces two bytes; only one is present
    let buf = vec![0x5Bu8];
    assert_eq!(read_id(&buf, 0, 1), Err(ParseError::UnexpectedEof));
    let empty: Vec<u8> = Vec::new();
    assert_eq!(read_id(&empty, 0, 0), Err(ParseError::UnexpectedEof));
}

#[test]
fn header_reads_identifier_then_size() {
    let mut buf: Vec<u8> = Vec::new();
    write_id(&mut buf, 0x5B01);
    write_size(&mut buf, 5);
    let (id, size, p) = read_header(&buf, 0, buf.len()).expect("header should decode");
    assert_eq!(id, 0x5B01);
    assert!(matches!(size, ElementSize::Known(5)));
    assert_eq!(p, 3);
}

#[test]
fn unsigned_scalars_use_minimal_big_endian_bytes() {
    let mut buf: Vec<u8> = Vec::new();
    write_uint(&mut buf, 0);
    assert_eq!(buf, vec![0x00]);
    let mut buf2: Vec<u8> = Vec::new();
    write_uint(&mut buf2, 0x0102);
    assert_eq!(buf2, vec![0x01, 0x02]);
    let v = read_be(&buf2, 0, 2);
    assert_eq!(v, 0x0102);
}
