use tcp::{segment, Header};

fn header(data_offset: u8) -> Header {
    Header {
        source_port: 1234,
        destination_port: 80,
        sequence_number: 1,
        acknowledgment_number: 0,
        data_offset,
        flags: Header::SYN,
        window: 65535,
        checksum: 0,
        urgent_pointer: 0,
    }
}

#[test]
fn segment_roundtrip_with_options() {
    let mss = [0x05u8, 0xb4];
    let options: Vec<(u8, &[u8])> = vec![(2, &mss), (1, &[]), (1, &[]), (1, &[]), (0, &[])];
    let payload = [1u8, 2, 3];
    let bytes = segment::to_bytes((header(7), options.clone(), &payload)).unwrap();
    assert_eq!(bytes.len(), 28 + 3);
    assert_eq!(&bytes[20..28], &[2, 4, 0x05, 0xb4, 1, 1, 1, 0]);
    let (h, opts, rest) = segment::from_bytes(&bytes).unwrap();
    assert_eq!(h, header(7));
    assert_eq!(opts, options);
    assert_eq!(rest, &payload[..]);
}

#[test]
fn segment_without_options() {
    let bytes = segment::to_bytes((header(5), vec![], &[9, 9])).unwrap();
    assert_eq!(bytes.len(), 22);
    let (h, opts, rest) = segment::from_bytes(&bytes).unwrap();
    assert_eq!(h, header(5));
    assert!(opts.is_empty());
    assert_eq!(rest, &[9u8, 9][..]);
}

#[test]
fn segment_options_after_eol_are_read() {
    // Options: EOL, NOP, EOL, EOL.
    let mut bytes = header(6).to_bytes().unwrap();
    bytes.extend_from_slice(&[0, 1, 0, 0]);
    let (_, opts, rest) = segment::from_bytes(&bytes).unwrap();
    assert_eq!(opts, vec![(0u8, &[][..]), (1, &[][..]), (0, &[][..]), (0, &[][..])]);
    assert!(rest.is_empty());
}

#[test]
fn segment_options_may_fill_the_offset_without_eol() {
    // NOP, NOP, then MSS 1460: the list ends at the data offset.
    let mut bytes = header(7).to_bytes().unwrap();
    bytes.extend_from_slice(&[1, 1, 2, 4, 0x05, 0xb4, 1, 1, 0xaa]);
    let (_, opts, rest) = segment::from_bytes(&bytes).unwrap();
    let mss = [0x05u8, 0xb4];
    assert_eq!(opts, vec![(1u8, &[][..]), (1, &[][..]), (2, &mss[..]), (1, &[][..]), (1, &[][..])]);
    assert_eq!(rest, &[0xaau8][..]);
    let back = segment::to_bytes((header(7), opts, rest)).unwrap();
    assert_eq!(back, bytes);
}

#[test]
fn segment_would_panic() {
    let mut short_offset = header(4).to_bytes().unwrap();
    assert!(segment::would_panic(&short_offset));
    short_offset.truncate(19);
    assert!(!segment::would_panic(&short_offset));
    let mut bad_length = header(6).to_bytes().unwrap();
    bad_length.extend_from_slice(&[1, 5, 0, 0]);
    assert!(segment::would_panic(&bad_length));
    let mut fine = header(6).to_bytes().unwrap();
    fine.extend_from_slice(&[1, 5, 6, 0]);
    assert!(!segment::would_panic(&fine));
    assert_eq!(segment::from_bytes(&fine), Err("`option` only partial, more data required."));
    let unreached = header(6).to_bytes().unwrap();
    assert!(!segment::would_panic(&unreached));
}

#[test]
fn segment_from_bytes_errors() {
    assert_eq!(
        segment::from_bytes(&[0; 19]),
        Err("`tcp` header only partial, more data required.")
    );
    let bytes = header(6).to_bytes().unwrap();
    assert_eq!(segment::from_bytes(&bytes), Err("`segment` only partial, more data required."));
    let mut bytes = header(6).to_bytes().unwrap();
    bytes.extend_from_slice(&[2, 6, 0, 0]);
    assert_eq!(segment::from_bytes(&bytes), Err("`option` only partial, more data required."));
}

#[test]
fn segment_to_bytes_errors() {
    assert_eq!(
        segment::to_bytes((header(16), vec![], &[])),
        Err("`data_offset` expected 4 bit value.")
    );
    let mut h = header(5);
    h.flags = 0x400;
    assert_eq!(segment::to_bytes((h, vec![], &[])), Err("`flags` expected 9 bit value."));
    let big = [0u8; 0xfe];
    assert_eq!(
        segment::to_bytes((header(5), vec![(1, &[]), (9, &big)], &[])),
        Err("`option` data too big.")
    );
}

#[test]
fn segment_reserved_bits_come_back_zero() {
    let mut bytes = header(5).to_bytes().unwrap();
    bytes[12] |= 0x0e;
    bytes.push(42);
    let (h, opts, rest) = segment::from_bytes(&bytes).unwrap();
    let back = segment::to_bytes((h, opts, rest)).unwrap();
    let mut expected = bytes.clone();
    expected[12] &= 0xf1;
    assert_eq!(back, expected);
}
