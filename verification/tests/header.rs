use tcp::{Header, PROTOCOL};

fn sample() -> Header {
    Header {
        source_port: 0x1234,
        destination_port: 80,
        sequence_number: 0xdeadbeef,
        acknowledgment_number: 0x01020304,
        data_offset: 5,
        flags: Header::SYN | Header::ACK,
        window: 0xffff,
        checksum: 0xabcd,
        urgent_pointer: 7,
    }
}

const SAMPLE_BYTES: [u8; 20] = [
    0x12, 0x34, 0x00, 0x50, 0xde, 0xad, 0xbe, 0xef, 0x01, 0x02, 0x03, 0x04, 0x50, 0x12, 0xff,
    0xff, 0xab, 0xcd, 0x00, 0x07,
];

#[test]
fn constants() {
    assert_eq!(PROTOCOL, 6);
    assert_eq!(Header::PACKED_SIZE, 20);
    assert_eq!(
        [Header::FIN, Header::SYN, Header::RST, Header::PSH, Header::ACK],
        [1, 2, 4, 8, 16]
    );
    assert_eq!([Header::URG, Header::ECE, Header::CWR, Header::NS], [32, 64, 128, 256]);
}

#[test]
fn header_to_bytes_is_big_endian() {
    assert_eq!(sample().to_bytes().unwrap(), SAMPLE_BYTES.to_vec());
}

#[test]
fn header_from_bytes_reads_fields() {
    assert_eq!(Header::from_bytes(&SAMPLE_BYTES), Ok(sample()));
}

#[test]
fn header_from_bytes_ignores_what_follows() {
    let mut longer = SAMPLE_BYTES.to_vec();
    longer.extend_from_slice(&[9, 9, 9]);
    assert_eq!(Header::from_bytes(&longer), Ok(sample()));
}

#[test]
fn header_from_bytes_needs_20_bytes() {
    assert_eq!(
        Header::from_bytes(&SAMPLE_BYTES[..19]),
        Err("`tcp` header only partial, more data required.")
    );
    assert_eq!(Header::from_bytes(&[]), Err("`tcp` header only partial, more data required."));
}

#[test]
fn header_from_bytes_drops_reserved_bits() {
    let mut bytes = SAMPLE_BYTES;
    bytes[12] = 0x5f; // data offset 5, reserved bits set, NS set
    let h = Header::from_bytes(&bytes).unwrap();
    assert_eq!(h.data_offset, 5);
    assert_eq!(h.flags, 0x112);
    let back = h.to_bytes().unwrap();
    assert_eq!(back[12], 0x51);
    assert_eq!(back[13], 0x12);
}

#[test]
fn header_to_bytes_refuses_wide_data_offset() {
    let mut h = sample();
    h.data_offset = 16;
    h.flags = 0x200;
    assert_eq!(h.to_bytes(), Err("`data_offset` expected 4 bit value."));
}

#[test]
fn header_to_bytes_refuses_wide_flags() {
    let mut h = sample();
    h.flags = 0x200;
    assert_eq!(h.to_bytes(), Err("`flags` expected 9 bit value."));
}

#[test]
fn header_roundtrip_at_the_edges() {
    let h = Header {
        source_port: 0xffff,
        destination_port: 0,
        sequence_number: u32::MAX,
        acknowledgment_number: 0,
        data_offset: 15,
        flags: 0x1ff,
        window: 0,
        checksum: 0xffff,
        urgent_pointer: 0xffff,
    };
    let bytes = h.to_bytes().unwrap();
    assert_eq!(bytes.len(), 20);
    assert_eq!(bytes[12], 0xf1);
    assert_eq!(bytes[13], 0xff);
    assert_eq!(Header::from_bytes(&bytes), Ok(h));
}
