use tcp::v6::{segment, PseudoHeader};
use tcp::{segment as tcp_segment, Checksum, Header, PROTOCOL};

const SRC: u128 = 0x2001_0db8_0000_0000_0000_0000_0000_0001;
const DST: u128 = 0x2001_0db8_0000_0000_0000_0000_0000_0002;

fn pseudo() -> PseudoHeader {
    PseudoHeader { source_address: SRC, destination_address: DST, ul_length: 0, next_header: PROTOCOL }
}

fn header() -> Header {
    Header {
        source_port: 1234,
        destination_port: 80,
        sequence_number: 1,
        acknowledgment_number: 0,
        data_offset: 0,
        flags: Header::SYN,
        window: 65535,
        checksum: 0x5555,
        urgent_pointer: 0,
    }
}

#[test]
fn pseudo_header_bytes() {
    let p = PseudoHeader {
        source_address: 0x000102030405060708090a0b0c0d0e0f,
        destination_address: 0x101112131415161718191a1b1c1d1e1f,
        ul_length: 0xa0b0c0d0,
        next_header: 6,
    };
    let bytes = p.to_bytes().unwrap();
    let mut expected: Vec<u8> = (0u8..32).collect();
    expected.extend_from_slice(&[0xa0, 0xb0, 0xc0, 0xd0, 0, 0, 0, 6]);
    assert_eq!(bytes, expected);
    assert_eq!(PseudoHeader::from_bytes(&bytes).unwrap(), p);
    assert_eq!(PseudoHeader::PACKED_SIZE, 40);
}

#[test]
fn pseudo_header_from_bytes_skips_zero_bytes() {
    let mut bytes = pseudo().to_bytes().unwrap();
    bytes[36] = 0xff;
    bytes[38] = 0xff;
    let p = PseudoHeader::from_bytes(&bytes).unwrap();
    assert_eq!(p, pseudo());
}

#[test]
fn pseudo_header_needs_40_bytes() {
    assert_eq!(
        PseudoHeader::from_bytes(&[0; 39]),
        Err("IPv6 `PseudoHeader` starved, more data required.")
    );
}

#[test]
fn make_fills_lengths_padding_and_checksum() {
    let (_, mss) = tcp::option::mss::to_option(1460).unwrap();
    let payload = *b"hello";
    let mut t = (pseudo(), header(), vec![(2u8, &mss[..])], &payload[..]);
    assert_eq!(segment::make(&mut t), Ok(()));
    // 4 option bytes padded with three NOPs and an EOL to 8.
    assert_eq!(
        t.2,
        vec![(2u8, &mss[..]), (1, &[][..]), (1, &[][..]), (1, &[][..]), (0, &[][..])]
    );
    assert_eq!(t.0.ul_length, 33);
    assert_eq!(t.1.data_offset, 7);
    assert_eq!(t.1.checksum, 0xe1b2);
    assert!(segment::check(&mut t));
    assert_eq!(t.1.checksum, 0xe1b2);
}

#[test]
fn make_pads_a_multiple_of_four_with_four_options() {
    let payload: [u8; 0] = [];
    let mut t = (pseudo(), header(), vec![(4u8, &[][..]), (1u8, &[][..]), (1u8, &[][..])], &payload[..]);
    assert_eq!(segment::make(&mut t), Ok(()));
    assert_eq!(t.2.len(), 7);
    assert_eq!(t.1.data_offset, 7);
    assert_eq!(t.0.ul_length, 28);
    assert!(segment::check(&mut t));
}

#[test]
fn made_segment_parses_back() {
    let payload = [1u8, 2, 3, 4, 5, 6, 7];
    let ts = [0u8; 8];
    let mut t = (pseudo(), header(), vec![(8u8, &ts[..]), (4u8, &[][..])], &payload[..]);
    segment::make(&mut t).unwrap();
    let bytes = tcp_segment::to_bytes((t.1, t.2.clone(), t.3)).unwrap();
    let (h, opts, rest) = tcp_segment::from_bytes(&bytes).unwrap();
    assert_eq!(h, t.1);
    assert_eq!(opts, t.2);
    assert_eq!(rest, t.3);
    // The segment and its pseudo-header sum to a zero checksum.
    let mut cs = Checksum::new();
    cs.update_from_bytes(&t.0.to_bytes().unwrap()).unwrap();
    cs.update_from_bytes(&bytes[..bytes.len() - 1]).unwrap();
    cs.update_from_bytes(&[bytes[bytes.len() - 1], 0]).unwrap();
    assert_eq!(cs.digest(), 0);
}

#[test]
fn check_refuses_a_changed_segment() {
    let payload = *b"data";
    let mut t = (pseudo(), header(), vec![], &payload[..]);
    segment::make(&mut t).unwrap();
    assert!(segment::check(&mut t));
    let other = *b"date";
    let mut changed = (t.0, t.1, t.2.clone(), &other[..]);
    assert!(!segment::check(&mut changed));
    let mut wrong_protocol = (PseudoHeader { next_header: 17, ..t.0 }, t.1, t.2.clone(), t.3);
    assert!(!segment::check(&mut wrong_protocol));
    let mut wrong_length = (PseudoHeader { ul_length: t.0.ul_length + 1, ..t.0 }, t.1, t.2.clone(), t.3);
    assert!(!segment::check(&mut wrong_length));
    let mut wrong_offset = (t.0, Header { data_offset: 7, ..t.1 }, t.2.clone(), t.3);
    assert!(!segment::check(&mut wrong_offset));
}

#[test]
fn make_errors_before_changing_anything() {
    let payload: [u8; 0] = [];
    let mut t = (pseudo(), header(), vec![(0u8, &[][..])], &payload[..]);
    assert_eq!(segment::make(&mut t), Err("`eol` should not be supplied by user."));
    assert_eq!(t.2.len(), 1);
    let mut t = (pseudo(), header(), vec![(1u8, &[5u8][..])], &payload[..]);
    assert_eq!(segment::make(&mut t), Err("`option` encounter invalid."));
    let nop: (u8, &[u8]) = (1, &[]);
    let nops: Vec<(u8, &[u8])> = vec![nop; 41];
    let mut t = (pseudo(), header(), nops, &payload[..]);
    assert_eq!(segment::make(&mut t), Err("`segment` too many options provided."));
    assert_eq!(t.2.len(), 41);
}

#[test]
fn make_errors_after_padding() {
    let payload: [u8; 0] = [];
    let data = [0u8; 38];
    let mut t = (pseudo(), header(), vec![(9u8, &data[..])], &payload[..]);
    assert_eq!(segment::make(&mut t), Err("`option`s cannot fit inside a tcp segment header."));
    assert_eq!(t.2.len(), 5);
    assert_eq!(t.1, header());
    let big = vec![0u8; 0xffff - 24 + 1];
    let mut t = (pseudo(), header(), vec![], &big[..]);
    assert_eq!(segment::make(&mut t), Err("`segment`'s payload does not fit."));
    assert_eq!(t.2.len(), 4);
    let fits = vec![0u8; 0xffff - 24];
    let mut t = (pseudo(), header(), vec![], &fits[..]);
    assert_eq!(segment::make(&mut t), Ok(()));
    assert_eq!(t.0.ul_length, 0xffff);
    assert!(segment::check(&mut t));
}

#[test]
fn make_refuses_wide_flags_after_setting_fields() {
    let payload = [1u8];
    let mut h = header();
    h.flags = 0x200;
    let mut t = (pseudo(), h, vec![], &payload[..]);
    assert_eq!(segment::make(&mut t), Err("`flags` expected 9 bit value."));
    assert_eq!(t.0.ul_length, 25);
    assert_eq!(t.1.data_offset, 6);
    assert_eq!(t.1.checksum, 0);
}
