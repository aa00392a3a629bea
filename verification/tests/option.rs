use tcp::option;
use tcp::option::{
    ao, eol, experimental, fast_open, mss, nop, sack, sack_permitted, timestamps, user_timeout,
    window_scale,
};

#[test]
fn option_from_bytes_single_byte_kinds() {
    assert_eq!(option::from_bytes(&[0, 9, 9]), Ok((0u8, &[][..])));
    assert_eq!(option::from_bytes(&[1]), Ok((1u8, &[][..])));
}

#[test]
fn option_from_bytes_reads_length_and_data() {
    let bytes = [2u8, 4, 0x05, 0xb4, 0xff];
    assert_eq!(option::from_bytes(&bytes), Ok((2u8, &[0x05u8, 0xb4][..])));
    assert_eq!(option::from_bytes(&[4, 2]), Ok((4u8, &[][..])));
}

#[test]
fn option_from_bytes_errors() {
    assert_eq!(option::from_bytes(&[]), Err("`option` required at least 1 bytes."));
    assert_eq!(option::from_bytes(&[2]), Err("`option` required at least 2 bytes."));
    assert_eq!(
        option::from_bytes(&[2, 4, 0]),
        Err("`option` only partial, more data required.")
    );
}

#[test]
fn option_to_bytes_frames_data() {
    assert_eq!(option::to_bytes((2, &[0x05, 0xb4])), Ok(vec![2, 4, 0x05, 0xb4]));
    assert_eq!(option::to_bytes((4, &[])), Ok(vec![4, 2]));
    // A kind that stands alone is written alone.
    assert_eq!(option::to_bytes((1, &[7, 7])), Ok(vec![1]));
    assert_eq!(option::to_bytes((0, &[])), Ok(vec![0]));
}

#[test]
fn option_to_bytes_refuses_big_data() {
    let data = [0u8; 0xfe];
    assert_eq!(option::to_bytes((9, &data)), Err("`option` data too big."));
    let data = [0u8; 0xfd];
    let bytes = option::to_bytes((9, &data)).unwrap();
    assert_eq!(bytes.len(), 0xff);
    assert_eq!(bytes[1], 0xff);
}

#[test]
fn option_roundtrip() {
    let data = [1u8, 2, 3, 4, 5, 6, 7, 8];
    let bytes = option::to_bytes((8, &data)).unwrap();
    assert_eq!(option::from_bytes(&bytes), Ok((8u8, &data[..])));
}

#[test]
fn option_make_mirrors_check() {
    let big = [0u8; 0xff];
    let cases: [(u8, &[u8]); 6] =
        [(0, &[]), (1, &[]), (1, &[3]), (0, &[3]), (5, &big), (5, &big[..0xfe])];
    for case in cases {
        assert_eq!(option::make(case).is_ok(), option::check(case));
    }
    assert_eq!(option::make((5, &big)), Err("`option` too big."));
    assert_eq!(option::make((1, &[3])), Err("`eol` / `nop` expect no data."));
    assert_eq!(option::make((0, &[3])), Err("`eol` / `nop` expect no data."));
    assert_eq!(option::make((5, &big[..0xfe])), Ok(()));
    assert!(option::check((7, &[1, 2])));
    assert!(!option::check((1, &[3])));
}

#[test]
fn eol_and_nop() {
    assert_eq!(eol::KIND, 0);
    assert_eq!(nop::KIND, 1);
    assert_eq!(eol::from_option((0, &[])), Ok(()));
    assert_eq!(eol::from_option((1, &[])), Err("`eol` kind mismatch."));
    assert_eq!(eol::from_option((0, &[1])), Err("`eol` expected no data."));
    assert_eq!(nop::from_option((1, &[])), Ok(()));
    assert_eq!(nop::from_option((0, &[])), Err("`nop` kind mismatch."));
    assert_eq!(nop::from_option((1, &[1])), Err("`nop` expected no data."));
    assert_eq!(eol::to_option(), Ok((0u8, &[][..])));
    assert_eq!(nop::to_option(), Ok((1u8, &[][..])));
}

#[test]
fn mss_option() {
    assert_eq!(mss::KIND, 2);
    assert_eq!(mss::to_option(1460), Ok((2u8, vec![0x05, 0xb4])));
    assert_eq!(mss::from_option((2, &[0x05, 0xb4])), Ok(1460));
    assert_eq!(mss::from_option((2, &[0, 0, 0x05, 0xb4])), Err("`mss` expected exactly 2 bytes."));
    assert_eq!(mss::from_option((3, &[0x05, 0xb4])), Err("`mss` kind mismatch."));
    assert_eq!(mss::to_option(0x1_0000), Err("`mss` expected 16 bit unsigned integer."));
    let (kind, data) = mss::to_option(0xffff).unwrap();
    assert_eq!(mss::from_option((kind, &data)), Ok(0xffff));
}

#[test]
fn mss_option_from_the_wire() {
    // The RFC 9293 option: kind 2, length 4, 1460.
    let bytes = [2u8, 4, 0x05, 0xb4];
    let option = option::from_bytes(&bytes).unwrap();
    assert_eq!(mss::from_option(option), Ok(1460));
}

#[test]
fn option_would_panic_on_short_length_bytes() {
    assert!(option::would_panic(&[2, 0]));
    assert!(option::would_panic(&[2, 1, 7]));
    assert!(!option::would_panic(&[2, 2]));
    assert!(!option::would_panic(&[1, 0]));
    assert!(!option::would_panic(&[2]));
    assert!(!option::would_panic(&[2, 3]));
}

#[test]
fn window_scale_option() {
    assert_eq!(window_scale::KIND, 3);
    assert_eq!(window_scale::to_option(7), Ok((3u8, vec![7])));
    assert_eq!(window_scale::from_option((3, &[14])), Ok(14));
    assert_eq!(
        window_scale::from_option((3, &[])),
        Err("`window_scale` expected exactly 1 bytes.")
    );
    assert_eq!(window_scale::from_option((2, &[1])), Err("`window_scale` kind mismatch."));
}

#[test]
fn sack_permitted_option() {
    assert_eq!(sack_permitted::KIND, 4);
    assert_eq!(sack_permitted::to_option(), Ok((4u8, &[][..])));
    assert_eq!(sack_permitted::from_option((4, &[])), Ok(()));
    assert_eq!(
        sack_permitted::from_option((4, &[0])),
        Err("`sack_permitted` expected exactly 0 bytes.")
    );
    assert_eq!(sack_permitted::from_option((5, &[])), Err("`sack_permitted` kind mismatch."));
}

#[test]
fn sack_option() {
    assert_eq!(sack::KIND, 5);
    let edges = vec![(1u32, 2u32), (0xdeadbeef, 0x01020304)];
    let (kind, data) = sack::to_option(edges.clone()).unwrap();
    assert_eq!(kind, 5);
    assert_eq!(
        data,
        vec![0, 0, 0, 1, 0, 0, 0, 2, 0xde, 0xad, 0xbe, 0xef, 1, 2, 3, 4]
    );
    assert_eq!(sack::from_option((5, &data)), Ok(edges));
    assert_eq!(sack::from_option((5, &[])), Ok(vec![]));
    assert_eq!(sack::to_option(vec![]), Ok((5u8, vec![])));
    assert_eq!(sack::from_option((5, &[0; 7])), Err("`sack` expected pairs of 4 byte values."));
    assert_eq!(sack::from_option((4, &[0; 8])), Err("`sack` kind mismatch."));
}

#[test]
fn timestamps_option() {
    assert_eq!(timestamps::KIND, 8);
    let (kind, data) = timestamps::to_option((0x01020304, 0xa0b0c0d0)).unwrap();
    assert_eq!(kind, 8);
    assert_eq!(data, vec![1, 2, 3, 4, 0xa0, 0xb0, 0xc0, 0xd0]);
    assert_eq!(timestamps::from_option((8, &data)), Ok((0x01020304, 0xa0b0c0d0)));
    assert_eq!(
        timestamps::from_option((8, &data[..4])),
        Err("`timestamps` expected exactly 8 bytes.")
    );
    assert_eq!(timestamps::from_option((5, &data)), Err("`timestamps` kind mismatch."));
}

#[test]
fn user_timeout_option() {
    assert_eq!(user_timeout::KIND, 28);
    assert_eq!(user_timeout::to_option((true, 0x1234)), Ok((28u8, vec![0x92, 0x34])));
    assert_eq!(user_timeout::to_option((false, 0x7fff)), Ok((28u8, vec![0x7f, 0xff])));
    assert_eq!(user_timeout::from_option((28, &[0x92, 0x34])), Ok((true, 0x1234)));
    assert_eq!(user_timeout::from_option((28, &[0x7f, 0xff])), Ok((false, 0x7fff)));
    assert_eq!(
        user_timeout::to_option((false, 0x8000)),
        Err("`user_timeout` expected 15 bit unsigned integer.")
    );
    assert_eq!(
        user_timeout::from_option((28, &[1])),
        Err("`user_timeout` expected exactly 2 bytes.")
    );
    assert_eq!(user_timeout::from_option((29, &[1, 2])), Err("`user_timeout` kind mismatch."));
}

#[test]
fn ao_option() {
    assert_eq!(ao::KIND, 29);
    let mac = [9u8, 8, 7, 6];
    let (kind, data) = ao::to_option((1, 2, &mac)).unwrap();
    assert_eq!(kind, 29);
    assert_eq!(data, vec![1, 2, 9, 8, 7, 6]);
    assert_eq!(ao::from_option((29, &data)), Ok((1u8, 2u8, &mac[..])));
    assert_eq!(ao::from_option((29, &[1, 2])), Ok((1u8, 2u8, &[][..])));
    assert_eq!(ao::from_option((29, &[1])), Err("`ao` expected at least 2 bytes."));
    assert_eq!(ao::from_option((28, &[1, 2])), Err("`ao` kind mismatch."));
}

#[test]
fn fast_open_option() {
    assert_eq!(fast_open::KIND, 34);
    let cookie = [1u8, 2, 3, 4, 5, 6];
    assert_eq!(fast_open::to_option(&cookie), Ok((34u8, cookie.to_vec())));
    assert_eq!(fast_open::from_option((34, &cookie)), Ok(Some(&cookie[..])));
    assert_eq!(fast_open::from_option((34, &[])), Ok(None));
    for n in [4usize, 6, 8, 10, 12, 14, 16] {
        let data = vec![0u8; n];
        assert_eq!(fast_open::from_option((34, &data)), Ok(Some(&data[..])));
    }
    for n in [1usize, 2, 3, 5, 17, 18] {
        let data = vec![0u8; n];
        assert_eq!(
            fast_open::from_option((34, &data)),
            Err("`fast_open` expected exactly 0 | 4 | 6 | 8 | 10 | 12 | 14 | 16 bytes.")
        );
    }
    assert_eq!(fast_open::from_option((33, &[])), Err("`fast_open` kind mismatch."));
}

#[test]
fn experimental_options_are_unavailable() {
    assert_eq!(experimental::KINDS, [76, 253, 254]);
    assert_eq!(experimental::from_option((253, &[1])), Err("Unavailable, format unknown."));
    assert_eq!(experimental::to_option(), Err("Unavailable, format unknown."));
}
