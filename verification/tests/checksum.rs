use tcp::{checksum, Checksum};

#[test]
fn checksum_of_rfc1071_example() {
    // RFC 1071, section 3: 0001 f203 f4f5 f6f7 sums to 2ddf0, folds to ddf2.
    assert_eq!(checksum(&[0x0001, 0xf203, 0xf4f5, 0xf6f7]), 0x220d);
}

#[test]
fn checksum_of_nothing_is_all_ones() {
    assert_eq!(checksum(&[]), 0xffff);
}

#[test]
fn checksum_of_all_ones_word_is_zero() {
    assert_eq!(checksum(&[0xffff]), 0);
    assert_eq!(checksum(&[0xffff, 0xffff]), 0);
}

#[test]
fn checksum_folds_several_carries() {
    // 0xffff * 3 = 0x2fffd folds to 0xffff.
    assert_eq!(checksum(&[0xffff, 0xffff, 0xffff]), 0);
    // 0x8000 + 0x8000 = 0x10000 folds to 0x0001.
    assert_eq!(checksum(&[0x8000, 0x8000]), 0xfffe);
}

#[test]
fn appending_the_checksum_verifies() {
    let words = [0x0001u16, 0xf203, 0xf4f5, 0xf6f7];
    let c = checksum(&words);
    assert_eq!(checksum(&[0x0001, 0xf203, 0xf4f5, 0xf6f7, c]), 0);
    assert_eq!(checksum(&[0]), 0xffff);
    assert_eq!(checksum(&[0, 0xffff]), 0);
}

#[test]
fn new_checksum_is_empty() {
    let cs = Checksum::new();
    assert_eq!(cs.accumulator, 0);
    assert_eq!(cs.digest(), 0xffff);
}

#[test]
fn incremental_words_match_one_shot() {
    let mut cs = Checksum::new();
    assert_eq!(cs.update_from_words(&[0x0001, 0xf203]), Ok(()));
    assert_eq!(cs.update_from_words(&[0xf4f5, 0xf6f7]), Ok(()));
    assert_eq!(cs.accumulator, 0x2ddf0);
    assert_eq!(cs.digest(), checksum(&[0x0001, 0xf203, 0xf4f5, 0xf6f7]));
}

#[test]
fn bytes_are_read_as_big_endian_words() {
    let mut cs = Checksum::new();
    assert_eq!(cs.update_from_bytes(&[0x00, 0x01, 0xf2, 0x03, 0xf4, 0xf5, 0xf6, 0xf7]), Ok(()));
    assert_eq!(cs.accumulator, 0x2ddf0);
    assert_eq!(cs.digest(), 0x220d);
}

#[test]
fn bytes_split_between_words_sum_the_same() {
    let data = [0x12u8, 0x34, 0xab, 0xcd, 0xff, 0x00];
    let mut whole = Checksum::new();
    whole.update_from_bytes(&data).unwrap();
    let mut parts = Checksum::new();
    parts.update_from_bytes(&data[..2]).unwrap();
    parts.update_from_bytes(&data[2..]).unwrap();
    assert_eq!(whole.accumulator, parts.accumulator);
    assert_eq!(whole.digest(), parts.digest());
}

#[test]
fn odd_byte_count_is_refused() {
    let mut cs = Checksum::new();
    cs.update_from_words(&[7]).unwrap();
    assert_eq!(cs.update_from_bytes(&[1, 2, 3]), Err("`bytes` needs to be word aligned."));
    assert_eq!(cs.accumulator, 7);
}

#[test]
fn digest_keeps_the_accumulator() {
    let cs = Checksum { accumulator: 0x1_fffe };
    // 0x1fffe folds to 0xffff.
    assert_eq!(cs.digest(), 0);
    assert_eq!(cs.accumulator, 0x1_fffe);
}
