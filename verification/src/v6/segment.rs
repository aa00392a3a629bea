//! TCPv6 segment
use vstd::prelude::*;
use vstd::slice::slice_subrange;
use crate::header::{header_bytes, Header};
use crate::ones_complement::{
    byte_words_total, complement_of, lemma_byte_words_total_bound,
    lemma_byte_words_total_bound_any, lemma_byte_words_total_concat, lemma_byte_words_total_pair,
    lemma_checksum_verifies, Checksum,
};
use crate::wire::{be_bytes, lemma_be_bytes_len, lemma_be_roundtrip, lemma_pow256_facts};
use crate::option::{is_encodable, is_well_formed, option_view};
use crate::segment::{
    all_data_fits, all_encodable, lemma_options_bytes_len, lemma_options_bytes_push,
    lemma_segment_roundtrip, options_bytes, options_len, options_view, segment_bytes,
    segment_parse, segment_parse_panics,
};
use crate::v6::{pseudo_header_bytes, PseudoHeader};

verus! {

/// A segment's parts as values: pseudo-header, header, options and payload.
pub open spec fn segment_view(t: (PseudoHeader, Header, Vec<(u8, &[u8])>, &[u8])) -> (
    PseudoHeader,
    Header,
    Seq<(u8, Seq<u8>)>,
    Seq<u8>,
) {
    (t.0, t.1, options_view(t.2@), t.3@)
}

/// The bytes that the checksum covers: pseudo-header, header, options and payload.
pub open spec fn checksummed_bytes(
    p: PseudoHeader,
    h: Header,
    opts: Seq<(u8, Seq<u8>)>,
    payload: Seq<u8>,
) -> Seq<u8> {
    pseudo_header_bytes(p) + header_bytes(h) + options_bytes(opts) + payload
}

/// The header with its checksum field cleared, as the checksum covers it.
pub open spec fn with_zero_checksum(h: Header) -> Header {
    Header { checksum: 0, ..h }
}

/// The checksum of a segment: that of its bytes with the checksum field
/// cleared, an odd last payload byte padded with a zero byte.
pub open spec fn segment_checksum(
    p: PseudoHeader,
    h: Header,
    opts: Seq<(u8, Seq<u8>)>,
    payload: Seq<u8>,
) -> u16 {
    complement_of(byte_words_total(checksummed_bytes(p, with_zero_checksum(h), opts, payload)))
}

/// The options that pad `d` option bytes to a multiple of 4: No Operations
/// and a closing End of Option List; four of them when `d` is a multiple of 4.
pub open spec fn padding(d: nat) -> Seq<(u8, Seq<u8>)> {
    pad_options().skip((d % 4) as int)
}

pub open spec fn pad_options() -> Seq<(u8, Seq<u8>)> {
    seq![
        (1u8, Seq::<u8>::empty()),
        (1u8, Seq::<u8>::empty()),
        (1u8, Seq::<u8>::empty()),
        (0u8, Seq::<u8>::empty()),
    ]
}

/// Some option is End of Option List.
pub open spec fn has_eol(opts: Seq<(u8, Seq<u8>)>) -> bool {
    exists|i: int| 0 <= i < opts.len() && (#[trigger] opts[i]).0 == crate::option::eol::KIND
}

/// Every option is well formed.
pub open spec fn all_well_formed(opts: Seq<(u8, Seq<u8>)>) -> bool {
    forall|i: int| 0 <= i < opts.len() ==> is_well_formed(#[trigger] opts[i])
}

/// What `make` does to a segment's parts: its result, and the parts it
/// leaves. The options are padded, the upper-layer length and the data
/// offset set and the checksum cleared before the last checks, so an error
/// there leaves them so.
pub open spec fn make_outcome(
    t: (PseudoHeader, Header, Seq<(u8, Seq<u8>)>, Seq<u8>),
) -> (Result<(), &'static str>, (PseudoHeader, Header, Seq<(u8, Seq<u8>)>, Seq<u8>)) {
    let p = t.0;
    let h = t.1;
    let opts = t.2;
    let payload = t.3;
    if has_eol(opts) {
        (Err("`eol` should not be supplied by user."), t)
    } else if !all_well_formed(opts) {
        (Err("`option` encounter invalid."), t)
    } else if opts.len() > 40 {
        (Err("`segment` too many options provided."), t)
    } else {
        let d = options_len(opts);
        let padded = opts + padding(d);
        let d2 = d + 4 - d % 4;
        if d2 > 40 {
            (Err("`option`s cannot fit inside a tcp segment header."), (p, h, padded, payload))
        } else if payload.len() > 0xffff - (20 + d2) {
            (Err("`segment`'s payload does not fit."), (p, h, padded, payload))
        } else {
            let p2 = PseudoHeader { ul_length: (20 + d2 + payload.len()) as u32, ..p };
            let h2 = Header { data_offset: (d2 / 4 + 5) as u8, checksum: 0, ..h };
            if h.flags > 0x1ff {
                (Err("`flags` expected 9 bit value."), (p2, h2, padded, payload))
            } else {
                (
                    Ok(()),
                    (
                        p2,
                        Header { checksum: segment_checksum(p2, h2, padded, payload), ..h2 },
                        padded,
                        payload,
                    ),
                )
            }
        }
    }
}

/// The checks that `check` makes before it computes the checksum: the next
/// header is TCP, the options are at most 40 and well formed, the
/// upper-layer length counts header, options and payload, and the data
/// offset counts the header and options, at most 60 bytes.
pub open spec fn check_reaches_checksum(t: (PseudoHeader, Header, Seq<(u8, Seq<u8>)>, Seq<u8>)) -> bool {
    let p = t.0;
    let h = t.1;
    &&& p.next_header == crate::PROTOCOL
    &&& t.2.len() <= 40
    &&& all_well_formed(t.2)
    &&& p.ul_length >= h.data_offset as nat * 4
    &&& p.ul_length - h.data_offset as nat * 4 == t.3.len()
    &&& 20 + options_len(t.2) <= 0x3c
    &&& 20 + options_len(t.2) == h.data_offset as nat * 4
}

/// Whether `check` accepts a segment's parts.
pub open spec fn check_outcome(t: (PseudoHeader, Header, Seq<(u8, Seq<u8>)>, Seq<u8>)) -> bool {
    &&& check_reaches_checksum(t)
    &&& t.1.checksum == segment_checksum(t.0, t.1, t.2, t.3)
}

/// The parts on which `check` panics: once it reaches the checksum, the
/// header flags exceed 9 bits, or the sum of the words overflows 32 bits.
pub open spec fn check_panics(t: (PseudoHeader, Header, Seq<(u8, Seq<u8>)>, Seq<u8>)) -> bool {
    &&& check_reaches_checksum(t)
    &&& (t.1.flags > 0x1ff || byte_words_total(
        checksummed_bytes(t.0, with_zero_checksum(t.1), t.2, t.3),
    ) > u32::MAX)
}

/// Whether some option is End of Option List.
fn any_eol(options: &Vec<(u8, &[u8])>) -> (r: bool)
    ensures
        r == has_eol(options_view(options@)),
{
    let mut i: usize = 0;
    while i < options.len()
        invariant
            i <= options@.len(),
            forall|j: int| 0 <= j < i ==> (#[trigger] options@[j]).0 != crate::option::eol::KIND,
        decreases options@.len() - i,
    {
        if options[i].0 == crate::option::eol::KIND {
            assert(options_view(options@)[i as int].0 == crate::option::eol::KIND);
            return true;
        }
        i = i + 1;
    }
    assert forall|j: int| 0 <= j < options@.len() implies (#[trigger] options_view(
        options@,
    )[j]).0 != crate::option::eol::KIND by {
        assert(options@[j].0 != crate::option::eol::KIND);
    }
    false
}

/// Whether some option is not well formed.
fn any_invalid(options: &Vec<(u8, &[u8])>) -> (r: bool)
    ensures
        r == !all_well_formed(options_view(options@)),
{
    let mut i: usize = 0;
    while i < options.len()
        invariant
            i <= options@.len(),
            forall|j: int| 0 <= j < i ==> is_well_formed(#[trigger] options_view(options@)[j]),
        decreases options@.len() - i,
    {
        if !crate::option::check(options[i]) {
            assert(options_view(options@)[i as int] == option_view(options@[i as int]));
            return true;
        }
        i = i + 1;
    }
    false
}

/// The number of bytes the options take on the wire.
fn options_size(options: &Vec<(u8, &[u8])>) -> (r: usize)
    requires
        options@.len() <= 40,
        all_well_formed(options_view(options@)),
    ensures
        r == options_len(options_view(options@)),
        r <= 256 * 40,
{
    let mut total: usize = 0;
    let mut i: usize = 0;
    assert(options_view(options@.take(0)) =~= Seq::<(u8, Seq<u8>)>::empty());
    while i < options.len()
        invariant
            i <= options@.len() <= 40,
            all_well_formed(options_view(options@)),
            total == options_len(options_view(options@.take(i as int))),
            total <= 256 * i,
        decreases options@.len() - i,
    {
        let option = options[i];
        assert(options_view(options@)[i as int] == option_view(option));
        assert(is_well_formed(option_view(option)));
        proof {
            lemma_options_bytes_push(options_view(options@.take(i as int)), option_view(option));
            assert(options_view(options@.take(i + 1)) =~= options_view(options@.take(i as int)).push(
                option_view(option),
            ));
        }
        total = total + 1 + if !(option.0 == 0 || option.0 == 1) {
            1
        } else {
            0
        } + option.1.len();
        i = i + 1;
    }
    assert(options@.take(i as int) =~= options@);
    total
}

/// The checksum of a segment whose header is valid; the error of
/// `Header::to_bytes` otherwise.
fn compute_checksum(
    pseudo: &PseudoHeader,
    header: &Header,
    options: &Vec<(u8, &[u8])>,
    payload: &[u8],
) -> (r: Result<u16, &'static str>)
    requires
        header.checksum == 0,
        header.data_offset <= 0xf,
        options_len(options_view(options@)) % 2 == 0,
        all_well_formed(options_view(options@)),
        all_data_fits(options_view(options@)),
        header.flags <= 0x1ff ==> byte_words_total(
            checksummed_bytes(*pseudo, *header, options_view(options@), payload@),
        ) <= u32::MAX,
    ensures
        header.flags > 0x1ff ==> r == Err::<u16, &'static str>("`flags` expected 9 bit value."),
        header.flags <= 0x1ff ==> r == Ok::<u16, &'static str>(
            complement_of(
                byte_words_total(
                    checksummed_bytes(*pseudo, *header, options_view(options@), payload@),
                ),
            ),
        ),
{
    let ghost opts = options_view(options@);
    let ghost pbs = pseudo_header_bytes(*pseudo);
    let ghost hbs = header_bytes(*header);
    let ghost obs = options_bytes(opts);
    let ghost all = checksummed_bytes(*pseudo, *header, opts, payload@);
    let mut cs = Checksum::new();
    let pb = match pseudo.to_bytes() {
        Ok(v) => v,
        Err(e) => return Err(e),
    };
    let hb = match header.to_bytes() {
        Ok(v) => v,
        Err(e) => return Err(e),
    };
    // The options, one after the other.
    let mut ob = Vec::<u8>::new();
    let mut i: usize = 0;
    while i < options.len()
        invariant
            i <= options@.len(),
            opts == options_view(options@),
            all_data_fits(opts),
            ob@ == options_bytes(options_view(options@.take(i as int))),
        decreases options@.len() - i,
    {
        let option = options[i];
        assert(opts[i as int] == option_view(option));
        let mut bytes = match crate::option::to_bytes(option) {
            Ok(v) => v,
            Err(e) => return Err(e),
        };
        proof {
            lemma_options_bytes_push(options_view(options@.take(i as int)), option_view(option));
            assert(options_view(options@.take(i + 1)) =~= options_view(options@.take(i as int)).push(
                option_view(option),
            ));
        }
        ob.append(&mut bytes);
        i = i + 1;
    }
    assert(options@.take(i as int) =~= options@);
    assert(ob@ == obs);
    proof {
        assert forall|j: int| 0 <= j < opts.len() implies is_encodable(#[trigger] opts[j]) by {
            assert(is_well_formed(opts[j]));
        }
        lemma_options_bytes_len(opts);
        crate::header::lemma_header_roundtrip(*header);
        crate::v6::lemma_pseudo_header_roundtrip(*pseudo);
        let payload_even = payload@.take(payload@.len() - payload@.len() % 2);
        let payload_odd = payload@.skip(payload@.len() - payload@.len() % 2);
        assert(payload@ =~= payload_even + payload_odd);
        assert(all =~= pbs + (hbs + (obs + (payload_even + payload_odd))));
        lemma_byte_words_total_concat(pbs, hbs + (obs + (payload_even + payload_odd)));
        lemma_byte_words_total_concat(hbs, obs + (payload_even + payload_odd));
        lemma_byte_words_total_concat(obs, payload_even + payload_odd);
        lemma_byte_words_total_concat(payload_even, payload_odd);
    }
    let plen = payload.len();
    assert((plen & !1usize) == plen - plen % 2) by (bit_vector);
    assert(((plen & 1usize) == 1usize) == (plen % 2 == 1)) by (bit_vector);
    let even = plen & !1usize;
    let ghost payload_even = payload@.take(even as int);
    let ghost payload_odd = payload@.skip(even as int);
    match cs.update_from_bytes(pb.as_slice()) {
        Ok(_) => {},
        Err(e) => return Err(e),
    }
    match cs.update_from_bytes(hb.as_slice()) {
        Ok(_) => {},
        Err(e) => return Err(e),
    }
    match cs.update_from_bytes(ob.as_slice()) {
        Ok(_) => {},
        Err(e) => return Err(e),
    }
    let head = slice_subrange(payload, 0, even);
    assert(head@ =~= payload_even);
    match cs.update_from_bytes(head) {
        Ok(_) => {},
        Err(e) => return Err(e),
    }
    if plen & 1 == 1 {
        let mut tail = Vec::<u8>::new();
        tail.push(payload[plen - 1]);
        tail.push(0);
        assert(byte_words_total(tail@) == byte_words_total(payload_odd)) by {
            assert(payload_odd =~= seq![payload@[plen - 1]]);
            assert(tail@ =~= seq![payload@[plen - 1], 0u8]);
            assert(tail@.skip(2) =~= Seq::<u8>::empty());
            assert(byte_words_total(tail@.skip(2)) == 0);
        }
        match cs.update_from_bytes(tail.as_slice()) {
            Ok(_) => {},
            Err(e) => return Err(e),
        }
    } else {
        assert(payload_odd =~= Seq::<u8>::empty());
    }
    Ok(cs.digest())
}

/// Construct a valid TCP segment from its components.
pub fn make(tuple: &mut (PseudoHeader, Header, Vec<(u8, &[u8])>, &[u8])) -> (r: Result<
    (),
    &'static str,
>)
    ensures
        make_outcome(segment_view(*old(tuple))) == (r, segment_view(*final(tuple))),
{
    let ghost start = segment_view(*tuple);
    // Sanity checks.
    if any_eol(&tuple.2) {
        return Err("`eol` should not be supplied by user.");
    } else if any_invalid(&tuple.2) {
        return Err("`option` encounter invalid.");
    } else if tuple.2.len() > 40 {
        return Err("`segment` too many options provided.");
    }
    let mut data_offset: usize = options_size(&tuple.2);
    let ghost d = data_offset as nat;
    // Align 4 byte boundary.
    let rem = data_offset % 4;
    let mut k: usize = rem;
    let empty: &[u8] = &[];
    assert(empty@ =~= Seq::<u8>::empty());
    assert(pad_options().subrange(rem as int, rem as int) =~= Seq::<(u8, Seq<u8>)>::empty());
    while k < 4
        invariant
            rem <= k <= 4,
            empty@ == Seq::<u8>::empty(),
            tuple.0 == start.0,
            tuple.1 == start.1,
            tuple.3@ == start.3,
            options_view(tuple.2@) == start.2 + pad_options().subrange(rem as int, k as int),
        decreases 4 - k,
    {
        let ghost before = tuple.2@;
        let kind: u8 = if k < 3 {
            1
        } else {
            0
        };
        tuple.2.push((kind, empty));
        assert(options_view(tuple.2@) =~= options_view(before).push((kind, Seq::<u8>::empty())));
        assert(pad_options().subrange(rem as int, k + 1) =~= pad_options().subrange(
            rem as int,
            k as int,
        ).push((kind, Seq::<u8>::empty())));
        k = k + 1;
    }
    assert(pad_options().subrange(rem as int, 4) =~= padding(d));
    data_offset = data_offset + (4 - rem);
    if data_offset > 40 {
        return Err("`option`s cannot fit inside a tcp segment header.");
    } else if tuple.3.len() > 0xffff - (20 + data_offset) {
        return Err("`segment`'s payload does not fit.");
    }
    // Set correct fields.

    tuple.0.ul_length = (20 + data_offset + tuple.3.len()) as u32;
    assert(data_offset >> 2usize == data_offset / 4) by (bit_vector);
    tuple.1.data_offset = (data_offset >> 2) as u8 + 5;
    tuple.1.checksum = 0;
    // Checksum computation.
    proof {
        let padded = options_view(tuple.2@);
        lemma_padded_options(start.2);
        lemma_all_data_fits(padded);
        assert forall|i: int| 0 <= i < padded.len() implies is_encodable(#[trigger] padded[i]) by {
            assert(is_well_formed(padded[i]));
        }
        if tuple.1.flags <= 0x1ff {
            lemma_checksummed_bound(tuple.0, tuple.1, padded, tuple.3@);
        }
    }
    let checksum = match compute_checksum(&tuple.0, &tuple.1, &tuple.2, tuple.3) {
        Ok(c) => c,
        Err(e) => return Err(e),
    };
    tuple.1.checksum = checksum;
    Ok(())
}

/// Verifies the integrity of a TCP segment.
pub fn check(tuple: &mut (PseudoHeader, Header, Vec<(u8, &[u8])>, &[u8])) -> (r: bool)
    requires
        !check_panics(segment_view(*old(tuple))),
    ensures
        r == check_outcome(segment_view(*old(tuple))),
        *final(tuple) == *old(tuple),
{
    let ghost start = segment_view(*tuple);
    // Check protocol, 1st options check, lengths
    if tuple.0.next_header != crate::PROTOCOL || tuple.2.len() > 40 || any_invalid(&tuple.2)
        || tuple.0.ul_length < (tuple.1.data_offset as u32) * 4 || (tuple.0.ul_length - (
    tuple.1.data_offset as u32) * 4) as usize != tuple.3.len() {
        return false;
    }
    // Check data_offset
    let data_offset: usize = 20 + options_size(&tuple.2);
    let doff = tuple.1.data_offset as usize;
    assert(doff << 2usize == doff * 4) by (bit_vector)
        requires
            doff <= 0xff,
    ;
    if data_offset > 0x3c || data_offset != (tuple.1.data_offset as usize) << 2 {
        return false;
    }
    let checksum = tuple.1.checksum;
    // Checksum computation, with the checksum field cleared.
    tuple.1.checksum = 0;
    proof {
        lemma_all_data_fits(start.2);
        assert(tuple.1 == with_zero_checksum(start.1));
    }
    let computed = compute_checksum(&tuple.0, &tuple.1, &tuple.2, tuple.3);
    tuple.1.checksum = checksum;
    match computed {
        Ok(c) => tuple.1.checksum == c,
        Err(_) => false,
    }
}

/// Options that fit in 40 bytes each fit in what `option::to_bytes` writes.
proof fn lemma_all_data_fits(opts: Seq<(u8, Seq<u8>)>)
    requires
        options_len(opts) <= 40,
    ensures
        all_data_fits(opts),
    decreases opts.len(),
{
    if opts.len() > 0 {
        lemma_all_data_fits(opts.skip(1));
        assert forall|i: int| 0 <= i < opts.len() implies (#[trigger] opts[i]).1.len() <= 0xfd by {
            if i > 0 {
                assert(opts[i] == opts.skip(1)[i - 1]);
            }
        }
    }
}

/// Padding options that `make` adds: well formed, encodable, and they bring
/// the options' length to the next multiple of 4 above it.
proof fn lemma_padded_options(opts: Seq<(u8, Seq<u8>)>)
    requires
        all_well_formed(opts),
        !has_eol(opts),
    ensures
        ({
            let d = options_len(opts);
            let padded = opts + padding(d);
            &&& options_len(padded) == d + 4 - d % 4
            &&& all_well_formed(padded)
            &&& padded.len() > 0 && padded.last().0 == crate::option::eol::KIND
        }),
{
    let d = options_len(opts);
    let pad = padding(d);
    lemma_options_len_concat(opts, pad);
    lemma_padding_len(d);
    assert forall|i: int| 0 <= i < (opts + pad).len() implies is_well_formed(
        #[trigger] (opts + pad)[i],
    ) by {
        if i >= opts.len() {
            assert((opts + pad)[i] == pad[i - opts.len()]);
        }
    }
}

proof fn lemma_padding_len(d: nat)
    ensures
        options_len(padding(d)) == 4 - d % 4,
        padding(d).len() == 4 - d % 4,
        padding(d).last() == (0u8, Seq::<u8>::empty()),
        forall|i: int| 0 <= i < padding(d).len() ==> (#[trigger] padding(d)[i]).1.len() == 0,
        forall|i: int|
            0 <= i < padding(d).len() - 1 ==> #[trigger] padding(d)[i] == (
                1u8,
                Seq::<u8>::empty(),
            ),
{
    let pad = padding(d);
    reveal_with_fuel(options_len, 5);
    let e = Seq::<u8>::empty();
    if d % 4 == 0 {
        assert(pad =~= seq![(1u8, e), (1u8, e), (1u8, e), (0u8, e)]);
        assert(pad.skip(1) =~= seq![(1u8, e), (1u8, e), (0u8, e)]);
        assert(pad.skip(1).skip(1) =~= seq![(1u8, e), (0u8, e)]);
        assert(pad.skip(1).skip(1).skip(1) =~= seq![(0u8, e)]);
        assert(pad.skip(1).skip(1).skip(1).skip(1) =~= Seq::<(u8, Seq<u8>)>::empty());
    } else if d % 4 == 1 {
        assert(pad =~= seq![(1u8, e), (1u8, e), (0u8, e)]);
        assert(pad.skip(1) =~= seq![(1u8, e), (0u8, e)]);
        assert(pad.skip(1).skip(1) =~= seq![(0u8, e)]);
        assert(pad.skip(1).skip(1).skip(1) =~= Seq::<(u8, Seq<u8>)>::empty());
    } else if d % 4 == 2 {
        assert(pad =~= seq![(1u8, e), (0u8, e)]);
        assert(pad.skip(1) =~= seq![(0u8, e)]);
        assert(pad.skip(1).skip(1) =~= Seq::<(u8, Seq<u8>)>::empty());
    } else {
        assert(pad =~= seq![(0u8, e)]);
        assert(pad.skip(1) =~= Seq::<(u8, Seq<u8>)>::empty());
    }
}

/// The length of two lists of options one after the other.
proof fn lemma_options_len_concat(a: Seq<(u8, Seq<u8>)>, b: Seq<(u8, Seq<u8>)>)
    ensures
        options_len(a + b) == options_len(a) + options_len(b),
        options_bytes(a + b) == options_bytes(a) + options_bytes(b),
    decreases a.len(),
{
    if a.len() == 0 {
        assert(a + b =~= b);
        assert(options_bytes(a) =~= Seq::<u8>::empty());
        assert(options_bytes(a) + options_bytes(b) =~= options_bytes(b));
    } else {
        lemma_options_len_concat(a.skip(1), b);
        assert((a + b).skip(1) =~= a.skip(1) + b);
        assert((a + b)[0] == a[0]);
        assert(options_bytes(a + b) =~= options_bytes(a) + options_bytes(b));
    }
}

/// The words of a segment that `make` checksums sum to less than `2^32`.
proof fn lemma_checksummed_bound(
    p: PseudoHeader,
    h: Header,
    opts: Seq<(u8, Seq<u8>)>,
    payload: Seq<u8>,
)
    requires
        h.is_valid(),
        forall|i: int| 0 <= i < opts.len() ==> is_encodable(#[trigger] opts[i]),
        options_len(opts) <= 40,
        options_len(opts) % 2 == 0,
        payload.len() <= 0xffff,
    ensures
        byte_words_total(checksummed_bytes(p, h, opts, payload)) <= u32::MAX,
{
    let pbs = pseudo_header_bytes(p);
    let hbs = header_bytes(h);
    let obs = options_bytes(opts);
    crate::header::lemma_header_roundtrip(h);
    crate::v6::lemma_pseudo_header_roundtrip(p);
    lemma_options_bytes_len(opts);
    assert(checksummed_bytes(p, h, opts, payload) =~= pbs + (hbs + (obs + payload)));
    lemma_byte_words_total_concat(pbs, hbs + (obs + payload));
    lemma_byte_words_total_concat(hbs, obs + payload);
    lemma_byte_words_total_concat(obs, payload);
    lemma_byte_words_total_bound(pbs);
    lemma_byte_words_total_bound(hbs);
    lemma_byte_words_total_bound(obs);
    lemma_byte_words_total_bound_any(payload);
}

/// The options of a segment that `make` builds: padded, well formed,
/// encodable, a multiple of 4 bytes long.
proof fn lemma_made_options(t: (PseudoHeader, Header, Seq<(u8, Seq<u8>)>, Seq<u8>))
    requires
        make_outcome(t).0 is Ok,
    ensures
        ({
            let m = make_outcome(t).1;
            let d2 = options_len(t.2) + 4 - options_len(t.2) % 4;
            &&& m.2 == t.2 + padding(options_len(t.2))
            &&& options_len(m.2) == d2
            &&& d2 <= 40
            &&& d2 % 4 == 0
            &&& all_well_formed(m.2)
            &&& all_encodable(m.2)
            &&& m.2.len() <= d2
            &&& all_data_fits(m.2)
        }),
{
    let m = make_outcome(t).1;
    lemma_padded_options(t.2);
    lemma_all_data_fits(m.2);
    assert forall|i: int| 0 <= i < m.2.len() implies is_encodable(#[trigger] m.2[i]) by {
        assert(is_well_formed(m.2[i]));
    }
    lemma_options_bytes_len(m.2);
}

/// A segment that `make` builds, with TCP as its next header, passes `check`.
pub proof fn lemma_make_then_check(t: (PseudoHeader, Header, Seq<(u8, Seq<u8>)>, Seq<u8>))
    requires
        make_outcome(t).0 is Ok,
        t.0.next_header == crate::PROTOCOL,
    ensures
        !check_panics(make_outcome(t).1),
        check_outcome(make_outcome(t).1),
{
    let m = make_outcome(t).1;
    lemma_made_options(t);
    let h2 = with_zero_checksum(m.1);
    assert(h2.is_valid());
    lemma_checksummed_bound(m.0, h2, m.2, m.3);
}

/// A segment that `make` builds, written by `segment::to_bytes`, is read
/// back by `segment::from_bytes` as the same header, options and payload.
pub proof fn lemma_made_segment_parses(t: (PseudoHeader, Header, Seq<(u8, Seq<u8>)>, Seq<u8>))
    requires
        make_outcome(t).0 is Ok,
    ensures
        ({
            let m = make_outcome(t).1;
            &&& m.1.is_valid()
            &&& all_data_fits(m.2)
            &&& !segment_parse_panics(segment_bytes(m.1, m.2, m.3))
            &&& segment_parse(segment_bytes(m.1, m.2, m.3)) == Ok::<
                (Header, Seq<(u8, Seq<u8>)>, Seq<u8>),
                &'static str,
            >((m.1, m.2, m.3))
        }),
{
    let m = make_outcome(t).1;
    lemma_made_options(t);
    lemma_segment_roundtrip(m.1, m.2, m.3);
}

/// The word sum of a header is that of the header with its checksum field
/// cleared, plus the checksum: the field is one aligned word.
proof fn lemma_header_sum_with_checksum(h: Header)
    ensures
        byte_words_total(header_bytes(h)) == byte_words_total(
            header_bytes(Header { checksum: 0, ..h }),
        ) + h.checksum,
{
    let h0 = Header { checksum: 0, ..h };
    let x = be_bytes(h.source_port as nat, 2) + be_bytes(h.destination_port as nat, 2) + be_bytes(
        h.sequence_number as nat,
        4,
    ) + be_bytes(h.acknowledgment_number as nat, 4) + be_bytes(
        crate::header::offset_flags_word(h),
        2,
    ) + be_bytes(h.window as nat, 2);
    let c = be_bytes(h.checksum as nat, 2);
    let z = be_bytes(0, 2);
    let u = be_bytes(h.urgent_pointer as nat, 2);
    lemma_be_bytes_len(h.source_port as nat, 2);
    lemma_be_bytes_len(h.destination_port as nat, 2);
    lemma_be_bytes_len(h.sequence_number as nat, 4);
    lemma_be_bytes_len(h.acknowledgment_number as nat, 4);
    lemma_be_bytes_len(crate::header::offset_flags_word(h), 2);
    lemma_be_bytes_len(h.window as nat, 2);
    lemma_pow256_facts();
    lemma_be_roundtrip(h.checksum as nat, 2);
    lemma_be_roundtrip(0, 2);
    assert(header_bytes(h) == x + c + u);
    assert(header_bytes(h0) == x + z + u);
    lemma_byte_words_total_concat(x + c, u);
    lemma_byte_words_total_concat(x, c);
    lemma_byte_words_total_concat(x + z, u);
    lemma_byte_words_total_concat(x, z);
    lemma_byte_words_total_pair(c);
    lemma_byte_words_total_pair(z);
}

/// The word sum of a pseudo-header followed by a segment: the pieces summed
/// one by one, each but the payload a whole number of words.
proof fn lemma_segment_sum(p: PseudoHeader, h: Header, opts: Seq<(u8, Seq<u8>)>, payload: Seq<u8>)
    requires
        options_bytes(opts).len() % 2 == 0,
    ensures
        byte_words_total(pseudo_header_bytes(p) + segment_bytes(h, opts, payload))
            == byte_words_total(pseudo_header_bytes(p)) + byte_words_total(header_bytes(h))
            + byte_words_total(options_bytes(opts)) + byte_words_total(payload),
        byte_words_total(checksummed_bytes(p, h, opts, payload)) == byte_words_total(
            pseudo_header_bytes(p),
        ) + byte_words_total(header_bytes(h)) + byte_words_total(options_bytes(opts))
            + byte_words_total(payload),
{
    let pb = pseudo_header_bytes(p);
    let hb = header_bytes(h);
    let ob = options_bytes(opts);
    crate::v6::lemma_pseudo_header_wire_layout(p);
    crate::header::lemma_header_wire_layout(h);
    assert(pb + segment_bytes(h, opts, payload) =~= pb + (hb + (ob + payload)));
    assert(checksummed_bytes(p, h, opts, payload) =~= pb + (hb + (ob + payload)));
    lemma_byte_words_total_concat(pb, hb + (ob + payload));
    lemma_byte_words_total_concat(hb, ob + payload);
    lemma_byte_words_total_concat(ob, payload);
}

/// Well-formed options take on the wire the bytes that `options_len` counts.
proof fn lemma_well_formed_bytes_len(opts: Seq<(u8, Seq<u8>)>)
    requires
        all_well_formed(opts),
    ensures
        options_bytes(opts).len() == options_len(opts),
    decreases opts.len(),
{
    if opts.len() > 0 {
        let tail = opts.skip(1);
        assert forall|i: int| 0 <= i < tail.len() implies is_well_formed(#[trigger] tail[i]) by {
            assert(tail[i] == opts[i + 1]);
        }
        lemma_well_formed_bytes_len(tail);
        assert(is_well_formed(opts[0]));
    }
}

/// A segment that `make` builds verifies at the receiver: the pseudo-header
/// followed by the segment's bytes on the wire, stored checksum included,
/// has a checksum of 0 (RFC 9293, section 3.1).
pub proof fn lemma_made_segment_verifies(t: (PseudoHeader, Header, Seq<(u8, Seq<u8>)>, Seq<u8>))
    requires
        make_outcome(t).0 is Ok,
    ensures
        ({
            let m = make_outcome(t).1;
            complement_of(
                byte_words_total(pseudo_header_bytes(m.0) + segment_bytes(m.1, m.2, m.3)),
            ) == 0
        }),
{
    let m = make_outcome(t).1;
    lemma_made_options(t);
    lemma_options_bytes_len(m.2);
    let h0 = Header { checksum: 0, ..m.1 };
    lemma_segment_sum(m.0, m.1, m.2, m.3);
    lemma_segment_sum(m.0, h0, m.2, m.3);
    lemma_header_sum_with_checksum(m.1);
    let s0 = byte_words_total(checksummed_bytes(m.0, h0, m.2, m.3));
    assert(m.1.checksum == complement_of(s0));
    lemma_checksum_verifies(s0);
}

/// What `make` builds: the options given, then No Operations and a closing
/// End of Option List up to a multiple of 4 bytes; a data offset that counts
/// the header and options; an upper-layer length that counts the whole
/// segment; the addresses, next header, the other header fields and the
/// payload kept.
pub proof fn lemma_made_segment_shape(t: (PseudoHeader, Header, Seq<(u8, Seq<u8>)>, Seq<u8>))
    requires
        make_outcome(t).0 is Ok,
    ensures
        ({
            let m = make_outcome(t).1;
            &&& m.3 == t.3
            &&& m.0.source_address == t.0.source_address
            &&& m.0.destination_address == t.0.destination_address
            &&& m.0.next_header == t.0.next_header
            &&& m.1.source_port == t.1.source_port
            &&& m.1.destination_port == t.1.destination_port
            &&& m.1.sequence_number == t.1.sequence_number
            &&& m.1.acknowledgment_number == t.1.acknowledgment_number
            &&& m.1.flags == t.1.flags
            &&& m.1.window == t.1.window
            &&& m.1.urgent_pointer == t.1.urgent_pointer
            &&& t.2.len() < m.2.len() <= t.2.len() + 4
            &&& m.2.subrange(0, t.2.len() as int) == t.2
            &&& (forall|i: int|
                t.2.len() <= i < m.2.len() - 1 ==> #[trigger] m.2[i] == (1u8, Seq::<u8>::empty()))
            &&& m.2.last() == (0u8, Seq::<u8>::empty())
            &&& options_bytes(m.2).len() % 4 == 0
            &&& options_bytes(m.2).len() <= 40
            &&& m.1.data_offset as nat * 4 == header_bytes(m.1).len() + options_bytes(m.2).len()
            &&& m.0.ul_length as nat == segment_bytes(m.1, m.2, m.3).len()
        }),
{
    let m = make_outcome(t).1;
    lemma_made_options(t);
    lemma_options_bytes_len(m.2);
    let d = options_len(t.2);
    lemma_padding_len(d);
    crate::header::lemma_header_wire_layout(m.1);
    let pad = padding(d);
    assert(m.2.subrange(0, t.2.len() as int) =~= t.2);
    assert forall|i: int| t.2.len() <= i < m.2.len() - 1 implies #[trigger] m.2[i] == (
        1u8,
        Seq::<u8>::empty(),
    ) by {
        assert(m.2[i] == pad[i - t.2.len()]);
    }
    assert(m.2.last() == pad.last());
}

/// `check` accepts every segment whose next header is TCP, whose options are
/// at most 40 and well formed, whose data offset counts the header and
/// options (at most 60 bytes), whose upper-layer length counts the whole
/// segment, and whose checksum field holds the checksum of pseudo-header,
/// header with the field cleared, options and payload. No option is needed.
pub proof fn lemma_check_accepts(t: (PseudoHeader, Header, Seq<(u8, Seq<u8>)>, Seq<u8>))
    requires
        t.0.next_header == crate::PROTOCOL,
        t.2.len() <= 40,
        forall|i: int| 0 <= i < t.2.len() ==> is_well_formed(#[trigger] t.2[i]),
        20 + options_bytes(t.2).len() == t.1.data_offset as nat * 4,
        t.1.data_offset as nat * 4 <= 60,
        t.0.ul_length as nat == t.1.data_offset as nat * 4 + t.3.len(),
        t.1.checksum == complement_of(
            byte_words_total(
                pseudo_header_bytes(t.0) + header_bytes(Header { checksum: 0, ..t.1 })
                    + options_bytes(t.2) + t.3,
            ),
        ),
    ensures
        check_outcome(t),
{
    lemma_well_formed_bytes_len(t.2);
}

/// A segment that `check` accepts verifies at the receiver, and its lengths
/// are those of its bytes on the wire: the data offset counts header and
/// options, the upper-layer length the whole segment.
pub proof fn lemma_check_verifies(t: (PseudoHeader, Header, Seq<(u8, Seq<u8>)>, Seq<u8>))
    requires
        check_outcome(t),
    ensures
        complement_of(byte_words_total(pseudo_header_bytes(t.0) + segment_bytes(t.1, t.2, t.3)))
            == 0,
        t.1.data_offset as nat * 4 == header_bytes(t.1).len() + options_bytes(t.2).len(),
        t.0.ul_length as nat == segment_bytes(t.1, t.2, t.3).len(),
{
    lemma_well_formed_bytes_len(t.2);
    crate::header::lemma_header_wire_layout(t.1);
    let h0 = Header { checksum: 0, ..t.1 };
    lemma_segment_sum(t.0, t.1, t.2, t.3);
    lemma_segment_sum(t.0, h0, t.2, t.3);
    lemma_header_sum_with_checksum(t.1);
    let s0 = byte_words_total(checksummed_bytes(t.0, h0, t.2, t.3));
    assert(with_zero_checksum(t.1) == h0);
    lemma_checksum_verifies(s0);
}

} // verus!
