//! A whole TCP segment: header, options and payload.
use vstd::prelude::*;
use vstd::slice::slice_subrange;
use crate::header::{
    header_bytes, header_of, lemma_header_bytes_of_parse, lemma_header_of_prefix,
    lemma_header_roundtrip, Header,
};
use crate::option::{
    is_encodable, lemma_option_roundtrip, lemma_option_size, option_bytes,
    option_len, option_parse, option_parse_panics, option_size, option_view,
};

verus! {

/// A list of options as values.
pub open spec fn options_view(v: Seq<(u8, &[u8])>) -> Seq<(u8, Seq<u8>)> {
    v.map_values(|o: (u8, &[u8])| option_view(o))
}

/// A list of options on the wire, one after the other.
pub open spec fn options_bytes(opts: Seq<(u8, Seq<u8>)>) -> Seq<u8>
    decreases opts.len(),
{
    if opts.len() == 0 {
        Seq::empty()
    } else {
        option_bytes(opts[0]) + options_bytes(opts.skip(1))
    }
}

/// The number of bytes a list of options takes on the wire.
pub open spec fn options_len(opts: Seq<(u8, Seq<u8>)>) -> nat
    decreases opts.len(),
{
    if opts.len() == 0 {
        0
    } else {
        option_len(opts[0]) + options_len(opts.skip(1))
    }
}

/// The options that `from_bytes` reads from an options area, or the error it
/// reports. Options are read one after the other until the area is used up:
/// the list ends at the data offset, with or without End of Option List
/// (RFC 9293, section 3.1).
pub open spec fn options_parse(buf: Seq<u8>) -> Result<Seq<(u8, Seq<u8>)>, &'static str>
    decreases buf.len(),
{
    if buf.len() == 0 {
        Ok(Seq::empty())
    } else {
        match option_parse(buf) {
            Err(e) => Err(e),
            Ok(o) => {
                let n = option_size(buf);
                // `n < 1` only for a length byte of 0, on which `from_bytes` panics.
                if n < 1 || n >= buf.len() {
                    Ok(seq![o])
                } else {
                    match options_parse(buf.skip(n)) {
                        Err(e) => Err(e),
                        Ok(rest) => Ok(seq![o] + rest),
                    }
                }
            },
        }
    }
}

/// The options areas on which `from_bytes` panics: an option on the way
/// whose length byte is below 2.
pub open spec fn options_parse_panics(buf: Seq<u8>) -> bool
    decreases buf.len(),
{
    if buf.len() == 0 {
        false
    } else if option_parse_panics(buf) {
        true
    } else if option_parse(buf) is Err {
        false
    } else {
        let n = option_size(buf);
        if n < 1 || n >= buf.len() {
            false
        } else {
            options_parse_panics(buf.skip(n))
        }
    }
}

/// The end of the header and options: the data offset counts 32-bit words.
pub open spec fn header_end(s: Seq<u8>) -> int {
    header_of(s).data_offset as int * 4
}

/// What `from_bytes` reads from a segment: header, options and payload, or
/// the error it reports.
pub open spec fn segment_parse(s: Seq<u8>) -> Result<
    (Header, Seq<(u8, Seq<u8>)>, Seq<u8>),
    &'static str,
> {
    if s.len() < 20 {
        Err("`tcp` header only partial, more data required.")
    } else if s.len() < header_end(s) {
        Err("`segment` only partial, more data required.")
    } else {
        match options_parse(s.subrange(20, header_end(s))) {
            Err(e) => Err(e),
            Ok(opts) => Ok((header_of(s), opts, s.skip(header_end(s)))),
        }
    }
}

/// The segments on which `from_bytes` panics: a data offset below 5, which
/// ends the header inside its fixed part, or a malformed option length.
pub open spec fn segment_parse_panics(s: Seq<u8>) -> bool {
    &&& s.len() >= 20
    &&& header_end(s) <= s.len()
    &&& (header_end(s) < 20 || options_parse_panics(s.subrange(20, header_end(s))))
}

/// A segment on the wire.
pub open spec fn segment_bytes(h: Header, opts: Seq<(u8, Seq<u8>)>, payload: Seq<u8>) -> Seq<u8> {
    header_bytes(h) + options_bytes(opts) + payload
}

/// The options on the way of an options area, before the next one is read,
/// followed by what the rest of the area gives.
pub open spec fn prepend_options(
    done: Seq<(u8, Seq<u8>)>,
    rest: Result<Seq<(u8, Seq<u8>)>, &'static str>,
) -> Result<Seq<(u8, Seq<u8>)>, &'static str> {
    match rest {
        Ok(l) => Ok(done + l),
        Err(e) => Err(e),
    }
}

/// Reads a segment: the header, the options its data offset encloses, and the payload.
pub fn from_bytes(bytes: &[u8]) -> (r: Result<(Header, Vec<(u8, &[u8])>, &[u8]), &'static str>)
    requires
        !segment_parse_panics(bytes@),
    ensures
        match r {
            Ok(t) => segment_parse(bytes@) == Ok::<
                (Header, Seq<(u8, Seq<u8>)>, Seq<u8>),
                &'static str,
            >((t.0, options_view(t.1@), t.2@)),
            Err(e) => segment_parse(bytes@) == Err::<
                (Header, Seq<(u8, Seq<u8>)>, Seq<u8>),
                &'static str,
            >(e),
        },
{
    let header = match Header::from_bytes(bytes) {
        Ok(h) => h,
        Err(e) => return Err(e),
    };
    if bytes.len() < (header.data_offset * 4) as usize {
        return Err("`segment` only partial, more data required.");
    }
    let end = (header.data_offset * 4) as usize;
    let ghost area = bytes@.subrange(20, end as int);
    let mut buffer = slice_subrange(bytes, Header::PACKED_SIZE, end);
    let mut options = Vec::<(u8, &[u8])>::new();
    assert(options_view(options@) =~= Seq::<(u8, Seq<u8>)>::empty());
    assert(prepend_options(Seq::empty(), options_parse(area)) =~= options_parse(area));
    while !buffer.is_empty()
        invariant
            bytes@.len() >= 20,
            header == header_of(bytes@),
            area == bytes@.subrange(20, header_end(bytes@)),
            header_end(bytes@) <= bytes@.len(),
            !options_parse_panics(buffer@),
            options_parse(area) == prepend_options(options_view(options@), options_parse(buffer@)),
        decreases buffer@.len(),
    {
        let ghost before = buffer@;
        let option = match crate::option::from_bytes(buffer) {
            Ok(o) => o,
            Err(e) => {
                assert(options_parse(before) == Err::<Seq<(u8, Seq<u8>)>, &'static str>(e));
                return Err(e);
            },
        };
        proof {
            lemma_option_size(before);
        }
        let olen = 1 + if !(option.0 == 0 || option.0 == 1) {
            1
        } else {
            0
        } + option.1.len();
        let ghost done = options_view(options@);
        assert(olen == option_size(before));
        options.push(option);
        assert(options_view(options@) =~= done.push(option_view(option)));
        buffer = slice_subrange(buffer, olen, buffer.len());
        if buffer.is_empty() {
            assert(done.push(option_view(option)) + Seq::<(u8, Seq<u8>)>::empty() =~= done + seq![
                option_view(option),
            ]);
        } else {
            assert(buffer@ =~= before.skip(option_size(before)));
            proof {
                if let Ok(l) = options_parse(buffer@) {
                    assert(done + (seq![option_view(option)] + l) =~= done.push(
                        option_view(option),
                    ) + l);
                }
            }
        }
    }
    assert(options_view(options@) + Seq::<(u8, Seq<u8>)>::empty() =~= options_view(options@));
    let data_offset = header.data_offset as usize;
    Ok((header, options, slice_subrange(bytes, data_offset * 4, bytes.len())))
}

/// Whether `from_bytes` would panic on `bytes`: a data offset below 5 that
/// the bytes reach, or a malformed option length on the way through the options.
pub fn would_panic(bytes: &[u8]) -> (r: bool)
    ensures
        r == segment_parse_panics(bytes@),
{
    if bytes.len() < Header::PACKED_SIZE {
        return false;
    }
    let b12 = bytes[12];
    assert(b12 >> 4 == b12 / 16) by (bit_vector);
    let end = (b12 >> 4) as usize * 4;
    assert(end == header_end(bytes@));
    if end > bytes.len() {
        return false;
    } else if end < Header::PACKED_SIZE {
        return true;
    }
    options_would_panic(slice_subrange(bytes, Header::PACKED_SIZE, end))
}

/// Whether reading the options of `buf` would panic.
fn options_would_panic(buf: &[u8]) -> (r: bool)
    ensures
        r == options_parse_panics(buf@),
{
    let mut rest = buf;
    while !rest.is_empty()
        invariant
            options_parse_panics(buf@) == options_parse_panics(rest@),
        decreases rest@.len(),
    {
        if crate::option::would_panic(rest) {
            return true;
        }
        let option = match crate::option::from_bytes(rest) {
            Ok(o) => o,
            Err(_) => return false,
        };
        proof {
            lemma_option_size(rest@);
        }
        let n = 1 + if !(option.0 == 0 || option.0 == 1) {
            1
        } else {
            0
        } + option.1.len();
        assert(n == option_size(rest@));
        if n >= rest.len() {
            return false;
        }
        let ghost before = rest@;
        rest = slice_subrange(rest, n, rest.len());
        assert(rest@ =~= before.skip(n as int));
    }
    false
}

/// Writes a segment: the header, each option, then the payload.
pub fn to_bytes(tuple: (Header, Vec<(u8, &[u8])>, &[u8])) -> (r: Result<Vec<u8>, &'static str>)
    ensures
        tuple.0.data_offset > 0xf ==> r == Err::<Vec<u8>, &'static str>(
            "`data_offset` expected 4 bit value.",
        ),
        tuple.0.data_offset <= 0xf && tuple.0.flags > 0x1ff ==> r == Err::<Vec<u8>, &'static str>(
            "`flags` expected 9 bit value.",
        ),
        tuple.0.is_valid() && !all_data_fits(options_view(tuple.1@)) ==> r == Err::<
            Vec<u8>,
            &'static str,
        >("`option` data too big."),
        tuple.0.is_valid() && all_data_fits(options_view(tuple.1@)) ==> (r matches Ok(v) && v@
            == segment_bytes(tuple.0, options_view(tuple.1@), tuple.2@)),
{
    let mut bytes = Vec::<u8>::new();
    let mut head = match tuple.0.to_bytes() {
        Ok(v) => v,
        Err(e) => return Err(e),
    };
    bytes.append(&mut head);
    let opts = tuple.1;
    let mut i: usize = 0;
    while i < opts.len()
        invariant
            i <= opts@.len(),
            opts@ == tuple.1@,
            tuple.0.is_valid(),
            forall|j: int| 0 <= j < i ==> (#[trigger] opts@[j]).1@.len() <= 0xfd,
            bytes@ == header_bytes(tuple.0) + options_bytes(options_view(opts@.take(i as int))),
        decreases opts@.len() - i,
    {
        let option = opts[i];
        let mut ob = match crate::option::to_bytes(option) {
            Ok(v) => v,
            Err(e) => {
                assert(options_view(opts@)[i as int] == option_view(option));
                assert(!all_data_fits(options_view(opts@)));
                return Err(e);
            },
        };
        proof {
            lemma_options_bytes_push(options_view(opts@.take(i as int)), option_view(option));
            assert(options_view(opts@.take(i + 1)) =~= options_view(opts@.take(i as int)).push(
                option_view(option),
            ));
        }
        bytes.append(&mut ob);
        i = i + 1;
    }
    assert(opts@.take(i as int) =~= opts@);
    assert(all_data_fits(options_view(opts@)));
    bytes.extend_from_slice(tuple.2);
    assert(bytes@ =~= segment_bytes(tuple.0, options_view(opts@), tuple.2@));
    Ok(bytes)
}

/// Every option's data fits in the 253 bytes that `option::to_bytes` writes.
pub open spec fn all_data_fits(opts: Seq<(u8, Seq<u8>)>) -> bool {
    forall|i: int| 0 <= i < opts.len() ==> (#[trigger] opts[i]).1.len() <= 0xfd
}

/// Appending an option appends its bytes.
pub proof fn lemma_options_bytes_push(opts: Seq<(u8, Seq<u8>)>, o: (u8, Seq<u8>))
    ensures
        options_bytes(opts.push(o)) == options_bytes(opts) + option_bytes(o),
        options_len(opts.push(o)) == options_len(opts) + option_len(o),
    decreases opts.len(),
{
    if opts.len() == 0 {
        assert(opts.push(o).skip(1) =~= Seq::<(u8, Seq<u8>)>::empty());
        assert(opts.push(o)[0] == o);
        assert(options_bytes(opts.push(o).skip(1)) == Seq::<u8>::empty());
        assert(options_len(opts.push(o).skip(1)) == 0);
        assert(options_bytes(opts.push(o)) =~= option_bytes(o));
    } else {
        lemma_options_bytes_push(opts.skip(1), o);
        assert(opts.push(o).skip(1) =~= opts.skip(1).push(o));
        assert(opts.push(o)[0] == opts[0]);
        assert(options_bytes(opts.push(o)) =~= options_bytes(opts) + option_bytes(o));
    }
}

/// A list of options that `from_bytes` reads back from its bytes: every
/// option encodable.
pub open spec fn all_encodable(opts: Seq<(u8, Seq<u8>)>) -> bool {
    forall|i: int| 0 <= i < opts.len() ==> is_encodable(#[trigger] opts[i])
}

/// The bytes of a list of options are as many as `options_len` counts, at
/// least one for each option.
pub proof fn lemma_options_bytes_len(opts: Seq<(u8, Seq<u8>)>)
    requires
        forall|i: int| 0 <= i < opts.len() ==> is_encodable(#[trigger] opts[i]),
    ensures
        options_bytes(opts).len() == options_len(opts),
        options_len(opts) >= opts.len(),
    decreases opts.len(),
{
    if opts.len() > 0 {
        let tail = opts.skip(1);
        assert forall|i: int| 0 <= i < tail.len() implies is_encodable(#[trigger] tail[i]) by {
            assert(tail[i] == opts[i + 1]);
        }
        lemma_options_bytes_len(tail);
        lemma_option_roundtrip(opts[0], Seq::empty());
        assert(option_bytes(opts[0]) + Seq::<u8>::empty() =~= option_bytes(opts[0]));
    }
}

/// A list of encodable options written one after the other is read back as the same list.
pub proof fn lemma_options_roundtrip(opts: Seq<(u8, Seq<u8>)>)
    requires
        all_encodable(opts),
    ensures
        !options_parse_panics(options_bytes(opts)),
        options_parse(options_bytes(opts)) == Ok::<Seq<(u8, Seq<u8>)>, &'static str>(opts),
    decreases opts.len(),
{
    if opts.len() == 0 {
        assert(options_bytes(opts) =~= Seq::<u8>::empty());
        assert(opts =~= Seq::<(u8, Seq<u8>)>::empty());
    } else {
        let o = opts[0];
        let tail = opts.skip(1);
        assert forall|i: int| 0 <= i < tail.len() implies is_encodable(#[trigger] tail[i]) by {
            assert(tail[i] == opts[i + 1]);
        }
        lemma_options_roundtrip(tail);
        lemma_options_bytes_len(tail);
        let buf = options_bytes(opts);
        let rest = options_bytes(tail);
        assert(buf == option_bytes(o) + rest);
        lemma_option_roundtrip(o, rest);
        let n = option_size(buf);
        assert(n == option_bytes(o).len());
        if tail.len() == 0 {
            assert(rest =~= Seq::<u8>::empty());
            assert(n == buf.len());
            assert(opts =~= seq![o]);
        } else {
            assert(n < buf.len());
            assert(buf.skip(n) =~= rest);
            assert(opts =~= seq![o] + tail);
        }
    }
}

/// A segment whose data offset counts its header and options, whose header
/// is valid and whose options are encodable, is read back by
/// `from_bytes` as the same header, options and payload.
pub proof fn lemma_segment_roundtrip(h: Header, opts: Seq<(u8, Seq<u8>)>, payload: Seq<u8>)
    requires
        h.is_valid(),
        all_encodable(opts),
        h.data_offset * 4 == 20 + options_len(opts),
    ensures
        !segment_parse_panics(segment_bytes(h, opts, payload)),
        segment_parse(segment_bytes(h, opts, payload)) == Ok::<
            (Header, Seq<(u8, Seq<u8>)>, Seq<u8>),
            &'static str,
        >((h, opts, payload)),
{
    let s = segment_bytes(h, opts, payload);
    let hb = header_bytes(h);
    let ob = options_bytes(opts);
    lemma_header_roundtrip(h);
    lemma_options_bytes_len(opts);
    lemma_options_roundtrip(opts);
    assert(s.take(20) =~= hb.take(20));
    lemma_header_of_prefix(s, hb);
    assert(hb.take(20) =~= hb);
    assert(header_end(s) == 20 + ob.len());
    assert(s.subrange(20, header_end(s)) =~= ob);
    assert(s.skip(header_end(s)) =~= payload);
}

/// Options read from an options area, written back, give the area again;
/// the data of each fits in what `option::to_bytes` writes.
pub proof fn lemma_options_bytes_of_parse(buf: Seq<u8>)
    requires
        !options_parse_panics(buf),
        options_parse(buf) is Ok,
    ensures
        options_bytes(options_parse(buf)->Ok_0) == buf,
        all_data_fits(options_parse(buf)->Ok_0),
    decreases buf.len(),
{
    if buf.len() == 0 {
        assert(options_bytes(Seq::<(u8, Seq<u8>)>::empty()) =~= buf);
    } else {
        let o = option_parse(buf)->Ok_0;
        lemma_option_size(buf);
        let n = option_size(buf);
        assert(option_bytes(o) =~= buf.take(n));
        let l = options_parse(buf)->Ok_0;
        if n >= buf.len() {
            assert(l =~= seq![o]);
            assert(l.skip(1) =~= Seq::<(u8, Seq<u8>)>::empty());
            assert(options_bytes(l.skip(1)) =~= Seq::<u8>::empty());
            assert(buf.take(n) =~= buf);
            assert(options_bytes(l) =~= buf);
        } else {
            let rest = buf.skip(n);
            lemma_options_bytes_of_parse(rest);
            let tail = options_parse(rest)->Ok_0;
            assert(l =~= seq![o] + tail);
            assert(l.skip(1) =~= tail);
            assert(l[0] == o);
            assert(buf =~= buf.take(n) + rest);
            assert forall|i: int| 0 <= i < l.len() implies (#[trigger] l[i]).1.len() <= 0xfd by {
                if i > 0 {
                    assert(l[i] == tail[i - 1]);
                }
            }
        }
    }
}

/// A segment read by `from_bytes` and written back by `to_bytes` gives the
/// same bytes, except that the 3 reserved header bits come back as zero.
pub proof fn lemma_segment_bytes_of_parse(s: Seq<u8>)
    requires
        !segment_parse_panics(s),
        segment_parse(s) is Ok,
    ensures
        ({
            let t = segment_parse(s)->Ok_0;
            &&& t.0.is_valid()
            &&& all_data_fits(t.1)
            &&& segment_bytes(t.0, t.1, t.2) == s.update(12, s[12] & 0xf1)
        }),
{
    let t = segment_parse(s)->Ok_0;
    let end = header_end(s);
    let area = s.subrange(20, end);
    lemma_options_bytes_of_parse(area);
    lemma_header_bytes_of_parse(s);
    assert(segment_bytes(t.0, t.1, t.2) =~= s.update(12, s[12] & 0xf1));
}

} // verus!
