//! TCP options: the kind/length/data framing and the options of known kinds.
use vstd::prelude::*;
use vstd::slice::slice_subrange;

pub mod eol;
pub mod nop;
pub mod mss;
pub mod window_scale;
pub mod sack_permitted;
pub mod sack;
pub mod timestamps;
pub mod user_timeout;
pub mod ao;
pub mod fast_open;
pub mod experimental;

verus! {

/// Kinds that stand alone in one byte, with neither length nor data:
/// End of Option List and No Operation.
pub open spec fn is_single_byte(kind: u8) -> bool {
    kind == 0 || kind == 1
}

/// An option as a value: its kind and its data.
pub open spec fn option_view(o: (u8, &[u8])) -> (u8, Seq<u8>) {
    (o.0, o.1@)
}

/// What `from_bytes` finds at the front of `s`: an option, or the error it reports.
pub open spec fn option_parse(s: Seq<u8>) -> Result<(u8, Seq<u8>), &'static str> {
    if s.len() < 1 {
        Err("`option` required at least 1 bytes.")
    } else if is_single_byte(s[0]) {
        Ok((s[0], Seq::empty()))
    } else if s.len() < 2 {
        Err("`option` required at least 2 bytes.")
    } else if s.len() < s[1] {
        Err("`option` only partial, more data required.")
    } else {
        Ok((s[0], s.subrange(2, s[1] as int)))
    }
}

/// The inputs on which `from_bytes` panics: a multi-byte option whose length
/// byte is below 2, the size of its own kind and length bytes.
pub open spec fn option_parse_panics(s: Seq<u8>) -> bool {
    &&& s.len() >= 2
    &&& !is_single_byte(s[0])
    &&& s[1] <= s.len()
    &&& s[1] < 2
}

/// The number of bytes that the option at the front of `s` takes.
pub open spec fn option_size(s: Seq<u8>) -> int {
    if is_single_byte(s[0]) {
        1
    } else {
        s[1] as int
    }
}

/// The number of bytes an option takes on the wire: a kind byte, a length
/// byte unless the kind stands alone, and the data.
pub open spec fn option_len(o: (u8, Seq<u8>)) -> nat {
    1 + (if is_single_byte(o.0) { 0nat } else { 1nat }) + o.1.len()
}

/// An option on the wire. A kind that stands alone is written without its data.
pub open spec fn option_bytes(o: (u8, Seq<u8>)) -> Seq<u8> {
    if is_single_byte(o.0) {
        seq![o.0]
    } else {
        seq![o.0, (2 + o.1.len()) as u8] + o.1
    }
}

/// An option that `check` accepts: at most 0xfe bytes of data, and none for
/// a kind that stands alone.
pub open spec fn is_well_formed(o: (u8, Seq<u8>)) -> bool {
    !(o.1.len() > 0xfe || (is_single_byte(o.0) && o.1.len() != 0))
}

/// An option that `to_bytes` writes and `from_bytes` reads back unchanged.
pub open spec fn is_encodable(o: (u8, Seq<u8>)) -> bool {
    &&& o.1.len() <= 0xfd
    &&& is_single_byte(o.0) ==> o.1.len() == 0
}

/// Reads the option at the front of `bytes`.
pub fn from_bytes(bytes: &[u8]) -> (r: Result<(u8, &[u8]), &'static str>)
    requires
        !option_parse_panics(bytes@),
    ensures
        match r {
            Ok(o) => option_parse(bytes@) == Ok::<(u8, Seq<u8>), &'static str>(option_view(o)),
            Err(e) => option_parse(bytes@) == Err::<(u8, Seq<u8>), &'static str>(e),
        },
{
    if bytes.len() < 1 {
        return Err("`option` required at least 1 bytes.");
    }
    let kind = bytes[0];
    if kind == 0 || kind == 1 {
        let empty: &[u8] = &[];
        assert(empty@ =~= Seq::<u8>::empty());
        return Ok((kind, empty));
    } else if bytes.len() < 2 {
        return Err("`option` required at least 2 bytes.");
    }
    let length = bytes[1];
    if bytes.len() < length as usize {
        return Err("`option` only partial, more data required.");
    }
    Ok((kind, slice_subrange(bytes, 2, length as usize)))
}

/// Whether `from_bytes` would panic on `bytes`: a multi-byte option whose
/// length byte is below 2 while the bytes hold that many.
pub fn would_panic(bytes: &[u8]) -> (r: bool)
    ensures
        r == option_parse_panics(bytes@),
{
    bytes.len() >= 2 && !(bytes[0] == 0 || bytes[0] == 1) && bytes[1] as usize <= bytes.len()
        && bytes[1] < 2
}

/// Writes an option: its kind, then, unless the kind stands alone, its length and data.
pub fn to_bytes(tuple: (u8, &[u8])) -> (r: Result<Vec<u8>, &'static str>)
    ensures
        tuple.1@.len() > 0xfd ==> r == Err::<Vec<u8>, &'static str>("`option` data too big."),
        tuple.1@.len() <= 0xfd ==> (r matches Ok(v) && v@ == option_bytes(option_view(tuple))),
{
    if tuple.1.len() > 0xfd {
        return Err("`option` data too big.");
    }
    let mut bytes = Vec::<u8>::new();
    bytes.push(tuple.0);
    if !(tuple.0 == 0 || tuple.0 == 1) {
        bytes.push(2 + tuple.1.len() as u8);
        bytes.extend_from_slice(tuple.1);
    }
    assert(bytes@ =~= option_bytes(option_view(tuple)));
    Ok(bytes)
}

/// Mirrors `check`: an option that `check` refuses is an error here.
pub fn make(option: (u8, &[u8])) -> (r: Result<(), &'static str>)
    ensures
        option.1@.len() > 0xfe ==> r == Err::<(), &'static str>("`option` too big."),
        option.1@.len() <= 0xfe && is_single_byte(option.0) && option.1@.len() != 0 ==> r
            == Err::<(), &'static str>("`eol` / `nop` expect no data."),
        r is Ok <==> is_well_formed(option_view(option)),
{
    if option.1.len() > 0xfe {
        return Err("`option` too big.");
    } else if (option.0 == 0 || option.0 == 1) && option.1.len() != 0 {
        return Err("`eol` / `nop` expect no data.");
    }
    Ok(())
}

/// Whether an option is well formed.
pub fn check(option: (u8, &[u8])) -> (r: bool)
    ensures
        r == is_well_formed(option_view(option)),
{
    !(option.1.len() > 0xfe || ((option.0 == 0 || option.0 == 1) && option.1.len() != 0))
}

/// An encodable option written by `to_bytes` is read back by `from_bytes`,
/// whatever follows it, and takes exactly the bytes written.
pub proof fn lemma_option_roundtrip(o: (u8, Seq<u8>), rest: Seq<u8>)
    requires
        is_encodable(o),
    ensures
        !option_parse_panics(option_bytes(o) + rest),
        option_parse(option_bytes(o) + rest) == Ok::<(u8, Seq<u8>), &'static str>(o),
        option_size(option_bytes(o) + rest) == option_bytes(o).len(),
        option_bytes(o).len() == option_len(o),
{
    let s = option_bytes(o) + rest;
    if !is_single_byte(o.0) {
        assert(s.subrange(2, (2 + o.1.len()) as int) =~= o.1);
    } else {
        assert(o.1 =~= Seq::<u8>::empty());
    }
}

/// An option read by `from_bytes` takes `option_size` bytes, which
/// `option_len` of the option read also counts.
pub proof fn lemma_option_size(s: Seq<u8>)
    requires
        !option_parse_panics(s),
        option_parse(s) is Ok,
    ensures
        1 <= option_size(s) <= s.len(),
        option_size(s) == option_len(option_parse(s)->Ok_0),
{
}

/// How an option stands on the wire (RFC 9293, section 3.1): End of Option
/// List and No Operation are one kind byte; any other option is its kind, a
/// length byte that counts the whole option, kind and length included, then
/// its data.
pub proof fn lemma_option_wire_layout(o: (u8, Seq<u8>))
    ensures
        option_bytes(o)[0] == o.0,
        is_single_byte(o.0) ==> option_bytes(o).len() == 1,
        !is_single_byte(o.0) ==> option_bytes(o).len() == 2 + o.1.len(),
        !is_single_byte(o.0) ==> option_bytes(o).skip(2) == o.1,
        !is_single_byte(o.0) && o.1.len() <= 0xfd ==> option_bytes(o)[1] == option_bytes(o).len(),
{
    if !is_single_byte(o.0) {
        assert(option_bytes(o).skip(2) =~= o.1);
    }
}

/// What `from_bytes` reads from the wire: the kind is the first byte; the
/// data of any other kind than End of Option List and No Operation are the
/// bytes after the length byte, as many as the length counts beyond the kind
/// and length bytes.
pub proof fn lemma_option_parse_fields(s: Seq<u8>)
    requires
        !option_parse_panics(s),
        option_parse(s) is Ok,
    ensures
        option_parse(s)->Ok_0.0 == s[0],
        is_single_byte(s[0]) ==> option_parse(s)->Ok_0.1.len() == 0,
        !is_single_byte(s[0]) ==> s[1] == 2 + option_parse(s)->Ok_0.1.len(),
        !is_single_byte(s[0]) ==> option_parse(s)->Ok_0.1 == s.subrange(2, s[1] as int),
{
}

} // verus!
