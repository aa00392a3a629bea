//! TCP User Timeout
use vstd::prelude::*;
use crate::wire::{be_bytes, be_value, lemma_be_roundtrip, lemma_pow256_facts, push_be, read_be};

verus! {

pub const KIND: u8 = 28;

/// The granularity flag (the top bit; set for minutes, clear for seconds)
/// and the 15-bit timeout that 2 data bytes carry.
pub open spec fn decode(data: Seq<u8>) -> (bool, u16) {
    let v = be_value(data);
    (v >= 0x8000, (v % 0x8000) as u16)
}

/// The data bytes of an option of this kind that carries `tuple`.
pub open spec fn encode(tuple: (bool, u16)) -> Seq<u8> {
    be_bytes((if tuple.0 { 0x8000nat } else { 0nat }) + tuple.1 as nat, 2)
}

/// Reads the granularity flag and the timeout.
pub fn from_option(option: (u8, &[u8])) -> (r: Result<(bool, u16), &'static str>)
    ensures
        option.0 != KIND ==> r == Err::<(bool, u16), &'static str>(
            "`user_timeout` kind mismatch.",
        ),
        option.0 == KIND && option.1@.len() != 2 ==> r == Err::<(bool, u16), &'static str>(
            "`user_timeout` expected exactly 2 bytes.",
        ),
        option.0 == KIND && option.1@.len() == 2 ==> r == Ok::<(bool, u16), &'static str>(
            decode(option.1@),
        ),
{
    if option.0 != KIND {
        return Err("`user_timeout` kind mismatch.");
    } else if option.1.len() != 2 {
        return Err("`user_timeout` expected exactly 2 bytes.");
    }
    proof {
        lemma_pow256_facts();
        assert(option.1@.subrange(0, 2) =~= option.1@);
    }
    let value = read_be(option.1, 0, 2) as u16;
    assert((value >> 15 == 1) == (value >= 0x8000)) by (bit_vector);
    assert(value & 0x7fff == value % 0x8000) by (bit_vector);
    Ok((value >> 15 == 1, value & 0x7fff))
}

/// The option of this kind that carries `tuple`; the timeout must fit in 15 bits.
pub fn to_option(tuple: (bool, u16)) -> (r: Result<(u8, Vec<u8>), &'static str>)
    ensures
        tuple.1 > 0x7fff ==> r == Err::<(u8, Vec<u8>), &'static str>(
            "`user_timeout` expected 15 bit unsigned integer.",
        ),
        tuple.1 <= 0x7fff ==> (r matches Ok(o) && o.0 == KIND && o.1@ == encode(tuple)),
{
    if tuple.1 > 0x7fff {
        return Err("`user_timeout` expected 15 bit unsigned integer.")
    }
    assert((1u16 << 15u16) == 0x8000) by (bit_vector);
    let high: u16 = if tuple.0 {
        1u16 << 15u16
    } else {
        0
    };
    let t = tuple.1;
    assert(high == 0 || high == 0x8000);
    assert((high | t) == high + t) by (bit_vector)
        requires
            high == 0 || high == 0x8000,
            t <= 0x7fff,
    ;
    let mut bytes = Vec::<u8>::new();
    push_be(&mut bytes, (high | t) as u128, 2);
    assert(bytes@ =~= encode(tuple));
    Ok((KIND, bytes))
}

/// Every flag and 15-bit timeout survives `to_option` then `from_option`.
pub proof fn lemma_roundtrip(tuple: (bool, u16))
    requires
        tuple.1 <= 0x7fff,
    ensures
        encode(tuple).len() == 2,
        decode(encode(tuple)) == tuple,
{
    lemma_pow256_facts();
    let v = (if tuple.0 { 0x8000nat } else { 0nat }) + tuple.1 as nat;
    lemma_be_roundtrip(v, 2);
}

/// The granularity flag is the top bit of the first data byte and the
/// timeout the other 15 bits, high byte first (RFC 5482, section 2); `from_option`
/// reads them from there.
pub proof fn lemma_fields(tuple: (bool, u16), data: Seq<u8>)
    requires
        tuple.1 <= 0x7fff,
    ensures
        encode(tuple) == seq![
            ((if tuple.0 { 0x80nat } else { 0nat }) + tuple.1 as nat / 256) as u8,
            (tuple.1 % 256) as u8,
        ],
        data.len() == 2 ==> decode(data).0 == (data[0] >= 0x80),
        data.len() == 2 ==> decode(data).1 as nat == (data[0] % 0x80) as nat * 256 + data[1] as nat,
{
    let v = (if tuple.0 { 0x8000nat } else { 0nat }) + tuple.1 as nat;
    crate::header::lemma_be_bytes_2(v);
    if data.len() == 2 {
        assert(data.drop_last().drop_last() =~= Seq::<u8>::empty());
        assert(be_value(data.drop_last()) == be_value(data.drop_last().drop_last()) * 256
            + data.drop_last().last() as nat);
    }
}

} // verus!
