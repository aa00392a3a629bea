//! Timestamps
use vstd::prelude::*;
use crate::wire::{be_at, be_bytes, lemma_be_roundtrip, lemma_pow256_facts, push_be, read_be};

verus! {

pub const KIND: u8 = 8;

/// The timestamp value and echo reply that 8 data bytes carry.
pub open spec fn decode(data: Seq<u8>) -> (u32, u32) {
    (be_at(data, 0, 4) as u32, be_at(data, 4, 4) as u32)
}

/// The data bytes of an option of this kind that carries `tuple`.
pub open spec fn encode(tuple: (u32, u32)) -> Seq<u8> {
    be_bytes(tuple.0 as nat, 4) + be_bytes(tuple.1 as nat, 4)
}

/// Reads the timestamp value and the timestamp echo reply, each a big-endian 32-bit value.
pub fn from_option(option: (u8, &[u8])) -> (r: Result<(u32, u32), &'static str>)
    ensures
        option.0 != KIND ==> r == Err::<(u32, u32), &'static str>("`timestamps` kind mismatch."),
        option.0 == KIND && option.1@.len() != 8 ==> r == Err::<(u32, u32), &'static str>(
            "`timestamps` expected exactly 8 bytes.",
        ),
        option.0 == KIND && option.1@.len() == 8 ==> r == Ok::<(u32, u32), &'static str>(
            decode(option.1@),
        ),
{
    if option.0 != KIND {
        return Err("`timestamps` kind mismatch.");
    } else if option.1.len() != 8 {
        return Err("`timestamps` expected exactly 8 bytes.");
    }
    proof {
        lemma_pow256_facts();
    }
    Ok((read_be(option.1, 0, 4) as u32, read_be(option.1, 4, 4) as u32))
}

/// The option of this kind that carries `tuple`.
pub fn to_option(tuple: (u32, u32)) -> (r: Result<(u8, Vec<u8>), &'static str>)
    ensures
        r matches Ok(o) && o.0 == KIND && o.1@ == encode(tuple),
{
    let mut bytes = Vec::<u8>::with_capacity(8);
    push_be(&mut bytes, tuple.0 as u128, 4);
    push_be(&mut bytes, tuple.1 as u128, 4);
    assert(bytes@ =~= encode(tuple));
    Ok((KIND, bytes))
}

/// Every pair survives `to_option` then `from_option`.
pub proof fn lemma_roundtrip(tuple: (u32, u32))
    ensures
        encode(tuple).len() == 8,
        decode(encode(tuple)) == tuple,
{
    lemma_pow256_facts();
    lemma_be_roundtrip(tuple.0 as nat, 4);
    lemma_be_roundtrip(tuple.1 as nat, 4);
    let s = encode(tuple);
    assert(s.subrange(0, 4) =~= be_bytes(tuple.0 as nat, 4));
    assert(s.subrange(4, 8) =~= be_bytes(tuple.1 as nat, 4));
}

/// The timestamp value fills data bytes 0 to 3 and the echo reply bytes 4
/// to 7, each big-endian (RFC 7323, section 3.2); `from_option` reads them
/// from there.
pub proof fn lemma_fields(tuple: (u32, u32), data: Seq<u8>)
    ensures
        encode(tuple).len() == 8,
        encode(tuple).subrange(0, 4) == be_bytes(tuple.0 as nat, 4),
        encode(tuple).subrange(4, 8) == be_bytes(tuple.1 as nat, 4),
        data.len() == 8 ==> decode(data).0 as nat == be_at(data, 0, 4),
        data.len() == 8 ==> decode(data).1 as nat == be_at(data, 4, 4),
{
    lemma_roundtrip(tuple);
    crate::wire::lemma_be_bytes_len(tuple.0 as nat, 4);
    crate::wire::lemma_be_bytes_len(tuple.1 as nat, 4);
    assert(encode(tuple).subrange(0, 4) =~= be_bytes(tuple.0 as nat, 4));
    assert(encode(tuple).subrange(4, 8) =~= be_bytes(tuple.1 as nat, 4));
    if data.len() == 8 {
        lemma_pow256_facts();
        crate::wire::lemma_be_value_bound(data.subrange(0, 4));
        crate::wire::lemma_be_value_bound(data.subrange(4, 8));
    }
}

} // verus!
