//! Maximum Segment Size
use vstd::prelude::*;
use crate::wire::{be_bytes, be_value, lemma_be_roundtrip, lemma_pow256_facts, push_be, read_be};

verus! {

pub const KIND: u8 = 2;

/// The value that an option of this kind carries in its 2 data bytes
/// (RFC 9293, section 3.2: a 16-bit maximum segment size).
pub open spec fn decode(data: Seq<u8>) -> u32 {
    be_value(data) as u32
}

/// The data bytes of an option of this kind that carries `mss`.
pub open spec fn encode(mss: u32) -> Seq<u8> {
    be_bytes(mss as nat, 2)
}

/// Reads the maximum segment size, a big-endian 16-bit value.
pub fn from_option(option: (u8, &[u8])) -> (r: Result<u32, &'static str>)
    ensures
        option.0 != KIND ==> r == Err::<u32, &'static str>("`mss` kind mismatch."),
        option.0 == KIND && option.1@.len() != 2 ==> r == Err::<u32, &'static str>(
            "`mss` expected exactly 2 bytes.",
        ),
        option.0 == KIND && option.1@.len() == 2 ==> r == Ok::<u32, &'static str>(
            decode(option.1@),
        ),
{
    if option.0 != KIND {
        return Err("`mss` kind mismatch.");
    } else if option.1.len() != 2 {
        return Err("`mss` expected exactly 2 bytes.");
    }
    proof {
        lemma_pow256_facts();
        assert(option.1@.subrange(0, 2) =~= option.1@);
    }
    Ok(read_be(option.1, 0, 2) as u32)
}

/// The option of this kind that carries `mss`; the size must fit in 16 bits.
pub fn to_option(mss: u32) -> (r: Result<(u8, Vec<u8>), &'static str>)
    ensures
        mss > 0xffff ==> r == Err::<(u8, Vec<u8>), &'static str>(
            "`mss` expected 16 bit unsigned integer.",
        ),
        mss <= 0xffff ==> (r matches Ok(o) && o.0 == KIND && o.1@ == encode(mss)),
{
    if mss > 0xffff {
        return Err("`mss` expected 16 bit unsigned integer.");
    }
    let mut bytes = Vec::<u8>::new();
    push_be(&mut bytes, mss as u128, 2);
    assert(bytes@ =~= encode(mss));
    Ok((KIND, bytes))
}

/// Every 16-bit size survives `to_option` then `from_option`.
pub proof fn lemma_roundtrip(mss: u32)
    requires
        mss <= 0xffff,
    ensures
        encode(mss).len() == 2,
        decode(encode(mss)) == mss,
{
    lemma_pow256_facts();
    lemma_be_roundtrip(mss as nat, 2);
}

/// The size stands in the 2 data bytes, high byte first, and `from_option`
/// reads it from there.
pub proof fn lemma_fields(mss: u32, data: Seq<u8>)
    requires
        mss <= 0xffff,
    ensures
        encode(mss) == seq![(mss / 256) as u8, (mss % 256) as u8],
        data.len() == 2 ==> decode(data) == data[0] as u32 * 256 + data[1] as u32,
{
    crate::header::lemma_be_bytes_2(mss as nat);
    if data.len() == 2 {
        assert(data.drop_last().drop_last() =~= Seq::<u8>::empty());
        assert(be_value(data.drop_last()) == be_value(data.drop_last().drop_last()) * 256
            + data.drop_last().last() as nat);
    }
}

} // verus!
