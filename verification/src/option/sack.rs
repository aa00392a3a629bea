//! Selective Acknowledgment
use vstd::prelude::*;
use crate::wire::{be_at, be_bytes, lemma_be_roundtrip, lemma_pow256_facts, push_be, read_be};

verus! {

pub const KIND: u8 = 5;

/// The block edges that the data carries: one pair of big-endian 32-bit
/// values (left edge, right edge) for each 8 bytes.
pub open spec fn decode(data: Seq<u8>) -> Seq<(u32, u32)> {
    Seq::new(
        data.len() / 8,
        |i: int| (be_at(data, 8 * i, 4) as u32, be_at(data, 8 * i + 4, 4) as u32),
    )
}

/// The data bytes of an option of this kind that carries `block_edges`.
pub open spec fn encode(block_edges: Seq<(u32, u32)>) -> Seq<u8>
    decreases block_edges.len(),
{
    if block_edges.len() == 0 {
        Seq::empty()
    } else {
        let last = block_edges.last();
        encode(block_edges.drop_last()) + be_bytes(last.0 as nat, 4) + be_bytes(last.1 as nat, 4)
    }
}

/// Reads the block edges.
pub fn from_option(option: (u8, &[u8])) -> (r: Result<Vec<(u32, u32)>, &'static str>)
    ensures
        option.0 != KIND ==> r == Err::<Vec<(u32, u32)>, &'static str>("`sack` kind mismatch."),
        option.0 == KIND && option.1@.len() % 8 != 0 ==> r == Err::<
            Vec<(u32, u32)>,
            &'static str,
        >("`sack` expected pairs of 4 byte values."),
        option.0 == KIND && option.1@.len() % 8 == 0 ==> (r matches Ok(v) && v@ == decode(
            option.1@,
        )),
{
    if option.0 != KIND {
        return Err("`sack` kind mismatch.");
    } else if option.1.len() % 8 != 0 {
        return Err("`sack` expected pairs of 4 byte values.");
    }
    let data = option.1;
    let n = data.len() / 8;
    let mut block_edges = Vec::<(u32, u32)>::with_capacity(n);
    let mut i: usize = 0;
    proof {
        lemma_pow256_facts();
    }
    while i < n
        invariant
            n == data@.len() / 8,
            n == data.len() / 8,
            i <= n,
            crate::wire::pow256(4) == 0x1_0000_0000,
            block_edges@ =~= decode(data@).take(i as int),
        decreases n - i,
    {
        let left = read_be(data, 8 * i, 4) as u32;
        let right = read_be(data, 8 * i + 4, 4) as u32;
        block_edges.push((left, right));
        i = i + 1;
    }
    assert(decode(data@).take(n as int) =~= decode(data@));
    Ok(block_edges)
}

/// The option of this kind that carries `block_edges`.
pub fn to_option(block_edges: Vec<(u32, u32)>) -> (r: Result<(u8, Vec<u8>), &'static str>)
    ensures
        r matches Ok(o) && o.0 == KIND && o.1@ == encode(block_edges@),
{
    let mut bytes = Vec::<u8>::new();
    let mut i: usize = 0;
    while i < block_edges.len()
        invariant
            i <= block_edges@.len(),
            bytes@ == encode(block_edges@.take(i as int)),
        decreases block_edges@.len() - i,
    {
        let pair = block_edges[i];
        push_be(&mut bytes, pair.0 as u128, 4);
        push_be(&mut bytes, pair.1 as u128, 4);
        assert(block_edges@.take(i + 1).drop_last() =~= block_edges@.take(i as int));
        i = i + 1;
    }
    assert(block_edges@.take(i as int) =~= block_edges@);
    Ok((KIND, bytes))
}

/// Every list of block edges survives `to_option` then `from_option`.
pub proof fn lemma_roundtrip(block_edges: Seq<(u32, u32)>)
    ensures
        encode(block_edges).len() == 8 * block_edges.len(),
        decode(encode(block_edges)) == block_edges,
    decreases block_edges.len(),
{
    lemma_pow256_facts();
    if block_edges.len() > 0 {
        let p = block_edges.drop_last();
        let last = block_edges.last();
        lemma_roundtrip(p);
        let head = encode(p);
        let a = be_bytes(last.0 as nat, 4);
        let b = be_bytes(last.1 as nat, 4);
        lemma_be_roundtrip(last.0 as nat, 4);
        lemma_be_roundtrip(last.1 as nat, 4);
        let s = encode(block_edges);
        assert(s == head + a + b);
        let n = p.len() as int;
        assert forall|i: int| 0 <= i < n implies #[trigger] decode(s)[i] == block_edges[i] by {
            assert(s.subrange(8 * i, 8 * i + 4) =~= head.subrange(8 * i, 8 * i + 4));
            assert(s.subrange(8 * i + 4, 8 * i + 8) =~= head.subrange(8 * i + 4, 8 * i + 8));
            assert(decode(head)[i] == p[i]);
        }
        assert(s.subrange(8 * n, 8 * n + 4) =~= a);
        assert(s.subrange(8 * n + 4, 8 * n + 8) =~= b);
        assert(decode(s) =~= block_edges);
    }
}

/// Block `i` fills data bytes `8 * i` to `8 * i + 7`: its left edge then
/// its right edge, each big-endian (RFC 2018, section 3); `from_option`
/// reads block `i` from there.
pub proof fn lemma_fields(block_edges: Seq<(u32, u32)>, data: Seq<u8>)
    ensures
        encode(block_edges).len() == 8 * block_edges.len(),
        forall|i: int|
            0 <= i < block_edges.len() ==> #[trigger] encode(block_edges).subrange(8 * i, 8 * i + 4)
                == be_bytes(block_edges[i].0 as nat, 4),
        forall|i: int|
            0 <= i < block_edges.len() ==> #[trigger] encode(block_edges).subrange(
                8 * i + 4,
                8 * i + 8,
            ) == be_bytes(block_edges[i].1 as nat, 4),
        decode(data).len() == data.len() / 8,
        forall|i: int|
            0 <= i < data.len() / 8 ==> (#[trigger] decode(data)[i]).0 as nat == be_at(
                data,
                8 * i,
                4,
            ) && decode(data)[i].1 as nat == be_at(data, 8 * i + 4, 4),
    decreases block_edges.len(),
{
    lemma_pow256_facts();
    lemma_roundtrip(block_edges);
    assert forall|i: int| 0 <= i < data.len() / 8 implies (#[trigger] decode(data)[i]).0 as nat
        == be_at(data, 8 * i, 4) && decode(data)[i].1 as nat == be_at(data, 8 * i + 4, 4) by {
        crate::wire::lemma_be_value_bound(data.subrange(8 * i, 8 * i + 4));
        crate::wire::lemma_be_value_bound(data.subrange(8 * i + 4, 8 * i + 8));
    }
    if block_edges.len() > 0 {
        let p = block_edges.drop_last();
        let last = block_edges.last();
        lemma_fields(p, data);
        let head = encode(p);
        let a = be_bytes(last.0 as nat, 4);
        let b = be_bytes(last.1 as nat, 4);
        crate::wire::lemma_be_bytes_len(last.0 as nat, 4);
        crate::wire::lemma_be_bytes_len(last.1 as nat, 4);
        let s = encode(block_edges);
        assert(s == head + a + b);
        let n = p.len() as int;
        assert forall|i: int| 0 <= i < block_edges.len() implies #[trigger] s.subrange(
            8 * i,
            8 * i + 4,
        ) == be_bytes(block_edges[i].0 as nat, 4) by {
            if i < n {
                assert(s.subrange(8 * i, 8 * i + 4) =~= head.subrange(8 * i, 8 * i + 4));
                assert(head.subrange(8 * i, 8 * i + 4) == be_bytes(p[i].0 as nat, 4));
            } else {
                assert(s.subrange(8 * i, 8 * i + 4) =~= a);
            }
        }
        assert forall|i: int| 0 <= i < block_edges.len() implies #[trigger] s.subrange(
            8 * i + 4,
            8 * i + 8,
        ) == be_bytes(block_edges[i].1 as nat, 4) by {
            if i < n {
                assert(s.subrange(8 * i + 4, 8 * i + 8) =~= head.subrange(8 * i + 4, 8 * i + 8));
                assert(head.subrange(8 * i + 4, 8 * i + 8) == be_bytes(p[i].1 as nat, 4));
            } else {
                assert(s.subrange(8 * i + 4, 8 * i + 8) =~= b);
            }
        }
    }
}

} // verus!
