//! TCPv6 - RFC 9293
use vstd::prelude::*;
use crate::wire::{
    be_at, be_bytes, lemma_be_bytes_len, lemma_be_bytes_of_value, lemma_be_roundtrip,
    lemma_be_value_bound, lemma_pow256_facts, push_be, read_be,
};

pub mod segment;

verus! {

/// The IPv6 pseudo-header that the TCP checksum covers.
#[derive(Clone, Copy, Debug, PartialEq, Eq, Structural)]
pub struct PseudoHeader {
    pub source_address: u128,
    pub destination_address: u128,
    pub ul_length: u32,
    pub next_header: u8,
}

impl PseudoHeader {
    pub const PACKED_SIZE: usize = 40;

    /// Reads a pseudo-header from its first 40 bytes.
    pub fn from_bytes(bytes: &[u8]) -> (r: Result<Self, &'static str>)
        ensures
            bytes@.len() < 40 ==> r == Err::<Self, &'static str>(
                "IPv6 `PseudoHeader` starved, more data required.",
            ),
            bytes@.len() >= 40 ==> r == Ok::<Self, &'static str>(pseudo_header_of(bytes@)),
    {
        if bytes.len() < Self::PACKED_SIZE {
            return Err("IPv6 `PseudoHeader` starved, more data required.");
        }
        proof {
            lemma_pow256_facts();
        }
        Ok(
            Self {
                source_address: read_be(bytes, 0, 16),
                destination_address: read_be(bytes, 16, 16),
                ul_length: read_be(bytes, 32, 4) as u32,
                next_header: bytes[39],
            },
        )
    }

    /// Writes the pseudo-header in 40 bytes.
    pub fn to_bytes(&self) -> (r: Result<Vec<u8>, &'static str>)
        ensures
            r matches Ok(v) && v@ == pseudo_header_bytes(*self),
    {
        let mut bytes = Vec::<u8>::with_capacity(Self::PACKED_SIZE);
        push_be(&mut bytes, self.source_address, 16);
        push_be(&mut bytes, self.destination_address, 16);
        push_be(&mut bytes, self.ul_length as u128, 4);
        push_be(&mut bytes, self.next_header as u128, 4);
        assert(bytes@ =~= pseudo_header_bytes(*self));
        Ok(bytes)
    }
}

/// The 40 bytes of a pseudo-header: the two addresses, the upper-layer
/// length, three zero bytes and the next header.
pub open spec fn pseudo_header_bytes(p: PseudoHeader) -> Seq<u8> {
    be_bytes(p.source_address as nat, 16) + be_bytes(p.destination_address as nat, 16) + be_bytes(
        p.ul_length as nat,
        4,
    ) + be_bytes(p.next_header as nat, 4)
}

/// The pseudo-header that the first 40 bytes of `s` hold; bytes 36 to 38,
/// zero on the wire, are not read.
pub open spec fn pseudo_header_of(s: Seq<u8>) -> PseudoHeader {
    PseudoHeader {
        source_address: be_at(s, 0, 16) as u128,
        destination_address: be_at(s, 16, 16) as u128,
        ul_length: be_at(s, 32, 4) as u32,
        next_header: s[39],
    }
}

proof fn lemma_pseudo_header_bytes_len(p: PseudoHeader)
    ensures
        pseudo_header_bytes(p).len() == 40,
{
    lemma_be_bytes_len(p.source_address as nat, 16);
    lemma_be_bytes_len(p.destination_address as nat, 16);
    lemma_be_bytes_len(p.ul_length as nat, 4);
    lemma_be_bytes_len(p.next_header as nat, 4);
}

/// A pseudo-header written to bytes and read back is the same pseudo-header.
pub proof fn lemma_pseudo_header_roundtrip(p: PseudoHeader)
    ensures
        pseudo_header_bytes(p).len() == 40,
        pseudo_header_of(pseudo_header_bytes(p)) == p,
{
    lemma_pow256_facts();
    lemma_pseudo_header_bytes_len(p);
    let s = pseudo_header_bytes(p);
    lemma_be_roundtrip(p.source_address as nat, 16);
    lemma_be_roundtrip(p.destination_address as nat, 16);
    lemma_be_roundtrip(p.ul_length as nat, 4);
    assert(s.subrange(0, 16) =~= be_bytes(p.source_address as nat, 16));
    assert(s.subrange(16, 32) =~= be_bytes(p.destination_address as nat, 16));
    assert(s.subrange(32, 36) =~= be_bytes(p.ul_length as nat, 4));
    let nh = be_bytes(p.next_header as nat, 4);
    assert(nh.last() == p.next_header) by {
        reveal_with_fuel(be_bytes, 2);
    }
    assert(s[39] == nh[3]);
    assert(pseudo_header_of(s) =~= p);
}

/// A pseudo-header read from bytes and written back gives the first 40
/// bytes, except that bytes 36 to 38 come back as zero.
pub proof fn lemma_pseudo_header_bytes_of_parse(s: Seq<u8>)
    requires
        s.len() >= 40,
    ensures
        pseudo_header_bytes(pseudo_header_of(s)) == s.take(40).update(36, 0).update(37, 0).update(
            38,
            0,
        ),
{
    lemma_pow256_facts();
    let p = pseudo_header_of(s);
    let t = s.take(40).update(36, 0).update(37, 0).update(38, 0);
    lemma_be_bytes_of_value(s.subrange(0, 16));
    lemma_be_bytes_of_value(s.subrange(16, 32));
    lemma_be_bytes_of_value(s.subrange(32, 36));
    lemma_be_value_bound(s.subrange(0, 16));
    lemma_be_value_bound(s.subrange(16, 32));
    lemma_be_value_bound(s.subrange(32, 36));
    let nh = be_bytes(p.next_header as nat, 4);
    assert(nh =~= seq![0u8, 0u8, 0u8, s[39]]) by {
        reveal_with_fuel(be_bytes, 5);
    }
    lemma_pseudo_header_bytes_len(p);
    assert(pseudo_header_bytes(p) =~= t);
}

/// Where each field of the pseudo-header stands (RFC 8200, section 8.1): the
/// addresses in bytes 0 to 31, the upper-layer length big-endian in bytes 32
/// to 35, three zero bytes, then the next header.
pub proof fn lemma_pseudo_header_wire_layout(p: PseudoHeader)
    ensures
        pseudo_header_bytes(p).len() == 40,
        pseudo_header_bytes(p).subrange(0, 16) == be_bytes(p.source_address as nat, 16),
        pseudo_header_bytes(p).subrange(16, 32) == be_bytes(p.destination_address as nat, 16),
        pseudo_header_bytes(p).subrange(32, 36) == be_bytes(p.ul_length as nat, 4),
        pseudo_header_bytes(p)[36] == 0,
        pseudo_header_bytes(p)[37] == 0,
        pseudo_header_bytes(p)[38] == 0,
        pseudo_header_bytes(p)[39] == p.next_header,
{
    lemma_pseudo_header_bytes_len(p);
    lemma_be_bytes_len(p.source_address as nat, 16);
    lemma_be_bytes_len(p.destination_address as nat, 16);
    lemma_be_bytes_len(p.ul_length as nat, 4);
    lemma_be_bytes_len(p.next_header as nat, 4);
    let s = pseudo_header_bytes(p);
    assert(s.subrange(0, 16) =~= be_bytes(p.source_address as nat, 16));
    assert(s.subrange(16, 32) =~= be_bytes(p.destination_address as nat, 16));
    assert(s.subrange(32, 36) =~= be_bytes(p.ul_length as nat, 4));
    let nh = be_bytes(p.next_header as nat, 4);
    assert(nh =~= seq![0u8, 0u8, 0u8, p.next_header]) by {
        reveal_with_fuel(be_bytes, 5);
    }
    assert(s.subrange(36, 40) =~= nh);
    assert(s[36] == nh[0] && s[37] == nh[1] && s[38] == nh[2] && s[39] == nh[3]);
}

/// Each field of a pseudo-header read from its fixed offset, most
/// significant byte first.
pub proof fn lemma_pseudo_header_of_fields(s: Seq<u8>)
    requires
        s.len() >= 40,
    ensures
        pseudo_header_of(s).source_address as nat == be_at(s, 0, 16),
        pseudo_header_of(s).destination_address as nat == be_at(s, 16, 16),
        pseudo_header_of(s).ul_length as nat == be_at(s, 32, 4),
        pseudo_header_of(s).next_header == s[39],
{
    lemma_pow256_facts();
    lemma_be_value_bound(s.subrange(0, 16));
    lemma_be_value_bound(s.subrange(16, 32));
    lemma_be_value_bound(s.subrange(32, 36));
}

} // verus!
