//! The fixed 20-byte TCP header.
use vstd::prelude::*;
use crate::wire::{
    be_at, be_bytes, be_value, lemma_be_bytes_len, lemma_be_bytes_of_value, lemma_be_roundtrip,
    lemma_pow256_facts, push_be, read_be,
};

verus! {

/// A TCP header, each field as it stands on the wire.
#[derive(Debug, Clone, Copy, PartialEq, Eq, Structural)]
pub struct Header {
    pub source_port: u16,
    pub destination_port: u16,
    pub sequence_number: u32,
    pub acknowledgment_number: u32,
    /// The header length in 32-bit words; 4 bits on the wire.
    pub data_offset: u8,
    /// The control bits; the 9 low bits are used.
    pub flags: u16,
    pub window: u16,
    pub checksum: u16,
    pub urgent_pointer: u16,
}

impl Header {
    pub const PACKED_SIZE: usize = 20;

    // `Header.flags` allowed values.
    /// Finish
    pub const FIN: u16 = 1;
    /// Synchronize
    pub const SYN: u16 = 1 << 1;
    /// Reset
    pub const RST: u16 = 1 << 2;
    /// Push
    pub const PSH: u16 = 1 << 3;
    /// Acknowledgment
    pub const ACK: u16 = 1 << 4;
    /// Urgent
    pub const URG: u16 = 1 << 5;
    /// ECN-Echo
    pub const ECE: u16 = 1 << 6;
    /// Congestion Window Reduced
    pub const CWR: u16 = 1 << 7;
    /// Nonce Sum
    pub const NS: u16 = 1 << 8;

    /// Every field fits its width on the wire.
    pub open spec fn is_valid(self) -> bool {
        self.data_offset <= 0xf && self.flags <= 0x1ff
    }

    /// Deserializes.
    pub fn from_bytes(bytes: &[u8]) -> (r: Result<Self, &'static str>)
        ensures
            bytes@.len() < 20 ==> r == Err::<Self, &'static str>(
                "`tcp` header only partial, more data required.",
            ),
            bytes@.len() >= 20 ==> r == Ok::<Self, &'static str>(header_of(bytes@)),
    {
        if bytes.len() < Self::PACKED_SIZE {
            return Err("`tcp` header only partial, more data required.");
        }
        proof {
            lemma_pow256_facts();
        }
        let b12 = bytes[12];
        let word = read_be(bytes, 12, 2) as u16;
        assert(b12 >> 4 == b12 / 16) by (bit_vector);
        assert(word & 0x1ff == word % 0x200) by (bit_vector);
        Ok(
            Self {
                source_port: read_be(bytes, 0, 2) as u16,
                destination_port: read_be(bytes, 2, 2) as u16,
                sequence_number: read_be(bytes, 4, 4) as u32,
                acknowledgment_number: read_be(bytes, 8, 4) as u32,
                data_offset: b12 >> 4,
                flags: word & 0x1ff,
                window: read_be(bytes, 14, 2) as u16,
                checksum: read_be(bytes, 16, 2) as u16,
                urgent_pointer: read_be(bytes, 18, 2) as u16,
            },
        )
    }

    /// Serializes.
    pub fn to_bytes(&self) -> (r: Result<Vec<u8>, &'static str>)
        ensures
            self.data_offset > 0xf ==> r == Err::<Vec<u8>, &'static str>(
                "`data_offset` expected 4 bit value.",
            ),
            self.data_offset <= 0xf && self.flags > 0x1ff ==> r == Err::<Vec<u8>, &'static str>(
                "`flags` expected 9 bit value.",
            ),
            self.is_valid() ==> (r matches Ok(v) && v@ == header_bytes(*self)),
    {
        if self.data_offset > 0xf {
            return Err("`data_offset` expected 4 bit value.");
        } else if self.flags > 0x1ff {
            return Err("`flags` expected 9 bit value.");
        }
        let mut bytes = Vec::<u8>::with_capacity(Self::PACKED_SIZE);
        push_be(&mut bytes, self.source_port as u128, 2);
        push_be(&mut bytes, self.destination_port as u128, 2);
        push_be(&mut bytes, self.sequence_number as u128, 4);
        push_be(&mut bytes, self.acknowledgment_number as u128, 4);
        let doff = self.data_offset as u16;
        let flags = self.flags;
        assert((doff << 12) | flags == doff * 0x1000 + flags) by (bit_vector)
            requires
                doff <= 0xf,
                flags <= 0x1ff,
        ;
        push_be(&mut bytes, ((doff << 12) | flags) as u128, 2);
        push_be(&mut bytes, self.window as u128, 2);
        push_be(&mut bytes, self.checksum as u128, 2);
        push_be(&mut bytes, self.urgent_pointer as u128, 2);
        assert(bytes@ =~= header_bytes(*self));
        Ok(bytes)
    }
}

/// The word that holds the data offset (high 4 bits) and the flags (low 9 bits).
pub open spec fn offset_flags_word(h: Header) -> nat {
    h.data_offset as nat * 0x1000 + h.flags as nat
}

/// The 20 bytes of a header on the wire, big-endian field by field.
pub open spec fn header_bytes(h: Header) -> Seq<u8> {
    be_bytes(h.source_port as nat, 2) + be_bytes(h.destination_port as nat, 2) + be_bytes(
        h.sequence_number as nat,
        4,
    ) + be_bytes(h.acknowledgment_number as nat, 4) + be_bytes(offset_flags_word(h), 2) + be_bytes(
        h.window as nat,
        2,
    ) + be_bytes(h.checksum as nat, 2) + be_bytes(h.urgent_pointer as nat, 2)
}

/// The header that the first 20 bytes of `s` hold; the 3 reserved bits
/// between the data offset and the flags are dropped.
pub open spec fn header_of(s: Seq<u8>) -> Header {
    Header {
        source_port: be_at(s, 0, 2) as u16,
        destination_port: be_at(s, 2, 2) as u16,
        sequence_number: be_at(s, 4, 4) as u32,
        acknowledgment_number: be_at(s, 8, 4) as u32,
        data_offset: s[12] / 16,
        flags: (be_at(s, 12, 2) % 0x200) as u16,
        window: be_at(s, 14, 2) as u16,
        checksum: be_at(s, 16, 2) as u16,
        urgent_pointer: be_at(s, 18, 2) as u16,
    }
}

/// Two bytes written from a value below `0x1_0000`.
pub proof fn lemma_be_bytes_2(x: nat)
    requires
        x < 0x1_0000,
    ensures
        be_bytes(x, 2) == seq![(x / 256) as u8, (x % 256) as u8],
{
    reveal_with_fuel(be_bytes, 3);
    assert(be_bytes(x, 2) =~= seq![(x / 256) as u8, (x % 256) as u8]);
}

proof fn lemma_header_bytes_len(h: Header)
    ensures
        header_bytes(h).len() == 20,
{
    lemma_be_bytes_len(h.source_port as nat, 2);
    lemma_be_bytes_len(h.destination_port as nat, 2);
    lemma_be_bytes_len(h.sequence_number as nat, 4);
    lemma_be_bytes_len(h.acknowledgment_number as nat, 4);
    lemma_be_bytes_len(offset_flags_word(h), 2);
    lemma_be_bytes_len(h.window as nat, 2);
    lemma_be_bytes_len(h.checksum as nat, 2);
    lemma_be_bytes_len(h.urgent_pointer as nat, 2);
}

/// A header parsed from bytes always fits its wire widths.
pub proof fn lemma_header_of_is_valid(s: Seq<u8>)
    requires
        s.len() >= 20,
    ensures
        header_of(s).is_valid(),
{
}

/// A valid header written to bytes and read back is the same header.
pub proof fn lemma_header_roundtrip(h: Header)
    requires
        h.is_valid(),
    ensures
        header_bytes(h).len() == 20,
        header_of(header_bytes(h)) == h,
{
    lemma_pow256_facts();
    lemma_header_bytes_len(h);
    let s = header_bytes(h);
    let w = offset_flags_word(h);
    assert(w < 0x1_0000);
    lemma_be_roundtrip(h.source_port as nat, 2);
    lemma_be_roundtrip(h.destination_port as nat, 2);
    lemma_be_roundtrip(h.sequence_number as nat, 4);
    lemma_be_roundtrip(h.acknowledgment_number as nat, 4);
    lemma_be_roundtrip(w, 2);
    lemma_be_roundtrip(h.window as nat, 2);
    lemma_be_roundtrip(h.checksum as nat, 2);
    lemma_be_roundtrip(h.urgent_pointer as nat, 2);
    assert(s.subrange(0, 2) =~= be_bytes(h.source_port as nat, 2));
    assert(s.subrange(2, 4) =~= be_bytes(h.destination_port as nat, 2));
    assert(s.subrange(4, 8) =~= be_bytes(h.sequence_number as nat, 4));
    assert(s.subrange(8, 12) =~= be_bytes(h.acknowledgment_number as nat, 4));
    assert(s.subrange(12, 14) =~= be_bytes(w, 2));
    assert(s.subrange(14, 16) =~= be_bytes(h.window as nat, 2));
    assert(s.subrange(16, 18) =~= be_bytes(h.checksum as nat, 2));
    assert(s.subrange(18, 20) =~= be_bytes(h.urgent_pointer as nat, 2));
    lemma_be_bytes_2(w);
    assert(s[12] == (w / 256) as u8);
    let d = h.data_offset as nat;
    let f = h.flags as nat;
    assert(w / 256 == d * 16 + f / 256);
    assert(s[12] / 16 == d);
    assert(w % 0x200 == f) by {
        vstd::arithmetic::div_mod::lemma_mod_multiples_vanish((d * 8) as int, f as int, 0x200);
    }
    assert(header_of(s) =~= h);
}

/// A header read from bytes and written back gives the first 20 bytes,
/// except that the 3 reserved bits (`0x0e` of byte 12) come back as zero.
pub proof fn lemma_header_bytes_of_parse(s: Seq<u8>)
    requires
        s.len() >= 20,
    ensures
        header_bytes(header_of(s)) == s.take(20).update(12, s[12] & 0xf1),
{
    lemma_pow256_facts();
    let h = header_of(s);
    let t = s.take(20).update(12, s[12] & 0xf1);
    lemma_be_bytes_of_value(s.subrange(0, 2));
    lemma_be_bytes_of_value(s.subrange(2, 4));
    lemma_be_bytes_of_value(s.subrange(4, 8));
    lemma_be_bytes_of_value(s.subrange(8, 12));
    lemma_be_bytes_of_value(s.subrange(14, 16));
    lemma_be_bytes_of_value(s.subrange(16, 18));
    lemma_be_bytes_of_value(s.subrange(18, 20));
    lemma_be_value_bound_2(s.subrange(0, 2));
    lemma_be_value_bound_2(s.subrange(2, 4));
    lemma_be_value_bound_2(s.subrange(12, 14));
    lemma_be_value_bound_2(s.subrange(14, 16));
    lemma_be_value_bound_2(s.subrange(16, 18));
    lemma_be_value_bound_2(s.subrange(18, 20));
    crate::wire::lemma_be_value_bound(s.subrange(4, 8));
    crate::wire::lemma_be_value_bound(s.subrange(8, 12));
    let w = offset_flags_word(h);
    let b12 = s[12];
    let b13 = s[13];
    let pair = s.subrange(12, 14);
    assert(be_value(pair) == b12 as nat * 256 + b13 as nat) by {
        assert(pair.drop_last().drop_last() =~= Seq::<u8>::empty());
        assert(be_value(pair.drop_last()) == be_value(pair.drop_last().drop_last()) * 256
            + pair.drop_last().last() as nat);
    }
    assert(h.flags as nat == (b12 % 2) as nat * 256 + b13 as nat);
    assert(w == (b12 / 16) as nat * 0x1000 + (b12 % 2) as nat * 256 + b13 as nat);
    assert(w / 256 == (b12 / 16) as nat * 16 + (b12 % 2) as nat);
    assert(w % 256 == b13);
    assert((b12 / 16) * 16 + b12 % 2 == b12 & 0xf1) by (bit_vector);
    lemma_be_bytes_2(w);
    assert(be_bytes(w, 2) =~= t.subrange(12, 14));
    lemma_header_bytes_len(h);
    assert(header_bytes(h) =~= t);
}

/// Where each field stands on the wire (RFC 9293, section 3.1): its
/// big-endian bytes at a fixed offset. Byte 12 holds the data offset in its
/// high 4 bits and the flag NS in its low bit; byte 13 holds the other 8 flags.
pub proof fn lemma_header_wire_layout(h: Header)
    ensures
        header_bytes(h).len() == 20,
        header_bytes(h).subrange(0, 2) == be_bytes(h.source_port as nat, 2),
        header_bytes(h).subrange(2, 4) == be_bytes(h.destination_port as nat, 2),
        header_bytes(h).subrange(4, 8) == be_bytes(h.sequence_number as nat, 4),
        header_bytes(h).subrange(8, 12) == be_bytes(h.acknowledgment_number as nat, 4),
        header_bytes(h).subrange(14, 16) == be_bytes(h.window as nat, 2),
        header_bytes(h).subrange(16, 18) == be_bytes(h.checksum as nat, 2),
        header_bytes(h).subrange(18, 20) == be_bytes(h.urgent_pointer as nat, 2),
        h.is_valid() ==> header_bytes(h)[12] == h.data_offset * 16 + h.flags / 256,
        h.is_valid() ==> header_bytes(h)[13] == h.flags % 256,
{
    lemma_header_bytes_len(h);
    lemma_be_bytes_len(h.source_port as nat, 2);
    lemma_be_bytes_len(h.destination_port as nat, 2);
    lemma_be_bytes_len(h.sequence_number as nat, 4);
    lemma_be_bytes_len(h.acknowledgment_number as nat, 4);
    lemma_be_bytes_len(offset_flags_word(h), 2);
    lemma_be_bytes_len(h.window as nat, 2);
    lemma_be_bytes_len(h.checksum as nat, 2);
    lemma_be_bytes_len(h.urgent_pointer as nat, 2);
    let s = header_bytes(h);
    assert(s.subrange(0, 2) =~= be_bytes(h.source_port as nat, 2));
    assert(s.subrange(2, 4) =~= be_bytes(h.destination_port as nat, 2));
    assert(s.subrange(4, 8) =~= be_bytes(h.sequence_number as nat, 4));
    assert(s.subrange(8, 12) =~= be_bytes(h.acknowledgment_number as nat, 4));
    assert(s.subrange(12, 14) =~= be_bytes(offset_flags_word(h), 2));
    assert(s.subrange(14, 16) =~= be_bytes(h.window as nat, 2));
    assert(s.subrange(16, 18) =~= be_bytes(h.checksum as nat, 2));
    assert(s.subrange(18, 20) =~= be_bytes(h.urgent_pointer as nat, 2));
    if h.is_valid() {
        let w = offset_flags_word(h);
        lemma_be_bytes_2(w);
        assert(s[12] == s.subrange(12, 14)[0]);
        assert(s[13] == s.subrange(12, 14)[1]);
        let d = h.data_offset as nat;
        let f = h.flags as nat;
        assert(w / 256 == d * 16 + f / 256);
        assert(w % 256 == f % 256) by {
            vstd::arithmetic::div_mod::lemma_mod_multiples_vanish((d * 16) as int, f as int, 256);
        }
    }
}

/// Each field read from its fixed offset, most significant byte first; the
/// data offset from the high 4 bits of byte 12, the flags from its low bit
/// and byte 13.
pub proof fn lemma_header_of_fields(s: Seq<u8>)
    requires
        s.len() >= 20,
    ensures
        header_of(s).source_port as nat == be_at(s, 0, 2),
        header_of(s).destination_port as nat == be_at(s, 2, 2),
        header_of(s).sequence_number as nat == be_at(s, 4, 4),
        header_of(s).acknowledgment_number as nat == be_at(s, 8, 4),
        header_of(s).data_offset == s[12] / 16,
        header_of(s).flags as nat == (s[12] % 2) as nat * 256 + s[13] as nat,
        header_of(s).window as nat == be_at(s, 14, 2),
        header_of(s).checksum as nat == be_at(s, 16, 2),
        header_of(s).urgent_pointer as nat == be_at(s, 18, 2),
{
    lemma_pow256_facts();
    lemma_be_value_bound_2(s.subrange(0, 2));
    lemma_be_value_bound_2(s.subrange(2, 4));
    lemma_be_value_bound_2(s.subrange(14, 16));
    lemma_be_value_bound_2(s.subrange(16, 18));
    lemma_be_value_bound_2(s.subrange(18, 20));
    crate::wire::lemma_be_value_bound(s.subrange(4, 8));
    crate::wire::lemma_be_value_bound(s.subrange(8, 12));
    let pair = s.subrange(12, 14);
    assert(be_value(pair) == s[12] as nat * 256 + s[13] as nat) by {
        assert(pair.drop_last().drop_last() =~= Seq::<u8>::empty());
        assert(be_value(pair.drop_last()) == be_value(pair.drop_last().drop_last()) * 256
            + pair.drop_last().last() as nat);
    }
}

/// A header is read from the first 20 bytes alone.
pub proof fn lemma_header_of_prefix(s: Seq<u8>, t: Seq<u8>)
    requires
        s.len() >= 20,
        t.len() >= 20,
        s.take(20) == t.take(20),
    ensures
        header_of(s) == header_of(t),
{
    assert forall|i: int, j: int| 0 <= i <= j <= 20 implies #[trigger] s.subrange(i, j)
        == t.subrange(i, j) by {
        assert(s.subrange(i, j) =~= s.take(20).subrange(i, j));
        assert(t.subrange(i, j) =~= t.take(20).subrange(i, j));
    }
    assert(s[12] == s.take(20)[12]);
    assert(t[12] == t.take(20)[12]);
    assert(s.subrange(0, 2) == t.subrange(0, 2));
    assert(s.subrange(2, 4) == t.subrange(2, 4));
    assert(s.subrange(4, 8) == t.subrange(4, 8));
    assert(s.subrange(8, 12) == t.subrange(8, 12));
    assert(s.subrange(12, 14) == t.subrange(12, 14));
    assert(s.subrange(14, 16) == t.subrange(14, 16));
    assert(s.subrange(16, 18) == t.subrange(16, 18));
    assert(s.subrange(18, 20) == t.subrange(18, 20));
}

proof fn lemma_be_value_bound_2(s: Seq<u8>)
    requires
        s.len() == 2,
    ensures
        be_value(s) < 0x1_0000,
{
    lemma_pow256_facts();
    crate::wire::lemma_be_value_bound(s);
}

} // verus!
