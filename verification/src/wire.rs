//! Big-endian integers on the wire: their meaning as byte strings and the
//! executable readers and writers that the header and option codecs share.
use vstd::prelude::*;
use vstd::arithmetic::div_mod::{lemma_fundamental_div_mod_converse, lemma_mod_breakdown};

verus! {

/// `256` raised to the power `n`.
pub open spec fn pow256(n: nat) -> nat
    decreases n,
{
    if n == 0 {
        1
    } else {
        256 * pow256((n - 1) as nat)
    }
}

/// The number that a byte string denotes when read most significant byte first.
pub open spec fn be_value(s: Seq<u8>) -> nat
    decreases s.len(),
{
    if s.len() == 0 {
        0
    } else {
        be_value(s.drop_last()) * 256 + s.last() as nat
    }
}

/// The `n` least significant bytes of `x`, most significant first.
pub open spec fn be_bytes(x: nat, n: nat) -> Seq<u8>
    decreases n,
{
    if n == 0 {
        Seq::empty()
    } else {
        be_bytes(x / 256, (n - 1) as nat).push((x % 256) as u8)
    }
}

/// The big-endian value of the `n` bytes of `s` that start at `start`.
pub open spec fn be_at(s: Seq<u8>, start: int, n: int) -> nat {
    be_value(s.subrange(start, start + n))
}

pub proof fn lemma_pow256_facts()
    ensures
        pow256(1) == 0x100,
        pow256(2) == 0x1_0000,
        pow256(4) == 0x1_0000_0000,
        pow256(8) == 0x1_0000_0000_0000_0000,
        pow256(16) == 0x1_0000_0000_0000_0000_0000_0000_0000_0000,
{
    reveal_with_fuel(pow256, 17);
}

pub proof fn lemma_pow256_positive(n: nat)
    ensures
        pow256(n) > 0,
    decreases n,
{
    if n > 0 {
        lemma_pow256_positive((n - 1) as nat);
    }
}

pub proof fn lemma_pow256_monotonic(m: nat, n: nat)
    requires
        m <= n,
    ensures
        pow256(m) <= pow256(n),
    decreases n,
{
    lemma_pow256_positive(n);
    if m < n {
        lemma_pow256_monotonic(m, (n - 1) as nat);
    }
}

pub proof fn lemma_be_bytes_len(x: nat, n: nat)
    ensures
        #[trigger] be_bytes(x, n).len() == n,
    decreases n,
{
    if n > 0 {
        lemma_be_bytes_len(x / 256, (n - 1) as nat);
    }
}

/// A byte string denotes a number below `256` to the power of its length.
pub proof fn lemma_be_value_bound(s: Seq<u8>)
    ensures
        be_value(s) < pow256(s.len()),
    decreases s.len(),
{
    if s.len() > 0 {
        lemma_be_value_bound(s.drop_last());
    }
}

/// Writing `x` in `n` bytes and reading them back gives `x` modulo `256^n`.
pub proof fn lemma_be_value_of_bytes(x: nat, n: nat)
    ensures
        be_value(be_bytes(x, n)) == x % pow256(n),
    decreases n,
{
    if n > 0 {
        let m = (n - 1) as nat;
        lemma_be_value_of_bytes(x / 256, m);
        lemma_pow256_positive(m);
        lemma_be_bytes_len(x / 256, m);
        assert(be_bytes(x, n).drop_last() =~= be_bytes(x / 256, m));
        lemma_mod_breakdown(x as int, 256, pow256(m) as int);
    }
}

/// A value below `256^n` survives being written in `n` bytes and read back.
pub proof fn lemma_be_roundtrip(x: nat, n: nat)
    requires
        x < pow256(n),
    ensures
        be_value(be_bytes(x, n)) == x,
        be_bytes(x, n).len() == n,
{
    lemma_be_value_of_bytes(x, n);
    lemma_be_bytes_len(x, n);
    assert(x % pow256(n) == x) by {
        lemma_fundamental_div_mod_converse(x as int, pow256(n) as int, 0, x as int);
    }
}

/// Reading a byte string and writing the value back in as many bytes gives the string.
pub proof fn lemma_be_bytes_of_value(s: Seq<u8>)
    ensures
        be_bytes(be_value(s), s.len()) == s,
    decreases s.len(),
{
    if s.len() > 0 {
        let p = s.drop_last();
        lemma_be_bytes_of_value(p);
        let v = be_value(s);
        assert(v / 256 == be_value(p) && v % 256 == s.last()) by {
            lemma_fundamental_div_mod_converse(v as int, 256, be_value(p) as int, s.last() as int);
        }
        assert(be_bytes(v, s.len()) =~= s);
    }
}

/// Byte `i` of `x` written in `n` bytes is digit `n - 1 - i` of `x` in base
/// 256: the most significant byte comes first.
pub proof fn lemma_be_bytes_index(x: nat, n: nat, i: int)
    requires
        0 <= i < n,
    ensures
        be_bytes(x, n)[i] == ((x / pow256((n - 1 - i) as nat)) % 256) as u8,
    decreases n,
{
    let m = (n - 1) as nat;
    lemma_be_bytes_len(x / 256, m);
    let head = be_bytes(x / 256, m);
    assert(be_bytes(x, n) == head.push((x % 256) as u8));
    if i < m {
        assert(be_bytes(x, n)[i] == head[i]);
        lemma_be_bytes_index(x / 256, m, i);
        let k = (m - 1 - i) as nat;
        lemma_pow256_positive(k);
        vstd::arithmetic::div_mod::lemma_div_denominator(x as int, 256, pow256(k) as int);
        assert(pow256((n - 1 - i) as nat) == 256 * pow256(k));
    } else {
        assert(be_bytes(x, n)[i] == (x % 256) as u8);
        assert(pow256(0) == 1);
        assert(x / 1 == x);
    }
}

/// Byte `i` of a byte string is digit `len - 1 - i` of the number it
/// denotes: `be_value` reads the most significant byte first.
pub proof fn lemma_be_value_index(s: Seq<u8>, i: int)
    requires
        0 <= i < s.len(),
    ensures
        s[i] == ((be_value(s) / pow256((s.len() - 1 - i) as nat)) % 256) as u8,
{
    lemma_be_bytes_of_value(s);
    lemma_be_bytes_index(be_value(s), s.len(), i);
}

/// Reads the `n` bytes of `bytes` that start at `start` as a big-endian number.
pub(crate) fn read_be(bytes: &[u8], start: usize, n: usize) -> (r: u128)
    requires
        n <= 16,
        start + n <= bytes@.len(),
    ensures
        r == be_at(bytes@, start as int, n as int),
        r < pow256(n as nat),
{
    let mut acc: u128 = 0;
    let mut i: usize = 0;
    proof {
        lemma_pow256_facts();
        assert(bytes@.subrange(start as int, start as int) =~= Seq::<u8>::empty());
    }
    while i < n
        invariant
            i <= n <= 16,
            start + n <= bytes.len(),
            acc == be_at(bytes@, start as int, i as int),
            acc < pow256(i as nat),
            pow256(16) == 0x1_0000_0000_0000_0000_0000_0000_0000_0000,
        decreases n - i,
    {
        proof {
            lemma_pow256_monotonic((i + 1) as nat, 16);
            assert(bytes@.subrange(start as int, start + i + 1).drop_last() =~= bytes@.subrange(
                start as int,
                start + i,
            ));
        }
        acc = acc * 256 + bytes[start + i] as u128;
        i = i + 1;
    }
    acc
}

/// Appends the `n` least significant bytes of `x`, most significant first.
pub(crate) fn push_be(out: &mut Vec<u8>, x: u128, n: usize)
    requires
        n <= 16,
    ensures
        final(out)@ == old(out)@ + be_bytes(x as nat, n as nat),
    decreases n,
{
    if n > 0 {
        push_be(out, x / 256, n - 1);
        out.push((x % 256) as u8);
        assert(final(out)@ =~= old(out)@ + be_bytes(x as nat, n as nat));
    } else {
        assert(final(out)@ =~= old(out)@ + be_bytes(x as nat, n as nat));
    }
}

} // verus!
