//! The Internet checksum of RFC 1071: a one's complement sum of 16-bit words.
use vstd::prelude::*;
use vstd::arithmetic::div_mod::{lemma_fundamental_div_mod_converse, lemma_mod_multiples_vanish};
use crate::wire::{be_at, be_value, lemma_pow256_facts, read_be};

verus! {

/// The sum of a sequence of 16-bit words.
pub open spec fn words_total(w: Seq<u16>) -> nat
    decreases w.len(),
{
    if w.len() == 0 {
        0
    } else {
        words_total(w.drop_last()) + w.last() as nat
    }
}

/// The sum of the big-endian 16-bit words of a byte string. An odd last byte
/// counts as the high half of a word whose low half is zero.
pub open spec fn byte_words_total(s: Seq<u8>) -> nat
    decreases s.len(),
{
    if s.len() == 0 {
        0
    } else if s.len() == 1 {
        s[0] as nat * 256
    } else {
        (s[0] as nat * 256 + s[1] as nat) + byte_words_total(s.skip(2))
    }
}

/// The one's complement value of a sum: its carries folded back in until it
/// fits in 16 bits. Zero stays zero; any other sum lands in `1..=0xffff` and
/// keeps its remainder modulo `0xffff`.
pub open spec fn fold_carries(total: nat) -> nat {
    if total == 0 {
        0
    } else {
        ((total - 1) as nat % 0xffff + 1) as nat
    }
}

/// The checksum of a sum: the one's complement of its folded value.
pub open spec fn complement_of(total: nat) -> u16 {
    (0xffff - fold_carries(total)) as u16
}

/// One step of folding carries keeps the folded value and shrinks the sum.
proof fn lemma_fold_step(a: nat)
    requires
        a >= 0x1_0000,
    ensures
        a % 0x1_0000 + a / 0x1_0000 < a,
        fold_carries((a % 0x1_0000 + a / 0x1_0000) as nat) == fold_carries(a),
{
    let q = a / 0x1_0000;
    let r = a % 0x1_0000;
    assert(a == 0x1_0000 * q + r) by {
        vstd::arithmetic::div_mod::lemma_fundamental_div_mod(a as int, 0x1_0000);
    }
    let b = r + q;
    assert(q >= 1);
    assert((a - 1) == 0xffff * q + (b - 1));
    lemma_mod_multiples_vanish(q as int, b - 1, 0xffff);
}

/// A sum below `0x1_0000` is its own folded value.
proof fn lemma_fold_small(a: nat)
    requires
        a < 0x1_0000,
    ensures
        fold_carries(a) == a,
{
    if a > 0 {
        lemma_fundamental_div_mod_converse((a - 1) as int, 0xffff, 0, (a - 1) as int);
    }
}

/// Adding a sum's checksum to it makes the sum fold to `0xffff`, so the
/// checksum of the extended sum is zero: this is how a receiver verifies data.
pub proof fn lemma_checksum_verifies(total: nat)
    ensures
        complement_of(total + complement_of(total) as nat) == 0,
{
    let f = fold_carries(total);
    let c = complement_of(total) as nat;
    assert(c == 0xffff - f);
    let t = total + c;
    if total == 0 {
        assert(t == 0xffff);
        lemma_fold_small(t);
    } else {
        let k = (total - 1) as nat / 0xffff;
        assert((total - 1) as nat == 0xffff * k + (f - 1)) by {
            vstd::arithmetic::div_mod::lemma_fundamental_div_mod((total - 1) as int, 0xffff);
        }
        assert(t - 1 == 0xffff * k + 0xfffe);
        lemma_fundamental_div_mod_converse((t - 1) as int, 0xffff, k as int, 0xfffe);
    }
}

/// Summing two byte strings one after the other, the first of even length,
/// gives the sum of their concatenation: an update may be split anywhere
/// between two words.
pub proof fn lemma_byte_words_total_concat(a: Seq<u8>, b: Seq<u8>)
    requires
        a.len() % 2 == 0,
    ensures
        byte_words_total(a + b) == byte_words_total(a) + byte_words_total(b),
    decreases a.len(),
{
    if a.len() == 0 {
        assert(a + b =~= b);
    } else {
        lemma_byte_words_total_concat(a.skip(2), b);
        assert((a + b).skip(2) =~= a.skip(2) + b);
    }
}

/// The sum of a two-byte string is the word it spells.
pub proof fn lemma_byte_words_total_pair(s: Seq<u8>)
    requires
        s.len() == 2,
    ensures
        byte_words_total(s) == be_value(s),
{
    let first = s.drop_last();
    assert(s.skip(2) =~= Seq::<u8>::empty());
    assert(first.drop_last() =~= Seq::<u8>::empty());
    assert(first.last() == s[0]);
    assert(be_value(first) == be_value(first.drop_last()) * 256 + first.last() as nat);
    assert(be_value(first) == s[0]);
    assert(byte_words_total(s) == (s[0] as nat * 256 + s[1] as nat) + byte_words_total(s.skip(2)));
}

/// The sum of the first `2 * (i + 1)` bytes adds the word at `2 * i`.
proof fn lemma_byte_words_total_step(s: Seq<u8>, i: int)
    requires
        0 <= i,
        2 * i + 2 <= s.len(),
    ensures
        byte_words_total(s.take(2 * i + 2)) == byte_words_total(s.take(2 * i)) + be_at(
            s,
            2 * i,
            2,
        ),
        byte_words_total(s.take(2 * i + 2)) <= byte_words_total(s),
{
    let head = s.take(2 * i);
    let pair = s.subrange(2 * i, 2 * i + 2);
    assert(s.take(2 * i + 2) =~= head + pair);
    lemma_byte_words_total_concat(head, pair);
    lemma_byte_words_total_pair(pair);
    let rest = s.skip(2 * i + 2);
    assert(s =~= s.take(2 * i + 2) + rest);
    lemma_byte_words_total_concat(s.take(2 * i + 2), rest);
}

/// The sum of a byte string of even length is at most `0xffff` per word.
pub proof fn lemma_byte_words_total_bound(s: Seq<u8>)
    requires
        s.len() % 2 == 0,
    ensures
        byte_words_total(s) <= 0xffff * (s.len() / 2),
    decreases s.len(),
{
    if s.len() > 0 {
        lemma_byte_words_total_bound(s.skip(2));
    }
}

/// The sum of a byte string of any length is at most `0xffff` per started word.
pub proof fn lemma_byte_words_total_bound_any(s: Seq<u8>)
    ensures
        byte_words_total(s) <= 0xffff * ((s.len() + 1) / 2),
    decreases s.len(),
{
    if s.len() > 1 {
        lemma_byte_words_total_bound_any(s.skip(2));
    }
}

/// Folds the carries of `acc` and returns the one's complement of the result.
fn fold_and_complement(acc: u32) -> (r: u16)
    ensures
        r == complement_of(acc as nat),
{
    let mut a: u32 = acc;
    while a >> 16 != 0
        invariant
            fold_carries(a as nat) == fold_carries(acc as nat),
        decreases a,
    {
        assert(a >> 16 != 0 ==> a >= 0x1_0000) by (bit_vector);
        assert((a & 0xffff) == a % 0x1_0000 && (a >> 16) == a / 0x1_0000) by (bit_vector);
        proof {
            lemma_fold_step(a as nat);
        }
        a = (a & 0xffff) + (a >> 16);
    }
    assert(a >> 16 == 0 ==> a < 0x1_0000) by (bit_vector);
    proof {
        lemma_fold_small(a as nat);
    }
    let low = a as u16;
    assert(!low == 0xffff - low) by (bit_vector);
    !low
}

/// RFC 1071 checksum of a sequence of words.
pub fn checksum(words: &[u16]) -> (r: u16)
    requires
        words_total(words@) <= u32::MAX,
    ensures
        r == complement_of(words_total(words@)),
{
    let mut accumulator: u32 = 0;
    let mut i: usize = 0;
    while i < words.len()
        invariant
            i <= words@.len(),
            words_total(words@) <= u32::MAX,
            accumulator == words_total(words@.take(i as int)),
        decreases words@.len() - i,
    {
        proof {
            assert(words@.take(i + 1).drop_last() =~= words@.take(i as int));
            lemma_words_total_prefix(words@, i + 1);
        }
        accumulator = accumulator + words[i] as u32;
        i = i + 1;
    }
    assert(words@.take(i as int) =~= words@);
    fold_and_complement(accumulator)
}

/// The sum of a prefix of words is at most the sum of all of them.
proof fn lemma_words_total_prefix(w: Seq<u16>, n: int)
    requires
        0 <= n <= w.len(),
    ensures
        words_total(w.take(n)) <= words_total(w),
    decreases w.len(),
{
    if n < w.len() {
        assert(w.drop_last().take(n) =~= w.take(n));
        lemma_words_total_prefix(w.drop_last(), n);
    } else {
        assert(w.take(n) =~= w);
    }
}

/// An incremental RFC 1071 checksum: words are summed into `accumulator`
/// without folding, and `digest` folds and complements the sum.
pub struct Checksum {
    pub accumulator: u32,
}

impl Checksum {
    pub fn new() -> (r: Self)
        ensures
            r.accumulator == 0,
    {
        Self { accumulator: 0u32 }
    }

    /// Adds the words to the sum.
    pub fn update_from_words(&mut self, words: &[u16]) -> (r: Result<(), &'static str>)
        requires
            old(self).accumulator + words_total(words@) <= u32::MAX,
        ensures
            r is Ok,
            final(self).accumulator == old(self).accumulator + words_total(words@),
    {
        let start = self.accumulator;
        let mut accumulator: u32 = start;
        let mut i: usize = 0;
        while i < words.len()
            invariant
                i <= words@.len(),
                start + words_total(words@) <= u32::MAX,
                accumulator == start + words_total(words@.take(i as int)),
            decreases words@.len() - i,
        {
            proof {
                assert(words@.take(i + 1).drop_last() =~= words@.take(i as int));
                lemma_words_total_prefix(words@, i + 1);
            }
            accumulator = accumulator + words[i] as u32;
            i = i + 1;
        }
        assert(words@.take(i as int) =~= words@);
        self.accumulator = accumulator;
        Ok(())
    }

    /// Adds the big-endian words of `bytes` to the sum; `bytes` must hold whole words.
    pub fn update_from_bytes(&mut self, bytes: &[u8]) -> (r: Result<(), &'static str>)
        requires
            bytes@.len() % 2 == 0 ==> old(self).accumulator + byte_words_total(bytes@)
                <= u32::MAX,
        ensures
            bytes@.len() % 2 != 0 ==> r == Err::<(), &'static str>(
                "`bytes` needs to be word aligned.",
            ) && final(self).accumulator == old(self).accumulator,
            bytes@.len() % 2 == 0 ==> r is Ok && final(self).accumulator == old(
                self,
            ).accumulator + byte_words_total(bytes@),
    {
        if bytes.len() % 2 != 0 {
            return Err("`bytes` needs to be word aligned.");
        }
        let start = self.accumulator;
        let mut accumulator: u32 = start;
        let n = bytes.len() / 2;
        let mut i: usize = 0;
        while i < n
            invariant
                n == bytes@.len() / 2,
                n == bytes.len() / 2,
                bytes@.len() % 2 == 0,
                i <= n,
                start + byte_words_total(bytes@) <= u32::MAX,
                accumulator == start + byte_words_total(bytes@.take(2 * i)),
            decreases n - i,
        {
            proof {
                lemma_byte_words_total_step(bytes@, i as int);
                lemma_pow256_facts();
            }
            let word = read_be(bytes, 2 * i, 2) as u16;
            accumulator = accumulator + word as u32;
            i = i + 1;
        }
        assert(bytes@.take(2 * i) =~= bytes@);
        self.accumulator = accumulator;
        Ok(())
    }

    /// The checksum of everything added so far.
    pub fn digest(&self) -> (r: u16)
        ensures
            r == complement_of(self.accumulator as nat),
    {
        fold_and_complement(self.accumulator)
    }
}

/// The big-endian 16-bit words of a byte string; an odd last byte is left out.
pub open spec fn be_words(s: Seq<u8>) -> Seq<u16> {
    Seq::new(s.len() / 2, |i: int| be_at(s, 2 * i, 2) as u16)
}

/// Adding the bytes of an even-length string adds the same as adding its
/// big-endian words: `update_from_bytes(s)` is `update_from_words(be_words(s))`.
pub proof fn lemma_bytes_are_words(s: Seq<u8>)
    requires
        s.len() % 2 == 0,
    ensures
        words_total(be_words(s)) == byte_words_total(s),
    decreases s.len(),
{
    if s.len() > 0 {
        let n = s.len() as int;
        let p = s.take(n - 2);
        let q = s.subrange(n - 2, n);
        lemma_bytes_are_words(p);
        assert(s =~= p + q);
        lemma_byte_words_total_concat(p, q);
        lemma_byte_words_total_pair(q);
        lemma_pow256_facts();
        crate::wire::lemma_be_value_bound(q);
        assert forall|i: int| 0 <= i < p.len() / 2 implies #[trigger] be_words(s)[i] == be_words(
            p,
        )[i] by {
            assert(s.subrange(2 * i, 2 * i + 2) =~= p.subrange(2 * i, 2 * i + 2));
        }
        assert(be_words(s).drop_last() =~= be_words(p));
    }
}

/// Adding words `a` then words `b` adds the same as adding `a + b`, so a
/// `Checksum` fed in pieces digests to `checksum` of the whole.
pub proof fn lemma_words_total_concat(a: Seq<u16>, b: Seq<u16>)
    ensures
        words_total(a + b) == words_total(a) + words_total(b),
    decreases b.len(),
{
    if b.len() == 0 {
        assert(a + b =~= a);
    } else {
        lemma_words_total_concat(a, b.drop_last());
        assert((a + b).drop_last() =~= a + b.drop_last());
    }
}

/// Sums of words: a single word sums to itself; a single byte counts as the
/// high half of a word; two bytes as the big-endian word they spell.
pub proof fn lemma_word_sums_of_one_word(w: u16, b0: u8, b1: u8)
    ensures
        words_total(seq![w]) == w,
        byte_words_total(seq![b0]) == b0 as nat * 256,
        byte_words_total(seq![b0, b1]) == b0 as nat * 256 + b1 as nat,
{
    let one = seq![w];
    assert(one.drop_last() =~= Seq::<u16>::empty());
    assert(words_total(one.drop_last()) == 0);
    assert(one.last() == w);
    let two = seq![b0, b1];
    assert(two.skip(2) =~= Seq::<u8>::empty());
    assert(byte_words_total(two.skip(2)) == 0);
    assert(two[0] == b0 && two[1] == b1);
}

/// Folding the carries keeps the sum modulo `0xffff` and lands in
/// `0..=0xffff`, zero only for a zero sum; a sum that fits in 16 bits is
/// its own fold, and its checksum is its one's complement.
pub proof fn lemma_fold_carries_laws(total: nat)
    ensures
        fold_carries(total) <= 0xffff,
        fold_carries(total) % 0xffff == total % 0xffff,
        fold_carries(total) == 0 <==> total == 0,
        total < 0x1_0000 ==> fold_carries(total) == total,
        total < 0x1_0000 ==> complement_of(total) == 0xffff - total,
{
    if total > 0 {
        let k = (total - 1) as nat / 0xffff;
        let r = (total - 1) as nat % 0xffff;
        assert((total - 1) as nat == 0xffff * k + r) by {
            vstd::arithmetic::div_mod::lemma_fundamental_div_mod((total - 1) as int, 0xffff);
        }
        if r + 1 < 0xffff {
            lemma_fundamental_div_mod_converse(total as int, 0xffff, k as int, (r + 1) as int);
            lemma_fundamental_div_mod_converse((r + 1) as int, 0xffff, 0, (r + 1) as int);
        } else {
            lemma_fundamental_div_mod_converse(total as int, 0xffff, (k + 1) as int, 0);
        }
    }
    if total < 0x1_0000 {
        lemma_fold_small(total);
    }
}

} // verus!
