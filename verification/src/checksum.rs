//! RFC 1071 arithmetic: the 16-bit one's-complement sum that IPv4 and TCP
//! checksums are made of, stated over mathematical integers.
//!
//! A buffer is read as big-endian 16-bit words, a trailing odd byte being the
//! high half of a final word. [`word_sum`] is the plain integer sum of those
//! words; [`ones_sum`] is what end-around-carry folding turns any sum into.
use vstd::prelude::*;

verus! {

/// The modulus of one's-complement 16-bit arithmetic.
pub open spec fn ones_mod() -> int {
    65535
}

/// The big-endian 16-bit value of two bytes.
pub open spec fn be16(hi: u8, lo: u8) -> int {
    hi as int * 256 + lo as int
}

/// The integer sum of the big-endian 16-bit words of `b`, a trailing odd
/// byte counting as the high byte of a last word.
pub open spec fn word_sum(b: Seq<u8>) -> int
    decreases b.len(),
{
    if b.len() == 0 {
        0
    } else if b.len() == 1 {
        b[0] as int * 256
    } else {
        be16(b[0], b[1]) + word_sum(b.skip(2))
    }
}

/// What repeated end-around-carry folding leaves of a non-negative sum `x`:
/// zero for zero, and otherwise the one value in `1..=0xffff` congruent to
/// `x` modulo `0xffff`.
pub open spec fn ones_sum(x: int) -> int {
    if x <= 0 {
        0
    } else {
        (x - 1) % ones_mod() + 1
    }
}

/// The bytes of a big-endian 16-bit value.
pub open spec fn be16_bytes(v: int) -> Seq<u8> {
    seq![(v / 256) as u8, (v % 256) as u8]
}

pub proof fn lemma_word_sum_nonneg(b: Seq<u8>)
    ensures
        word_sum(b) >= 0,
    decreases b.len(),
{
    if b.len() >= 2 {
        lemma_word_sum_nonneg(b.skip(2));
    }
}

/// The word sum of a concatenation whose first part has even length is the
/// sum of the parts' word sums.
pub proof fn lemma_word_sum_concat(a: Seq<u8>, c: Seq<u8>)
    requires
        a.len() % 2 == 0,
    ensures
        word_sum(a + c) == word_sum(a) + word_sum(c),
    decreases a.len(),
{
    if a.len() == 0 {
        assert(a + c =~= c);
    } else {
        let ac = a + c;
        assert(ac.skip(2) =~= a.skip(2) + c);
        lemma_word_sum_concat(a.skip(2), c);
    }
}

/// Adding the word at an even offset extends the prefix sum by that word.
pub proof fn lemma_word_sum_take_step(b: Seq<u8>, i: int)
    requires
        0 <= i,
        i % 2 == 0,
        i + 2 <= b.len(),
    ensures
        word_sum(b.take(i + 2)) == word_sum(b.take(i)) + be16(b[i], b[i + 1]),
{
    let w = b.subrange(i, i + 2);
    assert(b.take(i + 2) =~= b.take(i) + w);
    lemma_word_sum_concat(b.take(i), w);
    lemma_word_sum_pair(w);
}

/// The sum of exactly two bytes is their word.
pub proof fn lemma_word_sum_pair(w: Seq<u8>)
    requires
        w.len() == 2,
    ensures
        word_sum(w) == be16(w[0], w[1]),
{
    assert(w.skip(2) =~= Seq::<u8>::empty());
    assert(word_sum(w.skip(2)) == 0);
}

/// The sum of a buffer of odd length is the sum of all but its last byte,
/// plus that byte as a high half.
pub proof fn lemma_word_sum_odd_tail(b: Seq<u8>)
    requires
        b.len() % 2 == 1,
    ensures
        word_sum(b) == word_sum(b.take(b.len() - 1)) + b[b.len() - 1] as int * 256,
{
    let n = b.len() - 1;
    let t = b.subrange(n, n + 1);
    assert(b =~= b.take(n) + t);
    lemma_word_sum_concat(b.take(n), t);
}

/// An even-length prefix never sums to more than the whole.
pub proof fn lemma_word_sum_prefix_le(b: Seq<u8>, i: int)
    requires
        0 <= i <= b.len(),
        i % 2 == 0,
    ensures
        word_sum(b.take(i)) <= word_sum(b),
{
    assert(b =~= b.take(i) + b.skip(i));
    lemma_word_sum_concat(b.take(i), b.skip(i));
    lemma_word_sum_nonneg(b.skip(i));
}

/// Every word is at most `0xffff`, so a buffer sums to at most that much per
/// two bytes, rounded up.
pub proof fn lemma_word_sum_upper(b: Seq<u8>)
    ensures
        word_sum(b) <= (b.len() as int + 1) / 2 * 65535,
    decreases b.len(),
{
    if b.len() >= 2 {
        lemma_word_sum_upper(b.skip(2));
    }
}

/// Writing the word `hi:lo` over a zero word at an even offset `k` adds
/// exactly that word to the sum.
pub proof fn lemma_word_sum_set_word(b: Seq<u8>, k: int, hi: u8, lo: u8)
    requires
        0 <= k,
        k % 2 == 0,
        k + 2 <= b.len(),
    ensures
        word_sum(b.update(k, hi).update(k + 1, lo)) == word_sum(b) - be16(b[k], b[k + 1]) + be16(
            hi,
            lo,
        ),
{
    let b2 = b.update(k, hi).update(k + 1, lo);
    let w = b.subrange(k, k + 2);
    let w2 = b2.subrange(k, k + 2);
    assert(b =~= b.take(k) + (w + b.skip(k + 2)));
    assert(b2 =~= b.take(k) + (w2 + b.skip(k + 2)));
    lemma_word_sum_concat(b.take(k), w + b.skip(k + 2));
    lemma_word_sum_concat(b.take(k), w2 + b.skip(k + 2));
    lemma_word_sum_concat(w, b.skip(k + 2));
    lemma_word_sum_concat(w2, b.skip(k + 2));
    lemma_word_sum_pair(w);
    lemma_word_sum_pair(w2);
}

/// What is known of the folded sum: it lies in `0..=0xffff`, is zero only
/// for zero, and is congruent to the sum.
pub proof fn lemma_ones_sum_props(x: int)
    requires
        x >= 0,
    ensures
        0 <= ones_sum(x) <= 65535,
        ones_sum(x) == 0 <==> x == 0,
        ones_sum(x) % 65535 == x % 65535,
{
}

/// A positive sum congruent to zero folds to `0xffff`, one's-complement
/// negative zero, whose complement is the checksum `0`.
pub proof fn lemma_ones_sum_of_multiple(x: int)
    requires
        x > 0,
        x % 65535 == 0,
    ensures
        ones_sum(x) == 65535,
{
}

/// Two positive sums that agree modulo `0xffff` fold to the same value.
pub proof fn lemma_ones_sum_congruent(x: int, y: int)
    requires
        x > 0,
        y > 0,
        x % 65535 == y % 65535,
    ensures
        ones_sum(x) == ones_sum(y),
{
}

/// One folding step: the low half plus the carried high half keeps the
/// value modulo `0xffff`, stays positive, and shrinks while a carry remains.
pub proof fn lemma_fold_step(s: u32)
    requires
        s >= 65536,
    ensures
        (s & 0xffff) + (s >> 16) < s,
        ((s & 0xffff) + (s >> 16)) as int % 65535 == s as int % 65535,
        (s & 0xffff) + (s >> 16) > 0,
{
    assert((s & 0xffff) == s % 65536) by (bit_vector);
    assert((s >> 16) == s / 65536) by (bit_vector);
    let q = s as int / 65536;
    let r = s as int % 65536;
    assert(s as int == 65536 * q + r);
    assert((65535 * q + (r + q)) % 65535 == (r + q) % 65535) by {
        vstd::arithmetic::div_mod::lemma_mod_multiples_vanish(q, r + q, 65535);
    }
}

/// The one's complement of a 16-bit value, as the `!` of a `u16`.
pub proof fn lemma_not_u16(v: u16)
    ensures
        !v == 65535 - v,
{
    assert(!v == 65535 - v) by (bit_vector);
}

} // verus!
