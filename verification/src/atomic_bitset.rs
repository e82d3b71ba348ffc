//! A fixed set of bits, packed into words, from which free bits are handed out.
use vstd::prelude::*;

use portable_atomic::AtomicU32;

use crate::outside::array_from_fn;

verus! {

/// Whether bit `j` of a word is set.
pub open spec fn bit(word: u32, j: int) -> bool {
    (word >> (j as u32)) & 1u32 == 1u32
}

/// Setting one bit of a word leaves the others as they were.
proof fn lemma_set_bit(word: u32, t: u32)
    requires
        t < 32,
    ensures
        forall|j: int|
            0 <= j < 32 ==> #[trigger] bit(word | (1u32 << t), j) == (j == t || bit(word, j)),
{
    assert forall|j: int| 0 <= j < 32 implies #[trigger] bit(word | (1u32 << t), j) == (j == t
        || bit(word, j)) by {
        let k = j as u32;
        assert(((word | (1u32 << t)) >> k) & 1u32 == 1u32 <==> (k == t || (word >> k) & 1u32
            == 1u32)) by (bit_vector)
            requires
                t < 32,
                k < 32,
        ;
    }
}

/// Clearing one bit of a word leaves the others as they were.
proof fn lemma_clear_bit(word: u32, t: u32)
    requires
        t < 32,
    ensures
        forall|j: int|
            0 <= j < 32 ==> #[trigger] bit(word & !(1u32 << t), j) == (j != t && bit(word, j)),
{
    assert forall|j: int| 0 <= j < 32 implies #[trigger] bit(word & !(1u32 << t), j) == (j != t
        && bit(word, j)) by {
        let k = j as u32;
        assert(((word & !(1u32 << t)) >> k) & 1u32 == 1u32 <==> (k != t && (word >> k) & 1u32
            == 1u32)) by (bit_vector)
            requires
                t < 32,
                k < 32,
        ;
    }
}

/// No bit of zero is set.
proof fn lemma_zero_word()
    ensures
        forall|j: int| 0 <= j < 32 ==> !#[trigger] bit(0u32, j),
{
    assert forall|j: int| 0 <= j < 32 implies !#[trigger] bit(0u32, j) by {
        let k = j as u32;
        assert((0u32 >> k) & 1u32 == 0u32) by (bit_vector);
    }
}

/// How many bits a set of `n` bits in `k` words has: `n` of them, as far as the words reach.
pub open spec fn bit_capacity(n: usize, k: usize) -> nat {
    if n <= 32 * k {
        n as nat
    } else {
        32 * k as nat
    }
}

/// A set of `N` bits in `K` words of 32 bits each.
pub struct AtomicBitset<const N: usize, const K: usize> {
    used: [AtomicU32; K],
}

/// A word with every bit clear.
fn zero_word(_i: usize) -> (word: AtomicU32)
    ensures
        crate::outside::word_value(word) == 0,
{
    AtomicU32::new(0)
}

impl<const N: usize, const K: usize> View for AtomicBitset<N, K> {
    type V = Seq<bool>;

    closed spec fn view(&self) -> Seq<bool> {
        Seq::new(bit_capacity(N, K), |i: int| bit(self.word(i / 32), i % 32))
    }
}

impl<const N: usize, const K: usize> AtomicBitset<N, K> {
    /// What a word holds.
    spec fn word(&self, w: int) -> u32 {
        crate::outside::word_value(self.used@[w])
    }

    /// A set with every bit clear.
    pub fn new() -> (bits: Self)
        ensures
            bits@ == Seq::new(bit_capacity(N, K), |i: int| false),
            N <= 32 * K ==> bits@.len() == N,
            N > 32 * K ==> bits@.len() == 32 * K,
            forall|i: int| 0 <= i < bits@.len() ==> !#[trigger] bits@[i],
    {
        let bits = AtomicBitset { used: array_from_fn(zero_word) };
        proof {
            lemma_zero_word();
            assert forall|i: int| 0 <= i < bit_capacity(N, K) implies !#[trigger] bits@[i] by {
                let w = (i / 32) as usize;
                assert(call_ensures(zero_word, (w,), bits.used@[w as int]));
            }
        }
        bits
    }

    /// Sets the first bit that is clear and returns its index, or returns `None` when every bit
    /// is set.
    pub fn alloc_bit(&mut self) -> (index: Option<usize>)
        ensures
            match index {
                Some(n) => {
                    &&& n < old(self)@.len()
                    &&& !old(self)@[n as int]
                    &&& forall|j: int| 0 <= j < n ==> old(self)@[j]
                    &&& final(self)@ == old(self)@.update(n as int, true)
                },
                None => {
                    &&& forall|j: int| 0 <= j < old(self)@.len() ==> old(self)@[j]
                    &&& final(self)@ == old(self)@
                },
            },
    {
        broadcast use vstd::std_specs::bits::group_bits_axioms;

        let words_in_use: usize = if N % 32 == 0 { N / 32 } else { N / 32 + 1 };
        let mut w: usize = 0;
        while w < K && w < words_in_use
            invariant
                w <= K,
                words_in_use == (N + 31) / 32,
                self@ == old(self)@,
                forall|j: int| 0 <= j < 32 * w && j < self@.len() ==> #[trigger] self@[j],
            decreases K - w,
        {
            let ghost before = *self;
            let word: &mut u32 = self.used[w].get_mut();
            let t: u32 = word.trailing_ones();
            if t < 32 && (t as usize) < N - w * 32 {
                let n: usize = w * 32 + t as usize;
                *word = *word | (1u32 << t);
                proof {
                    lemma_set_bit(before.word(w as int), t);
                    assert(before.word(w as int) | (1u32 << t) == self.word(w as int));
                    assert(self@ =~= before@.update(n as int, true));
                }
                return Some(n);
            }
            proof {
                assert(self@ =~= before@);
            }
            w += 1;
        }
        None
    }

    /// Clears a bit.
    pub fn free_bit(&mut self, i: usize)
        requires
            i < old(self)@.len(),
        ensures
            final(self)@ == old(self)@.update(i as int, false),
    {
        let t: u32 = (i % 32) as u32;
        let word: &mut u32 = self.used[i / 32].get_mut();
        *word = *word & !(1u32 << t);
        proof {
            lemma_clear_bit(old(self).word(i as int / 32), t);
            assert(self@ =~= old(self)@.update(i as int, false));
        }
    }
}

/// A set has as many bits as its type says, as far as the words reach.
pub proof fn law_bitset_size<const N: usize, const K: usize>(bits: AtomicBitset<N, K>)
    ensures
        N <= 32 * K ==> bits@.len() == N,
        N > 32 * K ==> bits@.len() == 32 * K,
{
}

} // verus!
