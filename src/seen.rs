use vstd::prelude::*;
use crate::feedback::{Word, is_letter, is_word};

verus! {

/// Whether bit `k` of `bits` is set.
pub open spec fn bit_set(bits: u32, k: u32) -> bool {
    (bits >> k) & 1u32 == 1u32
}

/// How many positions of `w` hold a letter of `s`.
pub open spec fn seen_count(s: Set<u8>, w: Seq<u8>) -> nat {
    w.filter(|c: u8| s.contains(c)).len()
}

/// A set of lowercase letters, one bit per letter.
#[derive(Debug, Clone, Copy)]
pub struct SeenLetterBitFlags(u32);

impl View for SeenLetterBitFlags {
    type V = Set<u8>;

    closed spec fn view(&self) -> Set<u8> {
        Set::new(|c: u8| is_letter(c) && bit_set(self.0, (c - 97) as u32))
    }
}

proof fn lemma_set_bit(bits: u32, k: u32, j: u32)
    requires
        k < 32,
        j < 32,
    ensures
        bit_set(bits | (1u32 << k), j) <==> (bit_set(bits, j) || j == k),
        bit_set(bits & !(1u32 << k), j) <==> (bit_set(bits, j) && j != k),
        bit_set(bits, k) <==> bits & (1u32 << k) != 0,
{
    assert(((bits | (1u32 << k)) >> j) & 1u32 == 1u32 <==> (((bits >> j) & 1u32 == 1u32) || j == k))
        by (bit_vector)
        requires
            k < 32,
            j < 32,
    ;
    assert(((bits & !(1u32 << k)) >> j) & 1u32 == 1u32 <==> (((bits >> j) & 1u32 == 1u32) && j != k))
        by (bit_vector)
        requires
            k < 32,
            j < 32,
    ;
    assert(((bits >> k) & 1u32 == 1u32) <==> bits & (1u32 << k) != 0) by (bit_vector)
        requires
            k < 32,
    ;
}

proof fn lemma_empty_bits(k: u32)
    requires
        k < 32,
    ensures
        !bit_set(0u32, k),
{
    assert((0u32 >> k) & 1u32 != 1u32) by (bit_vector);
}

impl SeenLetterBitFlags {
    /// No letter.
    pub fn new() -> (r: Self)
        ensures
            r@ == Set::<u8>::empty(),
    {
        let r = SeenLetterBitFlags(0);
        assert forall|c: u8| !r@.contains(c) by {
            if is_letter(c) {
                lemma_empty_bits((c - 97) as u32);
            }
        }
        assert(r@ =~= Set::<u8>::empty());
        r
    }

    /// The bit that stands for letter `c`.
    pub fn flag_of_char(c: u8) -> (r: u32)
        requires
            is_letter(c),
        ensures
            r == 1u32 << ((c - 97) as u32),
    {
        1u32 << (c - 97u8) as u32
    }

    /// Adds letter `c` when `val` holds, removes it otherwise.
    pub fn set(&mut self, c: u8, val: bool)
        requires
            is_letter(c),
        ensures
            final(self)@ == if val {
                old(self)@.insert(c)
            } else {
                old(self)@.remove(c)
            },
    {
        let flag = Self::flag_of_char(c);
        let ghost before = self.0;
        if val {
            self.0 = self.0 | flag;
        } else {
            self.0 = self.0 & !flag;
        }
        proof {
            let k = (c - 97) as u32;
            assert forall|d: u8| #[trigger] self@.contains(d) <==> if val {
                old(self)@.insert(c).contains(d)
            } else {
                old(self)@.remove(c).contains(d)
            } by {
                if is_letter(d) {
                    lemma_set_bit(before, k, (d - 97) as u32);
                }
            }
        }
        assert(self@ =~= if val {
            old(self)@.insert(c)
        } else {
            old(self)@.remove(c)
        });
    }

    /// Adds every letter of `w` when `val` holds, removes them otherwise.
    pub fn set_word(&mut self, w: &Word, val: bool)
        requires
            is_word(w@),
        ensures
            final(self)@ == if val {
                old(self)@.union(w@.to_set())
            } else {
                old(self)@.difference(w@.to_set())
            },
    {
        let mut i: usize = 0;
        while i < 5
            invariant
                is_word(w@),
                0 <= i <= 5,
                self@ == if val {
                    old(self)@.union(w@.take(i as int).to_set())
                } else {
                    old(self)@.difference(w@.take(i as int).to_set())
                },
            decreases 5 - i,
        {
            proof {
                assert(w@.take(i + 1) =~= w@.take(i as int).push(w@[i as int]));
                w@.take(i as int).lemma_push_to_set_commute(w@[i as int]);
            }
            self.set(w[i], val);
            if val {
                assert(self@ =~= old(self)@.union(w@.take(i + 1).to_set()));
            } else {
                assert(self@ =~= old(self)@.difference(w@.take(i + 1).to_set()));
            }
            i += 1;
        }
        assert(w@.take(5) =~= w@);
    }

    /// Whether letter `c` is in the set.
    pub fn get(&self, c: u8) -> (r: bool)
        requires
            is_letter(c),
        ensures
            r == self@.contains(c),
    {
        let flag = Self::flag_of_char(c);
        proof {
            lemma_set_bit(self.0, (c - 97) as u32, 0);
        }
        self.0 & flag != 0
    }

    /// How many positions of `w` hold a letter of the set.
    pub fn get_word(&self, w: &Word) -> (r: usize)
        requires
            is_word(w@),
        ensures
            r == seen_count(self@, w@),
            r <= 5,
    {
        let ghost pred = |c: u8| self@.contains(c);
        let mut n: usize = 0;
        let mut i: usize = 0;
        while i < 5
            invariant
                is_word(w@),
                pred == (|c: u8| self@.contains(c)),
                0 <= i <= 5,
                n == w@.take(i as int).filter(pred).len(),
                n <= i,
            decreases 5 - i,
        {
            proof {
                assert(w@.take(i + 1) =~= w@.take(i as int).push(w@[i as int]));
                w@.take(i as int).lemma_filter_push(w@[i as int], pred);
            }
            if self.get(w[i]) {
                n += 1;
            }
            i += 1;
        }
        assert(w@.take(5) =~= w@);
        n
    }
}

} // verus!
