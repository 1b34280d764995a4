use vstd::prelude::*;

use crate::bits::{bit, pc, pcr};
use crate::position::Position;

verus! {

/// A set of squares: bit `i` is set exactly when square `i` holds a member.
#[derive(Debug, Clone, Copy, PartialEq, Eq, Structural)]
pub struct Bitboard(pub u64);

impl Bitboard {
    /// The empty set.
    pub fn new() -> (r: Self)
        ensures
            r.0 == 0,
    {
        Bitboard(0)
    }

    /// The set with the given square added.
    pub fn set_bit(self, position: Position) -> (r: Self)
        ensures
            r.0 == self.0 | (1u64 << position.idx() as u64),
    {
        Bitboard(self.0 | (1u64 << position.index() as u64))
    }

    /// Add a square in place.
    pub fn mutate_set_bit(&mut self, position: Position)
        ensures
            final(self).0 == old(self).0 | (1u64 << position.idx() as u64),
    {
        self.0 = self.0 | (1u64 << position.index() as u64);
    }

    /// The set with the given square removed.
    pub fn pop_bit(self, position: Position) -> (r: Self)
        ensures
            r.0 == self.0 & !(1u64 << position.idx() as u64),
    {
        Bitboard(self.0 & !(1u64 << position.index() as u64))
    }

    /// Remove a square in place.
    pub fn mutate_pop_bit(&mut self, position: Position)
        ensures
            final(self).0 == old(self).0 & !(1u64 << position.idx() as u64),
    {
        self.0 = self.0 & !(1u64 << position.index() as u64);
    }

    /// Whether the given square is a member.
    pub fn is_occupied(&self, position: Position) -> (r: bool)
        ensures
            r == bit(self.0, position.idx()),
    {
        (self.0 >> position.index() as u64) & 1 == 1
    }

    /// Whether no square is a member.
    pub fn is_empty(&self) -> (r: bool)
        ensures
            r == (self.0 == 0),
    {
        self.0 == 0
    }

    /// How many squares are members.
    pub fn count_bits(&self) -> (r: usize)
        ensures
            r as nat == pc(self.0),
            r <= 64,
    {
        let mut c: usize = 0;
        let mut i: usize = 0;
        while i < 64
            invariant
                i <= 64,
                c as nat == pcr(self.0, i as nat),
                c <= i,
            decreases 64 - i,
        {
            if (self.0 >> (i as u64)) & 1 == 1 {
                c = c + 1;
            }
            i = i + 1;
        }
        c
    }

    /// The lowest member of the set, or nothing when it is empty.
    pub fn get_ls1b(&self) -> (r: Option<Position>)
        ensures
            (match r {
                Some(p) => self.0 != 0 && bit(self.0, p.idx()) && (forall|j: int|
                    0 <= j < p.idx() ==> !bit(self.0, j)),
                None => self.0 == 0,
            }),
    {
        if self.0 == 0 {
            None
        } else {
            let tz = self.0.trailing_zeros();
            proof {
                vstd::std_specs::bits::axiom_u64_trailing_zeros(self.0);
                assert forall|j: int| 0 <= j < tz implies !bit(self.0, j) by {
                    assert((self.0 >> (j as u64)) & 1 == 0);
                }
            }
            Position::from_u32(tz)
        }
    }
}

} // verus!

verus! {

impl Bitboard {
    /// Scatter the low bits of `index` onto the set squares of `mask`,
    /// lowest square first, and add the result to the set: walking the
    /// indices enumerates every subset of the mask.
    pub fn set_occupancy(&mut self, index: u64, mask: &Bitboard)
        ensures
            final(self).0 == old(self).0 | crate::bits::scatter(index as nat, mask.0),
    {
        let ghost target: u64 = old(self).0 | crate::bits::scatter(index as nat, mask.0);
        let mut acc: u64 = self.0;
        let mut m: u64 = mask.0;
        let mut idx: u64 = index;
        proof {
            crate::bits::lemma_zero_bits();
            crate::bits::lemma_or_bits(old(self).0, crate::bits::scatter(index as nat, mask.0));
        }
        while m != 0
            invariant
                target == old(self).0 | crate::bits::scatter(index as nat, mask.0),
                forall|j: int| #[trigger] bit(target, j) <==> (bit(acc, j) || bit(
                    crate::bits::scatter(idx as nat, m),
                    j,
                )),
            decreases m,
        {
            proof {
                crate::bits::lemma_low_rest(m);
            }
            let low = m & !(m - 1);
            let rest = m & (m - 1);
            proof {
                assert(low == crate::bits::low_of(m));
                assert(rest == crate::bits::rest_of(m));
                assert((idx & 1 == 1) == ((idx as nat) % 2 == 1) && (idx >> 1u64) as nat == (
                idx as nat) / 2) by (bit_vector);
            }
            if idx & 1 == 1 {
                let nacc = acc | low;
                proof {
                    crate::bits::lemma_or_bits(acc, low);
                    crate::bits::lemma_or_bits(
                        crate::bits::low_of(m),
                        crate::bits::scatter((idx as nat) / 2, crate::bits::rest_of(m)),
                    );
                }
                acc = nacc;
            } else {
                proof {
                    crate::bits::lemma_or_zero(
                        crate::bits::scatter((idx as nat) / 2, crate::bits::rest_of(m)),
                    );
                }
            }
            idx = idx >> 1;
            m = rest;
        }
        proof {
            crate::bits::lemma_eq_by_bits(target, acc);
        }
        self.0 = acc;
    }
}

} // verus!

verus! {

impl Bitboard {
    /// Whether the square with the given index is a member.
    pub fn test_sq(&self, i: u8) -> (r: bool)
        requires
            i < 64,
        ensures
            r == bit(self.0, i as int),
    {
        (self.0 >> (i as u64)) & 1 == 1
    }
}

} // verus!
