//! A 64-bit set of squares.

use vstd::prelude::*;

use crate::bits::{bit, popcount, popcount_below, popcnt64};
use crate::types::Square;

verus! {

/// A set of squares, one bit per square index.
#[derive(Debug, Clone, Copy, PartialEq, Eq, Hash, Structural)]
pub struct BitBoard(pub u64);

impl BitBoard {
    /// The empty set.
    pub fn empty_board() -> (r: BitBoard)
        ensures
            r.0 == 0,
    {
        BitBoard(0)
    }

    /// Count the squares in the set.
    pub fn popcnt(self) -> (r: u32)
        ensures
            r == popcount(self.0),
    {
        popcnt64(self.0)
    }

    /// Is the given square in the set?
    pub fn has(self, square: Square) -> (r: bool)
        requires
            square.wf(),
        ensures
            r == bit(self.0, square.0 as u64),
    {
        (self.0 >> square.0) & 1 == 1
    }

    /// Is the set empty?
    pub fn is_empty(self) -> (r: bool)
        ensures
            r == (self.0 == 0),
    {
        self.0 == 0
    }

    /// Is the set empty?
    pub fn empty(self) -> (r: bool)
        ensures
            r == (self.0 == 0),
    {
        self.0 == 0
    }

    /// The least significant square of the set, if any.
    pub fn next_square(self) -> (r: Option<Square>)
        ensures
            match r {
                Some(sq) => sq.wf() && bit(self.0, sq.0 as u64) && forall|j: u64|
                    j < sq.0 ==> !bit(self.0, j),
                None => self.0 == 0,
            },
    {
        match crate::bits::lowest_bit(self.0) {
            Some(i) => Some(Square(i as u8)),
            None => None,
        }
    }

    /// The squares of the set, in increasing index order.
    pub fn squares(self) -> (r: Vec<Square>)
        ensures
            r@.len() == popcount(self.0),
            forall|k: int| 0 <= k < r@.len() ==> (#[trigger] r@[k]).wf() && bit(self.0, r@[k].0 as u64),
            forall|k1: int, k2: int| 0 <= k1 < k2 < r@.len() ==> r@[k1].0 < r@[k2].0,
            forall|i: u64| i < 64 && bit(self.0, i) ==> exists|k: int|
                0 <= k < r@.len() && (#[trigger] r@[k]).0 == i,
    {
        let mut r: Vec<Square> = Vec::new();
        let mut i: u64 = 0;
        while i < 64
            invariant
                i <= 64,
                r@.len() == popcount_below(self.0, i as nat),
                forall|k: int| 0 <= k < r@.len() ==> (#[trigger] r@[k]).wf() && r@[k].0 < i
                    && bit(self.0, r@[k].0 as u64),
                forall|k1: int, k2: int| 0 <= k1 < k2 < r@.len() ==> r@[k1].0 < r@[k2].0,
                forall|j: u64| j < i && bit(self.0, j) ==> exists|k: int|
                    0 <= k < r@.len() && (#[trigger] r@[k]).0 == j,
            decreases 64 - i,
        {
            let ghost prev = r@;
            if (self.0 >> i) & 1 == 1 {
                r.push(Square(i as u8));
                proof {
                    assert forall|j: u64| j < i + 1 && bit(self.0, j) implies exists|k: int|
                        0 <= k < r@.len() && (#[trigger] r@[k]).0 == j by {
                        if j < i {
                            let k = choose|k: int|
                                0 <= k < prev.len() && (#[trigger] prev[k]).0 == j;
                            assert(r@[k].0 == j);
                        } else {
                            assert(r@[r@.len() - 1].0 == j);
                        }
                    }
                }
            } else {
                proof {
                    assert forall|j: u64| j < i + 1 && bit(self.0, j) implies exists|k: int|
                        0 <= k < r@.len() && (#[trigger] r@[k]).0 == j by {
                        let k = choose|k: int| 0 <= k < prev.len() && (#[trigger] prev[k]).0 == j;
                        assert(r@[k].0 == j);
                    }
                }
            }
            i = i + 1;
        }
        r
    }
}

} // verus!
