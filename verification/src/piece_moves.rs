//! A compact batch of moves: one piece, one source square, a destination
//! set. A batch whose pawn destinations reach a back rank expands to four
//! promotion moves per destination.

use vstd::prelude::*;

use crate::bitboard::BitBoard;
use crate::bits::{bit, popcount, lemma_bit_ops, lemma_bit_single, lemma_popcount_zero};
use crate::types::{rank_mask, Move, Piece, Square};

verus! {

/// The two back ranks, where pawn moves become promotions.
pub open spec fn promo_mask() -> u64 {
    rank_mask(0) | rank_mask(7)
}

/// A batch of moves of one piece from one square.
#[derive(Debug, Clone, Copy, PartialEq, Eq, Hash, Structural)]
pub struct PieceMoves {
    pub piece: Piece,
    pub from: Square,
    pub to: BitBoard,
}

impl PieceMoves {
    /// Number of moves in the batch: four per pawn destination on a back
    /// rank, one per destination otherwise.
    pub open spec fn spec_len(self) -> nat {
        if self.piece == Piece::Pawn {
            popcount(self.to.0 & !promo_mask()) + 4 * popcount(self.to.0 & promo_mask())
        } else {
            popcount(self.to.0)
        }
    }

    /// Count the moves in the batch.
    pub fn len(&self) -> (r: usize)
        ensures
            r == self.spec_len(),
    {
        let promo = promo_ranks();
        if matches!(self.piece, Piece::Pawn) {
            let plain = BitBoard(self.to.0 & !promo).popcnt();
            let promos = BitBoard(self.to.0 & promo).popcnt();
            proof {
                crate::bits::lemma_popcount_below_bound(self.to.0 & !promo, 64);
                crate::bits::lemma_popcount_below_bound(self.to.0 & promo, 64);
            }
            (plain + promos * 4) as usize
        } else {
            self.to.popcnt() as usize
        }
    }

    /// Whether the batch holds no move at all.
    pub fn empty(&self) -> (r: bool)
        ensures
            r == (self.to.0 == 0),
    {
        self.to.0 == 0
    }

    /// Unpack the batch into the list of its moves, least significant
    /// destination first, promotions expanded knight, bishop, rook, queen.
    pub fn moves(self) -> (r: Vec<Move>)
        ensures
            r@.len() == self.spec_len(),
            forall|k: int| 0 <= k < r@.len() ==> (#[trigger] r@[k]).from == self.from && r@[k].to.wf()
                && bit(self.to.0, r@[k].to.0 as u64),
            forall|k: int| 0 <= k < r@.len() ==> (if self.piece == Piece::Pawn && bit(
                promo_mask(),
                (#[trigger] r@[k]).to.0 as u64,
            ) {
                r@[k].promotion == Some(Piece::Knight) || r@[k].promotion == Some(Piece::Bishop)
                    || r@[k].promotion == Some(Piece::Rook) || r@[k].promotion == Some(
                    Piece::Queen,
                )
            } else {
                r@[k].promotion is None
            }),
    {
        let mut out: Vec<Move> = Vec::new();
        let mut it = self.iter();
        proof {
            lemma_iter_len_nonneg(it);
        }
        loop
            invariant_except_break
                it.wf(),
                it.moves.from == self.from,
                it.moves.piece == self.piece,
                it.spec_len() >= 0,
                out@.len() + it.spec_len() == self.spec_len(),
                forall|k: int| 0 <= k < out@.len() ==> (#[trigger] out@[k]).from == self.from
                    && out@[k].to.wf() && bit(self.to.0, out@[k].to.0 as u64),
                forall|k: int| 0 <= k < out@.len() ==> (if self.piece == Piece::Pawn && bit(
                    promo_mask(),
                    (#[trigger] out@[k]).to.0 as u64,
                ) {
                    out@[k].promotion == Some(Piece::Knight) || out@[k].promotion == Some(
                        Piece::Bishop,
                    ) || out@[k].promotion == Some(Piece::Rook) || out@[k].promotion == Some(
                        Piece::Queen,
                    )
                } else {
                    out@[k].promotion is None
                }),
                forall|j: u64| j < 64 && bit(it.moves.to.0, j) ==> bit(self.to.0, j),
            ensures
                out@.len() == self.spec_len(),
                forall|k: int| 0 <= k < out@.len() ==> (#[trigger] out@[k]).from == self.from
                    && out@[k].to.wf() && bit(self.to.0, out@[k].to.0 as u64),
                forall|k: int| 0 <= k < out@.len() ==> (if self.piece == Piece::Pawn && bit(
                    promo_mask(),
                    (#[trigger] out@[k]).to.0 as u64,
                ) {
                    out@[k].promotion == Some(Piece::Knight) || out@[k].promotion == Some(
                        Piece::Bishop,
                    ) || out@[k].promotion == Some(Piece::Rook) || out@[k].promotion == Some(
                        Piece::Queen,
                    )
                } else {
                    out@[k].promotion is None
                }),
            decreases it.spec_len(),
        {
            let ghost prev = it;
            match it.next() {
                Some(mv) => {
                    proof {
                        lemma_iter_len_nonneg(it);
                        crate::bits::lemma_lsb_exists(prev.moves.to.0);
                        let s = crate::bits::lsb(prev.moves.to.0);
                        assert forall|j: u64| j < 64 && bit(it.moves.to.0, j) implies bit(
                            self.to.0,
                            j,
                        ) by {
                            if it.moves.to.0 == prev.moves.to.0 {
                                assert(bit(prev.moves.to.0, j));
                            } else {
                                crate::bits::lemma_toggle_bit(prev.moves.to.0, s);
                                assert(j != s);
                                assert(bit(prev.moves.to.0, j));
                            }
                        }
                    }
                    out.push(mv);
                },
                None => {
                    proof {
                        crate::bits::lemma_popcount_zero();
                        crate::bits::lemma_bitwise_alg();
                    }
                    break ;
                },
            }
        }
        out
    }

    /// Unpack the batch into an iterator over its moves.
    pub fn iter(self) -> (r: PieceMovesIter)
        ensures
            r.moves == self,
            r.promotion == 0,
    {
        PieceMovesIter { moves: self, promotion: 0 }
    }
}

fn promo_ranks() -> (r: u64)
    ensures
        r == promo_mask(),
{
    let first = crate::types::Rank::First.bitboard();
    let eighth = crate::types::Rank::Eighth.bitboard();
    first.0 | eighth.0
}

/// A consistent iterator never owes a negative number of moves.
pub proof fn lemma_iter_len_nonneg(it: PieceMovesIter)
    requires
        it.wf(),
    ensures
        it.spec_len() >= 0,
{
    if it.promotion != 0 {
        let t = it.moves.to.0;
        crate::bits::lemma_lsb_exists(t);
        let s = crate::bits::lsb(t);
        lemma_bit_ops(t, promo_mask(), s);
        crate::bits::lemma_popcount_has_bit(t & promo_mask(), s);
    }
}

/// A square is on a back rank exactly when its rank index is extreme.
pub proof fn lemma_promo_rank(s: u64)
    requires
        s < 64,
    ensures
        bit(promo_mask(), s) == (s / 8 == 0 || s / 8 == 7),
{
    assert(bit(rank_mask(0), s) == (s / 8 == 0) && bit(rank_mask(7), s) == (s / 8 == 7))
        by (bit_vector)
        requires
            s < 64,
    ;
    lemma_bit_ops(rank_mask(0), rank_mask(7), s);
}

/// The piece a pawn promotes to at each step of the expansion.
pub open spec fn promo_piece(i: u8) -> Piece {
    if i == 0 {
        Piece::Knight
    } else if i == 1 {
        Piece::Bishop
    } else if i == 2 {
        Piece::Rook
    } else {
        Piece::Queen
    }
}

/// Unpacks a [`PieceMoves`] batch move by move, least significant
/// destination first, promotions expanded knight, bishop, rook, queen.
#[derive(Debug, Clone, Copy)]
pub struct PieceMovesIter {
    pub moves: PieceMoves,
    pub promotion: u8,
}

impl PieceMovesIter {
    /// The iterator state is consistent: a nonzero promotion step only while
    /// standing on a pawn back-rank destination.
    pub open spec fn wf(self) -> bool {
        self.promotion < 4 && (self.promotion != 0 ==> self.moves.piece == Piece::Pawn
            && self.moves.to.0 != 0 && bit(promo_mask(), crate::bits::lsb(self.moves.to.0)))
    }

    /// Moves not yet produced.
    pub open spec fn spec_len(self) -> int {
        self.moves.spec_len() - self.promotion
    }

    /// Count the moves not yet produced.
    pub fn len(&self) -> (r: usize)
        requires
            self.wf(),
        ensures
            r == self.spec_len(),
    {
        proof {
            if self.promotion != 0 {
                let t = self.moves.to.0;
                let s = crate::bits::lsb(t);
                crate::bits::lemma_lsb_exists(t);
                lemma_bit_ops(t, promo_mask(), s);
                crate::bits::lemma_popcount_has_bit(t & promo_mask(), s);
            }
        }
        self.moves.len() - self.promotion as usize
    }

    /// Produce the next move, if one is left.
    pub fn next(&mut self) -> (r: Option<Move>)
        requires
            old(self).wf(),
        ensures
            final(self).wf(),
            final(self).moves.piece == old(self).moves.piece,
            final(self).moves.from == old(self).moves.from,
            match r {
                Some(mv) => {
                    &&& old(self).moves.to.0 != 0
                    &&& (final(self).moves.to.0 == old(self).moves.to.0 || final(self).moves.to.0
                        == old(self).moves.to.0 ^ (1u64 << crate::bits::lsb(
                        old(self).moves.to.0,
                    )))
                    &&& final(self).spec_len() == old(self).spec_len() - 1
                    &&& mv.from == old(self).moves.from
                    &&& mv.to.wf()
                    &&& mv.to.0 as u64 == crate::bits::lsb(old(self).moves.to.0)
                    &&& (if old(self).moves.piece == Piece::Pawn && bit(
                        promo_mask(),
                        crate::bits::lsb(old(self).moves.to.0),
                    ) {
                        mv.promotion == Some(promo_piece(old(self).promotion))
                    } else {
                        mv.promotion is None
                    })
                },
                None => old(self).moves.to.0 == 0 && *final(self) == *old(self),
            },
    {
        let to_bb = self.moves.to;
        match to_bb.next_square() {
            Some(to) => {
                proof {
                    crate::bits::lemma_bit_nonzero(to_bb.0, to.0 as u64);
                    crate::bits::lemma_lsb_unique(to_bb.0, to.0 as u64);
                }
                let is_promotion = matches!(self.moves.piece, Piece::Pawn) && (to.0 / 8 == 0 || to.0
                    / 8 == 7);
                proof {
                    let s = to.0 as u64;
                    assert(bit(rank_mask(0), s) == (s / 8 == 0) && bit(rank_mask(7), s) == (s / 8
                        == 7)) by (bit_vector)
                        requires
                            s < 64,
                    ;
                    lemma_bit_ops(rank_mask(0), rank_mask(7), s);
                }
                let promotion: Option<Piece>;
                if is_promotion {
                    let p = match self.promotion {
                        0 => Piece::Knight,
                        1 => Piece::Bishop,
                        2 => Piece::Rook,
                        _ => Piece::Queen,
                    };
                    if self.promotion < 3 {
                        self.promotion = self.promotion + 1;
                    } else {
                        self.promotion = 0;
                        self.moves.to = BitBoard(self.moves.to.0 ^ (1u64 << to.0));
                    }
                    promotion = Some(p);
                } else {
                    self.moves.to = BitBoard(self.moves.to.0 ^ (1u64 << to.0));
                    promotion = None;
                }
                proof {
                    lemma_iter_step(*old(self), *self, to.0 as u64, is_promotion);
                }
                Some(Move { from: self.moves.from, to, promotion })
            },
            None => None,
        }
    }
}

/// One expansion step shrinks the remaining count by exactly one.
proof fn lemma_iter_step(prev: PieceMovesIter, cur: PieceMovesIter, s: u64, is_promotion: bool)
    requires
        prev.wf(),
        s < 64,
        bit(prev.moves.to.0, s),
        forall|j: u64| j < s ==> !bit(prev.moves.to.0, j),
        is_promotion == (prev.moves.piece == Piece::Pawn && bit(promo_mask(), s)),
        cur.moves.piece == prev.moves.piece,
        cur.moves.from == prev.moves.from,
        if is_promotion {
            if prev.promotion < 3 {
                cur.promotion == prev.promotion + 1 && cur.moves.to == prev.moves.to
            } else {
                cur.promotion == 0 && cur.moves.to.0 == prev.moves.to.0 ^ (1u64 << s)
            }
        } else {
            cur.promotion == prev.promotion && cur.moves.to.0 == prev.moves.to.0 ^ (1u64 << s)
        },
    ensures
        cur.wf(),
        cur.spec_len() == prev.spec_len() - 1,
{
    let t = prev.moves.to.0;
    crate::bits::lemma_lsb_unique(t, s);
    if is_promotion && prev.promotion < 3 {
        crate::bits::lemma_bit_nonzero(t, s);
        lemma_bit_ops(t, promo_mask(), s);
        crate::bits::lemma_popcount_has_bit(t & promo_mask(), s);
    } else {
        // A destination bit is cleared.
        let t2 = t ^ (1u64 << s);
        crate::bits::lemma_popcount_clear_bit(t, s);
        if prev.moves.piece == Piece::Pawn {
            assert((t ^ (1u64 << s)) & promo_mask() == (t & promo_mask()) ^ (if bit(
                promo_mask(),
                s,
            ) {
                1u64 << s
            } else {
                0u64
            }) && (t ^ (1u64 << s)) & !promo_mask() == (t & !promo_mask()) ^ (if bit(
                promo_mask(),
                s,
            ) {
                0u64
            } else {
                1u64 << s
            })) by (bit_vector)
                requires
                    s < 64,
            ;
            if bit(promo_mask(), s) {
                lemma_bit_ops(t, promo_mask(), s);
                crate::bits::lemma_popcount_clear_bit(t & promo_mask(), s);
                crate::bits::lemma_xor_units();
                assert(t2 & !promo_mask() == t & !promo_mask());
            } else {
                lemma_bit_ops(promo_mask(), promo_mask(), s);
                lemma_bit_ops(t, !promo_mask(), s);
                crate::bits::lemma_popcount_clear_bit(t & !promo_mask(), s);
                crate::bits::lemma_xor_units();
                assert(t2 & promo_mask() == t & promo_mask());
            }
        }
        if cur.promotion != 0 {
            // Unchanged promotion counter means a non-promotion step, so the
            // counter was already nonzero and the previous head was on a back
            // rank; the head did not change kind.
            assert(prev.promotion != 0);
            assert(bit(promo_mask(), s));
            assert(false);
        }
    }
}

} // verus!
