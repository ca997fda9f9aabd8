//! The chess position: placement state plus the derived `pinned` and
//! `checkers` sets, the halfmove clock and the fullmove number.
//!
//! The position invariant (`is_valid`) states the disjointness of the
//! bitboards, the per-side piece-count bounds, castle-right and en-passant
//! coherence, and that the stored `checkers`/`pinned` sets equal the
//! from-scratch computation for the side to move while the other side is not
//! in check.

use vstd::prelude::*;

use crate::bitboard::BitBoard;
use crate::bits::{bit, lsb, popcount, lemma_lsb_unique, lemma_bitwise_alg, lemma_popcount_zero};
use crate::moves::{
    between_bb, bishop_rays_bb, get_bishop_rays, get_between_rays, get_knight_moves,
    get_pawn_attacks, get_rook_rays, knight_bb, pawn_attacks_bb, rook_rays_bb,
};
use crate::types::{opp, rank_mask, CastleRights, Color, File, Piece, Rank, Square};
use crate::zobrist::{board_hash, board_hash_no_ep, ep_hash, ZobristBoard};

verus! {

/// The current state of the game.
#[derive(Debug, Clone, Copy, PartialEq, Eq, Hash, Structural)]
pub enum GameStatus {
    /// The game ended in a win for the side that just moved.
    Won,
    /// The game ended in a draw.
    Drawn,
    /// The game is still ongoing.
    Ongoing,
}

/// An error that may occur while handling a [`Board`].
#[derive(Debug, Clone, Copy, PartialEq, Eq, Structural)]
pub enum BoardError {
    /// The board was invalid.
    InvalidBoard,
}

/// A chessboard. Keeps about as much state as a FEN string; no history.
#[derive(Debug, Clone, Copy, PartialEq, Eq, Hash)]
pub struct Board {
    pub inner: ZobristBoard,
    pub pinned: BitBoard,
    pub checkers: BitBoard,
    pub halfmove_clock: u8,
    pub fullmove_number: u16,
}

/// All occupied squares.
pub open spec fn occupied_bb(z: ZobristBoard) -> u64 {
    z.white.0 | z.black.0
}

/// The union of the six piece bitboards.
pub open spec fn all_pieces_bb(z: ZobristBoard) -> u64 {
    z.pawns.0 | z.knights.0 | z.bishops.0 | z.rooks.0 | z.queens.0 | z.kings.0
}

/// The square of `color`'s king: the least significant bit of its king set.
pub open spec fn king_sq(z: ZobristBoard, color: Color) -> u64 {
    lsb(z.kings.0 & z.colors_bb(color))
}

/// `color` has a king on the board.
pub open spec fn has_king(z: ZobristBoard, color: Color) -> bool {
    z.kings.0 & z.colors_bb(color) != 0
}

/// Enemy sliders whose rays pass through `color`'s king square.
pub open spec fn slider_candidates(z: ZobristBoard, color: Color) -> u64 {
    let king = king_sq(z, color);
    z.colors_bb(opp(color)) & ((bishop_rays_bb(king) & (z.bishops.0 | z.queens.0)) | (rook_rays_bb(
        king,
    ) & (z.rooks.0 | z.queens.0)))
}

/// Sliding checkers of `color`'s king found among candidate squares below
/// `n`: candidates with an empty occupied set strictly between them and the
/// king.
pub open spec fn slider_checkers_fold(z: ZobristBoard, color: Color, n: nat) -> u64
    decreases n,
{
    if n == 0 {
        0u64
    } else {
        let s = (n - 1) as u64;
        slider_checkers_fold(z, color, (n - 1) as nat) | (if bit(slider_candidates(z, color), s)
            && popcount(between_bb(s, king_sq(z, color)) & occupied_bb(z)) == 0 {
            1u64 << s
        } else {
            0u64
        })
    }
}

/// Pinned squares found among candidate squares below `n`: the single
/// occupied square between a candidate and the king, whichever color it
/// holds.
pub open spec fn pins_fold(z: ZobristBoard, color: Color, n: nat) -> u64
    decreases n,
{
    if n == 0 {
        0u64
    } else {
        let s = (n - 1) as u64;
        pins_fold(z, color, (n - 1) as nat) | (if bit(slider_candidates(z, color), s) && popcount(
            between_bb(s, king_sq(z, color)) & occupied_bb(z),
        ) == 1 {
            between_bb(s, king_sq(z, color)) & occupied_bb(z)
        } else {
            0u64
        })
    }
}

/// Every enemy piece currently attacking `color`'s king: sliding checkers
/// plus knights and pawns in range.
pub open spec fn spec_checkers(z: ZobristBoard, color: Color) -> u64 {
    let king = king_sq(z, color);
    slider_checkers_fold(z, color, 64) | (knight_bb(king) & z.colors_bb(opp(color)) & z.knights.0)
        | (pawn_attacks_bb(king, color) & z.colors_bb(opp(color)) & z.pawns.0)
}

/// Every square pinned against `color`'s king.
pub open spec fn spec_pinned(z: ZobristBoard, color: Color) -> u64 {
    pins_fold(z, color, 64)
}

/// Two distinct piece kinds occupy disjoint squares.
pub open spec fn disjoint_pair(z: ZobristBoard, p: Piece, q: Piece) -> bool {
    z.pieces_bb(p) & z.pieces_bb(q) == 0
}

/// The six piece bitboards are pairwise disjoint.
pub open spec fn pieces_disjoint(z: ZobristBoard) -> bool {
    forall|p: Piece, q: Piece| p != q ==> #[trigger] disjoint_pair(z, p, q)
}

/// The piece bitboards partition the occupancy and the color sets are
/// disjoint.
pub open spec fn placement_ok(z: ZobristBoard) -> bool {
    &&& pieces_disjoint(z)
    &&& z.white.0 & z.black.0 == 0
    &&& all_pieces_bb(z) == occupied_bb(z)
}

/// The piece-count and castle-right invariants of one side.
pub open spec fn side_ok(z: ZobristBoard, color: Color) -> bool {
    let pieces = z.colors_bb(color);
    let back: u64 = if color == Color::White {
        0
    } else {
        7
    };
    let rights = z.rights_of(color);
    let king = king_sq(z, color);
    &&& popcount(z.kings.0 & pieces) == 1
    &&& popcount(pieces) <= 16
    &&& popcount(z.pawns.0 & pieces) <= 8
    &&& (rights.short is Some || rights.long is Some) ==> king / 8 == back
    &&& match rights.short {
        Some(f) => bit(z.rooks.0 & pieces, (back * 8 + f.idx()) as u64) && king % 8 < f.idx(),
        None => true,
    }
    &&& match rights.long {
        Some(f) => bit(z.rooks.0 & pieces, (back * 8 + f.idx()) as u64) && f.idx() < king % 8,
        None => true,
    }
}

/// The en-passant invariant: the target square is empty and the enemy pawn
/// that just double-pushed stands behind it.
pub open spec fn ep_ok(z: ZobristBoard) -> bool {
    match z.ep {
        Some(f) => {
            let them = opp(z.stm);
            let target = (Rank::Sixth.rel_idx(z.stm) * 8 + f.idx()) as u64;
            let pawn = (Rank::Fifth.rel_idx(z.stm) * 8 + f.idx()) as u64;
            !bit(occupied_bb(z), target) && bit(z.pawns.0 & z.colors_bb(them), pawn)
        },
        None => true,
    }
}

impl Board {
    /// The position invariant.
    pub open spec fn is_valid(self) -> bool {
        let z = self.inner;
        &&& placement_ok(z)
        &&& z.pawns.0 & (rank_mask(0) | rank_mask(7)) == 0
        &&& side_ok(z, Color::White)
        &&& side_ok(z, Color::Black)
        &&& ep_ok(z)
        &&& spec_checkers(z, opp(z.stm)) == 0
        &&& self.checkers.0 == spec_checkers(z, z.stm)
        &&& self.pinned.0 == spec_pinned(z, z.stm)
        &&& popcount(self.checkers.0) < 3
        &&& self.halfmove_clock <= 100
        &&& self.fullmove_number >= 1
    }

    /// The stored hash equals the from-scratch hash.
    pub open spec fn hash_ok(self) -> bool {
        self.inner.hash_ok()
    }

    /// Get a [`BitBoard`] of all the pieces of a certain kind.
    pub fn pieces(&self, piece: Piece) -> (r: BitBoard)
        ensures
            r.0 == self.inner.pieces_bb(piece),
    {
        match piece {
            Piece::Pawn => self.inner.pawns,
            Piece::Knight => self.inner.knights,
            Piece::Bishop => self.inner.bishops,
            Piece::Rook => self.inner.rooks,
            Piece::Queen => self.inner.queens,
            Piece::King => self.inner.kings,
        }
    }

    /// Get a [`BitBoard`] of all the pieces of a certain color.
    pub fn colors(&self, color: Color) -> (r: BitBoard)
        ensures
            r.0 == self.inner.colors_bb(color),
    {
        match color {
            Color::White => self.inner.white,
            Color::Black => self.inner.black,
        }
    }

    /// Get a [`BitBoard`] of all the pieces on the board.
    pub fn occupied(&self) -> (r: BitBoard)
        ensures
            r.0 == occupied_bb(self.inner),
    {
        BitBoard(self.inner.white.0 | self.inner.black.0)
    }

    /// Get the current side to move.
    pub fn side_to_move(&self) -> (r: Color)
        ensures
            r == self.inner.stm,
    {
        self.inner.stm
    }

    /// Get the castle rights for some side.
    pub fn castle_rights(&self, color: Color) -> (r: CastleRights)
        ensures
            r == self.inner.rights_of(color),
    {
        match color {
            Color::White => self.inner.white_rights,
            Color::Black => self.inner.black_rights,
        }
    }

    /// Get the en-passant file, if it exists.
    pub fn en_passant(&self) -> (r: Option<File>)
        ensures
            r == self.inner.ep,
    {
        self.inner.ep
    }

    /// Get the incrementally updated position hash. Does not include the
    /// halfmove clock or fullmove number.
    pub fn hash(&self) -> (r: u64)
        ensures
            r == self.inner.hash,
            self.hash_ok() ==> r == board_hash(self.inner),
    {
        self.inner.hash
    }

    /// Get the position hash with the en-passant contribution removed. May be
    /// used for equivalence checks when en passant is not relevant.
    pub fn hash_without_ep(&self) -> (r: u64)
        requires
            self.hash_ok(),
        ensures
            r == board_hash_no_ep(self.inner),
    {
        let ep_part = match self.inner.ep {
            Some(f) => crate::zobrist::ep_key_exec(f),
            None => 0u64,
        };
        proof {
            reveal(crate::zobrist::board_hash);
            reveal(crate::zobrist::board_hash_no_ep);
            crate::bits::lemma_xor_units();
            let rest = board_hash_no_ep(self.inner);
            let e = ep_hash(self.inner.ep);
            assert((rest ^ e) ^ e == rest) by (bit_vector);
        }
        self.inner.hash ^ ep_part
    }

    /// Get the pinned pieces for the side to move; pieces of either color
    /// shielding the king from a slider count.
    pub fn pinned(&self) -> (r: BitBoard)
        ensures
            r == self.pinned,
    {
        self.pinned
    }

    /// Get the pieces currently giving check.
    pub fn checkers(&self) -> (r: BitBoard)
        ensures
            r == self.checkers,
    {
        self.checkers
    }

    /// Get the halfmove clock.
    pub fn halfmove_clock(&self) -> (r: u8)
        ensures
            r == self.halfmove_clock,
    {
        self.halfmove_clock
    }

    /// Get the fullmove number.
    pub fn fullmove_number(&self) -> (r: u16)
        ensures
            r == self.fullmove_number,
    {
        self.fullmove_number
    }

    /// What stands on a square, checking the piece kinds in value order.
    pub open spec fn spec_piece_on(self, sq: u64) -> Option<Piece> {
        if bit(self.inner.pawns.0, sq) {
            Some(Piece::Pawn)
        } else if bit(self.inner.knights.0, sq) {
            Some(Piece::Knight)
        } else if bit(self.inner.bishops.0, sq) {
            Some(Piece::Bishop)
        } else if bit(self.inner.rooks.0, sq) {
            Some(Piece::Rook)
        } else if bit(self.inner.queens.0, sq) {
            Some(Piece::Queen)
        } else if bit(self.inner.kings.0, sq) {
            Some(Piece::King)
        } else {
            None
        }
    }

    /// Get the piece on a square, if there is one.
    pub fn piece_on(&self, square: Square) -> (r: Option<Piece>)
        requires
            square.wf(),
        ensures
            r == self.spec_piece_on(square.0 as u64),
    {
        if self.inner.pawns.has(square) {
            Some(Piece::Pawn)
        } else if self.inner.knights.has(square) {
            Some(Piece::Knight)
        } else if self.inner.bishops.has(square) {
            Some(Piece::Bishop)
        } else if self.inner.rooks.has(square) {
            Some(Piece::Rook)
        } else if self.inner.queens.has(square) {
            Some(Piece::Queen)
        } else if self.inner.kings.has(square) {
            Some(Piece::King)
        } else {
            None
        }
    }

    /// The color on a square.
    pub open spec fn spec_color_on(self, sq: u64) -> Option<Color> {
        if bit(self.inner.white.0, sq) {
            Some(Color::White)
        } else if bit(self.inner.black.0, sq) {
            Some(Color::Black)
        } else {
            None
        }
    }

    /// Get the color of the piece on a square, if there is one.
    pub fn color_on(&self, square: Square) -> (r: Option<Color>)
        requires
            square.wf(),
        ensures
            r == self.spec_color_on(square.0 as u64),
    {
        if self.inner.white.has(square) {
            Some(Color::White)
        } else if self.inner.black.has(square) {
            Some(Color::Black)
        } else {
            None
        }
    }

    /// Get the king square of some side. The side must have a king.
    pub fn king(&self, color: Color) -> (r: Square)
        requires
            has_king(self.inner, color),
        ensures
            r.wf(),
            r.0 as u64 == king_sq(self.inner, color),
    {
        let kings = self.pieces(Piece::King);
        let ours = self.colors(color);
        match BitBoard(kings.0 & ours.0).next_square() {
            Some(sq) => {
                proof {
                    lemma_lsb_unique(kings.0 & ours.0, sq.0 as u64);
                }
                sq
            },
            None => vstd::pervasive::unreached(),
        }
    }

    /// Get the king square of some side, or an error when it has no king.
    pub fn try_king(&self, color: Color) -> (r: Result<Square, BoardError>)
        ensures
            match r {
                Ok(sq) => has_king(self.inner, color) && sq.wf() && sq.0 as u64 == king_sq(
                    self.inner,
                    color,
                ),
                Err(e) => !has_king(self.inner, color) && e == BoardError::InvalidBoard,
            },
    {
        let kings = self.pieces(Piece::King);
        let ours = self.colors(color);
        match BitBoard(kings.0 & ours.0).next_square() {
            Some(sq) => {
                proof {
                    crate::bits::lemma_bit_nonzero(kings.0 & ours.0, sq.0 as u64);
                    lemma_lsb_unique(kings.0 & ours.0, sq.0 as u64);
                }
                Ok(sq)
            },
            None => Err(BoardError::InvalidBoard),
        }
    }

    /// Compute the checkers of `color`'s king and the squares pinned against
    /// it, from scratch.
    pub fn calculate_checkers_and_pins(&self, color: Color) -> (r: (BitBoard, BitBoard))
        requires
            has_king(self.inner, color),
        ensures
            r.0.0 == spec_checkers(self.inner, color),
            r.1.0 == spec_pinned(self.inner, color),
    {
        let z = self.inner;
        let our_king = self.king(color);
        let them = color.other();
        let their_pieces = self.colors(them);
        let occ = self.occupied();
        let cand = their_pieces.0 & ((get_bishop_rays(our_king).0 & (z.bishops.0 | z.queens.0)) | (
        get_rook_rays(our_king).0 & (z.rooks.0 | z.queens.0)));
        assert(cand == slider_candidates(z, color));
        let sqs = BitBoard(cand).squares();
        let mut checkers: u64 = 0;
        let mut pinned: u64 = 0;
        let ghost mut cut: u64 = 0;
        proof {
            lemma_bitwise_alg();
            crate::bits::lemma_popcount_below_bound(cand, 64);
        }
        let mut k: usize = 0;
        while k < sqs.len()
            invariant
                has_king(z, color),
                z == self.inner,
                our_king.wf(),
                our_king.0 as u64 == king_sq(z, color),
                occ.0 == occupied_bb(z),
                cand == slider_candidates(z, color),
                sqs@.len() <= 64,
                forall|k2: int| 0 <= k2 < sqs@.len() ==> (#[trigger] sqs@[k2]).wf() && bit(
                    cand,
                    sqs@[k2].0 as u64,
                ),
                forall|k1: int, k2: int| 0 <= k1 < k2 < sqs@.len() ==> sqs@[k1].0 < sqs@[k2].0,
                forall|i: u64| i < 64 && bit(cand, i) ==> exists|k2: int|
                    0 <= k2 < sqs@.len() && (#[trigger] sqs@[k2]).0 == i,
                k <= sqs@.len(),
                cut <= 64,
                checkers == slider_checkers_fold(z, color, cut as nat),
                pinned == pins_fold(z, color, cut as nat),
                forall|k2: int| k <= k2 < sqs@.len() ==> (#[trigger] sqs@[k2]).0 >= cut,
                forall|k2: int| 0 <= k2 < k ==> (#[trigger] sqs@[k2]).0 < cut,
            decreases sqs@.len() - k,
        {
            let sq = sqs[k];
            let j = sq.0 as u64;
            proof {
                lemma_bitwise_alg();
                assert forall|i: u64| cut <= i < j implies !bit(cand, i) by {
                    if bit(cand, i) {
                        let k2 = choose|k2: int|
                            0 <= k2 < sqs@.len() && (#[trigger] sqs@[k2]).0 == i;
                        if k2 < k {
                            assert(sqs@[k2].0 < cut);
                        } else {
                            assert(sqs@[k2].0 >= sqs@[k as int].0);
                        }
                        assert(false);
                    }
                }
                lemma_folds_skip(z, color, cut as nat, j as nat);
            }
            let between = BitBoard(get_between_rays(sq, our_king).0 & occ.0);
            let pc = between.popcnt();
            if pc == 0 {
                checkers = checkers | (1u64 << j);
            } else if pc == 1 {
                pinned = pinned | between.0;
            }
            proof {
                lemma_bitwise_alg();
                assert(slider_checkers_fold(z, color, (j + 1) as nat) == slider_checkers_fold(
                    z,
                    color,
                    j as nat,
                ) | (if bit(cand, j) && popcount(between_bb(j, king_sq(z, color)) & occupied_bb(z))
                    == 0 {
                    1u64 << j
                } else {
                    0u64
                }));
                assert(pins_fold(z, color, (j + 1) as nat) == pins_fold(z, color, j as nat) | (if
                    bit(cand, j) && popcount(between_bb(j, king_sq(z, color)) & occupied_bb(z))
                    == 1 {
                    between_bb(j, king_sq(z, color)) & occupied_bb(z)
                } else {
                    0u64
                }));
                cut = (j + 1) as u64;
            }
            k = k + 1;
        }
        proof {
            assert forall|i: u64| cut <= i < 64 implies !bit(cand, i) by {
                if bit(cand, i) {
                    let k2 = choose|k2: int| 0 <= k2 < sqs@.len() && (#[trigger] sqs@[k2]).0 == i;
                    assert(sqs@[k2].0 < cut);
                    assert(false);
                }
            }
            lemma_folds_skip(z, color, cut as nat, 64);
        }
        let knight_part = get_knight_moves(our_king).0 & their_pieces.0 & z.knights.0;
        let pawn_part = get_pawn_attacks(our_king, color).0 & their_pieces.0 & z.pawns.0;
        (BitBoard(checkers | knight_part | pawn_part), BitBoard(pinned))
    }
}

impl Board {
    fn side_ok_exec(&self, color: Color) -> (r: bool)
        ensures
            r == side_ok(self.inner, color),
    {
        let z = self.inner;
        let ours = self.colors(color);
        proof {
            lemma_popcount_zero();
        }
        if BitBoard(z.kings.0 & ours.0).popcnt() != 1 {
            return false;
        }
        if BitBoard(ours.0).popcnt() > 16 {
            return false;
        }
        if BitBoard(z.pawns.0 & ours.0).popcnt() > 8 {
            return false;
        }
        let back: u8 = if color == Color::White {
            0
        } else {
            7
        };
        let rights = self.castle_rights(color);
        if rights.short.is_some() || rights.long.is_some() {
            let king = self.king(color);
            if king.0 / 8 != back {
                return false;
            }
            if let Some(f) = rights.short {
                let rook_sq = Square(back * 8 + f.index() as u8);
                if !BitBoard(z.rooks.0 & ours.0).has(rook_sq) {
                    return false;
                }
                if !(king.0 % 8 < (f.index() as u8)) {
                    return false;
                }
            }
            if let Some(f) = rights.long {
                let rook_sq = Square(back * 8 + f.index() as u8);
                if !BitBoard(z.rooks.0 & ours.0).has(rook_sq) {
                    return false;
                }
                if !((f.index() as u8) < king.0 % 8) {
                    return false;
                }
            }
        }
        true
    }

    fn ep_ok_exec(&self) -> (r: bool)
        ensures
            r == ep_ok(self.inner),
    {
        match self.inner.ep {
            None => true,
            Some(f) => {
                let stm = self.inner.stm;
                let target = Square::new(f, Rank::Sixth.relative_to(stm));
                let pawn = Square::new(f, Rank::Fifth.relative_to(stm));
                !self.occupied().has(target) && BitBoard(
                    self.inner.pawns.0 & self.colors(stm.other()).0,
                ).has(pawn)
            },
        }
    }

    /// Check that the board satisfies the position invariant. When it does
    /// not, other operations may not behave as documented.
    pub fn validity_check(&self) -> (r: bool)
        ensures
            r == self.is_valid(),
    {
        let z = self.inner;
        proof {
            lemma_bitwise_alg();
            lemma_popcount_zero();
        }
        let disj = z.pawns.0 & z.knights.0 == 0 && z.pawns.0 & z.bishops.0 == 0 && z.pawns.0
            & z.rooks.0 == 0 && z.pawns.0 & z.queens.0 == 0 && z.pawns.0 & z.kings.0 == 0
            && z.knights.0 & z.bishops.0 == 0 && z.knights.0 & z.rooks.0 == 0 && z.knights.0
            & z.queens.0 == 0 && z.knights.0 & z.kings.0 == 0 && z.bishops.0 & z.rooks.0 == 0
            && z.bishops.0 & z.queens.0 == 0 && z.bishops.0 & z.kings.0 == 0 && z.rooks.0
            & z.queens.0 == 0 && z.rooks.0 & z.kings.0 == 0 && z.queens.0 & z.kings.0 == 0;
        proof {
            if disj {
                assert forall|p: Piece, q: Piece| p != q implies #[trigger] disjoint_pair(
                    z,
                    p,
                    q,
                ) by {
                    assert(z.pieces_bb(p) & z.pieces_bb(q) == z.pieces_bb(q) & z.pieces_bb(p));
                }
            } else {
                assert(!pieces_disjoint(z)) by {
                    if z.pawns.0 & z.knights.0 != 0 {
                        assert(!disjoint_pair(z, Piece::Pawn, Piece::Knight));
                    } else if z.pawns.0 & z.bishops.0 != 0 {
                        assert(!disjoint_pair(z, Piece::Pawn, Piece::Bishop));
                    } else if z.pawns.0 & z.rooks.0 != 0 {
                        assert(!disjoint_pair(z, Piece::Pawn, Piece::Rook));
                    } else if z.pawns.0 & z.queens.0 != 0 {
                        assert(!disjoint_pair(z, Piece::Pawn, Piece::Queen));
                    } else if z.pawns.0 & z.kings.0 != 0 {
                        assert(!disjoint_pair(z, Piece::Pawn, Piece::King));
                    } else if z.knights.0 & z.bishops.0 != 0 {
                        assert(!disjoint_pair(z, Piece::Knight, Piece::Bishop));
                    } else if z.knights.0 & z.rooks.0 != 0 {
                        assert(!disjoint_pair(z, Piece::Knight, Piece::Rook));
                    } else if z.knights.0 & z.queens.0 != 0 {
                        assert(!disjoint_pair(z, Piece::Knight, Piece::Queen));
                    } else if z.knights.0 & z.kings.0 != 0 {
                        assert(!disjoint_pair(z, Piece::Knight, Piece::King));
                    } else if z.bishops.0 & z.rooks.0 != 0 {
                        assert(!disjoint_pair(z, Piece::Bishop, Piece::Rook));
                    } else if z.bishops.0 & z.queens.0 != 0 {
                        assert(!disjoint_pair(z, Piece::Bishop, Piece::Queen));
                    } else if z.bishops.0 & z.kings.0 != 0 {
                        assert(!disjoint_pair(z, Piece::Bishop, Piece::King));
                    } else if z.rooks.0 & z.queens.0 != 0 {
                        assert(!disjoint_pair(z, Piece::Rook, Piece::Queen));
                    } else if z.rooks.0 & z.kings.0 != 0 {
                        assert(!disjoint_pair(z, Piece::Rook, Piece::King));
                    } else {
                        assert(!disjoint_pair(z, Piece::Queen, Piece::King));
                    }
                }
            }
        }
        if !disj {
            return false;
        }
        if z.white.0 & z.black.0 != 0 {
            return false;
        }
        if z.pawns.0 | z.knights.0 | z.bishops.0 | z.rooks.0 | z.queens.0 | z.kings.0 != z.white.0
            | z.black.0 {
            return false;
        }
        let back_ranks = Rank::First.bitboard().0 | Rank::Eighth.bitboard().0;
        if z.pawns.0 & back_ranks != 0 {
            return false;
        }
        if !self.side_ok_exec(Color::White) {
            return false;
        }
        if !self.side_ok_exec(Color::Black) {
            return false;
        }
        if !self.ep_ok_exec() {
            return false;
        }
        let stm = self.side_to_move();
        let (their_checkers, _) = self.calculate_checkers_and_pins(stm.other());
        if !their_checkers.is_empty() {
            return false;
        }
        let (checkers, pinned) = self.calculate_checkers_and_pins(stm);
        if self.checkers.0 != checkers.0 {
            return false;
        }
        if self.pinned.0 != pinned.0 {
            return false;
        }
        if self.checkers.popcnt() >= 3 {
            return false;
        }
        if self.halfmove_clock > 100 {
            return false;
        }
        if self.fullmove_number == 0 {
            return false;
        }
        true
    }

    /// Attempt to play a null move, handing the turn to the opponent.
    /// Fails (`Ok(None)`) when the side to move is in check; errs when the
    /// opponent has no king.
    pub fn try_null_move(&self) -> (r: Result<Option<Board>, BoardError>)
        requires
            self.hash_ok(),
            self.halfmove_clock < 255,
            self.fullmove_number < 65535,
        ensures
            match r {
                Ok(Some(b)) => {
                    &&& self.checkers.0 == 0
                    &&& b.inner.pawns == self.inner.pawns
                    &&& b.inner.knights == self.inner.knights
                    &&& b.inner.bishops == self.inner.bishops
                    &&& b.inner.rooks == self.inner.rooks
                    &&& b.inner.queens == self.inner.queens
                    &&& b.inner.kings == self.inner.kings
                    &&& b.inner.white == self.inner.white
                    &&& b.inner.black == self.inner.black
                    &&& b.inner.stm == opp(self.inner.stm)
                    &&& b.inner.white_rights == self.inner.white_rights
                    &&& b.inner.black_rights == self.inner.black_rights
                    &&& b.inner.ep is None
                    &&& b.hash_ok()
                    &&& b.halfmove_clock == self.halfmove_clock + 1
                    &&& b.fullmove_number == self.fullmove_number + (if self.inner.stm
                        == Color::Black {
                        1int
                    } else {
                        0int
                    })
                    &&& b.checkers.0 == 0
                    &&& b.pinned.0 == spec_pinned(b.inner, b.inner.stm)
                    &&& (self.is_valid() && self.halfmove_clock < 100) ==> b.is_valid()
                },
                Ok(None) => self.checkers.0 != 0,
                Err(_) => self.checkers.0 == 0 && !has_king(self.inner, opp(self.inner.stm)),
            },
    {
        if self.checkers.is_empty() {
            let mut board = *self;
            board.halfmove_clock = board.halfmove_clock + 1;
            if board.side_to_move() == Color::Black {
                board.fullmove_number = board.fullmove_number + 1;
            }
            board.inner.toggle_side_to_move();
            board.inner.set_en_passant(None);
            board.pinned = BitBoard(0);
            board.checkers = BitBoard(0);
            let color = board.side_to_move();
            if board.try_king(color).is_err() {
                return Err(BoardError::InvalidBoard);
            }
            let (_, pins) = board.calculate_checkers_and_pins(color);
            board.pinned = pins;
            proof {
                lemma_popcount_zero();
                lemma_derived_congruence(self.inner, board.inner, self.inner.stm);
                lemma_derived_congruence(self.inner, board.inner, opp(self.inner.stm));
                if self.is_valid() {
                    assert(spec_checkers(board.inner, board.inner.stm) == spec_checkers(
                        self.inner,
                        opp(self.inner.stm),
                    ));
                    assert(spec_checkers(board.inner, opp(board.inner.stm)) == spec_checkers(
                        self.inner,
                        self.inner.stm,
                    ));
                    assert forall|p: Piece, q: Piece| p != q implies #[trigger] disjoint_pair(
                        board.inner,
                        p,
                        q,
                    ) by {
                        assert(disjoint_pair(self.inner, p, q));
                    }
                }
            }
            Ok(Some(board))
        } else {
            Ok(None)
        }
    }

    /// Attempt to play a null move, returning the new board if the side to
    /// move is not in check. The opponent must have a king.
    pub fn null_move(&self) -> (r: Option<Board>)
        requires
            self.hash_ok(),
            self.halfmove_clock < 255,
            self.fullmove_number < 65535,
            self.checkers.0 == 0 ==> has_king(self.inner, opp(self.inner.stm)),
        ensures
            match r {
                Some(b) => self.checkers.0 == 0 && b.hash_ok() && b.inner.stm == opp(self.inner.stm)
                    && b.checkers.0 == 0 && b.pinned.0 == spec_pinned(b.inner, b.inner.stm) && ((
                self.is_valid() && self.halfmove_clock < 100) ==> b.is_valid()),
                None => self.checkers.0 != 0,
            },
    {
        match self.try_null_move() {
            Ok(r) => r,
            Err(_) => vstd::pervasive::unreached(),
        }
    }
}

/// The derived king square, slider-candidate set and checker/pin folds read
/// the piece and color bitboards alone.
proof fn lemma_derived_congruence(a: ZobristBoard, b: ZobristBoard, color: Color)
    requires
        a.pawns == b.pawns,
        a.knights == b.knights,
        a.bishops == b.bishops,
        a.rooks == b.rooks,
        a.queens == b.queens,
        a.kings == b.kings,
        a.white == b.white,
        a.black == b.black,
    ensures
        king_sq(a, color) == king_sq(b, color),
        slider_candidates(a, color) == slider_candidates(b, color),
        spec_checkers(a, color) == spec_checkers(b, color),
        spec_pinned(a, color) == spec_pinned(b, color),
{
    assert(a.colors_bb(color) == b.colors_bb(color));
    lemma_derived_congruence_fold(a, b, color, 64);
}

proof fn lemma_derived_congruence_fold(a: ZobristBoard, b: ZobristBoard, color: Color, n: nat)
    requires
        a.pawns == b.pawns,
        a.knights == b.knights,
        a.bishops == b.bishops,
        a.rooks == b.rooks,
        a.queens == b.queens,
        a.kings == b.kings,
        a.white == b.white,
        a.black == b.black,
    ensures
        slider_checkers_fold(a, color, n) == slider_checkers_fold(b, color, n),
        pins_fold(a, color, n) == pins_fold(b, color, n),
    decreases n,
{
    assert(a.colors_bb(color) == b.colors_bb(color));
    assert(a.colors_bb(opp(color)) == b.colors_bb(opp(color)));
    if n > 0 {
        lemma_derived_congruence_fold(a, b, color, (n - 1) as nat);
    }
}

/// Candidate-free stretches do not change the slider folds.
proof fn lemma_folds_skip(z: ZobristBoard, color: Color, m: nat, n: nat)
    requires
        m <= n <= 64,
        forall|j: u64| m <= j < n ==> !bit(slider_candidates(z, color), j),
    ensures
        slider_checkers_fold(z, color, n) == slider_checkers_fold(z, color, m),
        pins_fold(z, color, n) == pins_fold(z, color, m),
    decreases n - m,
{
    lemma_bitwise_alg();
    if n > m {
        lemma_folds_skip(z, color, m, (n - 1) as nat);
    }
}


/// A valid position keeps its bitboards coherent: the six piece sets are
/// pairwise disjoint, the two color sets are disjoint, and together the
/// piece sets cover exactly the occupied squares; each side has exactly one
/// king, at most sixteen pieces and at most eight pawns, and no pawn stands
/// on a back rank.
pub proof fn lemma_valid_placement(b: Board)
    requires
        b.is_valid(),
    ensures
        pieces_disjoint(b.inner),
        b.inner.white.0 & b.inner.black.0 == 0,
        all_pieces_bb(b.inner) == occupied_bb(b.inner),
        popcount(b.inner.kings.0 & b.inner.white.0) == 1,
        popcount(b.inner.kings.0 & b.inner.black.0) == 1,
        popcount(b.inner.white.0) <= 16,
        popcount(b.inner.black.0) <= 16,
        popcount(b.inner.pawns.0 & b.inner.white.0) <= 8,
        popcount(b.inner.pawns.0 & b.inner.black.0) <= 8,
        b.inner.pawns.0 & (rank_mask(0) | rank_mask(7)) == 0,
{
}

/// A valid position stores exactly the from-scratch check and pin sets for
/// the side to move, has at most two checkers, and leaves the side not to
/// move out of check.
pub proof fn lemma_valid_derived_state(b: Board)
    requires
        b.is_valid(),
    ensures
        b.checkers.0 == spec_checkers(b.inner, b.inner.stm),
        b.pinned.0 == spec_pinned(b.inner, b.inner.stm),
        popcount(b.checkers.0) <= 2,
        spec_checkers(b.inner, opp(b.inner.stm)) == 0,
{
}

/// The position hash is a function of the observable position alone: any
/// two boards with maintained hashes that agree on placement, side to move,
/// castle rights and en-passant file carry the same hash, however they were
/// reached.
pub proof fn lemma_board_hash_law(a: Board, b: Board)
    requires
        a.hash_ok(),
        b.hash_ok(),
        a.inner.pawns == b.inner.pawns,
        a.inner.knights == b.inner.knights,
        a.inner.bishops == b.inner.bishops,
        a.inner.rooks == b.inner.rooks,
        a.inner.queens == b.inner.queens,
        a.inner.kings == b.inner.kings,
        a.inner.white == b.inner.white,
        a.inner.black == b.inner.black,
        a.inner.stm == b.inner.stm,
        a.inner.white_rights == b.inner.white_rights,
        a.inner.black_rights == b.inner.black_rights,
        a.inner.ep == b.inner.ep,
    ensures
        a.inner.hash == b.inner.hash,
{
    crate::zobrist::lemma_hash_law(a.inner, b.inner);
}

/// Stripping the en-passant contribution from a maintained hash gives the
/// hash of the same position with en passant cleared.
pub proof fn lemma_board_hash_without_ep(a: Board, b: Board)
    requires
        a.hash_ok(),
        b.hash_ok(),
        a.inner.pawns == b.inner.pawns,
        a.inner.knights == b.inner.knights,
        a.inner.bishops == b.inner.bishops,
        a.inner.rooks == b.inner.rooks,
        a.inner.queens == b.inner.queens,
        a.inner.kings == b.inner.kings,
        a.inner.white == b.inner.white,
        a.inner.black == b.inner.black,
        a.inner.stm == b.inner.stm,
        a.inner.white_rights == b.inner.white_rights,
        a.inner.black_rights == b.inner.black_rights,
        b.inner.ep is None,
    ensures
        board_hash_no_ep(a.inner) == b.inner.hash,
{
    crate::zobrist::lemma_hash_without_ep(a.inner, b.inner);
}

} // verus!
