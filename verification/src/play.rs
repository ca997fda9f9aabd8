//! Applying a move to a position: the incremental update of placement,
//! castle rights, en-passant state, clocks, hash and the derived `checkers`
//! and `pinned` sets.
//!
//! Castling is encoded as the king capturing its own rook. The update is
//! specified square by square: `piece_toggle_mask` and `color_toggle_mask`
//! give the exact squares each bitboard layer toggles, and the derived sets of
//! the resulting position are recomputed from scratch for the side about to
//! move.

use vstd::prelude::*;

use crate::bitboard::BitBoard;
use crate::bits::{
    bit, lemma_bit_nonzero, lemma_bit_ops, lemma_bits_zero, lemma_lsb_exists, lemma_toggle_bit,
    lemma_xor_assoc, lemma_xor_units,
};
use crate::board::{
    all_pieces_bb, disjoint_pair, has_king, king_sq, occupied_bb, placement_ok, spec_checkers,
    spec_pinned, Board, BoardError,
};
use crate::movegen::{ep_dest, ep_victim, movegen_seq};
use crate::piece_moves::{promo_mask, PieceMoves};
use crate::types::{file_from_idx, opp, rank_mask, CastleRights, Color, File, Move, Piece, Rank,
    Square};
use crate::zobrist::ZobristBoard;

verus! {

/// The piece being moved; meaningful when the source square is occupied.
pub open spec fn moved_piece(b: Board, mv: Move) -> Piece {
    b.spec_piece_on(mv.from.0 as u64)->0
}

/// A move is a castle exactly when its destination holds a piece of the
/// moving side: the king captures its own rook.
pub open spec fn is_castle_spec(b: Board, mv: Move) -> bool {
    bit(b.inner.colors_bb(b.inner.stm), mv.to.0 as u64)
}

/// A castle is short when the rook stands on a higher file than the king.
pub open spec fn castle_is_short(b: Board, mv: Move) -> bool {
    mv.from.0 as u64 % 8 < mv.to.0 as u64 % 8
}

/// The king's and rook's castling destinations, by wing.
pub open spec fn castle_king_dest(b: Board, mv: Move) -> u64 {
    (Rank::First.rel_idx(b.inner.stm) * 8 + (if castle_is_short(b, mv) {
        6int
    } else {
        2int
    })) as u64
}

pub open spec fn castle_rook_dest(b: Board, mv: Move) -> u64 {
    (Rank::First.rel_idx(b.inner.stm) * 8 + (if castle_is_short(b, mv) {
        5int
    } else {
        3int
    })) as u64
}

/// A pawn advance of two ranks, which creates an en-passant target.
pub open spec fn is_double_push(b: Board, mv: Move) -> bool {
    &&& moved_piece(b, mv) == Piece::Pawn
    &&& !is_castle_spec(b, mv)
    &&& mv.promotion is None
    &&& bit(rank_mask(1) | rank_mask(6), mv.from.0 as u64)
    &&& bit(rank_mask(3) | rank_mask(4), mv.to.0 as u64)
}

/// A pawn capture onto the en-passant target square.
pub open spec fn is_ep_capture(b: Board, mv: Move) -> bool {
    &&& moved_piece(b, mv) == Piece::Pawn
    &&& !is_castle_spec(b, mv)
    &&& mv.promotion is None
    &&& !is_double_push(b, mv)
    &&& b.inner.ep is Some
    &&& mv.to.0 as u64 == ep_dest(b)
}

/// The en-passant file after the move: set by a double push, cleared
/// otherwise.
pub open spec fn new_ep_spec(b: Board, mv: Move) -> Option<File> {
    if is_double_push(b, mv) {
        Some(file_from_idx(mv.to.0 as u64 % 8))
    } else {
        None
    }
}

/// The halfmove clock after the move: reset by pawn moves and captures,
/// incremented otherwise. Castling never counts as a capture.
pub open spec fn new_halfmove(b: Board, mv: Move) -> int {
    if moved_piece(b, mv) == Piece::Pawn || (b.spec_piece_on(mv.to.0 as u64) is Some
        && !is_castle_spec(b, mv)) {
        0
    } else {
        b.halfmove_clock + 1
    }
}

/// The fullmove number after the move: incremented after black's move.
pub open spec fn new_fullmove(b: Board, mv: Move) -> int {
    if b.inner.stm == Color::Black {
        b.fullmove_number + 1
    } else {
        b.fullmove_number as int
    }
}

/// The moving side's castle rights after the move: both lost on castling or
/// a king move; one lost when its rook leaves the back rank.
pub open spec fn our_new_rights(b: Board, mv: Move) -> CastleRights {
    let rights = b.inner.rights_of(b.inner.stm);
    let from = mv.from.0 as u64;
    let back = Rank::First.rel_idx(b.inner.stm);
    if is_castle_spec(b, mv) || moved_piece(b, mv) == Piece::King {
        CastleRights { short: None, long: None }
    } else if moved_piece(b, mv) == Piece::Rook && from / 8 == back {
        if rights.short == Some(file_from_idx(from % 8)) {
            CastleRights { short: None, long: rights.long }
        } else if rights.long == Some(file_from_idx(from % 8)) {
            CastleRights { short: rights.short, long: None }
        } else {
            rights
        }
    } else {
        rights
    }
}

/// The opponent's castle rights after the move: one lost when its castling
/// rook is captured on its back rank.
pub open spec fn their_new_rights(b: Board, mv: Move) -> CastleRights {
    let them = opp(b.inner.stm);
    let rights = b.inner.rights_of(them);
    let to = mv.to.0 as u64;
    let their_back = Rank::First.rel_idx(them);
    if !is_castle_spec(b, mv) && b.spec_piece_on(to) is Some && to / 8 == their_back {
        if rights.short == Some(file_from_idx(to % 8)) {
            CastleRights { short: None, long: rights.long }
        } else if rights.long == Some(file_from_idx(to % 8)) {
            CastleRights { short: rights.short, long: None }
        } else {
            rights
        }
    } else {
        rights
    }
}

/// The squares at which the move toggles the bitboard layer of one piece
/// kind.
pub open spec fn piece_toggle_mask(b: Board, mv: Move, q: Piece) -> u64 {
    let from_bb = 1u64 << mv.from.0;
    let to_bb = 1u64 << mv.to.0;
    if is_castle_spec(b, mv) {
        (if q == Piece::King {
            from_bb ^ (1u64 << castle_king_dest(b, mv))
        } else {
            0u64
        }) ^ (if q == Piece::Rook {
            to_bb ^ (1u64 << castle_rook_dest(b, mv))
        } else {
            0u64
        })
    } else {
        let moved = moved_piece(b, mv);
        let victim = b.spec_piece_on(mv.to.0 as u64);
        (if q == moved {
            from_bb
        } else {
            0u64
        }) ^ (if q == moved && !(moved == Piece::Pawn && mv.promotion is Some) {
            to_bb
        } else {
            0u64
        }) ^ (if victim == Some(q) {
            to_bb
        } else {
            0u64
        }) ^ (if mv.promotion == Some(q) && moved == Piece::Pawn {
            to_bb
        } else {
            0u64
        }) ^ (if is_ep_capture(b, mv) && q == Piece::Pawn {
            1u64 << ep_victim(b)
        } else {
            0u64
        })
    }
}

/// The squares at which the move toggles the bitboard layer of one color.
pub open spec fn color_toggle_mask(b: Board, mv: Move, c: Color) -> u64 {
    let from_bb = 1u64 << mv.from.0;
    let to_bb = 1u64 << mv.to.0;
    if is_castle_spec(b, mv) {
        if c == b.inner.stm {
            from_bb ^ to_bb ^ (1u64 << castle_king_dest(b, mv)) ^ (1u64 << castle_rook_dest(b, mv))
        } else {
            0u64
        }
    } else {
        (if c == b.inner.stm {
            from_bb ^ to_bb
        } else {
            0u64
        }) ^ (if c == opp(b.inner.stm) && b.spec_piece_on(mv.to.0 as u64) is Some {
            to_bb
        } else {
            0u64
        }) ^ (if c == opp(b.inner.stm) && is_ep_capture(b, mv) {
            1u64 << ep_victim(b)
        } else {
            0u64
        })
    }
}

/// A move the update may be applied to: both squares on the board, the
/// source held by a piece of the side to move, the opponent's king present
/// and not captured, and — for castling — the proper king-and-rook shape with
/// free destination squares. Legal moves on valid boards satisfy all of it.
/// The two error conditions of the update: the source square holds a piece
/// and the opponent has a king. When either fails, the update reports an
/// invalid board before mutating anything.
pub open spec fn move_defined(b: Board, mv: Move) -> bool {
    &&& b.spec_piece_on(mv.from.0 as u64) is Some
    &&& has_king(b.inner, opp(b.inner.stm))
}

pub open spec fn move_sane(b: Board, mv: Move) -> bool {
    let z = b.inner;
    let color = z.stm;
    let from = mv.from.0 as u64;
    let to = mv.to.0 as u64;
    &&& mv.wf()
    &&& b.spec_piece_on(to) != Some(Piece::King)
    &&& b.halfmove_clock < 255
    &&& b.fullmove_number < 65535
    &&& b.spec_piece_on(from) is Some ==> {
        &&& b.spec_color_on(from) == Some(color)
        &&& if is_castle_spec(b, mv) {
            let occ_x = occupied_bb(z) ^ (1u64 << from) ^ (1u64 << to);
            &&& b.spec_piece_on(from) == Some(Piece::King)
            &&& b.spec_piece_on(to) == Some(Piece::Rook)
            &&& !bit(occ_x, castle_king_dest(b, mv))
            &&& !bit(occ_x, castle_rook_dest(b, mv))
        } else {
            &&& (is_ep_capture(b, mv) ==> bit(
                z.pawns.0 & z.colors_bb(opp(color)),
                ep_victim(b),
            ) && ep_victim(b) < 64 && ep_dest(b) < 64)
        }
    }
}

/// A square with no piece-kind bit and no color bit is empty.
pub proof fn lemma_empty_from_bits(z: ZobristBoard, s: u64)
    requires
        forall|q: Piece| !(#[trigger] bit(z.pieces_bb(q), s)),
        !bit(z.colors_bb(Color::White), s),
        !bit(z.colors_bb(Color::Black), s),
    ensures
        z.sq_empty(s),
{
    assert(!bit(z.pieces_bb(Piece::Pawn), s));
    assert(!bit(z.pieces_bb(Piece::Knight), s));
    assert(!bit(z.pieces_bb(Piece::Bishop), s));
    assert(!bit(z.pieces_bb(Piece::Rook), s));
    assert(!bit(z.pieces_bb(Piece::Queen), s));
    assert(!bit(z.pieces_bb(Piece::King), s));
}

/// An unoccupied square is clear in every bitboard layer.
proof fn lemma_empty_square(z: ZobristBoard, s: u64)
    requires
        placement_ok(z),
        s < 64,
        !bit(occupied_bb(z), s),
    ensures
        z.sq_empty(s),
{
    lemma_bit_ops(z.white.0, z.black.0, s);
    let t1 = z.pawns.0 | z.knights.0;
    let t2 = t1 | z.bishops.0;
    let t3 = t2 | z.rooks.0;
    let t4 = t3 | z.queens.0;
    lemma_bit_ops(z.pawns.0, z.knights.0, s);
    lemma_bit_ops(t1, z.bishops.0, s);
    lemma_bit_ops(t2, z.rooks.0, s);
    lemma_bit_ops(t3, z.queens.0, s);
    lemma_bit_ops(t4, z.kings.0, s);
}

/// What `piece_on` and `color_on` report pins down the whole square, given a
/// coherent placement.
pub proof fn lemma_square_state(b: Board, s: u64)
    requires
        placement_ok(b.inner),
        s < 64,
    ensures
        match b.spec_piece_on(s) {
            None => b.inner.sq_empty(s) && b.spec_color_on(s) is None,
            Some(p) => b.spec_color_on(s) is Some && b.inner.sq_exactly(
                p,
                b.spec_color_on(s)->0,
                s,
            ) && bit(occupied_bb(b.inner), s),
        },
{
    let z = b.inner;
    lemma_bits_zero();
    lemma_bit_ops(z.white.0, z.black.0, s);
    let t1 = z.pawns.0 | z.knights.0;
    let t2 = t1 | z.bishops.0;
    let t3 = t2 | z.rooks.0;
    let t4 = t3 | z.queens.0;
    lemma_bit_ops(z.pawns.0, z.knights.0, s);
    lemma_bit_ops(t1, z.bishops.0, s);
    lemma_bit_ops(t2, z.rooks.0, s);
    lemma_bit_ops(t3, z.queens.0, s);
    lemma_bit_ops(t4, z.kings.0, s);
    match b.spec_piece_on(s) {
        None => {
        },
        Some(p) => {
            assert(bit(z.pieces_bb(p), s));
            assert forall|q: Piece| q != p implies !bit(z.pieces_bb(q), s) by {
                assert(disjoint_pair(z, p, q));
                lemma_bit_ops(z.pieces_bb(p), z.pieces_bb(q), s);
            }
        },
    }
}

impl Board {
    /// Check whether the update has a result to compute; see `move_defined`.
    pub fn move_defined_check(&self, mv: Move) -> (r: bool)
        requires
            mv.from.0 < 64,
        ensures
            r == move_defined(*self, mv),
    {
        self.piece_on(mv.from).is_some() && self.try_king(self.side_to_move().other()).is_ok()
    }

    /// Check whether the update may be applied to the move; see `move_sane`.
    pub fn move_sane_check(&self, mv: Move) -> (r: bool)
        ensures
            r == move_sane(*self, mv),
    {
        if !(mv.from.0 < 64 && mv.to.0 < 64) {
            return false;
        }
        let color = self.side_to_move();
        if matches!(self.piece_on(mv.to), Some(Piece::King)) {
            return false;
        }
        if !(self.halfmove_clock < 255 && self.fullmove_number < 65535) {
            return false;
        }
        let moved = match self.piece_on(mv.from) {
            Some(p) => p,
            None => {
                return true;
            },
        };
        let color_ok = match self.color_on(mv.from) {
            Some(c) => c == color,
            None => false,
        };
        if !color_ok {
            return false;
        }
        if self.colors(color).has(mv.to) {
            if !matches!(self.piece_on(mv.from), Some(Piece::King)) {
                return false;
            }
            if !matches!(self.piece_on(mv.to), Some(Piece::Rook)) {
                return false;
            }
            let short = mv.from.0 % 8 < mv.to.0 % 8;
            let back = Rank::First.relative_to(color);
            let kdest = Square::new(
                if short {
                    File::G
                } else {
                    File::C
                },
                back,
            );
            let rdest = Square::new(
                if short {
                    File::F
                } else {
                    File::D
                },
                back,
            );
            let occ_x = self.occupied().0 ^ (1u64 << mv.from.0) ^ (1u64 << mv.to.0);
            if (occ_x >> kdest.0) & 1 == 1 {
                return false;
            }
            if (occ_x >> rdest.0) & 1 == 1 {
                return false;
            }
            true
        } else {
            if matches!(moved, Piece::Pawn) && mv.promotion.is_none() {
                let double_from = Rank::Second.bitboard().0 | Rank::Seventh.bitboard().0;
                let double_to = Rank::Fourth.bitboard().0 | Rank::Fifth.bitboard().0;
                let is_double = (double_from >> mv.from.0) & 1 == 1 && (double_to >> mv.to.0) & 1
                    == 1;
                if !is_double {
                    if let Some(f) = self.en_passant() {
                        let dest = Square::new(f, Rank::Sixth.relative_to(color));
                        let victim = Square::new(f, Rank::Fifth.relative_to(color));
                        if mv.to.0 == dest.0 {
                            let enemy_pawns = self.inner.pawns.0 & self.colors(color.other()).0;
                            if !((enemy_pawns >> victim.0) & 1 == 1) {
                                return false;
                            }
                        }
                    }
                }
            }
            true
        }
    }


    /// Carry out a castling move: the king and its rook are lifted and
    /// reseated on their fixed destination files, and the moving side's
    /// castle rights are cleared.
    #[verifier::rlimit(100)]
    fn apply_castle(&mut self, mv: Move)
        requires
            old(self).hash_ok(),
            placement_ok(old(self).inner),
            move_sane(*old(self), mv),
            move_defined(*old(self), mv),
            is_castle_spec(*old(self), mv),
        ensures
            forall|q: Piece| #[trigger] final(self).inner.pieces_bb(q) == old(
                self,
            ).inner.pieces_bb(q) ^ piece_toggle_mask(*old(self), mv, q),
            forall|c: Color| #[trigger] final(self).inner.colors_bb(c) == old(
                self,
            ).inner.colors_bb(c) ^ color_toggle_mask(*old(self), mv, c),
            final(self).inner.rights_of(old(self).inner.stm) == (CastleRights {
                short: None,
                long: None,
            }),
            final(self).inner.rights_of(opp(old(self).inner.stm)) == old(self).inner.rights_of(
                opp(old(self).inner.stm),
            ),
            final(self).inner.ep == old(self).inner.ep,
            final(self).inner.stm == old(self).inner.stm,
            final(self).inner.hash_ok(),
            placement_ok(final(self).inner),
            final(self).checkers == old(self).checkers,
            final(self).pinned == old(self).pinned,
            final(self).halfmove_clock == old(self).halfmove_clock,
            final(self).fullmove_number == old(self).fullmove_number,
    {
        let ghost b0 = *self;
        let ghost z0 = self.inner;
        let ghost fb = 1u64 << mv.from.0;
        let ghost tb = 1u64 << mv.to.0;
        proof {
            lemma_xor_units();
            lemma_square_state(b0, mv.from.0 as u64);
            lemma_square_state(b0, mv.to.0 as u64);
        }
        let color = self.side_to_move();
        let short = mv.from.0 % 8 < mv.to.0 % 8;
        let back = Rank::First.relative_to(color);
        let kdest = Square::new(
            if short {
                File::G
            } else {
                File::C
            },
            back,
        );
        let rdest = Square::new(
            if short {
                File::F
            } else {
                File::D
            },
            back,
        );
        proof {
            assert(z0.sq_exactly(Piece::King, color, mv.from.0 as u64));
            assert(z0.sq_exactly(Piece::Rook, color, mv.to.0 as u64));
            assert(mv.from.0 != mv.to.0);
            assert(kdest.0 as u64 == castle_king_dest(b0, mv));
            assert(rdest.0 as u64 == castle_rook_dest(b0, mv));
        }
        self.inner.xor_square(Piece::King, color, mv.from);
        let ghost za = self.inner;
        proof {
            lemma_toggle_bit(z0.pieces_bb(Piece::King), mv.from.0 as u64);
            lemma_toggle_bit(z0.colors_bb(color), mv.from.0 as u64);
            assert forall|q: Piece| (#[trigger] bit(self.inner.pieces_bb(q), mv.to.0 as u64)) == (
            q == Piece::Rook) by {
                if q == Piece::King {
                    assert(self.inner.pieces_bb(q) == z0.pieces_bb(q) ^ (1u64 << mv.from.0));
                } else {
                    assert(self.inner.pieces_bb(q) == z0.pieces_bb(q));
                }
                assert(bit(z0.pieces_bb(q), mv.to.0 as u64) == (q == Piece::Rook));
            }
            assert(self.inner.sq_exactly(Piece::Rook, color, mv.to.0 as u64));
        }
        self.inner.xor_square(Piece::Rook, color, mv.to);
        proof {
            assert(za.pieces_bb(Piece::Pawn) == z0.pieces_bb(Piece::Pawn));
            assert(za.pieces_bb(Piece::Knight) == z0.pieces_bb(Piece::Knight));
            assert(za.pieces_bb(Piece::Bishop) == z0.pieces_bb(Piece::Bishop));
            assert(za.pieces_bb(Piece::Queen) == z0.pieces_bb(Piece::Queen));
            assert(za.pieces_bb(Piece::Rook) == z0.pieces_bb(Piece::Rook));
            assert(self.inner.pieces_bb(Piece::Pawn) == za.pieces_bb(Piece::Pawn));
            assert(self.inner.pieces_bb(Piece::Knight) == za.pieces_bb(Piece::Knight));
            assert(self.inner.pieces_bb(Piece::Bishop) == za.pieces_bb(Piece::Bishop));
            assert(self.inner.pieces_bb(Piece::Queen) == za.pieces_bb(Piece::Queen));
            assert(self.inner.pieces_bb(Piece::King) == za.pieces_bb(Piece::King));
            lemma_castle_dest_empty(
                z0,
                self.inner,
                color,
                mv.from.0 as u64,
                mv.to.0 as u64,
                kdest.0 as u64,
            );
        }
        let ghost z2 = self.inner;
        proof {
            lemma_clean_toggle_preserves(z0, za, Piece::King, color, mv.from.0 as u64);
            lemma_clean_toggle_preserves(za, z2, Piece::Rook, color, mv.to.0 as u64);
        }
        self.inner.xor_square(Piece::King, color, kdest);
        let ghost z3 = self.inner;
        proof {
            lemma_castle_dest_empty(
                z0,
                z2,
                color,
                mv.from.0 as u64,
                mv.to.0 as u64,
                rdest.0 as u64,
            );
            assert(kdest.0 != rdest.0);
            lemma_toggle_bit(z2.kings.0, kdest.0 as u64);
            lemma_toggle_bit(z2.colors_bb(color), kdest.0 as u64);
            assert(self.inner.sq_empty(rdest.0 as u64));
            lemma_clean_toggle_preserves(z2, z3, Piece::King, color, kdest.0 as u64);
        }
        self.inner.xor_square(Piece::Rook, color, rdest);
        let ghost z4 = self.inner;
        proof {
            lemma_clean_toggle_preserves(z3, z4, Piece::Rook, color, rdest.0 as u64);
        }
        self.inner.set_castle_right(color, true, None);
        self.inner.set_castle_right(color, false, None);
        proof {
            assert forall|p: Piece, q: Piece| p != q implies #[trigger] disjoint_pair(
                self.inner,
                p,
                q,
            ) by {
                assert(disjoint_pair(z4, p, q));
            }
            assert(placement_ok(self.inner));
            let kd = 1u64 << kdest.0;
            let rd = 1u64 << rdest.0;
            let ks = z0.kings.0;
            let rs = z0.rooks.0;
            let cs = z0.colors_bb(color);
            let kk = self.inner.kings.0;
            let rr = self.inner.rooks.0;
            let cc = self.inner.colors_bb(color);
            assert(kk == ks ^ (fb ^ kd)) by (bit_vector)
                requires
                    kk == (ks ^ fb) ^ kd,
            ;
            assert(rr == rs ^ (tb ^ rd)) by (bit_vector)
                requires
                    rr == (rs ^ tb) ^ rd,
            ;
            assert(cc == cs ^ (fb ^ tb ^ kd ^ rd)) by (bit_vector)
                requires
                    cc == (((cs ^ fb) ^ tb) ^ kd) ^ rd,
            ;
            assert forall|q: Piece| #[trigger] self.inner.pieces_bb(q) == z0.pieces_bb(q)
                ^ piece_toggle_mask(b0, mv, q) by {
                lemma_xor_units();
                if q == Piece::King {
                } else if q == Piece::Rook {
                } else {
                    assert(piece_toggle_mask(b0, mv, q) == 0u64 ^ 0u64);
                }
            }
            assert forall|c: Color| #[trigger] self.inner.colors_bb(c) == z0.colors_bb(c)
                ^ color_toggle_mask(b0, mv, c) by {
                lemma_xor_units();
            }
        }
    }

    /// Remove the captured piece from the destination square, clearing the
    /// opponent's castle right when its castling rook is taken on its back
    /// rank. Leaves the placement untouched for a quiet move.
    #[verifier::rlimit(60)]
    fn remove_victim(&mut self, mv: Move)
        requires
            old(self).hash_ok(),
            placement_ok(old(self).inner),
            move_sane(*old(self), mv),
            move_defined(*old(self), mv),
            !is_castle_spec(*old(self), mv),
        ensures
            (match old(self).spec_piece_on(mv.to.0 as u64) {
                Some(v) => {
                    &&& final(self).inner.pieces_bb(v) == old(self).inner.pieces_bb(v) ^ (1u64
                        << mv.to.0)
                    &&& forall|q: Piece| q != v ==> #[trigger] final(self).inner.pieces_bb(q)
                        == old(self).inner.pieces_bb(q)
                    &&& final(self).inner.colors_bb(opp(old(self).inner.stm)) == old(
                        self,
                    ).inner.colors_bb(opp(old(self).inner.stm)) ^ (1u64 << mv.to.0)
                    &&& final(self).inner.colors_bb(old(self).inner.stm) == old(
                        self,
                    ).inner.colors_bb(old(self).inner.stm)
                },
                None => {
                    &&& forall|q: Piece| #[trigger] final(self).inner.pieces_bb(q) == old(
                        self,
                    ).inner.pieces_bb(q)
                    &&& forall|c: Color| #[trigger] final(self).inner.colors_bb(c) == old(
                        self,
                    ).inner.colors_bb(c)
                },
            }),
            final(self).inner.rights_of(opp(old(self).inner.stm)) == their_new_rights(
                *old(self),
                mv,
            ),
            final(self).inner.rights_of(old(self).inner.stm) == old(self).inner.rights_of(
                old(self).inner.stm,
            ),
            final(self).inner.ep == old(self).inner.ep,
            final(self).inner.stm == old(self).inner.stm,
            final(self).inner.hash_ok(),
            placement_ok(final(self).inner),
            final(self).checkers == old(self).checkers,
            final(self).pinned == old(self).pinned,
            final(self).halfmove_clock == old(self).halfmove_clock,
            final(self).fullmove_number == old(self).fullmove_number,
    {
        let ghost b0 = *self;
        let ghost z0 = self.inner;
        proof {
            lemma_xor_units();
            crate::types::lemma_file_from_idx();
            lemma_square_state(b0, mv.from.0 as u64);
            lemma_square_state(b0, mv.to.0 as u64);
        }
        let color = self.side_to_move();
        let them = color.other();
        let victim = self.piece_on(mv.to);
        if let Some(v) = victim {
            proof {
                assert(!bit(z0.colors_bb(color), mv.to.0 as u64));
                assert(b0.spec_color_on(mv.to.0 as u64) == Some(them));
                assert(z0.sq_exactly(v, them, mv.to.0 as u64));
            }
            self.inner.xor_square(v, them, mv.to);
            let ghost zx = self.inner;
            proof {
                lemma_clean_toggle_preserves(z0, zx, v, them, mv.to.0 as u64);
            }
            let their_back = Rank::First.relative_to(them);
            if (mv.to.0 / 8) as usize == their_back.index() {
                let rights = self.castle_rights(them);
                let clear_short = match rights.short {
                    Some(f2) => f2.index() == (mv.to.0 % 8) as usize,
                    None => false,
                };
                if clear_short {
                    self.inner.set_castle_right(them, true, None);
                } else {
                    let clear_long = match rights.long {
                        Some(f2) => f2.index() == (mv.to.0 % 8) as usize,
                        None => false,
                    };
                    if clear_long {
                        self.inner.set_castle_right(them, false, None);
                    }
                }
            }
            proof {
                assert forall|p: Piece, q: Piece| p != q implies #[trigger] disjoint_pair(
                    self.inner,
                    p,
                    q,
                ) by {
                    assert(disjoint_pair(zx, p, q));
                }
                assert(placement_ok(self.inner));
            }
        }
    }

    /// Carry out any non-castling move: remove the victim, move the piece,
    /// handle promotion, en-passant capture and double pushes, and update
    /// both sides' castle rights. Returns the new en-passant file.
    #[verifier::rlimit(100)]
    #[verifier::spinoff_prover]
    fn apply_normal(&mut self, mv: Move) -> (new_ep: Option<File>)
        requires
            old(self).hash_ok(),
            placement_ok(old(self).inner),
            move_sane(*old(self), mv),
            move_defined(*old(self), mv),
            !is_castle_spec(*old(self), mv),
        ensures
            forall|q: Piece| #[trigger] final(self).inner.pieces_bb(q) == old(
                self,
            ).inner.pieces_bb(q) ^ piece_toggle_mask(*old(self), mv, q),
            forall|c: Color| #[trigger] final(self).inner.colors_bb(c) == old(
                self,
            ).inner.colors_bb(c) ^ color_toggle_mask(*old(self), mv, c),
            final(self).inner.rights_of(old(self).inner.stm) == our_new_rights(*old(self), mv),
            final(self).inner.rights_of(opp(old(self).inner.stm)) == their_new_rights(
                *old(self),
                mv,
            ),
            final(self).inner.ep == old(self).inner.ep,
            final(self).inner.stm == old(self).inner.stm,
            final(self).inner.hash_ok(),
            placement_ok(final(self).inner),
            final(self).checkers == old(self).checkers,
            final(self).pinned == old(self).pinned,
            final(self).halfmove_clock == old(self).halfmove_clock,
            final(self).fullmove_number == old(self).fullmove_number,
            new_ep == new_ep_spec(*old(self), mv),
    {
        let ghost b0 = *self;
        let ghost z0 = self.inner;
        let ghost mut zpl = self.inner;
        let ghost fb = 1u64 << mv.from.0;
        let ghost tb = 1u64 << mv.to.0;
        proof {
            lemma_xor_units();
            crate::types::lemma_file_from_idx();
            lemma_square_state(b0, mv.from.0 as u64);
            lemma_square_state(b0, mv.to.0 as u64);
        }
        let color = self.side_to_move();
        let them = color.other();
        let moved = match self.piece_on(mv.from) {
            Some(p) => p,
            None => vstd::pervasive::unreached(),
        };
        let victim = self.piece_on(mv.to);
        let mut new_en_passant: Option<File> = None;
        proof {
            assert(!bit(z0.colors_bb(color), mv.to.0 as u64));
            assert(bit(z0.colors_bb(color), mv.from.0 as u64));
            assert(mv.from.0 != mv.to.0);
        }
        self.remove_victim(mv);
        proof {
            assert(z0.sq_exactly(moved, color, mv.from.0 as u64));
            assert forall|q: Piece| (#[trigger] bit(self.inner.pieces_bb(q), mv.from.0 as u64))
                == (q == moved) by {
                if victim == Some(q) {
                    lemma_toggle_bit(z0.pieces_bb(q), mv.to.0 as u64);
                    assert(self.inner.pieces_bb(q) == z0.pieces_bb(q) ^ (1u64 << mv.to.0));
                } else {
                    assert(self.inner.pieces_bb(q) == z0.pieces_bb(q));
                }
                assert(bit(z0.pieces_bb(q), mv.from.0 as u64) == (q == moved));
            }
            if victim is Some {
                lemma_toggle_bit(z0.colors_bb(them), mv.to.0 as u64);
            }
            assert(bit(self.inner.colors_bb(color), mv.from.0 as u64));
            assert(!bit(self.inner.colors_bb(opp(color)), mv.from.0 as u64));
            assert(self.inner.sq_exactly(moved, color, mv.from.0 as u64));
        }
        let ghost z1 = self.inner;
        proof {
            match victim {
                Some(v) => {
                    lemma_clean_toggle_preserves(z0, z1, v, them, mv.to.0 as u64);
                },
                None => {
                    assert forall|p: Piece, q: Piece| p != q implies #[trigger] disjoint_pair(
                        z1,
                        p,
                        q,
                    ) by {
                        assert(disjoint_pair(z0, p, q));
                    }
                },
            }
            assert(placement_ok(z1));
        }
        self.inner.xor_square(moved, color, mv.from);
        proof {
            lemma_toggle_bit(z1.pieces_bb(moved), mv.from.0 as u64);
            lemma_toggle_bit(z1.colors_bb(color), mv.from.0 as u64);
            if victim is None {
                assert(b0.inner.sq_empty(mv.to.0 as u64));
            }
            assert forall|q: Piece| !(#[trigger] bit(self.inner.pieces_bb(q), mv.to.0 as u64)) by {
                assert(bit(z0.pieces_bb(q), mv.to.0 as u64) == (victim == Some(q)));
                if victim == Some(q) {
                    lemma_toggle_bit(z0.pieces_bb(q), mv.to.0 as u64);
                }
                if q == moved {
                    lemma_toggle_bit(z1.pieces_bb(q), mv.from.0 as u64);
                }
            }
            if victim is Some {
                lemma_toggle_bit(z0.colors_bb(them), mv.to.0 as u64);
            }
            assert(!bit(self.inner.colors_bb(color), mv.to.0 as u64));
            assert(!bit(self.inner.colors_bb(opp(color)), mv.to.0 as u64));
            lemma_empty_from_bits(self.inner, mv.to.0 as u64);
            assert(self.inner.sq_empty(mv.to.0 as u64));
        }
        let ghost z2 = self.inner;
        proof {
            lemma_clean_toggle_preserves(z1, z2, moved, color, mv.from.0 as u64);
        }
        self.inner.xor_square(moved, color, mv.to);
        let ghost zd = self.inner;
        let ghost mut zq = self.inner;
        proof {
            lemma_clean_toggle_preserves(z2, zd, moved, color, mv.to.0 as u64);
            zpl = zd;
        }
        let mut did_promo = false;
        let mut did_ep = false;
        if matches!(moved, Piece::Pawn) {
            if let Some(promo) = mv.promotion {
                did_promo = true;
                proof {
                    assert forall|q: Piece| (#[trigger] bit(
                        self.inner.pieces_bb(q),
                        mv.to.0 as u64,
                    )) == (q == Piece::Pawn) by {
                        if q == moved {
                            lemma_toggle_bit(z2.pieces_bb(q), mv.to.0 as u64);
                        }
                    }
                    lemma_toggle_bit(z2.colors_bb(color), mv.to.0 as u64);
                    assert(bit(self.inner.colors_bb(color), mv.to.0 as u64));
                    assert(!bit(self.inner.colors_bb(opp(color)), mv.to.0 as u64));
                    assert(self.inner.sq_exactly(Piece::Pawn, color, mv.to.0 as u64));
                }
                let ghost z3 = self.inner;
                self.inner.xor_square(Piece::Pawn, color, mv.to);
                proof {
                    lemma_clean_toggle_preserves(z3, self.inner, Piece::Pawn, color, mv.to.0 as u64);
                }
                proof {
                    zq = self.inner;
                    assert forall|q: Piece| !(#[trigger] bit(
                        self.inner.pieces_bb(q),
                        mv.to.0 as u64,
                    )) by {
                        if q == Piece::Pawn {
                            lemma_toggle_bit(z3.pieces_bb(q), mv.to.0 as u64);
                        }
                    }
                    lemma_toggle_bit(z3.colors_bb(color), mv.to.0 as u64);
                    assert(!bit(self.inner.colors_bb(color), mv.to.0 as u64));
                    assert(!bit(self.inner.colors_bb(opp(color)), mv.to.0 as u64));
                    lemma_empty_from_bits(self.inner, mv.to.0 as u64);
                    assert(self.inner.sq_empty(mv.to.0 as u64));
                }
                self.inner.xor_square(promo, color, mv.to);
                proof {
                    lemma_clean_toggle_preserves(zq, self.inner, promo, color, mv.to.0 as u64);
                    zpl = self.inner;
                }
            } else {
                let double_from = Rank::Second.bitboard().0 | Rank::Seventh.bitboard().0;
                let double_to = Rank::Fourth.bitboard().0 | Rank::Fifth.bitboard().0;
                if (double_from >> mv.from.0) & 1 == 1 && (double_to >> mv.to.0) & 1 == 1 {
                    new_en_passant = Some(mv.to.file());
                    proof {
                        assert(is_double_push(b0, mv));
                    }
                } else {
                    let is_ep = match self.en_passant() {
                        Some(f2) => {
                            let dest = Square::new(f2, Rank::Sixth.relative_to(color));
                            mv.to.0 == dest.0
                        },
                        None => false,
                    };
                    if is_ep {
                        did_ep = true;
                        let f2 = match self.en_passant() {
                            Some(f2) => f2,
                            None => vstd::pervasive::unreached(),
                        };
                        let vic = Square::new(f2, Rank::Fifth.relative_to(color));
                        proof {
                            assert(is_ep_capture(b0, mv));
                            assert(vic.0 as u64 == ep_victim(b0));
                            lemma_square_state(b0, vic.0 as u64);
                            assert(bit(z0.pawns.0, vic.0 as u64) && bit(
                                z0.colors_bb(them),
                                vic.0 as u64,
                            )) by {
                                lemma_bit_ops(z0.pawns.0, z0.colors_bb(them), vic.0 as u64);
                            }
                            assert(b0.spec_piece_on(vic.0 as u64) == Some(Piece::Pawn));
                            assert(b0.spec_color_on(vic.0 as u64) == Some(them)) by {
                                lemma_bit_ops(z0.white.0, z0.black.0, vic.0 as u64);
                                lemma_bits_zero();
                            }
                            assert(vic.0 != mv.from.0 && vic.0 != mv.to.0);
                            assert(z0.sq_exactly(Piece::Pawn, them, vic.0 as u64));
                            lemma_untouched_square(z0, z1, z2, self.inner, mv, vic.0 as u64);
                            assert(self.inner.sq_exactly(Piece::Pawn, them, vic.0 as u64));
                        }
                        self.inner.xor_square(Piece::Pawn, them, vic);
                        proof {
                            lemma_clean_toggle_preserves(
                                zq,
                                self.inner,
                                Piece::Pawn,
                                them,
                                vic.0 as u64,
                            );
                            zpl = self.inner;
                        }
                    } else {
                        proof {
                            assert(!is_ep_capture(b0, mv));
                        }
                    }
                }
            }
        } else if matches!(moved, Piece::King) {
            self.inner.set_castle_right(color, true, None);
            self.inner.set_castle_right(color, false, None);
        } else if matches!(moved, Piece::Rook) {
            let back = Rank::First.relative_to(color);
            if (mv.from.0 / 8) as usize == back.index() {
                let rights = self.castle_rights(color);
                let clear_short = match rights.short {
                    Some(f2) => f2.index() == (mv.from.0 % 8) as usize,
                    None => false,
                };
                if clear_short {
                    self.inner.set_castle_right(color, true, None);
                } else {
                    let clear_long = match rights.long {
                        Some(f2) => f2.index() == (mv.from.0 % 8) as usize,
                        None => false,
                    };
                    if clear_long {
                        self.inner.set_castle_right(color, false, None);
                    }
                }
            }
        }
        proof {
            lemma_normal_masks(b0, z1, z2, zd, zq, self.inner, mv, did_promo, did_ep);
            assert(placement_ok(zpl));
            assert forall|p: Piece, q: Piece| p != q implies #[trigger] disjoint_pair(
                self.inner,
                p,
                q,
            ) by {
                assert(disjoint_pair(zpl, p, q));
            }
            assert(placement_ok(self.inner));
        }
        new_en_passant
    }

    /// Apply a move without checking its legality. When the source square is
    /// empty or the opponent has no king, an invalid board is reported and
    /// nothing changes. Otherwise the update succeeds: the placement toggles
    /// exactly the masked squares, the rights, clocks, en-passant file and
    /// side to move follow the update rules of castling, capture, double
    /// push, en passant and promotion, the hash invariant is maintained, and
    /// the check and pin sets are recomputed from scratch for the side about
    /// to move. Applying a move that is not legal may still leave the
    /// position invalid.
    pub fn try_play_unchecked(&mut self, mv: Move) -> (r: Result<(), BoardError>)
        requires
            old(self).hash_ok(),
            placement_ok(old(self).inner),
            move_sane(*old(self), mv),
        ensures
            r is Ok <==> move_defined(*old(self), mv),
            !move_defined(*old(self), mv) ==> r == Err::<(), BoardError>(BoardError::InvalidBoard)
                && *final(self) == *old(self),
            move_defined(*old(self), mv) ==> {
                &&& final(self).inner.stm == opp(old(self).inner.stm)
                &&& forall|q: Piece| #[trigger] final(self).inner.pieces_bb(q) == old(
                    self,
                ).inner.pieces_bb(q) ^ piece_toggle_mask(*old(self), mv, q)
                &&& forall|c: Color| #[trigger] final(self).inner.colors_bb(c) == old(
                    self,
                ).inner.colors_bb(c) ^ color_toggle_mask(*old(self), mv, c)
                &&& final(self).inner.rights_of(old(self).inner.stm) == our_new_rights(
                    *old(self),
                    mv,
                )
                &&& final(self).inner.rights_of(opp(old(self).inner.stm)) == their_new_rights(
                    *old(self),
                    mv,
                )
                &&& final(self).inner.ep == new_ep_spec(*old(self), mv)
                &&& final(self).halfmove_clock == new_halfmove(*old(self), mv)
                &&& final(self).fullmove_number == new_fullmove(*old(self), mv)
                &&& final(self).hash_ok()
                &&& placement_ok(final(self).inner)
                &&& final(self).checkers.0 == spec_checkers(
                    final(self).inner,
                    final(self).inner.stm,
                )
                &&& final(self).pinned.0 == spec_pinned(final(self).inner, final(self).inner.stm)
            },
    {
        let ghost b0 = *self;
        let color = self.side_to_move();
        let them = color.other();
        let moved = match self.piece_on(mv.from) {
            Some(p) => p,
            None => {
                return Err(BoardError::InvalidBoard);
            },
        };
        if self.try_king(them).is_err() {
            return Err(BoardError::InvalidBoard);
        }
        let victim = self.piece_on(mv.to);
        let is_castle = self.colors(color).has(mv.to);
        let mut new_en_passant: Option<File> = None;
        if is_castle {
            self.apply_castle(mv);
            proof {
                assert(new_ep_spec(b0, mv) is None);
            }
        } else {
            new_en_passant = self.apply_normal(mv);
        }
        let ghost zb = self.inner;
        if matches!(moved, Piece::Pawn) || (victim.is_some() && !is_castle) {
            self.halfmove_clock = 0;
        } else {
            self.halfmove_clock = self.halfmove_clock + 1;
        }
        if color == Color::Black {
            self.fullmove_number = self.fullmove_number + 1;
        }
        self.inner.set_en_passant(new_en_passant);
        self.inner.toggle_side_to_move();
        proof {
            assert forall|q: Piece| #[trigger] self.inner.pieces_bb(q) == b0.inner.pieces_bb(q)
                ^ piece_toggle_mask(b0, mv, q) by {
                assert(self.inner.pieces_bb(q) == zb.pieces_bb(q));
            }
            assert forall|c: Color| #[trigger] self.inner.colors_bb(c) == b0.inner.colors_bb(c)
                ^ color_toggle_mask(b0, mv, c) by {
                assert(self.inner.colors_bb(c) == zb.colors_bb(c));
            }
            assert forall|p: Piece, q: Piece| p != q implies #[trigger] disjoint_pair(
                self.inner,
                p,
                q,
            ) by {
                assert(disjoint_pair(zb, p, q));
            }
            assert(placement_ok(self.inner));
            lemma_their_king_remains(b0, *self, mv);
        }
        let (chk, pins) = self.calculate_checkers_and_pins(them);
        self.checkers = chk;
        self.pinned = pins;
        Ok(())
    }
}

/// Lifting the mover and removing the victim touches neither the en-passant
/// victim square nor anything standing on it.
proof fn lemma_untouched_square(
    z0: ZobristBoard,
    z1: ZobristBoard,
    z2: ZobristBoard,
    z3: ZobristBoard,
    mv: Move,
    s: u64,
)
    requires
        mv.wf(),
        s < 64,
        s != mv.from.0,
        s != mv.to.0,
        forall|q: Piece| #[trigger] z1.pieces_bb(q) == z0.pieces_bb(q) || z1.pieces_bb(q)
            == z0.pieces_bb(q) ^ (1u64 << mv.to.0),
        forall|c: Color| #[trigger] z1.colors_bb(c) == z0.colors_bb(c) || z1.colors_bb(c)
            == z0.colors_bb(c) ^ (1u64 << mv.to.0),
        forall|q: Piece| #[trigger] z2.pieces_bb(q) == z1.pieces_bb(q) || z2.pieces_bb(q)
            == z1.pieces_bb(q) ^ (1u64 << mv.from.0),
        forall|c: Color| #[trigger] z2.colors_bb(c) == z1.colors_bb(c) || z2.colors_bb(c)
            == z1.colors_bb(c) ^ (1u64 << mv.from.0),
        forall|q: Piece| #[trigger] z3.pieces_bb(q) == z2.pieces_bb(q) || z3.pieces_bb(q)
            == z2.pieces_bb(q) ^ (1u64 << mv.to.0),
        forall|c: Color| #[trigger] z3.colors_bb(c) == z2.colors_bb(c) || z3.colors_bb(c)
            == z2.colors_bb(c) ^ (1u64 << mv.to.0),
    ensures
        forall|q: Piece| #[trigger] bit(z3.pieces_bb(q), s) == bit(z0.pieces_bb(q), s),
        forall|c: Color| #[trigger] bit(z3.colors_bb(c), s) == bit(z0.colors_bb(c), s),
{
    assert forall|q: Piece| #[trigger] bit(z3.pieces_bb(q), s) == bit(z0.pieces_bb(q), s) by {
        lemma_toggle_bit(z0.pieces_bb(q), mv.to.0 as u64);
        lemma_toggle_bit(z1.pieces_bb(q), mv.from.0 as u64);
        lemma_toggle_bit(z2.pieces_bb(q), mv.to.0 as u64);
    }
    assert forall|c: Color| #[trigger] bit(z3.colors_bb(c), s) == bit(z0.colors_bb(c), s) by {
        lemma_toggle_bit(z0.colors_bb(c), mv.to.0 as u64);
        lemma_toggle_bit(z1.colors_bb(c), mv.from.0 as u64);
        lemma_toggle_bit(z2.colors_bb(c), mv.to.0 as u64);
    }
}

/// With king and rook lifted, the castling destinations are free.
proof fn lemma_castle_dest_empty(
    z0: ZobristBoard,
    z2: ZobristBoard,
    color: Color,
    f: u64,
    t: u64,
    d: u64,
)
    requires
        placement_ok(z0),
        f < 64,
        t < 64,
        d < 64,
        f != t,
        z0.sq_exactly(Piece::King, color, f),
        z0.sq_exactly(Piece::Rook, color, t),
        !bit(occupied_bb(z0) ^ (1u64 << f) ^ (1u64 << t), d),
        z2.kings.0 == z0.kings.0 ^ (1u64 << f),
        z2.rooks.0 == z0.rooks.0 ^ (1u64 << t),
        z2.pawns.0 == z0.pawns.0,
        z2.knights.0 == z0.knights.0,
        z2.bishops.0 == z0.bishops.0,
        z2.queens.0 == z0.queens.0,
        z2.colors_bb(color) == z0.colors_bb(color) ^ (1u64 << f) ^ (1u64 << t),
        z2.colors_bb(opp(color)) == z0.colors_bb(opp(color)),
    ensures
        z2.sq_empty(d),
{
    lemma_bits_zero();
    lemma_toggle_bit(occupied_bb(z0), f);
    lemma_toggle_bit(occupied_bb(z0) ^ (1u64 << f), t);
    lemma_toggle_bit(z0.kings.0, f);
    lemma_toggle_bit(z0.rooks.0, t);
    lemma_toggle_bit(z0.colors_bb(color), f);
    lemma_toggle_bit(z0.colors_bb(color) ^ (1u64 << f), t);
    assert(bit(z0.pieces_bb(Piece::King), f) && bit(z0.pieces_bb(Piece::Rook), t));
    assert(!bit(z0.pieces_bb(Piece::Pawn), f) && !bit(z0.pieces_bb(Piece::Pawn), t));
    assert(!bit(z0.pieces_bb(Piece::Knight), f) && !bit(z0.pieces_bb(Piece::Knight), t));
    assert(!bit(z0.pieces_bb(Piece::Bishop), f) && !bit(z0.pieces_bb(Piece::Bishop), t));
    assert(!bit(z0.pieces_bb(Piece::Queen), f) && !bit(z0.pieces_bb(Piece::Queen), t));
    assert(!bit(z0.pieces_bb(Piece::Rook), f) && !bit(z0.pieces_bb(Piece::King), t));
    assert(z2.colors_bb(color) == (z0.colors_bb(color) ^ (1u64 << f)) ^ (1u64 << t));
    if d == f {
        assert(!bit(z2.kings.0, d));
        assert(!bit(z2.rooks.0, d));
        assert(!bit(z2.colors_bb(color), d));
        assert(!bit(z2.colors_bb(opp(color)), d));
    } else if d == t {
        assert(!bit(z2.kings.0, d));
        assert(!bit(z2.rooks.0, d));
        assert(!bit(z2.colors_bb(color), d));
        assert(!bit(z2.colors_bb(opp(color)), d));
    } else {
        assert(!bit(occupied_bb(z0), d));
        lemma_empty_square(z0, d);
        assert(!bit(z2.kings.0, d));
        assert(!bit(z2.rooks.0, d));
        assert(!bit(z2.colors_bb(color), d));
        assert(!bit(z2.colors_bb(opp(color)), d));
    }
    match color {
        Color::White => {
        },
        Color::Black => {
        },
    }
}

/// The move never touches the square of the opposing king, which therefore
/// remains on the board.
proof fn lemma_their_king_remains(b0: Board, b1: Board, mv: Move)
    requires
        placement_ok(b0.inner),
        move_sane(b0, mv),
        move_defined(b0, mv),
        forall|q: Piece| #[trigger] b1.inner.pieces_bb(q) == b0.inner.pieces_bb(q)
            ^ piece_toggle_mask(b0, mv, q),
        forall|c: Color| #[trigger] b1.inner.colors_bb(c) == b0.inner.colors_bb(c)
            ^ color_toggle_mask(b0, mv, c),
    ensures
        has_king(b1.inner, opp(b0.inner.stm)),
{
    let z0 = b0.inner;
    let color = z0.stm;
    let them = opp(color);
    let f = mv.from.0 as u64;
    let t = mv.to.0 as u64;
    lemma_bits_zero();
    lemma_xor_units();
    lemma_lsb_exists(z0.kings.0 & z0.colors_bb(them));
    let kt = king_sq(z0, them);
    lemma_bit_ops(z0.kings.0, z0.colors_bb(them), kt);
    assert(bit(z0.kings.0, kt) && bit(z0.colors_bb(them), kt));
    lemma_bit_ops(z0.colors_bb(Color::White), z0.colors_bb(Color::Black), kt);
    assert(!bit(z0.colors_bb(color), kt));
    assert(kt != f);
    lemma_square_state(b0, t);
    assert(kt != t) by {
        if kt == t {
            match b0.spec_piece_on(t) {
                None => {
                    assert(b0.inner.sq_empty(t));
                },
                Some(p) => {
                    assert(b0.inner.sq_exactly(p, b0.spec_color_on(t)->0, t));
                    assert(bit(b0.inner.pieces_bb(Piece::King), t));
                    assert(p == Piece::King);
                },
            }
        }
    }
    crate::bits::lemma_bit_single(f, kt);
    crate::bits::lemma_bit_single(t, kt);
    let kings_mask = piece_toggle_mask(b0, mv, Piece::King);
    let them_mask = color_toggle_mask(b0, mv, them);
    if is_castle_spec(b0, mv) {
        let kd = castle_king_dest(b0, mv);
        assert(kd < 64);
        lemma_toggle_bit(occupied_bb(z0), f);
        lemma_toggle_bit(occupied_bb(z0) ^ (1u64 << f), t);
        lemma_bit_ops(z0.white.0, z0.black.0, kt);
        assert(bit(occupied_bb(z0), kt));
        assert(kt != kd);
        crate::bits::lemma_bit_single(kd, kt);
        lemma_bit_ops(1u64 << mv.from.0, 1u64 << kd, kt);
        lemma_bit_ops((1u64 << mv.from.0) ^ (1u64 << kd), 0u64, kt);
        assert(!bit(kings_mask, kt));
        assert(them_mask == 0u64);
        assert(!bit(them_mask, kt));
    } else {
        let vic = ep_victim(b0);
        if is_ep_capture(b0, mv) {
            assert(vic < 64);
            lemma_bit_ops(z0.pawns.0, z0.colors_bb(them), vic);
            assert(disjoint_pair(z0, Piece::Pawn, Piece::King));
            lemma_bit_ops(z0.pawns.0, z0.kings.0, kt);
            assert(!bit(z0.pawns.0, kt));
            assert(kt != vic);
            crate::bits::lemma_bit_single(vic, kt);
        }
        let m = moved_piece(b0, mv);
        let victim = b0.spec_piece_on(mv.to.0 as u64);
        let t1: u64 = if Piece::King == m {
            1u64 << mv.from.0
        } else {
            0u64
        };
        let t2: u64 = if Piece::King == m && !(m == Piece::Pawn && mv.promotion is Some) {
            1u64 << mv.to.0
        } else {
            0u64
        };
        let t3: u64 = if victim == Some(Piece::King) {
            1u64 << mv.to.0
        } else {
            0u64
        };
        let t4: u64 = if mv.promotion == Some(Piece::King) && m == Piece::Pawn {
            1u64 << mv.to.0
        } else {
            0u64
        };
        let t5: u64 = if is_ep_capture(b0, mv) && Piece::King == Piece::Pawn {
            1u64 << ep_victim(b0)
        } else {
            0u64
        };
        lemma_xor5_miss(t1, t2, t3, t4, t5, kt);
        assert(kings_mask == t1 ^ t2 ^ t3 ^ t4 ^ t5);
        assert(!bit(kings_mask, kt));
        let s1: u64 = if them == b0.inner.stm {
            (1u64 << mv.from.0) ^ (1u64 << mv.to.0)
        } else {
            0u64
        };
        let s2: u64 = if them == opp(b0.inner.stm) && b0.spec_piece_on(mv.to.0 as u64) is Some {
            1u64 << mv.to.0
        } else {
            0u64
        };
        let s3: u64 = if them == opp(b0.inner.stm) && is_ep_capture(b0, mv) {
            1u64 << ep_victim(b0)
        } else {
            0u64
        };
        lemma_xor5_miss(s1, s2, s3, 0u64, 0u64, kt);
        assert(them_mask == s1 ^ s2 ^ s3);
        assert((s1 ^ s2 ^ s3 ^ 0u64 ^ 0u64) == ((s1 ^ s2 ^ s3) ^ 0u64) ^ 0u64);
        assert(!bit(them_mask, kt));
    }
    assert(b1.inner.pieces_bb(Piece::King) == b0.inner.pieces_bb(Piece::King) ^ kings_mask);
    assert(b1.inner.colors_bb(them) == b0.inner.colors_bb(them) ^ them_mask);
    lemma_bit_ops(z0.pieces_bb(Piece::King), kings_mask, kt);
    lemma_bit_ops(z0.colors_bb(them), them_mask, kt);
    assert(bit(b1.inner.kings.0, kt));
    assert(bit(b1.inner.colors_bb(them), kt));
    lemma_bit_ops(b1.inner.kings.0, b1.inner.colors_bb(them), kt);
    lemma_bit_nonzero(b1.inner.kings.0 & b1.inner.colors_bb(them), kt);
}

/// An XOR of terms, none holding a given bit, does not hold it either.
proof fn lemma_xor5_miss(t1: u64, t2: u64, t3: u64, t4: u64, t5: u64, kt: u64)
    requires
        kt < 64,
        !bit(t1, kt),
        !bit(t2, kt),
        !bit(t3, kt),
        !bit(t4, kt),
        !bit(t5, kt),
    ensures
        !bit(t1 ^ t2 ^ t3 ^ t4 ^ t5, kt),
{
    lemma_bit_ops(t1, t2, kt);
    lemma_bit_ops(t1 ^ t2, t3, kt);
    lemma_bit_ops(t1 ^ t2 ^ t3, t4, kt);
    lemma_bit_ops(t1 ^ t2 ^ t3 ^ t4, t5, kt);
}


/// Composing the victim removal, the lift and drop of the mover, the
/// promotion swap and the en-passant removal toggles exactly the masked
/// squares of every layer.
#[verifier::rlimit(100)]
proof fn lemma_normal_masks(
    b0: Board,
    zv: ZobristBoard,
    zl: ZobristBoard,
    zd: ZobristBoard,
    zq: ZobristBoard,
    zf: ZobristBoard,
    mv: Move,
    did_promo: bool,
    did_ep: bool,
)
    requires
        mv.wf(),
        placement_ok(b0.inner),
        move_sane(b0, mv),
        move_defined(b0, mv),
        !is_castle_spec(b0, mv),
        did_promo == (moved_piece(b0, mv) == Piece::Pawn && mv.promotion is Some),
        did_ep == is_ep_capture(b0, mv),
        !(did_promo && did_ep),
        (match b0.spec_piece_on(mv.to.0 as u64) {
            Some(v) => {
                &&& zv.pieces_bb(v) == b0.inner.pieces_bb(v) ^ (1u64 << mv.to.0)
                &&& forall|q: Piece| q != v ==> #[trigger] zv.pieces_bb(q) == b0.inner.pieces_bb(q)
                &&& zv.colors_bb(opp(b0.inner.stm)) == b0.inner.colors_bb(opp(b0.inner.stm)) ^ (
                1u64 << mv.to.0)
                &&& zv.colors_bb(b0.inner.stm) == b0.inner.colors_bb(b0.inner.stm)
            },
            None => {
                &&& forall|q: Piece| #[trigger] zv.pieces_bb(q) == b0.inner.pieces_bb(q)
                &&& forall|c: Color| #[trigger] zv.colors_bb(c) == b0.inner.colors_bb(c)
            },
        }),
        zl.pieces_bb(moved_piece(b0, mv)) == zv.pieces_bb(moved_piece(b0, mv)) ^ (1u64
            << mv.from.0),
        forall|q: Piece| q != moved_piece(b0, mv) ==> #[trigger] zl.pieces_bb(q) == zv.pieces_bb(q),
        zl.colors_bb(b0.inner.stm) == zv.colors_bb(b0.inner.stm) ^ (1u64 << mv.from.0),
        zl.colors_bb(opp(b0.inner.stm)) == zv.colors_bb(opp(b0.inner.stm)),
        zd.pieces_bb(moved_piece(b0, mv)) == zl.pieces_bb(moved_piece(b0, mv)) ^ (1u64 << mv.to.0),
        forall|q: Piece| q != moved_piece(b0, mv) ==> #[trigger] zd.pieces_bb(q) == zl.pieces_bb(q),
        zd.colors_bb(b0.inner.stm) == zl.colors_bb(b0.inner.stm) ^ (1u64 << mv.to.0),
        zd.colors_bb(opp(b0.inner.stm)) == zl.colors_bb(opp(b0.inner.stm)),
        did_promo ==> {
            &&& zq.pieces_bb(Piece::Pawn) == zd.pieces_bb(Piece::Pawn) ^ (1u64 << mv.to.0)
            &&& forall|q: Piece| q != Piece::Pawn ==> #[trigger] zq.pieces_bb(q) == zd.pieces_bb(q)
            &&& zq.colors_bb(b0.inner.stm) == zd.colors_bb(b0.inner.stm) ^ (1u64 << mv.to.0)
            &&& zq.colors_bb(opp(b0.inner.stm)) == zd.colors_bb(opp(b0.inner.stm))
            &&& zf.pieces_bb(mv.promotion->0) == zq.pieces_bb(mv.promotion->0) ^ (1u64 << mv.to.0)
            &&& forall|q: Piece| q != mv.promotion->0 ==> #[trigger] zf.pieces_bb(q)
                == zq.pieces_bb(q)
            &&& zf.colors_bb(b0.inner.stm) == zq.colors_bb(b0.inner.stm) ^ (1u64 << mv.to.0)
            &&& zf.colors_bb(opp(b0.inner.stm)) == zq.colors_bb(opp(b0.inner.stm))
        },
        !did_promo ==> (forall|q: Piece| #[trigger] zq.pieces_bb(q) == zd.pieces_bb(q)) && (
        forall|c: Color| #[trigger] zq.colors_bb(c) == zd.colors_bb(c)),
        did_ep ==> {
            &&& zf.pieces_bb(Piece::Pawn) == zq.pieces_bb(Piece::Pawn) ^ (1u64 << ep_victim(b0))
            &&& forall|q: Piece| q != Piece::Pawn ==> #[trigger] zf.pieces_bb(q) == zq.pieces_bb(q)
            &&& zf.colors_bb(opp(b0.inner.stm)) == zq.colors_bb(opp(b0.inner.stm)) ^ (1u64
                << ep_victim(b0))
            &&& zf.colors_bb(b0.inner.stm) == zq.colors_bb(b0.inner.stm)
        },
        (!did_promo && !did_ep) ==> (forall|q: Piece| #[trigger] zf.pieces_bb(q) == zq.pieces_bb(
            q,
        )) && (forall|c: Color| #[trigger] zf.colors_bb(c) == zq.colors_bb(c)),
    ensures
        forall|q: Piece| #[trigger] zf.pieces_bb(q) == b0.inner.pieces_bb(q) ^ piece_toggle_mask(
            b0,
            mv,
            q,
        ),
        forall|c: Color| #[trigger] zf.colors_bb(c) == b0.inner.colors_bb(c) ^ color_toggle_mask(
            b0,
            mv,
            c,
        ),
{
    lemma_xor_units();
    let fb = 1u64 << mv.from.0;
    let tb = 1u64 << mv.to.0;
    let m = moved_piece(b0, mv);
    let vicb: u64 = if is_ep_capture(b0, mv) {
        1u64 << ep_victim(b0)
    } else {
        0u64
    };
    assert forall|q: Piece| #[trigger] zf.pieces_bb(q) == b0.inner.pieces_bb(q)
        ^ piece_toggle_mask(b0, mv, q) by {
        lemma_xor_units();
        let t1: u64 = if q == m {
            fb
        } else {
            0u64
        };
        let t2: u64 = if q == m && !(m == Piece::Pawn && mv.promotion is Some) {
            tb
        } else {
            0u64
        };
        let t3: u64 = if b0.spec_piece_on(mv.to.0 as u64) == Some(q) {
            tb
        } else {
            0u64
        };
        let t4: u64 = if mv.promotion == Some(q) && m == Piece::Pawn {
            tb
        } else {
            0u64
        };
        let t5: u64 = if is_ep_capture(b0, mv) && q == Piece::Pawn {
            vicb
        } else {
            0u64
        };
        assert(piece_toggle_mask(b0, mv, q) == t1 ^ t2 ^ t3 ^ t4 ^ t5);
        let w = b0.inner.pieces_bb(q);
        let fin = zf.pieces_bb(q);
        assert(zv.pieces_bb(q) == w ^ t3);
        assert(zl.pieces_bb(q) == zv.pieces_bb(q) ^ t1);
        let ud: u64 = if q == m {
            tb
        } else {
            0u64
        };
        assert(zd.pieces_bb(q) == zl.pieces_bb(q) ^ ud);
        if did_promo {
            let up: u64 = if q == Piece::Pawn {
                tb
            } else {
                0u64
            };
            assert(zq.pieces_bb(q) == zd.pieces_bb(q) ^ up);
            assert(fin == zq.pieces_bb(q) ^ t4);
            assert(fin == (((((w ^ t3) ^ t1) ^ ud) ^ up) ^ t4));
            assert((((((w ^ t3) ^ t1) ^ ud) ^ up) ^ t4) == w ^ (t1 ^ t2 ^ t3 ^ t4 ^ t5))
                by (bit_vector)
                requires
                    t2 == 0u64,
                    t5 == 0u64,
                    ud == up,
            ;
        } else {
            assert(zq.pieces_bb(q) == zd.pieces_bb(q));
            assert(fin == zq.pieces_bb(q) ^ t5);
            assert(fin == ((((w ^ t3) ^ t1) ^ ud) ^ t5));
            assert(((((w ^ t3) ^ t1) ^ ud) ^ t5) == w ^ (t1 ^ t2 ^ t3 ^ t4 ^ t5)) by (bit_vector)
                requires
                    t4 == 0u64,
                    ud == t2,
            ;
        }
    }
    assert forall|c: Color| #[trigger] zf.colors_bb(c) == b0.inner.colors_bb(c)
        ^ color_toggle_mask(b0, mv, c) by {
        lemma_xor_units();
        let s1: u64 = if c == b0.inner.stm {
            fb ^ tb
        } else {
            0u64
        };
        let s2: u64 = if c == opp(b0.inner.stm) && b0.spec_piece_on(mv.to.0 as u64) is Some {
            tb
        } else {
            0u64
        };
        let s3: u64 = if c == opp(b0.inner.stm) && is_ep_capture(b0, mv) {
            vicb
        } else {
            0u64
        };
        assert(color_toggle_mask(b0, mv, c) == s1 ^ s2 ^ s3);
        let w = b0.inner.colors_bb(c);
        let fin = zf.colors_bb(c);
        assert(zv.colors_bb(c) == w ^ s2);
        if c == b0.inner.stm {
            assert(zd.colors_bb(c) == ((w ^ s2) ^ fb) ^ tb);
            if did_promo {
                assert(fin == ((((((w ^ s2) ^ fb) ^ tb) ^ tb) ^ tb)));
                assert(((((((w ^ s2) ^ fb) ^ tb) ^ tb) ^ tb)) == w ^ ((fb ^ tb) ^ s2 ^ 0u64))
                    by (bit_vector);
                assert(s2 == 0u64 && s3 == 0u64);
            } else {
                assert(fin == (((w ^ s2) ^ fb) ^ tb));
                assert((((w ^ s2) ^ fb) ^ tb) == w ^ ((fb ^ tb) ^ s2 ^ 0u64)) by (bit_vector);
                assert(s2 == 0u64 && s3 == 0u64);
            }
        } else {
            assert(zd.colors_bb(c) == w ^ s2);
            assert(fin == (w ^ s2) ^ s3);
            assert(((w ^ s2) ^ s3) == w ^ ((s1 ^ s2) ^ s3)) by (bit_vector)
                requires
                    s1 == 0u64,
            ;
        }
    }
}


/// A single move drawn from a batch: same source, a destination in the
/// batch's set, and a promotion exactly for pawn moves onto a back rank.
pub open spec fn move_in_batch(pm: PieceMoves, mv: Move) -> bool {
    &&& pm.from == mv.from
    &&& mv.to.wf()
    &&& bit(pm.to.0, mv.to.0 as u64)
    &&& if pm.piece == Piece::Pawn && bit(promo_mask(), mv.to.0 as u64) {
        mv.promotion == Some(Piece::Knight) || mv.promotion == Some(Piece::Bishop) || mv.promotion
            == Some(Piece::Rook) || mv.promotion == Some(Piece::Queen)
    } else {
        mv.promotion is None
    }
}

/// A move is legal when some generated batch contains it.
pub open spec fn spec_is_legal(b: Board, mv: Move) -> bool {
    exists|k: int|
        0 <= k < movegen_seq(b).len() && move_in_batch(#[trigger] movegen_seq(b)[k], mv)
}

impl Board {
    /// Check whether a move is legal in this position.
    pub fn is_legal(&self, mv: Move) -> (r: bool)
        requires
            has_king(self.inner, self.inner.stm),
        ensures
            r == spec_is_legal(*self, mv),
    {
        if !(mv.to.0 < 64) {
            return false;
        }
        let batches = self.generate_moves();
        let mut k: usize = 0;
        while k < batches.len()
            invariant
                batches@ == movegen_seq(*self),
                k <= batches@.len(),
                forall|k2: int| 0 <= k2 < k ==> !move_in_batch(#[trigger] batches@[k2], mv),
                mv.to.wf(),
            decreases batches@.len() - k,
        {
            let pm = batches[k];
            let same_from = pm.from.0 == mv.from.0;
            let has_to = (pm.to.0 >> mv.to.0) & 1 == 1;
            let is_promo_square = matches!(pm.piece, Piece::Pawn) && (mv.to.0 / 8 == 0 || mv.to.0
                / 8 == 7);
            proof {
                crate::piece_moves::lemma_promo_rank(mv.to.0 as u64);
            }
            let promo_ok = if is_promo_square {
                matches!(
                    mv.promotion,
                    Some(Piece::Knight) | Some(Piece::Bishop) | Some(Piece::Rook)
                        | Some(Piece::Queen),
                )
            } else {
                mv.promotion.is_none()
            };
            if same_from && has_to && promo_ok {
                return true;
            }
            k = k + 1;
        }
        false
    }

    /// Apply a move whose source square is occupied and whose opponent has a
    /// king, without checking its legality; see `try_play_unchecked`.
    pub fn play_unchecked(&mut self, mv: Move)
        requires
            old(self).hash_ok(),
            placement_ok(old(self).inner),
            move_sane(*old(self), mv),
            move_defined(*old(self), mv),
        ensures
            final(self).inner.stm == opp(old(self).inner.stm),
            forall|q: Piece| #[trigger] final(self).inner.pieces_bb(q) == old(
                self,
            ).inner.pieces_bb(q) ^ piece_toggle_mask(*old(self), mv, q),
            forall|c: Color| #[trigger] final(self).inner.colors_bb(c) == old(
                self,
            ).inner.colors_bb(c) ^ color_toggle_mask(*old(self), mv, c),
            final(self).inner.rights_of(old(self).inner.stm) == our_new_rights(*old(self), mv),
            final(self).inner.rights_of(opp(old(self).inner.stm)) == their_new_rights(
                *old(self),
                mv,
            ),
            final(self).inner.ep == new_ep_spec(*old(self), mv),
            final(self).halfmove_clock == new_halfmove(*old(self), mv),
            final(self).fullmove_number == new_fullmove(*old(self), mv),
            final(self).hash_ok(),
            placement_ok(final(self).inner),
            final(self).checkers.0 == spec_checkers(final(self).inner, final(self).inner.stm),
            final(self).pinned.0 == spec_pinned(final(self).inner, final(self).inner.stm),
    {
        let r = self.try_play_unchecked(mv);
    }

    /// Attempt to play a move, applying it only when it is legal. Returns
    /// whether the move was played; errs when the side to move has no king.
    /// On a valid board, a refused move is never a legal, applicable one.
    pub fn try_play(&mut self, mv: Move) -> (r: Result<bool, BoardError>)
        requires
            old(self).hash_ok(),
            placement_ok(old(self).inner),
        ensures
            match r {
                Ok(true) => {
                    &&& spec_is_legal(*old(self), mv)
                    &&& move_sane(*old(self), mv)
                    &&& final(self).inner.stm == opp(old(self).inner.stm)
                    &&& final(self).hash_ok()
                    &&& placement_ok(final(self).inner)
                    &&& final(self).checkers.0 == spec_checkers(
                        final(self).inner,
                        final(self).inner.stm,
                    )
                    &&& final(self).pinned.0 == spec_pinned(
                        final(self).inner,
                        final(self).inner.stm,
                    )
                    &&& forall|q: Piece| #[trigger] final(self).inner.pieces_bb(q) == old(
                        self,
                    ).inner.pieces_bb(q) ^ piece_toggle_mask(*old(self), mv, q)
                    &&& forall|c: Color| #[trigger] final(self).inner.colors_bb(c) == old(
                        self,
                    ).inner.colors_bb(c) ^ color_toggle_mask(*old(self), mv, c)
                    &&& final(self).inner.ep == new_ep_spec(*old(self), mv)
                    &&& final(self).halfmove_clock == new_halfmove(*old(self), mv)
                    &&& final(self).fullmove_number == new_fullmove(*old(self), mv)
                    &&& final(self).inner.rights_of(old(self).inner.stm) == our_new_rights(
                        *old(self),
                        mv,
                    )
                    &&& final(self).inner.rights_of(opp(old(self).inner.stm)) == their_new_rights(
                        *old(self),
                        mv,
                    )
                },
                Ok(false) => *final(self) == *old(self) && !(spec_is_legal(*old(self), mv)
                    && move_sane(*old(self), mv) && move_defined(*old(self), mv)) && (old(
                    self,
                ).is_valid() ==> !(spec_is_legal(*old(self), mv) && move_sane(*old(self), mv))),
                Err(_) => *final(self) == *old(self) && !has_king(
                    old(self).inner,
                    old(self).inner.stm,
                ),
            },
    {
        if self.try_king(self.side_to_move()).is_err() {
            return Err(BoardError::InvalidBoard);
        }
        if !self.is_legal(mv) {
            return Ok(false);
        }
        if !self.move_sane_check(mv) {
            return Ok(false);
        }
        if !self.move_defined_check(mv) {
            proof {
                if self.is_valid() && spec_is_legal(*self, mv) {
                    lemma_legal_moves_are_defined(*self, mv);
                }
            }
            return Ok(false);
        }
        let r = self.try_play_unchecked(mv);
        Ok(true)
    }

    /// Play a legal move.
    pub fn play(&mut self, mv: Move)
        requires
            old(self).hash_ok(),
            placement_ok(old(self).inner),
            spec_is_legal(*old(self), mv),
            move_sane(*old(self), mv),
            move_defined(*old(self), mv),
            has_king(old(self).inner, old(self).inner.stm),
        ensures
            final(self).inner.stm == opp(old(self).inner.stm),
            final(self).hash_ok(),
            placement_ok(final(self).inner),
            final(self).checkers.0 == spec_checkers(final(self).inner, final(self).inner.stm),
            final(self).pinned.0 == spec_pinned(final(self).inner, final(self).inner.stm),
            forall|q: Piece| #[trigger] final(self).inner.pieces_bb(q) == old(
                self,
            ).inner.pieces_bb(q) ^ piece_toggle_mask(*old(self), mv, q),
            forall|c: Color| #[trigger] final(self).inner.colors_bb(c) == old(
                self,
            ).inner.colors_bb(c) ^ color_toggle_mask(*old(self), mv, c),
            final(self).inner.ep == new_ep_spec(*old(self), mv),
            final(self).halfmove_clock == new_halfmove(*old(self), mv),
            final(self).fullmove_number == new_fullmove(*old(self), mv),
    {
        match self.try_play(mv) {
            Ok(true) => (),
            _ => vstd::pervasive::unreached(),
        }
    }
}


/// A clean toggle - adding a piece to an empty square or removing the exact
/// piece a square holds - keeps the placement coherent: the piece layers
/// stay pairwise disjoint, the color layers stay disjoint, and the piece
/// layers keep covering exactly the occupied squares.
pub proof fn lemma_clean_toggle_preserves(
    a: ZobristBoard,
    b: ZobristBoard,
    piece: Piece,
    color: Color,
    sq: u64,
)
    requires
        placement_ok(a),
        sq < 64,
        a.sq_empty(sq) || a.sq_exactly(piece, color, sq),
        b.pieces_bb(piece) == a.pieces_bb(piece) ^ (1u64 << sq),
        forall|q: Piece| q != piece ==> #[trigger] b.pieces_bb(q) == a.pieces_bb(q),
        b.colors_bb(color) == a.colors_bb(color) ^ (1u64 << sq),
        b.colors_bb(opp(color)) == a.colors_bb(opp(color)),
    ensures
        placement_ok(b),
{
    lemma_bits_zero();
    lemma_toggle_bit(a.pieces_bb(piece), sq);
    lemma_toggle_bit(a.colors_bb(color), sq);
    let added = a.sq_empty(sq);
    assert forall|p: Piece, q: Piece| p != q implies #[trigger] disjoint_pair(b, p, q) by {
        assert(disjoint_pair(a, p, q));
        assert forall|j: u64| j < 64 implies !(bit(b.pieces_bb(p), j) && bit(
            b.pieces_bb(q),
            j,
        )) by {
            lemma_bit_ops(a.pieces_bb(p), a.pieces_bb(q), j);
            if j == sq {
                if added {
                    assert(!bit(a.pieces_bb(p), j) && !bit(a.pieces_bb(q), j));
                } else {
                    assert(bit(a.pieces_bb(p), j) == (p == piece));
                    assert(bit(a.pieces_bb(q), j) == (q == piece));
                }
            }
        }
        assert(b.pieces_bb(p) & b.pieces_bb(q) == 0) by {
            assert forall|j: u64| j < 64 implies bit(b.pieces_bb(p) & b.pieces_bb(q), j) == bit(
                0u64,
                j,
            ) by {
                lemma_bit_ops(b.pieces_bb(p), b.pieces_bb(q), j);
            }
            crate::bits::lemma_bit_ext(b.pieces_bb(p) & b.pieces_bb(q), 0);
        }
    }
    assert(b.white.0 & b.black.0 == 0) by {
        assert forall|j: u64| j < 64 implies bit(b.white.0 & b.black.0, j) == bit(0u64, j) by {
            lemma_bit_ops(b.white.0, b.black.0, j);
            lemma_bit_ops(a.white.0, a.black.0, j);
            if j == sq && !added {
                assert(bit(a.colors_bb(color), j));
                assert(!bit(a.colors_bb(opp(color)), j));
            }
        }
        crate::bits::lemma_bit_ext(b.white.0 & b.black.0, 0);
    }
    // Exactly the moved piece's layer and its color's layer toggle the one
    // square; every other layer keeps its word.
    assert(b.pawns.0 == (if piece == Piece::Pawn {
        a.pawns.0 ^ (1u64 << sq)
    } else {
        a.pawns.0
    })) by {
        if piece != Piece::Pawn {
            assert(b.pieces_bb(Piece::Pawn) == a.pieces_bb(Piece::Pawn));
        }
    }
    assert(b.knights.0 == (if piece == Piece::Knight {
        a.knights.0 ^ (1u64 << sq)
    } else {
        a.knights.0
    })) by {
        if piece != Piece::Knight {
            assert(b.pieces_bb(Piece::Knight) == a.pieces_bb(Piece::Knight));
        }
    }
    assert(b.bishops.0 == (if piece == Piece::Bishop {
        a.bishops.0 ^ (1u64 << sq)
    } else {
        a.bishops.0
    })) by {
        if piece != Piece::Bishop {
            assert(b.pieces_bb(Piece::Bishop) == a.pieces_bb(Piece::Bishop));
        }
    }
    assert(b.rooks.0 == (if piece == Piece::Rook {
        a.rooks.0 ^ (1u64 << sq)
    } else {
        a.rooks.0
    })) by {
        if piece != Piece::Rook {
            assert(b.pieces_bb(Piece::Rook) == a.pieces_bb(Piece::Rook));
        }
    }
    assert(b.queens.0 == (if piece == Piece::Queen {
        a.queens.0 ^ (1u64 << sq)
    } else {
        a.queens.0
    })) by {
        if piece != Piece::Queen {
            assert(b.pieces_bb(Piece::Queen) == a.pieces_bb(Piece::Queen));
        }
    }
    assert(b.kings.0 == (if piece == Piece::King {
        a.kings.0 ^ (1u64 << sq)
    } else {
        a.kings.0
    })) by {
        if piece != Piece::King {
            assert(b.pieces_bb(Piece::King) == a.pieces_bb(Piece::King));
        }
    }
    assert(b.white.0 == (if color == Color::White {
        a.white.0 ^ (1u64 << sq)
    } else {
        a.white.0
    }));
    assert(b.black.0 == (if color == Color::Black {
        a.black.0 ^ (1u64 << sq)
    } else {
        a.black.0
    }));
    lemma_toggle_bit(a.pawns.0, sq);
    lemma_toggle_bit(a.knights.0, sq);
    lemma_toggle_bit(a.bishops.0, sq);
    lemma_toggle_bit(a.rooks.0, sq);
    lemma_toggle_bit(a.queens.0, sq);
    lemma_toggle_bit(a.kings.0, sq);
    lemma_toggle_bit(a.white.0, sq);
    lemma_toggle_bit(a.black.0, sq);
    if !added {
        assert(bit(a.pieces_bb(Piece::Pawn), sq) == (Piece::Pawn == piece));
        assert(bit(a.pieces_bb(Piece::Knight), sq) == (Piece::Knight == piece));
        assert(bit(a.pieces_bb(Piece::Bishop), sq) == (Piece::Bishop == piece));
        assert(bit(a.pieces_bb(Piece::Rook), sq) == (Piece::Rook == piece));
        assert(bit(a.pieces_bb(Piece::Queen), sq) == (Piece::Queen == piece));
        assert(bit(a.pieces_bb(Piece::King), sq) == (Piece::King == piece));
    }
    assert(all_pieces_bb(b) == occupied_bb(b)) by {
        assert forall|j: u64| j < 64 implies bit(all_pieces_bb(b), j) == bit(
            occupied_bb(b),
            j,
        ) by {
            let a1 = a.pawns.0 | a.knights.0;
            let a2 = a1 | a.bishops.0;
            let a3 = a2 | a.rooks.0;
            let a4 = a3 | a.queens.0;
            lemma_bit_ops(a.pawns.0, a.knights.0, j);
            lemma_bit_ops(a1, a.bishops.0, j);
            lemma_bit_ops(a2, a.rooks.0, j);
            lemma_bit_ops(a3, a.queens.0, j);
            lemma_bit_ops(a4, a.kings.0, j);
            lemma_bit_ops(a.white.0, a.black.0, j);
            let b1 = b.pawns.0 | b.knights.0;
            let b2 = b1 | b.bishops.0;
            let b3 = b2 | b.rooks.0;
            let b4 = b3 | b.queens.0;
            lemma_bit_ops(b.pawns.0, b.knights.0, j);
            lemma_bit_ops(b1, b.bishops.0, j);
            lemma_bit_ops(b2, b.rooks.0, j);
            lemma_bit_ops(b3, b.queens.0, j);
            lemma_bit_ops(b4, b.kings.0, j);
            lemma_bit_ops(b.white.0, b.black.0, j);
        }
        crate::bits::lemma_bit_ext(all_pieces_bb(b), occupied_bb(b));
    }
}


/// On a valid board, every legal move starts from a square that holds a
/// piece of the side to move, and the opponent has a king: the update is
/// defined for it.
pub proof fn lemma_legal_moves_are_defined(b: Board, mv: Move)
    requires
        b.is_valid(),
        spec_is_legal(b, mv),
    ensures
        move_defined(b, mv),
        mv.wf(),
        b.spec_color_on(mv.from.0 as u64) == Some(b.inner.stm),
{
    lemma_bits_zero();
    crate::bits::lemma_popcount_zero();
    assert(has_king(b.inner, b.inner.stm));
    assert(has_king(b.inner, opp(b.inner.stm)));
    crate::movegen::lemma_movegen_src_ok(b);
    let k = choose|k: int|
        0 <= k < movegen_seq(b).len() && move_in_batch(#[trigger] movegen_seq(b)[k], mv);
    let pm = movegen_seq(b)[k];
    assert(crate::movegen::batch_src_ok(b, pm));
    let s = mv.from.0 as u64;
    assert(bit(b.inner.pieces_bb(pm.piece), s));
    assert(b.spec_piece_on(s) is Some) by {
        if b.spec_piece_on(s) is None {
            assert(!bit(b.inner.pieces_bb(pm.piece), s));
        }
    }
    lemma_bit_ops(b.inner.colors_bb(Color::White), b.inner.colors_bb(Color::Black), s);
    assert(b.spec_color_on(s) == Some(b.inner.stm));
}

} // verus!
