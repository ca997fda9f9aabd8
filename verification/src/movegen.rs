//! The legal move generator.
//!
//! Legality is stated as a spec-level model that mirrors the masking rules of
//! the generator: a target mask restricting destinations while in check, pin
//! restrictions along the king line, a simulated-occupancy test for
//! en-passant discovered checks, per-destination king safety, and the
//! Chess960 castling conditions. `generate_moves` returns exactly the batch
//! sequence that this model prescribes.

use vstd::prelude::*;

use crate::bitboard::BitBoard;
use crate::bits::{bit, lsb, popcount, lemma_lsb_unique, lemma_bitwise_alg};
use crate::board::{has_king, king_sq, occupied_bb, Board, BoardError, GameStatus};
use crate::moves::{
    between_bb, bishop_att, bishop_rays_bb, get_between_rays, get_bishop_moves, get_bishop_rays,
    get_king_moves, get_knight_moves, get_line_rays, get_pawn_attacks, get_pawn_quiets,
    get_rook_moves, get_rook_rays, king_bb, knight_bb, line_bb, pawn_attacks_bb, pawn_quiets_bb,
    rook_att, rook_rays_bb,
};
use crate::piece_moves::PieceMoves;
use crate::types::{opp, File, Piece, Rank, Square};
use crate::zobrist::ZobristBoard;

verus! {

/// Squares a non-king mover may land on: everything, or the check line and
/// the checker while in check; never a friendly square.
pub open spec fn target_mask(b: Board) -> u64 {
    let us = b.inner.colors_bb(b.inner.stm);
    if b.checkers.0 == 0 {
        !us
    } else {
        let checker = lsb(b.checkers.0);
        (between_bb(checker, king_sq(b.inner, b.inner.stm)) | (1u64 << checker)) & !us
    }
}

/// The pseudo-legal attack set of one piece kind from one square, before any
/// check or pin masking. Kings are handled separately.
pub open spec fn pseudo_bb(z: ZobristBoard, piece: Piece, sq: u64) -> u64 {
    let occ = occupied_bb(z);
    let color = z.stm;
    match piece {
        Piece::Pawn => pawn_quiets_bb(sq, color, occ) | (pawn_attacks_bb(sq, color) & z.colors_bb(
            opp(color),
        )),
        Piece::Knight => knight_bb(sq),
        Piece::Bishop => bishop_att(sq, occ),
        Piece::Rook => rook_att(sq, occ),
        Piece::Queen => bishop_att(sq, occ) | rook_att(sq, occ),
        Piece::King => 0u64,
    }
}

/// Legal destinations of a non-king piece on `sq`: nothing under double
/// check; pinned pieces may not move while in check and may otherwise only
/// slide along the pin line; everything is masked by the target mask.
pub open spec fn nonking_dests(b: Board, piece: Piece, sq: u64, pinned_pass: bool) -> u64 {
    if popcount(b.checkers.0) >= 2 {
        0u64
    } else if pinned_pass {
        if b.checkers.0 != 0 {
            0u64
        } else {
            pseudo_bb(b.inner, piece, sq) & target_mask(b) & line_bb(
                king_sq(b.inner, b.inner.stm),
                sq,
            )
        }
    } else {
        pseudo_bb(b.inner, piece, sq) & target_mask(b)
    }
}

/// The movers of one generator pass: our pieces of one kind, pinned or free.
pub open spec fn kind_mask(b: Board, piece: Piece, pinned_pass: bool) -> u64 {
    b.inner.pieces_bb(piece) & b.inner.colors_bb(b.inner.stm) & (if pinned_pass {
        b.pinned.0
    } else {
        !b.pinned.0
    })
}

/// The batches of one generator pass, source squares ascending, one batch
/// per mover with at least one destination.
pub open spec fn kind_batches(b: Board, piece: Piece, pinned_pass: bool, n: nat) -> Seq<PieceMoves>
    decreases n,
{
    if n == 0 {
        Seq::empty()
    } else {
        let s = (n - 1) as u64;
        let prefix = kind_batches(b, piece, pinned_pass, (n - 1) as nat);
        if bit(kind_mask(b, piece, pinned_pass), s) && nonking_dests(b, piece, s, pinned_pass)
            != 0 {
            prefix.push(
                PieceMoves {
                    piece: piece,
                    from: Square(s as u8),
                    to: BitBoard(nonking_dests(b, piece, s, pinned_pass)),
                },
            )
        } else {
            prefix
        }
    }
}

/// The en-passant destination square, when a target exists.
pub open spec fn ep_dest(b: Board) -> u64 {
    match b.inner.ep {
        Some(f) => (Rank::Sixth.rel_idx(b.inner.stm) * 8 + f.idx()) as u64,
        None => 64u64,
    }
}

/// The square of the enemy pawn an en-passant capture removes.
pub open spec fn ep_victim(b: Board) -> u64 {
    match b.inner.ep {
        Some(f) => (Rank::Fifth.rel_idx(b.inner.stm) * 8 + f.idx()) as u64,
        None => 64u64,
    }
}

/// Our pawns that could capture en passant.
pub open spec fn ep_mask(b: Board) -> u64 {
    match b.inner.ep {
        Some(f) => pawn_attacks_bb(ep_dest(b), opp(b.inner.stm)) & b.inner.pawns.0
            & b.inner.colors_bb(b.inner.stm),
        None => 0u64,
    }
}

/// The discovered-check test for an en-passant capture by the pawn on `s`:
/// with the two pawns lifted and the capturer placed on the target square, no
/// enemy bishop, rook or queen may attack our king.
pub open spec fn ep_legal(b: Board, s: u64) -> bool {
    let z = b.inner;
    let color = z.stm;
    let them = z.colors_bb(opp(color));
    let their_bishops = them & (z.bishops.0 | z.queens.0);
    let their_rooks = them & (z.rooks.0 | z.queens.0);
    let king = king_sq(z, color);
    let blockers = occupied_bb(z) ^ (1u64 << ep_victim(b)) ^ (1u64 << s) | (1u64 << ep_dest(b));
    &&& !(bishop_rays_bb(king) & their_bishops != 0 && bishop_att(king, blockers) & their_bishops
        != 0)
    &&& !(rook_rays_bb(king) & their_rooks != 0 && rook_att(king, blockers) & their_rooks != 0)
}

/// The en-passant batches: one single-destination batch per legal capturer,
/// source squares ascending.
pub open spec fn ep_batches(b: Board, n: nat) -> Seq<PieceMoves>
    decreases n,
{
    if n == 0 {
        Seq::empty()
    } else {
        let s = (n - 1) as u64;
        let prefix = ep_batches(b, (n - 1) as nat);
        if bit(ep_mask(b), s) && ep_legal(b, s) {
            prefix.push(
                PieceMoves {
                    piece: Piece::Pawn,
                    from: Square(s as u8),
                    to: BitBoard(1u64 << ep_dest(b)),
                },
            )
        } else {
            prefix
        }
    }
}

/// Would our king be safe standing on `sq`, its current square vacated?
pub open spec fn king_safe_spec(b: Board, sq: u64) -> bool {
    let z = b.inner;
    let color = z.stm;
    let them = z.colors_bb(opp(color));
    let blockers = (occupied_bb(z) ^ (z.kings.0 & z.colors_bb(color))) | (1u64 << sq);
    &&& bishop_att(sq, blockers) & them & (z.bishops.0 | z.queens.0) == 0
    &&& rook_att(sq, blockers) & them & (z.rooks.0 | z.queens.0) == 0
    &&& knight_bb(sq) & them & z.knights.0 == 0
    &&& king_bb(sq) & them & z.kings.0 == 0
    &&& pawn_attacks_bb(sq, color) & them & z.pawns.0 == 0
}

/// The king's single-step candidate squares.
pub open spec fn king_step_mask(b: Board) -> u64 {
    king_bb(king_sq(b.inner, b.inner.stm)) & !b.inner.colors_bb(b.inner.stm)
}

/// The safe single steps of the king among candidates below `n`.
pub open spec fn king_steps_fold(b: Board, n: nat) -> u64
    decreases n,
{
    if n == 0 {
        0u64
    } else {
        let s = (n - 1) as u64;
        king_steps_fold(b, (n - 1) as nat) | (if bit(king_step_mask(b), s) && king_safe_spec(b, s) {
            1u64 << s
        } else {
            0u64
        })
    }
}

/// May the side to move castle on the given wing? The castling rook is not
/// pinned, the squares the king and rook cross or reach are empty, and every
/// square the king crosses or reaches is safe.
pub open spec fn castle_ok(b: Board, short: bool) -> bool {
    let z = b.inner;
    let color = z.stm;
    let rights = z.rights_of(color);
    match (if short {
        rights.short
    } else {
        rights.long
    }) {
        Some(f) => {
            let back = Rank::First.rel_idx(color);
            let king = king_sq(z, color);
            let rook = (back * 8 + f.idx()) as u64;
            let kdest = (back * 8 + (if short {
                6u64
            } else {
                2u64
            })) as u64;
            let rdest = (back * 8 + (if short {
                5u64
            } else {
                3u64
            })) as u64;
            let blockers = (occupied_bb(z) ^ (1u64 << king)) ^ (1u64 << rook);
            let must_be_safe = between_bb(king, kdest) | (1u64 << kdest);
            let must_be_empty = must_be_safe | between_bb(king, rook) | (1u64 << rdest);
            &&& !bit(b.pinned.0, rook)
            &&& blockers & must_be_empty == 0
            &&& forall|t: u64| t < 64 && bit(must_be_safe, t) ==> king_safe_spec(b, t)
        },
        None => false,
    }
}

/// The castling destination encoded as the rook's square, when the wing is
/// available; zero otherwise. Castling requires not being in check.
pub open spec fn castle_bit(b: Board, short: bool) -> u64 {
    let z = b.inner;
    let rights = z.rights_of(z.stm);
    let back = Rank::First.rel_idx(z.stm);
    match (if short {
        rights.short
    } else {
        rights.long
    }) {
        Some(f) => if b.checkers.0 == 0 && castle_ok(b, short) {
            1u64 << ((back * 8 + f.idx()) as u64)
        } else {
            0u64
        },
        None => 0u64,
    }
}

/// Every legal king destination: safe steps plus the castling rook squares.
pub open spec fn king_dests(b: Board) -> u64 {
    king_steps_fold(b, 64) | castle_bit(b, true) | castle_bit(b, false)
}

/// The king's batch: at most one, carrying all its destinations.
pub open spec fn king_batches(b: Board) -> Seq<PieceMoves> {
    if king_dests(b) != 0 {
        seq![
            PieceMoves {
                piece: Piece::King,
                from: Square(king_sq(b.inner, b.inner.stm) as u8),
                to: BitBoard(king_dests(b)),
            },
        ]
    } else {
        Seq::empty()
    }
}

/// The exact batch sequence the generator produces: under double check only
/// the king moves; otherwise pawns (free, pinned, en passant), knights,
/// bishops, rooks and queens (free then pinned), then the king.
pub open spec fn movegen_seq(b: Board) -> Seq<PieceMoves> {
    if popcount(b.checkers.0) >= 2 {
        king_batches(b)
    } else {
        kind_batches(b, Piece::Pawn, false, 64) + kind_batches(b, Piece::Pawn, true, 64)
            + ep_batches(b, 64) + kind_batches(b, Piece::Knight, false, 64) + kind_batches(
            b,
            Piece::Bishop,
            false,
            64,
        ) + kind_batches(b, Piece::Bishop, true, 64) + kind_batches(b, Piece::Rook, false, 64)
            + kind_batches(b, Piece::Rook, true, 64) + kind_batches(b, Piece::Queen, false, 64)
            + kind_batches(b, Piece::Queen, true, 64) + king_batches(b)
    }
}

impl Board {
    fn target_squares(&self) -> (r: BitBoard)
        requires
            has_king(self.inner, self.inner.stm),
        ensures
            r.0 == target_mask(*self),
    {
        let us = self.colors(self.side_to_move());
        if self.checkers.is_empty() {
            BitBoard(!us.0)
        } else {
            match self.checkers.next_square() {
                Some(checker) => {
                    proof {
                        lemma_lsb_unique(self.checkers.0, checker.0 as u64);
                    }
                    let our_king = self.king(self.side_to_move());
                    BitBoard(
                        (get_between_rays(checker, our_king).0 | (1u64 << checker.0)) & !us.0,
                    )
                },
                None => vstd::pervasive::unreached(),
            }
        }
    }

    /// Would the king of the side to move be safe standing on `square`, with
    /// its current square vacated?
    pub fn king_safe_on(&self, square: Square) -> (r: bool)
        requires
            square.wf(),
        ensures
            r == king_safe_spec(*self, square.0 as u64),
    {
        let z = self.inner;
        let color = self.side_to_move();
        let them = self.colors(color.other());
        let blockers = BitBoard(
            (self.occupied().0 ^ (z.kings.0 & self.colors(color).0)) | (1u64 << square.0),
        );
        if get_bishop_moves(square, blockers).0 & them.0 & (z.bishops.0 | z.queens.0) != 0 {
            return false;
        }
        if get_rook_moves(square, blockers).0 & them.0 & (z.rooks.0 | z.queens.0) != 0 {
            return false;
        }
        if get_knight_moves(square).0 & them.0 & z.knights.0 != 0 {
            return false;
        }
        if get_king_moves(square).0 & them.0 & z.kings.0 != 0 {
            return false;
        }
        if get_pawn_attacks(square, color).0 & them.0 & z.pawns.0 != 0 {
            return false;
        }
        true
    }

    fn pseudo_moves(&self, piece: Piece, sq: Square) -> (r: BitBoard)
        requires
            sq.wf(),
        ensures
            r.0 == pseudo_bb(self.inner, piece, sq.0 as u64),
    {
        let occ = self.occupied();
        let color = self.side_to_move();
        match piece {
            Piece::Pawn => {
                let quiets = get_pawn_quiets(sq, color, occ);
                let caps = get_pawn_attacks(sq, color).0 & self.colors(color.other()).0;
                BitBoard(quiets.0 | caps)
            },
            Piece::Knight => get_knight_moves(sq),
            Piece::Bishop => get_bishop_moves(sq, occ),
            Piece::Rook => get_rook_moves(sq, occ),
            Piece::Queen => BitBoard(get_bishop_moves(sq, occ).0 | get_rook_moves(sq, occ).0),
            Piece::King => BitBoard(0),
        }
    }

    fn nonking_dests_on(&self, piece: Piece, sq: Square, pinned_pass: bool) -> (r: BitBoard)
        requires
            sq.wf(),
            has_king(self.inner, self.inner.stm),
        ensures
            r.0 == nonking_dests(*self, piece, sq.0 as u64, pinned_pass),
    {
        if self.checkers.popcnt() >= 2 {
            BitBoard(0)
        } else if pinned_pass {
            if !self.checkers.is_empty() {
                BitBoard(0)
            } else {
                let our_king = self.king(self.side_to_move());
                BitBoard(
                    self.pseudo_moves(piece, sq).0 & self.target_squares().0 & get_line_rays(
                        our_king,
                        sq,
                    ).0,
                )
            }
        } else {
            BitBoard(self.pseudo_moves(piece, sq).0 & self.target_squares().0)
        }
    }

    fn add_kind_batches(&self, piece: Piece, pinned_pass: bool, out: &mut Vec<PieceMoves>)
        requires
            has_king(self.inner, self.inner.stm),
        ensures
            final(out)@ == old(out)@ + kind_batches(*self, piece, pinned_pass, 64),
    {
        let ours = self.colors(self.side_to_move());
        let pin_filter: u64 = if pinned_pass {
            self.pinned.0
        } else {
            !self.pinned.0
        };
        let mask = self.pieces(piece).0 & ours.0 & pin_filter;
        let sqs = BitBoard(mask).squares();
        let ghost mut cut: u64 = 0;
        let ghost base = out@;
        proof {
            crate::bits::lemma_popcount_below_bound(mask, 64);
        }
        let mut k: usize = 0;
        while k < sqs.len()
            invariant
                has_king(self.inner, self.inner.stm),
                mask == kind_mask(*self, piece, pinned_pass),
                sqs@.len() <= 64,
                forall|k2: int| 0 <= k2 < sqs@.len() ==> (#[trigger] sqs@[k2]).wf() && bit(
                    mask,
                    sqs@[k2].0 as u64,
                ),
                forall|k1: int, k2: int| 0 <= k1 < k2 < sqs@.len() ==> sqs@[k1].0 < sqs@[k2].0,
                forall|i: u64| i < 64 && bit(mask, i) ==> exists|k2: int|
                    0 <= k2 < sqs@.len() && (#[trigger] sqs@[k2]).0 == i,
                k <= sqs@.len(),
                cut <= 64,
                out@ == base + kind_batches(*self, piece, pinned_pass, cut as nat),
                forall|k2: int| k <= k2 < sqs@.len() ==> (#[trigger] sqs@[k2]).0 >= cut,
                forall|k2: int| 0 <= k2 < k ==> (#[trigger] sqs@[k2]).0 < cut,
            decreases sqs@.len() - k,
        {
            let sq = sqs[k];
            let j = sq.0 as u64;
            proof {
                assert forall|i: u64| cut <= i < j implies !bit(mask, i) by {
                    if bit(mask, i) {
                        let k2 = choose|k2: int|
                            0 <= k2 < sqs@.len() && (#[trigger] sqs@[k2]).0 == i;
                        if k2 < k {
                            assert(sqs@[k2].0 < cut);
                        } else {
                            assert(sqs@[k2].0 >= sqs@[k as int].0);
                        }
                        assert(false);
                    }
                }
                lemma_kind_batches_skip(*self, piece, pinned_pass, cut as nat, j as nat);
            }
            let dests = self.nonking_dests_on(piece, sq, pinned_pass);
            let ghost before = out@;
            if !dests.is_empty() {
                out.push(PieceMoves { piece, from: sq, to: dests });
            }
            proof {
                let stepped = kind_batches(*self, piece, pinned_pass, (j + 1) as nat);
                assert(stepped == if bit(kind_mask(*self, piece, pinned_pass), j)
                    && nonking_dests(*self, piece, j, pinned_pass) != 0 {
                    kind_batches(*self, piece, pinned_pass, j as nat).push(
                        PieceMoves {
                            piece: piece,
                            from: Square(j as u8),
                            to: BitBoard(nonking_dests(*self, piece, j, pinned_pass)),
                        },
                    )
                } else {
                    kind_batches(*self, piece, pinned_pass, j as nat)
                });
                if nonking_dests(*self, piece, j, pinned_pass) != 0 {
                    assert(out@ =~= base + stepped);
                } else {
                    assert(out@ =~= base + stepped);
                }
                cut = (j + 1) as u64;
            }
            k = k + 1;
        }
        proof {
            assert forall|i: u64| cut <= i < 64 implies !bit(mask, i) by {
                if bit(mask, i) {
                    let k2 = choose|k2: int| 0 <= k2 < sqs@.len() && (#[trigger] sqs@[k2]).0 == i;
                    assert(sqs@[k2].0 < cut);
                    assert(false);
                }
            }
            lemma_kind_batches_skip(*self, piece, pinned_pass, cut as nat, 64);
        }
    }

    fn add_ep_batches(&self, out: &mut Vec<PieceMoves>)
        requires
            has_king(self.inner, self.inner.stm),
        ensures
            final(out)@ == old(out)@ + ep_batches(*self, 64),
    {
        let z = self.inner;
        let color = self.side_to_move();
        let ep_file = match z.ep {
            None => {
                proof {
                    lemma_ep_batches_none(*self, 64);
                }
                return ;
            },
            Some(f) => f,
        };
        let dest = Square::new(ep_file, Rank::Sixth.relative_to(color));
        let victim = Square::new(ep_file, Rank::Fifth.relative_to(color));
        let mask = get_pawn_attacks(dest, color.other()).0 & z.pawns.0 & self.colors(color).0;
        let sqs = BitBoard(mask).squares();
        let ghost mut cut: u64 = 0;
        let ghost base = out@;
        proof {
            crate::bits::lemma_popcount_below_bound(mask, 64);
        }
        let mut k: usize = 0;
        while k < sqs.len()
            invariant
                has_king(self.inner, self.inner.stm),
                self.inner.ep is Some,
                color == self.inner.stm,
                z == self.inner,
                mask == ep_mask(*self),
                dest.wf(),
                dest.0 as u64 == ep_dest(*self),
                victim.wf(),
                victim.0 as u64 == ep_victim(*self),
                sqs@.len() <= 64,
                forall|k2: int| 0 <= k2 < sqs@.len() ==> (#[trigger] sqs@[k2]).wf() && bit(
                    mask,
                    sqs@[k2].0 as u64,
                ),
                forall|k1: int, k2: int| 0 <= k1 < k2 < sqs@.len() ==> sqs@[k1].0 < sqs@[k2].0,
                forall|i: u64| i < 64 && bit(mask, i) ==> exists|k2: int|
                    0 <= k2 < sqs@.len() && (#[trigger] sqs@[k2]).0 == i,
                k <= sqs@.len(),
                cut <= 64,
                out@ == base + ep_batches(*self, cut as nat),
                forall|k2: int| k <= k2 < sqs@.len() ==> (#[trigger] sqs@[k2]).0 >= cut,
                forall|k2: int| 0 <= k2 < k ==> (#[trigger] sqs@[k2]).0 < cut,
            decreases sqs@.len() - k,
        {
            let sq = sqs[k];
            let j = sq.0 as u64;
            proof {
                assert forall|i: u64| cut <= i < j implies !bit(mask, i) by {
                    if bit(mask, i) {
                        let k2 = choose|k2: int|
                            0 <= k2 < sqs@.len() && (#[trigger] sqs@[k2]).0 == i;
                        if k2 < k {
                            assert(sqs@[k2].0 < cut);
                        } else {
                            assert(sqs@[k2].0 >= sqs@[k as int].0);
                        }
                        assert(false);
                    }
                }
                lemma_ep_batches_skip(*self, cut as nat, j as nat);
            }
            // Simulate the capture and test for a discovered slider check.
            let our_king = self.king(color);
            let them = self.colors(color.other());
            let their_bishops = them.0 & (z.bishops.0 | z.queens.0);
            let their_rooks = them.0 & (z.rooks.0 | z.queens.0);
            let blockers = BitBoard(
                self.occupied().0 ^ (1u64 << victim.0) ^ (1u64 << sq.0) | (1u64 << dest.0),
            );
            let mut legal = true;
            if get_bishop_rays(our_king).0 & their_bishops != 0 {
                if get_bishop_moves(our_king, blockers).0 & their_bishops != 0 {
                    legal = false;
                }
            }
            if legal && get_rook_rays(our_king).0 & their_rooks != 0 {
                if get_rook_moves(our_king, blockers).0 & their_rooks != 0 {
                    legal = false;
                }
            }
            assert(legal == ep_legal(*self, j));
            let ghost before = out@;
            if legal {
                out.push(PieceMoves { piece: Piece::Pawn, from: sq, to: dest.bitboard() });
            }
            proof {
                assert(out@ =~= base + ep_batches(*self, (j + 1) as nat));
                cut = (j + 1) as u64;
            }
            k = k + 1;
        }
        proof {
            assert forall|i: u64| cut <= i < 64 implies !bit(mask, i) by {
                if bit(mask, i) {
                    let k2 = choose|k2: int| 0 <= k2 < sqs@.len() && (#[trigger] sqs@[k2]).0 == i;
                    assert(sqs@[k2].0 < cut);
                    assert(false);
                }
            }
            lemma_ep_batches_skip(*self, cut as nat, 64);
        }
    }

    fn castle_wing_ok(&self, short: bool) -> (r: bool)
        requires
            has_king(self.inner, self.inner.stm),
        ensures
            r == castle_ok(*self, short),
    {
        let z = self.inner;
        let color = self.side_to_move();
        let rights = self.castle_rights(color);
        let file = if short {
            rights.short
        } else {
            rights.long
        };
        match file {
            None => false,
            Some(f) => {
                let back = Rank::First.relative_to(color);
                let our_king = self.king(color);
                let rook = Square::new(f, back);
                let kdest = Square::new(
                    if short {
                        File::G
                    } else {
                        File::C
                    },
                    back,
                );
                let rdest = Square::new(
                    if short {
                        File::F
                    } else {
                        File::D
                    },
                    back,
                );
                let blockers = (self.occupied().0 ^ (1u64 << our_king.0)) ^ (1u64 << rook.0);
                let must_be_safe = get_between_rays(our_king, kdest).0 | (1u64 << kdest.0);
                let must_be_empty = must_be_safe | get_between_rays(our_king, rook).0 | (1u64
                    << rdest.0);
                if self.pinned.has(rook) {
                    return false;
                }
                if blockers & must_be_empty != 0 {
                    return false;
                }
                let safe_sqs = BitBoard(must_be_safe).squares();
                proof {
                    assert(castle_ok(*self, short) == (forall|t: u64|
                        t < 64 && bit(must_be_safe, t) ==> #[trigger] king_safe_spec(*self, t)));
                }
                let mut k: usize = 0;
                while k < safe_sqs.len()
                    invariant
                        castle_ok(*self, short) == (forall|t: u64|
                            t < 64 && bit(must_be_safe, t) ==> #[trigger] king_safe_spec(
                                *self,
                                t,
                            )),
                        forall|k2: int| 0 <= k2 < safe_sqs@.len() ==> (#[trigger] safe_sqs@[k2]).wf()
                            && bit(must_be_safe, safe_sqs@[k2].0 as u64),
                        forall|i: u64| i < 64 && bit(must_be_safe, i) ==> exists|k2: int|
                            0 <= k2 < safe_sqs@.len() && (#[trigger] safe_sqs@[k2]).0 == i,
                        k <= safe_sqs@.len(),
                        forall|k2: int| 0 <= k2 < k ==> king_safe_spec(
                            *self,
                            (#[trigger] safe_sqs@[k2]).0 as u64,
                        ),
                    decreases safe_sqs@.len() - k,
                {
                    let t = safe_sqs[k];
                    if !self.king_safe_on(t) {
                        proof {
                            assert(bit(must_be_safe, t.0 as u64) && !king_safe_spec(
                                *self,
                                t.0 as u64,
                            ));
                        }
                        return false;
                    }
                    k = k + 1;
                }
                proof {
                    assert forall|t: u64| t < 64 && bit(must_be_safe, t) implies king_safe_spec(
                        *self,
                        t,
                    ) by {
                        let k2 = choose|k2: int|
                            0 <= k2 < safe_sqs@.len() && (#[trigger] safe_sqs@[k2]).0 == t;
                        assert(king_safe_spec(*self, safe_sqs@[k2].0 as u64));
                    }
                }
                true
            },
        }
    }

    fn add_king_batches(&self, out: &mut Vec<PieceMoves>)
        requires
            has_king(self.inner, self.inner.stm),
        ensures
            final(out)@ == old(out)@ + king_batches(*self),
    {
        let color = self.side_to_move();
        let our_king = self.king(color);
        let step_mask = get_king_moves(our_king).0 & !self.colors(color).0;
        let sqs = BitBoard(step_mask).squares();
        let mut steps: u64 = 0;
        let ghost mut cut: u64 = 0;
        proof {
            crate::bits::lemma_popcount_below_bound(step_mask, 64);
            lemma_bitwise_alg();
        }
        let mut k: usize = 0;
        while k < sqs.len()
            invariant
                has_king(self.inner, self.inner.stm),
                step_mask == king_step_mask(*self),
                sqs@.len() <= 64,
                forall|k2: int| 0 <= k2 < sqs@.len() ==> (#[trigger] sqs@[k2]).wf() && bit(
                    step_mask,
                    sqs@[k2].0 as u64,
                ),
                forall|k1: int, k2: int| 0 <= k1 < k2 < sqs@.len() ==> sqs@[k1].0 < sqs@[k2].0,
                forall|i: u64| i < 64 && bit(step_mask, i) ==> exists|k2: int|
                    0 <= k2 < sqs@.len() && (#[trigger] sqs@[k2]).0 == i,
                k <= sqs@.len(),
                cut <= 64,
                steps == king_steps_fold(*self, cut as nat),
                forall|k2: int| k <= k2 < sqs@.len() ==> (#[trigger] sqs@[k2]).0 >= cut,
                forall|k2: int| 0 <= k2 < k ==> (#[trigger] sqs@[k2]).0 < cut,
            decreases sqs@.len() - k,
        {
            let sq = sqs[k];
            let j = sq.0 as u64;
            proof {
                lemma_bitwise_alg();
                assert forall|i: u64| cut <= i < j implies !bit(step_mask, i) by {
                    if bit(step_mask, i) {
                        let k2 = choose|k2: int|
                            0 <= k2 < sqs@.len() && (#[trigger] sqs@[k2]).0 == i;
                        if k2 < k {
                            assert(sqs@[k2].0 < cut);
                        } else {
                            assert(sqs@[k2].0 >= sqs@[k as int].0);
                        }
                        assert(false);
                    }
                }
                lemma_king_steps_skip(*self, cut as nat, j as nat);
            }
            if self.king_safe_on(sq) {
                steps = steps | (1u64 << sq.0);
            }
            proof {
                cut = (j + 1) as u64;
            }
            k = k + 1;
        }
        proof {
            assert forall|i: u64| cut <= i < 64 implies !bit(step_mask, i) by {
                if bit(step_mask, i) {
                    let k2 = choose|k2: int| 0 <= k2 < sqs@.len() && (#[trigger] sqs@[k2]).0 == i;
                    assert(sqs@[k2].0 < cut);
                    assert(false);
                }
            }
            lemma_king_steps_skip(*self, cut as nat, 64);
        }
        let mut dests = steps;
        if self.checkers.is_empty() {
            let rights = self.castle_rights(color);
            let back = Rank::First.relative_to(color);
            if let Some(f) = rights.short {
                if self.castle_wing_ok(true) {
                    let rook = Square::new(f, back);
                    dests = dests | (1u64 << rook.0);
                } else {
                    proof {
                        lemma_bitwise_alg();
                    }
                }
            }
            if let Some(f) = rights.long {
                if self.castle_wing_ok(false) {
                    let rook = Square::new(f, back);
                    dests = dests | (1u64 << rook.0);
                } else {
                    proof {
                        lemma_bitwise_alg();
                    }
                }
            }
        }
        proof {
            lemma_bitwise_alg();
            assert(dests == king_dests(*self));
        }
        if dests != 0 {
            out.push(PieceMoves { piece: Piece::King, from: our_king, to: BitBoard(dests) });
        }
        proof {
            if dests != 0 {
                assert(out@ =~= old(out)@ + king_batches(*self));
            } else {
                assert(out@ =~= old(out)@ + king_batches(*self));
            }
        }
    }

    /// Generate the legal moves of the side to move as compact batches. The
    /// side to move must have a king; see `try_generate_moves` for the
    /// checked variant.
    pub fn generate_moves(&self) -> (r: Vec<PieceMoves>)
        requires
            has_king(self.inner, self.inner.stm),
        ensures
            r@ == movegen_seq(*self),
    {
        let mut out: Vec<PieceMoves> = Vec::new();
        if self.checkers.popcnt() >= 2 {
            self.add_king_batches(&mut out);
        } else {
            self.add_kind_batches(Piece::Pawn, false, &mut out);
            self.add_kind_batches(Piece::Pawn, true, &mut out);
            self.add_ep_batches(&mut out);
            self.add_kind_batches(Piece::Knight, false, &mut out);
            self.add_kind_batches(Piece::Bishop, false, &mut out);
            self.add_kind_batches(Piece::Bishop, true, &mut out);
            self.add_kind_batches(Piece::Rook, false, &mut out);
            self.add_kind_batches(Piece::Rook, true, &mut out);
            self.add_kind_batches(Piece::Queen, false, &mut out);
            self.add_kind_batches(Piece::Queen, true, &mut out);
            self.add_king_batches(&mut out);
            proof {
                assert(out@ =~= movegen_seq(*self));
            }
        }
        out
    }

    /// Generate the legal moves, or report an invalid board when the side to
    /// move has no king.
    pub fn try_generate_moves(&self) -> (r: Result<Vec<PieceMoves>, BoardError>)
        ensures
            match r {
                Ok(v) => has_king(self.inner, self.inner.stm) && v@ == movegen_seq(*self),
                Err(_) => !has_king(self.inner, self.inner.stm),
            },
    {
        match self.try_king(self.side_to_move()) {
            Ok(_) => Ok(self.generate_moves()),
            Err(e) => Err(e),
        }
    }
}

proof fn lemma_kind_batches_skip(b: Board, piece: Piece, pinned_pass: bool, m: nat, n: nat)
    requires
        m <= n <= 64,
        forall|j: u64| m <= j < n ==> !bit(kind_mask(b, piece, pinned_pass), j),
    ensures
        kind_batches(b, piece, pinned_pass, n) == kind_batches(b, piece, pinned_pass, m),
    decreases n - m,
{
    if n > m {
        lemma_kind_batches_skip(b, piece, pinned_pass, m, (n - 1) as nat);
    }
}

proof fn lemma_ep_batches_skip(b: Board, m: nat, n: nat)
    requires
        m <= n <= 64,
        forall|j: u64| m <= j < n ==> !bit(ep_mask(b), j),
    ensures
        ep_batches(b, n) == ep_batches(b, m),
    decreases n - m,
{
    if n > m {
        lemma_ep_batches_skip(b, m, (n - 1) as nat);
    }
}

proof fn lemma_ep_batches_none(b: Board, n: nat)
    requires
        b.inner.ep is None,
    ensures
        ep_batches(b, n) == Seq::<PieceMoves>::empty(),
    decreases n,
{
    crate::bits::lemma_popcount_zero();
    if n > 0 {
        lemma_ep_batches_none(b, (n - 1) as nat);
        assert(forall|j: u64| !(#[trigger] bit(0u64, j))) by (bit_vector);
    }
}

proof fn lemma_king_steps_skip(b: Board, m: nat, n: nat)
    requires
        m <= n <= 64,
        forall|j: u64| m <= j < n ==> !bit(king_step_mask(b), j),
    ensures
        king_steps_fold(b, n) == king_steps_fold(b, m),
    decreases n - m,
{
    lemma_bitwise_alg();
    if n > m {
        lemma_king_steps_skip(b, m, (n - 1) as nat);
    }
}


/// The status of the game: drawn once the halfmove clock reaches 100,
/// ongoing while a legal move exists, otherwise stalemate or checkmate.
pub open spec fn spec_status(b: Board) -> GameStatus {
    if b.halfmove_clock >= 100 {
        GameStatus::Drawn
    } else if movegen_seq(b).len() != 0 {
        GameStatus::Ongoing
    } else if b.checkers.0 == 0 {
        GameStatus::Drawn
    } else {
        GameStatus::Won
    }
}

impl Board {
    /// Get the status of the game. Threefold repetition and insufficient
    /// material are not detected. When the game is won, the loser is the
    /// side to move.
    pub fn status(&self) -> (r: GameStatus)
        requires
            has_king(self.inner, self.inner.stm),
        ensures
            r == spec_status(*self),
    {
        if self.halfmove_clock >= 100 {
            GameStatus::Drawn
        } else {
            let batches = self.generate_moves();
            if batches.len() > 0 {
                GameStatus::Ongoing
            } else if self.checkers.is_empty() {
                GameStatus::Drawn
            } else {
                GameStatus::Won
            }
        }
    }
}


/// A generated batch names a source square that holds a piece of its kind
/// and of the side to move.
pub open spec fn batch_src_ok(b: Board, pm: PieceMoves) -> bool {
    &&& pm.from.0 < 64
    &&& bit(b.inner.pieces_bb(pm.piece), pm.from.0 as u64)
    &&& bit(b.inner.colors_bb(b.inner.stm), pm.from.0 as u64)
}

proof fn lemma_kind_batches_src(b: Board, piece: Piece, pinned_pass: bool, n: nat)
    requires
        n <= 64,
    ensures
        forall|k: int| 0 <= k < kind_batches(b, piece, pinned_pass, n).len() ==> batch_src_ok(
            b,
            #[trigger] kind_batches(b, piece, pinned_pass, n)[k],
        ),
    decreases n,
{
    if n > 0 {
        lemma_kind_batches_src(b, piece, pinned_pass, (n - 1) as nat);
        let s = (n - 1) as u64;
        let prefix = kind_batches(b, piece, pinned_pass, (n - 1) as nat);
        let cur = kind_batches(b, piece, pinned_pass, n);
        if bit(kind_mask(b, piece, pinned_pass), s) && nonking_dests(b, piece, s, pinned_pass)
            != 0 {
            crate::bits::lemma_bit_ops(
                b.inner.pieces_bb(piece) & b.inner.colors_bb(b.inner.stm),
                if pinned_pass {
                    b.pinned.0
                } else {
                    !b.pinned.0
                },
                s,
            );
            crate::bits::lemma_bit_ops(
                b.inner.pieces_bb(piece),
                b.inner.colors_bb(b.inner.stm),
                s,
            );
            assert forall|k: int| 0 <= k < cur.len() implies batch_src_ok(
                b,
                #[trigger] cur[k],
            ) by {
                if k < prefix.len() {
                    assert(cur[k] == prefix[k]);
                } else {
                    assert(cur[k] == PieceMoves {
                        piece: piece,
                        from: Square(s as u8),
                        to: BitBoard(nonking_dests(b, piece, s, pinned_pass)),
                    });
                }
            }
        }
    }
}

proof fn lemma_ep_batches_src(b: Board, n: nat)
    requires
        n <= 64,
    ensures
        forall|k: int| 0 <= k < ep_batches(b, n).len() ==> batch_src_ok(
            b,
            #[trigger] ep_batches(b, n)[k],
        ),
    decreases n,
{
    if n > 0 {
        lemma_ep_batches_src(b, (n - 1) as nat);
        let s = (n - 1) as u64;
        let prefix = ep_batches(b, (n - 1) as nat);
        let cur = ep_batches(b, n);
        if bit(ep_mask(b), s) && ep_legal(b, s) {
            match b.inner.ep {
                Some(f) => {
                    crate::bits::lemma_bit_ops(
                        pawn_attacks_bb(ep_dest(b), opp(b.inner.stm)) & b.inner.pawns.0,
                        b.inner.colors_bb(b.inner.stm),
                        s,
                    );
                    crate::bits::lemma_bit_ops(
                        pawn_attacks_bb(ep_dest(b), opp(b.inner.stm)),
                        b.inner.pawns.0,
                        s,
                    );
                },
                None => {
                    crate::bits::lemma_bits_zero();
                },
            }
            assert(bit(b.inner.pieces_bb(Piece::Pawn), s) && bit(
                b.inner.colors_bb(b.inner.stm),
                s,
            ));
            assert forall|k: int| 0 <= k < cur.len() implies batch_src_ok(
                b,
                #[trigger] cur[k],
            ) by {
                if k < prefix.len() {
                    assert(cur[k] == prefix[k]);
                } else {
                    assert(cur[k] == PieceMoves {
                        piece: Piece::Pawn,
                        from: Square(s as u8),
                        to: BitBoard(1u64 << ep_dest(b)),
                    });
                }
            }
        }
    }
}

proof fn lemma_king_batches_src(b: Board)
    requires
        has_king(b.inner, b.inner.stm),
    ensures
        forall|k: int| 0 <= k < king_batches(b).len() ==> batch_src_ok(
            b,
            #[trigger] king_batches(b)[k],
        ),
{
    crate::bits::lemma_lsb_exists(b.inner.kings.0 & b.inner.colors_bb(b.inner.stm));
    let kt = king_sq(b.inner, b.inner.stm);
    crate::bits::lemma_bit_ops(b.inner.kings.0, b.inner.colors_bb(b.inner.stm), kt);
}

/// Every generated batch names a source square holding a piece of its kind
/// and color.
pub proof fn lemma_movegen_src_ok(b: Board)
    requires
        has_king(b.inner, b.inner.stm),
    ensures
        forall|k: int| 0 <= k < movegen_seq(b).len() ==> batch_src_ok(
            b,
            #[trigger] movegen_seq(b)[k],
        ),
{
    lemma_king_batches_src(b);
    if popcount(b.checkers.0) >= 2 {
    } else {
        lemma_kind_batches_src(b, Piece::Pawn, false, 64);
        lemma_kind_batches_src(b, Piece::Pawn, true, 64);
        lemma_ep_batches_src(b, 64);
        lemma_kind_batches_src(b, Piece::Knight, false, 64);
        lemma_kind_batches_src(b, Piece::Bishop, false, 64);
        lemma_kind_batches_src(b, Piece::Bishop, true, 64);
        lemma_kind_batches_src(b, Piece::Rook, false, 64);
        lemma_kind_batches_src(b, Piece::Rook, true, 64);
        lemma_kind_batches_src(b, Piece::Queen, false, 64);
        lemma_kind_batches_src(b, Piece::Queen, true, 64);
        let s1 = kind_batches(b, Piece::Pawn, false, 64);
        let s2 = kind_batches(b, Piece::Pawn, true, 64);
        let s3 = ep_batches(b, 64);
        let s4 = kind_batches(b, Piece::Knight, false, 64);
        let s5 = kind_batches(b, Piece::Bishop, false, 64);
        let s6 = kind_batches(b, Piece::Bishop, true, 64);
        let s7 = kind_batches(b, Piece::Rook, false, 64);
        let s8 = kind_batches(b, Piece::Rook, true, 64);
        let s9 = kind_batches(b, Piece::Queen, false, 64);
        let s10 = kind_batches(b, Piece::Queen, true, 64);
        let sk = king_batches(b);
        assert forall|k: int| 0 <= k < movegen_seq(b).len() implies batch_src_ok(
            b,
            #[trigger] movegen_seq(b)[k],
        ) by {
            let n1 = s1.len();
            let n2 = n1 + s2.len();
            let n3 = n2 + s3.len();
            let n4 = n3 + s4.len();
            let n5 = n4 + s5.len();
            let n6 = n5 + s6.len();
            let n7 = n6 + s7.len();
            let n8 = n7 + s8.len();
            let n9 = n8 + s9.len();
            let n10 = n9 + s10.len();
            if k < n1 {
                assert(movegen_seq(b)[k] == s1[k]);
            } else if k < n2 {
                assert(movegen_seq(b)[k] == s2[k - n1]);
            } else if k < n3 {
                assert(movegen_seq(b)[k] == s3[k - n2]);
            } else if k < n4 {
                assert(movegen_seq(b)[k] == s4[k - n3]);
            } else if k < n5 {
                assert(movegen_seq(b)[k] == s5[k - n4]);
            } else if k < n6 {
                assert(movegen_seq(b)[k] == s6[k - n5]);
            } else if k < n7 {
                assert(movegen_seq(b)[k] == s7[k - n6]);
            } else if k < n8 {
                assert(movegen_seq(b)[k] == s8[k - n7]);
            } else if k < n9 {
                assert(movegen_seq(b)[k] == s9[k - n8]);
            } else if k < n10 {
                assert(movegen_seq(b)[k] == s10[k - n9]);
            } else {
                assert(movegen_seq(b)[k] == sk[k - n10]);
            }
        }
    }
}

} // verus!
