//! A board builder: loose position fields that can be assembled into a
//! validated [`Board`].

use vstd::prelude::*;

use crate::bitboard::BitBoard;
use crate::bits::{bit, lemma_toggle_bit};
use crate::board::Board;
use crate::play::{lemma_empty_from_bits, lemma_square_state};
use crate::types::{file_from_idx, CastleRights, Color, Piece, Rank, Square};
use crate::zobrist::ZobristBoard;

verus! {

/// A builder entry and a placement agree on a square: the entry's piece and
/// color stand there exactly, or the square is empty.
pub open spec fn square_matches(z: ZobristBoard, entry: Option<(Piece, Color)>, s: u64) -> bool {
    match entry {
        Some((p, c)) => z.sq_exactly(p, c, s),
        None => z.sq_empty(s),
    }
}

/// An error while building a board.
#[derive(Debug, Clone, Copy, PartialEq, Eq, Structural)]
pub enum BoardBuilderError {
    InvalidBoard,
    InvalidSideToMove,
    InvalidCastlingRights,
    InvalidEnPassant,
    InvalidHalfMoveClock,
    InvalidFullmoveNumber,
}

/// A board builder to manipulate arbitrary boards.
#[derive(Debug, Clone, PartialEq, Eq)]
pub struct BoardBuilder {
    pub board: Vec<Option<(Piece, Color)>>,
    pub side_to_move: Color,
    pub white_rights: CastleRights,
    pub black_rights: CastleRights,
    pub en_passant: Option<Square>,
    pub halfmove_clock: u8,
    pub fullmove_number: u16,
}

impl BoardBuilder {
    /// One entry per square.
    pub open spec fn wf(self) -> bool {
        self.board@.len() == 64
    }

    /// Get an empty builder: no pieces, white to move, no castle rights, no
    /// en passant, zero halfmove clock, fullmove number one.
    pub fn empty() -> (r: BoardBuilder)
        ensures
            r.wf(),
            forall|k: int| 0 <= k < 64 ==> (#[trigger] r.board@[k]) is None,
            r.side_to_move == Color::White,
            r.white_rights.short is None && r.white_rights.long is None,
            r.black_rights.short is None && r.black_rights.long is None,
            r.en_passant is None,
            r.halfmove_clock == 0,
            r.fullmove_number == 1,
    {
        let mut board: Vec<Option<(Piece, Color)>> = Vec::new();
        let mut i: usize = 0;
        while i < 64
            invariant
                i <= 64,
                board@.len() == i,
                forall|k: int| 0 <= k < i ==> (#[trigger] board@[k]) is None,
            decreases 64 - i,
        {
            board.push(None);
            i = i + 1;
        }
        BoardBuilder {
            board,
            side_to_move: Color::White,
            white_rights: CastleRights { short: None, long: None },
            black_rights: CastleRights { short: None, long: None },
            en_passant: None,
            halfmove_clock: 0,
            fullmove_number: 1,
        }
    }

    /// Get a square on the board.
    pub fn square(&self, square: Square) -> (r: Option<(Piece, Color)>)
        requires
            self.wf(),
            square.wf(),
        ensures
            r == self.board@[square.0 as int],
    {
        self.board[square.0 as usize]
    }

    /// Set a square on the board.
    pub fn set_square(&mut self, square: Square, value: Option<(Piece, Color)>)
        requires
            old(self).wf(),
            square.wf(),
        ensures
            final(self).wf(),
            final(self).board@ == old(self).board@.update(square.0 as int, value),
            final(self).side_to_move == old(self).side_to_move,
            final(self).white_rights == old(self).white_rights,
            final(self).black_rights == old(self).black_rights,
            final(self).en_passant == old(self).en_passant,
            final(self).halfmove_clock == old(self).halfmove_clock,
            final(self).fullmove_number == old(self).fullmove_number,
    {
        self.board.set(square.0 as usize, value);
    }

    /// Get the castle rights of a side.
    pub fn castle_rights(&self, color: Color) -> (r: CastleRights)
        ensures
            r == (if color == Color::White {
                self.white_rights
            } else {
                self.black_rights
            }),
    {
        match color {
            Color::White => self.white_rights,
            Color::Black => self.black_rights,
        }
    }

    /// Set the castle rights of a side.
    pub fn set_castle_rights(&mut self, color: Color, rights: CastleRights)
        ensures
            color == Color::White ==> final(self).white_rights == rights && final(self).black_rights
                == old(self).black_rights,
            color == Color::Black ==> final(self).black_rights == rights && final(self).white_rights
                == old(self).white_rights,
            final(self).board == old(self).board,
            final(self).side_to_move == old(self).side_to_move,
            final(self).en_passant == old(self).en_passant,
            final(self).halfmove_clock == old(self).halfmove_clock,
            final(self).fullmove_number == old(self).fullmove_number,
    {
        match color {
            Color::White => self.white_rights = rights,
            Color::Black => self.black_rights = rights,
        }
    }

    /// Create a builder from a board, copying every square, the side to
    /// move, both castle rights, the en-passant square and both clocks.
    /// Fails when the board is invalid.
    pub fn from_board(board: &Board) -> (r: Option<BoardBuilder>)
        ensures
            match r {
                Some(b) => {
                    &&& b.wf()
                    &&& board.is_valid()
                    &&& forall|s: int| 0 <= s < 64 ==> #[trigger] b.board@[s] == (
                    match board.spec_piece_on(s as u64) {
                        Some(p) => Some((p, board.spec_color_on(s as u64)->0)),
                        None => None::<(Piece, Color)>,
                    })
                    &&& b.side_to_move == board.inner.stm
                    &&& b.white_rights == board.inner.white_rights
                    &&& b.black_rights == board.inner.black_rights
                    &&& b.en_passant == (match board.inner.ep {
                        Some(f) => Some(
                            Square(((Rank::Sixth.rel_idx(board.inner.stm) * 8 + f.idx()) as u8)),
                        ),
                        None => None::<Square>,
                    })
                    &&& b.halfmove_clock == board.halfmove_clock
                    &&& b.fullmove_number == board.fullmove_number
                },
                None => !board.is_valid(),
            },
    {
        if !board.validity_check() {
            return None;
        }
        let mut this = BoardBuilder::empty();
        let mut i: usize = 0;
        while i < 64
            invariant
                board.is_valid(),
                i <= 64,
                this.wf(),
                forall|s: int| 0 <= s < i ==> #[trigger] this.board@[s] == (
                match board.spec_piece_on(s as u64) {
                    Some(p) => Some((p, board.spec_color_on(s as u64)->0)),
                    None => None::<(Piece, Color)>,
                }),
                forall|s: int| i <= s < 64 ==> (#[trigger] this.board@[s]) is None,
            decreases 64 - i,
        {
            let sq = Square(i as u8);
            proof {
                lemma_square_state(*board, i as u64);
            }
            match board.piece_on(sq) {
                Some(piece) => {
                    let color = match board.color_on(sq) {
                        Some(c) => c,
                        None => Color::White,
                    };
                    this.set_square(sq, Some((piece, color)));
                },
                None => (),
            }
            i = i + 1;
        }
        this.side_to_move = board.side_to_move();
        this.white_rights = board.castle_rights(Color::White);
        this.black_rights = board.castle_rights(Color::Black);
        this.en_passant = match board.en_passant() {
            Some(f) => Some(
                Square::new(f, Rank::Sixth.relative_to(board.side_to_move())),
            ),
            None => None,
        };
        this.halfmove_clock = board.halfmove_clock();
        this.fullmove_number = board.fullmove_number();
        Some(this)
    }

    /// Build a board from this builder. The built board assembles the
    /// builder's fields square by square, with the check and pin sets
    /// computed from scratch; it is returned only when the position invariant
    /// holds. Each failing stage names its error.
    pub fn build(&self) -> (r: Result<Board, BoardBuilderError>)
        requires
            self.wf(),
        ensures
            match r {
                Ok(b) => {
                    &&& b.is_valid()
                    &&& b.hash_ok()
                    &&& forall|s: u64| s < 64 ==> #[trigger] square_matches(
                        b.inner,
                        self.board@[s as int],
                        s,
                    )
                    &&& b.inner.stm == self.side_to_move
                    &&& b.inner.white_rights == self.white_rights
                    &&& b.inner.black_rights == self.black_rights
                    &&& b.inner.ep == (match self.en_passant {
                        Some(sq) => Some(file_from_idx(sq.0 as u64 % 8)),
                        None => None::<crate::types::File>,
                    })
                    &&& b.halfmove_clock == self.halfmove_clock
                    &&& b.fullmove_number == self.fullmove_number
                    &&& b.checkers.0 == crate::board::spec_checkers(b.inner, b.inner.stm)
                    &&& b.pinned.0 == crate::board::spec_pinned(b.inner, b.inner.stm)
                },
                Err(e) => {
                    &&& e == BoardBuilderError::InvalidHalfMoveClock ==> self.halfmove_clock > 100
                    &&& e == BoardBuilderError::InvalidFullmoveNumber ==> self.fullmove_number == 0
                    &&& e == BoardBuilderError::InvalidEnPassant ==> (self.en_passant is Some && (
                    !(self.en_passant->0).wf() || ((self.en_passant->0).0 as u64) / 8
                        != Rank::Sixth.rel_idx(self.side_to_move)))
                },
            },
    {
        proof {
            crate::types::lemma_file_from_idx();
        }
        let mut zb = ZobristBoard::empty();
        proof {
            crate::bits::lemma_bits_zero();
            assert forall|s: u64| s < 64 implies zb.sq_empty(s) by {
                assert forall|q: Piece| !(#[trigger] bit(zb.pieces_bb(q), s)) by {
                }
                lemma_empty_from_bits(zb, s);
            }
        }
        let mut i: usize = 0;
        while i < 64
            invariant
                i <= 64,
                self.wf(),
                zb.hash_ok(),
                zb.stm == Color::White,
                zb.white_rights.short is None && zb.white_rights.long is None,
                zb.black_rights.short is None && zb.black_rights.long is None,
                zb.ep is None,
                forall|s: u64| s < i ==> #[trigger] square_matches(zb, self.board@[s as int], s),
                forall|s: u64| i <= s < 64 ==> #[trigger] zb.sq_empty(s),
            decreases 64 - i,
        {
            let sq = Square(i as u8);
            let ghost z0 = zb;
            if let Some((piece, color)) = self.board[i] {
                if !zb.square_empty(sq) {
                    return Err(BoardBuilderError::InvalidBoard);
                }
                zb.xor_square(piece, color, sq);
                proof {
                    lemma_toggle_bit(z0.pieces_bb(piece), i as u64);
                    lemma_toggle_bit(z0.colors_bb(color), i as u64);
                    assert forall|q: Piece| (#[trigger] bit(zb.pieces_bb(q), i as u64)) == (q
                        == piece) by {
                        if q == piece {
                        } else {
                            assert(bit(zb.pieces_bb(q), i as u64) == bit(
                                z0.pieces_bb(q),
                                i as u64,
                            ));
                        }
                    }
                    assert(zb.sq_exactly(piece, color, i as u64));
                    assert forall|s: u64| s < i + 1 implies #[trigger] square_matches(
                        zb,
                        self.board@[s as int],
                        s,
                    ) by {
                        if s < i {
                            assert(square_matches(z0, self.board@[s as int], s));
                            match self.board@[s as int] {
                                Some((p2, c2)) => {
                                    assert(zb.sq_exactly(p2, c2, s)) by {
                                        assert forall|q: Piece| (#[trigger] bit(
                                            zb.pieces_bb(q),
                                            s,
                                        )) == (q == p2) by {
                                            assert(bit(zb.pieces_bb(q), s) == bit(
                                                z0.pieces_bb(q),
                                                s,
                                            ));
                                        }
                                    }
                                },
                                None => {
                                    assert(zb.sq_empty(s)) by {
                                        assert forall|q: Piece| !(#[trigger] bit(
                                            zb.pieces_bb(q),
                                            s,
                                        )) by {
                                            assert(bit(zb.pieces_bb(q), s) == bit(
                                                z0.pieces_bb(q),
                                                s,
                                            ));
                                        }
                                        lemma_empty_from_bits(zb, s);
                                    }
                                },
                            }
                        }
                    }
                    assert forall|s: u64| i + 1 <= s < 64 implies #[trigger] zb.sq_empty(s) by {
                        assert(z0.sq_empty(s));
                        assert forall|q: Piece| !(#[trigger] bit(zb.pieces_bb(q), s)) by {
                            assert(bit(zb.pieces_bb(q), s) == bit(z0.pieces_bb(q), s));
                        }
                        lemma_empty_from_bits(zb, s);
                    }
                }
            }
            i = i + 1;
        }
        let ghost zfilled = zb;
        if matches!(self.side_to_move, Color::Black) {
            zb.toggle_side_to_move();
        }
        zb.set_castle_right(Color::White, true, self.white_rights.short);
        zb.set_castle_right(Color::White, false, self.white_rights.long);
        zb.set_castle_right(Color::Black, true, self.black_rights.short);
        zb.set_castle_right(Color::Black, false, self.black_rights.long);
        if let Some(sq) = self.en_passant {
            if !(sq.0 < 64) {
                return Err(BoardBuilderError::InvalidEnPassant);
            }
            let expected = Rank::Sixth.relative_to(self.side_to_move);
            if sq.rank() != expected {
                return Err(BoardBuilderError::InvalidEnPassant);
            }
            zb.set_en_passant(Some(sq.file()));
        }
        if self.halfmove_clock > 100 {
            return Err(BoardBuilderError::InvalidHalfMoveClock);
        }
        if self.fullmove_number == 0 {
            return Err(BoardBuilderError::InvalidFullmoveNumber);
        }
        let mut board = Board {
            inner: zb,
            pinned: BitBoard(0),
            checkers: BitBoard(0),
            halfmove_clock: self.halfmove_clock,
            fullmove_number: self.fullmove_number,
        };
        proof {
            assert forall|s: u64| s < 64 implies #[trigger] square_matches(
                board.inner,
                self.board@[s as int],
                s,
            ) by {
                assert(square_matches(zfilled, self.board@[s as int], s));
                assert(board.inner.pawns == zfilled.pawns && board.inner.knights == zfilled.knights
                    && board.inner.bishops == zfilled.bishops && board.inner.rooks
                    == zfilled.rooks && board.inner.queens == zfilled.queens && board.inner.kings
                    == zfilled.kings && board.inner.white == zfilled.white && board.inner.black
                    == zfilled.black);
                assert(board.inner.colors_bb(Color::White) == zfilled.colors_bb(Color::White));
                assert(board.inner.colors_bb(Color::Black) == zfilled.colors_bb(Color::Black));
                match self.board@[s as int] {
                    Some((p2, c2)) => {
                        assert forall|q: Piece| (#[trigger] bit(board.inner.pieces_bb(q), s)) == (q
                            == p2) by {
                            assert(board.inner.pieces_bb(q) == zfilled.pieces_bb(q));
                        }
                        assert(board.inner.colors_bb(c2) == zfilled.colors_bb(c2));
                        assert(board.inner.colors_bb(crate::types::opp(c2)) == zfilled.colors_bb(
                            crate::types::opp(c2),
                        ));
                    },
                    None => {
                        assert forall|q: Piece| !(#[trigger] bit(board.inner.pieces_bb(q), s)) by {
                            assert(board.inner.pieces_bb(q) == zfilled.pieces_bb(q));
                        }
                        lemma_empty_from_bits(board.inner, s);
                    },
                }
            }
        }
        let white_kings = BitBoard(board.inner.kings.0 & board.inner.white.0).popcnt();
        let black_kings = BitBoard(board.inner.kings.0 & board.inner.black.0).popcnt();
        if white_kings == 1 && black_kings == 1 {
            proof {
                crate::bits::lemma_popcount_zero();
            }
            let stm = board.side_to_move();
            let (checkers, pinned) = board.calculate_checkers_and_pins(stm);
            board.checkers = checkers;
            board.pinned = pinned;
        }
        if !board.validity_check() {
            return Err(BoardBuilderError::InvalidBoard);
        }
        proof {
            assert(board.checkers.0 == crate::board::spec_checkers(board.inner, board.inner.stm));
        }
                Ok(board)
    }
}

} // verus!
