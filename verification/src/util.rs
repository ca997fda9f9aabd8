//! Move text: UCI move reading and writing, and the start position.

use vstd::prelude::*;

use crate::board::Board;
use crate::bitboard::BitBoard;
use crate::fen::{file_str, rank_str};
use crate::types::{CastleRights, Color, File, Move, Piece, Rank, Square};
use crate::zobrist::ZobristBoard;

verus! {

/// An error while parsing a move.
#[derive(Debug, Clone, Copy, PartialEq, Eq, Structural)]
pub enum MoveParseError {
    InvalidMove,
}

fn parse_square(f: u8, r: u8) -> (res: Option<Square>)
    ensures
        match res {
            Some(sq) => sq.wf(),
            None => true,
        },
{
    if f >= 97u8 && f <= 104u8 && r >= 49u8 && r <= 56u8 {  // 'a'..'h', '1'..'8'
        Some(Square::new(File::from_index((f - 97u8) as usize), Rank::from_index((r - 49u8) as usize)))
    } else {
        None
    }
}

impl Move {
    /// Parse a move in coordinate notation: source and destination squares
    /// and an optional promotion character.
    pub fn from_str(s: &str) -> (r: Result<Move, MoveParseError>)
        ensures
            match r {
                Ok(mv) => mv.wf(),
                Err(_) => true,
            },
    {
        let bytes = s.as_bytes_vec();
        if !(bytes.len() == 4 || bytes.len() == 5) {
            return Err(MoveParseError::InvalidMove);
        }
        let from = match parse_square(bytes[0], bytes[1]) {
            Some(sq) => sq,
            None => {
                return Err(MoveParseError::InvalidMove);
            },
        };
        let to = match parse_square(bytes[2], bytes[3]) {
            Some(sq) => sq,
            None => {
                return Err(MoveParseError::InvalidMove);
            },
        };
        let promotion: Option<Piece> = if bytes.len() == 5 {
            match bytes[4] {
                110u8 => Some(Piece::Knight),  // 'n'
                98u8 => Some(Piece::Bishop),  // 'b'
                114u8 => Some(Piece::Rook),  // 'r'
                113u8 => Some(Piece::Queen),  // 'q'
                107u8 => None,  // 'k': ignored, as a pawn cannot become a king
                112u8 => None,  // 'p': ignored likewise
                _ => {
                    return Err(MoveParseError::InvalidMove);
                },
            }
        } else {
            None
        };
        Ok(Move { from, to, promotion })
    }

    /// Write the move in coordinate notation.
    pub fn to_uci(&self) -> (r: String)
        requires
            self.wf(),
    {
        let mut s = String::new();
        s.append(file_str(self.from.file()));
        s.append(rank_str(self.from.rank()));
        s.append(file_str(self.to.file()));
        s.append(rank_str(self.to.rank()));
        match self.promotion {
            Some(Piece::Knight) => s.append("n"),
            Some(Piece::Bishop) => s.append("b"),
            Some(Piece::Rook) => s.append("r"),
            Some(Piece::Queen) => s.append("q"),
            Some(Piece::Pawn) => s.append("p"),
            Some(Piece::King) => s.append("k"),
            None => (),
        }
        s
    }
}

/// The move after reading standard UCI castling notation: when the move goes
/// from the king's standard start square (the E file of the back rank) two
/// files sideways to the G or C file and the matching castle right is
/// present, the destination is rewritten to that right's rook square; any
/// other move passes through unchanged.
pub open spec fn uci_normalized(b: Board, m: Move) -> Move {
    let back = Rank::First.rel_idx(b.inner.stm);
    let start = (back * 8 + 4) as u64;
    let short_to = (back * 8 + 6) as u64;
    let long_to = (back * 8 + 2) as u64;
    let rights = b.inner.rights_of(b.inner.stm);
    if crate::board::king_sq(b.inner, b.inner.stm) == m.from.0 as u64 && m.from.0 as u64
        == start {
        let m1 = if m.to.0 as u64 == short_to && rights.short is Some {
            Move {
                from: m.from,
                to: Square((back * 8 + rights.short->0.idx()) as u8),
                promotion: m.promotion,
            }
        } else {
            m
        };
        if m1.to.0 as u64 == long_to && rights.long is Some {
            Move {
                from: m1.from,
                to: Square((back * 8 + rights.long->0.idx()) as u8),
                promotion: m1.promotion,
            }
        } else {
            m1
        }
    } else {
        m
    }
}

/// The move as standard UCI notation writes it: when the move goes from the
/// king's square to the rook square of a present castle right, the
/// destination is shown as the G (short) or C (long) file of the back rank;
/// any other move passes through unchanged.
pub open spec fn uci_displayed(b: Board, m: Move) -> Move {
    let back = Rank::First.rel_idx(b.inner.stm);
    let rights = b.inner.rights_of(b.inner.stm);
    if crate::board::king_sq(b.inner, b.inner.stm) == m.from.0 as u64 {
        let m1 = if rights.short is Some && m.to.0 as u64 == (back * 8
            + rights.short->0.idx()) as u64 {
            Move { from: m.from, to: Square((back * 8 + 6) as u8), promotion: m.promotion }
        } else {
            m
        };
        if rights.long is Some && m1.to.0 as u64 == (back * 8 + rights.long->0.idx()) as u64 {
            Move { from: m1.from, to: Square((back * 8 + 2) as u8), promotion: m1.promotion }
        } else {
            m1
        }
    } else {
        m
    }
}

/// Rewrite standard UCI castling notation into the king-captures-rook form.
pub fn normalize_uci_castling(board: &Board, mv: Move) -> (r: Move)
    requires
        mv.wf(),
        crate::board::has_king(board.inner, board.inner.stm),
    ensures
        r == uci_normalized(*board, mv),
        r.wf(),
{
    let mut mv = mv;
    let color = board.side_to_move();
    let first_rank = Rank::First.relative_to(color);
    let uci_castle_start = Square::new(File::E, first_rank);
    let uci_castle_short = Square::new(File::G, first_rank);
    let uci_castle_long = Square::new(File::C, first_rank);
    let rights = board.castle_rights(color);
    let king = board.king(color);
    if king.0 == mv.from.0 && mv.from.0 == uci_castle_start.0 {
        if mv.to.0 == uci_castle_short.0 {
            if let Some(rook_file) = rights.short {
                mv.to = Square::new(rook_file, first_rank);
            }
        }
        if mv.to.0 == uci_castle_long.0 {
            if let Some(rook_file) = rights.long {
                mv.to = Square::new(rook_file, first_rank);
            }
        }
    }
    mv
}

/// Rewrite a king-captures-rook castling move into standard UCI notation.
pub fn display_uci_castling(board: &Board, mv: Move) -> (r: Move)
    requires
        mv.wf(),
        crate::board::has_king(board.inner, board.inner.stm),
    ensures
        r == uci_displayed(*board, mv),
        r.wf(),
{
    let mut mv = mv;
    let color = board.side_to_move();
    let first_rank = Rank::First.relative_to(color);
    let rights = board.castle_rights(color);
    let king = board.king(color);
    if king.0 == mv.from.0 {
        if let Some(f) = rights.short {
            let rook = Square::new(f, first_rank);
            if mv.to.0 == rook.0 {
                mv.to = Square::new(File::G, first_rank);
            }
        }
        if let Some(f) = rights.long {
            let rook = Square::new(f, first_rank);
            if mv.to.0 == rook.0 {
                mv.to = Square::new(File::C, first_rank);
            }
        }
    }
    mv
}

/// On a valid board whose king stands on its standard start square, writing
/// a castling move in UCI notation and reading it back gives the move
/// unchanged.
pub proof fn lemma_uci_castle_round_trip(b: Board, m: Move)
    requires
        b.is_valid(),
        m.wf(),
        m.from.0 as u64 == crate::board::king_sq(b.inner, b.inner.stm),
        m.from.0 as u64 == (Rank::First.rel_idx(b.inner.stm) * 8 + 4) as u64,
        ({
            let back = Rank::First.rel_idx(b.inner.stm);
            let rights = b.inner.rights_of(b.inner.stm);
            (rights.short is Some && m.to.0 as u64 == (back * 8 + rights.short->0.idx()) as u64)
                || (rights.long is Some && m.to.0 as u64 == (back * 8
                + rights.long->0.idx()) as u64)
        }),
    ensures
        uci_normalized(b, uci_displayed(b, m)) == m,
{
    let back = Rank::First.rel_idx(b.inner.stm);
    let rights = b.inner.rights_of(b.inner.stm);
    let king = crate::board::king_sq(b.inner, b.inner.stm);
    // The right files sit on either side of the king's file, so the two rook
    // squares are distinct, and neither coincides with the G or C target in a
    // way that could make the two rewrites interfere.
    if b.inner.stm == Color::White {
        assert(crate::board::side_ok(b.inner, Color::White));
    } else {
        assert(crate::board::side_ok(b.inner, Color::Black));
    }
    assert(king % 8 == 4);
    if rights.short is Some && m.to.0 as u64 == (back * 8 + rights.short->0.idx()) as u64 {
        assert(rights.short->0.idx() > 4);
    } else {
        assert(rights.long->0.idx() < 4);
    }
}

/// Parse a UCI move, rewriting the standard castling notation (king two
/// files sideways from its start square) into the king-captures-rook form
/// this crate uses.
pub fn parse_uci_move(board: &Board, mv: &str) -> (r: Result<Move, MoveParseError>)
    requires
        crate::board::has_king(board.inner, board.inner.stm),
    ensures
        match r {
            Ok(m) => m.wf(),
            Err(_) => true,
        },
{
    let mv = match Move::from_str(mv) {
        Ok(m) => m,
        Err(e) => {
            return Err(e);
        },
    };
    Ok(normalize_uci_castling(board, mv))
}

/// Write a move in UCI form, rewriting the king-captures-rook castling form
/// this crate uses into the standard castling notation.
pub fn display_uci_move(board: &Board, mv: Move) -> (r: String)
    requires
        mv.wf(),
        crate::board::has_king(board.inner, board.inner.stm),
{
    display_uci_castling(board, mv).to_uci()
}

impl Board {
    /// Get a board with the default start position.
    pub fn startpos() -> (r: Board)
        ensures
            r.inner.pawns.0 == 0x00FF_0000_0000_FF00u64,
            r.inner.knights.0 == 0x4200_0000_0000_0042u64,
            r.inner.bishops.0 == 0x2400_0000_0000_0024u64,
            r.inner.rooks.0 == 0x8100_0000_0000_0081u64,
            r.inner.queens.0 == 0x0800_0000_0000_0008u64,
            r.inner.kings.0 == 0x1000_0000_0000_0010u64,
            r.inner.white.0 == 0x0000_0000_0000_FFFFu64,
            r.inner.black.0 == 0xFFFF_0000_0000_0000u64,
            r.inner.stm == Color::White,
            r.inner.white_rights == (CastleRights { short: Some(File::H), long: Some(File::A) }),
            r.inner.black_rights == (CastleRights { short: Some(File::H), long: Some(File::A) }),
            r.inner.ep is None,
            r.halfmove_clock == 0,
            r.fullmove_number == 1,
            r.hash_ok(),
            r.checkers.0 == crate::board::spec_checkers(r.inner, r.inner.stm),
            r.pinned.0 == crate::board::spec_pinned(r.inner, r.inner.stm),
    {
        let mut zb = ZobristBoard {
            pawns: BitBoard(0x00FF_0000_0000_FF00),
            knights: BitBoard(0x4200_0000_0000_0042),
            bishops: BitBoard(0x2400_0000_0000_0024),
            rooks: BitBoard(0x8100_0000_0000_0081),
            queens: BitBoard(0x0800_0000_0000_0008),
            kings: BitBoard(0x1000_0000_0000_0010),
            white: BitBoard(0x0000_0000_0000_FFFF),
            black: BitBoard(0xFFFF_0000_0000_0000),
            stm: Color::White,
            white_rights: CastleRights { short: Some(File::H), long: Some(File::A) },
            black_rights: CastleRights { short: Some(File::H), long: Some(File::A) },
            ep: None,
            hash: 0,
        };
        zb.recompute_hash();
        let mut board = Board {
            inner: zb,
            pinned: BitBoard(0),
            checkers: BitBoard(0),
            halfmove_clock: 0,
            fullmove_number: 1,
        };
        proof {
            assert(0x1000_0000_0000_0010u64 & 0x0000_0000_0000_FFFFu64 != 0
                && 0x1000_0000_0000_0010u64 & 0xFFFF_0000_0000_0000u64 != 0) by (bit_vector);
        }
        let (checkers, pinned) = board.calculate_checkers_and_pins(Color::White);
        board.checkers = checkers;
        board.pinned = pinned;
        board
    }
}


fn promo_char_piece(c: u8) -> (r: Option<Piece>) {
    match c {
        78u8 => Some(Piece::Knight),  // 'N'
        66u8 => Some(Piece::Bishop),  // 'B'
        82u8 => Some(Piece::Rook),  // 'R'
        81u8 => Some(Piece::Queen),  // 'Q'
        75u8 => Some(Piece::King),  // 'K'
        80u8 => Some(Piece::Pawn),  // 'P'
        _ => None,
    }
}

/// Parse a move in Standard Algebraic Notation. Canonical SAN is resolved
/// against the generated legal moves; the returned move is always legal.
pub fn parse_san_move(board: &Board, mv: &str) -> (r: Result<Move, MoveParseError>)
    requires
        crate::board::has_king(board.inner, board.inner.stm),
    ensures
        match r {
            Ok(m) => crate::play::spec_is_legal(*board, m),
            Err(_) => true,
        },
{
    let bytes = mv.as_bytes_vec();
    let mut end = bytes.len();
    // Ignore a trailing check or checkmate mark.
    if end > 0 && (bytes[end - 1] == 43u8 || bytes[end - 1] == 35u8) {  // '+', '#'
        end = end - 1;
    }
    let color = board.side_to_move();
    let rights = board.castle_rights(color);
    let dst: Square;
    let mut src_file: Option<File> = None;
    let mut src_rank: Option<Rank> = None;
    let piece: Piece;
    let mut promotion: Option<Piece> = None;
    let is_short_castle = end == 3 && bytes[0] == 79u8 && bytes[1] == 45u8 && bytes[2] == 79u8;
    let is_long_castle = end == 5 && bytes[0] == 79u8 && bytes[1] == 45u8 && bytes[2] == 79u8
        && bytes[3] == 45u8 && bytes[4] == 79u8;
    if is_short_castle || is_long_castle {
        let rook_file = if is_short_castle {
            rights.short
        } else {
            rights.long
        };
        let rook_file = match rook_file {
            Some(f) => f,
            None => {
                return Err(MoveParseError::InvalidMove);
            },
        };
        let king = board.king(color);
        dst = Square::new(rook_file, king.rank());
        piece = Piece::King;
    } else {
        let mut idx = end;
        // Promotion piece, with an optional '=' before it.
        if idx > 0 && bytes[idx - 1] >= 65u8 && bytes[idx - 1] <= 90u8 {
            match promo_char_piece(bytes[idx - 1]) {
                Some(p) => {
                    promotion = Some(p);
                    idx = idx - 1;
                    if idx > 0 && bytes[idx - 1] == 61u8 {  // '='
                        idx = idx - 1;
                    }
                },
                None => {
                    return Err(MoveParseError::InvalidMove);
                },
            }
        }
        // Destination square.
        if idx < 2 {
            return Err(MoveParseError::InvalidMove);
        }
        let fc = bytes[idx - 2];
        let rc = bytes[idx - 1];
        if !(fc >= 97u8 && fc <= 104u8 && rc >= 49u8 && rc <= 56u8) {
            return Err(MoveParseError::InvalidMove);
        }
        dst = Square::new(
            File::from_index((fc - 97u8) as usize),
            Rank::from_index((rc - 49u8) as usize),
        );
        idx = idx - 2;
        // An optional capture mark.
        if idx > 0 && bytes[idx - 1] == 120u8 {  // 'x'
            idx = idx - 1;
        }
        // Source rank and file constraints.
        if idx > 0 && bytes[idx - 1] >= 49u8 && bytes[idx - 1] <= 56u8 {
            src_rank = Some(Rank::from_index((bytes[idx - 1] - 49u8) as usize));
            idx = idx - 1;
        }
        if idx > 0 && bytes[idx - 1] >= 97u8 && bytes[idx - 1] <= 104u8 {
            src_file = Some(File::from_index((bytes[idx - 1] - 97u8) as usize));
            idx = idx - 1;
        }
        // The piece letter, pawn when absent.
        if idx > 0 {
            let c = bytes[idx - 1];
            if !(c >= 65u8 && c <= 90u8) {
                return Err(MoveParseError::InvalidMove);
            }
            piece = match promo_char_piece(c) {
                Some(p) => p,
                None => {
                    return Err(MoveParseError::InvalidMove);
                },
            };
            idx = idx - 1;
        } else {
            piece = Piece::Pawn;
        }
        if idx != 0 {
            return Err(MoveParseError::InvalidMove);
        }
    }
    // Resolve against the legal moves.
    let batches = board.generate_moves();
    let mut found: Option<Move> = None;
    let mut k: usize = 0;
    while k < batches.len()
        invariant
            batches@ == crate::movegen::movegen_seq(*board),
            k <= batches@.len(),
            match found {
                Some(m) => crate::play::spec_is_legal(*board, m),
                None => true,
            },
        decreases batches@.len() - k,
    {
        let pm = batches[k];
        let mut skip = !(pm.piece == piece);
        if let Some(f) = src_file {
            if !(pm.from.0 < 64) || !(pm.from.file() == f) {
                skip = true;
            }
        }
        if let Some(rk) = src_rank {
            if !(pm.from.0 < 64) || !(pm.from.rank() == rk) {
                skip = true;
            }
        }
        if !skip {
            let unpacked = pm.moves();
            let mut mi: usize = 0;
            while mi < unpacked.len()
                invariant
                    batches@ == crate::movegen::movegen_seq(*board),
                    k < batches@.len(),
                    pm == batches@[k as int],
                    mi <= unpacked@.len(),
                    forall|j: int| 0 <= j < unpacked@.len() ==> (#[trigger] unpacked@[j]).from
                        == pm.from && unpacked@[j].to.wf() && crate::bits::bit(
                        pm.to.0,
                        unpacked@[j].to.0 as u64,
                    ),
                    forall|j: int| 0 <= j < unpacked@.len() ==> (if pm.piece == Piece::Pawn
                        && crate::bits::bit(
                        crate::piece_moves::promo_mask(),
                        (#[trigger] unpacked@[j]).to.0 as u64,
                    ) {
                        unpacked@[j].promotion == Some(Piece::Knight) || unpacked@[j].promotion
                            == Some(Piece::Bishop) || unpacked@[j].promotion == Some(Piece::Rook)
                            || unpacked@[j].promotion == Some(Piece::Queen)
                    } else {
                        unpacked@[j].promotion is None
                    }),
                    match found {
                        Some(m) => crate::play::spec_is_legal(*board, m),
                        None => true,
                    },
                decreases unpacked@.len() - mi,
            {
                let m = unpacked[mi];
                if m.to.0 == dst.0 && m.promotion == promotion {
                    if found.is_some() {
                        // Ambiguous.
                        return Err(MoveParseError::InvalidMove);
                    }
                    proof {
                        assert(crate::play::move_in_batch(
                            crate::movegen::movegen_seq(*board)[k as int],
                            m,
                        ));
                    }
                    found = Some(m);
                }
                mi = mi + 1;
            }
        }
        k = k + 1;
    }
    match found {
        Some(m) => Ok(m),
        None => Err(MoveParseError::InvalidMove),
    }
}

fn piece_letter(p: Piece) -> (r: &'static str) {
    match p {
        Piece::Pawn => "P",
        Piece::Knight => "N",
        Piece::Bishop => "B",
        Piece::Rook => "R",
        Piece::Queen => "Q",
        Piece::King => "K",
    }
}

/// Write a legal move in Standard Algebraic Notation.
pub fn display_san_move(board: &Board, mv: Move) -> (r: String)
    requires
        board.hash_ok(),
        crate::board::placement_ok(board.inner),
        crate::board::has_king(board.inner, board.inner.stm),
        crate::play::spec_is_legal(*board, mv),
        crate::play::move_sane(*board, mv),
        crate::play::move_defined(*board, mv),
{
    let mut after = *board;
    after.play(mv);
    let check = !after.checkers().is_empty();
    let checkmate = check && (match after.try_generate_moves() {
        Ok(batches) => batches.len() == 0,
        Err(_) => true,
    });
    let piece = match board.piece_on(mv.from) {
        Some(p) => p,
        None => vstd::pervasive::unreached(),
    };
    let captures = board.occupied().popcnt() > after.occupied().popcnt();
    let color = board.side_to_move();
    let first_rank = Rank::First.relative_to(color);
    let rights = board.castle_rights(color);
    let short_sq = match rights.short {
        Some(f) => Some(Square::new(f, first_rank)),
        None => None,
    };
    let long_sq = match rights.long {
        Some(f) => Some(Square::new(f, first_rank)),
        None => None,
    };
    let is_short = match short_sq {
        Some(sq) => sq.0 == mv.to.0,
        None => false,
    };
    let is_long = match long_sq {
        Some(sq) => sq.0 == mv.to.0,
        None => false,
    };
    let mut s = String::new();
    if (piece == Piece::King && is_short) || is_long {
        if is_long {
            s.append("O-O-O");
        } else {
            s.append("O-O");
        }
    } else {
        let mut file_disambiguates = true;
        let mut rank_disambiguates = true;
        let mut ambiguous = false;
        let batches = board.generate_moves();
        let mut k: usize = 0;
        while k < batches.len()
            invariant
                mv.wf(),
            decreases batches@.len() - k,
        {
            let pm = batches[k];
            if pm.piece == piece && pm.from.0 != mv.from.0 && pm.from.0 < 64 && (pm.to.0 >> mv.to.0)
                & 1 == 1 {
                ambiguous = true;
                if pm.from.0 % 8 == mv.from.0 % 8 {
                    file_disambiguates = false;
                }
                if pm.from.0 / 8 == mv.from.0 / 8 {
                    rank_disambiguates = false;
                }
            }
            k = k + 1;
        }
        if piece == Piece::Pawn && captures {
            ambiguous = true;
        }
        if piece != Piece::Pawn {
            s.append(piece_letter(piece));
        }
        if ambiguous {
            if file_disambiguates {
                s.append(crate::fen::file_str(mv.from.file()));
            } else if rank_disambiguates {
                s.append(crate::fen::rank_str(mv.from.rank()));
            } else {
                s.append(crate::fen::file_str(mv.from.file()));
                s.append(crate::fen::rank_str(mv.from.rank()));
            }
        }
        if captures {
            s.append("x");
        }
        s.append(crate::fen::file_str(mv.to.file()));
        s.append(crate::fen::rank_str(mv.to.rank()));
        if let Some(promo) = mv.promotion {
            s.append("=");
            s.append(piece_letter(promo));
        }
    }
    if checkmate {
        s.append("#");
    } else if check {
        s.append("+");
    }
    s
}

} // verus!
