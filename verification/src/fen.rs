//! FEN and Shredder-FEN reading and writing.
//!
//! Parsing assembles a placement square by square, derives the check and pin
//! sets, and accepts the board only when the position invariant holds, so a
//! successfully parsed board is always valid.

use vstd::prelude::*;

use crate::bitboard::BitBoard;
use crate::board::Board;
use crate::types::{Color, File, Piece, Rank, Square};
use crate::zobrist::ZobristBoard;

verus! {

/// An error while parsing a FEN string.
#[derive(Debug, Clone, Copy, PartialEq, Eq, Structural)]
pub enum FenParseError {
    InvalidBoard,
    InvalidSideToMove,
    InvalidCastlingRights,
    InvalidEnPassant,
    InvalidHalfMoveClock,
    InvalidFullmoveNumber,
    TooManyFields,
}

fn piece_of_byte(c: u8) -> (r: Option<(Piece, Color)>) {
    match c {
        80u8 => Some((Piece::Pawn, Color::White)),  // 'P'
        78u8 => Some((Piece::Knight, Color::White)),  // 'N'
        66u8 => Some((Piece::Bishop, Color::White)),  // 'B'
        82u8 => Some((Piece::Rook, Color::White)),  // 'R'
        81u8 => Some((Piece::Queen, Color::White)),  // 'Q'
        75u8 => Some((Piece::King, Color::White)),  // 'K'
        112u8 => Some((Piece::Pawn, Color::Black)),  // 'p'
        110u8 => Some((Piece::Knight, Color::Black)),  // 'n'
        98u8 => Some((Piece::Bishop, Color::Black)),  // 'b'
        114u8 => Some((Piece::Rook, Color::Black)),  // 'r'
        113u8 => Some((Piece::Queen, Color::Black)),  // 'q'
        107u8 => Some((Piece::King, Color::Black)),  // 'k'
        _ => None,
    }
}

impl Board {
    /// Parse a FEN string; with `shredder` set, parse Shredder-FEN castling
    /// fields instead. A board is returned only when it satisfies the
    /// position invariant.
    pub fn from_fen(fen: &str, shredder: bool) -> (r: Result<Board, FenParseError>)
        ensures
            match r {
                Ok(b) => b.is_valid() && b.hash_ok() && b.halfmove_clock <= 100
                    && b.fullmove_number >= 1,
                Err(_) => true,
            },
    {
        let bytes_vec = fen.as_bytes_vec();
        let bytes = &bytes_vec;
        let n = bytes.len();
        // Locate the six space-separated fields.
        let mut fields: Vec<(usize, usize)> = Vec::new();
        let mut start: usize = 0;
        let mut i: usize = 0;
        while i < n
            invariant
                start <= i <= n,
                n == bytes@.len(),
                forall|k: int| 0 <= k < fields@.len() ==> (#[trigger] fields@[k]).0 <= fields@[k].1
                    <= n,
            decreases n - i,
        {
            if bytes[i] == 32u8 {
                fields.push((start, i));
                start = i + 1;
            }
            i = i + 1;
        }
        fields.push((start, n));
        if fields.len() > 6 {
            return Err(FenParseError::TooManyFields);
        }
        let mut zb = ZobristBoard::empty();
        // Field 1: piece placement, ranks from the eighth down.
        if fields.len() < 1 {
            return Err(FenParseError::InvalidBoard);
        }
        let (ps, pe) = fields[0];
        // Split the placement into rows.
        let mut rows: Vec<(usize, usize)> = Vec::new();
        let mut rstart = ps;
        let mut j = ps;
        while j < pe
            invariant
                ps <= rstart <= j <= pe <= n,
                n == bytes@.len(),
                forall|k: int| 0 <= k < rows@.len() ==> (#[trigger] rows@[k]).0 <= rows@[k].1 <= n,
            decreases pe - j,
        {
            if bytes[j] == 47u8 {  // '/'
                rows.push((rstart, j));
                rstart = j + 1;
            }
            j = j + 1;
        }
        rows.push((rstart, pe));
        if rows.len() > 8 {
            return Err(FenParseError::InvalidBoard);
        }
        let nrows = rows.len();
        let mut ri: usize = 0;
        while ri < nrows
            invariant
                nrows == rows@.len() <= 8,
                ri <= nrows,
                n == bytes@.len(),
                forall|k: int| 0 <= k < rows@.len() ==> (#[trigger] rows@[k]).0 <= rows@[k].1 <= n,
                zb.hash_ok(),
            decreases nrows - ri,
        {
            let (rs, re) = rows[ri];
            let rank = Rank::from_index(nrows - 1 - ri);
            let mut file: usize = 0;
            let mut p = rs;
            while p < re
                invariant
                    rs <= p <= re <= n,
                    n == bytes@.len(),
                    file <= 8,
                    zb.hash_ok(),
                decreases re - p,
            {
                let c = bytes[p];
                if c >= 48u8 && c <= 57u8 {  // '0'..'9'
                    let offset = (c - 48u8) as usize;
                    if file + offset > 8 {
                        return Err(FenParseError::InvalidBoard);
                    }
                    file = file + offset;
                } else {
                    match piece_of_byte(c) {
                        Some((piece, color)) => {
                            if file >= 8 {
                                return Err(FenParseError::InvalidBoard);
                            }
                            let sq = Square::new(File::from_index(file), rank);
                            if !zb.square_empty(sq) {
                                return Err(FenParseError::InvalidBoard);
                            }
                            zb.xor_square(piece, color, sq);
                            file = file + 1;
                        },
                        None => {
                            return Err(FenParseError::InvalidBoard);
                        },
                    }
                }
                p = p + 1;
            }
            if file != 8 {
                return Err(FenParseError::InvalidBoard);
            }
            ri = ri + 1;
        }
        // Field 2: side to move.
        if fields.len() < 2 {
            return Err(FenParseError::InvalidSideToMove);
        }
        let (ss, se) = fields[1];
        if se - ss != 1 {
            return Err(FenParseError::InvalidSideToMove);
        }
        match bytes[ss] {
            119u8 => (),  // 'w'
            98u8 => zb.toggle_side_to_move(),  // 'b'
            _ => {
                return Err(FenParseError::InvalidSideToMove);
            },
        }
        // Field 3: castle rights.
        if fields.len() < 3 {
            return Err(FenParseError::InvalidCastlingRights);
        }
        let (cs, ce) = fields[2];
        if !(ce - cs == 1 && bytes[cs] == 45u8) {  // '-'
            let mut ci = cs;
            while ci < ce
                invariant
                    cs <= ci <= ce <= n,
                    n == bytes@.len(),
                    zb.hash_ok(),
                decreases ce - ci,
            {
                let c = bytes[ci];
                let color = if c >= 65u8 && c <= 90u8 {
                    Color::White
                } else {
                    Color::Black
                };
                let lower = if c >= 65u8 && c <= 90u8 {
                    c + 32u8
                } else {
                    c
                };
                let ours = match color {
                    Color::White => zb.white.0,
                    Color::Black => zb.black.0,
                };
                let king_file = match BitBoard(zb.kings.0 & ours).next_square() {
                    Some(sq) => sq.file(),
                    None => {
                        return Err(FenParseError::InvalidCastlingRights);
                    },
                };
                let short: bool;
                let file: File;
                if shredder {
                    if !(lower >= 97u8 && lower <= 104u8) {  // 'a'..'h'
                        return Err(FenParseError::InvalidCastlingRights);
                    }
                    file = File::from_index((lower - 97u8) as usize);
                    short = king_file.index() < file.index();
                } else {
                    if lower == 107u8 {  // 'k'
                        short = true;
                        file = File::H;
                    } else if lower == 113u8 {  // 'q'
                        short = false;
                        file = File::A;
                    } else {
                        return Err(FenParseError::InvalidCastlingRights);
                    }
                }
                let rights = match color {
                    Color::White => zb.white_rights,
                    Color::Black => zb.black_rights,
                };
                let prev = if short {
                    rights.short
                } else {
                    rights.long
                };
                if prev.is_some() {
                    return Err(FenParseError::InvalidCastlingRights);
                }
                zb.set_castle_right(color, short, Some(file));
                ci = ci + 1;
            }
        }
        // Field 4: en-passant target square.
        if fields.len() < 4 {
            return Err(FenParseError::InvalidEnPassant);
        }
        let (es, ee) = fields[3];
        if !(ee - es == 1 && bytes[es] == 45u8) {
            if ee - es != 2 {
                return Err(FenParseError::InvalidEnPassant);
            }
            let fc = bytes[es];
            let rc = bytes[es + 1];
            if !(fc >= 97u8 && fc <= 104u8 && rc >= 49u8 && rc <= 56u8) {
                return Err(FenParseError::InvalidEnPassant);
            }
            let file = File::from_index((fc - 97u8) as usize);
            let rank = Rank::from_index((rc - 49u8) as usize);
            let expected = Rank::Sixth.relative_to(zb.stm);
            if rank != expected {
                return Err(FenParseError::InvalidEnPassant);
            }
            zb.set_en_passant(Some(file));
        }
        // Field 5: halfmove clock.
        if fields.len() < 5 {
            return Err(FenParseError::InvalidHalfMoveClock);
        }
        let (hs, he) = fields[4];
        if hs == he {
            return Err(FenParseError::InvalidHalfMoveClock);
        }
        let mut halfmove: u32 = 0;
        let mut hi = hs;
        while hi < he
            invariant
                hs <= hi <= he <= n,
                n == bytes@.len(),
                halfmove <= 100,
            decreases he - hi,
        {
            let c = bytes[hi];
            if !(c >= 48u8 && c <= 57u8) {
                return Err(FenParseError::InvalidHalfMoveClock);
            }
            halfmove = halfmove * 10 + (c - 48u8) as u32;
            if halfmove > 100 {
                return Err(FenParseError::InvalidHalfMoveClock);
            }
            hi = hi + 1;
        }
        // Field 6: fullmove number.
        if fields.len() < 6 {
            return Err(FenParseError::InvalidFullmoveNumber);
        }
        let (fs, fe) = fields[5];
        if fs == fe {
            return Err(FenParseError::InvalidFullmoveNumber);
        }
        let mut fullmove: u32 = 0;
        let mut fi = fs;
        while fi < fe
            invariant
                fs <= fi <= fe <= n,
                n == bytes@.len(),
                fullmove <= 65535,
            decreases fe - fi,
        {
            let c = bytes[fi];
            if !(c >= 48u8 && c <= 57u8) {
                return Err(FenParseError::InvalidFullmoveNumber);
            }
            fullmove = fullmove * 10 + (c - 48u8) as u32;
            if fullmove > 65535 {
                return Err(FenParseError::InvalidFullmoveNumber);
            }
            fi = fi + 1;
        }
        if fullmove == 0 {
            return Err(FenParseError::InvalidFullmoveNumber);
        }
        // Derive checkers and pins and validate.
        let mut board = Board {
            inner: zb,
            pinned: BitBoard(0),
            checkers: BitBoard(0),
            halfmove_clock: halfmove as u8,
            fullmove_number: fullmove as u16,
        };
        let white_kings = BitBoard(board.inner.kings.0 & board.inner.white.0).popcnt();
        let black_kings = BitBoard(board.inner.kings.0 & board.inner.black.0).popcnt();
        if white_kings == 1 && black_kings == 1 {
            proof {
                crate::bits::lemma_popcount_zero();
            }
            let stm = board.side_to_move();
            let (checkers, pinned) = board.calculate_checkers_and_pins(stm);
            board.checkers = checkers;
            board.pinned = pinned;
        }
        if !board.validity_check() {
            return Err(FenParseError::InvalidBoard);
        }
        Ok(board)
    }

    /// Render the position as a FEN string; with `shredder` set, write
    /// Shredder-FEN castling fields instead.
    pub fn to_fen(&self, shredder: bool) -> String {
        let mut s = String::new();
        let mut rank: usize = 8;
        while rank > 0
            invariant
                rank <= 8,
            decreases rank,
        {
            rank = rank - 1;
            let mut empty: u32 = 0;
            let mut file: usize = 0;
            while file < 8
                invariant
                    file <= 8,
                    empty <= file,
                    rank < 8,
                decreases 8 - file,
            {
                let sq = Square::new(File::from_index(file), Rank::from_index(rank));
                match self.piece_on(sq) {
                    Some(piece) => {
                        if empty > 0 {
                            s.append(digit_str(empty));
                            empty = 0;
                        }
                        let white = matches!(self.color_on(sq), Some(Color::White));
                        s.append(piece_str(piece, white));
                    },
                    None => {
                        empty = empty + 1;
                    },
                }
                file = file + 1;
            }
            if empty > 0 {
                s.append(digit_str(empty));
            }
            if rank > 0 {
                s.append("/");
            }
        }
        match self.side_to_move() {
            Color::White => s.append(" w "),
            Color::Black => s.append(" b "),
        }
        let mut wrote_rights = false;
        let wr = self.castle_rights(Color::White);
        let br = self.castle_rights(Color::Black);
        if let Some(f) = wr.short {
            s.append(
                if shredder {
                    file_str_upper(f)
                } else {
                    "K"
                },
            );
            wrote_rights = true;
        }
        if let Some(f) = wr.long {
            s.append(
                if shredder {
                    file_str_upper(f)
                } else {
                    "Q"
                },
            );
            wrote_rights = true;
        }
        if let Some(f) = br.short {
            s.append(
                if shredder {
                    file_str(f)
                } else {
                    "k"
                },
            );
            wrote_rights = true;
        }
        if let Some(f) = br.long {
            s.append(
                if shredder {
                    file_str(f)
                } else {
                    "q"
                },
            );
            wrote_rights = true;
        }
        if !wrote_rights {
            s.append("-");
        }
        match self.en_passant() {
            Some(f) => {
                s.append(" ");
                s.append(file_str(f));
                let r = Rank::Sixth.relative_to(self.side_to_move());
                s.append(rank_str(r));
            },
            None => {
                s.append(" -");
            },
        }
        s.append(" ");
        let hs = dec_string(self.halfmove_clock() as u32);
        s.append(hs.as_str());
        s.append(" ");
        let fs2 = dec_string(self.fullmove_number() as u32);
        s.append(fs2.as_str());
        s
    }
}

fn digit_str(d: u32) -> &'static str {
    match d {
        1u32 => "1",
        2u32 => "2",
        3u32 => "3",
        4u32 => "4",
        5u32 => "5",
        6u32 => "6",
        7u32 => "7",
        _ => "8",
    }
}

fn piece_str(piece: Piece, white: bool) -> &'static str {
    if white {
        match piece {
            Piece::Pawn => "P",
            Piece::Knight => "N",
            Piece::Bishop => "B",
            Piece::Rook => "R",
            Piece::Queen => "Q",
            Piece::King => "K",
        }
    } else {
        match piece {
            Piece::Pawn => "p",
            Piece::Knight => "n",
            Piece::Bishop => "b",
            Piece::Rook => "r",
            Piece::Queen => "q",
            Piece::King => "k",
        }
    }
}

/// The file's letter in lower case.
pub fn file_str(f: File) -> &'static str {
    match f {
        File::A => "a",
        File::B => "b",
        File::C => "c",
        File::D => "d",
        File::E => "e",
        File::F => "f",
        File::G => "g",
        File::H => "h",
    }
}

fn file_str_upper(f: File) -> &'static str {
    match f {
        File::A => "A",
        File::B => "B",
        File::C => "C",
        File::D => "D",
        File::E => "E",
        File::F => "F",
        File::G => "G",
        File::H => "H",
    }
}

/// The rank's digit.
pub fn rank_str(r: Rank) -> &'static str {
    match r {
        Rank::First => "1",
        Rank::Second => "2",
        Rank::Third => "3",
        Rank::Fourth => "4",
        Rank::Fifth => "5",
        Rank::Sixth => "6",
        Rank::Seventh => "7",
        Rank::Eighth => "8",
    }
}

/// A number in decimal.
pub fn dec_string(n: u32) -> String {
    let mut digits: Vec<u32> = Vec::new();
    let mut v = n;
    if v == 0 {
        let mut s = String::new();
        s.append("0");
        return s;
    }
    while v > 0
        invariant
            digits@.len() <= 10,
        decreases v,
    {
        if digits.len() >= 10 {
            break ;
        }
        digits.push(v % 10);
        v = v / 10;
    }
    let mut s = String::new();
    let mut k = digits.len();
    while k > 0
        invariant
            k <= digits@.len(),
        decreases k,
    {
        k = k - 1;
        let d = digits[k];
        s.append(
            match d {
                0u32 => "0",
                1u32 => "1",
                2u32 => "2",
                3u32 => "3",
                4u32 => "4",
                5u32 => "5",
                6u32 => "6",
                7u32 => "7",
                8u32 => "8",
                _ => "9",
            },
        );
    }
    s
}

} // verus!
