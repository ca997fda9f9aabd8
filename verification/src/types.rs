//! Primitive chess types: colors, pieces, files, ranks, squares and square
//! deltas.
//!
//! Squares are indexed 0..64 as `rank * 8 + file` (A1 = 0, H8 = 63). The spec
//! functions expose each value's index so that the rest of the crate can state
//! contracts over plain `u64` bit sets.

use vstd::prelude::*;

use crate::bitboard::BitBoard;

verus! {

/// A side to move.
#[derive(Debug, Clone, Copy, PartialEq, Eq, Hash, Structural)]
pub enum Color {
    White,
    Black,
}

/// The opposite side.
pub open spec fn opp(c: Color) -> Color {
    match c {
        Color::White => Color::Black,
        Color::Black => Color::White,
    }
}

impl Color {
    /// Index of the color: white 0, black 1.
    pub open spec fn idx(self) -> u64 {
        match self {
            Color::White => 0,
            Color::Black => 1,
        }
    }

    /// The opposing side.
    #[verifier::when_used_as_spec(opp_spec)]
    pub fn other(self) -> (r: Color)
        ensures
            r == opp(self),
    {
        match self {
            Color::White => Color::Black,
            Color::Black => Color::White,
        }
    }

    /// Spec alias so `c.other()` can be used in contracts.
    pub open spec fn opp_spec(self) -> Color {
        opp(self)
    }
}

/// A chess piece kind, ordered by approximate material value.
#[derive(Debug, Clone, Copy, PartialEq, Eq, Hash, Structural)]
pub enum Piece {
    Pawn,
    Knight,
    Bishop,
    Rook,
    Queen,
    King,
}

impl Piece {
    /// Index of the piece kind, 0..6.
    pub open spec fn idx(self) -> u64 {
        match self {
            Piece::Pawn => 0,
            Piece::Knight => 1,
            Piece::Bishop => 2,
            Piece::Rook => 3,
            Piece::Queen => 4,
            Piece::King => 5,
        }
    }

    /// The piece kind with the given index.
    pub fn try_index(index: usize) -> (r: Option<Piece>)
        ensures
            match r {
                Some(p) => index < 6 && p.idx() == index,
                None => index >= 6,
            },
    {
        match index {
            0 => Some(Piece::Pawn),
            1 => Some(Piece::Knight),
            2 => Some(Piece::Bishop),
            3 => Some(Piece::Rook),
            4 => Some(Piece::Queen),
            5 => Some(Piece::King),
            _ => None,
        }
    }
}

/// A file (column) on the board, A..H.
#[derive(Debug, Clone, Copy, PartialEq, Eq, Hash, Structural)]
pub enum File {
    A,
    B,
    C,
    D,
    E,
    F,
    G,
    H,
}

/// Bitboard mask of a whole file.
pub open spec fn file_mask(f: u64) -> u64 {
    0x0101_0101_0101_0101u64 << f
}

impl File {
    /// Index of the file, 0..8.
    pub open spec fn idx(self) -> u64 {
        match self {
            File::A => 0,
            File::B => 1,
            File::C => 2,
            File::D => 3,
            File::E => 4,
            File::F => 5,
            File::G => 6,
            File::H => 7,
        }
    }

    /// The file with the given index.
    pub fn try_index(index: usize) -> (r: Option<File>)
        ensures
            match r {
                Some(f) => index < 8 && f.idx() == index,
                None => index >= 8,
            },
    {
        match index {
            0 => Some(File::A),
            1 => Some(File::B),
            2 => Some(File::C),
            3 => Some(File::D),
            4 => Some(File::E),
            5 => Some(File::F),
            6 => Some(File::G),
            7 => Some(File::H),
            _ => None,
        }
    }

    /// The file with the given index; the index must be in range.
    pub fn from_index(index: usize) -> (r: File)
        requires
            index < 8,
        ensures
            r.idx() == index,
    {
        match index {
            0 => File::A,
            1 => File::B,
            2 => File::C,
            3 => File::D,
            4 => File::E,
            5 => File::F,
            6 => File::G,
            _ => File::H,
        }
    }

    /// Mirror the file left to right.
    pub fn flip(self) -> (r: File)
        ensures
            r.idx() == 7 - self.idx(),
    {
        match self {
            File::A => File::H,
            File::B => File::G,
            File::C => File::F,
            File::D => File::E,
            File::E => File::D,
            File::F => File::C,
            File::G => File::B,
            File::H => File::A,
        }
    }

    /// All squares on this file as a bitboard.
    pub fn bitboard(self) -> (r: BitBoard)
        ensures
            r.0 == file_mask(self.idx()),
    {
        let i = self.index();
        BitBoard(0x0101_0101_0101_0101u64 << i)
    }

    /// Index of the file as a machine integer.
    pub fn index(self) -> (r: usize)
        ensures
            r == self.idx(),
    {
        match self {
            File::A => 0,
            File::B => 1,
            File::C => 2,
            File::D => 3,
            File::E => 4,
            File::F => 5,
            File::G => 6,
            File::H => 7,
        }
    }
}

/// A rank (row) on the board, first..eighth.
#[derive(Debug, Clone, Copy, PartialEq, Eq, Hash, Structural)]
pub enum Rank {
    First,
    Second,
    Third,
    Fourth,
    Fifth,
    Sixth,
    Seventh,
    Eighth,
}

/// Bitboard mask of a whole rank.
pub open spec fn rank_mask(r: u64) -> u64 {
    0xFFu64 << (8 * r)
}

impl Rank {
    /// Index of the rank, 0..8.
    pub open spec fn idx(self) -> u64 {
        match self {
            Rank::First => 0,
            Rank::Second => 1,
            Rank::Third => 2,
            Rank::Fourth => 3,
            Rank::Fifth => 4,
            Rank::Sixth => 5,
            Rank::Seventh => 6,
            Rank::Eighth => 7,
        }
    }

    /// The rank with the given index.
    pub fn try_index(index: usize) -> (r: Option<Rank>)
        ensures
            match r {
                Some(rk) => index < 8 && rk.idx() == index,
                None => index >= 8,
            },
    {
        match index {
            0 => Some(Rank::First),
            1 => Some(Rank::Second),
            2 => Some(Rank::Third),
            3 => Some(Rank::Fourth),
            4 => Some(Rank::Fifth),
            5 => Some(Rank::Sixth),
            6 => Some(Rank::Seventh),
            7 => Some(Rank::Eighth),
            _ => None,
        }
    }

    /// The rank with the given index; the index must be in range.
    pub fn from_index(index: usize) -> (r: Rank)
        requires
            index < 8,
        ensures
            r.idx() == index,
    {
        match index {
            0 => Rank::First,
            1 => Rank::Second,
            2 => Rank::Third,
            3 => Rank::Fourth,
            4 => Rank::Fifth,
            5 => Rank::Sixth,
            6 => Rank::Seventh,
            _ => Rank::Eighth,
        }
    }

    /// Mirror the rank top to bottom.
    pub fn flip(self) -> (r: Rank)
        ensures
            r.idx() == 7 - self.idx(),
    {
        match self {
            Rank::First => Rank::Eighth,
            Rank::Second => Rank::Seventh,
            Rank::Third => Rank::Sixth,
            Rank::Fourth => Rank::Fifth,
            Rank::Fifth => Rank::Fourth,
            Rank::Sixth => Rank::Third,
            Rank::Seventh => Rank::Second,
            Rank::Eighth => Rank::First,
        }
    }

    /// All squares on this rank as a bitboard.
    pub fn bitboard(self) -> (r: BitBoard)
        ensures
            r.0 == rank_mask(self.idx()),
    {
        let i = self.index();
        BitBoard(0xFFu64 << (8 * i))
    }

    /// Index of the rank as a machine integer.
    pub fn index(self) -> (r: usize)
        ensures
            r == self.idx(),
    {
        match self {
            Rank::First => 0,
            Rank::Second => 1,
            Rank::Third => 2,
            Rank::Fourth => 3,
            Rank::Fifth => 4,
            Rank::Sixth => 5,
            Rank::Seventh => 6,
            Rank::Eighth => 7,
        }
    }

    /// Index of this rank as seen from `color`: flipped for black.
    pub open spec fn rel_idx(self, color: Color) -> u64 {
        match color {
            Color::White => self.idx(),
            Color::Black => (7 - self.idx()) as u64,
        }
    }

    /// The rank as seen from `color`'s point of view: flipped for black.
    pub fn relative_to(self, color: Color) -> (r: Rank)
        ensures
            r.idx() == self.rel_idx(color),
    {
        match color {
            Color::White => self,
            Color::Black => self.flip(),
        }
    }
}

/// The file with the given index, for indices below eight.
pub open spec fn file_from_idx(i: u64) -> File {
    if i == 0 {
        File::A
    } else if i == 1 {
        File::B
    } else if i == 2 {
        File::C
    } else if i == 3 {
        File::D
    } else if i == 4 {
        File::E
    } else if i == 5 {
        File::F
    } else if i == 6 {
        File::G
    } else {
        File::H
    }
}

/// A file is determined by its index.
pub proof fn lemma_file_from_idx()
    ensures
        forall|f: File| #[trigger] file_from_idx(f.idx()) == f,
{
}

/// A square on the board, indexed `rank * 8 + file`.
#[derive(Debug, Clone, Copy, PartialEq, Eq, Hash, Structural)]
pub struct Square(pub u8);

impl Square {
    /// A square index is in range.
    pub open spec fn wf(self) -> bool {
        self.0 < 64
    }

    /// The square on the given file and rank.
    pub fn new(file: File, rank: Rank) -> (r: Square)
        ensures
            r.0 == rank.idx() * 8 + file.idx(),
            r.wf(),
    {
        Square((rank.index() * 8 + file.index()) as u8)
    }

    /// The square with the given index.
    pub fn try_index(index: usize) -> (r: Option<Square>)
        ensures
            match r {
                Some(sq) => index < 64 && sq.0 == index && sq.wf(),
                None => index >= 64,
            },
    {
        if index < 64 {
            Some(Square(index as u8))
        } else {
            None
        }
    }

    /// The file of the square.
    pub fn file(self) -> (r: File)
        requires
            self.wf(),
        ensures
            r.idx() == self.0 % 8,
    {
        File::from_index((self.0 % 8) as usize)
    }

    /// The rank of the square.
    pub fn rank(self) -> (r: Rank)
        requires
            self.wf(),
        ensures
            r.idx() == self.0 / 8,
    {
        Rank::from_index((self.0 / 8) as usize)
    }

    /// A bitboard with only this square set.
    pub fn bitboard(self) -> (r: BitBoard)
        requires
            self.wf(),
        ensures
            r.0 == 1u64 << self.0,
    {
        BitBoard(1u64 << self.0)
    }
}

/// Where a file/rank offset lands from a square: `Some` index when the
/// destination stays on the board.
pub open spec fn delta_target(sq: u64, df: int, dr: int) -> Option<u64> {
    let f = sq % 8 + df;
    let r = sq / 8 + dr;
    if 0 <= f < 8 && 0 <= r < 8 {
        Some((r * 8 + f) as u64)
    } else {
        None
    }
}

/// A file/rank offset between squares.
#[derive(Debug, Clone, Copy)]
pub struct SquareDelta(pub i8, pub i8);

impl SquareDelta {
    /// Offset a square, clipping moves that leave the board.
    pub fn add(self, square: Square) -> (r: Option<Square>)
        requires
            square.wf(),
            -8 <= self.0 <= 8,
            -8 <= self.1 <= 8,
        ensures
            match r {
                Some(sq) => sq.wf() && delta_target(square.0 as u64, self.0 as int, self.1 as int)
                    == Some(sq.0 as u64),
                None => delta_target(square.0 as u64, self.0 as int, self.1 as int) is None,
            },
    {
        let f: i8 = (square.0 % 8) as i8 + self.0;
        let r: i8 = (square.0 / 8) as i8 + self.1;
        if 0 <= f && f < 8 && 0 <= r && r < 8 {
            Some(Square((r * 8 + f) as u8))
        } else {
            None
        }
    }
}

/// Castle rights of one side: the files of the rooks that may still castle.
/// `None` means the right is lost.
#[derive(Debug, Clone, Copy, PartialEq, Eq, Hash)]
pub struct CastleRights {
    pub short: Option<File>,
    pub long: Option<File>,
}

impl CastleRights {
    /// Both rights lost.
    pub fn empty() -> (r: CastleRights)
        ensures
            r.short is None,
            r.long is None,
    {
        CastleRights { short: None, long: None }
    }
}

/// A move: source and destination square, and the piece a pawn promotes to.
/// Castling is encoded as the king capturing its own rook.
#[derive(Debug, Clone, Copy, PartialEq, Eq, Hash)]
pub struct Move {
    pub from: Square,
    pub to: Square,
    pub promotion: Option<Piece>,
}

impl Move {
    /// Both squares are on the board.
    pub open spec fn wf(self) -> bool {
        self.from.wf() && self.to.wf()
    }
}

} // verus!
