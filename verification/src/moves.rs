//! Attack geometry: pseudo-legal attack sets for every piece kind, rays,
//! between sets and lines.
//!
//! Each executable function is specified against a spec-level model of the
//! same geometry, built from `delta_target` (a single file/rank offset) and
//! bounded ray walks.

use vstd::prelude::*;

use crate::bitboard::BitBoard;
use crate::bits::bit;
use crate::types::{delta_target, Color, Square, SquareDelta};

verus! {

/// The single-square set a file/rank offset reaches, empty off the board.
pub open spec fn delta_bb(sq: u64, df: int, dr: int) -> u64 {
    match delta_target(sq, df, dr) {
        Some(t) => 1u64 << t,
        None => 0u64,
    }
}

/// Squares a knight attacks from `sq`.
pub open spec fn knight_bb(sq: u64) -> u64 {
    delta_bb(sq, -1, 2) | delta_bb(sq, 1, 2) | delta_bb(sq, 2, 1) | delta_bb(sq, 2, -1) | delta_bb(
        sq,
        1,
        -2,
    ) | delta_bb(sq, -1, -2) | delta_bb(sq, -2, -1) | delta_bb(sq, -2, 1)
}

/// Squares a king attacks from `sq`.
pub open spec fn king_bb(sq: u64) -> u64 {
    delta_bb(sq, 0, 1) | delta_bb(sq, 1, 1) | delta_bb(sq, 1, 0) | delta_bb(sq, 1, -1) | delta_bb(
        sq,
        0,
        -1,
    ) | delta_bb(sq, -1, -1) | delta_bb(sq, -1, 0) | delta_bb(sq, -1, 1)
}

/// Squares a pawn of `color` attacks from `sq`.
pub open spec fn pawn_attacks_bb(sq: u64, color: Color) -> u64 {
    match color {
        Color::White => delta_bb(sq, 1, 1) | delta_bb(sq, -1, 1),
        Color::Black => delta_bb(sq, 1, -1) | delta_bb(sq, -1, -1),
    }
}

/// Squares a slider reaches from `sq` in direction `(df, dr)`, stopping at
/// (and including) the first blocker.
pub open spec fn ray_bb(sq: u64, blockers: u64, df: int, dr: int, fuel: nat) -> u64
    decreases fuel,
{
    if fuel == 0 {
        0u64
    } else {
        match delta_target(sq, df, dr) {
            Some(t) => (1u64 << t) | (if bit(blockers, t) {
                0u64
            } else {
                ray_bb(t, blockers, df, dr, (fuel - 1) as nat)
            }),
            None => 0u64,
        }
    }
}

/// Squares a bishop on `sq` attacks through `blockers`.
pub open spec fn bishop_att(sq: u64, blockers: u64) -> u64 {
    ray_bb(sq, blockers, 1, 1, 7) | ray_bb(sq, blockers, 1, -1, 7) | ray_bb(
        sq,
        blockers,
        -1,
        1,
        7,
    ) | ray_bb(sq, blockers, -1, -1, 7)
}

/// Squares a rook on `sq` attacks through `blockers`.
pub open spec fn rook_att(sq: u64, blockers: u64) -> u64 {
    ray_bb(sq, blockers, 1, 0, 7) | ray_bb(sq, blockers, -1, 0, 7) | ray_bb(
        sq,
        blockers,
        0,
        1,
        7,
    ) | ray_bb(sq, blockers, 0, -1, 7)
}

/// The diagonals through `sq`, excluding `sq` itself.
pub open spec fn bishop_rays_bb(sq: u64) -> u64 {
    bishop_att(sq, 0)
}

/// The rank and file through `sq`, excluding `sq` itself.
pub open spec fn rook_rays_bb(sq: u64) -> u64 {
    crate::types::rank_mask(sq / 8 as u64) ^ crate::types::file_mask(sq % 8)
}

/// Two distinct squares on a shared rank, file or diagonal.
pub open spec fn aligned(a: u64, b: u64) -> bool {
    let df = b % 8 - a % 8;
    let dr = b / 8 - a / 8;
    a != b && (df == 0 || dr == 0 || df == dr || df == -dr)
}

/// The sign of an offset, -1, 0 or 1.
pub open spec fn sign(x: int) -> int {
    if x > 0 {
        1
    } else if x < 0 {
        -1
    } else {
        0
    }
}

/// Squares visited walking from `sq` toward `stop` in direction `(df, dr)`,
/// excluding both endpoints.
pub open spec fn walk_to(sq: u64, stop: u64, df: int, dr: int, fuel: nat) -> u64
    decreases fuel,
{
    if fuel == 0 {
        0u64
    } else {
        match delta_target(sq, df, dr) {
            Some(t) => if t == stop {
                0u64
            } else {
                (1u64 << t) | walk_to(t, stop, df, dr, (fuel - 1) as nat)
            },
            None => 0u64,
        }
    }
}

/// Squares strictly between two squares along a shared line, empty when the
/// squares are not aligned.
pub open spec fn between_bb(a: u64, b: u64) -> u64 {
    if aligned(a, b) {
        walk_to(a, b, sign(b % 8 - a % 8), sign(b / 8 - a / 8), 8)
    } else {
        0u64
    }
}

/// The full line through two aligned squares, extended to the board edges and
/// including both; empty when the squares are not aligned.
pub open spec fn line_bb(a: u64, b: u64) -> u64 {
    if aligned(a, b) {
        let df = sign(b % 8 - a % 8);
        let dr = sign(b / 8 - a / 8);
        ray_bb(a, 0, df, dr, 7) | ray_bb(a, 0, -df, -dr, 7) | (1u64 << a)
    } else {
        0u64
    }
}

/// Forward pushes of a pawn of `color` on `sq`: the single push when the
/// square ahead is empty, and the double push from the relative second rank
/// when both squares ahead are empty.
pub open spec fn pawn_quiets_bb(sq: u64, color: Color, blockers: u64) -> u64 {
    let dr = if color == Color::White {
        1int
    } else {
        -1int
    };
    let single = delta_bb(sq, 0, dr) & !blockers;
    if single != 0 && sq / 8 == (if color == Color::White {
        1int
    } else {
        6int
    }) {
        single | (delta_bb(sq, 0, 2 * dr) & !blockers)
    } else {
        single
    }
}

fn delta_to(square: Square, df: i8, dr: i8) -> (r: u64)
    requires
        square.wf(),
        -2 <= df <= 2,
        -2 <= dr <= 2,
    ensures
        r == delta_bb(square.0 as u64, df as int, dr as int),
{
    match (SquareDelta(df, dr)).add(square) {
        Some(t) => 1u64 << t.0,
        None => 0u64,
    }
}

/// Get the knight moves for a knight on some square.
pub fn get_knight_moves(square: Square) -> (r: BitBoard)
    requires
        square.wf(),
    ensures
        r.0 == knight_bb(square.0 as u64),
{
    BitBoard(
        delta_to(square, -1, 2) | delta_to(square, 1, 2) | delta_to(square, 2, 1) | delta_to(
            square,
            2,
            -1,
        ) | delta_to(square, 1, -2) | delta_to(square, -1, -2) | delta_to(square, -2, -1)
            | delta_to(square, -2, 1),
    )
}

/// Get the king moves for a king on some square.
pub fn get_king_moves(square: Square) -> (r: BitBoard)
    requires
        square.wf(),
    ensures
        r.0 == king_bb(square.0 as u64),
{
    BitBoard(
        delta_to(square, 0, 1) | delta_to(square, 1, 1) | delta_to(square, 1, 0) | delta_to(
            square,
            1,
            -1,
        ) | delta_to(square, 0, -1) | delta_to(square, -1, -1) | delta_to(square, -1, 0)
            | delta_to(square, -1, 1),
    )
}

/// Get the squares a pawn of `color` on `square` attacks.
pub fn get_pawn_attacks(square: Square, color: Color) -> (r: BitBoard)
    requires
        square.wf(),
    ensures
        r.0 == pawn_attacks_bb(square.0 as u64, color),
{
    match color {
        Color::White => BitBoard(delta_to(square, 1, 1) | delta_to(square, -1, 1)),
        Color::Black => BitBoard(delta_to(square, 1, -1) | delta_to(square, -1, -1)),
    }
}

fn ray_attacks(square: Square, blockers: BitBoard, df: i8, dr: i8, fuel: u8) -> (r: u64)
    requires
        square.wf(),
        -1 <= df <= 1,
        -1 <= dr <= 1,
    ensures
        r == ray_bb(square.0 as u64, blockers.0, df as int, dr as int, fuel as nat),
    decreases fuel,
{
    if fuel == 0 {
        0u64
    } else {
        match (SquareDelta(df, dr)).add(square) {
            Some(t) => {
                let tb = 1u64 << t.0;
                let rest = if (blockers.0 >> t.0) & 1 == 1 {
                    0u64
                } else {
                    ray_attacks(t, blockers, df, dr, fuel - 1)
                };
                tb | rest
            },
            None => 0u64,
        }
    }
}

/// Get the moves for a bishop on some square through the given blockers.
pub fn get_bishop_moves(square: Square, blockers: BitBoard) -> (r: BitBoard)
    requires
        square.wf(),
    ensures
        r.0 == bishop_att(square.0 as u64, blockers.0),
{
    BitBoard(
        ray_attacks(square, blockers, 1, 1, 7) | ray_attacks(square, blockers, 1, -1, 7)
            | ray_attacks(square, blockers, -1, 1, 7) | ray_attacks(square, blockers, -1, -1, 7),
    )
}

/// Get the moves for a rook on some square through the given blockers.
pub fn get_rook_moves(square: Square, blockers: BitBoard) -> (r: BitBoard)
    requires
        square.wf(),
    ensures
        r.0 == rook_att(square.0 as u64, blockers.0),
{
    BitBoard(
        ray_attacks(square, blockers, 1, 0, 7) | ray_attacks(square, blockers, -1, 0, 7)
            | ray_attacks(square, blockers, 0, 1, 7) | ray_attacks(square, blockers, 0, -1, 7),
    )
}

/// Get the diagonal rays for a bishop on some square, on an empty board.
pub fn get_bishop_rays(square: Square) -> (r: BitBoard)
    requires
        square.wf(),
    ensures
        r.0 == bishop_rays_bb(square.0 as u64),
{
    get_bishop_moves(square, BitBoard(0))
}

/// Get the rank and file rays for a rook on some square.
pub fn get_rook_rays(square: Square) -> (r: BitBoard)
    requires
        square.wf(),
    ensures
        r.0 == rook_rays_bb(square.0 as u64),
{
    let rank_bb = square.rank().bitboard();
    let file_bb = square.file().bitboard();
    BitBoard(rank_bb.0 ^ file_bb.0)
}

fn sign8(x: i8) -> (r: i8)
    ensures
        r as int == sign(x as int),
{
    if x > 0 {
        1
    } else if x < 0 {
        -1
    } else {
        0
    }
}

fn walk_between(square: Square, stop: Square, df: i8, dr: i8, fuel: u8) -> (r: u64)
    requires
        square.wf(),
        stop.wf(),
        -1 <= df <= 1,
        -1 <= dr <= 1,
    ensures
        r == walk_to(square.0 as u64, stop.0 as u64, df as int, dr as int, fuel as nat),
    decreases fuel,
{
    if fuel == 0 {
        0u64
    } else {
        match (SquareDelta(df, dr)).add(square) {
            Some(t) => if t.0 == stop.0 {
                0u64
            } else {
                (1u64 << t.0) | walk_between(t, stop, df, dr, fuel - 1)
            },
            None => 0u64,
        }
    }
}

/// Get all squares strictly between two squares, if reachable via a shared
/// rank, file or diagonal; empty otherwise.
pub fn get_between_rays(from: Square, to: Square) -> (r: BitBoard)
    requires
        from.wf(),
        to.wf(),
    ensures
        r.0 == between_bb(from.0 as u64, to.0 as u64),
{
    let df: i8 = (to.0 % 8) as i8 - (from.0 % 8) as i8;
    let dr: i8 = (to.0 / 8) as i8 - (from.0 / 8) as i8;
    if from.0 != to.0 && (df == 0 || dr == 0 || df == dr || df == -dr) {
        BitBoard(walk_between(from, to, sign8(df), sign8(dr), 8))
    } else {
        BitBoard(0)
    }
}

/// Get the full line through two squares extended to the board edges,
/// including both squares; empty when no shared line exists.
pub fn get_line_rays(from: Square, to: Square) -> (r: BitBoard)
    requires
        from.wf(),
        to.wf(),
    ensures
        r.0 == line_bb(from.0 as u64, to.0 as u64),
{
    let df: i8 = (to.0 % 8) as i8 - (from.0 % 8) as i8;
    let dr: i8 = (to.0 / 8) as i8 - (from.0 / 8) as i8;
    if from.0 != to.0 && (df == 0 || dr == 0 || df == dr || df == -dr) {
        let sf = sign8(df);
        let sr = sign8(dr);
        BitBoard(
            ray_attacks(from, BitBoard(0), sf, sr, 7) | ray_attacks(
                from,
                BitBoard(0),
                -sf,
                -sr,
                7,
            ) | (1u64 << from.0),
        )
    } else {
        BitBoard(0)
    }
}

/// Get the forward pushes for a pawn of some color on some square.
pub fn get_pawn_quiets(square: Square, color: Color, blockers: BitBoard) -> (r: BitBoard)
    requires
        square.wf(),
    ensures
        r.0 == pawn_quiets_bb(square.0 as u64, color, blockers.0),
{
    let dr: i8 = if color == Color::White {
        1
    } else {
        -1
    };
    let single = delta_to(square, 0, dr) & !blockers.0;
    let second_rank: u8 = if color == Color::White {
        1
    } else {
        6
    };
    if single != 0 && square.0 / 8 == second_rank {
        BitBoard(single | (delta_to(square, 0, 2 * dr) & !blockers.0))
    } else {
        BitBoard(single)
    }
}

} // verus!
