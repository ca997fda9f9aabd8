//! Piece placement with an incrementally maintained Zobrist hash.
//!
//! The hash of a placement state is defined from scratch as the XOR of one
//! fixed 64-bit key per observable feature: piece presence per square, the
//! side to move, each castle right (keyed by side, wing and rook file) and the
//! en-passant file. Every mutation XORs exactly the keys of the features it
//! toggles, and carries a proof that the stored hash still equals the
//! from-scratch definition.

use vstd::prelude::*;

use crate::bitboard::BitBoard;
use crate::bits::{bit, lemma_bit_ops, lemma_bit_single};
use crate::types::{opp, CastleRights, Color, File, Piece, Square};

verus! {

/// The finalizer of the splitmix64 generator, used to derive the fixed keys
/// from small feature indices.
#[verifier::opaque]
pub open spec fn mix64(x: u64) -> u64 {
    let a = vstd::wrapping::u64_specs::wrapping_add(x, 0x9E37_79B9_7F4A_7C15);
    let b = vstd::wrapping::u64_specs::wrapping_mul(a ^ (a >> 30), 0xBF58_476D_1CE4_E5B9);
    let c = vstd::wrapping::u64_specs::wrapping_mul(b ^ (b >> 27), 0x94D0_49BB_1331_11EB);
    c ^ (c >> 31)
}

fn mix64_exec(x: u64) -> (r: u64)
    ensures
        r == mix64(x),
{
    proof {
        reveal(mix64);
    }
    let a = x.wrapping_add(0x9E37_79B9_7F4A_7C15);
    let b = (a ^ (a >> 30)).wrapping_mul(0xBF58_476D_1CE4_E5B9);
    let c = (b ^ (b >> 27)).wrapping_mul(0x94D0_49BB_1331_11EB);
    c ^ (c >> 31)
}

/// Key of one piece of one color standing on one square.
pub open spec fn piece_key(piece: Piece, color: Color, sq: u64) -> u64 {
    mix64((((color.idx() * 6 + piece.idx()) * 64 + sq) as u64))
}

/// Key of the side to move being black.
pub open spec fn stm_key() -> u64 {
    mix64(768)
}

/// Key of one castle right, keyed by side, wing and rook file.
pub open spec fn castle_key(color: Color, short: bool, file: File) -> u64 {
    mix64(
        ((769 + (color.idx() * 2 + if short {
            0int
        } else {
            1int
        }) * 8 + file.idx()) as u64),
    )
}

/// Key of an en-passant file.
pub open spec fn ep_key(file: File) -> u64 {
    mix64(((801 + file.idx()) as u64))
}

fn piece_key_exec(piece: Piece, color: Color, square: Square) -> (r: u64)
    requires
        square.wf(),
    ensures
        r == piece_key(piece, color, square.0 as u64),
{
    let c: u64 = if color == Color::Black {
        1
    } else {
        0
    };
    let p: u64 = match piece {
        Piece::Pawn => 0,
        Piece::Knight => 1,
        Piece::Bishop => 2,
        Piece::Rook => 3,
        Piece::Queen => 4,
        Piece::King => 5,
    };
    mix64_exec((c * 6 + p) * 64 + square.0 as u64)
}

fn castle_key_exec(color: Color, short: bool, file: File) -> (r: u64)
    ensures
        r == castle_key(color, short, file),
{
    let c: u64 = if color == Color::Black {
        1
    } else {
        0
    };
    let s: u64 = if short {
        0
    } else {
        1
    };
    mix64_exec(769 + (c * 2 + s) * 8 + file.index() as u64)
}

pub fn ep_key_exec(file: File) -> (r: u64)
    ensures
        r == ep_key(file),
{
    mix64_exec(801 + file.index() as u64)
}

/// Placement state: piece and color bitboards, side to move, castle rights,
/// en-passant file and the running hash.
#[derive(Debug, Clone, Copy, PartialEq, Eq, Hash)]
pub struct ZobristBoard {
    pub pawns: BitBoard,
    pub knights: BitBoard,
    pub bishops: BitBoard,
    pub rooks: BitBoard,
    pub queens: BitBoard,
    pub kings: BitBoard,
    pub white: BitBoard,
    pub black: BitBoard,
    pub stm: Color,
    pub white_rights: CastleRights,
    pub black_rights: CastleRights,
    pub ep: Option<File>,
    pub hash: u64,
}

/// Contribution of one (piece, color) pair at one square.
pub open spec fn pc_term(z: ZobristBoard, piece: Piece, color: Color, sq: u64) -> u64 {
    if bit(z.pieces_bb(piece), sq) && bit(z.colors_bb(color), sq) {
        piece_key(piece, color, sq)
    } else {
        0u64
    }
}

/// Contribution of one square to the placement hash.
pub open spec fn sq_contrib(z: ZobristBoard, sq: u64) -> u64 {
    pc_term(z, Piece::Pawn, Color::White, sq) ^ pc_term(z, Piece::Knight, Color::White, sq)
        ^ pc_term(z, Piece::Bishop, Color::White, sq) ^ pc_term(z, Piece::Rook, Color::White, sq)
        ^ pc_term(z, Piece::Queen, Color::White, sq) ^ pc_term(z, Piece::King, Color::White, sq)
        ^ pc_term(z, Piece::Pawn, Color::Black, sq) ^ pc_term(z, Piece::Knight, Color::Black, sq)
        ^ pc_term(z, Piece::Bishop, Color::Black, sq) ^ pc_term(z, Piece::Rook, Color::Black, sq)
        ^ pc_term(z, Piece::Queen, Color::Black, sq) ^ pc_term(z, Piece::King, Color::Black, sq)
}

/// XOR of the square contributions below `n`.
pub open spec fn placement_fold(z: ZobristBoard, n: nat) -> u64
    decreases n,
{
    if n == 0 {
        0u64
    } else {
        placement_fold(z, (n - 1) as nat) ^ sq_contrib(z, (n - 1) as u64)
    }
}

/// Hash contribution of the piece placement alone.
pub open spec fn placement_hash(z: ZobristBoard) -> u64 {
    placement_fold(z, 64)
}

/// Hash contribution of the side to move.
pub open spec fn stm_hash(c: Color) -> u64 {
    if c == Color::Black {
        stm_key()
    } else {
        0u64
    }
}

/// Hash contribution of one optional castle right.
pub open spec fn right_hash(color: Color, short: bool, right: Option<File>) -> u64 {
    match right {
        Some(f) => castle_key(color, short, f),
        None => 0u64,
    }
}

/// Hash contribution of one side's castle rights.
pub open spec fn rights_hash(color: Color, rights: CastleRights) -> u64 {
    right_hash(color, true, rights.short) ^ right_hash(color, false, rights.long)
}

/// Hash contribution of the en-passant file.
pub open spec fn ep_hash(ep: Option<File>) -> u64 {
    match ep {
        Some(f) => ep_key(f),
        None => 0u64,
    }
}

/// The from-scratch hash of a placement state, without the en-passant
/// contribution.
#[verifier::opaque]
pub open spec fn board_hash_no_ep(z: ZobristBoard) -> u64 {
    placement_hash(z) ^ stm_hash(z.stm) ^ rights_hash(Color::White, z.white_rights) ^ rights_hash(
        Color::Black,
        z.black_rights,
    )
}

/// The from-scratch hash of a placement state.
#[verifier::opaque]
pub open spec fn board_hash(z: ZobristBoard) -> u64 {
    board_hash_no_ep(z) ^ ep_hash(z.ep)
}

impl ZobristBoard {
    /// The bitboard of one piece kind.
    pub open spec fn pieces_bb(self, piece: Piece) -> u64 {
        match piece {
            Piece::Pawn => self.pawns.0,
            Piece::Knight => self.knights.0,
            Piece::Bishop => self.bishops.0,
            Piece::Rook => self.rooks.0,
            Piece::Queen => self.queens.0,
            Piece::King => self.kings.0,
        }
    }

    /// The bitboard of one color.
    pub open spec fn colors_bb(self, color: Color) -> u64 {
        match color {
            Color::White => self.white.0,
            Color::Black => self.black.0,
        }
    }

    /// The castle rights of one side.
    pub open spec fn rights_of(self, color: Color) -> CastleRights {
        match color {
            Color::White => self.white_rights,
            Color::Black => self.black_rights,
        }
    }

    /// The stored hash equals the from-scratch hash.
    pub open spec fn hash_ok(self) -> bool {
        self.hash == board_hash(self)
    }

    /// Square `sq` holds no piece of any kind or color.
    pub open spec fn sq_empty(self, sq: u64) -> bool {
        &&& !bit(self.pawns.0, sq)
        &&& !bit(self.knights.0, sq)
        &&& !bit(self.bishops.0, sq)
        &&& !bit(self.rooks.0, sq)
        &&& !bit(self.queens.0, sq)
        &&& !bit(self.kings.0, sq)
        &&& !bit(self.white.0, sq)
        &&& !bit(self.black.0, sq)
    }

    /// Square `sq` holds exactly one piece: `piece` of `color`.
    pub open spec fn sq_exactly(self, piece: Piece, color: Color, sq: u64) -> bool {
        &&& forall|q: Piece| (#[trigger] bit(self.pieces_bb(q), sq)) == (q == piece)
        &&& bit(self.colors_bb(color), sq)
        &&& !bit(self.colors_bb(opp(color)), sq)
    }

    /// The empty placement: no pieces, white to move, no rights, no
    /// en-passant, hash zero.
    #[verifier::rlimit(30)]
    pub fn empty() -> (z: ZobristBoard)
        ensures
            z.pawns.0 == 0,
            z.knights.0 == 0,
            z.bishops.0 == 0,
            z.rooks.0 == 0,
            z.queens.0 == 0,
            z.kings.0 == 0,
            z.white.0 == 0,
            z.black.0 == 0,
            z.stm == Color::White,
            z.white_rights.short is None,
            z.white_rights.long is None,
            z.black_rights.short is None,
            z.black_rights.long is None,
            z.ep is None,
            z.hash == 0,
            z.hash_ok(),
    {
        let z = ZobristBoard {
            pawns: BitBoard(0),
            knights: BitBoard(0),
            bishops: BitBoard(0),
            rooks: BitBoard(0),
            queens: BitBoard(0),
            kings: BitBoard(0),
            white: BitBoard(0),
            black: BitBoard(0),
            stm: Color::White,
            white_rights: CastleRights { short: None, long: None },
            black_rights: CastleRights { short: None, long: None },
            ep: None,
            hash: 0,
        };
        proof {
            reveal(board_hash);
            reveal(board_hash_no_ep);
            lemma_fold_empty(z, 64);
            crate::bits::lemma_xor_units();
            assert(placement_hash(z) == 0u64);
            assert(stm_hash(z.stm) == 0u64);
            assert(rights_hash(Color::White, z.white_rights) == 0u64);
            assert(rights_hash(Color::Black, z.black_rights) == 0u64);
            assert(ep_hash(z.ep) == 0u64);
        }
        z
    }


    /// Whether a square is empty in every layer.
    pub fn square_empty(&self, square: Square) -> (r: bool)
        requires
            square.wf(),
        ensures
            r == self.sq_empty(square.0 as u64),
    {
        let s = square.0;
        !((self.pawns.0 >> s) & 1 == 1) && !((self.knights.0 >> s) & 1 == 1) && !((self.bishops.0
            >> s) & 1 == 1) && !((self.rooks.0 >> s) & 1 == 1) && !((self.queens.0 >> s) & 1 == 1)
            && !((self.kings.0 >> s) & 1 == 1) && !((self.white.0 >> s) & 1 == 1) && !((
        self.black.0 >> s) & 1 == 1)
    }

    /// Toggle the presence of `piece` of `color` on `square`, updating the
    /// hash by the matching key. The square must currently hold exactly that
    /// piece, or nothing at all.
    pub fn xor_square(&mut self, piece: Piece, color: Color, square: Square)
        requires
            old(self).hash_ok(),
            square.wf(),
            old(self).sq_empty(square.0 as u64) || old(self).sq_exactly(
                piece,
                color,
                square.0 as u64,
            ),
        ensures
            final(self).pieces_bb(piece) == old(self).pieces_bb(piece) ^ (1u64 << square.0),
            final(self).colors_bb(color) == old(self).colors_bb(color) ^ (1u64 << square.0),
            forall|q: Piece| q != piece ==> final(self).pieces_bb(q) == old(self).pieces_bb(q),
            final(self).colors_bb(opp(color)) == old(self).colors_bb(opp(color)),
            final(self).stm == old(self).stm,
            final(self).white_rights == old(self).white_rights,
            final(self).black_rights == old(self).black_rights,
            final(self).ep == old(self).ep,
            final(self).hash == old(self).hash ^ piece_key(piece, color, square.0 as u64),
            final(self).hash_ok(),
    {
        let sq_bb = 1u64 << square.0;
        match piece {
            Piece::Pawn => self.pawns = BitBoard(self.pawns.0 ^ sq_bb),
            Piece::Knight => self.knights = BitBoard(self.knights.0 ^ sq_bb),
            Piece::Bishop => self.bishops = BitBoard(self.bishops.0 ^ sq_bb),
            Piece::Rook => self.rooks = BitBoard(self.rooks.0 ^ sq_bb),
            Piece::Queen => self.queens = BitBoard(self.queens.0 ^ sq_bb),
            Piece::King => self.kings = BitBoard(self.kings.0 ^ sq_bb),
        }
        match color {
            Color::White => self.white = BitBoard(self.white.0 ^ sq_bb),
            Color::Black => self.black = BitBoard(self.black.0 ^ sq_bb),
        }
        let key = piece_key_exec(piece, color, square);
        self.hash = self.hash ^ key;
        proof {
            reveal(board_hash);
            reveal(board_hash_no_ep);
            lemma_fold_toggle(*old(self), *self, piece, color, square.0 as u64);
            let p_old = placement_hash(*old(self));
            let s = stm_hash(self.stm);
            let cw = rights_hash(Color::White, self.white_rights);
            let cb = rights_hash(Color::Black, self.black_rights);
            let e = ep_hash(self.ep);
            let k = key;
            assert((((p_old ^ k) ^ s ^ cw ^ cb) ^ e) == ((((p_old ^ s ^ cw ^ cb) ^ e)) ^ k))
                by (bit_vector);
        }
    }

    /// Set one castle right of one side, updating the hash by the keys of the
    /// old and new right.
    pub fn set_castle_right(&mut self, color: Color, short: bool, file: Option<File>)
        requires
            old(self).hash_ok(),
        ensures
            final(self).rights_of(color) == (if short {
                CastleRights { short: file, long: old(self).rights_of(color).long }
            } else {
                CastleRights { short: old(self).rights_of(color).short, long: file }
            }),
            final(self).rights_of(opp(color)) == old(self).rights_of(opp(color)),
            final(self).pawns == old(self).pawns,
            final(self).knights == old(self).knights,
            final(self).bishops == old(self).bishops,
            final(self).rooks == old(self).rooks,
            final(self).queens == old(self).queens,
            final(self).kings == old(self).kings,
            final(self).white == old(self).white,
            final(self).black == old(self).black,
            final(self).stm == old(self).stm,
            final(self).ep == old(self).ep,
            final(self).hash_ok(),
    {
        let old_right = match (color, short) {
            (Color::White, true) => self.white_rights.short,
            (Color::White, false) => self.white_rights.long,
            (Color::Black, true) => self.black_rights.short,
            (Color::Black, false) => self.black_rights.long,
        };
        let old_part = match old_right {
            Some(f) => castle_key_exec(color, short, f),
            None => 0u64,
        };
        let new_part = match file {
            Some(f) => castle_key_exec(color, short, f),
            None => 0u64,
        };
        match (color, short) {
            (Color::White, true) => self.white_rights.short = file,
            (Color::White, false) => self.white_rights.long = file,
            (Color::Black, true) => self.black_rights.short = file,
            (Color::Black, false) => self.black_rights.long = file,
        }
        self.hash = self.hash ^ old_part ^ new_part;
        proof {
            reveal(board_hash);
            reveal(board_hash_no_ep);
            lemma_fold_same_placement(*old(self), *self, 64);
            let p = placement_hash(*old(self));
            let s = stm_hash(self.stm);
            let e = ep_hash(self.ep);
            let cw0 = rights_hash(Color::White, old(self).white_rights);
            let cb0 = rights_hash(Color::Black, old(self).black_rights);
            let cw1 = rights_hash(Color::White, self.white_rights);
            let cb1 = rights_hash(Color::Black, self.black_rights);
            let op = old_part;
            let np = new_part;
            let changed0 = rights_hash(color, old(self).rights_of(color));
            let changed1 = rights_hash(color, self.rights_of(color));
            let kept = right_hash(
                color,
                !short,
                if short {
                    old(self).rights_of(color).long
                } else {
                    old(self).rights_of(color).short
                },
            );
            if short {
                assert(changed0 == op ^ kept);
                assert(changed1 == np ^ kept);
                assert(changed1 == changed0 ^ op ^ np) by (bit_vector)
                    requires
                        changed0 == op ^ kept,
                        changed1 == np ^ kept,
                ;
            } else {
                assert(changed0 == kept ^ op);
                assert(changed1 == kept ^ np);
                assert(changed1 == changed0 ^ op ^ np) by (bit_vector)
                    requires
                        changed0 == kept ^ op,
                        changed1 == kept ^ np,
                ;
            }
            if color == Color::White {
                assert(cb1 == cb0);
                assert(cw0 == changed0 && cw1 == changed1);
                assert((((p ^ s ^ cw0 ^ cb0) ^ e) ^ op ^ np) == ((p ^ s ^ (cw0 ^ op ^ np) ^ cb0)
                    ^ e)) by (bit_vector);
            } else {
                assert(cw1 == cw0);
                assert(cb0 == changed0 && cb1 == changed1);
                assert((((p ^ s ^ cw0 ^ cb0) ^ e) ^ op ^ np) == ((p ^ s ^ cw0 ^ (cb0 ^ op ^ np))
                    ^ e)) by (bit_vector);
            }
        }
    }

    /// Set the en-passant file, updating the hash by the keys of the old and
    /// new file.
    pub fn set_en_passant(&mut self, ep: Option<File>)
        requires
            old(self).hash_ok(),
        ensures
            final(self).ep == ep,
            final(self).pawns == old(self).pawns,
            final(self).knights == old(self).knights,
            final(self).bishops == old(self).bishops,
            final(self).rooks == old(self).rooks,
            final(self).queens == old(self).queens,
            final(self).kings == old(self).kings,
            final(self).white == old(self).white,
            final(self).black == old(self).black,
            final(self).stm == old(self).stm,
            final(self).white_rights == old(self).white_rights,
            final(self).black_rights == old(self).black_rights,
            final(self).hash_ok(),
    {
        let old_part = match self.ep {
            Some(f) => ep_key_exec(f),
            None => 0u64,
        };
        let new_part = match ep {
            Some(f) => ep_key_exec(f),
            None => 0u64,
        };
        self.ep = ep;
        self.hash = self.hash ^ old_part ^ new_part;
        proof {
            reveal(board_hash);
            reveal(board_hash_no_ep);
            lemma_fold_same_placement(*old(self), *self, 64);
            let rest = board_hash_no_ep(*old(self));
            let op = old_part;
            let np = new_part;
            assert(board_hash_no_ep(*self) == rest);
            assert(((rest ^ op) ^ op ^ np) == (rest ^ np)) by (bit_vector);
        }
    }

    /// Flip the side to move, updating the hash by the side-to-move key.
    pub fn toggle_side_to_move(&mut self)
        requires
            old(self).hash_ok(),
        ensures
            final(self).stm == opp(old(self).stm),
            final(self).pawns == old(self).pawns,
            final(self).knights == old(self).knights,
            final(self).bishops == old(self).bishops,
            final(self).rooks == old(self).rooks,
            final(self).queens == old(self).queens,
            final(self).kings == old(self).kings,
            final(self).white == old(self).white,
            final(self).black == old(self).black,
            final(self).white_rights == old(self).white_rights,
            final(self).black_rights == old(self).black_rights,
            final(self).ep == old(self).ep,
            final(self).hash == old(self).hash ^ stm_key(),
            final(self).hash_ok(),
    {
        self.stm = self.stm.other();
        let key = mix64_exec(768);
        self.hash = self.hash ^ key;
        proof {
            reveal(board_hash);
            reveal(board_hash_no_ep);
            lemma_fold_same_placement(*old(self), *self, 64);
            let p = placement_hash(*old(self));
            let cw = rights_hash(Color::White, self.white_rights);
            let cb = rights_hash(Color::Black, self.black_rights);
            let e = ep_hash(self.ep);
            let k = stm_key();
            let s0 = stm_hash(old(self).stm);
            let s1 = stm_hash(self.stm);
            assert(s1 == s0 ^ k) by (bit_vector)
                requires
                    (s0 == 0u64 && s1 == k) || (s0 == k && s1 == 0u64),
            ;
            assert((((p ^ s0 ^ cw ^ cb) ^ e) ^ k) == ((p ^ (s0 ^ k) ^ cw ^ cb) ^ e))
                by (bit_vector);
        }
    }
}

proof fn lemma_fold_empty(z: ZobristBoard, n: nat)
    requires
        n <= 64,
        z.pawns.0 == 0,
        z.knights.0 == 0,
        z.bishops.0 == 0,
        z.rooks.0 == 0,
        z.queens.0 == 0,
        z.kings.0 == 0,
        z.white.0 == 0,
        z.black.0 == 0,
    ensures
        placement_fold(z, n) == 0u64,
    decreases n,
{
    if n > 0 {
        lemma_fold_empty(z, (n - 1) as nat);
        let sq = (n - 1) as u64;
        crate::bits::lemma_xor_units();
        assert(forall|j: u64| j < 64 ==> !bit(0u64, j)) by (bit_vector);
        assert forall|p: Piece, c: Color| #[trigger] pc_term(z, p, c, sq) == 0u64 by {
            assert(z.pieces_bb(p) == 0u64);
        }
        assert(sq_contrib(z, sq) == 0u64);
    }
}

/// Two states with identical piece and color bitboards share every square
/// contribution, and so the whole placement fold.
proof fn lemma_fold_same_placement(a: ZobristBoard, b: ZobristBoard, n: nat)
    requires
        a.pawns == b.pawns,
        a.knights == b.knights,
        a.bishops == b.bishops,
        a.rooks == b.rooks,
        a.queens == b.queens,
        a.kings == b.kings,
        a.white == b.white,
        a.black == b.black,
    ensures
        placement_fold(a, n) == placement_fold(b, n),
    decreases n,
{
    if n > 0 {
        lemma_fold_same_placement(a, b, (n - 1) as nat);
        let sq = (n - 1) as u64;
        assert forall|p: Piece, c: Color| #[trigger]
            pc_term(a, p, c, sq) == pc_term(b, p, c, sq) by {
            assert(a.pieces_bb(p) == b.pieces_bb(p));
            assert(a.colors_bb(c) == b.colors_bb(c));
        }
        assert(sq_contrib(a, sq) == sq_contrib(b, sq));
    }
}

/// Toggling one piece of one color on one clean square changes the placement
/// fold by exactly that key.
proof fn lemma_fold_toggle_below(
    a: ZobristBoard,
    b: ZobristBoard,
    piece: Piece,
    color: Color,
    sq: u64,
    n: nat,
)
    requires
        sq < 64,
        n <= 64,
        a.sq_empty(sq) || a.sq_exactly(piece, color, sq),
        b.pieces_bb(piece) == a.pieces_bb(piece) ^ (1u64 << sq),
        b.colors_bb(color) == a.colors_bb(color) ^ (1u64 << sq),
        forall|q: Piece| q != piece ==> b.pieces_bb(q) == a.pieces_bb(q),
        b.colors_bb(opp(color)) == a.colors_bb(opp(color)),
    ensures
        placement_fold(b, n) == if sq < n {
            placement_fold(a, n) ^ piece_key(piece, color, sq)
        } else {
            placement_fold(a, n)
        },
    decreases n,
{
    if n > 0 {
        lemma_fold_toggle_below(a, b, piece, color, sq, (n - 1) as nat);
        let i = (n - 1) as u64;
        if i != sq {
            assert forall|p: Piece, c: Color| #[trigger]
                pc_term(b, p, c, i) == pc_term(a, p, c, i) by {
                lemma_bit_ops(a.pieces_bb(piece), 1u64 << sq, i);
                lemma_bit_ops(a.colors_bb(color), 1u64 << sq, i);
                assert(bit(a.pieces_bb(piece) ^ (1u64 << sq), i) == (bit(a.pieces_bb(piece), i)
                    != bit(1u64 << sq, i)));
                lemma_bit_single(sq, i);
            }
            assert(sq_contrib(b, i) == sq_contrib(a, i));
            if sq < n - 1 {
                let fa = placement_fold(a, (n - 1) as nat);
                let k = piece_key(piece, color, sq);
                let ci = sq_contrib(a, i);
                assert(((fa ^ k) ^ ci) == ((fa ^ ci) ^ k)) by (bit_vector);
            }
        } else {
            // The toggled square: exactly the (piece, color) term flips.
            lemma_bit_ops(a.pieces_bb(piece), 1u64 << sq, sq);
            lemma_bit_ops(a.colors_bb(color), 1u64 << sq, sq);
            lemma_bit_single(sq, sq);
            assert(bit(b.pieces_bb(piece), sq) == !bit(a.pieces_bb(piece), sq));
            assert(bit(b.colors_bb(color), sq) == !bit(a.colors_bb(color), sq));
            let k = piece_key(piece, color, sq);
            assert forall|p: Piece, c: Color|
                !(p == piece && c == color) implies #[trigger] pc_term(b, p, c, sq) == pc_term(
                a,
                p,
                c,
                sq,
            ) && pc_term(a, p, c, sq) == 0u64 by {
                if a.sq_empty(sq) {
                    assert(!bit(a.pieces_bb(p), sq));
                    if p == piece {
                        assert(c == opp(color));
                        assert(!bit(b.colors_bb(c), sq));
                    } else {
                        assert(!bit(b.pieces_bb(p), sq));
                    }
                } else {
                    if p == piece {
                        assert(c == opp(color));
                        assert(!bit(a.colors_bb(c), sq));
                        assert(!bit(b.colors_bb(c), sq));
                    } else {
                        assert(!bit(a.pieces_bb(p), sq));
                        assert(!bit(b.pieces_bb(p), sq));
                    }
                }
            }
            crate::bits::lemma_xor_units();
            assert(pc_term(b, piece, color, sq) == pc_term(a, piece, color, sq) ^ k) by {
                if a.sq_empty(sq) {
                    assert(pc_term(a, piece, color, sq) == 0u64);
                    assert(pc_term(b, piece, color, sq) == k);
                } else {
                    assert(pc_term(a, piece, color, sq) == k);
                    assert(pc_term(b, piece, color, sq) == 0u64);
                }
            }
            lemma_contrib_one_term(a, b, piece, color, sq, k);
            let fa = placement_fold(a, (n - 1) as nat);
            let ca = sq_contrib(a, sq);
            assert((fa ^ (ca ^ k)) == ((fa ^ ca) ^ k)) by (bit_vector);
        }
    }
}

proof fn lemma_xor_twelve(
    t0: u64,
    t1: u64,
    t2: u64,
    t3: u64,
    t4: u64,
    t5: u64,
    t6: u64,
    t7: u64,
    t8: u64,
    t9: u64,
    t10: u64,
    t11: u64,
    d0: u64,
    d1: u64,
    d2: u64,
    d3: u64,
    d4: u64,
    d5: u64,
    d6: u64,
    d7: u64,
    d8: u64,
    d9: u64,
    d10: u64,
    d11: u64,
)
    by (bit_vector)
    ensures
        ((t0 ^ d0) ^ (t1 ^ d1) ^ (t2 ^ d2) ^ (t3 ^ d3) ^ (t4 ^ d4) ^ (t5 ^ d5) ^ (t6 ^ d6) ^ (t7
            ^ d7) ^ (t8 ^ d8) ^ (t9 ^ d9) ^ (t10 ^ d10) ^ (t11 ^ d11)) == ((t0 ^ t1 ^ t2 ^ t3 ^ t4
            ^ t5 ^ t6 ^ t7 ^ t8 ^ t9 ^ t10 ^ t11) ^ (d0 ^ d1 ^ d2 ^ d3 ^ d4 ^ d5 ^ d6 ^ d7 ^ d8
            ^ d9 ^ d10 ^ d11)),
{
}

/// When all terms but the `(piece, color)` one agree, and that one differs by
/// `k`, the whole square contribution differs by `k`.
proof fn lemma_contrib_one_term(
    a: ZobristBoard,
    b: ZobristBoard,
    piece: Piece,
    color: Color,
    sq: u64,
    k: u64,
)
    requires
        forall|p: Piece, c: Color|
            !(p == piece && c == color) ==> #[trigger] pc_term(b, p, c, sq) == pc_term(a, p, c, sq),
        pc_term(b, piece, color, sq) == pc_term(a, piece, color, sq) ^ k,
    ensures
        sq_contrib(b, sq) == sq_contrib(a, sq) ^ k,
{
    crate::bits::lemma_xor_units();
    let d = |p: Piece, c: Color| -> u64
        {
            if p == piece && c == color {
                k
            } else {
                0u64
            }
        };
    assert forall|p: Piece, c: Color| #[trigger]
        pc_term(b, p, c, sq) == pc_term(a, p, c, sq) ^ d(p, c) by {
        if !(p == piece && c == color) {
            assert(pc_term(b, p, c, sq) == pc_term(a, p, c, sq));
            assert(pc_term(a, p, c, sq) ^ 0u64 == pc_term(a, p, c, sq));
        }
    }
    let dx = d(Piece::Pawn, Color::White) ^ d(Piece::Knight, Color::White) ^ d(
        Piece::Bishop,
        Color::White,
    ) ^ d(Piece::Rook, Color::White) ^ d(Piece::Queen, Color::White) ^ d(Piece::King, Color::White)
        ^ d(Piece::Pawn, Color::Black) ^ d(Piece::Knight, Color::Black) ^ d(
        Piece::Bishop,
        Color::Black,
    ) ^ d(Piece::Rook, Color::Black) ^ d(Piece::Queen, Color::Black) ^ d(Piece::King, Color::Black);
    assert(dx == k);
    lemma_xor_twelve(
        pc_term(a, Piece::Pawn, Color::White, sq),
        pc_term(a, Piece::Knight, Color::White, sq),
        pc_term(a, Piece::Bishop, Color::White, sq),
        pc_term(a, Piece::Rook, Color::White, sq),
        pc_term(a, Piece::Queen, Color::White, sq),
        pc_term(a, Piece::King, Color::White, sq),
        pc_term(a, Piece::Pawn, Color::Black, sq),
        pc_term(a, Piece::Knight, Color::Black, sq),
        pc_term(a, Piece::Bishop, Color::Black, sq),
        pc_term(a, Piece::Rook, Color::Black, sq),
        pc_term(a, Piece::Queen, Color::Black, sq),
        pc_term(a, Piece::King, Color::Black, sq),
        d(Piece::Pawn, Color::White),
        d(Piece::Knight, Color::White),
        d(Piece::Bishop, Color::White),
        d(Piece::Rook, Color::White),
        d(Piece::Queen, Color::White),
        d(Piece::King, Color::White),
        d(Piece::Pawn, Color::Black),
        d(Piece::Knight, Color::Black),
        d(Piece::Bishop, Color::Black),
        d(Piece::Rook, Color::Black),
        d(Piece::Queen, Color::Black),
        d(Piece::King, Color::Black),
    );
}

proof fn lemma_fold_toggle(a: ZobristBoard, b: ZobristBoard, piece: Piece, color: Color, sq: u64)
    requires
        sq < 64,
        a.sq_empty(sq) || a.sq_exactly(piece, color, sq),
        b.pieces_bb(piece) == a.pieces_bb(piece) ^ (1u64 << sq),
        b.colors_bb(color) == a.colors_bb(color) ^ (1u64 << sq),
        forall|q: Piece| q != piece ==> b.pieces_bb(q) == a.pieces_bb(q),
        b.colors_bb(opp(color)) == a.colors_bb(opp(color)),
    ensures
        placement_hash(b) == placement_hash(a) ^ piece_key(piece, color, sq),
{
    lemma_fold_toggle_below(a, b, piece, color, sq, 64);
}


/// The hash is a function of the observable position alone: two placement
/// states with the same pieces, side to move, castle rights and en-passant
/// file carry the same hash, however they were reached. The incremental hash
/// therefore always equals the hash computed from scratch.
pub proof fn lemma_hash_law(a: ZobristBoard, b: ZobristBoard)
    requires
        a.hash_ok(),
        b.hash_ok(),
        a.pawns == b.pawns,
        a.knights == b.knights,
        a.bishops == b.bishops,
        a.rooks == b.rooks,
        a.queens == b.queens,
        a.kings == b.kings,
        a.white == b.white,
        a.black == b.black,
        a.stm == b.stm,
        a.white_rights == b.white_rights,
        a.black_rights == b.black_rights,
        a.ep == b.ep,
    ensures
        a.hash == b.hash,
{
    reveal(board_hash);
    reveal(board_hash_no_ep);
    lemma_fold_same_placement(a, b, 64);
}

/// Stripping the en-passant contribution from the hash gives exactly the
/// hash of the same position with en passant cleared.
pub proof fn lemma_hash_without_ep(a: ZobristBoard, b: ZobristBoard)
    requires
        a.pawns == b.pawns,
        a.knights == b.knights,
        a.bishops == b.bishops,
        a.rooks == b.rooks,
        a.queens == b.queens,
        a.kings == b.kings,
        a.white == b.white,
        a.black == b.black,
        a.stm == b.stm,
        a.white_rights == b.white_rights,
        a.black_rights == b.black_rights,
        b.ep is None,
    ensures
        board_hash_no_ep(a) == board_hash(b),
{
    reveal(board_hash);
    reveal(board_hash_no_ep);
    crate::bits::lemma_xor_units();
    lemma_fold_same_placement(a, b, 64);
    assert(ep_hash(b.ep) == 0u64);
}


fn pc_term_exec(z: &ZobristBoard, piece: Piece, color: Color, square: Square) -> (r: u64)
    requires
        square.wf(),
    ensures
        r == pc_term(*z, piece, color, square.0 as u64),
{
    let pieces = match piece {
        Piece::Pawn => z.pawns.0,
        Piece::Knight => z.knights.0,
        Piece::Bishop => z.bishops.0,
        Piece::Rook => z.rooks.0,
        Piece::Queen => z.queens.0,
        Piece::King => z.kings.0,
    };
    let colors = match color {
        Color::White => z.white.0,
        Color::Black => z.black.0,
    };
    if (pieces >> square.0) & 1 == 1 && (colors >> square.0) & 1 == 1 {
        piece_key_exec(piece, color, square)
    } else {
        0u64
    }
}

fn sq_contrib_exec(z: &ZobristBoard, square: Square) -> (r: u64)
    requires
        square.wf(),
    ensures
        r == sq_contrib(*z, square.0 as u64),
{
    pc_term_exec(z, Piece::Pawn, Color::White, square) ^ pc_term_exec(
        z,
        Piece::Knight,
        Color::White,
        square,
    ) ^ pc_term_exec(z, Piece::Bishop, Color::White, square) ^ pc_term_exec(
        z,
        Piece::Rook,
        Color::White,
        square,
    ) ^ pc_term_exec(z, Piece::Queen, Color::White, square) ^ pc_term_exec(
        z,
        Piece::King,
        Color::White,
        square,
    ) ^ pc_term_exec(z, Piece::Pawn, Color::Black, square) ^ pc_term_exec(
        z,
        Piece::Knight,
        Color::Black,
        square,
    ) ^ pc_term_exec(z, Piece::Bishop, Color::Black, square) ^ pc_term_exec(
        z,
        Piece::Rook,
        Color::Black,
        square,
    ) ^ pc_term_exec(z, Piece::Queen, Color::Black, square) ^ pc_term_exec(
        z,
        Piece::King,
        Color::Black,
        square,
    )
}

fn rights_hash_exec(color: Color, rights: CastleRights) -> (r: u64)
    ensures
        r == rights_hash(color, rights),
{
    let short = match rights.short {
        Some(f) => castle_key_exec(color, true, f),
        None => 0u64,
    };
    let long = match rights.long {
        Some(f) => castle_key_exec(color, false, f),
        None => 0u64,
    };
    short ^ long
}

/// Compute the position hash from scratch: the XOR of the keys of every
/// present feature. The incrementally maintained hash always equals this.
pub fn hash_of(z: &ZobristBoard) -> (r: u64)
    ensures
        r == board_hash(*z),
{
    proof {
        reveal(board_hash);
        reveal(board_hash_no_ep);
    }
    let mut h: u64 = 0;
    let mut i: u64 = 0;
    while i < 64
        invariant
            i <= 64,
            h == placement_fold(*z, i as nat),
        decreases 64 - i,
    {
        let c = sq_contrib_exec(z, Square(i as u8));
        h = h ^ c;
        i = i + 1;
    }
    let s: u64 = if matches!(z.stm, Color::Black) {
        mix64_exec(768)
    } else {
        0u64
    };
    let cw = rights_hash_exec(Color::White, z.white_rights);
    let cb = rights_hash_exec(Color::Black, z.black_rights);
    let e: u64 = match z.ep {
        Some(f) => ep_key_exec(f),
        None => 0u64,
    };
    (((h ^ s) ^ cw) ^ cb) ^ e
}

impl ZobristBoard {
    /// Replace the stored hash by the hash computed from scratch, restoring
    /// the hash invariant on a hand-assembled placement.
    pub fn recompute_hash(&mut self)
        ensures
            final(self).pawns == old(self).pawns,
            final(self).knights == old(self).knights,
            final(self).bishops == old(self).bishops,
            final(self).rooks == old(self).rooks,
            final(self).queens == old(self).queens,
            final(self).kings == old(self).kings,
            final(self).white == old(self).white,
            final(self).black == old(self).black,
            final(self).stm == old(self).stm,
            final(self).white_rights == old(self).white_rights,
            final(self).black_rights == old(self).black_rights,
            final(self).ep == old(self).ep,
            final(self).hash_ok(),
    {
        let h = hash_of(self);
        self.hash = h;
        proof {
            reveal(board_hash);
            reveal(board_hash_no_ep);
            lemma_fold_same_placement(*old(self), *self, 64);
        }
    }
}

} // verus!
