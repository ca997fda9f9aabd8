use cozy_chess::moves::{
    get_between_rays, get_bishop_moves, get_bishop_rays, get_king_moves, get_knight_moves,
    get_line_rays, get_pawn_attacks, get_pawn_quiets, get_rook_moves, get_rook_rays,
};
use cozy_chess::BitBoard;
use cozy_chess::Color;
use cozy_chess::File;
use cozy_chess::Rank;
use cozy_chess::Square;
use cozy_chess::SquareDelta;

fn sq(f: File, r: Rank) -> Square {
    Square::new(f, r)
}

fn bb(squares: &[Square]) -> BitBoard {
    let mut out = 0u64;
    for s in squares {
        out |= s.bitboard().0;
    }
    BitBoard(out)
}

#[test]
fn square_encoding() {
    assert_eq!(sq(File::A, Rank::First).0, 0);
    assert_eq!(sq(File::H, Rank::Eighth).0, 63);
    assert_eq!(sq(File::D, Rank::Third).0, 2 * 8 + 3);
    assert_eq!(sq(File::D, Rank::Third).file(), File::D);
    assert_eq!(sq(File::D, Rank::Third).rank(), Rank::Third);
    assert_eq!(sq(File::B, Rank::First).bitboard().0, 1u64 << 1);
    assert_eq!(Square::try_index(64), None);
    assert_eq!(Square::try_index(12), Some(Square(12)));
}

#[test]
fn file_and_rank_basics() {
    assert_eq!(File::A.flip(), File::H);
    assert_eq!(Rank::First.flip(), Rank::Eighth);
    assert_eq!(Rank::First.relative_to(Color::White), Rank::First);
    assert_eq!(Rank::First.relative_to(Color::Black), Rank::Eighth);
    assert_eq!(File::B.bitboard().0, 0x0202_0202_0202_0202);
    assert_eq!(Rank::Second.bitboard().0, 0xFF00);
    assert_eq!(Color::White.other(), Color::Black);
    assert_eq!(Color::Black.other(), Color::White);
}

#[test]
fn bitboard_basics() {
    let b = bb(&[sq(File::C, Rank::Third), sq(File::E, Rank::Fifth)]);
    assert_eq!(b.popcnt(), 2);
    assert!(b.has(sq(File::C, Rank::Third)));
    assert!(!b.has(sq(File::C, Rank::Fourth)));
    assert!(!b.is_empty());
    assert!(BitBoard(0).is_empty());
    assert_eq!(b.next_square(), Some(sq(File::C, Rank::Third)));
    assert_eq!(BitBoard(0).next_square(), None);
    let squares = b.squares();
    assert_eq!(squares, vec![sq(File::C, Rank::Third), sq(File::E, Rank::Fifth)]);
}

#[test]
fn square_delta_add() {
    let d = SquareDelta(1, 2);
    assert_eq!(d.add(sq(File::D, Rank::Third)), Some(sq(File::E, Rank::Fifth)));
    assert_eq!(SquareDelta(-1, 0).add(sq(File::A, Rank::First)), None);
    assert_eq!(SquareDelta(0, 1).add(sq(File::H, Rank::Eighth)), None);
}

#[test]
fn knight_and_king_tables() {
    let moves = get_knight_moves(sq(File::D, Rank::Third));
    let expected = bb(&[
        sq(File::C, Rank::First),
        sq(File::E, Rank::First),
        sq(File::B, Rank::Second),
        sq(File::F, Rank::Second),
        sq(File::B, Rank::Fourth),
        sq(File::F, Rank::Fourth),
        sq(File::C, Rank::Fifth),
        sq(File::E, Rank::Fifth),
    ]);
    assert_eq!(moves, expected);
    let corner = get_king_moves(sq(File::A, Rank::First));
    let expected = bb(&[sq(File::B, Rank::First), sq(File::A, Rank::Second), sq(File::B, Rank::Second)]);
    assert_eq!(corner, expected);
}

#[test]
fn pawn_tables() {
    let attacks = get_pawn_attacks(sq(File::D, Rank::Third), Color::White);
    assert_eq!(attacks, bb(&[sq(File::C, Rank::Fourth), sq(File::E, Rank::Fourth)]));
    let attacks = get_pawn_attacks(sq(File::A, Rank::Sixth), Color::Black);
    assert_eq!(attacks, bb(&[sq(File::B, Rank::Fifth)]));
    let quiets = get_pawn_quiets(sq(File::D, Rank::Second), Color::White, BitBoard(0));
    assert_eq!(quiets, bb(&[sq(File::D, Rank::Third), sq(File::D, Rank::Fourth)]));
    let blocked = get_pawn_quiets(
        sq(File::D, Rank::Second),
        Color::White,
        sq(File::D, Rank::Fourth).bitboard(),
    );
    assert_eq!(blocked, bb(&[sq(File::D, Rank::Third)]));
    let blocked = get_pawn_quiets(
        sq(File::D, Rank::Second),
        Color::White,
        sq(File::D, Rank::Third).bitboard(),
    );
    assert_eq!(blocked, BitBoard(0));
    let black = get_pawn_quiets(sq(File::D, Rank::Seventh), Color::Black, sq(File::D, Rank::Fifth).bitboard());
    assert_eq!(black, bb(&[sq(File::D, Rank::Sixth)]));
}

#[test]
fn slider_tables() {
    let blockers = bb(&[sq(File::D, Rank::Fifth), sq(File::F, Rank::Third)]);
    let rook = get_rook_moves(sq(File::D, Rank::Third), blockers);
    let expected = bb(&[
        sq(File::D, Rank::First),
        sq(File::D, Rank::Second),
        sq(File::D, Rank::Fourth),
        sq(File::D, Rank::Fifth),
        sq(File::A, Rank::Third),
        sq(File::B, Rank::Third),
        sq(File::C, Rank::Third),
        sq(File::E, Rank::Third),
        sq(File::F, Rank::Third),
    ]);
    assert_eq!(rook, expected);
    let bishop = get_bishop_moves(sq(File::A, Rank::First), sq(File::C, Rank::Third).bitboard());
    assert_eq!(bishop, bb(&[sq(File::B, Rank::Second), sq(File::C, Rank::Third)]));
    assert_eq!(
        get_rook_rays(sq(File::D, Rank::Third)).0,
        get_rook_moves(sq(File::D, Rank::Third), BitBoard(0)).0
    );
    assert_eq!(
        get_bishop_rays(sq(File::D, Rank::Third)).0,
        get_bishop_moves(sq(File::D, Rank::Third), BitBoard(0)).0
    );
}

#[test]
fn between_and_line_rays() {
    let between = get_between_rays(sq(File::B, Rank::Fourth), sq(File::G, Rank::Fourth));
    let expected = bb(&[
        sq(File::C, Rank::Fourth),
        sq(File::D, Rank::Fourth),
        sq(File::E, Rank::Fourth),
        sq(File::F, Rank::Fourth),
    ]);
    assert_eq!(between, expected);
    assert_eq!(get_between_rays(sq(File::B, Rank::Fourth), sq(File::C, Rank::Sixth)), BitBoard(0));
    let line = get_line_rays(sq(File::D, Rank::Second), sq(File::G, Rank::Fifth));
    let expected = bb(&[
        sq(File::C, Rank::First),
        sq(File::D, Rank::Second),
        sq(File::E, Rank::Third),
        sq(File::F, Rank::Fourth),
        sq(File::G, Rank::Fifth),
        sq(File::H, Rank::Sixth),
    ]);
    assert_eq!(line, expected);
}

#[test]
fn popcount_and_lowest_bit() {
    assert_eq!(cozy_chess::bits::popcnt64(0), 0);
    assert_eq!(cozy_chess::bits::popcnt64(u64::MAX), 64);
    assert_eq!(cozy_chess::bits::popcnt64(0b1011), 3);
    assert_eq!(cozy_chess::bits::lowest_bit(0), None);
    assert_eq!(cozy_chess::bits::lowest_bit(0b1000), Some(3));
}
