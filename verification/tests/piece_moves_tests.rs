use cozy_chess::BitBoard;
use cozy_chess::File;
use cozy_chess::Piece;
use cozy_chess::PieceMoves;
use cozy_chess::Rank;
use cozy_chess::Square;

fn sq(f: File, r: Rank) -> Square {
    Square::new(f, r)
}

#[test]
fn len_handles_promotions() {
    let mv = PieceMoves {
        piece: Piece::Pawn,
        from: sq(File::A, Rank::Seventh),
        to: BitBoard(sq(File::A, Rank::Eighth).bitboard().0 | sq(File::B, Rank::Eighth).bitboard().0),
    };
    assert_eq!(mv.len(), 8);
    let mut iter = mv.iter();
    assert_eq!(iter.len(), 8);
    for len in (0..8).rev() {
        iter.next();
        assert_eq!(iter.len(), len);
    }
}

#[test]
fn iterator_expands_promotions_in_order() {
    let mv = PieceMoves {
        piece: Piece::Pawn,
        from: sq(File::A, Rank::Seventh),
        to: sq(File::A, Rank::Eighth).bitboard(),
    };
    let mut iter = mv.iter();
    let kinds: Vec<Option<Piece>> = (0..4).map(|_| iter.next().unwrap().promotion).collect();
    assert_eq!(
        kinds,
        vec![Some(Piece::Knight), Some(Piece::Bishop), Some(Piece::Rook), Some(Piece::Queen)]
    );
    assert!(iter.next().is_none());
}

#[test]
fn batch_iterates_least_significant_square_first() {
    let mv = PieceMoves {
        piece: Piece::Rook,
        from: sq(File::A, Rank::First),
        to: BitBoard(
            sq(File::C, Rank::First).bitboard().0 | sq(File::A, Rank::Third).bitboard().0,
        ),
    };
    assert_eq!(mv.len(), 2);
    assert!(!mv.empty());
    let mut iter = mv.iter();
    let first = iter.next().unwrap();
    let second = iter.next().unwrap();
    assert_eq!(first.to, sq(File::C, Rank::First));
    assert_eq!(first.promotion, None);
    assert_eq!(second.to, sq(File::A, Rank::Third));
    assert!(iter.next().is_none());
    let empty = PieceMoves { piece: Piece::Rook, from: sq(File::A, Rank::First), to: BitBoard(0) };
    assert!(empty.empty());
    assert_eq!(empty.len(), 0);
}
