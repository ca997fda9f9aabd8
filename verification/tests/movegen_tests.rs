use cozy_chess::Board;
use cozy_chess::Color;
use cozy_chess::File;
use cozy_chess::Move;
use cozy_chess::Piece;
use cozy_chess::Rank;
use cozy_chess::Square;

fn all_moves(board: &Board) -> Vec<Move> {
    let mut out = Vec::new();
    for pm in board.generate_moves() {
        let mut it = pm.iter();
        while let Some(mv) = it.next() {
            out.push(mv);
        }
    }
    out
}

fn play(board: &mut Board, moves: &[&str]) {
    for mv in moves {
        board.play_unchecked(Move::from_str(mv).unwrap());
    }
}

#[test]
fn double_push_then_en_passant() {
    let mut board = Board::startpos();
    play(&mut board, &["e2e4", "a7a6", "e4e5", "d7d5"]);
    assert_eq!(board.en_passant(), Some(File::D));
    let ep = Move::from_str("e5d6").unwrap();
    let count = all_moves(&board).iter().filter(|m| **m == ep).count();
    assert_eq!(count, 1);
    board.play_unchecked(ep);
    // The captured pawn is gone and the target is cleared.
    assert_eq!(board.piece_on(Square::new(File::D, Rank::Fifth)), None);
    assert_eq!(board.piece_on(Square::new(File::D, Rank::Sixth)), Some(Piece::Pawn));
    assert_eq!(board.en_passant(), None);
}

#[test]
fn castling_both_wings() {
    let board = Board::from_fen("r3k2r/8/8/8/8/8/8/R3K2R w KQkq - 0 1", false).unwrap();
    let moves = all_moves(&board);
    let short = Move::from_str("e1h1").unwrap();
    let long = Move::from_str("e1a1").unwrap();
    assert!(moves.contains(&short));
    assert!(moves.contains(&long));
    let mut board = board;
    board.play_unchecked(long);
    let rights = board.castle_rights(Color::White);
    assert_eq!(rights.short, None);
    assert_eq!(rights.long, None);
    assert_eq!(board.piece_on(Square::new(File::C, Rank::First)), Some(Piece::King));
    assert_eq!(board.piece_on(Square::new(File::D, Rank::First)), Some(Piece::Rook));
    assert!(board.validity_check());
}

#[test]
fn pinned_knight_cannot_move() {
    let board = Board::from_fen("4r2k/8/8/8/4N3/8/8/4K3 w - - 0 1", false).unwrap();
    let knight_sq = Square::new(File::E, Rank::Fourth);
    assert!(board.pinned().has(knight_sq));
    let knight_moves = all_moves(&board).iter().filter(|m| m.from == knight_sq).count();
    assert_eq!(knight_moves, 0);
}

#[test]
fn pinned_bishop_slides_along_the_pin() {
    // A bishop pinned along a diagonal may still slide on that diagonal.
    let board = Board::from_fen("7k/8/8/8/7b/8/5B2/4K3 w - - 0 1", false).unwrap();
    let bishop_sq = Square::new(File::F, Rank::Second);
    assert!(board.pinned().has(bishop_sq));
    let dests: Vec<Move> = all_moves(&board).into_iter().filter(|m| m.from == bishop_sq).collect();
    assert!(dests.contains(&Move::from_str("f2g3").unwrap()));
    assert!(dests.contains(&Move::from_str("f2h4").unwrap()));
    assert!(!dests.contains(&Move::from_str("f2e3").unwrap()));
    assert!(!dests.contains(&Move::from_str("f2g1").unwrap()));
}

#[test]
fn double_check_only_king_moves() {
    // Rook and knight give check at once; only the king may move.
    let board = Board::from_fen("4R2k/7p/6N1/8/8/8/8/4K3 b - - 0 1", false).unwrap();
    assert_eq!(board.checkers().popcnt(), 2);
    let batches = board.generate_moves();
    assert!(!batches.is_empty());
    for pm in &batches {
        assert_eq!(pm.piece, Piece::King);
    }
}

#[test]
fn promotions_expand_to_four_moves() {
    let board = Board::from_fen("8/5P1k/8/8/8/8/8/4K3 w - - 0 1", false).unwrap();
    let moves = all_moves(&board);
    let promos: Vec<&Move> = moves.iter().filter(|m| m.from == Square::new(File::F, Rank::Seventh)).collect();
    assert_eq!(promos.len(), 4);
    assert!(promos.iter().all(|m| m.to == Square::new(File::F, Rank::Eighth)));
    let kinds: Vec<Option<Piece>> = promos.iter().map(|m| m.promotion).collect();
    assert!(kinds.contains(&Some(Piece::Knight)));
    assert!(kinds.contains(&Some(Piece::Bishop)));
    assert!(kinds.contains(&Some(Piece::Rook)));
    assert!(kinds.contains(&Some(Piece::Queen)));
}

#[test]
fn listener_batches_are_bounded_and_nonempty() {
    let fens = [
        "rnbqkbnr/pppppppp/8/8/8/8/PPPPPPPP/RNBQKBNR w KQkq - 0 1",
        "r3k2r/p1ppqpb1/bn2pnp1/3PN3/1p2P3/2N2Q1p/PPPBBPPP/R3K2R w KQkq - 0 1",
        "8/2p5/3p4/KP5r/1R3p1k/8/4P1P1/8 w - - 0 1",
    ];
    for fen in fens {
        let board = Board::from_fen(fen, false).unwrap();
        let batches = board.generate_moves();
        assert!(batches.len() <= 18);
        for pm in &batches {
            assert!(!pm.empty());
            assert_eq!(board.piece_on(pm.from), Some(pm.piece));
            assert_eq!(board.color_on(pm.from), Some(board.side_to_move()));
        }
    }
}

#[test]
fn try_generate_moves_requires_a_king() {
    // A board missing the side-to-move king cannot be built by parsing, so
    // assemble one by hand.
    let parsed = Board::from_fen("4k3/8/8/8/8/8/8/Q3K3 b - - 0 1", false).unwrap();
    let mut inner = parsed.inner;
    inner.black = cozy_chess::BitBoard(0);
    inner.kings = cozy_chess::BitBoard(inner.kings.0 & inner.white.0);
    let board = Board { inner, ..parsed };
    assert!(!board.validity_check());
    assert!(board.try_generate_moves().is_err());
    assert!(parsed.try_generate_moves().is_ok());
}
