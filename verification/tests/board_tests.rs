use cozy_chess::Board;
use cozy_chess::FenParseError;
use cozy_chess::Color;
use cozy_chess::File;
use cozy_chess::GameStatus;
use cozy_chess::Move;
use cozy_chess::Piece;
use cozy_chess::Square;

const STARTPOS: &str = "rnbqkbnr/pppppppp/8/8/8/8/PPPPPPPP/RNBQKBNR w KQkq - 0 1";

fn play_all(board: &mut Board, moves: &[&str]) {
    for mv in moves {
        board.play_unchecked(Move::from_str(mv).unwrap());
    }
}

#[test]
fn play_moves() {
    let mut board = Board::from_fen(
        "r3k2r/p1ppqpb1/bn2pnp1/3PN3/1p2P3/2N2Q1p/PPPBBPPP/R3K2R w KQkq - 0 1",
        false,
    )
    .unwrap();
    const MOVES: &[(&str, &str)] = &[
        ("f3f5", "r3k2r/p1ppqpb1/bn2pnp1/3PNQ2/1p2P3/2N4p/PPPBBPPP/R3K2R b KQkq - 1 1"),
        ("h3g2", "r3k2r/p1ppqpb1/bn2pnp1/3PNQ2/1p2P3/2N5/PPPBBPpP/R3K2R w KQkq - 0 2"),
        ("e5g6", "r3k2r/p1ppqpb1/bn2pnN1/3P1Q2/1p2P3/2N5/PPPBBPpP/R3K2R b KQkq - 0 2"),
        ("g2h1r", "r3k2r/p1ppqpb1/bn2pnN1/3P1Q2/1p2P3/2N5/PPPBBP1P/R3K2r w Qkq - 0 3"),
        ("e2f1", "r3k2r/p1ppqpb1/bn2pnN1/3P1Q2/1p2P3/2N5/PPPB1P1P/R3KB1r b Qkq - 1 3"),
        ("f7g6", "r3k2r/p1ppq1b1/bn2pnp1/3P1Q2/1p2P3/2N5/PPPB1P1P/R3KB1r w Qkq - 0 4"),
        ("d2h6", "r3k2r/p1ppq1b1/bn2pnpB/3P1Q2/1p2P3/2N5/PPP2P1P/R3KB1r b Qkq - 1 4"),
        ("e7d6", "r3k2r/p1pp2b1/bn1qpnpB/3P1Q2/1p2P3/2N5/PPP2P1P/R3KB1r w Qkq - 2 5"),
        ("f2f4", "r3k2r/p1pp2b1/bn1qpnpB/3P1Q2/1p2PP2/2N5/PPP4P/R3KB1r b Qkq f3 0 5"),
        ("e8a8", "2kr3r/p1pp2b1/bn1qpnpB/3P1Q2/1p2PP2/2N5/PPP4P/R3KB1r w Q - 1 6"),
        ("f5h5", "2kr3r/p1pp2b1/bn1qpnpB/3P3Q/1p2PP2/2N5/PPP4P/R3KB1r b Q - 2 6"),
        ("f6e4", "2kr3r/p1pp2b1/bn1qp1pB/3P3Q/1p2nP2/2N5/PPP4P/R3KB1r w Q - 0 7"),
        ("a2a4", "2kr3r/p1pp2b1/bn1qp1pB/3P3Q/Pp2nP2/2N5/1PP4P/R3KB1r b Q a3 0 7"),
        ("b4a3", "2kr3r/p1pp2b1/bn1qp1pB/3P3Q/4nP2/p1N5/1PP4P/R3KB1r w Q - 0 8"),
        ("c3d1", "2kr3r/p1pp2b1/bn1qp1pB/3P3Q/4nP2/p7/1PP4P/R2NKB1r b Q - 1 8"),
        ("a6b5", "2kr3r/p1pp2b1/1n1qp1pB/1b1P3Q/4nP2/p7/1PP4P/R2NKB1r w Q - 2 9"),
        ("h6g7", "2kr3r/p1pp2B1/1n1qp1p1/1b1P3Q/4nP2/p7/1PP4P/R2NKB1r b Q - 0 9"),
        ("d6d5", "2kr3r/p1pp2B1/1n2p1p1/1b1q3Q/4nP2/p7/1PP4P/R2NKB1r w Q - 0 10"),
        ("b2b4", "2kr3r/p1pp2B1/1n2p1p1/1b1q3Q/1P2nP2/p7/2P4P/R2NKB1r b Q b3 0 10"),
        ("e4d2", "2kr3r/p1pp2B1/1n2p1p1/1b1q3Q/1P3P2/p7/2Pn3P/R2NKB1r w Q - 1 11"),
        ("a1b1", "2kr3r/p1pp2B1/1n2p1p1/1b1q3Q/1P3P2/p7/2Pn3P/1R1NKB1r b - - 2 11"),
        ("h1h2", "2kr3r/p1pp2B1/1n2p1p1/1b1q3Q/1P3P2/p7/2Pn3r/1R1NKB2 w - - 0 12"),
        ("b1c1", "2kr3r/p1pp2B1/1n2p1p1/1b1q3Q/1P3P2/p7/2Pn3r/2RNKB2 b - - 1 12"),
        ("d2b3", "2kr3r/p1pp2B1/1n2p1p1/1b1q3Q/1P3P2/pn6/2P4r/2RNKB2 w - - 2 13"),
        ("d1b2", "2kr3r/p1pp2B1/1n2p1p1/1b1q3Q/1P3P2/pn6/1NP4r/2R1KB2 b - - 3 13"),
        ("c7c6", "2kr3r/p2p2B1/1np1p1p1/1b1q3Q/1P3P2/pn6/1NP4r/2R1KB2 w - - 0 14"),
        ("h5h6", "2kr3r/p2p2B1/1np1p1pQ/1b1q4/1P3P2/pn6/1NP4r/2R1KB2 b - - 1 14"),
        ("d5d6", "2kr3r/p2p2B1/1npqp1pQ/1b6/1P3P2/pn6/1NP4r/2R1KB2 w - - 2 15"),
        ("h6h2", "2kr3r/p2p2B1/1npqp1p1/1b6/1P3P2/pn6/1NP4Q/2R1KB2 b - - 0 15"),
        ("d6d1", "2kr3r/p2p2B1/1np1p1p1/1b6/1P3P2/pn6/1NP4Q/2RqKB2 w - - 1 16"),
        ("e1d1", "2kr3r/p2p2B1/1np1p1p1/1b6/1P3P2/pn6/1NP4Q/2RK1B2 b - - 0 16"),
        ("d7d6", "2kr3r/p5B1/1nppp1p1/1b6/1P3P2/pn6/1NP4Q/2RK1B2 w - - 0 17"),
    ];
    for &(mv, expected) in MOVES {
        board.play_unchecked(Move::from_str(mv).unwrap());
        assert_eq!(board.to_fen(false), expected);
        assert_eq!(board.hash(), Board::from_fen(expected, false).unwrap().hash());
    }
}

fn position_fields(fen: &str) -> Vec<String> {
    fen.split(' ').take(4).map(|s| s.to_string()).collect()
}

#[test]
fn mod_play_moves() {
    let mut board = Board::from_fen(
        "r3k2r/p1ppqpb1/bn2pnp1/3PN3/1p2P3/2N2Q1p/PPPBBPPP/R3K2R w KQkq - 0 1",
        false,
    )
    .unwrap();
    // The expected strings carry fixed move counters; the position fields and
    // the hash are compared.
    const MOVES: &[(&str, &str)] = &[
        ("f3f5", "r3k2r/p1ppqpb1/bn2pnp1/3PNQ2/1p2P3/2N4p/PPPBBPPP/R3K2R b KQkq - 0 1"),
        ("h3g2", "r3k2r/p1ppqpb1/bn2pnp1/3PNQ2/1p2P3/2N5/PPPBBPpP/R3K2R w KQkq - 0 1"),
        ("e5g6", "r3k2r/p1ppqpb1/bn2pnN1/3P1Q2/1p2P3/2N5/PPPBBPpP/R3K2R b KQkq - 0 1"),
        ("g2h1r", "r3k2r/p1ppqpb1/bn2pnN1/3P1Q2/1p2P3/2N5/PPPBBP1P/R3K2r w Qkq - 0 1"),
        ("e2f1", "r3k2r/p1ppqpb1/bn2pnN1/3P1Q2/1p2P3/2N5/PPPB1P1P/R3KB1r b Qkq - 0 1"),
        ("f7g6", "r3k2r/p1ppq1b1/bn2pnp1/3P1Q2/1p2P3/2N5/PPPB1P1P/R3KB1r w Qkq - 0 1"),
        ("d2h6", "r3k2r/p1ppq1b1/bn2pnpB/3P1Q2/1p2P3/2N5/PPP2P1P/R3KB1r b Qkq - 0 1"),
        ("e7d6", "r3k2r/p1pp2b1/bn1qpnpB/3P1Q2/1p2P3/2N5/PPP2P1P/R3KB1r w Qkq - 0 1"),
        ("f2f4", "r3k2r/p1pp2b1/bn1qpnpB/3P1Q2/1p2PP2/2N5/PPP4P/R3KB1r b Qkq f3 0 1"),
        ("e8a8", "2kr3r/p1pp2b1/bn1qpnpB/3P1Q2/1p2PP2/2N5/PPP4P/R3KB1r w Q - 0 1"),
        ("f5h5", "2kr3r/p1pp2b1/bn1qpnpB/3P3Q/1p2PP2/2N5/PPP4P/R3KB1r b Q - 0 1"),
        ("f6e4", "2kr3r/p1pp2b1/bn1qp1pB/3P3Q/1p2nP2/2N5/PPP4P/R3KB1r w Q - 0 1"),
        ("a2a4", "2kr3r/p1pp2b1/bn1qp1pB/3P3Q/Pp2nP2/2N5/1PP4P/R3KB1r b Q a3 0 1"),
        ("b4a3", "2kr3r/p1pp2b1/bn1qp1pB/3P3Q/4nP2/p1N5/1PP4P/R3KB1r w Q - 0 1"),
        ("c3d1", "2kr3r/p1pp2b1/bn1qp1pB/3P3Q/4nP2/p7/1PP4P/R2NKB1r b Q - 0 1"),
        ("a6b5", "2kr3r/p1pp2b1/1n1qp1pB/1b1P3Q/4nP2/p7/1PP4P/R2NKB1r w Q - 0 1"),
        ("h6g7", "2kr3r/p1pp2B1/1n1qp1p1/1b1P3Q/4nP2/p7/1PP4P/R2NKB1r b Q - 0 1"),
        ("d6d5", "2kr3r/p1pp2B1/1n2p1p1/1b1q3Q/4nP2/p7/1PP4P/R2NKB1r w Q - 0 1"),
        ("b2b4", "2kr3r/p1pp2B1/1n2p1p1/1b1q3Q/1P2nP2/p7/2P4P/R2NKB1r b Q b3 0 1"),
        ("e4d2", "2kr3r/p1pp2B1/1n2p1p1/1b1q3Q/1P3P2/p7/2Pn3P/R2NKB1r w Q - 0 1"),
        ("a1b1", "2kr3r/p1pp2B1/1n2p1p1/1b1q3Q/1P3P2/p7/2Pn3P/1R1NKB1r b - - 0 1"),
        ("h1h2", "2kr3r/p1pp2B1/1n2p1p1/1b1q3Q/1P3P2/p7/2Pn3r/1R1NKB2 w - - 0 1"),
        ("b1c1", "2kr3r/p1pp2B1/1n2p1p1/1b1q3Q/1P3P2/p7/2Pn3r/2RNKB2 b - - 0 1"),
        ("d2b3", "2kr3r/p1pp2B1/1n2p1p1/1b1q3Q/1P3P2/pn6/2P4r/2RNKB2 w - - 0 1"),
        ("d1b2", "2kr3r/p1pp2B1/1n2p1p1/1b1q3Q/1P3P2/pn6/1NP4r/2R1KB2 b - - 0 1"),
        ("c7c6", "2kr3r/p2p2B1/1np1p1p1/1b1q3Q/1P3P2/pn6/1NP4r/2R1KB2 w - - 0 1"),
        ("h5h6", "2kr3r/p2p2B1/1np1p1pQ/1b1q4/1P3P2/pn6/1NP4r/2R1KB2 b - - 0 1"),
        ("d5d6", "2kr3r/p2p2B1/1npqp1pQ/1b6/1P3P2/pn6/1NP4r/2R1KB2 w - - 0 1"),
        ("h6h2", "2kr3r/p2p2B1/1npqp1p1/1b6/1P3P2/pn6/1NP4Q/2R1KB2 b - - 0 1"),
        ("d6d1", "2kr3r/p2p2B1/1np1p1p1/1b6/1P3P2/pn6/1NP4Q/2RqKB2 w - - 0 1"),
        ("e1d1", "2kr3r/p2p2B1/1np1p1p1/1b6/1P3P2/pn6/1NP4Q/2RK1B2 b - - 0 1"),
        ("d7d6", "2kr3r/p5B1/1nppp1p1/1b6/1P3P2/pn6/1NP4Q/2RK1B2 w - - 0 1"),
    ];
    for &(mv, expected) in MOVES {
        board.play_unchecked(Move::from_str(mv).unwrap());
        assert_eq!(position_fields(&board.to_fen(false)), position_fields(expected));
        assert_eq!(board.hash(), Board::from_fen(expected, false).unwrap().hash());
    }
}

#[test]
fn startpos_round_trip() {
    let board = Board::startpos();
    assert_eq!(board.to_fen(false), STARTPOS);
    assert_eq!(board, Board::from_fen(STARTPOS, false).unwrap());
    assert!(board.validity_check());
    assert_eq!(board.side_to_move(), Color::White);
    assert_eq!(board.halfmove_clock(), 0);
    assert_eq!(board.fullmove_number(), 1);
    assert_eq!(board.piece_on(Square::new(File::E, cozy_chess::Rank::First)), Some(Piece::King));
    assert_eq!(board.color_on(Square::new(File::E, cozy_chess::Rank::First)), Some(Color::White));
    assert_eq!(board.king(Color::White), Square::new(File::E, cozy_chess::Rank::First));
}

#[test]
fn fen_round_trips() {
    let fens = [
        STARTPOS,
        "r3k2r/p1ppqpb1/bn2pnp1/3PN3/1p2P3/2N2Q1p/PPPBBPPP/R3K2R w KQkq - 0 1",
        "8/2p5/3p4/KP5r/1R3p1k/8/4P1P1/8 w - - 0 1",
        "rnbq1k1r/pp1Pbppp/2p5/8/2B5/8/PPP1NnPP/RNBQK2R w KQ - 1 8",
        "rnbqkbnr/pppppppp/8/8/4P3/8/PPPP1PPP/RNBQKBNR b KQkq e3 0 1",
        "7k/5Q2/6K1/8/8/8/8/8 b - - 0 1",
        "4k3/8/8/8/8/8/8/4K2R w K - 11 56",
    ];
    for fen in fens {
        let board = Board::from_fen(fen, false).unwrap();
        assert_eq!(board.to_fen(false), fen);
        assert_eq!(Board::from_fen(&board.to_fen(false), false).unwrap(), board);
    }
    let sfens = [
        "rnbqkbnr/pppppppp/8/8/8/8/PPPPPPPP/RNBQKBNR w HAha - 0 1",
        "1rqbkrbn/1ppppp1p/1n6/p1N3p1/8/2P4P/PP1PPPP1/1RQBKRBN w FBfb - 0 9",
    ];
    for fen in sfens {
        let board = Board::from_fen(fen, true).unwrap();
        assert_eq!(board.to_fen(true), fen);
    }
}

#[test]
fn fen_errors() {
    assert_eq!(Board::from_fen("8/8/8/8/8/8/8/8 w - - 0 1", false), Err(FenParseError::InvalidBoard));
    assert_eq!(
        Board::from_fen("rnbqkbnr/pppppppp/8/8/8/8/PPPPPPPP/RNBQKBNR x KQkq - 0 1", false),
        Err(FenParseError::InvalidSideToMove)
    );
    assert_eq!(
        Board::from_fen("rnbqkbnr/pppppppp/8/8/8/8/PPPPPPPP/RNBQKBNR w Xq - 0 1", false),
        Err(FenParseError::InvalidCastlingRights)
    );
    assert_eq!(
        Board::from_fen("rnbqkbnr/pppppppp/8/8/8/8/PPPPPPPP/RNBQKBNR w KQkq e4 0 1", false),
        Err(FenParseError::InvalidEnPassant)
    );
    assert_eq!(
        Board::from_fen("rnbqkbnr/pppppppp/8/8/8/8/PPPPPPPP/RNBQKBNR w KQkq - 101 1", false),
        Err(FenParseError::InvalidHalfMoveClock)
    );
    assert_eq!(
        Board::from_fen("rnbqkbnr/pppppppp/8/8/8/8/PPPPPPPP/RNBQKBNR w KQkq - 0 0", false),
        Err(FenParseError::InvalidFullmoveNumber)
    );
    assert_eq!(
        Board::from_fen("rnbqkbnr/pppppppp/8/8/8/8/PPPPPPPP/RNBQKBNR w KQkq - 0 1 extra", false),
        Err(FenParseError::TooManyFields)
    );
    // The side not to move may not be in check.
    assert_eq!(
        Board::from_fen("4k2R/8/8/8/8/8/8/4K3 b - - 0 1", false).is_ok(),
        true
    );
    assert_eq!(
        Board::from_fen("4k2R/8/8/8/8/8/8/4K3 w - - 0 1", false),
        Err(FenParseError::InvalidBoard)
    );
}

#[test]
fn hash_changes_with_en_passant() {
    let has_ep = Board::from_fen("rnbqkbnr/pppppppp/8/8/4P3/8/PPPP1PPP/RNBQKBNR b KQkq e3 0 1", false)
        .unwrap();
    let no_ep = Board::from_fen("rnbqkbnr/pppppppp/8/8/4P3/8/PPPP1PPP/RNBQKBNR b KQkq - 4 3", false)
        .unwrap();
    assert_ne!(has_ep.hash(), no_ep.hash());
    assert_eq!(has_ep.hash_without_ep(), no_ep.hash());
    assert_eq!(no_ep.hash_without_ep(), no_ep.hash());
}

#[test]
fn hash_matches_scratch_construction() {
    let mut board = Board::startpos();
    play_all(&mut board, &["e2e4", "e7e5", "e1e2", "e8e7"]);
    let expected = Board::from_fen("rnbq1bnr/ppppkppp/8/4p3/4P3/8/PPPPKPPP/RNBQ1BNR w - - 2 3", false)
        .unwrap();
    assert_eq!(board.hash(), expected.hash());
    assert_eq!(board.to_fen(false), expected.to_fen(false));
}

#[test]
fn validity_is_preserved_by_legal_play() {
    let mut board = Board::startpos();
    let moves = ["e2e4", "c7c5", "g1f3", "d7d6", "d2d4", "c5d4", "f3d4", "g8f6", "b1c3", "a7a6"];
    for mv in moves {
        assert!(board.validity_check());
        assert_eq!(board.status(), GameStatus::Ongoing);
        let mv = Move::from_str(mv).unwrap();
        assert!(board.is_legal(mv));
        assert_eq!(board.try_play(mv), Ok(true));
    }
    assert!(board.validity_check());
}

#[test]
fn illegal_moves_are_refused() {
    let mut board = Board::startpos();
    let illegal = Move::from_str("e1e8").unwrap();
    assert!(!board.is_legal(illegal));
    assert_eq!(board.try_play(illegal), Ok(false));
    assert_eq!(board, Board::startpos());
}

#[test]
fn null_move_hands_over_the_turn() {
    let mut board = Board::startpos();
    play_all(&mut board, &["f2f4", "e7e5"]);
    assert_eq!(board.side_to_move(), Color::White);
    let board = board.null_move().unwrap();
    assert_eq!(board.side_to_move(), Color::Black);
    let mut board = board;
    play_all(&mut board, &["d8h4"]);
    // The king may not be left in check.
    assert!(board.null_move().is_none());
}

#[test]
fn fifty_move_rule() {
    let mut board = Board::startpos();
    play_all(&mut board, &["e2e4", "e7e5"]);
    let cycle = ["e1e2", "e8e7", "e2e1", "e7e8"];
    for mv in cycle.iter().cycle().take(50 * 2) {
        assert_eq!(board.status(), GameStatus::Ongoing);
        board.play_unchecked(Move::from_str(mv).unwrap());
    }
    assert_eq!(board.halfmove_clock(), 100);
    assert_eq!(board.status(), GameStatus::Drawn);
}

#[test]
fn checkmate_is_won() {
    let board = Board::from_fen("R6k/6pp/8/8/8/8/8/7K b - - 0 1", false).unwrap();
    assert!(!board.checkers().is_empty());
    assert!(board.generate_moves().is_empty());
    assert_eq!(board.status(), GameStatus::Won);
}

#[test]
fn stalemate_is_drawn() {
    let board = Board::from_fen("7k/5Q2/6K1/8/8/8/8/8 b - - 0 1", false).unwrap();
    assert!(board.checkers().is_empty());
    assert!(board.generate_moves().is_empty());
    assert_eq!(board.status(), GameStatus::Drawn);
}

#[test]
fn unchecked_play_reports_missing_pieces() {
    // An empty source square is an error, and the board is left unchanged.
    let mut board = Board::startpos();
    let before = board;
    let mv = Move::from_str("e3e4").unwrap();
    assert!(board.try_play_unchecked(mv).is_err());
    assert_eq!(board, before);
}
