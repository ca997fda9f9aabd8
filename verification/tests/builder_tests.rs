use cozy_chess::Board;
use cozy_chess::BoardBuilder;
use cozy_chess::Color;
use cozy_chess::File;
use cozy_chess::Piece;
use cozy_chess::Rank;
use cozy_chess::Square;

#[test]
fn roundtrip_board() {
    let fens = [
        "rnbqkbnr/pppppppp/8/8/8/8/PPPPPPPP/RNBQKBNR w HAha - 0 1",
        "r3k2r/p1ppqpb1/bn2pnp1/3PN3/1p2P3/2N2Q1p/PPPBBPPP/R3K2R w HAha - 0 1",
        "8/2p5/3p4/KP5r/1R3p1k/8/4P1P1/8 w - - 0 1",
        "rnbq1k1r/pp1Pbppp/2p5/8/2B5/8/PPP1NnPP/RNBQK2R w HA - 1 8",
        "1rqbkrbn/1ppppp1p/1n6/p1N3p1/8/2P4P/PP1PPPP1/1RQBKRBN w FBfb - 0 9",
        "rbbqn1kr/pp2p1pp/6n1/2pp1p2/2P4P/P7/BP1PPPP1/R1BQNNKR w HAha - 0 9",
        "rnbqkbnr/pppppppp/8/8/4P3/8/PPPP1PPP/RNBQKBNR b HAha e3 0 1",
        "7k/5Q2/6K1/8/8/8/8/8 b - - 0 1",
        "4k3/8/8/8/8/8/8/4K2R w H - 11 56",
        "rkb2bnr/pp2pppp/2p1n3/3p4/q2P4/5NP1/PPP1PP1P/RKBNQBR1 w A - 0 9",
    ];
    for fen in fens.iter() {
        let board = Board::from_fen(fen, true).unwrap();
        let builder = BoardBuilder::from_board(&board).unwrap();
        assert_eq!(builder.build().unwrap(), board);
    }
}

#[test]
fn builder_from_scratch() {
    let mut builder = BoardBuilder::empty();
    assert!(builder.square(Square::new(File::A, Rank::First)).is_none());
    builder.set_square(Square::new(File::E, Rank::First), Some((Piece::King, Color::White)));
    builder.set_square(Square::new(File::E, Rank::Eighth), Some((Piece::King, Color::Black)));
    builder.set_square(Square::new(File::A, Rank::Second), Some((Piece::Pawn, Color::White)));
    assert_eq!(
        builder.square(Square::new(File::E, Rank::First)),
        Some((Piece::King, Color::White))
    );
    let board = builder.build().unwrap();
    assert!(board.validity_check());
    assert_eq!(board.to_fen(false), "4k3/8/8/8/8/8/P7/4K3 w - - 0 1");
}

#[test]
fn builder_rejects_missing_kings() {
    let mut builder = BoardBuilder::empty();
    builder.set_square(Square::new(File::E, Rank::First), Some((Piece::King, Color::White)));
    assert!(builder.build().is_err());
}

#[test]
fn builder_keeps_castle_rights() {
    let board = Board::from_fen("r3k2r/8/8/8/8/8/8/R3K2R w KQkq - 0 1", false).unwrap();
    let builder = BoardBuilder::from_board(&board).unwrap();
    assert_eq!(builder.castle_rights(Color::White).short, Some(File::H));
    assert_eq!(builder.castle_rights(Color::White).long, Some(File::A));
    let rebuilt = builder.build().unwrap();
    assert_eq!(rebuilt, board);
    assert_eq!(rebuilt.hash(), board.hash());
}
