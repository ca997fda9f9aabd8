use cozy_chess::util::{display_uci_move, parse_uci_move};
use cozy_chess::Board;
use cozy_chess::Move;
use cozy_chess::MoveParseError;

#[test]
fn parse_and_display_moves() {
    let mv = Move::from_str("e2e4").unwrap();
    assert_eq!(mv.to_uci(), "e2e4");
    let mv = Move::from_str("g2h1r").unwrap();
    assert_eq!(mv.to_uci(), "g2h1r");
    assert_eq!(Move::from_str("e2"), Err(MoveParseError::InvalidMove));
    assert_eq!(Move::from_str("i2e4"), Err(MoveParseError::InvalidMove));
    assert_eq!(Move::from_str("e2e4x"), Err(MoveParseError::InvalidMove));
}

#[test]
fn uci_castling_is_normalized() {
    let board = Board::from_fen(
        "rnbqkb1r/ppp2ppp/4pn2/3p4/8/5NP1/PPPPPPBP/RNBQK2R w KQkq - 0 4",
        false,
    )
    .unwrap();
    assert_eq!(
        parse_uci_move(&board, "e1g1").unwrap(),
        Move::from_str("e1h1").unwrap()
    );
    let castle = Move::from_str("e1h1").unwrap();
    assert_eq!(display_uci_move(&board, castle), "e1g1");
    // Ordinary moves pass through unchanged.
    assert_eq!(
        parse_uci_move(&board, "d2d4").unwrap(),
        Move::from_str("d2d4").unwrap()
    );
    assert_eq!(display_uci_move(&board, Move::from_str("d2d4").unwrap()), "d2d4");
}
