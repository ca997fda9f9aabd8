use cozy_chess::Board;

fn perft(board: &Board, depth: u8) -> u64 {
    let mut nodes = 0u64;
    if depth == 0 {
        return 1;
    }
    for pm in board.generate_moves() {
        if depth == 1 {
            nodes += pm.len() as u64;
        } else {
            let mut it = pm.iter();
            while let Some(mv) = it.next() {
                let mut child = *board;
                child.play_unchecked(mv);
                nodes += perft(&child, depth - 1);
            }
        }
    }
    nodes
}

fn check_perft(fen: &str, shredder: bool, nodes: &[u64]) {
    let board = Board::from_fen(fen, shredder).unwrap();
    for (depth, &expected) in nodes.iter().enumerate() {
        assert_eq!(perft(&board, depth as u8), expected, "perft {} of {}", depth, fen);
    }
}

#[test]
fn perft_startpos() {
    check_perft(
        "rnbqkbnr/pppppppp/8/8/8/8/PPPPPPPP/RNBQKBNR w KQkq - 0 1",
        false,
        &[1, 20, 400, 8902, 197281],
    );
}

#[test]
fn perft_kiwipete() {
    check_perft(
        "r3k2r/p1ppqpb1/bn2pnp1/3PN3/1p2P3/2N2Q1p/PPPBBPPP/R3K2R w KQkq - 0 1",
        false,
        &[1, 48, 2039, 97862],
    );
}

#[test]
fn perft_position_3() {
    check_perft("8/2p5/3p4/KP5r/1R3p1k/8/4P1P1/8 w - - 0 1", false, &[1, 14, 191, 2812, 43238]);
}

#[test]
fn perft_position_4() {
    check_perft(
        "r3k2r/Pppp1ppp/1b3nbN/nP6/BBP1P3/q4N2/Pp1P2PP/R2Q1RK1 w kq - 0 1",
        false,
        &[1, 6, 264, 9467, 422333],
    );
}

#[test]
fn perft_position_5() {
    check_perft(
        "rnbq1k1r/pp1Pbppp/2p5/8/2B5/8/PPP1NnPP/RNBQK2R w KQ - 1 8",
        false,
        &[1, 44, 1486, 62379],
    );
}

#[test]
fn perft_960_position_333() {
    check_perft(
        "1rqbkrbn/1ppppp1p/1n6/p1N3p1/8/2P4P/PP1PPPP1/1RQBKRBN w FBfb - 0 9",
        true,
        &[1, 29, 502, 14569, 287739],
    );
}
