use chessengine::board::{build_board, ChessBoard};
use chessengine::search::negamax;

fn board_from(fen: &str) -> ChessBoard {
    let mut b = build_board([[0u8; 8]; 8]);
    b.from_fen(fen);
    b
}

#[test]
fn checkmate_scores_the_sentinel_for_the_mated_side() {
    // A back-rank mate: Black to move has no legal move and the king is
    // attacked, so the side to move scores the checkmated sentinel.
    let mut b = board_from("R5k1/5ppp/8/8/8/8/8/6K1 b - - 0 1");
    assert_eq!(negamax(&mut b, 1), -100000);
    let mut b2 = board_from("R5k1/5ppp/8/8/8/8/8/6K1 b - - 0 1");
    assert_eq!(negamax(&mut b2, 2), -100000);
}

#[test]
fn mate_in_one_is_found_at_depth_two() {
    // Black to move mates in one: the search sees every white reply
    // checkmated, so the mover's score is the negated sentinel.
    let mut b = board_from("r3k2r/pp3p2/2n1p3/2pp1b2/6nq/1P1PPN2/PBP2PB1/R2QR1K1 b kq - 1 15");
    assert_eq!(negamax(&mut b, 2), 100000);
}

#[test]
fn stalemate_scores_zero() {
    // Black to move has no legal move and is not attacked.
    let mut b = board_from("7k/8/6Q1/8/8/8/8/K7 b - - 0 1");
    assert_eq!(negamax(&mut b, 1), 0);
    let mut b2 = board_from("7k/8/6Q1/8/8/8/8/K7 b - - 0 1");
    assert_eq!(negamax(&mut b2, 2), 0);
}

#[test]
fn depth_one_picks_the_best_capture() {
    // White can win the queen on d5 with the rook, leaving a rook
    // against a bare king: five points up.
    let mut b = board_from("4k3/8/8/3q4/8/8/8/3RK3 w - - 0 1");
    assert_eq!(negamax(&mut b, 1), 5);
}

#[test]
fn search_leaves_the_position_restored() {
    let mut b = board_from("r3k2r/p1ppqpb1/bn2pnp1/3PN3/1p2P3/2N2Q1p/PPPBBPPP/R3K2R w KQkq -");
    let board = b.board;
    let ep = b.ep;
    let flags = (
        b.white_kingside_castle,
        b.white_queenside_castle,
        b.black_kingside_castle,
        b.black_queenside_castle,
    );
    let kings = (b.white_king_pos, b.black_king_pos);
    let sides = (b.protagonist, b.opponent);
    negamax(&mut b, 3);
    assert_eq!(b.board, board);
    assert_eq!(b.ep, ep);
    assert_eq!(
        (
            b.white_kingside_castle,
            b.white_queenside_castle,
            b.black_kingside_castle,
            b.black_queenside_castle,
        ),
        flags
    );
    assert_eq!((b.white_king_pos, b.black_king_pos), kings);
    assert_eq!((b.protagonist, b.opponent), sides);
}
