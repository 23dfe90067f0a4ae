use chessengine::board::{build_board, ChessBoard};

fn board_from(fen: &str) -> ChessBoard {
    let mut b = build_board([[0u8; 8]; 8]);
    b.from_fen(fen);
    b
}

fn snapshot(b: &ChessBoard) -> ([u8; 64], (usize, usize), (usize, usize), u8, u8) {
    (
        b.board,
        b.white_king_pos,
        b.black_king_pos,
        b.protagonist,
        b.opponent,
    )
}

/// Applies every generated move and reverts each legal one, checking the
/// board, king cache and sides return to the starting state once the
/// caller restores the en-passant target and the castling flags.
fn round_trip_all(fen: &str) {
    let mut b = board_from(fen);
    let before = snapshot(&b);
    let moves = b.get_all_moves();
    assert!(!moves.is_empty());
    for m in moves {
        let ep = b.ep;
        let wkc = b.white_kingside_castle;
        let wqc = b.white_queenside_castle;
        let bkc = b.black_kingside_castle;
        let bqc = b.black_queenside_castle;
        if let Some(captured) = b.make(m.0, m.1) {
            b.unmake(m.0, m.1, captured);
        }
        b.ep = ep;
        b.white_kingside_castle = wkc;
        b.white_queenside_castle = wqc;
        b.black_kingside_castle = bkc;
        b.black_queenside_castle = bqc;
        assert_eq!(snapshot(&b), before);
    }
}

#[test]
fn round_trip_from_the_initial_position() {
    round_trip_all("rnbqkbnr/pppppppp/8/8/8/8/PPPPPPPP/RNBQKBNR w KQkq - 0 1");
}

#[test]
fn round_trip_with_captures_castles_and_promotions() {
    round_trip_all("r3k2r/p1ppqpb1/bn2pnp1/3PN3/1p2P3/2N2Q1p/PPPBBPPP/R3K2R w KQkq -");
    round_trip_all("r3k2r/Pppp1ppp/1b3nbN/nP6/BBP1P3/q4N2/Pp1P2PP/R2Q1RK1 w kq - 0 1");
}

#[test]
fn round_trip_with_en_passant() {
    let mut b = board_from("4k3/3p4/8/4P3/8/8/8/4K3 b - - 0 1");
    assert!(b.make((1, 3), (3, 3, 0)).is_some());
    round_trip_all("4k3/8/8/3pP3/8/8/8/4K3 w - d6 0 1");
}

#[test]
fn make_swaps_sides_and_reports_the_capture() {
    let mut b = board_from("4k3/8/8/3p4/4P3/8/8/4K3 w - - 0 1");
    let r = b.make((4, 4), (3, 3, 0));
    assert_eq!(r, Some(0b0011));
    assert_eq!(b.protagonist, 0b0000);
    assert_eq!(b.opponent, 0b1000);
    assert_eq!(b.at(3, 3), 0b1011);
    assert_eq!(b.at(4, 4), 0);
}

#[test]
fn make_refuses_a_move_that_leaves_the_king_attacked() {
    // The white rook on e2 shields its king from the black rook on e8:
    // moving it away is illegal; the board is left restored.
    let mut b = board_from("4r1k1/8/8/8/8/8/4R3/4K3 w - - 0 1");
    let before = (b.board, b.white_king_pos, b.protagonist);
    let r = b.make((6, 4), (6, 0, 0));
    assert_eq!(r, None);
    assert_eq!((b.board, b.white_king_pos, b.protagonist), before);
    // Along the file the rook stays between the two: legal.
    let r2 = b.make((6, 4), (4, 4, 0));
    assert!(r2.is_some());
}

#[test]
fn castling_moves_the_rook_and_reverts() {
    let mut b = board_from("r3k2r/pppppppp/8/8/8/8/PPPPPPPP/R3K2R w KQkq - 0 1");
    let before = snapshot(&b);
    let r = b.make((7, 4), (7, 6, 0));
    assert_eq!(r, Some(0));
    assert_eq!(b.at(7, 6), 0b1001);
    assert_eq!(b.at(7, 5), 0b1100);
    assert_eq!(b.at(7, 7), 0);
    assert_eq!(b.white_king_pos, (7, 6));
    b.unmake((7, 4), (7, 6, 0), 0);
    assert_eq!(snapshot(&b), before);
    // Queenside likewise.
    let r2 = b.make((7, 4), (7, 2, 0));
    assert_eq!(r2, Some(0));
    assert_eq!(b.at(7, 2), 0b1001);
    assert_eq!(b.at(7, 3), 0b1100);
    assert_eq!(b.at(7, 0), 0);
    b.unmake((7, 4), (7, 2, 0), 0);
    assert_eq!(snapshot(&b), before);
}

#[test]
fn promotion_places_the_chosen_piece_and_reverts() {
    let mut b = board_from("8/P6k/8/8/8/8/8/7K w - - 0 1");
    let before = snapshot(&b);
    let r = b.make((1, 0), (0, 0, 0b0010));
    assert_eq!(r, Some(0));
    assert_eq!(b.at(0, 0), 0b1010);
    assert_eq!(b.at(1, 0), 0);
    b.unmake((1, 0), (0, 0, 0b0010), 0);
    assert_eq!(snapshot(&b), before);
    assert_eq!(b.at(1, 0), 0b1011);
}

#[test]
fn en_passant_capture_removes_the_passed_pawn() {
    let mut b = board_from("4k3/3p4/8/4P3/8/8/8/4K3 b - - 0 1");
    assert!(b.make((1, 3), (3, 3, 0)).is_some());
    assert_eq!(b.ep, Some((2, 3)));
    let before = snapshot(&b);
    let ep = b.ep;
    let r = b.make((3, 4), (2, 3, 0));
    assert_eq!(r, Some(0));
    assert_eq!(b.at(2, 3), 0b1011);
    assert_eq!(b.at(3, 3), 0);
    assert_eq!(b.at(3, 4), 0);
    b.unmake((3, 4), (2, 3, 0), 0);
    b.ep = ep;
    assert_eq!(snapshot(&b), before);
    assert_eq!(b.at(3, 3), 0b0011);
}

#[test]
fn en_passant_window_closes_after_any_other_move() {
    let mut b = board_from("4k3/3p4/8/4P3/8/8/8/4K3 b - - 0 1");
    assert!(b.make((1, 3), (3, 3, 0)).is_some());
    assert_eq!(b.ep, Some((2, 3)));
    // White declines the capture; the window closes.
    assert!(b.make((7, 4), (7, 5, 0)).is_some());
    assert_eq!(b.ep, None);
    let moves = b.pawn_moves((3, 4));
    assert!(!moves.contains(&((3, 4), (2, 3, 0))));
}

#[test]
fn unmake_ep_restores_the_given_square() {
    let mut b = board_from("4k3/8/8/8/8/8/8/4K3 w - - 0 1");
    assert!(b.make((7, 4), (7, 5, 0)).is_some());
    // The waiting side is now White: the helper writes a white pawn on
    // the named square before reverting the move.
    b.unmake_ep((7, 4), (7, 5, 0), 0, (4, 4));
    assert_eq!(b.at(4, 4), 0b1011);
    assert_eq!(b.at(7, 4), 0b1001);
}

#[test]
fn black_castles_both_ways() {
    let mut b = board_from("r3k2r/8/8/8/8/8/8/R3K2R b KQkq - 0 1");
    let moves = b.king_moves((0, 4));
    assert_eq!(moves.len(), 7);
    assert!(moves.contains(&((0, 4), (0, 6))));
    assert!(moves.contains(&((0, 4), (0, 2))));
    let before = snapshot(&b);
    let r = b.make((0, 4), (0, 6, 0));
    assert_eq!(r, Some(0));
    assert_eq!(b.at(0, 6), 0b0001);
    assert_eq!(b.at(0, 5), 0b0100);
    assert_eq!(b.at(0, 7), 0);
    assert_eq!(b.black_king_pos, (0, 6));
    b.unmake((0, 4), (0, 6, 0), 0);
    assert_eq!(snapshot(&b), before);
}

#[test]
fn black_captures_en_passant() {
    // White double-advances e2-e4 beside the black pawn on d4; the
    // target e3 opens and the capture removes the pawn from e4.
    let mut b = board_from("4k3/8/8/8/3p4/8/4P3/4K3 w - - 0 1");
    assert!(b.make((6, 4), (4, 4, 0)).is_some());
    assert_eq!(b.ep, Some((5, 4)));
    let moves = b.pawn_moves((4, 3));
    assert!(moves.contains(&((4, 3), (5, 4, 0))));
    let r = b.make((4, 3), (5, 4, 0));
    assert_eq!(r, Some(0));
    assert_eq!(b.at(4, 4), 0);
    assert_eq!(b.at(5, 4), 0b0011);
}
