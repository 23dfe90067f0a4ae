use chessengine::board::{build_board, ChessBoard};

fn board_from(fen: &str) -> ChessBoard {
    let mut b = build_board([[0u8; 8]; 8]);
    b.from_fen(fen);
    b
}

#[test]
fn knight_in_the_middle_has_eight_jumps() {
    let b = board_from("8/8/8/8/8/8/8/8 w KQkq - 0 1");
    let moves = b.knight_moves((4, 4));
    assert_eq!(moves.len(), 8);
    for m in &moves {
        assert_eq!(m.0, (4, 4));
    }
    // Destinations come in rising board order, so none repeats.
    for w in moves.windows(2) {
        assert!(w[0].1 < w[1].1);
    }
}

#[test]
fn knight_in_the_corner_has_two_jumps() {
    let b = board_from("8/8/8/8/8/8/8/8 w KQkq - 0 1");
    assert_eq!(b.knight_moves((0, 0)).len(), 2);
    assert_eq!(b.knight_moves((7, 7)).len(), 2);
}

#[test]
fn knight_avoids_friends_and_takes_enemies() {
    // White knight on e5; the friendly king on c4 and pawn on f3 block
    // two jumps, the enemy pawn f7 and bishop c6 are capture targets.
    let b = board_from("8/5p2/2b5/4N3/2K5/5P2/8/8 w - - 0 1");
    let moves = b.knight_moves((3, 4));
    assert_eq!(moves.len(), 6);
    assert!(moves.contains(&((3, 4), (1, 5))));
    assert!(moves.contains(&((3, 4), (2, 2))));
    assert!(!moves.contains(&((3, 4), (4, 2))));
}

#[test]
fn rook_rays_stop_at_pieces() {
    // White rook d4; black bishop d7 is capturable, black pawn d3 below,
    // white pawn g4 blocks the right-hand ray before h4.
    let b = board_from("8/3b4/8/8/3R2Pb/3p4/8/8 w - - 0 1");
    let moves = b.rook_moves((4, 3));
    assert!(moves.contains(&((4, 3), (1, 3))));
    assert!(!moves.contains(&((4, 3), (0, 3))));
    assert!(moves.contains(&((4, 3), (5, 3))));
    assert!(!moves.contains(&((4, 3), (6, 3))));
    assert!(moves.contains(&((4, 3), (4, 5))));
    assert!(!moves.contains(&((4, 3), (4, 6))));
    assert!(moves.contains(&((4, 3), (4, 0))));
    assert_eq!(moves.len(), 9);
}

#[test]
fn bishop_and_queen_cover_their_rays() {
    let b = board_from("8/8/8/8/8/8/8/8 w - - 0 1");
    assert_eq!(b.bishop_moves((4, 4)).len(), 13);
    assert_eq!(b.rook_moves((4, 4)).len(), 14);
    assert_eq!(b.queen_moves((4, 4)).len(), 27);
}

#[test]
fn king_steps_and_castles_from_home() {
    let b = board_from("r3k2r/pppppppp/8/8/8/8/PPPPPPPP/R3K2R w KQkq - 0 1");
    let moves = b.king_moves((7, 4));
    // d1, f1 and the two castle destinations.
    assert_eq!(moves.len(), 4);
    assert!(moves.contains(&((7, 4), (7, 6))));
    assert!(moves.contains(&((7, 4), (7, 2))));
}

#[test]
fn castling_needs_the_rights_flag() {
    let b = board_from("r3k2r/pppppppp/8/8/8/8/PPPPPPPP/R3K2R w Qkq - 0 1");
    let moves = b.king_moves((7, 4));
    assert!(!moves.contains(&((7, 4), (7, 6))));
    assert!(moves.contains(&((7, 4), (7, 2))));
}

#[test]
fn castling_is_blocked_by_pieces_between() {
    let b = board_from("r3k2r/pppppppp/8/8/8/8/PPPPPPPP/RN2K1NR w KQkq - 0 1");
    let moves = b.king_moves((7, 4));
    assert!(!moves.contains(&((7, 4), (7, 6))));
    assert!(!moves.contains(&((7, 4), (7, 2))));
}

#[test]
fn castling_is_refused_through_an_attacked_square() {
    // A black rook on f3 attacks f1, the square the king passes.
    let b = board_from("4k3/8/8/8/8/5r2/8/R3K2R w KQ - 0 1");
    let moves = b.king_moves((7, 4));
    assert!(!moves.contains(&((7, 4), (7, 6))));
    assert!(moves.contains(&((7, 4), (7, 2))));
}

#[test]
fn pawn_single_and_double_advance() {
    let b = board_from("rnbqkbnr/pppppppp/8/8/8/8/PPPPPPPP/RNBQKBNR w KQkq - 0 1");
    let moves = b.pawn_moves((6, 4));
    assert_eq!(moves.len(), 2);
    assert!(moves.contains(&((6, 4), (5, 4, 0))));
    assert!(moves.contains(&((6, 4), (4, 4, 0))));
}

#[test]
fn pawn_captures_diagonally() {
    // White pawn e4; black pawns d5 and f5; d5 and f5 capturable, e5 blocked.
    let b = board_from("4k3/8/8/3ppp2/4P3/8/8/4K3 w - - 0 1");
    let moves = b.pawn_moves((4, 4));
    assert_eq!(moves.len(), 2);
    assert!(moves.contains(&((4, 4), (3, 3, 0))));
    assert!(moves.contains(&((4, 4), (3, 5, 0))));
}

#[test]
fn promotion_yields_exactly_four_variants() {
    // A white pawn one step from the last rank with an empty square
    // ahead: four moves differing only in the promotion type, never a
    // plain advance.
    let b = board_from("8/P6k/8/8/8/8/8/7K w - - 0 1");
    let moves = b.pawn_moves((1, 0));
    assert_eq!(moves.len(), 4);
    // One move per promotion type, in the fixed order queen, rook,
    // bishop, knight.
    assert_eq!(moves[0], ((1, 0), (0, 0, 0b0010)));
    assert_eq!(moves[1], ((1, 0), (0, 0, 0b0100)));
    assert_eq!(moves[2], ((1, 0), (0, 0, 0b0111)));
    assert_eq!(moves[3], ((1, 0), (0, 0, 0b0101)));
    for m in &moves {
        assert_ne!(m.1 .2, 0);
    }
}

#[test]
fn en_passant_capture_is_offered_only_with_the_target() {
    // Black just played d7-d5 beside the white pawn on e5.
    let mut b = board_from("4k3/3p4/8/4P3/8/8/8/4K3 b - - 0 1");
    let r = b.make((1, 3), (3, 3, 0));
    assert!(r.is_some());
    assert_eq!(b.ep, Some((2, 3)));
    let moves = b.pawn_moves((3, 4));
    assert_eq!(moves.len(), 2);
    assert!(moves.contains(&((3, 4), (2, 3, 0))));
    // Without the target the same pawn has only its advance.
    let b2 = board_from("4k3/8/8/3pP3/8/8/8/4K3 w - - 0 1");
    let moves2 = b2.pawn_moves((3, 4));
    assert_eq!(moves2.len(), 1);
    assert!(moves2.contains(&((3, 4), (2, 4, 0))));
}

#[test]
fn all_moves_of_the_initial_position() {
    let mut b = board_from("rnbqkbnr/pppppppp/8/8/8/8/PPPPPPPP/RNBQKBNR w KQkq - 0 1");
    let moves = b.get_all_moves();
    assert_eq!(moves.len(), 20);
    // One row-major scan: the sixteen pawn moves of the second rank,
    // then the four knight jumps of the first.
    assert!(moves[0..16].iter().all(|m| m.0 .0 == 6));
    assert!(moves[16..20].iter().all(|m| m.0 .0 == 7));
}

#[test]
fn all_moves_follow_board_scan_order() {
    // A knight on the top rank, a pawn in the middle, the king at the
    // bottom: their moves appear in row-major order of the source.
    let mut b = board_from("N6k/8/8/8/8/8/P7/K7 w - - 0 1");
    let moves = b.get_all_moves();
    assert_eq!(moves.len(), 6);
    assert!(moves[0..2].iter().all(|m| m.0 == (0, 0)));
    assert!(moves[2..4].iter().all(|m| m.0 == (6, 0)));
    assert!(moves[4..6].iter().all(|m| m.0 == (7, 0)));
}

#[test]
fn in_check_sees_rays_knights_and_pawns() {
    let b = board_from("8/8/3p4/5p2/8/8/2n5/1r2bq2 w - - 0 1");
    assert!(!b.in_check((0, 0)));
    assert!(b.in_check((0, 1)));
    assert!(b.in_check((4, 2)));
    assert!(b.in_check((4, 3)));
    // The pawn on d6 attacks e5 and c5, one rank below itself.
    assert!(b.in_check((3, 4)));
    assert!(b.in_check((3, 2)));
    assert!(!b.in_check((1, 3)));
}

#[test]
fn promotion_by_capture_also_expands_four_ways() {
    // A white pawn on b7 beside the rook on a8 with b8 empty: four
    // pushing promotions and four capturing ones, nothing plain.
    let b = board_from("r7/1P6/8/8/8/8/8/K3k3 w - - 0 1");
    let moves = b.pawn_moves((1, 1));
    assert_eq!(moves.len(), 8);
    for m in &moves {
        assert_ne!(m.1 .2, 0);
    }
    assert!(moves.contains(&((1, 1), (0, 0, 0b0010))));
    assert!(moves.contains(&((1, 1), (0, 1, 0b0010))));
}
