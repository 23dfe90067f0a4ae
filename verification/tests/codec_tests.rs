use chessengine::board::build_board;
use chessengine::eval::{eval, piece_value};
use chessengine::piece::{clear_piece_color, piece_to_char};
use chessengine::square::{letter_to_col, square_to_alphanumeric};

fn empty_grid() -> [[u8; 8]; 8] {
    [[0u8; 8]; 8]
}

#[test]
fn piece_letters() {
    // White pieces are uppercase, Black lowercase; bit 3 carries the colour.
    assert_eq!(piece_to_char(0b0001), 'k');
    assert_eq!(piece_to_char(0b1001), 'K');
    assert_eq!(piece_to_char(0b0010), 'q');
    assert_eq!(piece_to_char(0b1010), 'Q');
    assert_eq!(piece_to_char(0b0011), 'p');
    assert_eq!(piece_to_char(0b1011), 'P');
    assert_eq!(piece_to_char(0b0100), 'r');
    assert_eq!(piece_to_char(0b1100), 'R');
    assert_eq!(piece_to_char(0b0101), 'n');
    assert_eq!(piece_to_char(0b1101), 'N');
    assert_eq!(piece_to_char(0b0111), 'b');
    assert_eq!(piece_to_char(0b1111), 'B');
    assert_eq!(piece_to_char(0), '_');
    // The reserved type code renders as the invalid marker.
    assert_eq!(piece_to_char(6), 'X');
    assert_eq!(piece_to_char(14), 'X');
}

#[test]
fn clearing_color_leaves_the_type() {
    assert_eq!(clear_piece_color(0b1011), 0b0011);
    assert_eq!(clear_piece_color(0b0011), 0b0011);
    assert_eq!(clear_piece_color(0b1001), 0b0001);
    assert_eq!(clear_piece_color(0), 0);
}

#[test]
fn square_names() {
    assert_eq!(square_to_alphanumeric((7, 0)), "a1");
    assert_eq!(square_to_alphanumeric((0, 7)), "h8");
    assert_eq!(square_to_alphanumeric((5, 4)), "e3");
    assert_eq!(square_to_alphanumeric((2, 3)), "d6");
}

#[test]
fn letters_map_to_columns() {
    assert_eq!(letter_to_col('a'), 0);
    assert_eq!(letter_to_col('e'), 4);
    assert_eq!(letter_to_col('h'), 7);
}

#[test]
fn built_board_defaults() {
    let b = build_board(empty_grid());
    for r in 0..8 {
        for c in 0..8 {
            assert_eq!(b.at(r, c), 0);
        }
    }
    assert_eq!(b.protagonist, 0b1000);
    assert_eq!(b.opponent, 0b0000);
    assert!(b.white_kingside_castle && b.white_queenside_castle);
    assert!(b.black_kingside_castle && b.black_queenside_castle);
    assert_eq!(b.ep, None);
    assert_eq!(b.white_king_pos, (7, 4));
    assert_eq!(b.black_king_pos, (0, 4));
}

#[test]
fn piece_values() {
    assert_eq!(piece_value(0b0011), 1);
    assert_eq!(piece_value(0b1101), 3);
    assert_eq!(piece_value(0b0111), 3);
    assert_eq!(piece_value(0b1100), 5);
    assert_eq!(piece_value(0b0010), 9);
    assert_eq!(piece_value(0b1001), 0);
    assert_eq!(piece_value(0), 0);
}

#[test]
fn eval_is_material_from_the_movers_view() {
    let mut b = build_board(empty_grid());
    b.from_fen("rnbqkbnr/pppppppp/8/8/8/8/PPPPPPPP/RNBQKBNR w KQkq - 0 1");
    assert_eq!(eval(&mut b), 0);
    // Four extra white queens: +36 for White to move, -36 for Black.
    b.from_fen("4k3/8/8/8/8/8/8/QQQQK3 w - - 0 1");
    assert_eq!(eval(&mut b), 36);
    b.from_fen("4k3/8/8/8/8/8/8/QQQQK3 b - - 0 1");
    assert_eq!(eval(&mut b), -36);
}

#[test]
fn fen_reads_side_castles_and_en_passant() {
    let mut b = build_board(empty_grid());
    b.from_fen("rnbqkbnr/pppppppp/8/8/4P3/8/PPPP1PPP/RNBQKBNR b KQkq e3 0 1");
    assert_eq!(b.protagonist, 0b0000);
    assert_eq!(b.opponent, 0b1000);
    assert!(b.white_kingside_castle && b.white_queenside_castle);
    assert!(b.black_kingside_castle && b.black_queenside_castle);
    assert_eq!(b.ep, Some((5, 4)));
    assert_eq!(b.at(4, 4), 0b1011);
    assert_eq!(b.white_king_pos, (7, 4));
    assert_eq!(b.black_king_pos, (0, 4));
    b.from_fen("8/2p5/3p4/KP5r/1R3p1k/8/4P1P1/8 w - - ");
    assert_eq!(b.protagonist, 0b1000);
    assert!(!b.white_kingside_castle && !b.white_queenside_castle);
    assert!(!b.black_kingside_castle && !b.black_queenside_castle);
    assert_eq!(b.ep, None);
    assert_eq!(b.white_king_pos, (3, 0));
    assert_eq!(b.black_king_pos, (4, 7));
}

#[test]
fn fen_tolerates_unknown_characters() {
    let mut b = build_board(empty_grid());
    b.from_fen("8/8/8/8/8/8/8/4K2k x!? - - 0 1");
    assert_eq!(b.protagonist, 0b0000);
    assert_eq!(b.opponent, 0b1000);
    assert_eq!(b.at(7, 4), 0b1001);
    assert_eq!(b.at(7, 7), 0b0001);
}
