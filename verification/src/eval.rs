//! The static material evaluation.
//!
//! Each piece carries a fixed value; the score sums them signed from
//! White's perspective and is negated for Black to move, so the negamax
//! sign convention holds: the result is always from the perspective of
//! the side to move.

use vstd::prelude::*;
use crate::piece::{WHITE, KING, QUEEN, PAWN, ROOK, KNIGHT, BISHOP, type_of, color_of, square_ok,
    clear_piece_color};
use crate::board::{bidx, BoardView, ChessBoard};

verus! {

/// The material value of a piece byte, colour ignored.
pub open spec fn piece_val(p: u8) -> int {
    let t = type_of(p);
    if t == PAWN {
        1
    } else if t == BISHOP {
        3
    } else if t == KNIGHT {
        3
    } else if t == ROOK {
        5
    } else if t == QUEEN {
        9
    } else {
        0
    }
}

/// The signed material value of a square: positive for White, negative
/// for Black, zero for an empty square.
pub open spec fn signed_val(p: u8) -> int {
    if p == 0 {
        0
    } else if color_of(p) == WHITE {
        piece_val(p)
    } else {
        -piece_val(p)
    }
}

/// The signed material sum of the first `n` squares of the board.
pub open spec fn material(b: Seq<u8>, n: int) -> int
    decreases n,
{
    if n <= 0 {
        0
    } else {
        material(b, n - 1) + signed_val(b[n - 1])
    }
}

/// The material value of one piece byte.
pub fn piece_value(piece: u8) -> (r: i32)
    requires
        square_ok(piece),
    ensures
        r == piece_val(piece),
{
    let t = clear_piece_color(piece);
    if t == PAWN {
        1
    } else if t == BISHOP {
        3
    } else if t == KNIGHT {
        3
    } else if t == ROOK {
        5
    } else if t == QUEEN {
        9
    } else if t == KING {
        0
    } else {
        proof {
            assert(t == 0);
        }
        0
    }
}

/// Sums the signed material of every square, from the perspective of the
/// side to move.
#[verifier::loop_isolation(false)]
pub fn eval(board: &mut ChessBoard) -> (score: i32)
    requires
        old(board)@.inv(),
    ensures
        *final(board) == *old(board),
        score == (if old(board)@.prot == WHITE {
            material(old(board)@.b, 64)
        } else {
            -material(old(board)@.b, 64)
        }),
        -576 <= score <= 576,
{
    let ghost b = board@.b;
    let mut score: i32 = 0;
    let mut row: usize = 0;
    while row < 8
        invariant
            *board == *old(board),
            row <= 8,
            score == material(b, bidx(row as int, 0)),
            -9 * bidx(row as int, 0) <= score <= 9 * bidx(row as int, 0),
        decreases 8 - row,
    {
        let mut col: usize = 0;
        while col < 8
            invariant
                *board == *old(board),
                row < 8,
                col <= 8,
                score == material(b, bidx(row as int, col as int)),
                -9 * bidx(row as int, col as int) <= score <= 9 * bidx(row as int, col as int),
            decreases 8 - col,
        {
            let piece = board.at(row, col);
            let val = piece_value(piece);
            proof {
                assert(square_ok(piece));
                assert(piece < 16 ==> piece & 8 == (if piece >= 8 {
                    8u8
                } else {
                    0u8
                })) by (bit_vector);
            }
            if piece & 0b1000 == WHITE {
                score = score + val;
            } else {
                score = score - val;
            }
            col = col + 1;
        }
        row = row + 1;
    }
    if board.protagonist == WHITE {
        score
    } else {
        -score
    }
}

} // verus!
