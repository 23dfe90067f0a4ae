//! Decoding the textual board-and-metadata notation into a position.
//!
//! The decode is a single pass over the characters, permissive by
//! design: unrecognized characters are ignored, writes that would fall
//! off the board are dropped, and counters saturate instead of running
//! away on malformed text. The contract states the decode exactly as a
//! left fold of a per-character step over the input, starting from the
//! receiver with a cleared board and cleared castling rights.

use vstd::prelude::*;
use crate::piece::{WHITE, BLACK, KING, QUEEN, PAWN, ROOK, KNIGHT, BISHOP};
use crate::board::{bidx, on_bd, BoardView, ChessBoard};
use crate::square::{spec_letter_col, letter_to_col};

verus! {

broadcast use vstd::array::group_array_axioms;

/// A rank-count digit of the placement field.
pub open spec fn is_digit18(c: char) -> bool {
    c == '1' || c == '2' || c == '3' || c == '4' || c == '5' || c == '6' || c == '7' || c == '8'
}

/// The value of a rank-count digit.
pub open spec fn spec_digit_val(c: char) -> int {
    if c == '1' {
        1
    } else if c == '2' {
        2
    } else if c == '3' {
        3
    } else if c == '4' {
        4
    } else if c == '5' {
        5
    } else if c == '6' {
        6
    } else if c == '7' {
        7
    } else {
        8
    }
}

/// A file letter of the en-passant field.
pub open spec fn is_file_letter(c: char) -> bool {
    c == 'a' || c == 'b' || c == 'c' || c == 'd' || c == 'e' || c == 'f' || c == 'g' || c == 'h'
}

/// Placing one piece during the decode: the square is written and the
/// king cache maintained when the square is on the board; otherwise the
/// character is ignored.
pub open spec fn place_piece_v(v: BoardView, r: int, c: int, t: u8, white: bool) -> BoardView {
    if on_bd(r, c) {
        let color: u8 = if white {
            WHITE
        } else {
            BLACK
        };
        let v2 = BoardView { b: v.b.update(bidx(r, c), (t + color) as u8), ..v };
        if t == KING {
            if white {
                BoardView { wking: (r, c), ..v2 }
            } else {
                BoardView { bking: (r, c), ..v2 }
            }
        } else {
            v2
        }
    } else {
        v
    }
}

/// The decoder's running state: the position being built, the placement
/// cursor, and how many field separators have passed.
#[verifier::ext_equal]
pub struct FenAcc {
    pub v: BoardView,
    pub row: int,
    pub col: int,
    pub spaces: int,
}

/// How one character of the notation advances the decode.
pub open spec fn fen_step(acc: FenAcc, c: char) -> FenAcc {
    if c == ' ' {
        FenAcc { spaces: if acc.spaces <= 4 { acc.spaces + 1 } else { acc.spaces }, ..acc }
    } else if acc.spaces == 0 {
        // Piece placement: ranks from the top, separated by '/'.
        if c == '/' {
            FenAcc { col: 0, row: if acc.row <= 8 { acc.row + 1 } else { acc.row }, ..acc }
        } else if c == 'p' || c == 'P' || c == 'r' || c == 'R' || c == 'n' || c == 'N' || c == 'b'
            || c == 'B' || c == 'k' || c == 'K' || c == 'q' || c == 'Q' {
            let white = c == 'P' || c == 'R' || c == 'N' || c == 'B' || c == 'K' || c == 'Q';
            let t: u8 = if c == 'p' || c == 'P' {
                PAWN
            } else if c == 'r' || c == 'R' {
                ROOK
            } else if c == 'n' || c == 'N' {
                KNIGHT
            } else if c == 'b' || c == 'B' {
                BISHOP
            } else if c == 'k' || c == 'K' {
                KING
            } else {
                QUEEN
            };
            FenAcc {
                v: place_piece_v(acc.v, acc.row, acc.col, t, white),
                col: if acc.col <= 64 { acc.col + 1 } else { acc.col },
                ..acc
            }
        } else if is_digit18(c) {
            FenAcc {
                col: if acc.col <= 64 { acc.col + spec_digit_val(c) } else { acc.col },
                ..acc
            }
        } else {
            acc
        }
    } else if acc.spaces == 1 {
        // Side to move: 'w' for White, anything else for Black; the
        // waiting side is kept complementary.
        if c == 'w' {
            FenAcc { v: BoardView { prot: WHITE, opp: BLACK, ..acc.v }, ..acc }
        } else {
            FenAcc { v: BoardView { prot: BLACK, opp: WHITE, ..acc.v }, ..acc }
        }
    } else if acc.spaces == 2 {
        // Castling rights: each letter sets one flag.
        if c == 'K' {
            FenAcc { v: BoardView { wkc: true, ..acc.v }, ..acc }
        } else if c == 'Q' {
            FenAcc { v: BoardView { wqc: true, ..acc.v }, ..acc }
        } else if c == 'k' {
            FenAcc { v: BoardView { bkc: true, ..acc.v }, ..acc }
        } else if c == 'q' {
            FenAcc { v: BoardView { bqc: true, ..acc.v }, ..acc }
        } else {
            acc
        }
    } else if acc.spaces == 3 {
        // En-passant target: '-' clears it, a file letter starts one,
        // a digit completes the row of the one started.
        if c == '-' {
            FenAcc { v: BoardView { ep: None, ..acc.v }, ..acc }
        } else if is_digit18(c) {
            match acc.v.ep {
                Some(e) => FenAcc {
                    v: BoardView { ep: Some((8 - spec_digit_val(c), e.1)), ..acc.v },
                    ..acc
                },
                None => acc,
            }
        } else if is_file_letter(c) {
            FenAcc { v: BoardView { ep: Some((2, spec_letter_col(c))), ..acc.v }, ..acc }
        } else {
            acc
        }
    } else {
        acc
    }
}

/// The decode of a whole character sequence: the step folded from the
/// left.
pub open spec fn fen_fold(acc: FenAcc, cs: Seq<char>) -> FenAcc
    decreases cs.len(),
{
    if cs.len() == 0 {
        acc
    } else {
        fen_fold(fen_step(acc, cs[0]), cs.subrange(1, cs.len() as int))
    }
}

/// Folding one more character steps the fold's result once.
pub proof fn lemma_fen_fold_snoc(acc: FenAcc, s: Seq<char>, x: char)
    ensures
        fen_fold(acc, s.push(x)) == fen_step(fen_fold(acc, s), x),
    decreases s.len(),
{
    if s.len() == 0 {
        assert(s.push(x)[0] == x);
        assert(s.push(x).subrange(1, 1) =~= Seq::<char>::empty());
        assert(fen_fold(acc, s.push(x)) == fen_fold(
            fen_step(acc, x),
            s.push(x).subrange(1, 1),
        ));
        assert(fen_fold(fen_step(acc, x), Seq::<char>::empty()) == fen_step(acc, x));
        assert(fen_fold(acc, s) == acc);
    } else {
        assert(s.push(x)[0] == s[0]);
        assert(s.push(x).subrange(1, s.len() as int + 1) =~= s.subrange(1, s.len() as int).push(
            x,
        ));
        lemma_fen_fold_snoc(fen_step(acc, s[0]), s.subrange(1, s.len() as int), x);
        assert(fen_fold(acc, s.push(x)) == fen_fold(
            fen_step(acc, s[0]),
            s.push(x).subrange(1, s.len() as int + 1),
        ));
        assert(fen_fold(acc, s) == fen_fold(fen_step(acc, s[0]), s.subrange(1, s.len() as int)));
    }
}

/// The accumulator that a decode starts from: the receiver with a
/// cleared board, cleared castling rights, and the cursor at the top
/// left corner.
pub open spec fn fen_init(v: BoardView) -> FenAcc {
    FenAcc {
        v: BoardView {
            b: Seq::new(64, |i: int| 0u8),
            wkc: false,
            wqc: false,
            bkc: false,
            bqc: false,
            ..v
        },
        row: 0,
        col: 0,
        spaces: 0,
    }
}

impl ChessBoard {
    /// Writes one decoded piece, maintaining the king cache, ignoring a
    /// placement that falls off the board.
    fn put_piece(&mut self, row: usize, col: usize, t: u8, white: bool)
        requires
            t < 8,
        ensures
            final(self)@ == place_piece_v(old(self)@, row as int, col as int, t, white),
    {
        if row < 8 && col < 8 {
            let color: u8 = if white {
                WHITE
            } else {
                BLACK
            };
            self.set_at(row, col, t + color);
            if t == KING {
                if white {
                    self.white_king_pos = (row, col);
                } else {
                    self.black_king_pos = (row, col);
                }
            }
        }
    }

    /// Decodes the board-and-metadata notation into this position: piece
    /// placement with empty-run digits and rank separators, the side to
    /// move, the castling rights, and the en-passant target square.
    /// Unrecognized characters are tolerated and ignored.
    #[verifier::loop_isolation(false)]
    #[verifier::rlimit(100)]
    pub fn from_fen(&mut self, fen: &str)
        ensures
            final(self)@ == fen_fold(fen_init(old(self)@), fen@).v,
    {
        self.board = [0u8; 64];
        self.white_kingside_castle = false;
        self.white_queenside_castle = false;
        self.black_kingside_castle = false;
        self.black_queenside_castle = false;
        let ghost init = fen_init(old(self)@);
        proof {
            assert(self@.b =~= init.v.b);
            assert(self@ =~= init.v);
        }
        let mut row: usize = 0;
        let mut col: usize = 0;
        let mut space_count: usize = 0;
        let n: usize = fen.unicode_len();
        let mut i: usize = 0;
        while i < n
            invariant
                i <= n,
                n == fen@.len(),
                row <= 9,
                col <= 72,
                space_count <= 5,
                (FenAcc {
                    v: self@,
                    row: row as int,
                    col: col as int,
                    spaces: space_count as int,
                }) == fen_fold(init, fen@.subrange(0, i as int)),
            decreases n - i,
        {
            let ghost pre = (FenAcc {
                v: self@,
                row: row as int,
                col: col as int,
                spaces: space_count as int,
            });
            proof {
                assert(fen@.subrange(0, i + 1) =~= fen@.subrange(0, i as int).push(
                    fen@[i as int],
                ));
                lemma_fen_fold_snoc(init, fen@.subrange(0, i as int), fen@[i as int]);
            }
            let c = fen.get_char(i);
            if c == ' ' {
                if space_count <= 4 {
                    space_count = space_count + 1;
                }
            } else if space_count == 0 {
                if c == '/' {
                    col = 0;
                    if row <= 8 {
                        row = row + 1;
                    }
                } else if c == 'p' || c == 'P' || c == 'r' || c == 'R' || c == 'n' || c == 'N' || c
                    == 'b' || c == 'B' || c == 'k' || c == 'K' || c == 'q' || c == 'Q' {
                    let white = c == 'P' || c == 'R' || c == 'N' || c == 'B' || c == 'K' || c
                        == 'Q';
                    let t: u8 = if c == 'p' || c == 'P' {
                        PAWN
                    } else if c == 'r' || c == 'R' {
                        ROOK
                    } else if c == 'n' || c == 'N' {
                        KNIGHT
                    } else if c == 'b' || c == 'B' {
                        BISHOP
                    } else if c == 'k' || c == 'K' {
                        KING
                    } else {
                        QUEEN
                    };
                    self.put_piece(row, col, t, white);
                    if col <= 64 {
                        col = col + 1;
                    }
                } else if c == '1' || c == '2' || c == '3' || c == '4' || c == '5' || c == '6' || c
                    == '7' || c == '8' {
                    let d: usize = if c == '1' {
                        1
                    } else if c == '2' {
                        2
                    } else if c == '3' {
                        3
                    } else if c == '4' {
                        4
                    } else if c == '5' {
                        5
                    } else if c == '6' {
                        6
                    } else if c == '7' {
                        7
                    } else {
                        8
                    };
                    if col <= 64 {
                        col = col + d;
                    }
                }
            } else if space_count == 1 {
                if c == 'w' {
                    self.protagonist = WHITE;
                    self.opponent = BLACK;
                } else {
                    self.protagonist = BLACK;
                    self.opponent = WHITE;
                }
            } else if space_count == 2 {
                if c == 'K' {
                    self.white_kingside_castle = true;
                } else if c == 'Q' {
                    self.white_queenside_castle = true;
                } else if c == 'k' {
                    self.black_kingside_castle = true;
                } else if c == 'q' {
                    self.black_queenside_castle = true;
                }
            } else if space_count == 3 {
                if c == '-' {
                    self.ep = None;
                } else if c == '1' || c == '2' || c == '3' || c == '4' || c == '5' || c == '6' || c
                    == '7' || c == '8' {
                    let d: usize = if c == '1' {
                        1
                    } else if c == '2' {
                        2
                    } else if c == '3' {
                        3
                    } else if c == '4' {
                        4
                    } else if c == '5' {
                        5
                    } else if c == '6' {
                        6
                    } else if c == '7' {
                        7
                    } else {
                        8
                    };
                    match self.ep {
                        Some(e) => {
                            self.ep = Some((8 - d, e.1));
                        },
                        None => {},
                    }
                } else if c == 'a' || c == 'b' || c == 'c' || c == 'd' || c == 'e' || c == 'f' || c
                    == 'g' || c == 'h' {
                    self.ep = Some((2, letter_to_col(c)));
                }
            }
            proof {
                assert((FenAcc {
                    v: self@,
                    row: row as int,
                    col: col as int,
                    spaces: space_count as int,
                }) =~~= fen_step(pre, fen@[i as int]));
            }
            i = i + 1;
        }
        proof {
            assert(fen@.subrange(0, n as int) =~= fen@);
        }
    }
}

} // verus!
