//! The mutable position: an 8 by 8 board of piece bytes plus metadata.
//!
//! Row 0 is the eighth rank (the top of the board as Black sees it pieces
//! placed first), row 7 the first rank; column 0 is the "a" file. The board
//! is stored row-major as 64 bytes. The two colour fields always name the
//! side to move and the side waiting; the king positions cache where each
//! king stands.

use vstd::prelude::*;
use crate::piece::{WHITE, BLACK, KING, square_ok, color_of};

verus! {

/// The flat index of the square in row `r`, column `c`.
pub open spec fn bidx(r: int, c: int) -> int {
    8 * r + c
}

/// Whether `(r, c)` names a square of the board.
pub open spec fn on_bd(r: int, c: int) -> bool {
    0 <= r < 8 && 0 <= c < 8
}

/// The mathematical model of a position: the board as a sequence of 64
/// piece bytes together with the scalar metadata.
#[verifier::ext_equal]
pub struct BoardView {
    pub b: Seq<u8>,
    pub prot: u8,
    pub opp: u8,
    pub wkc: bool,
    pub wqc: bool,
    pub bkc: bool,
    pub bqc: bool,
    pub ep: Option<(int, int)>,
    pub wking: (int, int),
    pub bking: (int, int),
}

impl BoardView {
    /// The piece byte on the square in row `r`, column `c`.
    pub open spec fn at(self, r: int, c: int) -> u8 {
        self.b[bidx(r, c)]
    }

    /// Whether the square is empty.
    pub open spec fn empty_at(self, r: int, c: int) -> bool {
        self.at(r, c) == 0
    }

    /// Whether the square holds a piece of the side to move.
    pub open spec fn friend_at(self, r: int, c: int) -> bool {
        self.at(r, c) != 0 && color_of(self.at(r, c)) == self.prot
    }

    /// Whether the square holds a piece of the waiting side.
    pub open spec fn enemy_at(self, r: int, c: int) -> bool {
        self.at(r, c) != 0 && color_of(self.at(r, c)) == self.opp
    }

    /// The cached square of the side to move's own king.
    pub open spec fn own_king(self) -> (int, int) {
        if self.prot == WHITE {
            self.wking
        } else {
            self.bking
        }
    }

    /// The structural invariant that every exported operation preserves:
    /// 64 valid square bytes, complementary sides, and all cached squares
    /// on the board.
    pub open spec fn inv(self) -> bool {
        &&& self.b.len() == 64
    &&& (self.prot == WHITE || self.prot == BLACK)
    &&& self.opp == (if self.prot == WHITE {
        BLACK
    } else {
        WHITE
    })
    &&& (forall|i: int| 0 <= i < 64 ==> square_ok(#[trigger] self.b[i]))
    &&& on_bd(self.wking.0, self.wking.1)
    &&& on_bd(self.bking.0, self.bking.1)
    &&& (self.ep matches Some(t) ==> on_bd(t.0, t.1))
    }

    /// The king caches are faithful: each names a square holding that
    /// colour's king, and no other square holds one.
    pub open spec fn kings_ok(self) -> bool {
        &&& self.at(self.wking.0, self.wking.1) == KING + WHITE
    &&& self.at(self.bking.0, self.bking.1) == KING + BLACK
    &&& (forall|r: int, c: int|
        on_bd(r, c) && #[trigger] self.at(r, c) == KING + WHITE ==> (r, c) == self.wking)
    &&& (forall|r: int, c: int|
        on_bd(r, c) && #[trigger] self.at(r, c) == KING + BLACK ==> (r, c) == self.bking)
    }

    /// Every square holding the side to move's king is the cached square:
    /// the one direction of the cache discipline that reverting a king
    /// move relies on. Unlike `kings_ok`, this tolerates a stale cache of
    /// a captured king.
    pub open spec fn king_cached(self) -> bool {
        forall|r: int, c: int|
            on_bd(r, c) && #[trigger] self.at(r, c) == KING + self.prot ==> (r, c)
                == self.own_king()
    }

    /// When an en-passant target is recorded, the waiting side has just
    /// double-advanced a pawn: the target names the passed-over square and
    /// that pawn stands one rank beyond it.
    pub open spec fn ep_ok(self) -> bool {
        self.ep matches Some(t) ==> {
            &&& self.at(t.0, t.1) == 0
            &&& (self.opp == WHITE ==> t.0 == 5 && self.at(4, t.1) == crate::piece::PAWN + WHITE)
            &&& (self.opp == BLACK ==> t.0 == 2 && self.at(3, t.1) == crate::piece::PAWN + BLACK)
        }
    }
}

/// The position a search mutates in place.
pub struct ChessBoard {
    pub board: [u8; 64],
    pub opponent: u8,
    pub protagonist: u8,
    pub white_kingside_castle: bool,
    pub white_queenside_castle: bool,
    pub black_kingside_castle: bool,
    pub black_queenside_castle: bool,
    pub ep: Option<(usize, usize)>,
    pub white_king_pos: (usize, usize),
    pub black_king_pos: (usize, usize),
}

impl View for ChessBoard {
    type V = BoardView;

    open spec fn view(&self) -> BoardView {
        BoardView {
            b: self.board@,
            prot: self.protagonist,
            opp: self.opponent,
            wkc: self.white_kingside_castle,
            wqc: self.white_queenside_castle,
            bkc: self.black_kingside_castle,
            bqc: self.black_queenside_castle,
            ep: match self.ep {
                Some(t) => Some((t.0 as int, t.1 as int)),
                None => None,
            },
            wking: (self.white_king_pos.0 as int, self.white_king_pos.1 as int),
            bking: (self.black_king_pos.0 as int, self.black_king_pos.1 as int),
        }
    }
}

impl ChessBoard {
    /// Reads the square in row `r`, column `c`.
    pub fn at(&self, r: usize, c: usize) -> (p: u8)
        requires
            r < 8,
            c < 8,
        ensures
            p == self@.at(r as int, c as int),
    {
        self.board[8 * r + c]
    }

    /// Writes the square in row `r`, column `c`, leaving every other field
    /// of the position unchanged.
    pub fn set_at(&mut self, r: usize, c: usize, p: u8)
        requires
            r < 8,
            c < 8,
        ensures
            final(self)@ == (BoardView { b: old(self)@.b.update(bidx(r as int, c as int), p), ..old(self)@ }),
    {
        self.board[8 * r + c] = p;
    }
}

/// Builds a position from an 8 by 8 grid of piece bytes, with White to
/// move, full castling rights, no en-passant target, and the king caches
/// at the standard starting squares.
pub fn build_board(board: [[u8; 8]; 8]) -> (r: ChessBoard)
    ensures
        r@.b.len() == 64,
        forall|i: int, j: int|
            on_bd(i, j) ==> r@.b[bidx(i, j)] == board[i][j],
        r@.prot == WHITE,
        r@.opp == BLACK,
        r@.wkc && r@.wqc && r@.bkc && r@.bqc,
        r@.ep is None,
        r@.wking == (7int, 4int),
        r@.bking == (0int, 4int),
{
    let mut flat: [u8; 64] = [0u8; 64];
    let mut i: usize = 0;
    while i < 8
        invariant
            i <= 8,
            forall|a: int, b: int|
                0 <= a < i && 0 <= b < 8 ==> flat@[bidx(a, b)] == board[a][b],
        decreases 8 - i,
    {
        let mut j: usize = 0;
        while j < 8
            invariant
                i < 8,
                j <= 8,
                forall|a: int, b: int|
                    0 <= a < i && 0 <= b < 8 ==> flat@[bidx(a, b)] == board[a][b],
                forall|b: int| 0 <= b < j ==> flat@[bidx(i as int, b)] == board[i as int][b],
            decreases 8 - j,
        {
            flat[8 * i + j] = board[i][j];
            j = j + 1;
        }
        i = i + 1;
    }
    ChessBoard {
        board: flat,
        opponent: BLACK,
        protagonist: WHITE,
        white_kingside_castle: true,
        white_queenside_castle: true,
        black_kingside_castle: true,
        black_queenside_castle: true,
        ep: None,
        white_king_pos: (7, 4),
        black_king_pos: (0, 4),
    }
}

} // verus!
