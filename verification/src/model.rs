//! The mathematical model of movement and attack.
//!
//! Destination predicates per piece type say which targets a piece on a
//! given square may move to; `ray_hits` models sliding along a direction
//! over empty squares; `attacked_by` says when a square is attacked by a
//! given colour, by running the movement rules in reverse from the target
//! square. `pl` gathers the per-type rules into the pseudo-legal move
//! predicate that the generators implement and the state transition
//! requires.

use vstd::prelude::*;
use crate::piece::{WHITE, BLACK, KING, QUEEN, PAWN, ROOK, KNIGHT, BISHOP, color_of, type_of};
use crate::board::{bidx, on_bd, BoardView};

verus! {

/// A knight's jump between two squares.
pub open spec fn knight_jump(sr: int, sc: int, tr: int, tc: int) -> bool {
    ||| ((tr == sr + 1 || tr == sr - 1) && (tc == sc + 2 || tc == sc - 2))
    ||| ((tr == sr + 2 || tr == sr - 2) && (tc == sc + 1 || tc == sc - 1))
}

/// A king's single step between two distinct squares.
pub open spec fn king_step(sr: int, sc: int, tr: int, tc: int) -> bool {
    &&& !(tr == sr && tc == sc)
    &&& sr - 1 <= tr <= sr + 1
    &&& sc - 1 <= tc <= sc + 1
}

/// A horizontal or vertical unit direction.
pub open spec fn is_rook_dir(dr: int, dc: int) -> bool {
    ||| (dr == 0 && (dc == 1 || dc == -1))
    ||| (dc == 0 && (dr == 1 || dr == -1))
}

/// A diagonal unit direction.
pub open spec fn is_bishop_dir(dr: int, dc: int) -> bool {
    (dr == 1 || dr == -1) && (dc == 1 || dc == -1)
}

/// Walking from `(sr, sc)` by steps of `(dr, dc)`, the square `(tr, tc)`
/// is reached with every strictly intermediate square empty and on the
/// board. The target itself may hold anything.
pub open spec fn ray_hits(
    b: Seq<u8>,
    sr: int,
    sc: int,
    dr: int,
    dc: int,
    tr: int,
    tc: int,
    fuel: nat,
) -> bool
    decreases fuel,
{
    if fuel == 0 {
        false
    } else {
        let nr = sr + dr;
        let nc = sc + dc;
        on_bd(nr, nc) && ((nr == tr && nc == tc) || (b[bidx(nr, nc)] == 0 && ray_hits(
            b,
            nr,
            nc,
            dr,
            dc,
            tr,
            tc,
            (fuel - 1) as nat,
        )))
    }
}

/// A hit square is on the board.
pub proof fn lemma_ray_hits_on_bd(
    b: Seq<u8>,
    sr: int,
    sc: int,
    dr: int,
    dc: int,
    tr: int,
    tc: int,
    fuel: nat,
)
    requires
        ray_hits(b, sr, sc, dr, dc, tr, tc, fuel),
    ensures
        on_bd(tr, tc),
    decreases fuel,
{
    if sr + dr == tr && sc + dc == tc {
    } else {
        lemma_ray_hits_on_bd(b, sr + dr, sc + dc, dr, dc, tr, tc, (fuel - 1) as nat);
    }
}

/// How many steps fit on the board from `(r, c)` along direction
/// `(dr, dc)` before the moving coordinate leaves it.
pub open spec fn steps_left(r: int, c: int, dr: int, dc: int) -> int {
    if dr == 1 {
        7 - r
    } else if dr == -1 {
        r
    } else if dc == 1 {
        7 - c
    } else {
        c
    }
}

/// A hit on an empty square extends one step further with one more unit
/// of fuel.
pub proof fn lemma_ray_extend(
    b: Seq<u8>,
    sr: int,
    sc: int,
    dr: int,
    dc: int,
    mr: int,
    mc: int,
    fuel: nat,
)
    requires
        ray_hits(b, sr, sc, dr, dc, mr, mc, fuel),
        b[bidx(mr, mc)] == 0,
        on_bd(mr + dr, mc + dc),
        !(dr == 0 && dc == 0),
    ensures
        ray_hits(b, sr, sc, dr, dc, mr + dr, mc + dc, (fuel + 1) as nat),
    decreases fuel,
{
    if sr + dr == mr && sc + dc == mc {
        assert(ray_hits(b, mr, mc, dr, dc, mr + dr, mc + dc, fuel));
    } else {
        lemma_ray_extend(b, sr + dr, sc + dc, dr, dc, mr, mc, (fuel - 1) as nat);
    }
}

/// Any amount of fuel at least the room to the board's edge suffices.
pub proof fn lemma_ray_fuel_enough(
    b: Seq<u8>,
    sr: int,
    sc: int,
    dr: int,
    dc: int,
    tr: int,
    tc: int,
    k1: nat,
    k2: nat,
)
    requires
        ray_hits(b, sr, sc, dr, dc, tr, tc, k1),
        -1 <= dr <= 1,
        -1 <= dc <= 1,
        !(dr == 0 && dc == 0),
        k2 >= steps_left(sr, sc, dr, dc),
    ensures
        ray_hits(b, sr, sc, dr, dc, tr, tc, k2),
    decreases k1,
{
    if sr + dr == tr && sc + dc == tc {
    } else {
        lemma_ray_fuel_enough(b, sr + dr, sc + dc, dr, dc, tr, tc, (k1 - 1) as nat, (k2 - 1) as nat);
    }
}

/// A ray walk moves each coordinate monotonically with its step, so a hit
/// square never equals the start square.
pub proof fn lemma_ray_monotone(
    b: Seq<u8>,
    sr: int,
    sc: int,
    dr: int,
    dc: int,
    tr: int,
    tc: int,
    fuel: nat,
)
    requires
        ray_hits(b, sr, sc, dr, dc, tr, tc, fuel),
    ensures
        dr == 1 ==> tr > sr,
        dr == -1 ==> tr < sr,
        dr == 0 ==> tr == sr,
        dc == 1 ==> tc > sc,
        dc == -1 ==> tc < sc,
        dc == 0 ==> tc == sc,
    decreases fuel,
{
    if sr + dr == tr && sc + dc == tc {
    } else {
        lemma_ray_monotone(b, sr + dr, sc + dc, dr, dc, tr, tc, (fuel - 1) as nat);
    }
}

/// A knight of colour `att` gives check to `(r, c)`.
pub open spec fn knight_attack(b: Seq<u8>, r: int, c: int, att: u8) -> bool {
    exists|i: int, j: int|
        on_bd(i, j) && knight_jump(r, c, i, j) && b[bidx(i, j)] == KNIGHT + att
}

/// A bishop or queen of colour `att` reaches `(r, c)` along a clear
/// diagonal.
pub open spec fn diag_attack(b: Seq<u8>, r: int, c: int, att: u8) -> bool {
    exists|dr: int, dc: int, i: int, j: int|
        is_bishop_dir(dr, dc) && #[trigger] ray_hits(b, r, c, dr, dc, i, j, 7) && (b[bidx(i, j)]
            == BISHOP + att || b[bidx(i, j)] == QUEEN + att)
}

/// A rook or queen of colour `att` reaches `(r, c)` along a clear rank or
/// file.
pub open spec fn line_attack(b: Seq<u8>, r: int, c: int, att: u8) -> bool {
    exists|dr: int, dc: int, i: int, j: int|
        is_rook_dir(dr, dc) && #[trigger] ray_hits(b, r, c, dr, dc, i, j, 7) && (b[bidx(i, j)]
            == ROOK + att || b[bidx(i, j)] == QUEEN + att)
}

/// A pawn of colour `att` attacks `(r, c)`: the pawn stands diagonally
/// behind the square from the attacker's side of the board.
pub open spec fn pawn_attack(b: Seq<u8>, r: int, c: int, att: u8) -> bool {
    if att == WHITE {
        ||| (on_bd(r + 1, c - 1) && b[bidx(r + 1, c - 1)] == PAWN + WHITE)
        ||| (on_bd(r + 1, c + 1) && b[bidx(r + 1, c + 1)] == PAWN + WHITE)
    } else {
        ||| (on_bd(r - 1, c - 1) && b[bidx(r - 1, c - 1)] == PAWN + BLACK)
        ||| (on_bd(r - 1, c + 1) && b[bidx(r - 1, c + 1)] == PAWN + BLACK)
    }
}

/// The square `(r, c)` is attacked by a piece of colour `att`. Kings are
/// deliberately not considered: the design relies on reachable positions
/// never placing the two kings adjacent.
pub open spec fn attacked_by(b: Seq<u8>, r: int, c: int, att: u8) -> bool {
    ||| knight_attack(b, r, c, att)
    ||| diag_attack(b, r, c, att)
    ||| line_attack(b, r, c, att)
    ||| pawn_attack(b, r, c, att)
}

impl BoardView {
    /// The square is attacked by the waiting side.
    pub open spec fn attacked(self, r: int, c: int) -> bool {
        attacked_by(self.b, r, c, self.opp)
    }

    /// The kingside castling flag of the side to move.
    pub open spec fn kingside_right(self) -> bool {
        if self.prot == WHITE {
            self.wkc
        } else {
            self.bkc
        }
    }

    /// The queenside castling flag of the side to move.
    pub open spec fn queenside_right(self) -> bool {
        if self.prot == WHITE {
            self.wqc
        } else {
            self.bqc
        }
    }

    /// A slider on `(sr, sc)` may land on `(tr, tc)` along the single
    /// direction `(dr, dc)`.
    pub open spec fn slides_to(self, sr: int, sc: int, dr: int, dc: int, tr: int, tc: int) -> bool {
        ray_hits(self.b, sr, sc, dr, dc, tr, tc, 7) && !self.friend_at(tr, tc)
    }

    /// A knight on `(sr, sc)` may land on `(tr, tc)`.
    pub open spec fn knight_dest(self, sr: int, sc: int, tr: int, tc: int) -> bool {
        knight_jump(sr, sc, tr, tc) && on_bd(tr, tc) && !self.friend_at(tr, tc)
    }

    /// A rook on `(sr, sc)` may land on `(tr, tc)`.
    pub open spec fn rook_dest(self, sr: int, sc: int, tr: int, tc: int) -> bool {
        (exists|dr: int, dc: int|
            is_rook_dir(dr, dc) && #[trigger] ray_hits(self.b, sr, sc, dr, dc, tr, tc, 7))
            && !self.friend_at(tr, tc)
    }

    /// A bishop on `(sr, sc)` may land on `(tr, tc)`.
    pub open spec fn bishop_dest(self, sr: int, sc: int, tr: int, tc: int) -> bool {
        (exists|dr: int, dc: int|
            is_bishop_dir(dr, dc) && #[trigger] ray_hits(self.b, sr, sc, dr, dc, tr, tc, 7))
            && !self.friend_at(tr, tc)
    }

    /// A queen on `(sr, sc)` may land on `(tr, tc)`.
    pub open spec fn queen_dest(self, sr: int, sc: int, tr: int, tc: int) -> bool {
        self.rook_dest(sr, sc, tr, tc) || self.bishop_dest(sr, sc, tr, tc)
    }

    /// The kingside castling move from the standard king column: the king
    /// slides two columns toward the corner. The rights flag must be set,
    /// the two crossed squares empty, and neither the king's square nor
    /// the passed square attacked. Rights are never revoked when a king or
    /// rook moves away, so this may recur after the king returns home.
    pub open spec fn castle_kingside(self, sr: int, sc: int, tr: int, tc: int) -> bool {
        &&& sc == 4
    &&& tr == sr
    &&& tc == 6
    &&& self.kingside_right()
    &&& !self.attacked(sr, 4)
    &&& !self.attacked(sr, 5)
    &&& self.empty_at(sr, 5)
    &&& self.empty_at(sr, 6)
    }

    /// The queenside castling move from the standard king column.
    pub open spec fn castle_queenside(self, sr: int, sc: int, tr: int, tc: int) -> bool {
        &&& sc == 4
    &&& tr == sr
    &&& tc == 2
    &&& self.queenside_right()
    &&& !self.attacked(sr, 4)
    &&& !self.attacked(sr, 3)
    &&& self.empty_at(sr, 3)
    &&& self.empty_at(sr, 2)
    &&& self.empty_at(sr, 1)
    }

    /// A king on `(sr, sc)` may land on `(tr, tc)`.
    pub open spec fn king_dest(self, sr: int, sc: int, tr: int, tc: int) -> bool {
        ||| (king_step(sr, sc, tr, tc) && on_bd(tr, tc) && !self.friend_at(tr, tc))
        ||| self.castle_kingside(sr, sc, tr, tc)
        ||| self.castle_queenside(sr, sc, tr, tc)
    }

    /// A pawn of the side to move on `(sr, sc)` may make the move to
    /// `(tr, tc)` with promotion byte `promo`: a single advance onto an
    /// empty square, a diagonal capture, a diagonal move onto the
    /// en-passant target, or a double advance from the home rank; a move
    /// onto the last rank carries one of the four promotion types instead
    /// of zero.
    pub open spec fn pawn_dest(self, sr: int, sc: int, tr: int, tc: int, promo: u8) -> bool {
        if self.prot == BLACK {
            if promo == 0 {
                ||| (sr < 6 && tr == sr + 1 && tc == sc && self.empty_at(tr, tc))
                ||| (sr < 6 && tr == sr + 1 && ((tc == sc + 1 && sc < 7) || (tc == sc - 1 && sc
                    > 0)) && self.enemy_at(tr, tc))
                ||| (sr < 6 && tr == sr + 1 && ((tc == sc + 1 && sc < 7) || (tc == sc - 1 && sc
                    > 0)) && self.ep == Some((tr, tc)))
                ||| (sr == 1 && tr == 3 && tc == sc && self.empty_at(2, sc) && self.empty_at(3, sc))
            } else {
                &&& (promo == QUEEN || promo == ROOK || promo == BISHOP || promo == KNIGHT)
            &&& sr == 6
            &&& tr == 7
            &&& ((tc == sc && self.empty_at(7, sc)) || (((tc == sc + 1 && sc < 7) || (tc == sc - 1
                && sc > 0)) && self.enemy_at(tr, tc)))
            }
        } else {
            if promo == 0 {
                ||| (sr > 1 && tr == sr - 1 && tc == sc && self.empty_at(tr, tc))
                ||| (sr > 1 && tr == sr - 1 && ((tc == sc + 1 && sc < 7) || (tc == sc - 1 && sc
                    > 0)) && self.enemy_at(tr, tc))
                ||| (sr > 1 && tr == sr - 1 && ((tc == sc + 1 && sc < 7) || (tc == sc - 1 && sc
                    > 0)) && self.ep == Some((tr, tc)))
                ||| (sr == 6 && tr == 4 && tc == sc && self.empty_at(5, sc) && self.empty_at(4, sc))
            } else {
                &&& (promo == QUEEN || promo == ROOK || promo == BISHOP || promo == KNIGHT)
            &&& sr == 1
            &&& tr == 0
            &&& ((tc == sc && self.empty_at(0, sc)) || (((tc == sc + 1 && sc < 7) || (tc == sc - 1
                && sc > 0)) && self.enemy_at(tr, tc)))
            }
        }
    }

    /// The pseudo-legal move predicate: the source square holds a piece of
    /// the side to move and the destination obeys that piece's movement
    /// rule. A pseudo-legal move may still leave the mover's own king
    /// attacked; the state transition filters those.
    pub open spec fn pl(self, sr: int, sc: int, tr: int, tc: int, promo: u8) -> bool {
        let p = self.at(sr, sc);
        &&& on_bd(sr, sc)
    &&& p != 0
    &&& color_of(p) == self.prot
    &&& if type_of(p) == PAWN {
        self.pawn_dest(sr, sc, tr, tc, promo)
    } else {
        promo == 0 && if type_of(p) == KING {
            self.king_dest(sr, sc, tr, tc)
        } else if type_of(p) == QUEEN {
            self.queen_dest(sr, sc, tr, tc)
        } else if type_of(p) == ROOK {
            self.rook_dest(sr, sc, tr, tc)
        } else if type_of(p) == KNIGHT {
            self.knight_dest(sr, sc, tr, tc)
        } else if type_of(p) == BISHOP {
            self.bishop_dest(sr, sc, tr, tc)
        } else {
            false
        }
    }
    }

    /// `pl` over a move written as the generators emit it.
    pub open spec fn pl_move(self, m: ((usize, usize), (usize, usize, u8))) -> bool {
        self.pl(m.0.0 as int, m.0.1 as int, m.1.0 as int, m.1.1 as int, m.1.2)
    }
}

/// Generating moves for a pawn one step from the last rank with an
/// empty square ahead offers exactly the four promotion variants of the
/// advance — queen, rook, bishop and knight — and never a plain
/// non-promoting move.
pub proof fn lemma_promotion_expansion(s: BoardView, sr: int, sc: int, tr: int)
    requires
        s.inv(),
        on_bd(sr, sc),
        s.at(sr, sc) == PAWN + s.prot,
        sr == (if s.prot == WHITE {
            1int
        } else {
            6int
        }),
        tr == (if s.prot == WHITE {
            0int
        } else {
            7int
        }),
        s.empty_at(tr, sc),
    ensures
        forall|promo: u8|
            #[trigger] s.pl(sr, sc, tr, sc, promo) <==> (promo == QUEEN || promo == ROOK || promo
                == BISHOP || promo == KNIGHT),
{
}

/// A pseudo-legal destination lies on the board.
pub proof fn lemma_pl_dest_on_bd(s: BoardView, sr: int, sc: int, tr: int, tc: int, promo: u8)
    requires
        s.pl(sr, sc, tr, tc, promo),
    ensures
        on_bd(tr, tc),
        on_bd(sr, sc),
{
    let p = s.at(sr, sc);
    if type_of(p) == PAWN {
    } else if type_of(p) == QUEEN || type_of(p) == ROOK || type_of(p) == BISHOP {
        assert forall|dr: int, dc: int|
            #[trigger] ray_hits(s.b, sr, sc, dr, dc, tr, tc, 7) implies on_bd(tr, tc) by {
            lemma_ray_hits_on_bd(s.b, sr, sc, dr, dc, tr, tc, 7);
        }
    } else {
    }
}

} // verus!
