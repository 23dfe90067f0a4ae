//! Attack detection: whether a square is attacked by the waiting side.
//!
//! The detector reuses the move generators in reverse: it generates
//! knight, bishop and rook moves as if the examined square held such a
//! piece, and looks for a matching enemy piece at the destinations;
//! bishop and rook rays also match an enemy queen. Pawn attacks are read
//! directly from the two squares diagonally behind the examined square
//! from the attacker's side. King adjacency is deliberately not examined:
//! reachable positions never hold the two kings adjacent.

use vstd::prelude::*;
use crate::piece::{WHITE, BLACK, QUEEN, PAWN, ROOK, KNIGHT, BISHOP, color_of};
use crate::board::{on_bd, ChessBoard};
use crate::model::{knight_attack, diag_attack, line_attack, pawn_attack, ray_hits, is_rook_dir,
    is_bishop_dir};

verus! {

impl ChessBoard {
    /// Whether the given square is attacked by the side not to move.
    #[verifier::loop_isolation(false)]
    #[verifier::rlimit(60)]
    pub fn in_check(&self, source: (usize, usize)) -> (r: bool)
        requires
            self@.inv(),
            source.0 < 8,
            source.1 < 8,
        ensures
            r == self@.attacked(source.0 as int, source.1 as int),
    {
        let ghost s = self@;
        let ghost sr = source.0 as int;
        let ghost sc = source.1 as int;
        // Knight checks
        let knight_moves: Vec<((usize, usize), (usize, usize))> = self.knight_moves(source);
        let mut i: usize = 0;
        while i < knight_moves.len()
            invariant
                i <= knight_moves@.len(),
                forall|j: int|
                    0 <= j < i ==> s.at(
                        (#[trigger] knight_moves@[j]).1.0 as int,
                        knight_moves@[j].1.1 as int,
                    ) != KNIGHT + s.opp,
            decreases knight_moves@.len() - i,
        {
            let dest = knight_moves[i].1;
            if self.at(dest.0, dest.1) == KNIGHT + self.opponent {
                proof {
                    assert(knight_attack(s.b, sr, sc, s.opp));
                }
                return true;
            }
            i = i + 1;
        }
        proof {
            assert(!knight_attack(s.b, sr, sc, s.opp)) by {
                if knight_attack(s.b, sr, sc, s.opp) {
                    let (a, b) = choose|a: int, b: int|
                        on_bd(a, b) && crate::model::knight_jump(sr, sc, a, b) && s.b[
                            crate::board::bidx(a, b)] == KNIGHT + s.opp;
                    assert(s.knight_dest(sr, sc, a, b));
                    assert(knight_moves@.contains((source, ((a as usize), (b as usize)))));
                }
            }
        }
        // Diagonal checks
        let diagonal_moves: Vec<((usize, usize), (usize, usize))> = self.bishop_moves(source);
        let mut i: usize = 0;
        while i < diagonal_moves.len()
            invariant
                i <= diagonal_moves@.len(),
                forall|j: int|
                    0 <= j < i ==> s.at(
                        (#[trigger] diagonal_moves@[j]).1.0 as int,
                        diagonal_moves@[j].1.1 as int,
                    ) != BISHOP + s.opp && s.at(
                        diagonal_moves@[j].1.0 as int,
                        diagonal_moves@[j].1.1 as int,
                    ) != QUEEN + s.opp,
            decreases diagonal_moves@.len() - i,
        {
            let dest = diagonal_moves[i].1;
            let p = self.at(dest.0, dest.1);
            if p == BISHOP + self.opponent || p == QUEEN + self.opponent {
                proof {
                    let (dr, dc) = choose|dr: int, dc: int|
                        is_bishop_dir(dr, dc) && #[trigger] ray_hits(
                            s.b,
                            sr,
                            sc,
                            dr,
                            dc,
                            dest.0 as int,
                            dest.1 as int,
                            7,
                        );
                    assert(diag_attack(s.b, sr, sc, s.opp));
                }
                return true;
            }
            i = i + 1;
        }
        proof {
            assert(!diag_attack(s.b, sr, sc, s.opp)) by {
                if diag_attack(s.b, sr, sc, s.opp) {
                    let (dr, dc, a, b) = choose|dr: int, dc: int, a: int, b: int|
                        is_bishop_dir(dr, dc) && #[trigger] ray_hits(s.b, sr, sc, dr, dc, a, b, 7)
                            && (s.b[crate::board::bidx(a, b)] == BISHOP + s.opp || s.b[
                            crate::board::bidx(a, b)] == QUEEN + s.opp);
                    crate::model::lemma_ray_hits_on_bd(s.b, sr, sc, dr, dc, a, b, 7);
                    assert(s.bishop_dest(sr, sc, a, b));
                    assert(diagonal_moves@.contains((source, ((a as usize), (b as usize)))));
                }
            }
        }
        // Horizontal and vertical checks
        let rook_moves: Vec<((usize, usize), (usize, usize))> = self.rook_moves(source);
        let mut i: usize = 0;
        while i < rook_moves.len()
            invariant
                i <= rook_moves@.len(),
                forall|j: int|
                    0 <= j < i ==> s.at(
                        (#[trigger] rook_moves@[j]).1.0 as int,
                        rook_moves@[j].1.1 as int,
                    ) != ROOK + s.opp && s.at(
                        rook_moves@[j].1.0 as int,
                        rook_moves@[j].1.1 as int,
                    ) != QUEEN + s.opp,
            decreases rook_moves@.len() - i,
        {
            let dest = rook_moves[i].1;
            let p = self.at(dest.0, dest.1);
            if p == ROOK + self.opponent || p == QUEEN + self.opponent {
                proof {
                    let (dr, dc) = choose|dr: int, dc: int|
                        is_rook_dir(dr, dc) && #[trigger] ray_hits(
                            s.b,
                            sr,
                            sc,
                            dr,
                            dc,
                            dest.0 as int,
                            dest.1 as int,
                            7,
                        );
                    assert(line_attack(s.b, sr, sc, s.opp));
                }
                return true;
            }
            i = i + 1;
        }
        proof {
            assert(!line_attack(s.b, sr, sc, s.opp)) by {
                if line_attack(s.b, sr, sc, s.opp) {
                    let (dr, dc, a, b) = choose|dr: int, dc: int, a: int, b: int|
                        is_rook_dir(dr, dc) && #[trigger] ray_hits(s.b, sr, sc, dr, dc, a, b, 7)
                            && (s.b[crate::board::bidx(a, b)] == ROOK + s.opp || s.b[
                            crate::board::bidx(a, b)] == QUEEN + s.opp);
                    crate::model::lemma_ray_hits_on_bd(s.b, sr, sc, dr, dc, a, b, 7);
                    assert(s.rook_dest(sr, sc, a, b));
                    assert(rook_moves@.contains((source, ((a as usize), (b as usize)))));
                }
            }
        }
        // Pawn checks: the attacker's pawns stand diagonally behind the
        // square from the attacker's side of the board.
        if self.opponent == WHITE {
            if source.0 < 7 && source.1 > 0 {
                if self.at(source.0 + 1, source.1 - 1) == PAWN + WHITE {
                    return true;
                }
            }
            if source.0 < 7 && source.1 < 7 {
                if self.at(source.0 + 1, source.1 + 1) == PAWN + WHITE {
                    return true;
                }
            }
        } else {
            if source.0 > 0 && source.1 > 0 {
                if self.at(source.0 - 1, source.1 - 1) == PAWN + BLACK {
                    return true;
                }
            }
            if source.0 > 0 && source.1 < 7 {
                if self.at(source.0 - 1, source.1 + 1) == PAWN + BLACK {
                    return true;
                }
            }
        }
        proof {
            assert(!pawn_attack(s.b, sr, sc, s.opp));
        }
        false
    }
}

} // verus!
