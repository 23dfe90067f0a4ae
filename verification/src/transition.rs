//! The state transition pair: applying a move and reverting it.
//!
//! `make` applies a move as a pseudo-legal move — king relocation and rook
//! shuffle for castling, promotion substitution, en-passant capture and
//! target bookkeeping — then tests whether the mover's own king is
//! attacked. An illegal move is reverted on the spot and signalled by
//! `None`. `unmake` reverses a move given the captured piece. Neither
//! function saves castling rights or the en-passant target across a full
//! round trip: a searching caller snapshots both before `make` and
//! restores them after `unmake`, for every trial move.

use vstd::prelude::*;
use crate::piece::{WHITE, BLACK, KING, QUEEN, PAWN, ROOK, KNIGHT, BISHOP, type_of, color_of,
    square_ok, clear_piece_color};
use crate::board::{bidx, on_bd, BoardView, ChessBoard};
use crate::model::{attacked_by, ray_hits, lemma_ray_monotone, is_rook_dir, is_bishop_dir};

verus! {

impl BoardView {
    /// The position after a move is applied as a pseudo-legal move: the
    /// board rewritten, king cache and en-passant target updated, and the
    /// sides swapped. Castling rights are never touched.
    pub open spec fn after_make(self, sr: int, sc: int, dr: int, dc: int, promo: u8) -> BoardView {
        let piece = self.at(sr, sc);
        let is_king = type_of(piece) == KING;
        let wk2 = if is_king && self.prot == WHITE {
            (dr, dc)
        } else {
            self.wking
        };
        let bk2 = if is_king && self.prot == BLACK {
            (dr, dc)
        } else {
            self.bking
        };
        let b1 = if is_king && (sc > dc + 1 || dc > sc + 1) {
            if sc > dc {
                self.b.update(bidx(sr, dc + 1), self.b[bidx(sr, 0)]).update(bidx(sr, 0), 0)
            } else {
                self.b.update(bidx(sr, dc - 1), self.b[bidx(sr, 7)]).update(bidx(sr, 7), 0)
            }
        } else {
            self.b
        };
        let placed: u8 = if promo == 0 {
            piece
        } else {
            (promo + self.prot) as u8
        };
        let b2 = b1.update(bidx(dr, dc), placed).update(bidx(sr, sc), 0);
        let is_pawn = piece == PAWN + self.prot;
        let b3 = if is_pawn && self.ep == Some((dr, dc)) {
            b2.update(bidx(sr, dc), 0)
        } else {
            b2
        };
        let ep2 = if is_pawn && (sr - dr == 2 || dr - sr == 2) {
            Some((((sr + dr) / 2), dc))
        } else {
            None
        };
        BoardView { b: b3, prot: self.opp, opp: self.prot, ep: ep2, wking: wk2, bking: bk2, ..self }
    }

    /// Whether the move passes the legality test inside `make`: after the
    /// board is rewritten, the mover's own cached king square is not
    /// attacked by the waiting side.
    pub open spec fn make_ok(self, sr: int, sc: int, dr: int, dc: int, promo: u8) -> bool {
        let a = self.after_make(sr, sc, dr, dc, promo);
        let king = if self.prot == WHITE {
            a.wking
        } else {
            a.bking
        };
        !attacked_by(a.b, king.0, king.1, self.opp)
    }

    /// `make_ok` over a move written as the generators emit it.
    pub open spec fn make_ok_move(self, m: ((usize, usize), (usize, usize, u8))) -> bool {
        self.make_ok(m.0.0 as int, m.0.1 as int, m.1.0 as int, m.1.1 as int, m.1.2)
    }

    /// The position after a move is reverted given the captured piece:
    /// the sides swap back, a king move restores the king cache, a castle
    /// restores the rook, promotion is undone to a pawn, and a
    /// non-capturing pawn move that changed file restores the pawn taken
    /// en passant. The en-passant target and the castling rights are left
    /// as they are.
    pub open spec fn after_unmake(
        self,
        sr: int,
        sc: int,
        dr: int,
        dc: int,
        promo: u8,
        cap: u8,
    ) -> BoardView {
        let prot2 = self.opp;
        let opp2 = self.prot;
        let dpiece = self.at(dr, dc);
        let is_king = type_of(dpiece) == KING;
        let wk2 = if is_king && prot2 == WHITE {
            (sr, sc)
        } else {
            self.wking
        };
        let bk2 = if is_king && prot2 == BLACK {
            (sr, sc)
        } else {
            self.bking
        };
        let b1 = if is_king && (sc > dc + 1 || dc > sc + 1) {
            if sc > dc {
                self.b.update(bidx(sr, 0), self.b[bidx(sr, dc + 1)]).update(bidx(sr, dc + 1), 0)
            } else {
                self.b.update(bidx(sr, 7), self.b[bidx(sr, dc - 1)]).update(bidx(sr, dc - 1), 0)
            }
        } else {
            self.b
        };
        let restored: u8 = if promo == 0 {
            b1[bidx(dr, dc)]
        } else {
            (PAWN + prot2) as u8
        };
        let b2 = b1.update(bidx(sr, sc), restored);
        let b3 = if restored == PAWN + prot2 && cap == 0 && sc != dc {
            b2.update(bidx(sr, dc), (PAWN + opp2) as u8)
        } else {
            b2
        };
        let b4 = b3.update(bidx(dr, dc), cap);
        BoardView { b: b4, prot: prot2, opp: opp2, wking: wk2, bking: bk2, ..self }
    }
}

impl ChessBoard {
    /// Reverses a move: swaps the sides back, restores the king cache if
    /// a king moved, reverses a castle's rook shuffle, restores the
    /// source square (a promotion becomes a pawn again), restores the
    /// pawn captured en passant for a non-capturing pawn move that
    /// changed file, and puts the captured piece back on the destination.
    #[verifier::rlimit(100)]
    pub fn unmake(&mut self, source: (usize, usize), dest: (usize, usize, u8), captured_piece: u8)
        requires
            old(self)@.inv(),
            source.0 < 8,
            source.1 < 8,
            dest.0 < 8,
            dest.1 < 8,
            dest.2 == 0 || dest.2 == QUEEN || dest.2 == ROOK || dest.2 == BISHOP || dest.2
                == KNIGHT,
            square_ok(captured_piece),
        ensures
            final(self)@.inv(),
            final(self)@ == old(self)@.after_unmake(
                source.0 as int,
                source.1 as int,
                dest.0 as int,
                dest.1 as int,
                dest.2,
                captured_piece,
            ),
    {
        let ghost s0 = old(self)@;
        let ghost u = s0.after_unmake(
            source.0 as int,
            source.1 as int,
            dest.0 as int,
            dest.1 as int,
            dest.2,
            captured_piece,
        );
        let temp: u8 = self.protagonist;
        self.protagonist = self.opponent;
        self.opponent = temp;
        if clear_piece_color(self.at(dest.0, dest.1)) == KING {
            if self.protagonist == WHITE {
                self.white_king_pos = source;
            } else {
                self.black_king_pos = source;
            }
            if source.1 > dest.1 + 1 || dest.1 > source.1 + 1 {
                if source.1 > dest.1 {
                    let v = self.at(source.0, dest.1 + 1);
                    self.set_at(source.0, 0, v);
                    self.set_at(source.0, dest.1 + 1, 0);
                } else {
                    let v = self.at(source.0, dest.1 - 1);
                    self.set_at(source.0, 7, v);
                    self.set_at(source.0, dest.1 - 1, 0);
                }
            }
        }
        if dest.2 == 0 {
            let v = self.at(dest.0, dest.1);
            self.set_at(source.0, source.1, v);
        } else {
            self.set_at(source.0, source.1, PAWN + self.protagonist);
        }
        if self.at(source.0, source.1) == PAWN + self.protagonist {
            if captured_piece == 0 && source.1 != dest.1 {
                self.set_at(source.0, dest.1, PAWN + self.opponent);
            }
        }
        self.set_at(dest.0, dest.1, captured_piece);
        proof {
            assert(self@ =~= u);
        }
    }

    /// Applies a move as a pseudo-legal move, then tests whether the
    /// mover's own king is attacked. If it is, the move is reverted on
    /// the spot and `None` returned: the board, king cache and sides are
    /// then exactly as before the call, though the en-passant target has
    /// been overwritten by the move's own bookkeeping. If the move is
    /// legal, the sides swap and the captured piece value is returned.
    /// Castling rights are never revoked, whatever moves.
    #[verifier::rlimit(100)]
    pub fn make(&mut self, source: (usize, usize), dest: (usize, usize, u8)) -> (r: Option<u8>)
        requires
            old(self)@.inv(),
            source.0 < 8,
            source.1 < 8,
            dest.0 < 8,
            dest.1 < 8,
            dest.2 == 0 || dest.2 == QUEEN || dest.2 == ROOK || dest.2 == BISHOP || dest.2
                == KNIGHT,
        ensures
            final(self)@.inv(),
            ({
                let s0 = old(self)@;
                let sr = source.0 as int;
                let sc = source.1 as int;
                let dr = dest.0 as int;
                let dc = dest.1 as int;
                let a = s0.after_make(sr, sc, dr, dc, dest.2);
                let legal = s0.make_ok(sr, sc, dr, dc, dest.2);
                &&& (r is Some) == legal
                &&& (legal ==> final(self)@ == a && r == Some(s0.at(dr, dc)))
                &&& (!legal ==> final(self)@ == a.after_unmake(sr, sc, dr, dc, dest.2, s0.at(dr, dc)))
                &&& (!legal && s0.king_cached() && s0.ep_ok() && s0.pl(sr, sc, dr, dc, dest.2)
                    ==> final(self)@ == (BoardView { ep: a.ep, ..s0 }))
            }),
    {
        let ghost s0 = old(self)@;
        let ghost sri = source.0 as int;
        let ghost sci = source.1 as int;
        let ghost dri = dest.0 as int;
        let ghost dci = dest.1 as int;
        let ghost a = s0.after_make(sri, sci, dri, dci, dest.2);
        let captured_piece = self.at(dest.0, dest.1);
        let piece = self.at(source.0, source.1);
        if clear_piece_color(piece) == KING {
            if self.protagonist == WHITE {
                self.white_king_pos = (dest.0, dest.1);
            } else {
                self.black_king_pos = (dest.0, dest.1);
            }
            if source.1 > dest.1 + 1 || dest.1 > source.1 + 1 {
                if source.1 > dest.1 {
                    let v = self.at(source.0, 0);
                    self.set_at(source.0, dest.1 + 1, v);
                    self.set_at(source.0, 0, 0);
                } else {
                    let v = self.at(source.0, 7);
                    self.set_at(source.0, dest.1 - 1, v);
                    self.set_at(source.0, 7, 0);
                }
            }
        }
        if dest.2 == 0 {
            self.set_at(dest.0, dest.1, piece);
        } else {
            // Promotion: the promoted type takes the pawn's colour.
            self.set_at(dest.0, dest.1, dest.2 + self.protagonist);
        }
        self.set_at(source.0, source.1, 0);
        if piece == PAWN + self.protagonist {
            match self.ep {
                Some(square) => {
                    if dest.0 == square.0 && dest.1 == square.1 {
                        // Taking en passant: the passed pawn stands on the
                        // mover's own row in the destination column.
                        self.set_at(source.0, dest.1, 0);
                    }
                },
                None => {},
            }
        }
        self.ep = None;
        if piece == PAWN + self.protagonist {
            if source.0 + 2 == dest.0 || dest.0 + 2 == source.0 {
                self.ep = Some(((source.0 + dest.0) / 2, dest.1));
            }
        }
        proof {
            assert(self@ =~= (BoardView { prot: s0.prot, opp: s0.opp, ..a }));
        }
        let illegal = if self.protagonist == WHITE {
            self.in_check(self.white_king_pos)
        } else {
            self.in_check(self.black_king_pos)
        };
        proof {
            assert(illegal == !s0.make_ok(sri, sci, dri, dci, dest.2));
        }
        let temp: u8 = self.protagonist;
        self.protagonist = self.opponent;
        self.opponent = temp;
        proof {
            assert(self@ =~= a);
        }
        if illegal {
            self.unmake(source, dest, captured_piece);
            proof {
                if s0.king_cached() && s0.ep_ok() && s0.pl(sri, sci, dri, dci, dest.2) {
                    lemma_make_round_trip(s0, sri, sci, dri, dci, dest.2);
                    assert(self@ =~= (BoardView { ep: a.ep, ..s0 }));
                }
            }
            None
        } else {
            Some(captured_piece)
        }
    }
}

impl ChessBoard {
    /// Reverses a move after first restoring a pawn of the waiting side
    /// on the given square, for callers that track the square of a pawn
    /// captured en passant themselves.
    pub fn unmake_ep(
        &mut self,
        source: (usize, usize),
        dest: (usize, usize, u8),
        captured_piece: u8,
        ep: (usize, usize),
    )
        requires
            old(self)@.inv(),
            source.0 < 8,
            source.1 < 8,
            dest.0 < 8,
            dest.1 < 8,
            ep.0 < 8,
            ep.1 < 8,
            dest.2 == 0 || dest.2 == QUEEN || dest.2 == ROOK || dest.2 == BISHOP || dest.2
                == KNIGHT,
            square_ok(captured_piece),
        ensures
            final(self)@.inv(),
            final(self)@ == (BoardView {
                b: old(self)@.b.update(
                    bidx(ep.0 as int, ep.1 as int),
                    (PAWN + old(self)@.opp) as u8,
                ),
                ..old(self)@
            }).after_unmake(
                source.0 as int,
                source.1 as int,
                dest.0 as int,
                dest.1 as int,
                dest.2,
                captured_piece,
            ),
    {
        self.set_at(ep.0, ep.1, PAWN + self.opponent);
        self.unmake(source, dest, captured_piece);
    }
}

/// Ordinary play preserves the position invariants: applying a
/// pseudo-legal move that does not capture a king — and, for a castle,
/// whose corner square holds no king — keeps every board byte a valid
/// square value, the two sides complementary, the king caches naming
/// exactly the two kings' squares, and the en-passant bookkeeping sound.
#[verifier::spinoff_prover]
#[verifier::rlimit(100)]
pub proof fn lemma_make_preserves_invariants(
    s: BoardView,
    sr: int,
    sc: int,
    dr: int,
    dc: int,
    promo: u8,
)
    requires
        s.inv(),
        s.kings_ok(),
        s.ep_ok(),
        s.pl(sr, sc, dr, dc, promo),
        type_of(s.at(dr, dc)) != KING,
        type_of(s.at(sr, sc)) == KING && dc == sc + 2 ==> type_of(s.at(sr, 7)) != KING,
        type_of(s.at(sr, sc)) == KING && dc == sc - 2 ==> type_of(s.at(sr, 0)) != KING,
    ensures
        ({
            let a = s.after_make(sr, sc, dr, dc, promo);
            &&& a.inv()
            &&& a.kings_ok()
            &&& a.ep_ok()
        }),
{
    crate::model::lemma_pl_dest_on_bd(s, sr, sc, dr, dc, promo);
    lemma_pl_moves_away(s, sr, sc, dr, dc, promo);
    let p = s.at(sr, sc);
    let a = s.after_make(sr, sc, dr, dc, promo);
    let wk = s.wking;
    let bk = s.bking;
    assert((dr, dc) != wk && (dr, dc) != bk);
    if type_of(p) == PAWN {
        assert(promo == 0 || promo == QUEEN || promo == ROOK || promo == BISHOP || promo
            == KNIGHT);
    } else {
        assert(promo == 0);
    }
    assert forall|i: int| 0 <= i < 64 implies crate::piece::square_ok(#[trigger] a.b[i]) by {
        assert(crate::piece::square_ok(s.b[i]));
    }
    if type_of(p) == KING && (sc > dc + 1 || dc > sc + 1) {
        // A castle: the king slides from the standard column and the
        // corner's content, no king by hypothesis, shuffles beside it.
        assert(sc == 4 && (dc == 2 || dc == 6) && dr == sr);
        assert(p == KING + s.prot && (sr, sc) == (if s.prot == WHITE {
            wk
        } else {
            bk
        }));
        assert(a.at(a.wking.0, a.wking.1) == KING + WHITE);
        assert(a.at(a.bking.0, a.bking.1) == KING + BLACK);
        assert forall|r: int, c: int|
            on_bd(r, c) && #[trigger] a.at(r, c) == KING + WHITE implies (r, c) == a.wking by {
            if (r, c) != (dr, dc) && (r, c) != (sr, sc) && (r, c) != (sr, (if dc == 6 {
                7int
            } else {
                0int
            })) && (r, c) != (sr, (if dc == 6 {
                5int
            } else {
                3int
            })) {
                assert(a.at(r, c) == s.at(r, c));
            }
        }
        assert forall|r: int, c: int|
            on_bd(r, c) && #[trigger] a.at(r, c) == KING + BLACK implies (r, c) == a.bking by {
            if (r, c) != (dr, dc) && (r, c) != (sr, sc) && (r, c) != (sr, (if dc == 6 {
                7int
            } else {
                0int
            })) && (r, c) != (sr, (if dc == 6 {
                5int
            } else {
                3int
            })) {
                assert(a.at(r, c) == s.at(r, c));
            }
        }
    } else {
        if type_of(p) == KING {
            assert(p == KING + s.prot && (sr, sc) == (if s.prot == WHITE {
                wk
            } else {
                bk
            }));
        } else {
            assert((sr, sc) != wk && (sr, sc) != bk);
        }
        assert(a.at(a.wking.0, a.wking.1) == KING + WHITE);
        assert(a.at(a.bking.0, a.bking.1) == KING + BLACK);
        assert forall|r: int, c: int|
            on_bd(r, c) && #[trigger] a.at(r, c) == KING + WHITE implies (r, c) == a.wking by {
            if (r, c) == (dr, dc) {
                assert(a.at(r, c) == (if promo == 0 {
                    p
                } else {
                    (promo + s.prot) as u8
                }));
                assert(p == KING + WHITE && s.prot == WHITE);
            } else if (r, c) == (sr, sc) {
                assert(a.at(r, c) == 0);
            } else if (r, c) == (sr, dc) && p == PAWN + s.prot && s.ep == Some((dr, dc)) {
                assert(a.at(r, c) == 0);
            } else {
                assert(a.at(r, c) == s.at(r, c));
            }
        }
        assert forall|r: int, c: int|
            on_bd(r, c) && #[trigger] a.at(r, c) == KING + BLACK implies (r, c) == a.bking by {
            if (r, c) == (dr, dc) {
                assert(a.at(r, c) == (if promo == 0 {
                    p
                } else {
                    (promo + s.prot) as u8
                }));
                assert(p == KING + BLACK && s.prot == BLACK);
            } else if (r, c) == (sr, sc) {
                assert(a.at(r, c) == 0);
            } else if (r, c) == (sr, dc) && p == PAWN + s.prot && s.ep == Some((dr, dc)) {
                assert(a.at(r, c) == 0);
            } else {
                assert(a.at(r, c) == s.at(r, c));
            }
        }
    }
}

/// A pseudo-legal move never starts and ends on the same square.
pub proof fn lemma_pl_moves_away(s: BoardView, sr: int, sc: int, dr: int, dc: int, promo: u8)
    requires
        s.pl(sr, sc, dr, dc, promo),
    ensures
        !(sr == dr && sc == dc),
{
    let p = s.at(sr, sc);
    if type_of(p) == QUEEN || type_of(p) == ROOK || type_of(p) == BISHOP {
        if exists|a: int, b: int|
            (is_rook_dir(a, b) || is_bishop_dir(a, b)) && #[trigger] ray_hits(
                s.b,
                sr,
                sc,
                a,
                b,
                dr,
                dc,
                7,
            ) {
            let (a, b) = choose|a: int, b: int|
                (is_rook_dir(a, b) || is_bishop_dir(a, b)) && #[trigger] ray_hits(
                    s.b,
                    sr,
                    sc,
                    a,
                    b,
                    dr,
                    dc,
                    7,
                );
            lemma_ray_monotone(s.b, sr, sc, a, b, dr, dc, 7);
        }
    }
}

/// The en-passant window: applying a move leaves an en-passant target
/// exactly when the moved piece is a pawn of the side to move advancing
/// two rows, so the target is absent after every other move; and while
/// no target is recorded, a pawn's only pseudo-legal diagonal moves are
/// plain captures of an enemy piece — the en-passant destination is
/// offered only during the window.
pub proof fn lemma_ep_window(s: BoardView, sr: int, sc: int, dr: int, dc: int, promo: u8)
    requires
        s.inv(),
    ensures
        ({
            let a = s.after_make(sr, sc, dr, dc, promo);
            (a.ep is Some) <==> (s.at(sr, sc) == PAWN + s.prot && (sr - dr == 2 || dr - sr == 2))
        }),
        (s.ep is None && s.pl(sr, sc, dr, dc, promo) && s.at(sr, sc) == PAWN + s.prot && dc != sc
            && promo == 0) ==> s.enemy_at(dr, dc),
{
}

/// Applying a pseudo-legal move and reverting it with the captured piece
/// restores the board, the king cache and the sides exactly, when the
/// mover's king cache was faithful and the en-passant bookkeeping sound.
/// The en-passant target and the castling rights are the caller's to
/// restore: the reverted position keeps the applied position's values of
/// both.
pub proof fn lemma_make_round_trip(s: BoardView, sr: int, sc: int, dr: int, dc: int, promo: u8)
    requires
        s.inv(),
        s.king_cached(),
        s.ep_ok(),
        s.pl(sr, sc, dr, dc, promo),
    ensures
        ({
            let a = s.after_make(sr, sc, dr, dc, promo);
            let u = a.after_unmake(sr, sc, dr, dc, promo, s.at(dr, dc));
            &&& u.b == s.b
            &&& u.prot == s.prot
            &&& u.opp == s.opp
            &&& u.wking == s.wking
            &&& u.bking == s.bking
            &&& u.wkc == s.wkc
            &&& u.wqc == s.wqc
            &&& u.bkc == s.bkc
            &&& u.bqc == s.bqc
            &&& u.ep == a.ep
        }),
{
    crate::model::lemma_pl_dest_on_bd(s, sr, sc, dr, dc, promo);
    lemma_pl_moves_away(s, sr, sc, dr, dc, promo);
    let p = s.at(sr, sc);
    let a = s.after_make(sr, sc, dr, dc, promo);
    let u = a.after_unmake(sr, sc, dr, dc, promo, s.at(dr, dc));
    if type_of(p) == KING && (sc > dc + 1 || dc > sc + 1) {
        // A castle: from the standard king column two squares sideways.
        assert(sc == 4 && (dc == 2 || dc == 6) && dr == sr);
        if dc == 6 {
            assert(u.b =~= s.b);
        } else {
            assert(u.b =~= s.b);
        }
        assert(u.wking == s.wking && u.bking == s.bking);
    } else {
        if p == PAWN + s.prot && s.ep == Some((dr, dc)) && promo == 0 && sc != dc {
            // The en-passant capture: the passed pawn returns.
            assert(u.b =~= s.b);
        } else {
            assert(u.b =~= s.b);
        }
        assert(u.wking == s.wking && u.bking == s.bking);
    }
}

} // verus!
