//! Pseudo-legal move generation per piece type.
//!
//! Each generator returns every destination its piece may move to from the
//! given source square, and nothing else: the contracts state membership in
//! both directions against the destination predicates of the model.

use vstd::prelude::*;
use crate::piece::{WHITE, BLACK, KING, QUEEN, PAWN, ROOK, KNIGHT, BISHOP, clear_piece_color};
use crate::board::{bidx, on_bd, BoardView, ChessBoard};
use crate::model::{
    ray_hits, steps_left, lemma_ray_extend, lemma_ray_fuel_enough, lemma_ray_monotone, is_rook_dir,
    is_bishop_dir, knight_jump, king_step,
};

verus! {

broadcast use vstd::seq_lib::lemma_seq_contains_after_push;

/// Membership in a concatenation is membership in either part.
pub proof fn lemma_concat_contains<A>(s1: Seq<A>, s2: Seq<A>, x: A)
    ensures
        (s1 + s2).contains(x) <==> s1.contains(x) || s2.contains(x),
{
    if s1.contains(x) {
        let i = choose|i: int| 0 <= i < s1.len() && s1[i] == x;
        assert((s1 + s2)[i] == x);
    }
    if s2.contains(x) {
        let i = choose|i: int| 0 <= i < s2.len() && s2[i] == x;
        assert((s1 + s2)[s1.len() + i] == x);
    }
    if (s1 + s2).contains(x) {
        let i = choose|i: int| 0 <= i < (s1 + s2).len() && (s1 + s2)[i] == x;
        if i < s1.len() {
            assert(s1[i] == x);
        } else {
            assert(s2[i - s1.len()] == x);
        }
    }
}

/// Whether a generated move's destination is the given square.
pub open spec fn dest_is(m: ((usize, usize), (usize, usize)), r: int, c: int) -> bool {
    m.1.0 == r && m.1.1 == c
}

/// Appends plain piece moves to a move list, giving each a zero
/// promotion byte and keeping the order.
fn append_plain(
    dst: &mut Vec<((usize, usize), (usize, usize, u8))>,
    src: Vec<((usize, usize), (usize, usize))>,
)
    ensures
        final(dst)@.len() == old(dst)@.len() + src@.len(),
        forall|k: int| 0 <= k < old(dst)@.len() ==> final(dst)@[k] == old(dst)@[k],
        forall|k: int|
            0 <= k < src@.len() ==> final(dst)@[old(dst)@.len() + k] == ((#[trigger] src@[k]).0, (
                src@[k].1.0,
                src@[k].1.1,
                0u8,
            )),
{
    let mut i: usize = 0;
    while i < src.len()
        invariant
            i <= src@.len(),
            dst@.len() == old(dst)@.len() + i,
            forall|k: int| 0 <= k < old(dst)@.len() ==> dst@[k] == old(dst)@[k],
            forall|k: int|
                0 <= k < i ==> dst@[old(dst)@.len() + k] == ((#[trigger] src@[k]).0, (
                    src@[k].1.0,
                    src@[k].1.1,
                    0u8,
                )),
        decreases src@.len() - i,
    {
        let amove = src[i];
        dst.push((amove.0, (amove.1.0, amove.1.1, 0)));
        i = i + 1;
    }
}

/// Steps an unsigned coordinate by one square in either direction.
pub fn step_usize(unsigned_int: usize, step: i8) -> (r: usize)
    requires
        step == 0 || step == 1 || step == -1,
        step == -1 ==> unsigned_int > 0,
        step == 1 ==> unsigned_int < usize::MAX,
    ensures
        r == unsigned_int + step,
{
    if step == 0 {
        unsigned_int
    } else if step == 1 {
        unsigned_int + 1
    } else {
        unsigned_int - 1
    }
}

impl ChessBoard {
    /// Whether the square may be landed on: empty, or held by the waiting
    /// side.
    fn dest_free(&self, r: usize, c: usize) -> (b: bool)
        requires
            self@.inv(),
            r < 8,
            c < 8,
        ensures
            b == !self@.friend_at(r as int, c as int),
    {
        let p = self.at(r, c);
        p == 0 || p != clear_piece_color(p) + self.protagonist
    }

    /// Whether the square holds a piece of the waiting side.
    pub fn enemy_piece(&self, row: usize, col: usize) -> (b: bool)
        requires
            self@.inv(),
            row < 8,
            col < 8,
        ensures
            b == self@.enemy_at(row as int, col as int),
    {
        let piece = self.at(row, col);
        if piece != 0 {
            proof {
                assert(crate::piece::square_ok(self@.at(row as int, col as int)));
                assert(piece < 16 ==> piece & 8 == (if piece >= 8 {
                    8u8
                } else {
                    0u8
                })) by (bit_vector);
            }
            (piece & 0b1000) == self.opponent
        } else {
            false
        }
    }

    /// Walks one sliding direction, collecting empty squares and a final
    /// capture square, stopping at the first occupied square or the edge.
    /// `lat_step` moves the column, `hor_step` the row.
    #[verifier::loop_isolation(false)]
    pub fn move_in_dir(
        &self,
        source: (usize, usize),
        move_vec: &mut Vec<((usize, usize), (usize, usize))>,
        lat_step: i8,
        hor_step: i8,
    )
        requires
            self@.inv(),
            source.0 < 8,
            source.1 < 8,
            -1 <= lat_step <= 1,
            -1 <= hor_step <= 1,
            !(lat_step == 0 && hor_step == 0),
        ensures
            old(move_vec)@.len() <= final(move_vec)@.len(),
            forall|k: int|
                0 <= k < old(move_vec)@.len() ==> final(move_vec)@[k] == old(move_vec)@[k],
            forall|k: int|
                old(move_vec)@.len() <= k < final(move_vec)@.len() ==> (#[trigger] final(move_vec)@[k]).0 == source && on_bd(final(move_vec)@[k].1.0 as int, final(move_vec)@[k].1.1 as int)
                    && self@.slides_to(
                    source.0 as int,
                    source.1 as int,
                    hor_step as int,
                    lat_step as int,
                    final(move_vec)@[k].1.0 as int,
                    final(move_vec)@[k].1.1 as int,
                ),
            forall|tr: int, tc: int|
                #[trigger] self@.slides_to(
                    source.0 as int,
                    source.1 as int,
                    hor_step as int,
                    lat_step as int,
                    tr,
                    tc,
                ) ==> final(move_vec)@.contains((source, ((tr as usize), (tc as usize)))),
            forall|k1: int, k2: int|
                old(move_vec)@.len() <= k1 < k2 < final(move_vec)@.len() ==> (#[trigger] final(move_vec)@[k1]).1 != (#[trigger] final(move_vec)@[k2]).1,
    {
        let ghost s = self@;
        let ghost dr = hor_step as int;
        let ghost dc = lat_step as int;
        let ghost sr = source.0 as int;
        let ghost sc = source.1 as int;
        let ghost entry = move_vec@;
        let mut rank: usize = source.0;
        let mut file: usize = source.1;
        let mut blocked = false;
        let ghost mut fuel: nat = 7;
        while !blocked && (hor_step != 1 || rank < 7) && (hor_step != -1 || rank > 0) && (lat_step
            != 1 || file < 7) && (lat_step != -1 || file > 0)
            invariant
                rank < 8,
                file < 8,
                fuel <= 7,
                !blocked ==> ((rank == source.0 && file == source.1 && fuel == 7) || (ray_hits(
                    s.b,
                    sr,
                    sc,
                    dr,
                    dc,
                    rank as int,
                    file as int,
                    7,
                ) && s.b[bidx(rank as int, file as int)] == 0)),
                !blocked ==> fuel >= steps_left(rank as int, file as int, dr, dc),
                entry.len() <= move_vec@.len(),
                forall|k: int| 0 <= k < entry.len() ==> move_vec@[k] == entry[k],
                forall|k: int|
                    entry.len() <= k < move_vec@.len() ==> (#[trigger] move_vec@[k]).0 == source
                        && on_bd(move_vec@[k].1.0 as int, move_vec@[k].1.1 as int) && s.slides_to(
                        sr,
                        sc,
                        dr,
                        dc,
                        move_vec@[k].1.0 as int,
                        move_vec@[k].1.1 as int,
                    ),
                forall|tr: int, tc: int|
                    #[trigger] s.slides_to(sr, sc, dr, dc, tr, tc) ==> move_vec@.contains(
                        (source, ((tr as usize), (tc as usize))),
                    ) || (!blocked && ray_hits(
                        s.b,
                        rank as int,
                        file as int,
                        dr,
                        dc,
                        tr,
                        tc,
                        fuel,
                    )),
                forall|k: int|
                    entry.len() <= k < move_vec@.len() ==> {
                        let d = (#[trigger] move_vec@[k]).1;
                        &&& (hor_step == 1 ==> d.0 <= rank)
                        &&& (hor_step == -1 ==> d.0 >= rank)
                        &&& (hor_step == 0 && lat_step == 1 ==> d.1 <= file)
                        &&& (hor_step == 0 && lat_step == -1 ==> d.1 >= file)
                    },
                forall|k1: int, k2: int|
                    entry.len() <= k1 < k2 < move_vec@.len() ==> (#[trigger] move_vec@[k1]).1 != (
                    #[trigger] move_vec@[k2]).1,
            decreases steps_left(rank as int, file as int, dr, dc),
        {
            let ghost old_rank = rank as int;
            let ghost old_file = file as int;
            rank = step_usize(rank, hor_step);
            file = step_usize(file, lat_step);
            proof {
                if old_rank == sr && old_file == sc {
                    assert(ray_hits(s.b, sr, sc, dr, dc, rank as int, file as int, 7));
                } else {
                    lemma_ray_extend(s.b, sr, sc, dr, dc, old_rank, old_file, 7);
                    lemma_ray_fuel_enough(
                        s.b,
                        sr,
                        sc,
                        dr,
                        dc,
                        rank as int,
                        file as int,
                        8,
                        7,
                    );
                }
            }
            let p = self.at(rank, file);
            if p != 0 {
                blocked = true;
                if self.dest_free(rank, file) {
                    move_vec.push((source, (rank, file)));
                }
            } else {
                move_vec.push((source, (rank, file)));
            }
            proof {
                fuel = (fuel - 1) as nat;
            }
        }
    }

    /// The knight's jumps that land below the source row, in rising
    /// order of the destination's flat index.
    #[verifier::spinoff_prover]
    #[verifier::rlimit(100)]
    fn knight_moves_down(&self, source: (usize, usize)) -> (r: Vec<
        ((usize, usize), (usize, usize)),
    >)
        requires
            self@.inv(),
            source.0 < 8,
            source.1 < 8,
        ensures
            forall|k: int|
                0 <= k < r@.len() ==> (#[trigger] r@[k]).0 == source && on_bd(r@[k].1.0 as int, r@[k].1.1 as int)
                    && self@.knight_dest(
                    source.0 as int,
                    source.1 as int,
                    r@[k].1.0 as int,
                    r@[k].1.1 as int,
                ) && (r@[k].1.0 as int) < source.0 as int,
            forall|tr: int, tc: int|
                #[trigger] self@.knight_dest(source.0 as int, source.1 as int, tr, tc) && tr
                    < source.0 as int ==> r@.contains((source, ((tr as usize), (tc as usize)))),
            forall|k1: int, k2: int|
                0 <= k1 < k2 < r@.len() ==> (#[trigger] r@[k1]).1 != (#[trigger] r@[k2]).1,
    {
        let mut move_vec: Vec<((usize, usize), (usize, usize))> = Vec::new();
        let rank = source.0;
        let file = source.1;
        let ghost sr = source.0 as int;
        let ghost sc = source.1 as int;
        if rank >= 2 && file >= 1 {
            if self.dest_free(rank - 2, file - 1) {
                move_vec.push((source, (rank - 2, file - 1)));
            }
        }
        proof {
            assert(forall|k: int|
                0 <= k < move_vec@.len() ==> bidx(
                    (#[trigger] move_vec@[k]).1.0 as int,
                    move_vec@[k].1.1 as int,
                ) <= bidx(sr, sc) - 17);
        }
        if rank >= 2 && file <= 6 {
            if self.dest_free(rank - 2, file + 1) {
                move_vec.push((source, (rank - 2, file + 1)));
            }
        }
        proof {
            assert(forall|k1: int, k2: int|
                0 <= k1 < k2 < move_vec@.len() ==> (#[trigger] move_vec@[k1]).1 != (
                #[trigger] move_vec@[k2]).1);
            assert(forall|k: int|
                0 <= k < move_vec@.len() ==> bidx(
                    (#[trigger] move_vec@[k]).1.0 as int,
                    move_vec@[k].1.1 as int,
                ) <= bidx(sr, sc) - 15);
        }
        if rank >= 1 && file >= 2 {
            if self.dest_free(rank - 1, file - 2) {
                move_vec.push((source, (rank - 1, file - 2)));
            }
        }
        proof {
            assert(forall|k1: int, k2: int|
                0 <= k1 < k2 < move_vec@.len() ==> (#[trigger] move_vec@[k1]).1 != (
                #[trigger] move_vec@[k2]).1);
            assert(forall|k: int|
                0 <= k < move_vec@.len() ==> bidx(
                    (#[trigger] move_vec@[k]).1.0 as int,
                    move_vec@[k].1.1 as int,
                ) <= bidx(sr, sc) - 10);
        }
        if rank >= 1 && file <= 5 {
            if self.dest_free(rank - 1, file + 2) {
                move_vec.push((source, (rank - 1, file + 2)));
            }
        }
        proof {
            assert(forall|k1: int, k2: int|
                0 <= k1 < k2 < move_vec@.len() ==> (#[trigger] move_vec@[k1]).1 != (
                #[trigger] move_vec@[k2]).1);
            assert forall|tr: int, tc: int|
                self@.knight_dest(sr, sc, tr, tc) && tr < sr implies move_vec@.contains(
                (source, ((tr as usize), (tc as usize))),
            ) by {
                let t = (source, ((tr as usize), (tc as usize)));
                if tr == sr - 2 && tc == sc - 1 {
                    assert(move_vec@.contains(t));
                } else if tr == sr - 2 && tc == sc + 1 {
                    assert(move_vec@.contains(t));
                } else if tr == sr - 1 && tc == sc - 2 {
                    assert(move_vec@.contains(t));
                } else {
                    assert(tr == sr - 1 && tc == sc + 2);
                    assert(move_vec@.contains(t));
                }
            }
        }
        move_vec
    }

    /// The knight's jumps that land above the source row, in rising
    /// order of the destination's flat index.
    #[verifier::spinoff_prover]
    #[verifier::rlimit(100)]
    fn knight_moves_up(&self, source: (usize, usize)) -> (r: Vec<
        ((usize, usize), (usize, usize)),
    >)
        requires
            self@.inv(),
            source.0 < 8,
            source.1 < 8,
        ensures
            forall|k: int|
                0 <= k < r@.len() ==> (#[trigger] r@[k]).0 == source && on_bd(r@[k].1.0 as int, r@[k].1.1 as int)
                    && self@.knight_dest(
                    source.0 as int,
                    source.1 as int,
                    r@[k].1.0 as int,
                    r@[k].1.1 as int,
                ) && (r@[k].1.0 as int) > source.0 as int,
            forall|tr: int, tc: int|
                #[trigger] self@.knight_dest(source.0 as int, source.1 as int, tr, tc) && tr
                    > source.0 as int ==> r@.contains((source, ((tr as usize), (tc as usize)))),
            forall|k1: int, k2: int|
                0 <= k1 < k2 < r@.len() ==> (#[trigger] r@[k1]).1 != (#[trigger] r@[k2]).1,
    {
        let mut move_vec: Vec<((usize, usize), (usize, usize))> = Vec::new();
        let rank = source.0;
        let file = source.1;
        let ghost sr = source.0 as int;
        let ghost sc = source.1 as int;
        if rank <= 6 && file >= 2 {
            if self.dest_free(rank + 1, file - 2) {
                move_vec.push((source, (rank + 1, file - 2)));
            }
        }
        proof {
            assert(forall|k: int|
                0 <= k < move_vec@.len() ==> bidx(
                    (#[trigger] move_vec@[k]).1.0 as int,
                    move_vec@[k].1.1 as int,
                ) <= bidx(sr, sc) + 6);
        }
        if rank <= 6 && file <= 5 {
            if self.dest_free(rank + 1, file + 2) {
                move_vec.push((source, (rank + 1, file + 2)));
            }
        }
        proof {
            assert(forall|k1: int, k2: int|
                0 <= k1 < k2 < move_vec@.len() ==> (#[trigger] move_vec@[k1]).1 != (
                #[trigger] move_vec@[k2]).1);
            assert(forall|k: int|
                0 <= k < move_vec@.len() ==> bidx(
                    (#[trigger] move_vec@[k]).1.0 as int,
                    move_vec@[k].1.1 as int,
                ) <= bidx(sr, sc) + 10);
        }
        if rank <= 5 && file >= 1 {
            if self.dest_free(rank + 2, file - 1) {
                move_vec.push((source, (rank + 2, file - 1)));
            }
        }
        proof {
            assert(forall|k1: int, k2: int|
                0 <= k1 < k2 < move_vec@.len() ==> (#[trigger] move_vec@[k1]).1 != (
                #[trigger] move_vec@[k2]).1);
            assert(forall|k: int|
                0 <= k < move_vec@.len() ==> bidx(
                    (#[trigger] move_vec@[k]).1.0 as int,
                    move_vec@[k].1.1 as int,
                ) <= bidx(sr, sc) + 15);
        }
        if rank <= 5 && file <= 6 {
            if self.dest_free(rank + 2, file + 1) {
                move_vec.push((source, (rank + 2, file + 1)));
            }
        }
        proof {
            assert(forall|k1: int, k2: int|
                0 <= k1 < k2 < move_vec@.len() ==> (#[trigger] move_vec@[k1]).1 != (
                #[trigger] move_vec@[k2]).1);
            assert forall|tr: int, tc: int|
                self@.knight_dest(sr, sc, tr, tc) && tr > sr implies move_vec@.contains(
                (source, ((tr as usize), (tc as usize))),
            ) by {
                let t = (source, ((tr as usize), (tc as usize)));
                if tr == sr + 1 && tc == sc - 2 {
                    assert(move_vec@.contains(t));
                } else if tr == sr + 1 && tc == sc + 2 {
                    assert(move_vec@.contains(t));
                } else if tr == sr + 2 && tc == sc - 1 {
                    assert(move_vec@.contains(t));
                } else {
                    assert(tr == sr + 2 && tc == sc + 1);
                    assert(move_vec@.contains(t));
                }
            }
        }
        move_vec
    }

    /// The knight's destinations: the eight jumps that stay on the board
    /// and do not land on a friendly piece. A jump always changes row,
    /// and each half is emitted without repeats, so no destination
    /// appears twice.
    #[verifier::spinoff_prover]
    #[verifier::rlimit(100)]
    pub fn knight_moves(&self, source: (usize, usize)) -> (r: Vec<
        ((usize, usize), (usize, usize)),
    >)
        requires
            self@.inv(),
            source.0 < 8,
            source.1 < 8,
        ensures
            forall|k: int|
                0 <= k < r@.len() ==> (#[trigger] r@[k]).0 == source && on_bd(r@[k].1.0 as int, r@[k].1.1 as int)
                    && self@.knight_dest(
                    source.0 as int,
                    source.1 as int,
                    r@[k].1.0 as int,
                    r@[k].1.1 as int,
                ),
            forall|tr: int, tc: int|
                #[trigger] self@.knight_dest(source.0 as int, source.1 as int, tr, tc)
                    ==> r@.contains((source, ((tr as usize), (tc as usize)))),
            forall|k1: int, k2: int|
                0 <= k1 < k2 < r@.len() ==> (#[trigger] r@[k1]).1 != (#[trigger] r@[k2]).1,
    {
        let mut move_vec: Vec<((usize, usize), (usize, usize))> = self.knight_moves_down(source);
        let mut upper: Vec<((usize, usize), (usize, usize))> = self.knight_moves_up(source);
        let ghost down_part = move_vec@;
        let ghost up_part = upper@;
        move_vec.append(&mut upper);
        proof {
            let sr = source.0 as int;
            let sc = source.1 as int;
            assert forall|tr: int, tc: int|
                #[trigger] self@.knight_dest(sr, sc, tr, tc) implies move_vec@.contains(
                (source, ((tr as usize), (tc as usize))),
            ) by {
                lemma_concat_contains(down_part, up_part, (source, ((tr as usize), (tc as usize))));
            }
            assert forall|k: int| 0 <= k < move_vec@.len() implies (#[trigger] move_vec@[k]).0
                == source && on_bd(move_vec@[k].1.0 as int, move_vec@[k].1.1 as int)
                && self@.knight_dest(
                sr,
                sc,
                move_vec@[k].1.0 as int,
                move_vec@[k].1.1 as int,
            ) by {
                if k < down_part.len() {
                    assert(move_vec@[k] == down_part[k]);
                } else {
                    assert(move_vec@[k] == up_part[k - down_part.len()]);
                }
            }
            assert forall|k1: int, k2: int|
                0 <= k1 < k2 < move_vec@.len() implies (#[trigger] move_vec@[k1]).1 != (
            #[trigger] move_vec@[k2]).1 by {
                if k2 < down_part.len() {
                    assert(move_vec@[k1] == down_part[k1]);
                    assert(move_vec@[k2] == down_part[k2]);
                } else if k1 >= down_part.len() {
                    assert(move_vec@[k1] == up_part[k1 - down_part.len()]);
                    assert(move_vec@[k2] == up_part[k2 - down_part.len()]);
                } else {
                    assert(move_vec@[k1] == down_part[k1]);
                    assert(move_vec@[k2] == up_part[k2 - down_part.len()]);
                }
            }
        }
        move_vec
    }

    /// Every pseudo-legal move of the side to move, gathered in one
    /// row-major scan of the board: each occupied square of the moving
    /// side contributes its piece's moves in turn, so source squares
    /// never step backward in scan order. Piece moves carry a zero
    /// promotion byte.
    #[verifier::loop_isolation(false)]
    #[verifier::rlimit(100)]
    pub fn get_all_moves(&mut self) -> (r: Vec<((usize, usize), (usize, usize, u8))>)
        requires
            old(self)@.inv(),
        ensures
            *final(self) == *old(self),
            forall|k: int| 0 <= k < r@.len() ==> old(self)@.pl_move(#[trigger] r@[k]),
            forall|m: ((usize, usize), (usize, usize, u8))|
                #[trigger] old(self)@.pl_move(m) ==> r@.contains(m),
            forall|k1: int, k2: int|
                0 <= k1 < k2 < r@.len() ==> bidx((#[trigger] r@[k1]).0.0 as int, r@[k1].0.1 as int)
                    <= bidx((#[trigger] r@[k2]).0.0 as int, r@[k2].0.1 as int),
            old(self)@.ep_ok() ==> (forall|k1: int, k2: int|
                0 <= k1 < k2 < r@.len() ==> #[trigger] r@[k1] != #[trigger] r@[k2]),
    {
        let ghost s = self@;
        let mut move_vec: Vec<((usize, usize), (usize, usize, u8))> = Vec::new();
        let mut row: usize = 0;
        while row < 8
            invariant
                row <= 8,
                forall|k: int|
                    0 <= k < move_vec@.len() ==> s.pl_move(#[trigger] move_vec@[k]) && bidx(
                        move_vec@[k].0.0 as int,
                        move_vec@[k].0.1 as int,
                    ) < bidx(row as int, 0),
                forall|k1: int, k2: int|
                    0 <= k1 < k2 < move_vec@.len() ==> bidx(
                        (#[trigger] move_vec@[k1]).0.0 as int,
                        move_vec@[k1].0.1 as int,
                    ) <= bidx((#[trigger] move_vec@[k2]).0.0 as int, move_vec@[k2].0.1 as int),
                forall|m: ((usize, usize), (usize, usize, u8))|
                    #[trigger] s.pl_move(m) && bidx(m.0.0 as int, m.0.1 as int) < bidx(
                        row as int,
                        0,
                    ) ==> move_vec@.contains(m),
                s.ep_ok() ==> (forall|k1: int, k2: int|
                    0 <= k1 < k2 < move_vec@.len() ==> #[trigger] move_vec@[k1]
                        != #[trigger] move_vec@[k2]),
            decreases 8 - row,
        {
            let mut col: usize = 0;
            while col < 8
                invariant
                    row < 8,
                    col <= 8,
                    forall|k: int|
                        0 <= k < move_vec@.len() ==> s.pl_move(#[trigger] move_vec@[k]) && bidx(
                            move_vec@[k].0.0 as int,
                            move_vec@[k].0.1 as int,
                        ) < bidx(row as int, col as int),
                    forall|k1: int, k2: int|
                        0 <= k1 < k2 < move_vec@.len() ==> bidx(
                            (#[trigger] move_vec@[k1]).0.0 as int,
                            move_vec@[k1].0.1 as int,
                        ) <= bidx((#[trigger] move_vec@[k2]).0.0 as int, move_vec@[k2].0.1 as int),
                    forall|m: ((usize, usize), (usize, usize, u8))|
                        #[trigger] s.pl_move(m) && bidx(m.0.0 as int, m.0.1 as int) < bidx(
                            row as int,
                            col as int,
                        ) ==> move_vec@.contains(m),
                    s.ep_ok() ==> (forall|k1: int, k2: int|
                        0 <= k1 < k2 < move_vec@.len() ==> #[trigger] move_vec@[k1]
                            != #[trigger] move_vec@[k2]),
                decreases 8 - col,
            {
                let piece: u8 = self.at(row, col);
                proof {
                    assert(crate::piece::square_ok(piece));
                    assert(piece < 16 ==> piece & 8 == (if piece >= 8 {
                        8u8
                    } else {
                        0u8
                    })) by (bit_vector);
                }
                if piece != 0 && (piece & 0b1000) == self.protagonist {
                    let source = (row, col);
                    let t = clear_piece_color(piece);
                    let ghost pre = move_vec@;
                    let ghost sri = row as int;
                    let ghost sci = col as int;
                    if t == PAWN {
                        let mut generated = self.pawn_moves(source);
                        let ghost gen = generated@;
                        move_vec.append(&mut generated);
                        proof {
                            assert forall|x: ((usize, usize), (usize, usize, u8))|
                                pre.contains(x) || gen.contains(x) implies move_vec@.contains(
                                x,
                            ) by {
                                lemma_concat_contains(pre, gen, x);
                            }
                            assert forall|k: int|
                                pre.len() <= k < move_vec@.len() implies move_vec@[k] == gen[k
                                - pre.len()] by {}
                            assert forall|m: ((usize, usize), (usize, usize, u8))|
                                #[trigger] s.pl_move(m) && m.0 == source implies move_vec@.contains(
                                m,
                            ) by {
                                assert(s.pawn_dest(sri, sci, m.1.0 as int, m.1.1 as int, m.1.2));
                                assert(gen.contains((source, (m.1.0, m.1.1, m.1.2))));
                            }
                            if s.ep_ok() {
                                assert forall|k1: int, k2: int|
                                    0 <= k1 < k2 < move_vec@.len() implies #[trigger] move_vec@[k1]
                                    != #[trigger] move_vec@[k2] by {
                                    if k1 < pre.len() && k2 >= pre.len() {
                                        assert(move_vec@[k1] == pre[k1]);
                                        assert(move_vec@[k2] == gen[k2 - pre.len()]);
                                        assert(bidx(
                                            move_vec@[k1].0.0 as int,
                                            move_vec@[k1].0.1 as int,
                                        ) < bidx(sri, sci));
                                    } else if k1 >= pre.len() {
                                        assert(move_vec@[k1] == gen[k1 - pre.len()]);
                                        assert(move_vec@[k2] == gen[k2 - pre.len()]);
                                    } else {
                                        assert(move_vec@[k1] == pre[k1]);
                                        assert(move_vec@[k2] == pre[k2]);
                                    }
                                }
                            }
                        }
                    } else {
                        let generated: Vec<((usize, usize), (usize, usize))> = if t == KING {
                            self.king_moves(source)
                        } else if t == QUEEN {
                            self.queen_moves(source)
                        } else if t == ROOK {
                            self.rook_moves(source)
                        } else if t == KNIGHT {
                            self.knight_moves(source)
                        } else if t == BISHOP {
                            self.bishop_moves(source)
                        } else {
                            proof {
                                assert(false);
                            }
                            Vec::new()
                        };
                        let ghost gen = generated@;
                        append_plain(&mut move_vec, generated);
                        proof {
                            assert forall|x: ((usize, usize), (usize, usize, u8))|
                                pre.contains(x) implies move_vec@.contains(x) by {
                                let k = choose|k: int| 0 <= k < pre.len() && pre[k] == x;
                                assert(move_vec@[k] == x);
                            }
                            assert forall|m: ((usize, usize), (usize, usize, u8))|
                                #[trigger] s.pl_move(m) && m.0 == source implies move_vec@.contains(
                                m,
                            ) by {
                                assert(m.1.2 == 0);
                                let tri = m.1.0 as int;
                                let tci = m.1.1 as int;
                                if t == KING {
                                    assert(s.king_dest(sri, sci, tri, tci));
                                } else if t == QUEEN {
                                    assert(s.queen_dest(sri, sci, tri, tci));
                                } else if t == ROOK {
                                    assert(s.rook_dest(sri, sci, tri, tci));
                                } else if t == KNIGHT {
                                    assert(s.knight_dest(sri, sci, tri, tci));
                                } else {
                                    assert(s.bishop_dest(sri, sci, tri, tci));
                                }
                                assert(gen.contains((source, (m.1.0, m.1.1))));
                                let k = choose|k: int|
                                    0 <= k < gen.len() && gen[k] == (source, (m.1.0, m.1.1));
                                assert(move_vec@[pre.len() + k] == m);
                            }
                            assert forall|k: int|
                                pre.len() <= k < move_vec@.len() implies s.pl_move(
                                #[trigger] move_vec@[k],
                            ) && move_vec@[k].0 == source by {
                                assert(move_vec@[k] == (gen[k - pre.len()].0, (
                                    gen[k - pre.len()].1.0,
                                    gen[k - pre.len()].1.1,
                                    0u8,
                                )));
                            }
                            if s.ep_ok() {
                                assert forall|k1: int, k2: int|
                                    0 <= k1 < k2 < move_vec@.len() implies #[trigger] move_vec@[k1]
                                    != #[trigger] move_vec@[k2] by {
                                    if k1 < pre.len() && k2 >= pre.len() {
                                        assert(move_vec@[k1] == pre[k1]);
                                        assert(move_vec@[k2] == (gen[k2 - pre.len()].0, (
                                            gen[k2 - pre.len()].1.0,
                                            gen[k2 - pre.len()].1.1,
                                            0u8,
                                        )));
                                        assert(bidx(
                                            move_vec@[k1].0.0 as int,
                                            move_vec@[k1].0.1 as int,
                                        ) < bidx(sri, sci));
                                    } else if k1 >= pre.len() {
                                        assert(move_vec@[k1] == (gen[k1 - pre.len()].0, (
                                            gen[k1 - pre.len()].1.0,
                                            gen[k1 - pre.len()].1.1,
                                            0u8,
                                        )));
                                        assert(move_vec@[k2] == (gen[k2 - pre.len()].0, (
                                            gen[k2 - pre.len()].1.0,
                                            gen[k2 - pre.len()].1.1,
                                            0u8,
                                        )));
                                        assert(gen[k1 - pre.len()].1 != gen[k2 - pre.len()].1);
                                    } else {
                                        assert(move_vec@[k1] == pre[k1]);
                                        assert(move_vec@[k2] == pre[k2]);
                                    }
                                }
                            }
                        }
                    }
                }
                col = col + 1;
            }
            row = row + 1;
        }
        move_vec
    }

    /// The rook's destinations: the four straight directions.
    pub fn rook_moves(&self, source: (usize, usize)) -> (r: Vec<((usize, usize), (usize, usize))>)
        requires
            self@.inv(),
            source.0 < 8,
            source.1 < 8,
        ensures
            forall|k: int|
                0 <= k < r@.len() ==> (#[trigger] r@[k]).0 == source && on_bd(r@[k].1.0 as int, r@[k].1.1 as int)
                    && self@.rook_dest(
                    source.0 as int,
                    source.1 as int,
                    r@[k].1.0 as int,
                    r@[k].1.1 as int,
                ),
            forall|tr: int, tc: int|
                #[trigger] self@.rook_dest(source.0 as int, source.1 as int, tr, tc)
                    ==> r@.contains((source, ((tr as usize), (tc as usize)))),
            forall|k1: int, k2: int|
                0 <= k1 < k2 < r@.len() ==> (#[trigger] r@[k1]).1 != (#[trigger] r@[k2]).1,
    {
        let mut move_vec: Vec<((usize, usize), (usize, usize))> = Vec::new();
        self.move_in_dir(source, &mut move_vec, 1, 0);
        let ghost n1 = move_vec@.len() as int;
        self.move_in_dir(source, &mut move_vec, 0, 1);
        let ghost n2 = move_vec@.len() as int;
        self.move_in_dir(source, &mut move_vec, -1, 0);
        let ghost n3 = move_vec@.len() as int;
        self.move_in_dir(source, &mut move_vec, 0, -1);
        proof {
            let sri = source.0 as int;
            let sci = source.1 as int;
            assert forall|k: int| 0 <= k < move_vec@.len() implies {
                let d = (#[trigger] move_vec@[k]).1;
                &&& (k < n1 ==> d.0 == sri && d.1 > sci)
                &&& (n1 <= k < n2 ==> d.0 > sri && d.1 == sci)
                &&& (n2 <= k < n3 ==> d.0 == sri && d.1 < sci)
                &&& (n3 <= k ==> d.0 < sri && d.1 == sci)
            } by {
                let d = move_vec@[k].1;
                if k < n1 {
                    assert(self@.slides_to(sri, sci, 0, 1, d.0 as int, d.1 as int));
                    lemma_ray_monotone(self@.b, sri, sci, 0, 1, d.0 as int, d.1 as int, 7);
                } else if k < n2 {
                    assert(self@.slides_to(sri, sci, 1, 0, d.0 as int, d.1 as int));
                    lemma_ray_monotone(self@.b, sri, sci, 1, 0, d.0 as int, d.1 as int, 7);
                } else if k < n3 {
                    assert(self@.slides_to(sri, sci, 0, -1, d.0 as int, d.1 as int));
                    lemma_ray_monotone(self@.b, sri, sci, 0, -1, d.0 as int, d.1 as int, 7);
                } else {
                    assert(self@.slides_to(sri, sci, -1, 0, d.0 as int, d.1 as int));
                    lemma_ray_monotone(self@.b, sri, sci, -1, 0, d.0 as int, d.1 as int, 7);
                }
            }
        }
        proof {
            assert forall|tr: int, tc: int|
                #[trigger] self@.rook_dest(source.0 as int, source.1 as int, tr, tc) implies move_vec@.contains(
                (source, ((tr as usize), (tc as usize))),
            ) by {
                let (dr, dc) = choose|dr: int, dc: int|
                    is_rook_dir(dr, dc) && #[trigger] ray_hits(
                        self@.b,
                        source.0 as int,
                        source.1 as int,
                        dr,
                        dc,
                        tr,
                        tc,
                        7,
                    );
                assert(self@.slides_to(source.0 as int, source.1 as int, dr, dc, tr, tc));
            }
        }
        move_vec
    }

    /// The bishop's destinations: the four diagonal directions.
    pub fn bishop_moves(&self, source: (usize, usize)) -> (r: Vec<
        ((usize, usize), (usize, usize)),
    >)
        requires
            self@.inv(),
            source.0 < 8,
            source.1 < 8,
        ensures
            forall|k: int|
                0 <= k < r@.len() ==> (#[trigger] r@[k]).0 == source && on_bd(r@[k].1.0 as int, r@[k].1.1 as int)
                    && self@.bishop_dest(
                    source.0 as int,
                    source.1 as int,
                    r@[k].1.0 as int,
                    r@[k].1.1 as int,
                ),
            forall|tr: int, tc: int|
                #[trigger] self@.bishop_dest(source.0 as int, source.1 as int, tr, tc)
                    ==> r@.contains((source, ((tr as usize), (tc as usize)))),
            forall|k1: int, k2: int|
                0 <= k1 < k2 < r@.len() ==> (#[trigger] r@[k1]).1 != (#[trigger] r@[k2]).1,
    {
        let mut move_vec: Vec<((usize, usize), (usize, usize))> = Vec::new();
        self.move_in_dir(source, &mut move_vec, 1, 1);
        let ghost n1 = move_vec@.len() as int;
        self.move_in_dir(source, &mut move_vec, -1, 1);
        let ghost n2 = move_vec@.len() as int;
        self.move_in_dir(source, &mut move_vec, 1, -1);
        let ghost n3 = move_vec@.len() as int;
        self.move_in_dir(source, &mut move_vec, -1, -1);
        proof {
            let sri = source.0 as int;
            let sci = source.1 as int;
            assert forall|k: int| 0 <= k < move_vec@.len() implies {
                let d = (#[trigger] move_vec@[k]).1;
                &&& (k < n1 ==> d.0 > sri && d.1 > sci)
                &&& (n1 <= k < n2 ==> d.0 > sri && d.1 < sci)
                &&& (n2 <= k < n3 ==> d.0 < sri && d.1 > sci)
                &&& (n3 <= k ==> d.0 < sri && d.1 < sci)
            } by {
                let d = move_vec@[k].1;
                if k < n1 {
                    assert(self@.slides_to(sri, sci, 1, 1, d.0 as int, d.1 as int));
                    lemma_ray_monotone(self@.b, sri, sci, 1, 1, d.0 as int, d.1 as int, 7);
                } else if k < n2 {
                    assert(self@.slides_to(sri, sci, 1, -1, d.0 as int, d.1 as int));
                    lemma_ray_monotone(self@.b, sri, sci, 1, -1, d.0 as int, d.1 as int, 7);
                } else if k < n3 {
                    assert(self@.slides_to(sri, sci, -1, 1, d.0 as int, d.1 as int));
                    lemma_ray_monotone(self@.b, sri, sci, -1, 1, d.0 as int, d.1 as int, 7);
                } else {
                    assert(self@.slides_to(sri, sci, -1, -1, d.0 as int, d.1 as int));
                    lemma_ray_monotone(self@.b, sri, sci, -1, -1, d.0 as int, d.1 as int, 7);
                }
            }
        }
        proof {
            assert forall|tr: int, tc: int|
                #[trigger] self@.bishop_dest(source.0 as int, source.1 as int, tr, tc) implies move_vec@.contains(
                (source, ((tr as usize), (tc as usize))),
            ) by {
                let (dr, dc) = choose|dr: int, dc: int|
                    is_bishop_dir(dr, dc) && #[trigger] ray_hits(
                        self@.b,
                        source.0 as int,
                        source.1 as int,
                        dr,
                        dc,
                        tr,
                        tc,
                        7,
                    );
                assert(self@.slides_to(source.0 as int, source.1 as int, dr, dc, tr, tc));
            }
        }
        move_vec
    }

    /// The king's single steps: the eight adjacent squares that stay on
    /// the board and hold no friendly piece.
    #[verifier::spinoff_prover]
    #[verifier::rlimit(100)]
    fn king_step_moves(&self, source: (usize, usize)) -> (r: Vec<((usize, usize), (usize, usize))>)
        requires
            self@.inv(),
            source.0 < 8,
            source.1 < 8,
        ensures
            forall|k: int|
                0 <= k < r@.len() ==> (#[trigger] r@[k]).0 == source && on_bd(r@[k].1.0 as int, r@[k].1.1 as int)
                    && king_step(
                    source.0 as int,
                    source.1 as int,
                    r@[k].1.0 as int,
                    r@[k].1.1 as int,
                ) && !self@.friend_at(r@[k].1.0 as int, r@[k].1.1 as int),
            forall|tr: int, tc: int|
                #![trigger king_step(source.0 as int, source.1 as int, tr, tc)]
                king_step(source.0 as int, source.1 as int, tr, tc) && on_bd(tr, tc)
                    && !self@.friend_at(tr, tc) ==> r@.contains(
                    (source, ((tr as usize), (tc as usize))),
                ),
            forall|k1: int, k2: int|
                0 <= k1 < k2 < r@.len() ==> (#[trigger] r@[k1]).1 != (#[trigger] r@[k2]).1,
    {
        let mut move_vec: Vec<((usize, usize), (usize, usize))> = Vec::new();
        let rank = source.0;
        let file = source.1;
        if rank <= 6 && file <= 6 {
            if self.dest_free(rank + 1, file + 1) {
                move_vec.push((source, (rank + 1, file + 1)));
            }
        }
        if rank >= 1 && file <= 6 {
            if self.dest_free(rank - 1, file + 1) {
                move_vec.push((source, (rank - 1, file + 1)));
            }
        }
        if file <= 6 {
            if self.dest_free(rank, file + 1) {
                move_vec.push((source, (rank, file + 1)));
            }
        }
        if rank <= 6 && file >= 1 {
            if self.dest_free(rank + 1, file - 1) {
                move_vec.push((source, (rank + 1, file - 1)));
            }
        }
        if rank >= 1 && file >= 1 {
            if self.dest_free(rank - 1, file - 1) {
                move_vec.push((source, (rank - 1, file - 1)));
            }
        }
        if file >= 1 {
            if self.dest_free(rank, file - 1) {
                move_vec.push((source, (rank, file - 1)));
            }
        }
        if rank >= 1 {
            if self.dest_free(rank - 1, file) {
                move_vec.push((source, (rank - 1, file)));
            }
        }
        if rank <= 6 {
            if self.dest_free(rank + 1, file) {
                move_vec.push((source, (rank + 1, file)));
            }
        }
        proof {
            let sr = source.0 as int;
            let sc = source.1 as int;
            assert forall|tr: int, tc: int|
                king_step(sr, sc, tr, tc) && on_bd(tr, tc) && !self@.friend_at(
                    tr,
                    tc,
                ) implies move_vec@.contains((source, ((tr as usize), (tc as usize)))) by {
                let t = (source, ((tr as usize), (tc as usize)));
                if tr == sr + 1 && tc == sc + 1 {
                    assert(move_vec@.contains(t));
                } else if tr == sr - 1 && tc == sc + 1 {
                    assert(move_vec@.contains(t));
                } else if tr == sr && tc == sc + 1 {
                    assert(move_vec@.contains(t));
                } else if tr == sr + 1 && tc == sc - 1 {
                    assert(move_vec@.contains(t));
                } else if tr == sr - 1 && tc == sc - 1 {
                    assert(move_vec@.contains(t));
                } else if tr == sr && tc == sc - 1 {
                    assert(move_vec@.contains(t));
                } else if tr == sr - 1 && tc == sc {
                    assert(move_vec@.contains(t));
                } else {
                    assert(tr == sr + 1 && tc == sc);
                    assert(move_vec@.contains(t));
                }
            }
        }
        move_vec
    }

    /// The king's destinations: the eight adjacent squares filtered as
    /// above, plus castling. A castle is offered from the standard king
    /// column when the rights flag of the side to move is set, the
    /// crossed squares are empty, and neither the king's square nor the
    /// passed square is attacked; the rights flags are never revoked by
    /// play, so the offer recurs whenever the king stands there again.
    #[verifier::rlimit(60)]
    pub fn king_moves(&self, source: (usize, usize)) -> (r: Vec<((usize, usize), (usize, usize))>)
        requires
            self@.inv(),
            source.0 < 8,
            source.1 < 8,
        ensures
            forall|k: int|
                0 <= k < r@.len() ==> (#[trigger] r@[k]).0 == source && on_bd(r@[k].1.0 as int, r@[k].1.1 as int)
                    && self@.king_dest(
                    source.0 as int,
                    source.1 as int,
                    r@[k].1.0 as int,
                    r@[k].1.1 as int,
                ),
            forall|tr: int, tc: int|
                #[trigger] self@.king_dest(source.0 as int, source.1 as int, tr, tc)
                    ==> r@.contains((source, ((tr as usize), (tc as usize)))),
            forall|k1: int, k2: int|
                0 <= k1 < k2 < r@.len() ==> (#[trigger] r@[k1]).1 != (#[trigger] r@[k2]).1,
    {
        let mut move_vec: Vec<((usize, usize), (usize, usize))> = self.king_step_moves(source);
        let rank = source.0;
        let file = source.1;
        let ghost s = self@;
        let ghost sr = source.0 as int;
        let ghost sc = source.1 as int;
        let ghost steps_done = move_vec@;
        // Castling
        let kingside_right = if self.protagonist == WHITE {
            self.white_kingside_castle
        } else {
            self.black_kingside_castle
        };
        if kingside_right && file == 4 {
            if !self.in_check(source) && !self.in_check((rank, 5)) && self.at(rank, 5) == 0
                && self.at(rank, 6) == 0 {
                move_vec.push((source, (rank, 6)));
            }
        }
        let queenside_right = if self.protagonist == WHITE {
            self.white_queenside_castle
        } else {
            self.black_queenside_castle
        };
        if queenside_right && file == 4 {
            if !self.in_check(source) && !self.in_check((rank, 3)) && self.at(rank, 3) == 0
                && self.at(rank, 2) == 0 && self.at(rank, 1) == 0 {
                move_vec.push((source, (rank, 2)));
            }
        }
        proof {
            assert forall|tr: int, tc: int|
                #[trigger] self@.king_dest(sr, sc, tr, tc) implies move_vec@.contains(
                (source, ((tr as usize), (tc as usize))),
            ) by {
                if king_step(sr, sc, tr, tc) && on_bd(tr, tc) && !s.friend_at(tr, tc) {
                    assert(steps_done.contains((source, ((tr as usize), (tc as usize)))));
                    let j = choose|j: int|
                        0 <= j < steps_done.len() && steps_done[j] == (
                        source,
                        ((tr as usize), (tc as usize)),
                        );
                    assert(move_vec@[j] == (source, ((tr as usize), (tc as usize))));
                }
            }
        }
        move_vec
    }

    /// The pawn moves of the side to move for a pawn on `source`, when
    /// Black is to move: advances run down the board.
    #[verifier::rlimit(100)]
    fn pawn_moves_black(&self, source: (usize, usize)) -> (r: Vec<
        ((usize, usize), (usize, usize, u8)),
    >)
        requires
            self@.inv(),
            self.protagonist == BLACK,
            source.0 < 8,
            source.1 < 8,
        ensures
            forall|k: int|
                0 <= k < r@.len() ==> (#[trigger] r@[k]).0 == source && self@.pawn_dest(
                    source.0 as int,
                    source.1 as int,
                    r@[k].1.0 as int,
                    r@[k].1.1 as int,
                    r@[k].1.2,
                ),
            forall|tr: int, tc: int, promo: u8|
                #[trigger] self@.pawn_dest(source.0 as int, source.1 as int, tr, tc, promo)
                    ==> r@.contains((source, ((tr as usize), (tc as usize), promo))),
            self@.ep_ok() ==> (forall|k1: int, k2: int|
                0 <= k1 < k2 < r@.len() ==> (#[trigger] r@[k1]).1 != (#[trigger] r@[k2]).1),
    {
        let mut move_vec: Vec<((usize, usize), (usize, usize, u8))> = Vec::new();
        let sr = source.0;
        let sc = source.1;
        if sr < 6 {
            if self.at(sr + 1, sc) == 0 {
                move_vec.push((source, (sr + 1, sc, 0)));
            }
            if sc < 7 && self.enemy_piece(sr + 1, sc + 1) {
                move_vec.push((source, (sr + 1, sc + 1, 0)));
            }
            if sc > 0 && self.enemy_piece(sr + 1, sc - 1) {
                move_vec.push((source, (sr + 1, sc - 1, 0)));
            }
            proof {
                assert(forall|k1: int, k2: int|
                    0 <= k1 < k2 < move_vec@.len() ==> (#[trigger] move_vec@[k1]).1 != (
                    #[trigger] move_vec@[k2]).1);
            }
            match self.ep {
                Some(e) => {
                    if sc < 7 && e.0 == sr + 1 && e.1 == sc + 1 {
                        // The target square is empty while the window is
                        // sound, so no plain capture went there.
                        move_vec.push((source, (sr + 1, sc + 1, 0)));
                    }
                    proof {
                        assert(self@.ep_ok() ==> (forall|k1: int, k2: int|
                            0 <= k1 < k2 < move_vec@.len() ==> (#[trigger] move_vec@[k1]).1 != (
                            #[trigger] move_vec@[k2]).1));
                    }
                    if sc > 0 && e.0 == sr + 1 && e.1 == sc - 1 {
                        move_vec.push((source, (sr + 1, sc - 1, 0)));
                    }
                    proof {
                        assert(self@.ep_ok() ==> (forall|k1: int, k2: int|
                            0 <= k1 < k2 < move_vec@.len() ==> (#[trigger] move_vec@[k1]).1 != (
                            #[trigger] move_vec@[k2]).1));
                    }
                },
                None => {},
            }
        }
        if sr == 6 {
            if self.at(7, sc) == 0 {
                move_vec.push((source, (7, sc, QUEEN)));
                move_vec.push((source, (7, sc, ROOK)));
                move_vec.push((source, (7, sc, BISHOP)));
                move_vec.push((source, (7, sc, KNIGHT)));
            }
            proof {
                assert(forall|k1: int, k2: int|
                    0 <= k1 < k2 < move_vec@.len() ==> (#[trigger] move_vec@[k1]).1 != (
                    #[trigger] move_vec@[k2]).1);
            }
            if sc < 7 && self.enemy_piece(7, sc + 1) {
                move_vec.push((source, (7, sc + 1, QUEEN)));
                move_vec.push((source, (7, sc + 1, ROOK)));
                move_vec.push((source, (7, sc + 1, BISHOP)));
                move_vec.push((source, (7, sc + 1, KNIGHT)));
            }
            proof {
                assert(forall|k1: int, k2: int|
                    0 <= k1 < k2 < move_vec@.len() ==> (#[trigger] move_vec@[k1]).1 != (
                    #[trigger] move_vec@[k2]).1);
            }
            if sc > 0 && self.enemy_piece(7, sc - 1) {
                move_vec.push((source, (7, sc - 1, QUEEN)));
                move_vec.push((source, (7, sc - 1, ROOK)));
                move_vec.push((source, (7, sc - 1, BISHOP)));
                move_vec.push((source, (7, sc - 1, KNIGHT)));
            }
            proof {
                assert(forall|k1: int, k2: int|
                    0 <= k1 < k2 < move_vec@.len() ==> (#[trigger] move_vec@[k1]).1 != (
                    #[trigger] move_vec@[k2]).1);
            }
        }
        if sr == 1 {
            if self.at(2, sc) == 0 && self.at(3, sc) == 0 {
                move_vec.push((source, (3, sc, 0)));
            }
        }
        proof {
            assert(self@.ep_ok() ==> (forall|k1: int, k2: int|
                0 <= k1 < k2 < move_vec@.len() ==> (#[trigger] move_vec@[k1]).1 != (
                #[trigger] move_vec@[k2]).1));
        }
        proof {
            let s = self@;
            let sri = source.0 as int;
            let sci = source.1 as int;
            assert forall|tr: int, tc: int, promo: u8|
                #[trigger] s.pawn_dest(sri, sci, tr, tc, promo) implies move_vec@.contains(
                (source, ((tr as usize), (tc as usize), promo)),
            ) by {
                let t = (source, ((tr as usize), (tc as usize), promo));
                if promo == 0 {
                    if sri < 6 && tr == sri + 1 && tc == sci && s.empty_at(tr, tc) {
                        assert(move_vec@.contains(t));
                    } else if sri < 6 && tr == sri + 1 && tc == sci + 1 && s.enemy_at(tr, tc) {
                        assert(move_vec@.contains(t));
                    } else if sri < 6 && tr == sri + 1 && tc == sci - 1 && s.enemy_at(tr, tc) {
                        assert(move_vec@.contains(t));
                    } else if sri < 6 && tr == sri + 1 && tc == sci + 1 && s.ep == Some((tr, tc)) {
                        assert(move_vec@.contains(t));
                    } else if sri < 6 && tr == sri + 1 && tc == sci - 1 && s.ep == Some((tr, tc)) {
                        assert(move_vec@.contains(t));
                    } else {
                        assert(sri == 1 && tr == 3 && tc == sci);
                        assert(move_vec@.contains(t));
                    }
                } else {
                    if tc == sci {
                        assert(move_vec@.contains(t));
                    } else if tc == sci + 1 {
                        assert(move_vec@.contains(t));
                    } else {
                        assert(tc == sci - 1);
                        assert(move_vec@.contains(t));
                    }
                }
            }
        }
        move_vec
    }

    /// The pawn moves of the side to move for a pawn on `source`, when
    /// White is to move: advances run up the board.
    #[verifier::rlimit(100)]
    fn pawn_moves_white(&self, source: (usize, usize)) -> (r: Vec<
        ((usize, usize), (usize, usize, u8)),
    >)
        requires
            self@.inv(),
            self.protagonist == WHITE,
            source.0 < 8,
            source.1 < 8,
        ensures
            forall|k: int|
                0 <= k < r@.len() ==> (#[trigger] r@[k]).0 == source && self@.pawn_dest(
                    source.0 as int,
                    source.1 as int,
                    r@[k].1.0 as int,
                    r@[k].1.1 as int,
                    r@[k].1.2,
                ),
            forall|tr: int, tc: int, promo: u8|
                #[trigger] self@.pawn_dest(source.0 as int, source.1 as int, tr, tc, promo)
                    ==> r@.contains((source, ((tr as usize), (tc as usize), promo))),
            self@.ep_ok() ==> (forall|k1: int, k2: int|
                0 <= k1 < k2 < r@.len() ==> (#[trigger] r@[k1]).1 != (#[trigger] r@[k2]).1),
    {
        let mut move_vec: Vec<((usize, usize), (usize, usize, u8))> = Vec::new();
        let sr = source.0;
        let sc = source.1;
        if sr > 1 {
            if self.at(sr - 1, sc) == 0 {
                move_vec.push((source, (sr - 1, sc, 0)));
            }
            if sc < 7 && self.enemy_piece(sr - 1, sc + 1) {
                move_vec.push((source, (sr - 1, sc + 1, 0)));
            }
            if sc > 0 && self.enemy_piece(sr - 1, sc - 1) {
                move_vec.push((source, (sr - 1, sc - 1, 0)));
            }
            proof {
                assert(forall|k1: int, k2: int|
                    0 <= k1 < k2 < move_vec@.len() ==> (#[trigger] move_vec@[k1]).1 != (
                    #[trigger] move_vec@[k2]).1);
            }
            match self.ep {
                Some(e) => {
                    if sc < 7 && e.0 == sr - 1 && e.1 == sc + 1 {
                        // The target square is empty while the window is
                        // sound, so no plain capture went there.
                        move_vec.push((source, (sr - 1, sc + 1, 0)));
                    }
                    proof {
                        assert(self@.ep_ok() ==> (forall|k1: int, k2: int|
                            0 <= k1 < k2 < move_vec@.len() ==> (#[trigger] move_vec@[k1]).1 != (
                            #[trigger] move_vec@[k2]).1));
                    }
                    if sc > 0 && e.0 == sr - 1 && e.1 == sc - 1 {
                        move_vec.push((source, (sr - 1, sc - 1, 0)));
                    }
                    proof {
                        assert(self@.ep_ok() ==> (forall|k1: int, k2: int|
                            0 <= k1 < k2 < move_vec@.len() ==> (#[trigger] move_vec@[k1]).1 != (
                            #[trigger] move_vec@[k2]).1));
                    }
                },
                None => {},
            }
        }
        if sr == 1 {
            if self.at(0, sc) == 0 {
                move_vec.push((source, (0, sc, QUEEN)));
                move_vec.push((source, (0, sc, ROOK)));
                move_vec.push((source, (0, sc, BISHOP)));
                move_vec.push((source, (0, sc, KNIGHT)));
            }
            proof {
                assert(forall|k1: int, k2: int|
                    0 <= k1 < k2 < move_vec@.len() ==> (#[trigger] move_vec@[k1]).1 != (
                    #[trigger] move_vec@[k2]).1);
            }
            if sc < 7 && self.enemy_piece(0, sc + 1) {
                move_vec.push((source, (0, sc + 1, QUEEN)));
                move_vec.push((source, (0, sc + 1, ROOK)));
                move_vec.push((source, (0, sc + 1, BISHOP)));
                move_vec.push((source, (0, sc + 1, KNIGHT)));
            }
            proof {
                assert(forall|k1: int, k2: int|
                    0 <= k1 < k2 < move_vec@.len() ==> (#[trigger] move_vec@[k1]).1 != (
                    #[trigger] move_vec@[k2]).1);
            }
            if sc > 0 && self.enemy_piece(0, sc - 1) {
                move_vec.push((source, (0, sc - 1, QUEEN)));
                move_vec.push((source, (0, sc - 1, ROOK)));
                move_vec.push((source, (0, sc - 1, BISHOP)));
                move_vec.push((source, (0, sc - 1, KNIGHT)));
            }
            proof {
                assert(forall|k1: int, k2: int|
                    0 <= k1 < k2 < move_vec@.len() ==> (#[trigger] move_vec@[k1]).1 != (
                    #[trigger] move_vec@[k2]).1);
            }
        }
        if sr == 6 {
            if self.at(5, sc) == 0 && self.at(4, sc) == 0 {
                move_vec.push((source, (4, sc, 0)));
            }
        }
        proof {
            assert(self@.ep_ok() ==> (forall|k1: int, k2: int|
                0 <= k1 < k2 < move_vec@.len() ==> (#[trigger] move_vec@[k1]).1 != (
                #[trigger] move_vec@[k2]).1));
        }
        proof {
            let s = self@;
            let sri = source.0 as int;
            let sci = source.1 as int;
            assert forall|tr: int, tc: int, promo: u8|
                #[trigger] s.pawn_dest(sri, sci, tr, tc, promo) implies move_vec@.contains(
                (source, ((tr as usize), (tc as usize), promo)),
            ) by {
                let t = (source, ((tr as usize), (tc as usize), promo));
                if promo == 0 {
                    if sri > 1 && tr == sri - 1 && tc == sci && s.empty_at(tr, tc) {
                        assert(move_vec@.contains(t));
                    } else if sri > 1 && tr == sri - 1 && tc == sci + 1 && s.enemy_at(tr, tc) {
                        assert(move_vec@.contains(t));
                    } else if sri > 1 && tr == sri - 1 && tc == sci - 1 && s.enemy_at(tr, tc) {
                        assert(move_vec@.contains(t));
                    } else if sri > 1 && tr == sri - 1 && tc == sci + 1 && s.ep == Some((tr, tc)) {
                        assert(move_vec@.contains(t));
                    } else if sri > 1 && tr == sri - 1 && tc == sci - 1 && s.ep == Some((tr, tc)) {
                        assert(move_vec@.contains(t));
                    } else {
                        assert(sri == 6 && tr == 4 && tc == sci);
                        assert(move_vec@.contains(t));
                    }
                } else {
                    if tc == sci {
                        assert(move_vec@.contains(t));
                    } else if tc == sci + 1 {
                        assert(move_vec@.contains(t));
                    } else {
                        assert(tc == sci - 1);
                        assert(move_vec@.contains(t));
                    }
                }
            }
        }
        move_vec
    }

    /// The pawn's moves: single advance, double advance from the home
    /// rank, diagonal captures, the en-passant capture, and the four
    /// promotion variants of any move onto the last rank.
    pub fn pawn_moves(&self, source: (usize, usize)) -> (r: Vec<
        ((usize, usize), (usize, usize, u8)),
    >)
        requires
            self@.inv(),
            source.0 < 8,
            source.1 < 8,
        ensures
            forall|k: int|
                0 <= k < r@.len() ==> (#[trigger] r@[k]).0 == source && self@.pawn_dest(
                    source.0 as int,
                    source.1 as int,
                    r@[k].1.0 as int,
                    r@[k].1.1 as int,
                    r@[k].1.2,
                ),
            forall|tr: int, tc: int, promo: u8|
                #[trigger] self@.pawn_dest(source.0 as int, source.1 as int, tr, tc, promo)
                    ==> r@.contains((source, ((tr as usize), (tc as usize), promo))),
            self@.ep_ok() ==> (forall|k1: int, k2: int|
                0 <= k1 < k2 < r@.len() ==> (#[trigger] r@[k1]).1 != (#[trigger] r@[k2]).1),
    {
        if self.protagonist == BLACK {
            self.pawn_moves_black(source)
        } else {
            self.pawn_moves_white(source)
        }
    }

    /// The queen's destinations: the union of the rook's and the bishop's.
    pub fn queen_moves(&self, source: (usize, usize)) -> (r: Vec<((usize, usize), (usize, usize))>)
        requires
            self@.inv(),
            source.0 < 8,
            source.1 < 8,
        ensures
            forall|k: int|
                0 <= k < r@.len() ==> (#[trigger] r@[k]).0 == source && on_bd(r@[k].1.0 as int, r@[k].1.1 as int)
                    && self@.queen_dest(
                    source.0 as int,
                    source.1 as int,
                    r@[k].1.0 as int,
                    r@[k].1.1 as int,
                ),
            forall|tr: int, tc: int|
                #[trigger] self@.queen_dest(source.0 as int, source.1 as int, tr, tc)
                    ==> r@.contains((source, ((tr as usize), (tc as usize)))),
            forall|k1: int, k2: int|
                0 <= k1 < k2 < r@.len() ==> (#[trigger] r@[k1]).1 != (#[trigger] r@[k2]).1,
    {
        let mut move_vec: Vec<((usize, usize), (usize, usize))> = self.rook_moves(source);
        let mut diagonal: Vec<((usize, usize), (usize, usize))> = self.bishop_moves(source);
        let ghost straight_part = move_vec@;
        let ghost diagonal_part = diagonal@;
        move_vec.append(&mut diagonal);
        proof {
            assert forall|tr: int, tc: int|
                #[trigger] self@.queen_dest(source.0 as int, source.1 as int, tr, tc) implies move_vec@.contains(
                (source, ((tr as usize), (tc as usize))),
            ) by {
                lemma_concat_contains(
                    straight_part,
                    diagonal_part,
                    (source, ((tr as usize), (tc as usize))),
                );
            }
            assert forall|k: int| 0 <= k < move_vec@.len() implies (#[trigger] move_vec@[k]).0
                == source && on_bd(move_vec@[k].1.0 as int, move_vec@[k].1.1 as int)
                && self@.queen_dest(
                source.0 as int,
                source.1 as int,
                move_vec@[k].1.0 as int,
                move_vec@[k].1.1 as int,
            ) by {
                if k < straight_part.len() {
                    assert(move_vec@[k] == straight_part[k]);
                } else {
                    assert(move_vec@[k] == diagonal_part[k - straight_part.len()]);
                }
            }
            let sri = source.0 as int;
            let sci = source.1 as int;
            assert forall|k: int| 0 <= k < move_vec@.len() implies {
                let d = (#[trigger] move_vec@[k]).1;
                if k < straight_part.len() {
                    d.0 == sri || d.1 == sci
                } else {
                    d.0 != sri && d.1 != sci
                }
            } by {
                let d = move_vec@[k].1;
                if k < straight_part.len() {
                    assert(move_vec@[k] == straight_part[k]);
                    assert(self@.rook_dest(sri, sci, d.0 as int, d.1 as int));
                    let (a, b) = choose|a: int, b: int|
                        is_rook_dir(a, b) && #[trigger] ray_hits(
                            self@.b,
                            sri,
                            sci,
                            a,
                            b,
                            d.0 as int,
                            d.1 as int,
                            7,
                        );
                    lemma_ray_monotone(self@.b, sri, sci, a, b, d.0 as int, d.1 as int, 7);
                } else {
                    assert(move_vec@[k] == diagonal_part[k - straight_part.len()]);
                    assert(self@.bishop_dest(sri, sci, d.0 as int, d.1 as int));
                    let (a, b) = choose|a: int, b: int|
                        is_bishop_dir(a, b) && #[trigger] ray_hits(
                            self@.b,
                            sri,
                            sci,
                            a,
                            b,
                            d.0 as int,
                            d.1 as int,
                            7,
                        );
                    lemma_ray_monotone(self@.b, sri, sci, a, b, d.0 as int, d.1 as int, 7);
                }
            }
            assert forall|k1: int, k2: int|
                0 <= k1 < k2 < move_vec@.len() implies (#[trigger] move_vec@[k1]).1 != (
            #[trigger] move_vec@[k2]).1 by {
                if k2 < straight_part.len() {
                    assert(move_vec@[k1] == straight_part[k1]);
                    assert(move_vec@[k2] == straight_part[k2]);
                } else if k1 >= straight_part.len() {
                    assert(move_vec@[k1] == diagonal_part[k1 - straight_part.len()]);
                    assert(move_vec@[k2] == diagonal_part[k2 - straight_part.len()]);
                }
            }
        }
        move_vec
    }
}

} // verus!
