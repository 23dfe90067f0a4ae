//! The fixed-depth exhaustive negamax search, and the perft leaf counter
//! that exercises the same generate, make, recurse, unmake protocol.
//!
//! Around every trial move the caller's duties are honoured here: the
//! en-passant target and all four castling flags are snapshotted before
//! `make` and restored after `unmake`, at every depth, since the
//! transition pair does not preserve them across a round trip.

use vstd::prelude::*;
use crate::piece::{WHITE, QUEEN, PAWN, ROOK, KNIGHT, BISHOP, type_of};
use crate::board::{bidx, on_bd, BoardView, ChessBoard};
use crate::model::attacked_by;
use crate::eval::{eval, material};

verus! {

broadcast use vstd::seq_lib::lemma_seq_contains_after_push;

/// Every pseudo-legal move of the position fails the legality test: the
/// side to move has no legal move at all, so the position is terminal.
pub open spec fn no_legal_move(s: BoardView) -> bool {
    forall|sr: int, sc: int, tr: int, tc: int, promo: u8|
        #[trigger] s.pl(sr, sc, tr, tc, promo) ==> !s.make_ok(sr, sc, tr, tc, promo)
}

/// The static score of a position seen as a leaf of the search: its
/// material sum from the perspective of its side to move.
pub open spec fn leaf_score(s: BoardView) -> int {
    if s.prot == WHITE {
        material(s.b, 64)
    } else {
        -material(s.b, 64)
    }
}

/// What a legal move is worth to the mover in a depth-one search: the
/// negated leaf score of the position it produces.
pub open spec fn shallow_move_score(s: BoardView, m: ((usize, usize), (usize, usize, u8))) -> int {
    -leaf_score(s.after_make(m.0.0 as int, m.0.1 as int, m.1.0 as int, m.1.1 as int, m.1.2))
}

/// The search bookkeeping stays sound through the whole move tree to the
/// given depth: the en-passant record is consistent, every square holding
/// the mover's king is the cached square, and every legal move leads to a
/// position sound one level less deep. The snapshot-and-restore protocol
/// returns such a position unchanged from any search. (Without the
/// hypothesis a deep line may corrupt the cache: the transition never
/// revokes castling rights, so a castle can shuffle whatever stands in
/// the corner — even a king that wandered there — past its own cache.)
pub open spec fn sound_to_depth(s: BoardView, depth: int) -> bool
    decreases depth,
{
    &&& s.ep_ok()
    &&& s.king_cached()
    &&& (depth > 1 ==> forall|sr: int, sc: int, tr: int, tc: int, promo: u8|
        #[trigger] s.pl(sr, sc, tr, tc, promo) && s.make_ok(sr, sc, tr, tc, promo)
            ==> sound_to_depth(s.after_make(sr, sc, tr, tc, promo), depth - 1))
}

/// The larger of two optional values: absence is the identity.
pub open spec fn omax(a: Option<int>, b: Option<int>) -> Option<int> {
    match (a, b) {
        (Option::None, _) => b,
        (_, Option::None) => a,
        (Option::Some(x), Option::Some(y)) => if x >= y {
            a
        } else {
            b
        },
    }
}

/// The payload of an optional value, zero when absent.
pub open spec fn oval(o: Option<int>) -> int {
    match o {
        Option::Some(v) => v,
        Option::None => 0,
    }
}

/// The search value of one candidate move: absent unless the move is
/// pseudo-legal and passes the legality test, else the negated value of
/// the position it produces one level shallower — at the last level,
/// the negated static leaf score.
pub open spec fn nm_move(
    s: BoardView,
    d: int,
    sr: int,
    sc: int,
    dr: int,
    dc: int,
    promo: u8,
) -> Option<int>
    decreases d, 0int, 0int,
{
    if s.pl(sr, sc, dr, dc, promo) && s.make_ok(sr, sc, dr, dc, promo) {
        if d > 1 {
            Some(-spec_negamax(s.after_make(sr, sc, dr, dc, promo), d - 1))
        } else {
            Some(-leaf_score(s.after_make(sr, sc, dr, dc, promo)))
        }
    } else {
        None
    }
}

/// The best value among the five promotion bytes of one source and
/// destination pair.
pub open spec fn nm_promos(s: BoardView, d: int, sr: int, sc: int, dr: int, dc: int) -> Option<
    int,
>
    decreases d, 1int, 0int,
{
    omax(
        omax(
            omax(
                omax(nm_move(s, d, sr, sc, dr, dc, 0), nm_move(s, d, sr, sc, dr, dc, QUEEN)),
                nm_move(s, d, sr, sc, dr, dc, ROOK),
            ),
            nm_move(s, d, sr, sc, dr, dc, BISHOP),
        ),
        nm_move(s, d, sr, sc, dr, dc, KNIGHT),
    )
}

/// The best value among one source square's destinations whose flat
/// index lies below `j`.
pub open spec fn nm_dests(s: BoardView, d: int, sr: int, sc: int, j: int) -> Option<int>
    decreases d, 2int, j,
{
    if j <= 0 {
        None
    } else {
        omax(nm_dests(s, d, sr, sc, j - 1), nm_promos(s, d, sr, sc, (j - 1) / 8, (j - 1) % 8))
    }
}

/// The best value among the moves whose source square's flat index lies
/// below `i`.
pub open spec fn nm_srcs(s: BoardView, d: int, i: int) -> Option<int>
    decreases d, 3int, i,
{
    if i <= 0 {
        None
    } else {
        omax(nm_srcs(s, d, i - 1), nm_dests(s, d, (i - 1) / 8, (i - 1) % 8, 64))
    }
}

/// The value the search is defined to assign a position at a depth: the
/// maximum over its legal moves of the negated value one level
/// shallower, the checkmate sentinel for a position without a legal
/// move whose king is attacked, and zero for stalemate.
pub open spec fn spec_negamax(s: BoardView, d: int) -> int
    decreases d, 4int, 0int,
{
    match nm_srcs(s, d, 64) {
        Option::Some(v) => v,
        Option::None => if attacked_by(s.b, s.own_king().0, s.own_king().1, s.opp) {
            -100000
        } else {
            0
        },
    }
}

/// `nm_move`'s payload, over a legal move as the generators emit it.
pub open spec fn move_value(s: BoardView, d: int, m: ((usize, usize), (usize, usize, u8))) -> int {
    if d > 1 {
        -spec_negamax(
            s.after_make(m.0.0 as int, m.0.1 as int, m.1.0 as int, m.1.1 as int, m.1.2),
            d - 1,
        )
    } else {
        -leaf_score(s.after_make(m.0.0 as int, m.0.1 as int, m.1.0 as int, m.1.1 as int, m.1.2))
    }
}

/// A pseudo-legal move carries a promotion byte the transition accepts.
proof fn lemma_pl_promo(s: BoardView, sr: int, sc: int, tr: int, tc: int, promo: u8)
    requires
        s.pl(sr, sc, tr, tc, promo),
    ensures
        promo == 0 || promo == QUEEN || promo == ROOK || promo == BISHOP || promo == KNIGHT,
{
    if type_of(s.at(sr, sc)) == PAWN {
    } else {
    }
}

/// Holding the full caches faithful implies the one direction the
/// transition's reverts rely on.
proof fn lemma_kings_ok_cached(s: BoardView)
    requires
        s.inv(),
        s.kings_ok(),
    ensures
        s.king_cached(),
{
}

/// A legal move's value is covered by its square pair's best.
proof fn lemma_nm_promos_ge(s: BoardView, d: int, sr: int, sc: int, dr: int, dc: int, promo: u8)
    requires
        s.pl(sr, sc, dr, dc, promo),
        s.make_ok(sr, sc, dr, dc, promo),
    ensures
        nm_move(s, d, sr, sc, dr, dc, promo) is Some,
        nm_promos(s, d, sr, sc, dr, dc) is Some,
        oval(nm_promos(s, d, sr, sc, dr, dc)) >= oval(nm_move(s, d, sr, sc, dr, dc, promo)),
{
    lemma_pl_promo(s, sr, sc, dr, dc, promo);
}

/// A square pair's best is covered by its source square's best over the
/// destinations enumerated so far.
proof fn lemma_nm_dests_ge(s: BoardView, d: int, sr: int, sc: int, dr: int, dc: int, j: int)
    requires
        on_bd(dr, dc),
        bidx(dr, dc) < j <= 64,
        nm_promos(s, d, sr, sc, dr, dc) is Some,
    ensures
        nm_dests(s, d, sr, sc, j) is Some,
        oval(nm_dests(s, d, sr, sc, j)) >= oval(nm_promos(s, d, sr, sc, dr, dc)),
    decreases j,
{
    if bidx(dr, dc) == j - 1 {
        assert((j - 1) / 8 == dr && (j - 1) % 8 == dc);
    } else {
        lemma_nm_dests_ge(s, d, sr, sc, dr, dc, j - 1);
    }
}

/// A source square's best is covered by the whole enumeration's best.
proof fn lemma_nm_srcs_ge(s: BoardView, d: int, sr: int, sc: int, i: int)
    requires
        on_bd(sr, sc),
        bidx(sr, sc) < i <= 64,
        nm_dests(s, d, sr, sc, 64) is Some,
    ensures
        nm_srcs(s, d, i) is Some,
        oval(nm_srcs(s, d, i)) >= oval(nm_dests(s, d, sr, sc, 64)),
    decreases i,
{
    if bidx(sr, sc) == i - 1 {
        assert((i - 1) / 8 == sr && (i - 1) % 8 == sc);
    } else {
        lemma_nm_srcs_ge(s, d, sr, sc, i - 1);
    }
}

/// Any legal move's value is dominated by the enumeration's best.
proof fn lemma_nm_ge(s: BoardView, d: int, sr: int, sc: int, dr: int, dc: int, promo: u8)
    requires
        s.pl(sr, sc, dr, dc, promo),
        s.make_ok(sr, sc, dr, dc, promo),
    ensures
        nm_srcs(s, d, 64) is Some,
        nm_move(s, d, sr, sc, dr, dc, promo) is Some,
        oval(nm_srcs(s, d, 64)) >= oval(nm_move(s, d, sr, sc, dr, dc, promo)),
{
    crate::model::lemma_pl_dest_on_bd(s, sr, sc, dr, dc, promo);
    lemma_nm_promos_ge(s, d, sr, sc, dr, dc, promo);
    lemma_nm_dests_ge(s, d, sr, sc, dr, dc, 64);
    lemma_nm_srcs_ge(s, d, sr, sc, 64);
}

/// A present best among the promotion bytes is achieved by one of them.
proof fn lemma_nm_promos_ach(s: BoardView, d: int, sr: int, sc: int, dr: int, dc: int)
    requires
        nm_promos(s, d, sr, sc, dr, dc) is Some,
    ensures
        exists|promo: u8|
            s.pl(sr, sc, dr, dc, promo) && s.make_ok(sr, sc, dr, dc, promo) && nm_move(
                s,
                d,
                sr,
                sc,
                dr,
                dc,
                promo,
            ) == Some(oval(nm_promos(s, d, sr, sc, dr, dc))),
{
    let best = nm_promos(s, d, sr, sc, dr, dc);
    if nm_move(s, d, sr, sc, dr, dc, 0) == best {
        assert(s.pl(sr, sc, dr, dc, 0) && s.make_ok(sr, sc, dr, dc, 0) && nm_move(
            s,
            d,
            sr,
            sc,
            dr,
            dc,
            0,
        ) == Some(oval(best)));
    } else if nm_move(s, d, sr, sc, dr, dc, QUEEN) == best {
        assert(s.pl(sr, sc, dr, dc, QUEEN) && s.make_ok(sr, sc, dr, dc, QUEEN) && nm_move(
            s,
            d,
            sr,
            sc,
            dr,
            dc,
            QUEEN,
        ) == Some(oval(best)));
    } else if nm_move(s, d, sr, sc, dr, dc, ROOK) == best {
        assert(s.pl(sr, sc, dr, dc, ROOK) && s.make_ok(sr, sc, dr, dc, ROOK) && nm_move(
            s,
            d,
            sr,
            sc,
            dr,
            dc,
            ROOK,
        ) == Some(oval(best)));
    } else if nm_move(s, d, sr, sc, dr, dc, BISHOP) == best {
        assert(s.pl(sr, sc, dr, dc, BISHOP) && s.make_ok(sr, sc, dr, dc, BISHOP) && nm_move(
            s,
            d,
            sr,
            sc,
            dr,
            dc,
            BISHOP,
        ) == Some(oval(best)));
    } else {
        assert(nm_move(s, d, sr, sc, dr, dc, KNIGHT) == best);
        assert(s.pl(sr, sc, dr, dc, KNIGHT) && s.make_ok(sr, sc, dr, dc, KNIGHT) && nm_move(
            s,
            d,
            sr,
            sc,
            dr,
            dc,
            KNIGHT,
        ) == Some(oval(best)));
    }
}

/// A present best among a source's destinations is achieved.
proof fn lemma_nm_dests_ach(s: BoardView, d: int, sr: int, sc: int, j: int)
    requires
        nm_dests(s, d, sr, sc, j) is Some,
        j <= 64,
    ensures
        exists|dr: int, dc: int, promo: u8|
            s.pl(sr, sc, dr, dc, promo) && s.make_ok(sr, sc, dr, dc, promo) && #[trigger] nm_move(
                s,
                d,
                sr,
                sc,
                dr,
                dc,
                promo,
            ) == Some(oval(nm_dests(s, d, sr, sc, j))),
    decreases j,
{
    let best = nm_dests(s, d, sr, sc, j);
    if nm_promos(s, d, sr, sc, (j - 1) / 8, (j - 1) % 8) == best {
        lemma_nm_promos_ach(s, d, sr, sc, (j - 1) / 8, (j - 1) % 8);
    } else {
        assert(nm_dests(s, d, sr, sc, j - 1) == best);
        lemma_nm_dests_ach(s, d, sr, sc, j - 1);
    }
}

/// A present best of the whole enumeration is achieved by a legal move.
proof fn lemma_nm_srcs_ach(s: BoardView, d: int, i: int)
    requires
        nm_srcs(s, d, i) is Some,
        i <= 64,
    ensures
        exists|sr: int, sc: int, dr: int, dc: int, promo: u8|
            s.pl(sr, sc, dr, dc, promo) && s.make_ok(sr, sc, dr, dc, promo) && #[trigger] nm_move(
                s,
                d,
                sr,
                sc,
                dr,
                dc,
                promo,
            ) == Some(oval(nm_srcs(s, d, i))),
    decreases i,
{
    let best = nm_srcs(s, d, i);
    if nm_dests(s, d, (i - 1) / 8, (i - 1) % 8, 64) == best {
        lemma_nm_dests_ach(s, d, (i - 1) / 8, (i - 1) % 8, 64);
    } else {
        assert(nm_srcs(s, d, i - 1) == best);
        lemma_nm_srcs_ach(s, d, i - 1);
    }
}

/// Without a legal move a source's enumeration stays empty.
proof fn lemma_nm_dests_none(s: BoardView, d: int, sr: int, sc: int, j: int)
    requires
        no_legal_move(s),
    ensures
        nm_dests(s, d, sr, sc, j) is None,
    decreases j,
{
    if j > 0 {
        lemma_nm_dests_none(s, d, sr, sc, j - 1);
        let dr = (j - 1) / 8;
        let dc = (j - 1) % 8;
        assert(nm_move(s, d, sr, sc, dr, dc, 0) is None);
        assert(nm_move(s, d, sr, sc, dr, dc, QUEEN) is None);
        assert(nm_move(s, d, sr, sc, dr, dc, ROOK) is None);
        assert(nm_move(s, d, sr, sc, dr, dc, BISHOP) is None);
        assert(nm_move(s, d, sr, sc, dr, dc, KNIGHT) is None);
        assert(nm_promos(s, d, sr, sc, dr, dc) is None);
    }
}

/// Without a legal move the whole enumeration stays empty.
proof fn lemma_nm_srcs_none(s: BoardView, d: int, i: int)
    requires
        no_legal_move(s),
    ensures
        nm_srcs(s, d, i) is None,
    decreases i,
{
    if i > 0 {
        lemma_nm_srcs_none(s, d, i - 1);
        lemma_nm_dests_none(s, d, (i - 1) / 8, (i - 1) % 8, 64);
    }
}

/// Walks the move tree to the given depth, scoring each position from
/// the perspective of its side to move and taking the maximum over the
/// legal moves of the negated child scores. For every position whose
/// bookkeeping is sound through the tree, the result equals the defined
/// search value `spec_negamax` — the recursive maximum, the checkmate
/// sentinel for an attacked king without a legal move, zero for
/// stalemate — and the position comes back unchanged.
#[verifier::loop_isolation(false)]
#[verifier::rlimit(100)]
pub fn negamax(board: &mut ChessBoard, depth: u16) -> (score: i32)
    requires
        old(board)@.inv(),
    ensures
        final(board)@.inv(),
        -100000 <= score <= 100000,
        sound_to_depth(old(board)@, depth as int) ==> final(board)@ == old(board)@ && score
            == spec_negamax(old(board)@, depth as int),
        old(board)@.kings_ok() && old(board)@.ep_ok() && no_legal_move(old(board)@) ==> score == (
        if attacked_by(
            old(board)@.b,
            old(board)@.own_king().0,
            old(board)@.own_king().1,
            old(board)@.opp,
        ) {
            -100000
        } else {
            0
        }) && final(board)@ == old(board)@,
        old(board)@.kings_ok() && old(board)@.ep_ok() && depth <= 1 ==> final(board)@ == old(
            board,
        )@ && (forall|m: ((usize, usize), (usize, usize, u8))|
            #[trigger] old(board)@.pl_move(m) && old(board)@.make_ok_move(m) ==> score
                >= shallow_move_score(old(board)@, m)) && (!no_legal_move(old(board)@)
            ==> exists|m: ((usize, usize), (usize, usize, u8))|
                #[trigger] old(board)@.pl_move(m) && old(board)@.make_ok_move(m) && score
                    == shallow_move_score(old(board)@, m)),
    decreases depth,
{
    let ghost s0 = old(board)@;
    let ghost dd = depth as int;
    let ghost sound = sound_to_depth(s0, dd);
    proof {
        if s0.kings_ok() && s0.ep_ok() && (no_legal_move(s0) || depth <= 1) {
            // Terminal or depth-one positions are vacuously sound below.
            lemma_kings_ok_cached(s0);
            assert(sound_to_depth(s0, dd));
        }
    }
    let moves = board.get_all_moves();
    let mut legal_moves: usize = 0;
    let mut max: i32 = i32::MIN;
    let mut i: usize = 0;
    while i < moves.len()
        invariant
            i <= moves@.len(),
            legal_moves <= i,
            board@.inv(),
            legal_moves > 0 ==> -100000 <= max <= 100000,
            legal_moves == 0 ==> max == i32::MIN,
            sound ==> board@ == s0,
            sound ==> ((legal_moves > 0) <==> exists|j: int|
                0 <= j < i && s0.make_ok_move(#[trigger] moves@[j])),
            sound && legal_moves > 0 ==> nm_srcs(s0, dd, 64) is Some && max <= oval(
                nm_srcs(s0, dd, 64),
            ),
            sound ==> (forall|j: int|
                0 <= j < i && s0.make_ok_move(#[trigger] moves@[j]) ==> max >= move_value(
                    s0,
                    dd,
                    moves@[j],
                )),
        decreases moves@.len() - i,
    {
        let amove = moves[i];
        proof {
            assert(s0.pl_move(amove));
            crate::model::lemma_pl_dest_on_bd(
                s0,
                amove.0.0 as int,
                amove.0.1 as int,
                amove.1.0 as int,
                amove.1.1 as int,
                amove.1.2,
            );
            lemma_pl_promo(
                s0,
                amove.0.0 as int,
                amove.0.1 as int,
                amove.1.0 as int,
                amove.1.1 as int,
                amove.1.2,
            );
        }
        let ep = board.ep;
        let white_kingside_castle = board.white_kingside_castle;
        let white_queenside_castle = board.white_queenside_castle;
        let black_kingside_castle = board.black_kingside_castle;
        let black_queenside_castle = board.black_queenside_castle;
        let result = board.make(amove.0, amove.1);
        match result {
            None => {
                // Illegal move, already reverted inside make.
            },
            Some(captured_piece) => {
                legal_moves = legal_moves + 1;
                proof {
                    if sound && depth > 1 {
                        assert(sound_to_depth(
                            s0.after_make(
                                amove.0.0 as int,
                                amove.0.1 as int,
                                amove.1.0 as int,
                                amove.1.1 as int,
                                amove.1.2,
                            ),
                            dd - 1,
                        ));
                    }
                }
                let score: i32 = if depth > 1 {
                    -negamax(board, depth - 1)
                } else {
                    -eval(board)
                };
                proof {
                    if sound {
                        assert(board@ == s0.after_make(
                            amove.0.0 as int,
                            amove.0.1 as int,
                            amove.1.0 as int,
                            amove.1.1 as int,
                            amove.1.2,
                        ));
                        assert(score == move_value(s0, dd, amove));
                        lemma_nm_ge(
                            s0,
                            dd,
                            amove.0.0 as int,
                            amove.0.1 as int,
                            amove.1.0 as int,
                            amove.1.1 as int,
                            amove.1.2,
                        );
                    }
                }
                if score > max {
                    max = score;
                }
                board.unmake(amove.0, amove.1, captured_piece);
                proof {
                    if sound {
                        crate::transition::lemma_make_round_trip(
                            s0,
                            amove.0.0 as int,
                            amove.0.1 as int,
                            amove.1.0 as int,
                            amove.1.1 as int,
                            amove.1.2,
                        );
                    }
                }
            },
        }
        board.ep = ep;
        board.white_kingside_castle = white_kingside_castle;
        board.white_queenside_castle = white_queenside_castle;
        board.black_kingside_castle = black_kingside_castle;
        board.black_queenside_castle = black_queenside_castle;
        proof {
            if sound {
                assert(board@ =~= s0);
            }
        }
        i = i + 1;
    }
    proof {
        if sound {
            if legal_moves == 0 {
                assert forall|sr: int, sc: int, tr: int, tc: int, promo: u8|
                    #[trigger] s0.pl(sr, sc, tr, tc, promo) implies !s0.make_ok(
                    sr,
                    sc,
                    tr,
                    tc,
                    promo,
                ) by {
                    if s0.make_ok(sr, sc, tr, tc, promo) {
                        crate::model::lemma_pl_dest_on_bd(s0, sr, sc, tr, tc, promo);
                        let m = (((sr as usize), (sc as usize)), ((tr as usize), (tc as usize),
                        promo));
                        assert(s0.pl_move(m));
                        assert(moves@.contains(m));
                        let j = choose|j: int| 0 <= j < moves@.len() && moves@[j] == m;
                        assert(s0.make_ok_move(moves@[j]));
                    }
                }
                assert(no_legal_move(s0));
                lemma_nm_srcs_none(s0, dd, 64);
            } else {
                lemma_nm_srcs_ach(s0, dd, 64);
                let (sr, sc, dr, dc, promo) = choose|sr: int, sc: int, dr: int, dc: int, promo: u8|
                    s0.pl(sr, sc, dr, dc, promo) && s0.make_ok(sr, sc, dr, dc, promo) && nm_move(
                        s0,
                        dd,
                        sr,
                        sc,
                        dr,
                        dc,
                        promo,
                    ) == Some(oval(nm_srcs(s0, dd, 64)));
                crate::model::lemma_pl_dest_on_bd(s0, sr, sc, dr, dc, promo);
                let m = (((sr as usize), (sc as usize)), ((dr as usize), (dc as usize), promo));
                assert(s0.pl_move(m));
                assert(s0.make_ok_move(m));
                assert(moves@.contains(m));
                let j = choose|j: int| 0 <= j < moves@.len() && moves@[j] == m;
                assert(s0.make_ok_move(moves@[j]));
                assert(max >= move_value(s0, dd, m));
                assert(move_value(s0, dd, m) == oval(nm_srcs(s0, dd, 64)));
                assert(max == oval(nm_srcs(s0, dd, 64)));
            }
        }
    }
    if legal_moves == 0 {
        // No legal move: checkmate if the king is attacked, else
        // stalemate.
        if board.protagonist == WHITE {
            if board.in_check(board.white_king_pos) {
                max = -100000;
            } else {
                max = 0;
            }
        } else {
            if board.in_check(board.black_king_pos) {
                max = -100000;
            } else {
                max = 0;
            }
        }
    }
    proof {
        if sound {
            assert(max == spec_negamax(s0, dd));
        }
        if s0.kings_ok() && s0.ep_ok() && depth <= 1 {
            assert forall|m: ((usize, usize), (usize, usize, u8))|
                #[trigger] s0.pl_move(m) && s0.make_ok_move(m) implies max >= shallow_move_score(
                s0,
                m,
            ) by {
                lemma_nm_ge(
                    s0,
                    dd,
                    m.0.0 as int,
                    m.0.1 as int,
                    m.1.0 as int,
                    m.1.1 as int,
                    m.1.2,
                );
            }
            if !no_legal_move(s0) {
                lemma_nm_srcs_ach(s0, dd, 64);
                let (sr, sc, dr, dc, promo) = choose|
                    sr: int,
                    sc: int,
                    dr: int,
                    dc: int,
                    promo: u8,
                |
                    s0.pl(sr, sc, dr, dc, promo) && s0.make_ok(sr, sc, dr, dc, promo) && nm_move(
                        s0,
                        dd,
                        sr,
                        sc,
                        dr,
                        dc,
                        promo,
                    ) == Some(oval(nm_srcs(s0, dd, 64)));
                crate::model::lemma_pl_dest_on_bd(s0, sr, sc, dr, dc, promo);
                let m = (((sr as usize), (sc as usize)), ((dr as usize), (dc as usize), promo));
                assert(s0.pl_move(m) && s0.make_ok_move(m) && max == shallow_move_score(s0, m));
            }
        }
    }
    max
}

/// The promotion byte of an enumeration slot: the four promotion types
/// after the plain move.
pub open spec fn promo_of_slot(p: int) -> u8 {
    if p == 0 {
        0
    } else if p == 1 {
        QUEEN
    } else if p == 2 {
        ROOK
    } else if p == 3 {
        BISHOP
    } else {
        KNIGHT
    }
}

/// The enumeration slot of a promotion byte.
pub open spec fn slot_of_promo(promo: u8) -> int {
    if promo == 0 {
        0
    } else if promo == QUEEN {
        1
    } else if promo == ROOK {
        2
    } else if promo == BISHOP {
        3
    } else {
        4
    }
}

/// The candidate move at one index of the flat enumeration of every
/// source square, destination square and promotion slot.
pub open spec fn flat_move(n: int) -> ((usize, usize), (usize, usize, u8)) {
    let src = n / 320;
    let dst = (n / 5) % 64;
    let p = n % 5;
    (
        (((src / 8) as usize), ((src % 8) as usize)),
        (((dst / 8) as usize), ((dst % 8) as usize), promo_of_slot(p)),
    )
}

/// The flat enumeration index of a move.
pub open spec fn flat_index(m: ((usize, usize), (usize, usize, u8))) -> int {
    (bidx(m.0.0 as int, m.0.1 as int) * 64 + bidx(m.1.0 as int, m.1.1 as int)) * 5
        + slot_of_promo(m.1.2)
}

/// A legal move: pseudo-legal, and passing the legality test.
pub open spec fn legal_move(s: BoardView, m: ((usize, usize), (usize, usize, u8))) -> bool {
    s.pl_move(m) && s.make_ok_move(m)
}

/// How many moves below the given enumeration index are legal.
pub open spec fn cnt_upto(s: BoardView, n: int) -> nat
    decreases n,
{
    if n <= 0 {
        0
    } else {
        cnt_upto(s, n - 1) + (if legal_move(s, flat_move(n - 1)) {
            1nat
        } else {
            0nat
        })
    }
}

/// How many legal moves the position has.
pub open spec fn legal_move_count(s: BoardView) -> nat {
    cnt_upto(s, 20480)
}

/// A move with board coordinates and a valid promotion byte is the one
/// its own enumeration index decodes to.
proof fn lemma_flat_roundtrip(m: ((usize, usize), (usize, usize, u8)))
    requires
        m.0.0 < 8,
        m.0.1 < 8,
        m.1.0 < 8,
        m.1.1 < 8,
        m.1.2 == 0 || m.1.2 == QUEEN || m.1.2 == ROOK || m.1.2 == BISHOP || m.1.2 == KNIGHT,
    ensures
        0 <= flat_index(m) < 20480,
        flat_move(flat_index(m)) == m,
{
    let b1 = bidx(m.0.0 as int, m.0.1 as int);
    let b2 = bidx(m.1.0 as int, m.1.1 as int);
    let sl = slot_of_promo(m.1.2);
    let n = (b1 * 64 + b2) * 5 + sl;
    assert(n == b1 * 320 + (b2 * 5 + sl));
    assert(0 <= b2 * 5 + sl < 320);
    assert(n / 320 == b1) by (nonlinear_arith)
        requires
            n == b1 * 320 + (b2 * 5 + sl),
            0 <= b2 * 5 + sl < 320,
            0 <= b1,
    ;
    assert(n / 5 == b1 * 64 + b2) by (nonlinear_arith)
        requires
            n == (b1 * 64 + b2) * 5 + sl,
            0 <= sl < 5,
            0 <= b1 * 64 + b2,
    ;
    assert((b1 * 64 + b2) % 64 == b2) by (nonlinear_arith)
        requires
            0 <= b2 < 64,
            0 <= b1,
    ;
    assert(n % 5 == sl) by (nonlinear_arith)
        requires
            n == (b1 * 64 + b2) * 5 + sl,
            0 <= sl < 5,
            0 <= b1 * 64 + b2,
    ;
    assert(b1 / 8 == m.0.0 as int && b1 % 8 == m.0.1 as int);
    assert(b2 / 8 == m.1.0 as int && b2 % 8 == m.1.1 as int);
}

/// Two indices that decode to the same move are the same index.
proof fn lemma_flat_injective(n1: int, n2: int)
    requires
        0 <= n1 < 20480,
        0 <= n2 < 20480,
        flat_move(n1) == flat_move(n2),
    ensures
        n1 == n2,
{
    let m = flat_move(n1);
    assert(0 <= n1 / 320 < 64 && 0 <= (n1 / 5) % 64 < 64 && 0 <= n1 % 5 < 5);
    assert(0 <= n2 / 320 < 64 && 0 <= (n2 / 5) % 64 < 64 && 0 <= n2 % 5 < 5);
    assert(n1 / 320 == n2 / 320 && (n1 / 5) % 64 == (n2 / 5) % 64 && n1 % 5 == n2 % 5) by {
        assert((n1 / 320) / 8 == (n2 / 320) / 8 && (n1 / 320) % 8 == (n2 / 320) % 8);
        assert(((n1 / 5) % 64) / 8 == ((n2 / 5) % 64) / 8 && ((n1 / 5) % 64) % 8 == ((n2 / 5)
            % 64) % 8);
        assert(promo_of_slot(n1 % 5) == promo_of_slot(n2 % 5));
    }
    assert(n1 == (n1 / 320) * 320 + ((n1 / 5) % 64) * 5 + n1 % 5) by (nonlinear_arith)
        requires
            0 <= n1 < 20480,
    ;
    assert(n2 == (n2 / 320) * 320 + ((n2 / 5) % 64) * 5 + n2 % 5) by (nonlinear_arith)
        requires
            0 <= n2 < 20480,
    ;
}

/// The number of leaves one candidate move contributes to the tree: one
/// at the last level, the subtree's leaf count above it, nothing if the
/// move is not legal.
pub open spec fn tree_move_weight(s: BoardView, d: int, m: ((usize, usize), (usize, usize, u8))) -> nat
    decreases d, 0int, 0int,
{
    if legal_move(s, m) {
        if d <= 1 {
            1nat
        } else {
            tree_count(
                s.after_make(m.0.0 as int, m.0.1 as int, m.1.0 as int, m.1.1 as int, m.1.2),
                d - 1,
            )
        }
    } else {
        0
    }
}

/// The leaves contributed by the enumeration candidates below index `n`
/// whose moves are not in the excluded set.
pub open spec fn tree_cnt_excl(
    s: BoardView,
    d: int,
    n: int,
    excl: Set<((usize, usize), (usize, usize, u8))>,
) -> nat
    decreases d, 1int, n,
{
    if n <= 0 {
        0
    } else {
        tree_cnt_excl(s, d, n - 1, excl) + (if excl.contains(flat_move(n - 1)) {
            0nat
        } else {
            tree_move_weight(s, d, flat_move(n - 1))
        })
    }
}

/// The leaf count of the legal-move tree at the given depth: the sum,
/// over every legal move, of the leaves its subtree contributes.
pub open spec fn tree_count(s: BoardView, d: int) -> nat
    decreases d, 2int, 0int,
{
    tree_cnt_excl(s, d, 20480, Set::empty())
}

/// Excluding one uncounted legal move removes exactly its weight.
proof fn lemma_tree_cnt_peel(
    s: BoardView,
    d: int,
    n: int,
    excl: Set<((usize, usize), (usize, usize, u8))>,
    x: ((usize, usize), (usize, usize, u8)),
)
    requires
        0 <= n <= 20480,
        legal_move(s, x),
        !excl.contains(x),
        flat_index(x) < n,
    ensures
        tree_cnt_excl(s, d, n, excl) == tree_cnt_excl(s, d, n, excl.insert(x))
            + tree_move_weight(s, d, x),
    decreases n,
{
    crate::model::lemma_pl_dest_on_bd(
        s,
        x.0.0 as int,
        x.0.1 as int,
        x.1.0 as int,
        x.1.1 as int,
        x.1.2,
    );
    lemma_pl_promo(s, x.0.0 as int, x.0.1 as int, x.1.0 as int, x.1.1 as int, x.1.2);
    lemma_flat_roundtrip(x);
    if flat_index(x) == n - 1 {
        assert(flat_move(n - 1) == x);
        assert(tree_cnt_excl(s, d, n - 1, excl) == tree_cnt_excl(s, d, n - 1, excl.insert(x)))
            by {
            lemma_tree_cnt_same(s, d, n - 1, excl, x);
        }
    } else {
        lemma_tree_cnt_peel(s, d, n - 1, excl, x);
        assert(flat_move(n - 1) != x) by {
            if flat_move(n - 1) == x {
                lemma_flat_injective(flat_index(x), n - 1);
            }
        }
    }
}

/// Excluding a move above the range changes nothing below it.
proof fn lemma_tree_cnt_same(
    s: BoardView,
    d: int,
    n: int,
    excl: Set<((usize, usize), (usize, usize, u8))>,
    x: ((usize, usize), (usize, usize, u8)),
)
    requires
        0 <= n <= 20480,
        0 <= flat_index(x) < 20480,
        flat_move(flat_index(x)) == x,
        n <= flat_index(x),
    ensures
        tree_cnt_excl(s, d, n, excl) == tree_cnt_excl(s, d, n, excl.insert(x)),
    decreases n,
{
    if n > 0 {
        lemma_tree_cnt_same(s, d, n - 1, excl, x);
        assert(flat_move(n - 1) != x) by {
            if flat_move(n - 1) == x {
                lemma_flat_injective(flat_index(x), n - 1);
            }
        }
    }
}

/// Once every legal move is excluded, nothing is left to count.
proof fn lemma_tree_cnt_done(
    s: BoardView,
    d: int,
    n: int,
    excl: Set<((usize, usize), (usize, usize, u8))>,
)
    requires
        0 <= n <= 20480,
        forall|m: ((usize, usize), (usize, usize, u8))|
            #[trigger] legal_move(s, m) ==> excl.contains(m),
    ensures
        tree_cnt_excl(s, d, n, excl) == 0,
    decreases n,
{
    if n > 0 {
        lemma_tree_cnt_done(s, d, n - 1, excl);
        assert(tree_cnt_excl(s, d, n - 1, excl) == 0);
        let fm = flat_move(n - 1);
        if legal_move(s, fm) {
            assert(excl.contains(fm));
            assert(tree_cnt_excl(s, d, n, excl) == 0);
        } else {
            assert(tree_move_weight(s, d, fm) == 0);
            assert(tree_cnt_excl(s, d, n, excl) == 0);
        }
    } else {
        assert(tree_cnt_excl(s, d, n, excl) == 0);
    }
}

/// At the counting depth every legal move weighs one leaf, so the tree
/// count is the legal-move count.
proof fn lemma_tree_count_shallow(s: BoardView, d: int, n: int)
    requires
        d <= 1,
        0 <= n <= 20480,
    ensures
        tree_cnt_excl(s, d, n, Set::empty()) == cnt_upto(s, n),
    decreases n,
{
    if n > 0 {
        lemma_tree_count_shallow(s, d, n - 1);
        assert(!Set::<((usize, usize), (usize, usize, u8))>::empty().contains(flat_move(n - 1)));
        assert(tree_cnt_excl(s, d, n, Set::empty()) == tree_cnt_excl(s, d, n - 1, Set::empty())
            + tree_move_weight(s, d, flat_move(n - 1)));
    }
}

/// Counts the leaves of the move tree at the given depth: each legal
/// move at depth one counts one leaf, and the counter saturates rather
/// than wrap. For every position whose bookkeeping is sound through the
/// tree, the position comes back unchanged and the counter receives
/// exactly the tree's leaf count, clamped at the counter's ceiling.
#[verifier::loop_isolation(false)]
#[verifier::rlimit(100)]
pub fn perft(board: &mut ChessBoard, perft_count: &mut u64, depth: u16)
    requires
        old(board)@.inv(),
    ensures
        final(board)@.inv(),
        *final(perft_count) >= *old(perft_count),
        sound_to_depth(old(board)@, depth as int) ==> final(board)@ == old(board)@,
        sound_to_depth(old(board)@, depth as int) ==> *final(perft_count) == (if *old(perft_count)
            + tree_count(old(board)@, depth as int) <= u64::MAX {
            (*old(perft_count) + tree_count(old(board)@, depth as int)) as u64
        } else {
            u64::MAX
        }),
        sound_to_depth(old(board)@, depth as int) && depth <= 1 ==> *final(perft_count) == (
        if *old(perft_count) + legal_move_count(old(board)@) <= u64::MAX {
            (*old(perft_count) + legal_move_count(old(board)@)) as u64
        } else {
            u64::MAX
        }),
        old(board)@.kings_ok() && old(board)@.ep_ok() && no_legal_move(old(board)@)
            ==> final(board)@ == old(board)@ && *final(perft_count) == *old(perft_count),
    decreases depth,
{
    let ghost s0 = old(board)@;
    let ghost dd = depth as int;
    let ghost sound = sound_to_depth(s0, dd);
    let ghost mut done: Set<((usize, usize), (usize, usize, u8))> = Set::empty();
    let ghost mut acc: nat = 0;
    proof {
        if s0.kings_ok() && s0.ep_ok() && no_legal_move(s0) {
            // A terminal position is vacuously sound below, and its tree
            // has no leaves at any depth.
            lemma_kings_ok_cached(s0);
            assert(sound_to_depth(s0, dd));
            assert forall|m: ((usize, usize), (usize, usize, u8))|
                #[trigger] legal_move(s0, m) implies Set::<
                ((usize, usize), (usize, usize, u8)),
            >::empty().contains(m) by {
                assert(s0.pl(m.0.0 as int, m.0.1 as int, m.1.0 as int, m.1.1 as int, m.1.2));
            }
            lemma_tree_cnt_done(s0, dd, 20480, Set::empty());
            assert(tree_count(s0, dd) == 0);
        }
    }
    let moves = board.get_all_moves();
    let mut i: usize = 0;
    while i < moves.len()
        invariant
            i <= moves@.len(),
            board@.inv(),
            *perft_count >= *old(perft_count),
            sound ==> board@ == s0,
            sound ==> (forall|m: ((usize, usize), (usize, usize, u8))|
                #[trigger] done.contains(m) <==> (exists|j: int|
                    0 <= j < i && moves@[j] == m && legal_move(s0, m))),
            sound ==> tree_cnt_excl(s0, dd, 20480, done) + acc == tree_count(s0, dd),
            sound ==> *perft_count == (if *old(perft_count) + acc <= u64::MAX {
                (*old(perft_count) + acc) as u64
            } else {
                u64::MAX
            }),
        decreases moves@.len() - i,
    {
        let amove = moves[i];
        proof {
            assert(s0.pl_move(amove));
            crate::model::lemma_pl_dest_on_bd(
                s0,
                amove.0.0 as int,
                amove.0.1 as int,
                amove.1.0 as int,
                amove.1.1 as int,
                amove.1.2,
            );
            lemma_pl_promo(
                s0,
                amove.0.0 as int,
                amove.0.1 as int,
                amove.1.0 as int,
                amove.1.1 as int,
                amove.1.2,
            );
        }
        let ep = board.ep;
        let white_kingside_castle = board.white_kingside_castle;
        let white_queenside_castle = board.white_queenside_castle;
        let black_kingside_castle = board.black_kingside_castle;
        let black_queenside_castle = board.black_queenside_castle;
        let result = board.make(amove.0, amove.1);
        match result {
            None => {
                // Illegal move, already reverted inside make.
            },
            Some(captured_piece) => {
                let ghost mid = *perft_count;
                let ghost weight = tree_move_weight(s0, dd, amove);
                proof {
                    if sound {
                        assert(legal_move(s0, amove));
                        assert(!done.contains(amove)) by {
                            if done.contains(amove) {
                                let j = choose|j: int|
                                    0 <= j < i && moves@[j] == amove && legal_move(s0, amove);
                                assert(moves@[j] != moves@[i as int]);
                            }
                        }
                        lemma_flat_roundtrip(amove);
                        lemma_tree_cnt_peel(s0, dd, 20480, done, amove);
                        done = done.insert(amove);
                        acc = acc + weight;
                        if depth > 1 {
                            assert(sound_to_depth(
                                s0.after_make(
                                    amove.0.0 as int,
                                    amove.0.1 as int,
                                    amove.1.0 as int,
                                    amove.1.1 as int,
                                    amove.1.2,
                                ),
                                dd - 1,
                            ));
                            assert(weight == tree_count(
                                s0.after_make(
                                    amove.0.0 as int,
                                    amove.0.1 as int,
                                    amove.1.0 as int,
                                    amove.1.1 as int,
                                    amove.1.2,
                                ),
                                dd - 1,
                            ));
                        } else {
                            assert(weight == 1);
                        }
                    }
                }
                if depth > 1 {
                    perft(board, perft_count, depth - 1);
                } else {
                    if *perft_count < u64::MAX {
                        *perft_count = *perft_count + 1;
                    }
                }
                proof {
                    if sound {
                        // The counter's clamp composes: saturating once
                        // more lands where saturating the sum would.
                        assert(*perft_count == (if *old(perft_count) + acc <= u64::MAX {
                            (*old(perft_count) + acc) as u64
                        } else {
                            u64::MAX
                        }));
                    }
                }
                board.unmake(amove.0, amove.1, captured_piece);
                proof {
                    if sound {
                        crate::transition::lemma_make_round_trip(
                            s0,
                            amove.0.0 as int,
                            amove.0.1 as int,
                            amove.1.0 as int,
                            amove.1.1 as int,
                            amove.1.2,
                        );
                    }
                }
            },
        }
        board.ep = ep;
        board.white_kingside_castle = white_kingside_castle;
        board.white_queenside_castle = white_queenside_castle;
        board.black_kingside_castle = black_kingside_castle;
        board.black_queenside_castle = black_queenside_castle;
        proof {
            if sound {
                assert(board@ =~= s0);
            }
        }
        i = i + 1;
    }
    proof {
        if sound {
            assert forall|m: ((usize, usize), (usize, usize, u8))|
                #[trigger] legal_move(s0, m) implies done.contains(m) by {
                assert(s0.pl_move(m));
                assert(moves@.contains(m));
                let j = choose|j: int| 0 <= j < moves@.len() && moves@[j] == m;
            }
            lemma_tree_cnt_done(s0, dd, 20480, done);
            assert(acc == tree_count(s0, dd));
            if depth <= 1 {
                lemma_tree_count_shallow(s0, dd, 20480);
            }
        }
    }
}

} // verus!
