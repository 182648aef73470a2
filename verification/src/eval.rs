use vstd::prelude::*;

use crate::bitboard::{bit, lemma_bit_ops, lemma_lowest_bit_facts, lemma_zero_iff_no_bits, lowest_bit};
use crate::board::{lemma_wf_bits, Occupant};
use crate::constants::{ISOLATED_PAWN_SCORE, KINGSIDE_DEFENSE, PASSED_SCORE, QUEENSIDE_DEFENSE};
use crate::geometry::{abs_diff, same_file};
use crate::position::{lemma_common_bit, lemma_no_common_bit, Position};
use crate::rules::{first_king, has_king, is_first_king};
use crate::tables::{flipped, lemma_table_bounds, passed_mask, path_mask, square_score_of};
use crate::types::{BitBoard, Piece, Side};

verus! {

/// The squares a pawn evaluation looks at for a pawn (or rook) of white (`w`) or
/// black on `sq`: ahead on its file and the files beside it (`kind` 0), ahead on
/// its file (1), on the files beside it (2), on its file (3).
pub open spec fn mask_at(kind: int, w: bool, sq: int, t: int) -> bool {
    if kind == 0 {
        passed_mask(w, sq, t)
    } else if kind == 1 {
        path_mask(w, sq, t)
    } else if kind == 2 {
        abs_diff(sq % 8, t % 8) == 1
    } else {
        same_file(sq, t)
    }
}

/// No square of the mask holds a pawn of `side`.
pub open spec fn no_pawn_in(v: Seq<Occupant>, side: Side, kind: int, w: bool, sq: int) -> bool {
    forall|t: int| 0 <= t < 64 && #[trigger] mask_at(kind, w, sq, t) ==> v[t] != Some((side, Piece::Pawn))
}

/// The index (0 white, 1 black) of a side.
pub open spec fn side_index(s: Side) -> int {
    if s == Side::White {
        0
    } else {
        1
    }
}

/// The bonus of a passed pawn of `side` on `sq`.
pub open spec fn passed_bonus(side: Side, sq: int) -> int {
    if side == Side::White {
        PASSED_SCORE[sq] as int
    } else {
        PASSED_SCORE[flipped(sq)] as int
    }
}

/// The structure score of the pawn of `side` on `sq`: the passed-pawn bonus when
/// no opposing pawn stands ahead on its file or the files beside it and no pawn
/// of its own ahead on its file, and the isolated-pawn penalty when no pawn of
/// its own stands on the files beside it.
pub open spec fn pawn_bonus(v: Seq<Occupant>, side: Side, sq: int) -> int {
    let w = side == Side::White;
    let passed = no_pawn_in(v, side.spec_opponent(), 0, w, sq) && no_pawn_in(v, side, 1, w, sq);
    let isolated = no_pawn_in(v, side, 2, w, sq);
    (if passed { passed_bonus(side, sq) } else { 0 }) + (if isolated { ISOLATED_PAWN_SCORE as int } else { 0 })
}

/// The bonus of the rook of `side` on `sq`: 20 on a file without pawns, 10 on a
/// file with opposing pawns only.
pub open spec fn rook_bonus(v: Seq<Occupant>, side: Side, sq: int) -> int {
    if no_pawn_in(v, side, 3, true, sq) {
        if no_pawn_in(v, side.spec_opponent(), 3, true, sq) {
            20
        } else {
            10
        }
    } else {
        0
    }
}

/// The score of a piece of kind `p` of `side` on `i`: its square score, with the
/// pawn structure bonus for a pawn and the open-file bonus for a rook.
pub open spec fn piece_score(v: Seq<Occupant>, side: Side, p: Piece, i: int) -> int {
    let s = side_index(side);
    match p {
        Piece::Pawn => square_score_of(s, 0, i) + pawn_bonus(v, side, i),
        Piece::Knight => square_score_of(s, 1, i),
        Piece::Bishop => square_score_of(s, 2, i),
        Piece::Rook => square_score_of(s, 3, i) + rook_bonus(v, side, i),
        Piece::Queen => square_score_of(s, 4, i),
        _ => 0,
    }
}

/// The sum of the scores of the pieces of kind `p` of `side` on the squares below `n`.
pub open spec fn score_sum(v: Seq<Occupant>, side: Side, p: Piece, n: int) -> int
    decreases n,
{
    if n <= 0 {
        0
    } else {
        score_sum(v, side, p, n - 1) + (if v[n - 1] == Some((side, p)) { piece_score(v, side, p, n - 1) } else { 0 })
    }
}

/// The shield value of a pawn of `side` on `i` for a king on the kingside (`kingside`) or the queenside.
pub open spec fn shield_value(side: Side, kingside: bool, i: int) -> int {
    if kingside {
        KINGSIDE_DEFENSE[side_index(side)][i] as int
    } else {
        QUEENSIDE_DEFENSE[side_index(side)][i] as int
    }
}

/// The sum of the shield values of the pawns of `side` on the squares below `n`.
pub open spec fn shield_sum(v: Seq<Occupant>, side: Side, kingside: bool, n: int) -> int
    decreases n,
{
    if n <= 0 {
        0
    } else {
        shield_sum(v, side, kingside, n - 1) + (if v[n - 1] == Some((side, Piece::Pawn)) { shield_value(side, kingside, n - 1) } else { 0 })
    }
}

/// The pawn shield of the king of `side` on the kingside (`kingside`) or the queenside.
pub open spec fn shield(v: Seq<Occupant>, side: Side, kingside: bool) -> int {
    shield_sum(v, side, kingside, 64)
}

/// The file of `t` is one of the two of the kingside (`kingside`) or of the queenside.
pub open spec fn on_wing(kingside: bool, t: int) -> bool {
    if kingside {
        t % 8 > 5
    } else {
        t % 8 < 2
    }
}

/// A king of `side` stands on the kingside (`kingside`) or the queenside.
pub open spec fn king_on(v: Seq<Occupant>, side: Side, kingside: bool) -> bool {
    exists|t: int| 0 <= t < 64 && #[trigger] v[t] == Some((side, Piece::King)) && on_wing(kingside, t)
}

/// A queen of `side` stands on the board.
pub open spec fn has_queen(v: Seq<Occupant>, side: Side) -> bool {
    exists|t: int| 0 <= t < 64 && #[trigger] v[t] == Some((side, Piece::Queen))
}

/// The king term of `side`: without an opposing queen, the endgame score of its
/// king (the lowest one); otherwise the pawn shield of the wing its king stands on.
pub open spec fn king_term(v: Seq<Occupant>, side: Side) -> int {
    let s = side_index(side);
    if !has_queen(v, side.spec_opponent()) {
        let k = first_king(v, side);
        crate::constants::KING_ENDGAME_SCORE[k] - square_score_of(s, 5, k)
    } else if king_on(v, side, true) {
        shield(v, side, true)
    } else if king_on(v, side, false) {
        shield(v, side, false)
    } else {
        0
    }
}

/// The score of `side`: its pieces and its king term.
pub open spec fn side_score(v: Seq<Occupant>, side: Side) -> int {
    score_sum(v, side, Piece::Pawn, 64) + score_sum(v, side, Piece::Knight, 64) + score_sum(v, side, Piece::Bishop, 64)
        + score_sum(v, side, Piece::Rook, 64) + score_sum(v, side, Piece::Queen, 64) + king_term(v, side)
}

/// The evaluation of a board for `side`: its score less its opponent's.
pub open spec fn evaluation(v: Seq<Occupant>, side: Side) -> int {
    side_score(v, side) - side_score(v, side.spec_opponent())
}

/// A sum over the squares below `hi` of a kind with no piece from `lo` on is the sum below `lo`.
proof fn lemma_sums_gap(v: Seq<Occupant>, side: Side, p: Piece, lo: int, hi: int)
    requires
        0 <= lo <= hi,
        forall|i: int| lo <= i < hi ==> #[trigger] v[i] != Some((side, p)),
    ensures
        score_sum(v, side, p, hi) == score_sum(v, side, p, lo),
        shield_sum(v, side, true, hi) == shield_sum(v, side, true, lo) || p != Piece::Pawn,
        shield_sum(v, side, false, hi) == shield_sum(v, side, false, lo) || p != Piece::Pawn,
    decreases hi - lo,
{
    if hi > lo {
        lemma_sums_gap(v, side, p, lo, hi - 1);
    }
}

/// On a well-formed board, a mask holds no pawn of `side` exactly when its
/// `and` with the pawns of `side` is zero.
proof fn lemma_mask_pawns(b: crate::types::Board, side: Side, mask: u64, kind: int, w: bool, sq: int)
    requires
        b.wf(),
        forall|t: int| 0 <= t < 64 ==> #[trigger] bit(mask, t) == mask_at(kind, w, sq, t),
    ensures
        ((mask & b.bit_pieces[side_index(side)][0].0) == 0) == no_pawn_in(b.view(), side, kind, w, sq),
{
    let pawns = b.bit_pieces[side_index(side)][0].0;
    let v = b.view();
    if (mask & pawns) == 0 {
        assert forall|t: int| 0 <= t < 64 && #[trigger] mask_at(kind, w, sq, t) implies v[t] != Some((side, Piece::Pawn)) by {
            lemma_no_common_bit(mask, pawns, t);
            lemma_wf_bits(b, t);
            assert(bit(mask, t));
            assert(b.bit_pieces[side_index(side)][0].has(t) == (v[t] == Some((side, Piece::Pawn))));
        }
    } else {
        let t = lemma_common_bit(mask, pawns);
        lemma_wf_bits(b, t);
        assert(b.bit_pieces[side_index(side)][0].has(t) == (v[t] == Some((side, Piece::Pawn))));
        assert(mask_at(kind, w, sq, t));
    }
}

impl Position {
    /// The structure score of the pawn of `side` on `square` (passed-pawn bonus,
    /// isolated-pawn penalty); adds its shield values for a king on either wing.
    fn evaluate_pawn(&self, side: Side, square: usize, kingside_pawns: &mut i32, queenside_pawns: &mut i32) -> (r: i32)
        requires
            self.board.wf(),
            square < 64,
            -100000 <= *old(kingside_pawns) <= 100000,
            -100000 <= *old(queenside_pawns) <= 100000,
        ensures
            r as int == pawn_bonus(self.board.view(), side, square as int),
            -220 <= r <= 200,
            *final(kingside_pawns) == *old(kingside_pawns) + shield_value(side, true, square as int),
            *final(queenside_pawns) == *old(queenside_pawns) + shield_value(side, false, square as int),
    {
        let s = side as usize;
        let o = side.opponent() as usize;
        let own = self.board.bit_pieces[s][0].0;
        let opp = self.board.bit_pieces[o][0].0;
        let (passed, path) = self.tables.passed_and_path(s, square);
        let isolated = self.tables.file_mask(square, true);
        proof {
            let w = side == Side::White;
            assert(s as int == side_index(side));
            assert(o as int == side_index(side.spec_opponent()));
            assert forall|t: int| 0 <= t < 64 implies #[trigger] bit(passed, t) == mask_at(0, w, square as int, t) by {}
            assert forall|t: int| 0 <= t < 64 implies #[trigger] bit(path, t) == mask_at(1, w, square as int, t) by {}
            assert forall|t: int| 0 <= t < 64 implies #[trigger] bit(isolated, t) == mask_at(2, w, square as int, t) by {}
            lemma_mask_pawns(self.board, side.spec_opponent(), passed, 0, w, square as int);
            lemma_mask_pawns(self.board, side, path, 1, w, square as int);
            lemma_mask_pawns(self.board, side, isolated, 2, w, square as int);
            lemma_table_bounds();
            assert(0 <= flipped(square as int) < 64);
        }
        let mut score: i32 = 0;
        if (passed & opp) == 0 && (path & own) == 0 {
            score = score + self.tables.passed_score(s, square);
        }
        if (isolated & own) == 0 {
            score = score + ISOLATED_PAWN_SCORE;
        }
        *kingside_pawns = *kingside_pawns + KINGSIDE_DEFENSE[s][square];
        *queenside_pawns = *queenside_pawns + QUEENSIDE_DEFENSE[s][square];
        score
    }

    /// The open-file bonus of the rook of `side` on `square`: 20 on a file without
    /// pawns, 10 on a file with opposing pawns only, 0 otherwise.
    fn evaluate_rook(&self, side: Side, square: usize) -> (r: i32)
        requires
            self.board.wf(),
            square < 64,
        ensures
            r as int == rook_bonus(self.board.view(), side, square as int),
    {
        let s = side as usize;
        let o = side.opponent() as usize;
        let column = self.tables.file_mask(square, false);
        proof {
            assert(s as int == side_index(side));
            assert(o as int == side_index(side.spec_opponent()));
            assert forall|t: int| 0 <= t < 64 implies #[trigger] bit(column, t) == mask_at(3, true, square as int, t) by {}
            lemma_mask_pawns(self.board, side.spec_opponent(), column, 3, true, square as int);
            lemma_mask_pawns(self.board, side, column, 3, true, square as int);
        }
        if column & self.board.bit_pieces[s][0].0 == 0 {
            if column & self.board.bit_pieces[o][0].0 == 0 {
                return 20;
            }
            return 10;
        }
        0
    }
}


/// The running sums of a loop over the pieces of kind `p` of `side` on the
/// squares below `done`, where `rest` holds those at `done` and above.
pub open spec fn kind_loop_ok(v: Seq<Occupant>, side: Side, p: Piece, rest: u64, done: int, acc: int, ks: int, qs: int) -> bool {
    &&& 0 <= done <= 64
    &&& forall|f: int| 0 <= f < 64 ==> (#[trigger] bit(rest, f) == (done <= f && v[f] == Some((side, p))))
    &&& acc == score_sum(v, side, p, done)
    &&& -1500 * done <= acc <= 1500 * done
    &&& (p == Piece::Pawn ==> ks == shield_sum(v, side, true, done) && qs == shield_sum(v, side, false, done))
    &&& -200 * done <= ks <= 200 * done
    &&& -200 * done <= qs <= 200 * done
}

impl Position {
    /// The scores of the pieces of kind `p` of `side`, with, for pawns, their
    /// shield values for a king on the kingside and on the queenside.
    #[verifier::rlimit(40)]
    fn evaluate_kind(&self, side: Side, p: Piece) -> (r: (i32, i32, i32))
        requires
            self.board.wf(),
            p != Piece::King && p != Piece::Empty,
        ensures
            r.0 as int == score_sum(self.board.view(), side, p, 64),
            p == Piece::Pawn ==> r.1 as int == shield(self.board.view(), side, true) && r.2 as int == shield(self.board.view(), side, false),
            -96000 <= r.0 <= 96000,
            -12800 <= r.1 <= 12800,
            -12800 <= r.2 <= 12800,
    {
        let ghost v = self.board.view();
        let s = side as usize;
        let kind: usize = match p {
            Piece::Pawn => 0,
            Piece::Knight => 1,
            Piece::Bishop => 2,
            Piece::Rook => 3,
            _ => 4,
        };
        let mut rest = self.board.bit_pieces[s][kind];
        let mut acc: i32 = 0;
        let mut ks: i32 = 0;
        let mut qs: i32 = 0;
        let ghost mut done: int = 0;
        proof {
            assert(s as int == side_index(side));
            assert forall|f: int| 0 <= f < 64 implies (#[trigger] bit(rest.0, f) == (done <= f && v[f] == Some((side, p)))) by {
                lemma_wf_bits(self.board, f);
                assert(rest.has(f) == bit(rest.0, f));
            }
            lemma_table_bounds();
        }
        while rest.0 != 0
            invariant
                self.board.wf(),
                v == self.board.view(),
                s as int == side_index(side),
                p != Piece::King && p != Piece::Empty,
                kind < 5,
                crate::board::piece_of_index(kind as int) == p,
                kind_loop_ok(v, side, p, rest.0, done, acc as int, ks as int, qs as int),
            decreases rest.0,
        {
            let ghost old_rest = rest.0;
            proof {
                lemma_lowest_bit_facts(rest.0);
            }
            let f8 = rest.next_bit_mut();
            let f = f8 as usize;
            proof {
                assert(bit(old_rest, f as int));
                assert forall|i: int| done <= i < f as int implies #[trigger] v[i] != Some((side, p)) by {
                    assert(!bit(old_rest, i));
                }
                lemma_sums_gap(v, side, p, done, f as int);
                lemma_table_bounds();
                assert(0 <= crate::tables::flipped(f as int) < 64);
                assert(v[f as int] == Some((side, p)));
            }
            let base = self.tables.square_score(s, kind, f);
            let extra: i32 = if kind == 0 {
                self.evaluate_pawn(side, f, &mut ks, &mut qs)
            } else if kind == 3 {
                self.evaluate_rook(side, f)
            } else {
                0
            };
            acc = acc + base + extra;
            proof {
                let nd = f as int + 1;
                assert(piece_score(v, side, p, f as int) == base + extra);
                assert(score_sum(v, side, p, nd) == score_sum(v, side, p, f as int) + piece_score(v, side, p, f as int));
                assert(shield_sum(v, side, true, nd) == shield_sum(v, side, true, f as int) + (if v[f as int] == Some((side, Piece::Pawn)) { shield_value(side, true, f as int) } else { 0 }));
                assert(shield_sum(v, side, false, nd) == shield_sum(v, side, false, f as int) + (if v[f as int] == Some((side, Piece::Pawn)) { shield_value(side, false, f as int) } else { 0 }));
                done = nd;
                assert forall|g: int| 0 <= g < 64 implies (#[trigger] bit(rest.0, g) == (done <= g && v[g] == Some((side, p)))) by {
                    assert(rest.has(g) == bit(rest.0, g));
                    assert(bit(old_rest, g) == (done - 1 <= g && v[g] == Some((side, p))) || g < f as int);
                }
            }
        }
        proof {
            assert forall|i: int| done <= i < 64 implies #[trigger] v[i] != Some((side, p)) by {
                assert(!bit(rest.0, i)) by {
                    crate::bitboard::lemma_bit_ops(rest.0, rest.0, i);
                }
            }
            lemma_sums_gap(v, side, p, done, 64);
        }
        (acc, ks, qs)
    }
}


impl Position {
    /// The king term of `side`, given its pawn shields on the kingside (`ks`) and the queenside (`qs`).
    #[verifier::rlimit(40)]
    fn evaluate_king(&self, side: Side, ks: i32, qs: i32) -> (r: i32)
        requires
            self.board.wf(),
            has_queen(self.board.view(), side.spec_opponent()) || has_king(self.board.view(), side),
            ks as int == shield(self.board.view(), side, true),
            qs as int == shield(self.board.view(), side, false),
        ensures
            r as int == king_term(self.board.view(), side),
            -12800 <= r <= 12800 || r == ks || r == qs,
    {
        let ghost v = self.board.view();
        let s = side as usize;
        let o = side.opponent() as usize;
        let kings = self.board.bit_pieces[s][5];
        let queens = self.board.bit_pieces[o][4].0;
        proof {
            assert(s as int == side_index(side));
            assert(o as int == side_index(side.spec_opponent()));
            assert forall|f: int| 0 <= f < 64 implies #[trigger] kings.has(f) == (v[f] == Some((side, Piece::King))) by {
                lemma_wf_bits(self.board, f);
                assert(self.board.bit_pieces[s as int][5].has(f) == (v[f] == Some((crate::board::side_of_index(s as int), crate::board::piece_of_index(5)))));
            }
            assert forall|f: int| 0 <= f < 64 implies #[trigger] bit(queens, f) == (v[f] == Some((side.spec_opponent(), Piece::Queen))) by {
                lemma_wf_bits(self.board, f);
                assert(self.board.bit_pieces[o as int][4].has(f) == (v[f] == Some((crate::board::side_of_index(o as int), crate::board::piece_of_index(4)))));
            }
            crate::bitboard::lemma_zero_iff_no_bits(queens);
            crate::bitboard::lemma_zero_iff_no_bits(kings.0);
        }
        if queens == 0 {
            proof {
                if has_queen(v, side.spec_opponent()) {
                    let t = choose|t: int| 0 <= t < 64 && #[trigger] v[t] == Some((side.spec_opponent(), Piece::Queen));
                    assert(bit(queens, t));
                }
                let t = choose|t: int| 0 <= t < 64 && v[t] == Some((side, Piece::King));
                assert(kings.has(t));
            }
            let k = kings.next_bit() as usize;
            proof {
                assert forall|j: int| 0 <= j < k as int implies #[trigger] v[j] != Some((side, Piece::King)) by {
                    assert(!kings.has(j));
                }
                crate::rules::lemma_first_king(v, side, k as int);
            }
            return self.tables.king_endgame(s, k);
        }
        proof {
            let t = choose|t: int| 0 <= t < 64 && !#[trigger] bit(queens, t) == false;
            assert(v[t] == Some((side.spec_opponent(), Piece::Queen)));
        }
        let kingside = self.tables.wing_mask(true);
        let queenside = self.tables.wing_mask(false);
        proof {
            crate::bitboard::lemma_bit_ops_all(kings.0, kingside);
            crate::bitboard::lemma_bit_ops_all(kings.0, queenside);
            crate::bitboard::lemma_zero_iff_no_bits(kings.0 & kingside);
            crate::bitboard::lemma_zero_iff_no_bits(kings.0 & queenside);
            if king_on(v, side, true) {
                let t = choose|t: int| 0 <= t < 64 && #[trigger] v[t] == Some((side, Piece::King)) && on_wing(true, t);
                assert(kings.has(t));
                assert(bit(kingside, t));
                assert(bit(kings.0 & kingside, t));
            }
            if king_on(v, side, false) {
                let t = choose|t: int| 0 <= t < 64 && #[trigger] v[t] == Some((side, Piece::King)) && on_wing(false, t);
                assert(kings.has(t));
                assert(bit(queenside, t));
                assert(bit(kings.0 & queenside, t));
            }
        }
        if kings.0 & kingside != 0 {
            proof {
                let t = choose|t: int| 0 <= t < 64 && #[trigger] bit(kings.0 & kingside, t);
                assert(bit(kings.0 & kingside, t));
                assert(kings.has(t));
                assert(bit(kingside, t));
                assert(v[t] == Some((side, Piece::King)) && on_wing(true, t));
            }
            ks
        } else if kings.0 & queenside != 0 {
            proof {
                let t = choose|t: int| 0 <= t < 64 && #[trigger] bit(kings.0 & queenside, t);
                assert(bit(kings.0 & queenside, t));
                assert(kings.has(t));
                assert(bit(queenside, t));
                assert(v[t] == Some((side, Piece::King)) && on_wing(false, t));
            }
            qs
        } else {
            0
        }
    }

    /// The score of `side`: its pieces, their structure and its king term.
    fn evaluate_side(&self, side: Side) -> (r: i32)
        requires
            self.board.wf(),
            has_queen(self.board.view(), side.spec_opponent()) || has_king(self.board.view(), side),
        ensures
            r as int == side_score(self.board.view(), side),
            -500000 <= r <= 500000,
    {
        let (pawns, ks, qs) = self.evaluate_kind(side, Piece::Pawn);
        let (knights, _, _) = self.evaluate_kind(side, Piece::Knight);
        let (bishops, _, _) = self.evaluate_kind(side, Piece::Bishop);
        let (rooks, _, _) = self.evaluate_kind(side, Piece::Rook);
        let (queens, _, _) = self.evaluate_kind(side, Piece::Queen);
        let king = self.evaluate_king(side, ks, qs);
        pawns + knights + bishops + rooks + queens + king
    }

    /// The static evaluation of the position for the side to move: its score
    /// less the score of its opponent. Each side scores its pieces by
    /// their square tables, passed and isolated pawns, rooks on open and half-open
    /// files, and its king: by its endgame table once the opponent has no queen,
    /// else by the pawn shield of the wing it stands on.
    pub fn evaluate_position(&self) -> (r: i32)
        requires
            self.board.wf(),
            has_queen(self.board.view(), Side::Black) || has_king(self.board.view(), Side::White),
            has_queen(self.board.view(), Side::White) || has_king(self.board.view(), Side::Black),
        ensures
            r as int == evaluation(self.board.view(), self.side),
            r as int == if self.side == Side::White {
                side_score(self.board.view(), Side::White) - side_score(self.board.view(), Side::Black)
            } else {
                side_score(self.board.view(), Side::Black) - side_score(self.board.view(), Side::White)
            },
            -1_000_000 <= r <= 1_000_000,
    {
        let own = self.evaluate_side(self.side);
        let other = self.evaluate_side(self.side.opponent());
        own - other
    }
}

} // verus!
