use vstd::prelude::*;

use crate::bitboard::{bit, lemma_bit_ops, lemma_lowest_bit_facts, lemma_zero_iff_no_bits, lowest_bit};
use crate::board::{lemma_wf_bits, Occupant};
use crate::constants::{
    BISHOP_CAPTURE_SCORE, CAPTURE_SCORE, KING_CAPTURE_SCORE, KNIGHT_CAPTURE_SCORE, PAWN_CAPTURE_SCORE,
    QUEEN_CAPTURE_SCORE, ROOK_CAPTURE_SCORE,
};
use crate::tables::{double_index, left_index, plus_index, right_index};
use crate::geometry::{abs_diff, between, bishop_line, king_step, knight_jump, rook_line};
use crate::position::Position;
use crate::rules::{first_king, has_king, path_clear, piece_at};
use crate::tables::square_of;
use crate::types::{BitBoard, Move, Piece, Side, Square};

verus! {

/// The move list holds at `i` a move from `from` to `to` promoting to `promote`.
pub open spec fn move_at(ml: Seq<Option<Move>>, i: int, from: int, to: int, promote: Option<Piece>) -> bool {
    ml[i] matches Some(m) && m.from as int == from && m.to as int == to && m.promote == promote
}

/// The move list holds, between `lo` and `hi`, a move from `from` to `to` promoting to `promote`.
pub open spec fn has_move(ml: Seq<Option<Move>>, lo: int, hi: int, from: int, to: int, promote: Option<Piece>) -> bool {
    exists|i: int| lo <= i < hi && #[trigger] move_at(ml, i, from, to, promote)
}

/// Two entries of a move list name the same move: the same squares and the same promotion.
pub open spec fn same_move(x: Option<Move>, y: Option<Move>) -> bool {
    x matches Some(a) && y matches Some(b) && a.from as int == b.from as int && a.to as int == b.to as int
        && a.promote == b.promote
}

/// No move appears twice among the entries of `ml` in `[lo, hi)`.
pub open spec fn distinct_moves(ml: Seq<Option<Move>>, lo: int, hi: int) -> bool {
    forall|i: int, j: int| lo <= i < j < hi ==> !#[trigger] same_move(ml[i], ml[j])
}

/// The index of a piece in the capture score tables (`Empty` last).
pub open spec fn piece_index(p: Piece) -> int {
    p as int
}

/// The score of a capture on `to` with the given table: the table's entry for the
/// piece taken, raised above every quiet move.
pub open spec fn capture_score(table: [i32; 7], victim: Piece) -> isize {
    (table[piece_index(victim)] + CAPTURE_SCORE) as isize
}

/// The entries of a capture score table are small.
pub open spec fn table_ok(table: Option<[i32; 7]>) -> bool {
    table matches Some(t) ==> forall|i: int| 0 <= i < 7 ==> -1000 <= #[trigger] t[i] <= 1000
}

/// The move list `after` is `before` with new moves in `[lo, hi)`: the moves
/// outside the range are unchanged, and the list is at least `hi` long.
pub open spec fn only_filled(before: Seq<Option<Move>>, after: Seq<Option<Move>>, lo: int, hi: int) -> bool {
    &&& lo <= hi
    &&& hi <= after.len()
    &&& after.len() == (if before.len() >= hi { before.len() as int } else { hi })
    &&& forall|i: int| 0 <= i < before.len() && !(lo <= i < hi) ==> #[trigger] after[i] == before[i]
}

/// A move to `to` from `from` of the kind a bitboard of targets gives: a capture
/// scored with `table`, or, without one, a quiet move scored by the history table.
pub open spec fn target_move_ok(
    pos: Position,
    from: int,
    targets: u64,
    table: Option<[i32; 7]>,
    m: Move,
) -> bool {
    &&& m.from as int == from
    &&& 0 <= m.to as int
    &&& bit(targets, m.to as int)
    &&& m.promote is None
    &&& m.score == match table {
        Some(t) => capture_score(t, pos.board.value[m.to as int]),
        None => pos.history_table[from][m.to as int],
    }
}

impl Position {
    /// Puts a move at `idx` of the move list, appending it when `idx` is the list's length.
    fn put_move(&mut self, idx: usize, m: Move)
        requires
            idx <= old(self).move_list@.len(),
        ensures
            final(self).move_list@ == (if idx < old(self).move_list@.len() {
                old(self).move_list@.update(idx as int, Some(m))
            } else {
                old(self).move_list@.push(Some(m))
            }),
            *final(self) == (Position { move_list: final(self).move_list, ..*old(self) }),
    {
        if idx < self.move_list.len() {
            self.move_list[idx] = Some(m);
        } else {
            self.move_list.push(Some(m));
        }
    }

    /// Adds, for each square of `targets` from the lowest up, a move from `from`
    /// to it: a capture scored with `table` by the piece taken, or, without a
    /// table, a quiet move scored by the history table.
    fn add_target_moves(&mut self, from: usize, targets: u64, table: Option<[i32; 7]>, count: &mut usize)
        requires
            from < 64,
            table_ok(table),
            *old(count) <= old(self).move_list@.len(),
            *old(count) + 64 <= usize::MAX,
        ensures
            *final(self) == (Position { move_list: final(self).move_list, ..*old(self) }),
            *old(count) <= *final(count) <= *old(count) + 64,
            *final(count) <= final(self).move_list@.len(),
            targets_added(*old(self), final(self).move_list@, *old(count) as int, *final(count) as int, from as int, targets, table, 0),
    {
        let ghost pos = *self;
        let ghost start = *count;
        let from_square = square_of(from);
        let mut rest = BitBoard(targets);
        proof {
            reveal(targets_added);
        }
        while rest.0 != 0
            invariant
                *self == (Position { move_list: self.move_list, ..pos }),
                from < 64,
                from_square as int == from,
                table_ok(table),
                start <= *count <= start + 64,
                *count <= self.move_list@.len(),
                start + 64 <= usize::MAX,
                *count - start <= (if rest.0 == 0 { 64 } else { lowest_bit(rest.0) }),
                forall|t: int| 0 <= t < 64 && #[trigger] rest.has(t) ==> bit(targets, t),
                targets_added(pos, self.move_list@, start as int, *count as int, from as int, targets, table, rest.0),
            decreases rest.0,
        {
            let ghost old_rest = rest;
            proof {
                lemma_lowest_bit_facts(rest.0);
            }
            let t = rest.next_bit_mut() as usize;
            let to = square_of(t);
            let score: isize = match table {
                Some(tbl) => tbl[self.board.value[t] as usize] as isize + CAPTURE_SCORE as isize,
                None => self.history_table[from][t],
            };
            let m = Move { from: from_square, to, promote: None, score };
            let ghost before = self.move_list@;
            proof {
                if rest.0 != 0 {
                    lemma_lowest_bit_facts(rest.0);
                }
            }
            self.put_move(*count, m);
            *count = *count + 1;
            proof {
                lemma_target_added(pos, before, self.move_list@, start as int, (*count - 1) as int, from as int, targets, table, old_rest.0, rest.0, m);
            }
        }
        proof {
            lemma_zero_iff_no_bits(rest.0);
        }
    }
}

/// The moves in `[lo, hi)` of the move list `ml` are moves from `from` to
/// squares of `targets` outside `rest`, every such square has a move there, and
/// the list is the one of `pos` otherwise.
#[verifier::opaque]
pub open spec fn targets_added(
    pos: Position,
    ml: Seq<Option<Move>>,
    lo: int,
    hi: int,
    from: int,
    targets: u64,
    table: Option<[i32; 7]>,
    rest: u64,
) -> bool {
    &&& only_filled(pos.move_list@, ml, lo, hi)
    &&& forall|i: int|
        lo <= i < hi ==> (#[trigger] ml[i] matches Some(m) && target_move_ok(pos, from, targets, table, m) && !bit(rest, m.to as int))
    &&& forall|t: int| 0 <= t < 64 && bit(targets, t) && !bit(rest, t) ==> #[trigger] has_move(ml, lo, hi, from, t, None)
    &&& distinct_moves(ml, lo, hi)
}

/// Adding the move to the lowest square left keeps `targets_added`.
#[verifier::spinoff_prover]
proof fn lemma_target_added(
    pos: Position,
    before: Seq<Option<Move>>,
    after: Seq<Option<Move>>,
    lo: int,
    n: int,
    from: int,
    targets: u64,
    table: Option<[i32; 7]>,
    old_rest: u64,
    rest: u64,
    m: Move,
)
    requires
        targets_added(pos, before, lo, n, from, targets, table, old_rest),
        0 <= lo <= n,
        n <= before.len(),
        after == (if n < before.len() { before.update(n, Some(m)) } else { before.push(Some(m)) }),
        target_move_ok(pos, from, targets, table, m),
        bit(old_rest, m.to as int),
        m.to as int <= 63,
        forall|i: int| 0 <= i < 64 ==> #[trigger] bit(rest, i) == (bit(old_rest, i) && i != m.to as int),
    ensures
        targets_added(pos, after, lo, n + 1, from, targets, table, rest),
        n + 1 <= after.len(),
{
    reveal(targets_added);
    assert(after[n] == Some(m));
    assert(move_at(after, n, from, m.to as int, None));
    assert forall|t: int| 0 <= t < 64 && bit(targets, t) && !bit(rest, t) implies #[trigger] has_move(after, lo, n + 1, from, t, None) by {
        if t != m.to as int {
            assert(has_move(before, lo, n, from, t, None));
            let i = choose|i: int| lo <= i < n && #[trigger] move_at(before, i, from, t, None);
            assert(after[i] == before[i]);
            assert(move_at(after, i, from, t, None));
        }
    }
    assert forall|i: int| lo <= i < n + 1 implies (#[trigger] after[i] matches Some(mm) && target_move_ok(pos, from, targets, table, mm) && !bit(rest, mm.to as int)) by {
        if i < n {
            assert(after[i] == before[i]);
        }
    }
    assert forall|i: int, j: int| lo <= i < j < n + 1 implies !#[trigger] same_move(after[i], after[j]) by {
        assert(after[i] == before[i]);
        if j < n {
            assert(after[j] == before[j]);
            assert(!same_move(before[i], before[j]));
        } else {
            assert(before[i] matches Some(mm) && !bit(old_rest, mm.to as int));
        }
    }
}

/// A piece of kind `kind` on `f` reaches `t` on the board `v`: a knight or king
/// by its step, a bishop, rook or queen along a line with nothing in between.
pub open spec fn reaches(v: Seq<Occupant>, kind: Piece, f: int, t: int) -> bool {
    match kind {
        Piece::Knight => knight_jump(f, t),
        Piece::Bishop => bishop_line(f, t) && path_clear(v, f, t),
        Piece::Rook => rook_line(f, t) && path_clear(v, f, t),
        Piece::Queen => (rook_line(f, t) || bishop_line(f, t)) && path_clear(v, f, t),
        Piece::King => king_step(f, t),
        _ => false,
    }
}

/// The capture scores of a piece kind, by the piece taken.
pub open spec fn capture_table(kind: Piece) -> [i32; 7] {
    match kind {
        Piece::Knight => KNIGHT_CAPTURE_SCORE,
        Piece::Bishop => BISHOP_CAPTURE_SCORE,
        Piece::Rook => ROOK_CAPTURE_SCORE,
        Piece::Queen => QUEEN_CAPTURE_SCORE,
        _ => KING_CAPTURE_SCORE,
    }
}

/// A unit of `side` stands on the square.
pub open spec fn unit_of(v: Seq<Occupant>, side: Side, t: int) -> bool {
    v[t] matches Some((x, _)) && x == side
}

/// A square the piece of kind `kind` of `side` on `f` moves to: one it reaches
/// holding an opposing unit, or, unless only captures are asked for, an empty one.
pub open spec fn piece_target(pos: Position, side: Side, kind: Piece, captures_only: bool, f: int, t: int) -> bool {
    let v = pos.board.view();
    &&& 0 <= t < 64
    &&& reaches(v, kind, f, t)
    &&& (unit_of(v, side.spec_opponent(), t) || (!captures_only && v[t] is None))
}

/// The move `m` is one of the piece of kind `kind` of `side` on `f`, with its
/// score: a capture scored by the kind's table, a quiet move by the history table.
pub open spec fn piece_move_ok(pos: Position, side: Side, kind: Piece, captures_only: bool, f: int, m: Move) -> bool {
    let v = pos.board.view();
    let t = m.to as int;
    &&& m.from as int == f
    &&& m.promote is None
    &&& piece_target(pos, side, kind, captures_only, f, t)
    &&& m.score == (if v[t] is Some {
        capture_score(capture_table(kind), pos.board.value[t])
    } else {
        pos.history_table[f][t]
    })
}

/// What a loop over the pieces of a side adds: the moves of a knight, bishop,
/// rook, queen or king, the captures of a pawn towards the a-file or the h-file,
/// or the moves of a pawn forward.
#[derive(Clone, Copy, PartialEq, Eq, Structural)]
pub enum Category {
    PieceMoves(Piece),
    PawnCaptures(bool),
    PawnPushes,
}

/// The kind of piece whose moves a category holds.
pub open spec fn category_piece(cat: Category) -> Piece {
    match cat {
        Category::PieceMoves(k) => k,
        _ => Piece::Pawn,
    }
}

/// The rank of `f` counted from the side (0 on its first rank).
pub open spec fn rel_rank(side: Side, f: int) -> int {
    if side == Side::White {
        f / 8
    } else {
        7 - f / 8
    }
}

/// The promotion a pawn move names: one of queen, rook, bishop or knight when
/// the pawn reaches the last rank, none otherwise.
pub open spec fn promotion_ok(promotes: bool, p: Option<Piece>) -> bool {
    if promotes {
        p == Some(Piece::Queen) || p == Some(Piece::Rook) || p == Some(Piece::Bishop) || p == Some(Piece::Knight)
    } else {
        p is None
    }
}

/// The pawn of `side` on `f` captures towards the h-file (`right`) or the
/// a-file on `t`, promoting to `p`.
pub open spec fn pawn_capture_target(pos: Position, side: Side, f: int, t: int, p: Option<Piece>, right: bool) -> bool {
    let v = pos.board.view();
    let w = side == Side::White;
    &&& v[f] == Some((side, Piece::Pawn))
    &&& t == (if right { right_index(w, f) } else { left_index(w, f) })
    &&& 0 <= t < 64
    &&& unit_of(v, side.spec_opponent(), t)
    &&& promotion_ok(rel_rank(side, f) == 6, p)
}

/// The pawn of `side` on `f` moves forward to `t`, one step onto an empty square
/// (promoting to `p` on the last rank) or, from its second rank, two steps over
/// empty squares.
pub open spec fn pawn_push_target(pos: Position, side: Side, f: int, t: int, p: Option<Piece>) -> bool {
    let v = pos.board.view();
    let w = side == Side::White;
    let one = plus_index(w, f);
    &&& v[f] == Some((side, Piece::Pawn))
    &&& 0 <= one < 64
    &&& v[one] is None
    &&& ((t == one && promotion_ok(rel_rank(side, f) == 6, p)) || (rel_rank(side, f) == 1 && t == double_index(w, f)
        && v[t] is None && p is None))
}

/// A move of the category from `f` to `t` promoting to `p` (quiet moves left out
/// when only captures are asked for).
pub open spec fn cat_target(pos: Position, side: Side, cat: Category, captures_only: bool, f: int, t: int, p: Option<Piece>) -> bool {
    match cat {
        Category::PieceMoves(k) => p is None && piece_target(pos, side, k, captures_only, f, t),
        Category::PawnCaptures(right) => pawn_capture_target(pos, side, f, t, p, right),
        Category::PawnPushes => !captures_only && pawn_push_target(pos, side, f, t, p),
    }
}

/// The score a move of the category gets: a capture by the table of the moving
/// piece and the piece taken, a quiet move by the history table.
pub open spec fn cat_score(pos: Position, cat: Category, f: int, t: int) -> isize {
    match cat {
        Category::PieceMoves(k) => if pos.board.view()[t] is Some {
            capture_score(capture_table(k), pos.board.value[t])
        } else {
            pos.history_table[f][t]
        },
        Category::PawnCaptures(_) => capture_score(PAWN_CAPTURE_SCORE, pos.board.value[t]),
        Category::PawnPushes => pos.history_table[f][t],
    }
}

/// `m` is a move of the category from `f`, with its score.
pub open spec fn cat_move_ok(pos: Position, side: Side, cat: Category, captures_only: bool, f: int, m: Move) -> bool {
    &&& m.from as int == f
    &&& 0 <= m.to as int
    &&& cat_target(pos, side, cat, captures_only, f, m.to as int, m.promote)
    &&& m.score == cat_score(pos, cat, f, m.to as int)
}

/// The moves in `[lo, hi)` of `ml` are moves of the category from `f`, every
/// such move is there, and the list is the one of `pos` otherwise.
#[verifier::opaque]
pub open spec fn from_added(
    pos: Position,
    ml: Seq<Option<Move>>,
    lo: int,
    hi: int,
    side: Side,
    cat: Category,
    captures_only: bool,
    f: int,
) -> bool {
    &&& only_filled(pos.move_list@, ml, lo, hi)
    &&& forall|i: int| lo <= i < hi ==> (#[trigger] ml[i] matches Some(m) && cat_move_ok(pos, side, cat, captures_only, f, m))
    &&& forall|t: int, p: Option<Piece>|
        #[trigger] cat_target(pos, side, cat, captures_only, f, t, p) ==> has_move(ml, lo, hi, f, t, p)
    &&& distinct_moves(ml, lo, hi)
}

/// The tables of capture scores of the pieces hold small numbers.
proof fn lemma_capture_tables_ok(kind: Piece)
    ensures
        table_ok(Some(capture_table(kind))),
{
}

impl Position {
    /// The squares of `lines` that the piece on `f` reaches with nothing in between.
    fn clear_line_targets(&self, f: usize, lines: u64) -> (r: u64)
        requires
            self.board.wf(),
            f < 64,
        ensures
            forall|t: int| 0 <= t < 64 ==> #[trigger] bit(r, t) == (bit(lines, t) && path_clear(self.board.view(), f as int, t)),
    {
        let ghost v = self.board.view();
        let all = self.board.bit_all.0;
        let mut rest = BitBoard(lines);
        let mut r: u64 = 0;
        proof {
            assert forall|t: int| 0 <= t < 64 implies !#[trigger] bit(r, t) by {
                lemma_bit_ops(0u64, 0u64, t);
            }
        }
        while rest.0 != 0
            invariant
                self.board.wf(),
                v == self.board.view(),
                all == self.board.bit_all.0,
                f < 64,
                forall|t: int| 0 <= t < 64 ==> #[trigger] rest.has(t) ==> bit(lines, t),
                forall|t: int| 0 <= t < 64 ==> #[trigger] bit(r, t) == (bit(lines, t) && !rest.has(t) && path_clear(v, f as int, t)),
            decreases rest.0,
        {
            let t = rest.next_bit_mut() as usize;
            let between_bits = self.tables.between_bits(f, t);
            let blocked = between_bits & all;
            proof {
                if blocked != 0 {
                    let x = crate::position::lemma_common_bit(between_bits, all);
                    lemma_wf_bits(self.board, x);
                } else {
                    assert forall|x: int| 0 <= x < 64 && between(f as int, t as int, x) implies #[trigger] v[x] is None by {
                        lemma_wf_bits(self.board, x);
                        crate::position::lemma_no_common_bit(between_bits, all, x);
                    }
                }
            }
            if blocked == 0 {
                let ghost r0 = r;
                r = r | (1u64 << (t as u64));
                proof {
                    assert forall|i: int| 0 <= i < 64 implies #[trigger] bit(r, i) == (bit(r0, i) || i == t) by {
                        crate::bitboard::lemma_bit_set(r0, t as u64, i as u64);
                    }
                }
            }
        }
        proof {
            lemma_zero_iff_no_bits(rest.0);
        }
        r
    }

    /// The squares the piece of kind `kind` on `f` reaches (for a bishop, rook or
    /// queen, along its lines up to the first piece).
    fn reach_targets(&self, kind: Piece, f: usize) -> (r: u64)
        requires
            self.board.wf(),
            f < 64,
            kind == Piece::Knight || kind == Piece::Bishop || kind == Piece::Rook || kind == Piece::Queen
                || kind == Piece::King,
        ensures
            forall|t: int| 0 <= t < 64 ==> #[trigger] bit(r, t) == reaches(self.board.view(), kind, f as int, t),
    {
        match kind {
            Piece::Knight => self.tables.knight_moves(f),
            Piece::King => self.tables.king_moves(f),
            Piece::Bishop => {
                let lines = self.tables.bishop_moves(f);
                self.clear_line_targets(f, lines)
            },
            Piece::Rook => {
                let lines = self.tables.rook_moves(f);
                self.clear_line_targets(f, lines)
            },
            _ => {
                let rook_lines = self.tables.rook_moves(f);
                let bishop_lines = self.tables.bishop_moves(f);
                let lines = rook_lines | bishop_lines;
                proof {
                    assert forall|t: int| 0 <= t < 64 implies #[trigger] bit(lines, t) == (rook_line(f as int, t) || bishop_line(f as int, t)) by {
                        lemma_bit_ops(rook_lines, bishop_lines, t);
                    }
                }
                self.clear_line_targets(f, lines)
            },
        }
    }

    /// Adds the moves of the piece of kind `kind` of `side` on `f`: its captures
    /// first, then (unless only captures are asked for) its moves to empty squares,
    /// each from the lowest square up.
    fn add_moves_from(&mut self, f: usize, kind: Piece, side: Side, captures_only: bool, count: &mut usize)
        requires
            old(self).board.wf(),
            f < 64,
            kind == Piece::Knight || kind == Piece::Bishop || kind == Piece::Rook || kind == Piece::Queen
                || kind == Piece::King,
            *old(count) <= old(self).move_list@.len(),
            *old(count) + 128 <= usize::MAX,
        ensures
            *final(self) == (Position { move_list: final(self).move_list, ..*old(self) }),
            *old(count) <= *final(count) <= *old(count) + 128,
            *final(count) <= final(self).move_list@.len(),
            from_added(*old(self), final(self).move_list@, *old(count) as int, *final(count) as int, side, Category::PieceMoves(kind), captures_only, f as int),
    {
        let ghost pos = *self;
        let ghost start = *count;
        let reach = self.reach_targets(kind, f);
        let opp_units = self.board.bit_units[side.opponent() as usize].0;
        let empty = !self.board.bit_all.0;
        let captures = reach & opp_units;
        let quiet = reach & empty;
        proof {
            assert(opp_units == pos.board.bit_units[side.spec_opponent() as int].0);
        }
        let table = match kind {
            Piece::Knight => KNIGHT_CAPTURE_SCORE,
            Piece::Bishop => BISHOP_CAPTURE_SCORE,
            Piece::Rook => ROOK_CAPTURE_SCORE,
            Piece::Queen => QUEEN_CAPTURE_SCORE,
            _ => KING_CAPTURE_SCORE,
        };
        proof {
            lemma_capture_tables_ok(kind);
        }
        self.add_target_moves(f, captures, Some(table), count);
        let ghost mid = *count;
        let ghost p1 = *self;
        if !captures_only {
            self.add_target_moves(f, quiet, None, count);
        }
        proof {
            assert forall|t: int| 0 <= t < 64 implies #[trigger] bit(captures, t) == (bit(reach, t) && bit(opp_units, t)) by {
                lemma_bit_ops(reach, opp_units, t);
            }
            assert forall|t: int| 0 <= t < 64 implies #[trigger] bit(quiet, t) == (bit(reach, t) && !bit(pos.board.bit_all.0, t)) by {
                lemma_bit_ops(reach, empty, t);
                lemma_bit_ops(pos.board.bit_all.0, 0, t);
            }
            lemma_from_added(pos, p1, self.move_list@, start as int, mid as int, *count as int, side, kind, captures_only,
                f as int, reach, captures, quiet);
        }
    }
}

/// The captures and then the quiet moves of a piece together are its moves.
#[verifier::spinoff_prover]
#[verifier::rlimit(100)]
proof fn lemma_from_added(
    pos: Position,
    p1: Position,
    ml2: Seq<Option<Move>>,
    lo: int,
    mid: int,
    hi: int,
    side: Side,
    kind: Piece,
    captures_only: bool,
    f: int,
    reach: u64,
    captures: u64,
    quiet: u64,
)
    requires
        pos.board.wf(),
        0 <= f < 64,
        0 <= lo,
        p1 == (Position { move_list: p1.move_list, ..pos }),
        forall|t: int| 0 <= t < 64 ==> #[trigger] bit(reach, t) == reaches(pos.board.view(), kind, f, t),
        forall|t: int|
            0 <= t < 64 ==> #[trigger] bit(captures, t) == (bit(reach, t) && bit(
                pos.board.bit_units[side.spec_opponent() as int].0,
                t,
            )),
        forall|t: int| 0 <= t < 64 ==> #[trigger] bit(quiet, t) == (bit(reach, t) && !bit(pos.board.bit_all.0, t)),
        targets_added(pos, p1.move_list@, lo, mid, f, captures, Some(capture_table(kind)), 0),
        captures_only ==> ml2 == p1.move_list@ && hi == mid,
        !captures_only ==> targets_added(p1, ml2, mid, hi, f, quiet, None, 0),
    ensures
        from_added(pos, ml2, lo, hi, side, Category::PieceMoves(kind), captures_only, f),
{
    reveal(targets_added);
    reveal(from_added);
    let cat = Category::PieceMoves(kind);
    let v = pos.board.view();
    let ml1 = p1.move_list@;
    let o = side.spec_opponent();
    let oi = o as int;
    let opp_bits = pos.board.bit_units[oi].0;
    assert forall|t: int| 0 <= t < 64 implies #[trigger] bit(opp_bits, t) == unit_of(v, o, t)
        && bit(pos.board.bit_all.0, t) == v[t] is Some by {
        lemma_wf_bits(pos.board, t);
    }
    if !captures_only {
        assert forall|i: int| lo <= i < mid implies #[trigger] ml2[i] == ml1[i] by {}
    }
    assert forall|i: int| lo <= i < hi implies (#[trigger] ml2[i] matches Some(m) && cat_move_ok(pos, side, cat, captures_only, f, m)) by {
        if i < mid {
            assert(ml2[i] == ml1[i]);
            let m = ml1[i]->Some_0;
            assert(target_move_ok(pos, f, captures, Some(capture_table(kind)), m));
            assert(bit(captures, m.to as int));
            assert(unit_of(v, o, m.to as int));
            assert(piece_target(pos, side, kind, captures_only, f, m.to as int));
            assert(cat_target(pos, side, cat, captures_only, f, m.to as int, m.promote));
        } else {
            let m = ml2[i]->Some_0;
            assert(target_move_ok(p1, f, quiet, None, m));
            assert(bit(quiet, m.to as int));
            assert(v[m.to as int] is None);
            assert(piece_target(pos, side, kind, captures_only, f, m.to as int));
            assert(cat_target(pos, side, cat, captures_only, f, m.to as int, m.promote));
        }
    }
    assert forall|t: int, p: Option<Piece>| #[trigger] cat_target(pos, side, cat, captures_only, f, t, p) implies has_move(ml2, lo, hi, f, t, p) by {
        lemma_bit_ops(0u64, 0u64, t);
        if unit_of(v, o, t) {
            assert(bit(captures, t));
            assert(has_move(ml1, lo, mid, f, t, None));
            let i = choose|i: int| lo <= i < mid && #[trigger] move_at(ml1, i, f, t, None);
            assert(ml2[i] == ml1[i]);
            assert(move_at(ml2, i, f, t, None));
        } else {
            assert(bit(quiet, t));
            assert(has_move(ml2, mid, hi, f, t, None));
            let i = choose|i: int| mid <= i < hi && #[trigger] move_at(ml2, i, f, t, None);
            assert(move_at(ml2, i, f, t, None));
        }
    }
    assert forall|i: int, j: int| lo <= i < j < hi implies !#[trigger] same_move(ml2[i], ml2[j]) by {
        if j < mid {
            assert(ml2[i] == ml1[i] && ml2[j] == ml1[j]);
            assert(!same_move(ml1[i], ml1[j]));
        } else if i >= mid {
            assert(!same_move(ml2[i], ml2[j]));
        } else {
            assert(ml2[i] == ml1[i]);
            let mi = ml1[i]->Some_0;
            let mj = ml2[j]->Some_0;
            assert(target_move_ok(pos, f, captures, Some(capture_table(kind)), mi));
            assert(bit(captures, mi.to as int));
            assert(unit_of(v, o, mi.to as int));
            assert(target_move_ok(p1, f, quiet, None, mj));
            assert(bit(quiet, mj.to as int));
            assert(v[mj.to as int] is None);
        }
    }
}

/// The moves in `[lo, hi)` of `ml` are the moves of the category from the
/// squares of the pieces of `side` outside `rest`, and the list is the one of
/// `pos` otherwise.
#[verifier::opaque]
pub open spec fn cat_added(
    pos: Position,
    ml: Seq<Option<Move>>,
    lo: int,
    hi: int,
    side: Side,
    cat: Category,
    captures_only: bool,
    rest: u64,
) -> bool {
    let v = pos.board.view();
    &&& only_filled(pos.move_list@, ml, lo, hi)
    &&& forall|i: int|
        lo <= i < hi ==> (#[trigger] ml[i] matches Some(m) && 0 <= m.from as int && v[m.from as int] == Some(
            (side, category_piece(cat)),
        ) && !bit(rest, m.from as int) && cat_move_ok(pos, side, cat, captures_only, m.from as int, m))
    &&& forall|f: int, t: int, p: Option<Piece>|
        0 <= f < 64 && v[f] == Some((side, category_piece(cat))) && !bit(rest, f) && #[trigger] cat_target(
            pos,
            side,
            cat,
            captures_only,
            f,
            t,
            p,
        ) ==> has_move(ml, lo, hi, f, t, p)
    &&& distinct_moves(ml, lo, hi)
}

/// Filling `[lo, n)` and then `[n, n2)` fills `[lo, n2)`.
pub proof fn lemma_only_filled_trans(a: Seq<Option<Move>>, b: Seq<Option<Move>>, c: Seq<Option<Move>>, lo: int, n: int, n2: int)
    requires
        0 <= lo,
        only_filled(a, b, lo, n),
        only_filled(b, c, n, n2),
    ensures
        only_filled(a, c, lo, n2),
        forall|i: int| lo <= i < n ==> #[trigger] c[i] == b[i],
{
}

/// Adding the moves of one more piece keeps `cat_added`.
#[verifier::spinoff_prover]
#[verifier::rlimit(40)]
proof fn lemma_cat_step(
    pos: Position,
    p1: Position,
    ml2: Seq<Option<Move>>,
    lo: int,
    n: int,
    n2: int,
    side: Side,
    cat: Category,
    captures_only: bool,
    old_rest: u64,
    rest: u64,
    f: int,
)
    requires
        0 <= lo <= n,
        0 <= f < 64,
        cat_added(pos, p1.move_list@, lo, n, side, cat, captures_only, old_rest),
        p1 == (Position { move_list: p1.move_list, ..pos }),
        from_added(p1, ml2, n, n2, side, cat, captures_only, f),
        pos.board.view()[f] == Some((side, category_piece(cat))),
        bit(old_rest, f),
        forall|i: int| 0 <= i < 64 ==> #[trigger] bit(rest, i) == (bit(old_rest, i) && i != f),
    ensures
        cat_added(pos, ml2, lo, n2, side, cat, captures_only, rest),
{
    reveal(cat_added);
    reveal(from_added);
    let ml1 = p1.move_list@;
    let v = pos.board.view();
    lemma_only_filled_trans(pos.move_list@, ml1, ml2, lo, n, n2);
    assert forall|i: int| lo <= i < n2 implies (#[trigger] ml2[i] matches Some(m) && 0 <= m.from as int && v[m.from as int]
        == Some((side, category_piece(cat))) && !bit(rest, m.from as int) && cat_move_ok(pos, side, cat, captures_only, m.from as int, m)) by {
        if i < n {
            assert(ml2[i] == ml1[i]);
            assert(ml1[i] matches Some(m) && !bit(old_rest, m.from as int));
        } else {
            assert(ml2[i] matches Some(m) && cat_move_ok(p1, side, cat, captures_only, f, m));
        }
    }
    assert forall|j: int| n <= j < n2 implies (#[trigger] ml2[j] matches Some(m) && m.from as int == f) by {
        assert(ml2[j] matches Some(m) && cat_move_ok(p1, side, cat, captures_only, f, m));
    }
    lemma_from_apart(ml1, ml2, lo, n, n2, old_rest, f);
    lemma_cat_complete(pos, p1, ml2, lo, n, n2, side, cat, captures_only, old_rest, rest, f);
}

/// Moves from squares already done, then moves from a square not done yet,
/// each part without a move twice, hold no move twice.
proof fn lemma_from_apart(ml1: Seq<Option<Move>>, ml2: Seq<Option<Move>>, lo: int, n: int, n2: int, old_rest: u64, f: int)
    requires
        distinct_moves(ml1, lo, n),
        distinct_moves(ml2, n, n2),
        forall|i: int| lo <= i < n ==> #[trigger] ml2[i] == ml1[i],
        forall|i: int| lo <= i < n ==> (#[trigger] ml1[i] matches Some(m) && !bit(old_rest, m.from as int)),
        forall|j: int| n <= j < n2 ==> (#[trigger] ml2[j] matches Some(m) && m.from as int == f),
        bit(old_rest, f),
    ensures
        distinct_moves(ml2, lo, n2),
{
    assert forall|i: int, j: int| lo <= i < j < n2 implies !#[trigger] same_move(ml2[i], ml2[j]) by {
        if j < n {
            assert(ml2[i] == ml1[i] && ml2[j] == ml1[j]);
            assert(!same_move(ml1[i], ml1[j]));
        } else if i >= n {
            assert(!same_move(ml2[i], ml2[j]));
        } else {
            assert(ml2[i] == ml1[i]);
            assert(ml1[i] matches Some(m) && !bit(old_rest, m.from as int));
            assert(ml2[j] matches Some(m) && m.from as int == f);
        }
    }
}

#[verifier::spinoff_prover]
proof fn lemma_cat_complete(
    pos: Position,
    p1: Position,
    ml2: Seq<Option<Move>>,
    lo: int,
    n: int,
    n2: int,
    side: Side,
    cat: Category,
    captures_only: bool,
    old_rest: u64,
    rest: u64,
    f: int,
)
    requires
        0 <= lo <= n <= n2,
        0 <= f < 64,
        p1 == (Position { move_list: p1.move_list, ..pos }),
        forall|i: int| lo <= i < n ==> #[trigger] ml2[i] == p1.move_list@[i],
        forall|g: int, t: int, p: Option<Piece>|
            0 <= g < 64 && pos.board.view()[g] == Some((side, category_piece(cat))) && !bit(old_rest, g) && #[trigger] cat_target(pos, side, cat, captures_only, g, t, p)
                ==> has_move(p1.move_list@, lo, n, g, t, p),
        forall|t: int, p: Option<Piece>| #[trigger] cat_target(p1, side, cat, captures_only, f, t, p) ==> has_move(ml2, n, n2, f, t, p),
        forall|i: int| 0 <= i < 64 ==> #[trigger] bit(rest, i) == (bit(old_rest, i) && i != f),
    ensures
        forall|g: int, t: int, p: Option<Piece>|
            0 <= g < 64 && pos.board.view()[g] == Some((side, category_piece(cat))) && !bit(rest, g) && #[trigger] cat_target(pos, side, cat, captures_only, g, t, p)
                ==> has_move(ml2, lo, n2, g, t, p),
{
    let ml1 = p1.move_list@;
    assert forall|g: int, t: int, p: Option<Piece>|
        0 <= g < 64 && pos.board.view()[g] == Some((side, category_piece(cat))) && !bit(rest, g) && #[trigger] cat_target(pos, side, cat, captures_only, g, t, p)
        implies has_move(ml2, lo, n2, g, t, p) by {
        if g == f {
            assert(cat_target(p1, side, cat, captures_only, f, t, p));
            assert(has_move(ml2, n, n2, f, t, p));
            let i = choose|i: int| n <= i < n2 && #[trigger] move_at(ml2, i, f, t, p);
            assert(move_at(ml2, i, g, t, p));
            assert(lo <= i < n2);
        } else {
            assert(!bit(old_rest, g));
            assert(has_move(ml1, lo, n, g, t, p));
            let i = choose|i: int| lo <= i < n && #[trigger] move_at(ml1, i, g, t, p);
            assert(ml2[i] == ml1[i]);
            assert(move_at(ml2, i, g, t, p));
            assert(lo <= i < n2);
        }
    }
}

impl Position {
    /// Adds the moves of the category from one square.
    fn add_cat_moves_from(&mut self, f: usize, side: Side, cat: Category, captures_only: bool, count: &mut usize)
        requires
            old(self).board.wf(),
            f < 64,
            cat_ok(cat),
            old(self).board.view()[f as int] == Some((side, category_piece(cat))),
            *old(count) <= old(self).move_list@.len(),
            *old(count) + 128 <= usize::MAX,
        ensures
            *final(self) == (Position { move_list: final(self).move_list, ..*old(self) }),
            *old(count) <= *final(count) <= *old(count) + 128,
            *final(count) <= final(self).move_list@.len(),
            from_added(*old(self), final(self).move_list@, *old(count) as int, *final(count) as int, side, cat, captures_only, f as int),
    {
        match cat {
            Category::PieceMoves(kind) => {
                self.add_moves_from(f, kind, side, captures_only, count);
                proof {
                    assert(cat == Category::PieceMoves(kind));
                }
            },
            Category::PawnCaptures(right) => {
                self.add_pawn_captures_from(f, side, right, count);
                proof {
                    reveal(from_added);
                    assert forall|t: int, p: Option<Piece>| #[trigger] cat_target(*old(self), side, cat, captures_only, f as int, t, p)
                        implies has_move(self.move_list@, *old(count) as int, *count as int, f as int, t, p) by {
                        assert(cat_target(*old(self), side, cat, false, f as int, t, p));
                    }
                    assert forall|i: int| *old(count) <= i < *count implies (#[trigger] self.move_list@[i] matches Some(m)
                        && cat_move_ok(*old(self), side, cat, captures_only, f as int, m)) by {
                        assert(self.move_list@[i] matches Some(m) && cat_move_ok(*old(self), side, cat, false, f as int, m));
                    }
                }
            },
            Category::PawnPushes => {
                if !captures_only {
                    self.add_pawn_pushes_from(f, side, count);
                } else {
                    proof {
                        reveal(from_added);
                    }
                }
            },
        }
    }

    /// Adds the moves of the category from every square holding a piece of its
    /// kind of `side`, from the lowest square up.
    fn add_cat_moves(&mut self, side: Side, cat: Category, captures_only: bool, count: &mut usize)
        requires
            old(self).board.wf(),
            cat_ok(cat),
            !(cat matches Category::PieceMoves(k) && k == Piece::King),
            *old(count) <= old(self).move_list@.len(),
            *old(count) + 8192 <= usize::MAX,
        ensures
            *final(self) == (Position { move_list: final(self).move_list, ..*old(self) }),
            *old(count) <= *final(count) <= *old(count) + 8192,
            *final(count) <= final(self).move_list@.len(),
            cat_added(*old(self), final(self).move_list@, *old(count) as int, *final(count) as int, side, cat, captures_only, 0),
    {
        let ghost pos = *self;
        let ghost start = *count;
        let ghost v = pos.board.view();
        let kind = match cat {
            Category::PieceMoves(k) => k,
            _ => Piece::Pawn,
        };
        let mut pieces = self.board.bit_pieces[side as usize][kind as usize];
        proof {
            reveal(cat_added);
            assert forall|f: int| 0 <= f < 64 implies #[trigger] pieces.has(f) == (v[f] == Some((side, kind))) by {
                lemma_wf_bits(pos.board, f);
            }
            assert forall|f: int, t: int, p: Option<Piece>|
                0 <= f < 64 && v[f] == Some((side, category_piece(cat))) && !bit(pieces.0, f) && #[trigger] cat_target(pos, side, cat, captures_only, f, t, p)
                implies has_move(self.move_list@, start as int, *count as int, f, t, p) by {
                assert(pieces.has(f));
            }
            assert(only_filled(pos.move_list@, self.move_list@, start as int, *count as int));
            assert(cat_added(pos, self.move_list@, start as int, *count as int, side, cat, captures_only, pieces.0));
        }
        while pieces.0 != 0
            invariant
                *self == (Position { move_list: self.move_list, ..pos }),
                pos.board.wf(),
                v == pos.board.view(),
                cat_ok(cat),
                kind == category_piece(cat),
                start <= *count <= start + 8192,
                start + 8192 <= usize::MAX,
                *count <= self.move_list@.len(),
                *count - start <= 128 * (if pieces.0 == 0 { 64 } else { lowest_bit(pieces.0) }),
                forall|f: int| 0 <= f < 64 ==> #[trigger] pieces.has(f) ==> v[f] == Some((side, kind)),
                cat_added(pos, self.move_list@, start as int, *count as int, side, cat, captures_only, pieces.0),
            decreases pieces.0,
        {
            let ghost old_pieces = pieces;
            proof {
                lemma_lowest_bit_facts(pieces.0);
            }
            let f = pieces.next_bit_mut() as usize;
            proof {
                if pieces.0 != 0 {
                    lemma_lowest_bit_facts(pieces.0);
                }
            }
            let ghost p1 = *self;
            let ghost n = *count;
            self.add_cat_moves_from(f, side, cat, captures_only, count);
            proof {
                lemma_cat_step(pos, p1, self.move_list@, start as int, n as int, *count as int, side, cat, captures_only,
                    old_pieces.0, pieces.0, f as int);
            }
        }
    }
}

/// The categories the loops handle: moves of knights, bishops, rooks, queens and
/// kings, captures and moves of pawns.
pub open spec fn cat_ok(cat: Category) -> bool {
    match cat {
        Category::PieceMoves(k) => k == Piece::Knight || k == Piece::Bishop || k == Piece::Rook || k == Piece::Queen
            || k == Piece::King,
        _ => true,
    }
}

impl Position {
    /// Appends a move to the moves counted so far.
    fn add_one(&mut self, m: Move, count: &mut usize)
        requires
            *old(count) <= old(self).move_list@.len(),
            *old(count) < usize::MAX,
        ensures
            *final(self) == (Position { move_list: final(self).move_list, ..*old(self) }),
            *final(count) == *old(count) + 1,
            only_filled(old(self).move_list@, final(self).move_list@, *old(count) as int, *final(count) as int),
            final(self).move_list@[*old(count) as int] == Some(m),
    {
        self.put_move(*count, m);
        *count = *count + 1;
    }

    /// Appends the four promotions of a pawn move from `f` to `t`: queen, rook,
    /// bishop and knight, with one score.
    fn add_promotions(&mut self, f: usize, t: usize, score: isize, count: &mut usize)
        requires
            f < 64,
            t < 64,
            *old(count) <= old(self).move_list@.len(),
            *old(count) + 4 < usize::MAX,
        ensures
            *final(self) == (Position { move_list: final(self).move_list, ..*old(self) }),
            *final(count) == *old(count) + 4,
            only_filled(old(self).move_list@, final(self).move_list@, *old(count) as int, *final(count) as int),
            forall|k: int| 0 <= k < 4 ==> (#[trigger] final(self).move_list@[*old(count) + k] matches Some(m) && m.from as int == f
                && m.to as int == t && m.score == score && m.promote == Some(promotion_at(k))),
    {
        let from = square_of(f);
        let to = square_of(t);
        let ghost c0 = *count;
        self.add_one(Move { from, to, promote: Some(Piece::Queen), score }, count);
        let ghost ml1 = self.move_list@;
        self.add_one(Move { from, to, promote: Some(Piece::Rook), score }, count);
        let ghost ml2 = self.move_list@;
        self.add_one(Move { from, to, promote: Some(Piece::Bishop), score }, count);
        let ghost ml3 = self.move_list@;
        self.add_one(Move { from, to, promote: Some(Piece::Knight), score }, count);
        proof {
            assert(self.move_list@[c0 + 2] == ml3[c0 + 2]);
            assert(self.move_list@[c0 + 1] == ml2[c0 + 1]);
            assert(ml3[c0 + 1] == ml2[c0 + 1]);
            assert(self.move_list@[c0 as int] == ml1[c0 as int]);
            assert(ml3[c0 as int] == ml1[c0 as int]);
            assert(ml2[c0 as int] == ml1[c0 as int]);
        }
    }

    /// Adds the capture of the pawn of `side` on `f` towards the h-file (`right`)
    /// or the a-file, if an opposing unit stands there: four promotions from the
    /// seventh rank, one capture otherwise.
    #[verifier::spinoff_prover]
    #[verifier::rlimit(40)]
    fn add_pawn_captures_from(&mut self, f: usize, side: Side, right: bool, count: &mut usize)
        requires
            old(self).board.wf(),
            f < 64,
            old(self).board.view()[f as int] == Some((side, Piece::Pawn)),
            *old(count) <= old(self).move_list@.len(),
            *old(count) + 128 <= usize::MAX,
        ensures
            *final(self) == (Position { move_list: final(self).move_list, ..*old(self) }),
            *old(count) <= *final(count) <= *old(count) + 4,
            *final(count) <= final(self).move_list@.len(),
            from_added(*old(self), final(self).move_list@, *old(count) as int, *final(count) as int, side, Category::PawnCaptures(right), false, f as int),
    {
        let ghost pos = *self;
        let ghost c0 = *count;
        let ghost v = pos.board.view();
        let s = side as usize;
        let target = self.tables.pawn_capture_square(s, f, right);
        proof {
            reveal(from_added);
        }
        if target >= 0 {
            let t = target as usize;
            let hit = self.board.bit_units[side.opponent() as usize].is_bit_set(square_of(t));
            proof {
                lemma_wf_bits(pos.board, t as int);
                crate::make_move::lemma_value_is_piece(pos.board);
            }
            if hit {
                let score = PAWN_CAPTURE_SCORE[self.board.value[t] as usize] as isize + CAPTURE_SCORE as isize;
                let rank = self.tables.rank_from(s, f);
                proof {
                    assert(rank as int == rel_rank(side, f as int));
                    assert(score == cat_score(pos, Category::PawnCaptures(right), f as int, t as int));
                    assert(unit_of(v, side.spec_opponent(), t as int));
                }
                if rank == 6 {
                    self.add_promotions(f, t, score, count);
                    proof {
                        lemma_promotions_added(pos, self.move_list@, c0 as int, f as int, t as int, side, Category::PawnCaptures(right), false);
                    }
                } else {
                    let m = Move { from: square_of(f), to: square_of(t), promote: None, score };
                    self.add_one(m, count);
                    proof {
                        lemma_single_added(pos, self.move_list@, c0 as int, f as int, t as int, side, Category::PawnCaptures(right), false);
                    }
                }
                return;
            }
        }
        proof {
            assert forall|t: int, p: Option<Piece>| #[trigger] cat_target(pos, side, Category::PawnCaptures(right), false, f as int, t, p)
                implies has_move(self.move_list@, c0 as int, *count as int, f as int, t, p) by {
                lemma_wf_bits(pos.board, t);
            }
        }
    }
}

/// The promotion piece at position `k` of the promotions of a pawn move.
pub open spec fn promotion_at(k: int) -> Piece {
    if k == 0 {
        Piece::Queen
    } else if k == 1 {
        Piece::Rook
    } else if k == 2 {
        Piece::Bishop
    } else {
        Piece::Knight
    }
}

/// Four promotions from `f` to `t`, when they are all the category's moves from
/// `f`, make up `from_added`.
#[verifier::spinoff_prover]
proof fn lemma_promotions_added(pos: Position, ml: Seq<Option<Move>>, c0: int, f: int, t: int, side: Side, cat: Category, co: bool)
    requires
        0 <= c0,
        0 <= f < 64,
        0 <= t < 64,
        only_filled(pos.move_list@, ml, c0, c0 + 4),
        forall|k: int| 0 <= k < 4 ==> (#[trigger] ml[c0 + k] matches Some(m) && m.from as int == f && m.to as int == t
            && m.score == cat_score(pos, cat, f, t) && m.promote == Some(promotion_at(k))),
        forall|t2: int, p: Option<Piece>| #[trigger] cat_target(pos, side, cat, co, f, t2, p) <==> (t2 == t && promotion_ok(true, p)),
    ensures
        from_added(pos, ml, c0, c0 + 4, side, cat, co, f),
{
    reveal(from_added);
    assert forall|i: int| c0 <= i < c0 + 4 implies (#[trigger] ml[i] matches Some(m) && cat_move_ok(pos, side, cat, co, f, m)) by {
        let k = i - c0;
        assert(ml[c0 + k] matches Some(m) && m.promote == Some(promotion_at(k)));
        assert(cat_target(pos, side, cat, co, f, t, Some(promotion_at(k))));
    }
    assert forall|t2: int, p: Option<Piece>| #[trigger] cat_target(pos, side, cat, co, f, t2, p) implies has_move(ml, c0, c0 + 4, f, t2, p) by {
        let k: int = if p == Some(Piece::Queen) { 0 } else if p == Some(Piece::Rook) { 1 } else if p == Some(Piece::Bishop) { 2 } else { 3 };
        assert(ml[c0 + k] matches Some(m) && m.promote == Some(promotion_at(k)));
        assert(move_at(ml, c0 + k, f, t2, p));
    }
    assert forall|i: int, j: int| c0 <= i < j < c0 + 4 implies !#[trigger] same_move(ml[i], ml[j]) by {
        assert(ml[c0 + (i - c0)] matches Some(m) && m.promote == Some(promotion_at(i - c0)));
        assert(ml[c0 + (j - c0)] matches Some(m) && m.promote == Some(promotion_at(j - c0)));
    }
}

/// One move from `f` to `t`, when it is the category's only move from `f`, makes up `from_added`.
#[verifier::spinoff_prover]
proof fn lemma_single_added(pos: Position, ml: Seq<Option<Move>>, c0: int, f: int, t: int, side: Side, cat: Category, co: bool)
    requires
        0 <= c0,
        0 <= f < 64,
        0 <= t < 64,
        only_filled(pos.move_list@, ml, c0, c0 + 1),
        ml[c0] matches Some(m) && m.from as int == f && m.to as int == t && m.score == cat_score(pos, cat, f, t)
            && m.promote is None,
        forall|t2: int, p: Option<Piece>| #[trigger] cat_target(pos, side, cat, co, f, t2, p) <==> (t2 == t && p is None),
    ensures
        from_added(pos, ml, c0, c0 + 1, side, cat, co, f),
{
    reveal(from_added);
    assert(cat_target(pos, side, cat, co, f, t, None));
    assert(move_at(ml, c0, f, t, None));
}

/// Two moves from `f`, to `t` and to `t2`, when they are the category's only
/// moves from `f`, make up `from_added`.
#[verifier::spinoff_prover]
proof fn lemma_pair_added(pos: Position, ml: Seq<Option<Move>>, c0: int, f: int, t: int, t2: int, side: Side, cat: Category, co: bool)
    requires
        0 <= c0,
        0 <= f < 64,
        0 <= t < 64,
        0 <= t2 < 64,
        only_filled(pos.move_list@, ml, c0, c0 + 2),
        ml[c0] matches Some(m) && m.from as int == f && m.to as int == t && m.score == cat_score(pos, cat, f, t)
            && m.promote is None,
        ml[c0 + 1] matches Some(m) && m.from as int == f && m.to as int == t2 && m.score == cat_score(pos, cat, f, t2)
            && m.promote is None,
        forall|u: int, p: Option<Piece>| #[trigger] cat_target(pos, side, cat, co, f, u, p) <==> ((u == t || u == t2) && p is None),
        t != t2,
    ensures
        from_added(pos, ml, c0, c0 + 2, side, cat, co, f),
{
    reveal(from_added);
    assert(cat_target(pos, side, cat, co, f, t, None));
    assert(cat_target(pos, side, cat, co, f, t2, None));
    assert(move_at(ml, c0, f, t, None));
    assert(move_at(ml, c0 + 1, f, t2, None));
    assert forall|i: int| c0 <= i < c0 + 2 implies (#[trigger] ml[i] matches Some(m) && cat_move_ok(pos, side, cat, co, f, m)) by {
        if i == c0 {
            assert(cat_target(pos, side, cat, co, f, t, None));
        } else {
            assert(cat_target(pos, side, cat, co, f, t2, None));
        }
    }
    assert forall|u: int, p: Option<Piece>| #[trigger] cat_target(pos, side, cat, co, f, u, p) implies has_move(ml, c0, c0 + 2, f, u, p) by {
        if u == t {
            assert(move_at(ml, c0, f, u, p));
        } else {
            assert(move_at(ml, c0 + 1, f, u, p));
        }
    }
}

impl Position {
    /// Adds the moves forward of the pawn of `side` on `f`: onto an empty square
    /// ahead, four promotions from the seventh rank or one move otherwise, and,
    /// from the second rank, two squares ahead when that square is empty too.
    fn add_pawn_pushes_from(&mut self, f: usize, side: Side, count: &mut usize)
        requires
            old(self).board.wf(),
            f < 64,
            old(self).board.view()[f as int] == Some((side, Piece::Pawn)),
            *old(count) <= old(self).move_list@.len(),
            *old(count) + 128 <= usize::MAX,
        ensures
            *final(self) == (Position { move_list: final(self).move_list, ..*old(self) }),
            *old(count) <= *final(count) <= *old(count) + 4,
            *final(count) <= final(self).move_list@.len(),
            from_added(*old(self), final(self).move_list@, *old(count) as int, *final(count) as int, side, Category::PawnPushes, false, f as int),
    {
        let ghost pos = *self;
        let ghost c0 = *count;
        let ghost v = pos.board.view();
        let s = side as usize;
        let cat = Category::PawnPushes;
        let one = self.tables.pawn_push_square(s, f, false);
        proof {
            reveal(from_added);
            crate::make_move::lemma_value_is_piece(pos.board);
        }
        if one >= 0 && one <= 63 {
            let t = one as usize;
            if self.board.value[t] == Piece::Empty {
                let rank = self.tables.rank_from(s, f);
                let score = self.history_table[f][t];
                proof {
                    assert(rank as int == rel_rank(side, f as int));
                    assert(v[t as int] is None);
                }
                if rank == 6 {
                    self.add_promotions(f, t, score, count);
                    proof {
                        lemma_promotions_added(pos, self.move_list@, c0 as int, f as int, t as int, side, cat, false);
                    }
                    return;
                }
                let m = Move { from: square_of(f), to: square_of(t), promote: None, score };
                self.add_one(m, count);
                if rank == 1 {
                    let two = self.tables.pawn_push_square(s, f, true);
                    let t2 = two as usize;
                    if self.board.value[t2] == Piece::Empty {
                        let m2 = Move { from: square_of(f), to: square_of(t2), promote: None, score: self.history_table[f][t2] };
                        let ghost ml1 = self.move_list@;
                        self.add_one(m2, count);
                        proof {
                            lemma_only_filled_trans(pos.move_list@, ml1, self.move_list@, c0 as int, c0 + 1, c0 + 2);
                            lemma_pair_added(pos, self.move_list@, c0 as int, f as int, t as int, t2 as int, side, cat, false);
                        }
                        return;
                    }
                }
                proof {
                    lemma_single_added(pos, self.move_list@, c0 as int, f as int, t as int, side, cat, false);
                }
                return;
            }
        }
        proof {
            assert forall|t: int, p: Option<Piece>| #[trigger] cat_target(pos, side, cat, false, f as int, t, p)
                implies has_move(self.move_list@, c0 as int, *count as int, f as int, t, p) by {
            }
        }
    }
}

/// A block of the moves generated for a side: en passant captures, castlings,
/// the moves of one category from every piece of its kind, or the moves of the king.
#[derive(Clone, Copy, PartialEq, Eq, Structural)]
pub enum Block {
    EnPassant,
    Castling,
    Pieces(Category),
    King,
}

/// `m` is a move of the block, with its score.
pub open spec fn block_sound(pos: Position, side: Side, captures_only: bool, b: Block, m: Move) -> bool {
    let v = pos.board.view();
    match b {
        Block::EnPassant => ep_move_ok(pos, side, m),
        Block::Castling => !captures_only && castle_move_ok(pos, side, m),
        Block::Pieces(cat) => 0 <= m.from as int && v[m.from as int] == Some((side, category_piece(cat)))
            && cat_move_ok(pos, side, cat, captures_only, m.from as int, m),
        Block::King => m.from as int == first_king(v, side) && cat_move_ok(pos, side, Category::PieceMoves(Piece::King), captures_only, m.from as int, m),
    }
}

/// The block holds a move from `f` to `t` promoting to `p`.
pub open spec fn block_target(pos: Position, side: Side, captures_only: bool, b: Block, f: int, t: int, p: Option<Piece>) -> bool {
    let v = pos.board.view();
    match b {
        Block::EnPassant => ep_target(pos, side, f, t, p),
        Block::Castling => !captures_only && castle_gen_target(pos, side, f, t, p),
        Block::Pieces(cat) => 0 <= f < 64 && v[f] == Some((side, category_piece(cat))) && cat_target(pos, side, cat, captures_only, f, t, p),
        Block::King => f == first_king(v, side) && cat_target(pos, side, Category::PieceMoves(Piece::King), captures_only, f, t, p),
    }
}

/// The blocks the generator fills: each but a block of pieces of a kind other
/// than knight, bishop, rook and queen moving as such.
pub open spec fn gen_block(b: Block) -> bool {
    match b {
        Block::Pieces(Category::PieceMoves(k)) => k == Piece::Knight || k == Piece::Bishop || k == Piece::Rook
            || k == Piece::Queen,
        _ => true,
    }
}

/// What the moves of `side` in `pos` need to be listed once each: `side` has a
/// king, the square an en passant capture lands on is empty, and a castle right
/// of `side` is held only with its king on its home square.
pub open spec fn generation_clean(pos: Position, side: Side) -> bool {
    let v = pos.board.view();
    &&& has_king(v, side)
    &&& forall|f: int, t: int, p: Option<Piece>| #[trigger] ep_target(pos, side, f, t, p) ==> v[t] is None
    &&& side == Side::White && (pos.castle & 1 != 0 || pos.castle & 2 != 0) ==> v[4] == Some((Side::White, Piece::King))
    &&& side == Side::Black && (pos.castle & 4 != 0 || pos.castle & 8 != 0) ==> v[60] == Some((Side::Black, Piece::King))
}

/// In the initial setup of the pieces, before any move is recorded, the moves
/// of either side are listed once each, whatever castle rights are held.
pub proof fn lemma_initial_generation_clean(p: Position, side: Side)
    requires
        p.board.view() == crate::board::initial_view(),
        p.ply_from_start_of_game == 0,
    ensures
        generation_clean(p, side),
{
    assert(crate::board::initial_view()[4] == Some((Side::White, Piece::King)));
    assert(crate::board::initial_view()[60] == Some((Side::Black, Piece::King)));
}

/// The kind of piece that moves in a block.
pub open spec fn block_piece(b: Block) -> Piece {
    match b {
        Block::EnPassant => Piece::Pawn,
        Block::Castling => Piece::King,
        Block::Pieces(cat) => category_piece(cat),
        Block::King => Piece::King,
    }
}

/// The lowest square holding a king of `side` at or below `i`, which holds one.
proof fn lemma_lowest_king(v: Seq<Occupant>, side: Side, i: int) -> (k: int)
    requires
        0 <= i < 64,
        v[i] == Some((side, Piece::King)),
    ensures
        crate::rules::is_first_king(v, side, k),
    decreases i,
{
    if exists|j: int| 0 <= j < i && #[trigger] v[j] == Some((side, Piece::King)) {
        let j = choose|j: int| 0 <= j < i && #[trigger] v[j] == Some((side, Piece::King));
        lemma_lowest_king(v, side, j)
    } else {
        i
    }
}

/// The square `first_king` names holds a king when the side has one.
proof fn lemma_first_king_holds(v: Seq<Occupant>, side: Side)
    requires
        has_king(v, side),
    ensures
        0 <= first_king(v, side) < 64,
        v[first_king(v, side)] == Some((side, Piece::King)),
{
    let i = choose|i: int| 0 <= i < 64 && v[i] == Some((side, Piece::King));
    let k = lemma_lowest_king(v, side, i);
    crate::rules::lemma_first_king(v, side, k);
}

/// The square a move of a block starts from holds the block's kind of piece.
proof fn lemma_block_piece(pos: Position, side: Side, co: bool, b: Block, m: Move)
    requires
        generation_clean(pos, side),
        gen_block(b),
        block_sound(pos, side, co, b, m),
    ensures
        pos.board.view()[m.from as int] == Some((side, block_piece(b))),
{
    if b == Block::King {
        lemma_first_king_holds(pos.board.view(), side);
    }
}

/// The files of the squares a pawn on `f` captures on, moves to and moves two squares to.
proof fn lemma_pawn_files(w: bool, f: int)
    ensures
        left_index(w, f) >= 0 ==> left_index(w, f) % 8 == f % 8 - 1,
        right_index(w, f) >= 0 ==> right_index(w, f) % 8 == f % 8 + 1,
        plus_index(w, f) >= 0 ==> plus_index(w, f) % 8 == f % 8,
        double_index(w, f) >= 0 ==> double_index(w, f) % 8 == f % 8,
{
}

/// What the landing square `t` of a move from `f` of a block is like, by file
/// and by whether a piece stands there.
spec fn landing(b: Block, f: int, t: int, occupied: bool) -> bool {
    match b {
        Block::Pieces(Category::PawnPushes) => t % 8 == f % 8,
        Block::Pieces(Category::PawnCaptures(right)) => t % 8 == (if right { f % 8 + 1 } else { f % 8 - 1 }) && occupied,
        Block::EnPassant => (t % 8 == f % 8 + 1 || t % 8 == f % 8 - 1) && !occupied,
        Block::Castling => t % 8 == f % 8 + 2 || t % 8 == f % 8 - 2,
        Block::King => abs_diff(f % 8, t % 8) <= 1,
        _ => true,
    }
}

/// Where a move of a block lands.
#[verifier::spinoff_prover]
#[verifier::rlimit(40)]
proof fn lemma_block_landing(pos: Position, side: Side, co: bool, b: Block, m: Move)
    requires
        generation_clean(pos, side),
        block_sound(pos, side, co, b, m),
    ensures
        landing(b, m.from as int, m.to as int, pos.board.view()[m.to as int] is Some),
{
    let f = m.from as int;
    let t = m.to as int;
    let v = pos.board.view();
    let w = side == Side::White;
    lemma_pawn_files(w, f);
    match b {
        Block::EnPassant => {
            assert(ep_target(pos, side, f, t, m.promote));
        },
        Block::Castling => {
            assert(castle_gen_target(pos, side, f, t, m.promote));
        },
        Block::Pieces(cat) => {
            assert(cat_target(pos, side, cat, co, f, t, m.promote));
        },
        Block::King => {
            assert(cat_target(pos, side, Category::PieceMoves(Piece::King), co, f, t, m.promote));
            assert(king_step(f, t));
        },
    }
}

/// Two blocks whose moves start from the same kind of piece and land alike are one.
proof fn lemma_landings_apart(b1: Block, b2: Block, f: int, t: int, occupied: bool)
    requires
        gen_block(b1),
        gen_block(b2),
        block_piece(b1) == block_piece(b2),
        landing(b1, f, t, occupied),
        landing(b2, f, t, occupied),
    ensures
        b1 == b2,
{
}

/// Two blocks the generator fills hold no move in common.
#[verifier::spinoff_prover]
#[verifier::rlimit(60)]
proof fn lemma_blocks_apart(pos: Position, side: Side, co: bool, b1: Block, b2: Block, m1: Move, m2: Move)
    requires
        generation_clean(pos, side),
        gen_block(b1),
        gen_block(b2),
        block_sound(pos, side, co, b1, m1),
        block_sound(pos, side, co, b2, m2),
        m1.from as int == m2.from as int,
        m1.to as int == m2.to as int,
    ensures
        b1 == b2,
{
    lemma_block_piece(pos, side, co, b1, m1);
    lemma_block_piece(pos, side, co, b2, m2);
    lemma_block_landing(pos, side, co, b1, m1);
    lemma_block_landing(pos, side, co, b2, m2);
    lemma_landings_apart(b1, b2, m1.from as int, m1.to as int, pos.board.view()[m1.to as int] is Some);
}

/// The moves in `[lo, hi)` of `after` are the moves of the blocks `blocks`, each
/// move of each block among them, and `after` is `before` otherwise; in a
/// position where the moves are listed once each, no move is there twice.
#[verifier::opaque]
pub open spec fn seg_ok(
    before: Seq<Option<Move>>,
    after: Seq<Option<Move>>,
    lo: int,
    hi: int,
    pos: Position,
    side: Side,
    captures_only: bool,
    blocks: Set<Block>,
) -> bool {
    &&& only_filled(before, after, lo, hi)
    &&& forall|i: int| lo <= i < hi ==> (#[trigger] after[i] matches Some(m) && exists|b: Block| #[trigger] blocks.contains(b)
        && block_sound(pos, side, captures_only, b, m))
    &&& forall|b: Block, f: int, t: int, p: Option<Piece>|
        blocks.contains(b) && #[trigger] block_target(pos, side, captures_only, b, f, t, p) ==> has_move(after, lo, hi, f, t, p)
    &&& generation_clean(pos, side) ==> distinct_moves(after, lo, hi)
}

/// Two blocks of moves one after the other make one block.
#[verifier::spinoff_prover]
#[verifier::rlimit(60)]
proof fn lemma_seg_join(
    a: Seq<Option<Move>>,
    b: Seq<Option<Move>>,
    c: Seq<Option<Move>>,
    lo: int,
    n: int,
    n2: int,
    pos: Position,
    side: Side,
    co: bool,
    s1: Set<Block>,
    s2: Set<Block>,
)
    requires
        0 <= lo,
        seg_ok(a, b, lo, n, pos, side, co, s1),
        seg_ok(b, c, n, n2, pos, side, co, s2),
        forall|k: Block| #[trigger] s1.contains(k) ==> gen_block(k) && !s2.contains(k),
        forall|k: Block| #[trigger] s2.contains(k) ==> gen_block(k),
    ensures
        seg_ok(a, c, lo, n2, pos, side, co, s1 + s2),
{
    reveal(seg_ok);
    lemma_only_filled_trans(a, b, c, lo, n, n2);
    let s = s1 + s2;
    assert forall|i: int| lo <= i < n2 implies (#[trigger] c[i] matches Some(m) && exists|k: Block| #[trigger] s.contains(k)
        && block_sound(pos, side, co, k, m)) by {
        if i < n {
            assert(c[i] == b[i]);
            let m = b[i]->Some_0;
            let k = choose|k: Block| #[trigger] s1.contains(k) && block_sound(pos, side, co, k, m);
            assert(s.contains(k));
        } else {
            let m = c[i]->Some_0;
            let k = choose|k: Block| #[trigger] s2.contains(k) && block_sound(pos, side, co, k, m);
            assert(s.contains(k));
        }
    }
    assert forall|k: Block, f: int, u: int, p: Option<Piece>|
        s.contains(k) && #[trigger] block_target(pos, side, co, k, f, u, p) implies has_move(c, lo, n2, f, u, p) by {
        if s1.contains(k) {
            assert(has_move(b, lo, n, f, u, p));
            let i = choose|i: int| lo <= i < n && #[trigger] move_at(b, i, f, u, p);
            assert(c[i] == b[i]);
            assert(move_at(c, i, f, u, p));
        } else {
            assert(has_move(c, n, n2, f, u, p));
            let i = choose|i: int| n <= i < n2 && #[trigger] move_at(c, i, f, u, p);
            assert(move_at(c, i, f, u, p));
        }
    }
    if generation_clean(pos, side) {
        assert forall|i: int| lo <= i < n implies (#[trigger] b[i] matches Some(m) && in_blocks(pos, side, co, s1, m)) by {
            reveal(in_blocks);
        }
        assert forall|i: int| n <= i < n2 implies (#[trigger] c[i] matches Some(m) && in_blocks(pos, side, co, s2, m)) by {
            reveal(in_blocks);
        }
        lemma_join_apart(b, c, lo, n, n2, pos, side, co, s1, s2);
    }
}

/// `m` is a move of one of the blocks `s`.
#[verifier::opaque]
spec fn in_blocks(pos: Position, side: Side, co: bool, s: Set<Block>, m: Move) -> bool {
    exists|k: Block| #[trigger] s.contains(k) && block_sound(pos, side, co, k, m)
}

/// A move of some blocks and a move of other blocks are not the same move.
proof fn lemma_in_blocks_apart(pos: Position, side: Side, co: bool, s1: Set<Block>, s2: Set<Block>, m1: Move, m2: Move)
    requires
        generation_clean(pos, side),
        in_blocks(pos, side, co, s1, m1),
        in_blocks(pos, side, co, s2, m2),
        forall|k: Block| #[trigger] s1.contains(k) ==> gen_block(k) && !s2.contains(k),
        forall|k: Block| #[trigger] s2.contains(k) ==> gen_block(k),
    ensures
        !(m1.from as int == m2.from as int && m1.to as int == m2.to as int),
{
    reveal(in_blocks);
    let k1 = choose|k: Block| #[trigger] s1.contains(k) && block_sound(pos, side, co, k, m1);
    let k2 = choose|k: Block| #[trigger] s2.contains(k) && block_sound(pos, side, co, k, m2);
    if m1.from as int == m2.from as int && m1.to as int == m2.to as int {
        lemma_blocks_apart(pos, side, co, k1, k2, m1, m2);
    }
}

/// Moves of some blocks, then moves of other blocks, each part without a move
/// twice, hold no move twice.
proof fn lemma_join_apart(
    b: Seq<Option<Move>>,
    c: Seq<Option<Move>>,
    lo: int,
    n: int,
    n2: int,
    pos: Position,
    side: Side,
    co: bool,
    s1: Set<Block>,
    s2: Set<Block>,
)
    requires
        generation_clean(pos, side),
        distinct_moves(b, lo, n),
        distinct_moves(c, n, n2),
        forall|i: int| lo <= i < n ==> #[trigger] c[i] == b[i],
        forall|i: int| lo <= i < n ==> (#[trigger] b[i] matches Some(m) && in_blocks(pos, side, co, s1, m)),
        forall|i: int| n <= i < n2 ==> (#[trigger] c[i] matches Some(m) && in_blocks(pos, side, co, s2, m)),
        forall|k: Block| #[trigger] s1.contains(k) ==> gen_block(k) && !s2.contains(k),
        forall|k: Block| #[trigger] s2.contains(k) ==> gen_block(k),
    ensures
        distinct_moves(c, lo, n2),
{
    assert forall|i: int, j: int| lo <= i < j < n2 implies !#[trigger] same_move(c[i], c[j]) by {
        if j < n {
            assert(c[i] == b[i] && c[j] == b[j]);
            assert(!same_move(b[i], b[j]));
        } else if i >= n {
            assert(!same_move(c[i], c[j]));
        } else {
            assert(c[i] == b[i]);
            let mi = b[i]->Some_0;
            let mj = c[j]->Some_0;
            lemma_in_blocks_apart(pos, side, co, s1, s2, mi, mj);
        }
    }
}

/// The pawn of `side` on `f` takes en passant on `t`, the pawn the opponent just
/// moved two squares standing next to it.
pub open spec fn ep_target(pos: Position, side: Side, f: int, t: int, p: Option<Piece>) -> bool {
    let v = pos.board.view();
    let w = side == Side::White;
    &&& p is None
    &&& pos.ply_from_start_of_game > 0
    &&& pos.game_at(pos.ply_from_start_of_game as int) matches Some(g) && {
        let lt = g.to as int;
        &&& pos.board.value[lt] == Piece::Pawn
        &&& abs_diff(g.from as int, lt) == 16
        &&& v[f] == Some((side, Piece::Pawn))
        &&& 0 <= t < 64
        &&& ((lt % 8 > 0 && f == lt - 1 && t == right_index(w, f)) || (lt % 8 < 7 && f == lt + 1 && t == left_index(w, f)))
    }
}

/// An en passant capture of `side`, scored as a capture of a pawn by a pawn.
pub open spec fn ep_move_ok(pos: Position, side: Side, m: Move) -> bool {
    &&& ep_target(pos, side, m.from as int, m.to as int, m.promote)
    &&& m.score == (10 + CAPTURE_SCORE) as isize
}

/// The king of `side` castles from `f` to `t`: the castle right is held and the
/// squares between king and rook are empty.
pub open spec fn castle_gen_target(pos: Position, side: Side, f: int, t: int, p: Option<Piece>) -> bool {
    let v = pos.board.view();
    &&& p is None
    &&& if side == Side::White {
        (f == 4 && t == 6 && pos.castle & 1 != 0 && path_clear(v, 7, 4)) || (f == 4 && t == 2 && pos.castle & 2 != 0
            && path_clear(v, 0, 4))
    } else {
        (f == 60 && t == 62 && pos.castle & 4 != 0 && path_clear(v, 60, 63)) || (f == 60 && t == 58 && pos.castle & 8
            != 0 && path_clear(v, 60, 56))
    }
}

/// A castling of `side`, scored by the history table.
pub open spec fn castle_move_ok(pos: Position, side: Side, m: Move) -> bool {
    &&& 0 <= m.from as int
    &&& 0 <= m.to as int
    &&& castle_gen_target(pos, side, m.from as int, m.to as int, m.promote)
    &&& m.score == pos.history_table[m.from as int][m.to as int]
}

impl Position {
    /// Whether no square strictly between `a` and `b` holds a piece.
    pub(crate) fn path_is_clear(&self, a: usize, b: usize) -> (r: bool)
        requires
            self.board.wf(),
            a < 64,
            b < 64,
        ensures
            r == path_clear(self.board.view(), a as int, b as int),
    {
        let between_bits = self.tables.between_bits(a, b);
        let all = self.board.bit_all.0;
        let blocked = between_bits & all;
        proof {
            let v = self.board.view();
            if blocked != 0 {
                let x = crate::position::lemma_common_bit(between_bits, all);
                lemma_wf_bits(self.board, x);
            } else {
                assert forall|x: int| 0 <= x < 64 && between(a as int, b as int, x) implies #[trigger] v[x] is None by {
                    lemma_wf_bits(self.board, x);
                    crate::position::lemma_no_common_bit(between_bits, all, x);
                }
            }
        }
        blocked == 0
    }

    /// Adds the en passant captures of `side`: when the last move was a pawn moving
    /// two squares, each pawn of `side` beside it takes it.
    #[verifier::spinoff_prover]
    fn add_en_passant_moves(&mut self, side: Side, captures_only: bool, count: &mut usize)
        requires
            old(self).board.wf(),
            *old(count) <= old(self).move_list@.len(),
            *old(count) + 4 <= usize::MAX,
        ensures
            *final(self) == (Position { move_list: final(self).move_list, ..*old(self) }),
            *old(count) <= *final(count) <= *old(count) + 2,
            *final(count) <= final(self).move_list@.len(),
            seg_ok(old(self).move_list@, final(self).move_list@, *old(count) as int, *final(count) as int, *old(self), side,
                captures_only, set![Block::EnPassant]),
    {
        let ghost pos = *self;
        let ghost c0 = *count;
        let s = side as usize;
        let score: isize = 10 + CAPTURE_SCORE as isize;
        let lt = match self.last_double_push() {
            Some(lt) => lt,
            None => {
                proof {
                    lemma_seg_empty(pos.move_list@, c0 as int, pos, side, captures_only, set![Block::EnPassant]);
                }
                return;
            },
        };
        self.add_ep_captures_of(lt, side, captures_only, count);
    }

    /// Adds the en passant captures of the pawns of `side` beside the pawn that
    /// just moved two squares to `lt`.
    #[verifier::spinoff_prover]
    #[verifier::rlimit(60)]
    fn add_ep_captures_of(&mut self, lt: usize, side: Side, captures_only: bool, count: &mut usize)
        requires
            old(self).board.wf(),
            *old(count) <= old(self).move_list@.len(),
            *old(count) + 4 <= usize::MAX,
            lt < 64,
            old(self).ply_from_start_of_game > 0,
            old(self).game_at(old(self).ply_from_start_of_game as int) matches Some(g) && g.to as int == lt && abs_diff(g.from as int, lt as int) == 16,
            old(self).board.value[lt as int] == Piece::Pawn,
        ensures
            *final(self) == (Position { move_list: final(self).move_list, ..*old(self) }),
            *old(count) <= *final(count) <= *old(count) + 2,
            *final(count) <= final(self).move_list@.len(),
            seg_ok(old(self).move_list@, final(self).move_list@, *old(count) as int, *final(count) as int, *old(self), side,
                captures_only, set![Block::EnPassant]),
    {
        let ghost pos = *self;
        let ghost c0 = *count;
        let s = side as usize;
        let score: isize = 10 + CAPTURE_SCORE as isize;
        let mut added_left = false;
        if lt % 8 > 0 {
            added_left = self.add_ep_capture_from(lt - 1, side, true, count);
        }
        let ghost c1 = *count;
        let ghost ml1 = self.move_list@;
        let mut added_right = false;
        if lt % 8 < 7 {
            added_right = self.add_ep_capture_from(lt + 1, side, false, count);
        }
        proof {
            lemma_ep_block(pos, ml1, self.move_list@, c0 as int, c1 as int, *count as int, lt as int, added_left,
                added_right, side, captures_only);
        }
    }

    /// Adds the castlings of `side` whose right is held and whose squares between
    /// king and rook are empty: kingside first, then queenside.
    fn add_castle_moves(&mut self, side: Side, count: &mut usize)
        requires
            old(self).board.wf(),
            *old(count) <= old(self).move_list@.len(),
            *old(count) + 4 <= usize::MAX,
        ensures
            *final(self) == (Position { move_list: final(self).move_list, ..*old(self) }),
            *old(count) <= *final(count) <= *old(count) + 2,
            *final(count) <= final(self).move_list@.len(),
            seg_ok(old(self).move_list@, final(self).move_list@, *old(count) as int, *final(count) as int, *old(self), side,
                false, set![Block::Castling]),
    {
        let ghost pos = *self;
        let ghost c0 = *count;
        let (king_home, king_side, queen_side, rook_king, rook_queen, bit_king, bit_queen): (usize, usize, usize, usize, usize, u8, u8) =
            match side {
                Side::White => (4, 6, 2, 7, 0, 1, 2),
                Side::Black => (60, 62, 58, 63, 56, 4, 8),
            };
        let first = self.castle & bit_king != 0 && (match side {
            Side::White => self.path_is_clear(rook_king, king_home),
            Side::Black => self.path_is_clear(king_home, rook_king),
        });
        if first {
            let m = Move { from: square_of(king_home), to: square_of(king_side), promote: None, score: self.history_table[king_home][king_side] };
            self.add_one(m, count);
        }
        let c1 = *count;
        let ghost ml1 = self.move_list@;
        let second = self.castle & bit_queen != 0 && (match side {
            Side::White => self.path_is_clear(rook_queen, king_home),
            Side::Black => self.path_is_clear(king_home, rook_queen),
        });
        if second {
            let m = Move { from: square_of(king_home), to: square_of(queen_side), promote: None, score: self.history_table[king_home][queen_side] };
            self.add_one(m, count);
        }
        proof {
            reveal(seg_ok);
            lemma_only_filled_trans(pos.move_list@, ml1, self.move_list@, c0 as int, c1 as int, *count as int);
            let blocks = set![Block::Castling];
            assert(blocks.contains(Block::Castling));
            assert forall|i: int| c0 <= i < *count implies (#[trigger] self.move_list@[i] matches Some(m) && exists|b: Block| #[trigger] blocks.contains(b)
                && block_sound(pos, side, false, b, m)) by {
                if i < c1 {
                    assert(self.move_list@[i] == ml1[i]);
                }
                assert(block_sound(pos, side, false, Block::Castling, self.move_list@[i]->Some_0));
            }
            assert forall|b: Block, f: int, t: int, p: Option<Piece>|
                blocks.contains(b) && #[trigger] block_target(pos, side, false, b, f, t, p) implies has_move(self.move_list@, c0 as int, *count as int, f, t, p) by {
                assert(b == Block::Castling);
                if t == king_side {
                    assert(self.move_list@[c0 as int] == ml1[c0 as int]);
                    assert(move_at(self.move_list@, c0 as int, f, t, p));
                } else {
                    assert(move_at(self.move_list@, c1 as int, f, t, p));
                }
            }
            assert forall|i: int, j: int| c0 <= i < j < *count implies !#[trigger] same_move(self.move_list@[i], self.move_list@[j]) by {
                assert(self.move_list@[i] == ml1[i]);
                assert(i == c0 && j == c1);
            }
        }
    }
}

/// An empty block of moves, when `target` names no move.
proof fn lemma_seg_empty(ml: Seq<Option<Move>>, c0: int, pos: Position, side: Side, co: bool, blocks: Set<Block>)
    requires
        0 <= c0 <= ml.len(),
        forall|b: Block, f: int, t: int, p: Option<Piece>| blocks.contains(b) ==> !#[trigger] block_target(pos, side, co, b, f, t, p),
    ensures
        seg_ok(ml, ml, c0, c0, pos, side, co, blocks),
{
    reveal(seg_ok);
}

/// The en passant captures added from the left and from the right neighbour of
/// the pawn that just moved two squares are all of them.
#[verifier::spinoff_prover]
proof fn lemma_ep_block(
    pos: Position,
    ml1: Seq<Option<Move>>,
    ml2: Seq<Option<Move>>,
    c0: int,
    c1: int,
    c2: int,
    lt: int,
    added_left: bool,
    added_right: bool,
    side: Side,
    co: bool,
)
    requires
        0 <= c0,
        0 <= lt < 64,
        pos.ply_from_start_of_game > 0,
        pos.game_at(pos.ply_from_start_of_game as int) matches Some(g) && g.to as int == lt && abs_diff(g.from as int, lt) == 16,
        pos.board.value[lt] == Piece::Pawn,
        only_filled(pos.move_list@, ml1, c0, c1),
        only_filled(ml1, ml2, c1, c2),
        c1 == c0 + (if added_left { 1int } else { 0int }),
        c2 == c1 + (if added_right { 1int } else { 0int }),
        added_left == (lt % 8 > 0 && pos.board.view()[lt - 1] == Some((side, Piece::Pawn)) && right_index(side == Side::White, lt - 1) >= 0),
        added_right == (lt % 8 < 7 && pos.board.view()[lt + 1] == Some((side, Piece::Pawn)) && left_index(side == Side::White, lt + 1) >= 0),
        added_left ==> (ml1[c0] matches Some(m) && m.from as int == lt - 1 && m.to as int == right_index(side == Side::White, lt - 1)
            && m.promote is None && m.score == (10 + CAPTURE_SCORE) as isize),
        added_right ==> (ml2[c1] matches Some(m) && m.from as int == lt + 1 && m.to as int == left_index(side == Side::White, lt + 1)
            && m.promote is None && m.score == (10 + CAPTURE_SCORE) as isize),
    ensures
        seg_ok(pos.move_list@, ml2, c0, c2, pos, side, co, set![Block::EnPassant]),
{
    reveal(seg_ok);
    lemma_only_filled_trans(pos.move_list@, ml1, ml2, c0, c1, c2);
    let blocks = set![Block::EnPassant];
    assert(blocks.contains(Block::EnPassant));
    let w = side == Side::White;
    assert(lt - 1 < 64 && lt + 1 >= 0);
    assert forall|i: int| c0 <= i < c2 implies (#[trigger] ml2[i] matches Some(m) && exists|b: Block| #[trigger] blocks.contains(b)
        && block_sound(pos, side, co, b, m)) by {
        if i < c1 {
            assert(ml2[i] == ml1[i]);
            assert(i == c0);
            assert(right_index(w, lt - 1) < 64);
        } else {
            assert(i == c1);
            assert(left_index(w, lt + 1) < 64);
        }
        assert(block_sound(pos, side, co, Block::EnPassant, ml2[i]->Some_0));
    }
    assert forall|b: Block, f: int, t: int, p: Option<Piece>|
        blocks.contains(b) && #[trigger] block_target(pos, side, co, b, f, t, p) implies has_move(ml2, c0, c2, f, t, p) by {
        assert(b == Block::EnPassant);
        if f == lt - 1 && lt % 8 > 0 {
            assert(added_left);
            assert(ml2[c0] == ml1[c0]);
            assert(move_at(ml2, c0, f, t, p));
        } else {
            assert(added_right);
            assert(move_at(ml2, c1, f, t, p));
        }
    }
    assert forall|i: int, j: int| c0 <= i < j < c2 implies !#[trigger] same_move(ml2[i], ml2[j]) by {
        assert(ml2[i] == ml1[i]);
        assert(i == c0 && j == c1);
    }
}

impl Position {
    /// The square the last move brought a pawn to, when it moved two squares.
    fn last_double_push(&self) -> (r: Option<usize>)
        ensures
            r matches Some(lt) ==> {
                &&& lt < 64
                &&& self.ply_from_start_of_game > 0
                &&& self.game_at(self.ply_from_start_of_game as int) matches Some(g) && g.to as int == lt && abs_diff(g.from as int, lt as int) == 16
                &&& self.board.value[lt as int] == Piece::Pawn
            },
            r is None ==> !(self.ply_from_start_of_game > 0 && (self.game_at(self.ply_from_start_of_game as int) matches Some(g)
                && self.board.value[g.to as int] == Piece::Pawn && abs_diff(g.from as int, g.to as int) == 16)),
    {
        if self.ply_from_start_of_game == 0 {
            return None;
        }
        match self.game_entry(self.ply_from_start_of_game) {
            Some(e) => {
                let lf = e.from as usize;
                let lt = e.to as usize;
                if self.board.value[lt] == Piece::Pawn && (if lf > lt { lf - lt } else { lt - lf }) == 16 {
                    Some(lt)
                } else {
                    None
                }
            },
            None => None,
        }
    }
}

impl Position {
    /// Adds the en passant capture of the pawn of `side` on `f`, if one stands
    /// there, towards the h-file (`right`) or the a-file; returns whether it did.
    fn add_ep_capture_from(&mut self, f: usize, side: Side, right: bool, count: &mut usize) -> (added: bool)
        requires
            old(self).board.wf(),
            f < 64,
            *old(count) <= old(self).move_list@.len(),
            *old(count) < usize::MAX,
        ensures
            *final(self) == (Position { move_list: final(self).move_list, ..*old(self) }),
            *final(count) == *old(count) + (if added { 1int } else { 0int }),
            only_filled(old(self).move_list@, final(self).move_list@, *old(count) as int, *final(count) as int),
            added == (old(self).board.view()[f as int] == Some((side, Piece::Pawn)) && (if right {
                right_index(side == Side::White, f as int)
            } else {
                left_index(side == Side::White, f as int)
            }) >= 0),
            added ==> (final(self).move_list@[*old(count) as int] matches Some(m) && m.from as int == f && m.to as int == (if right {
                right_index(side == Side::White, f as int)
            } else {
                left_index(side == Side::White, f as int)
            }) && m.promote is None && m.score == (10 + CAPTURE_SCORE) as isize),
    {
        let s = side as usize;
        proof {
            lemma_wf_bits(self.board, f as int);
        }
        if self.board.bit_pieces[s][0].is_bit_set(square_of(f)) {
            let target = self.tables.pawn_capture_square(s, f, right);
            if target >= 0 {
                let m = Move { from: square_of(f), to: square_of(target as usize), promote: None, score: 10 + CAPTURE_SCORE as isize };
                self.add_one(m, count);
                return true;
            }
        }
        false
    }
}

/// Every block of the moves a side generates.
pub open spec fn all_blocks() -> Set<Block> {
    set![
        Block::EnPassant,
        Block::Castling,
        Block::Pieces(Category::PawnCaptures(false)),
        Block::Pieces(Category::PawnCaptures(true)),
        Block::Pieces(Category::PawnPushes),
        Block::Pieces(Category::PieceMoves(Piece::Knight)),
        Block::Pieces(Category::PieceMoves(Piece::Bishop)),
        Block::Pieces(Category::PieceMoves(Piece::Rook)),
        Block::Pieces(Category::PieceMoves(Piece::Queen)),
        Block::King,
    ]
}

/// `m` is a move `side` generates in `pos` (only captures when `captures_only`):
/// an en passant capture, a castling, a pawn capture or move forward, a move of a
/// knight, bishop, rook or queen, or a move of the king on the lowest square
/// holding one, each with its score.
pub open spec fn generated_move(pos: Position, side: Side, captures_only: bool, m: Move) -> bool {
    exists|b: Block| #[trigger] all_blocks().contains(b) && block_sound(pos, side, captures_only, b, m)
}

/// `side` generates in `pos` a move from `f` to `t` promoting to `p`.
pub open spec fn generation_target(pos: Position, side: Side, captures_only: bool, f: int, t: int, p: Option<Piece>) -> bool {
    exists|b: Block| #[trigger] all_blocks().contains(b) && block_target(pos, side, captures_only, b, f, t, p)
}

/// `b` is `a` after generating the moves of `side` for the current ply: they
/// fill the move list from where the ply's moves start to where the next ply's
/// start, which is recorded; every generated move is there, and nothing else
/// is; and, unless an en passant or castle record of `a` contradicts its board,
/// no move is there twice.
pub open spec fn moves_generated(a: Position, b: Position, side: Side, captures_only: bool) -> bool {
    let lo = a.first_move@[a.ply as int] as int;
    let hi = b.first_move@[a.ply + 1] as int;
    &&& b == (Position { move_list: b.move_list, first_move: b.first_move, ..a })
    &&& b.first_move@ == a.first_move@.update(a.ply + 1, hi as isize)
    &&& lo <= hi
    &&& only_filled(a.move_list@, b.move_list@, lo, hi)
    &&& forall|i: int| lo <= i < hi ==> (#[trigger] b.move_list@[i] matches Some(m) && generated_move(a, side, captures_only, m))
    &&& forall|f: int, t: int, p: Option<Piece>|
        #[trigger] generation_target(a, side, captures_only, f, t, p) ==> has_move(b.move_list@, lo, hi, f, t, p)
    &&& generation_clean(a, side) ==> distinct_moves(b.move_list@, lo, hi)
}

/// A block generated in a position differing from `a` only in its move list
/// extends the moves generated so far.
#[verifier::spinoff_prover]
proof fn lemma_seg_step(
    a: Position,
    pk: Position,
    ml0: Seq<Option<Move>>,
    mlk1: Seq<Option<Move>>,
    s0: int,
    ck: int,
    ck1: int,
    side: Side,
    co: bool,
    acc: Set<Block>,
    new: Set<Block>,
)
    requires
        0 <= s0,
        seg_ok(ml0, pk.move_list@, s0, ck, a, side, co, acc),
        pk == (Position { move_list: pk.move_list, ..a }),
        seg_ok(pk.move_list@, mlk1, ck, ck1, pk, side, co, new),
        forall|k: Block| #[trigger] acc.contains(k) ==> gen_block(k) && !new.contains(k),
        forall|k: Block| #[trigger] new.contains(k) ==> gen_block(k),
    ensures
        seg_ok(ml0, mlk1, s0, ck1, a, side, co, acc + new),
{
    reveal(seg_ok);
    assert forall|b: Block, m: Move| #[trigger] block_sound(pk, side, co, b, m) == block_sound(a, side, co, b, m) by {
        lemma_block_same(a, pk, side, co, b, m, 0, 0, None);
    }
    assert forall|b: Block, f: int, t: int, p: Option<Piece>| #[trigger] block_target(pk, side, co, b, f, t, p) == block_target(a, side, co, b, f, t, p) by {
        lemma_block_same(a, pk, side, co, b, Move { from: crate::types::Square::A1, to: crate::types::Square::A1, promote: None, score: 0 }, f, t, p);
    }
    let mlk = pk.move_list@;
    assert forall|i: int| ck <= i < ck1 implies (#[trigger] mlk1[i] matches Some(m) && exists|b: Block| #[trigger] new.contains(b)
        && block_sound(a, side, co, b, m)) by {
        let m = mlk1[i]->Some_0;
        let b = choose|b: Block| #[trigger] new.contains(b) && block_sound(pk, side, co, b, m);
        assert(block_sound(pk, side, co, b, m) == block_sound(a, side, co, b, m));
    }
    assert forall|b: Block, f: int, t: int, p: Option<Piece>|
        new.contains(b) && #[trigger] block_target(a, side, co, b, f, t, p) implies has_move(mlk1, ck, ck1, f, t, p) by {
        assert(block_target(pk, side, co, b, f, t, p) == block_target(a, side, co, b, f, t, p));
    }
    assert forall|f: int, t: int, p: Option<Piece>| #[trigger] ep_target(pk, side, f, t, p) == ep_target(a, side, f, t, p) by {
        assert(block_target(pk, side, co, Block::EnPassant, f, t, p) == block_target(a, side, co, Block::EnPassant, f, t, p));
    }
    if generation_clean(a, side) {
        assert(pk.board == a.board && pk.castle == a.castle);
        assert forall|f: int, t: int, p: Option<Piece>| #[trigger] ep_target(pk, side, f, t, p) implies pk.board.view()[t] is None by {
            lemma_block_same(a, pk, side, co, Block::EnPassant, Move { from: crate::types::Square::A1, to: crate::types::Square::A1, promote: None, score: 0 }, f, t, p);
            assert(ep_target(a, side, f, t, p));
        }
        assert(generation_clean(pk, side));
    }
    assert(seg_ok(mlk, mlk1, ck, ck1, a, side, co, new));
    lemma_seg_join(ml0, pk.move_list@, mlk1, s0, ck, ck1, a, side, co, acc, new);
}

/// The moves of all pieces of a category make its block.
proof fn lemma_cat_seg(pos: Position, ml: Seq<Option<Move>>, lo: int, hi: int, side: Side, cat: Category, co: bool)
    requires
        cat_added(pos, ml, lo, hi, side, cat, co, 0),
    ensures
        seg_ok(pos.move_list@, ml, lo, hi, pos, side, co, set![Block::Pieces(cat)]),
{
    reveal(seg_ok);
    reveal(cat_added);
    let blocks = set![Block::Pieces(cat)];
    assert(blocks.contains(Block::Pieces(cat)));
    assert forall|i: int| lo <= i < hi implies (#[trigger] ml[i] matches Some(m) && exists|b: Block| #[trigger] blocks.contains(b)
        && block_sound(pos, side, co, b, m)) by {
        assert(block_sound(pos, side, co, Block::Pieces(cat), ml[i]->Some_0));
    }
    assert forall|b: Block, f: int, t: int, p: Option<Piece>|
        blocks.contains(b) && #[trigger] block_target(pos, side, co, b, f, t, p) implies has_move(ml, lo, hi, f, t, p) by {
        lemma_bit_ops(0u64, 0u64, f);
    }
}

/// The moves of the king on the lowest square holding one make its block.
proof fn lemma_king_seg(pos: Position, ml: Seq<Option<Move>>, lo: int, hi: int, side: Side, co: bool, k: int)
    requires
        k == first_king(pos.board.view(), side),
        from_added(pos, ml, lo, hi, side, Category::PieceMoves(Piece::King), co, k),
    ensures
        seg_ok(pos.move_list@, ml, lo, hi, pos, side, co, set![Block::King]),
{
    reveal(seg_ok);
    reveal(from_added);
    let blocks = set![Block::King];
    assert(blocks.contains(Block::King));
    assert forall|i: int| lo <= i < hi implies (#[trigger] ml[i] matches Some(m) && exists|b: Block| #[trigger] blocks.contains(b)
        && block_sound(pos, side, co, b, m)) by {
        assert(block_sound(pos, side, co, Block::King, ml[i]->Some_0));
    }
}

impl Position {
    /// Adds the moves of the king of `side` on the lowest square holding one:
    /// its captures, then (unless only captures are asked for) its other moves.
    fn add_king_moves(&mut self, side: Side, captures_only: bool, count: &mut usize)
        requires
            old(self).board.wf(),
            has_king(old(self).board.view(), side),
            *old(count) <= old(self).move_list@.len(),
            *old(count) + 128 <= usize::MAX,
        ensures
            *final(self) == (Position { move_list: final(self).move_list, ..*old(self) }),
            *old(count) <= *final(count) <= *old(count) + 128,
            *final(count) <= final(self).move_list@.len(),
            seg_ok(old(self).move_list@, final(self).move_list@, *old(count) as int, *final(count) as int, *old(self), side,
                captures_only, set![Block::King]),
    {
        let ghost pos = *self;
        let ghost c0 = *count;
        let k = self.king_square(side);
        self.add_moves_from(k, Piece::King, side, captures_only, count);
        proof {
            lemma_king_seg(pos, self.move_list@, c0 as int, *count as int, side, captures_only, k as int);
        }
    }

    /// Adds the moves of all pieces of a category and extends the block of moves so far.
    fn add_block(&mut self, side: Side, cat: Category, captures_only: bool, count: &mut usize, Ghost(a): Ghost<Position>, Ghost(s0): Ghost<int>, Ghost(acc): Ghost<Set<Block>>)
        requires
            old(self).board.wf(),
            cat_ok(cat),
            !(cat matches Category::PieceMoves(k) && k == Piece::King),
            0 <= s0,
            *old(count) <= old(self).move_list@.len(),
            *old(count) + 8192 <= usize::MAX,
            *old(self) == (Position { move_list: old(self).move_list, ..a }),
            seg_ok(a.move_list@, old(self).move_list@, s0, *old(count) as int, a, side, captures_only, acc),
            forall|k: Block| #[trigger] acc.contains(k) ==> gen_block(k) && k != Block::Pieces(cat),
        ensures
            *final(self) == (Position { move_list: final(self).move_list, ..a }),
            *old(count) <= *final(count) <= *old(count) + 8192,
            *final(count) <= final(self).move_list@.len(),
            seg_ok(a.move_list@, final(self).move_list@, s0, *final(count) as int, a, side, captures_only, acc + set![Block::Pieces(cat)]),
    {
        let ghost pk = *self;
        let ghost ck = *count;
        self.add_cat_moves(side, cat, captures_only, count);
        proof {
            lemma_cat_seg(pk, self.move_list@, ck as int, *count as int, side, cat, captures_only);
            lemma_seg_step(a, pk, a.move_list@, self.move_list@, s0, ck as int, *count as int, side, captures_only, acc, set![Block::Pieces(cat)]);
        }
    }
}

/// What a side generates depends only on the board, the game record, the castle
/// rights and the history table.
pub proof fn lemma_targets_same(a: Position, pk: Position, side: Side, co: bool)
    requires
        pk.board == a.board,
        pk.game_list == a.game_list,
        pk.ply_from_start_of_game == a.ply_from_start_of_game,
        pk.castle == a.castle,
        pk.history_table == a.history_table,
    ensures
        forall|f: int, t: int, p: Option<Piece>| #[trigger] generation_target(pk, side, co, f, t, p) == generation_target(a, side, co, f, t, p),
        forall|m: Move| #[trigger] generated_move(pk, side, co, m) == generated_move(a, side, co, m),
{
    let dummy = Move { from: crate::types::Square::A1, to: crate::types::Square::A1, promote: None, score: 0 };
    assert forall|f: int, t: int, p: Option<Piece>| #[trigger] generation_target(pk, side, co, f, t, p) == generation_target(a, side, co, f, t, p) by {
        assert forall|b: Block| #[trigger] block_target(pk, side, co, b, f, t, p) == block_target(a, side, co, b, f, t, p) by {
            lemma_block_same(a, pk, side, co, b, dummy, f, t, p);
        }
    }
    assert forall|m: Move| #[trigger] generated_move(pk, side, co, m) == generated_move(a, side, co, m) by {
        assert forall|b: Block| #[trigger] block_sound(pk, side, co, b, m) == block_sound(a, side, co, b, m) by {
            lemma_block_same(a, pk, side, co, b, m, 0, 0, None);
        }
    }
}

/// What a side generates depends only on the squares of the board, the castle
/// rights and the last move of the game record.
pub proof fn lemma_targets_same_view(a: Position, pk: Position, side: Side, co: bool)
    requires
        pk.board.view() == a.board.view(),
        pk.ply_from_start_of_game == a.ply_from_start_of_game,
        pk.game_at(pk.ply_from_start_of_game as int) == a.game_at(a.ply_from_start_of_game as int),
        pk.castle == a.castle,
    ensures
        forall|f: int, t: int, p: Option<Piece>| #[trigger] generation_target(pk, side, co, f, t, p) == generation_target(a, side, co, f, t, p),
{
    crate::make_move::lemma_value_is_piece(a.board);
    crate::make_move::lemma_value_is_piece(pk.board);
    assert forall|f: int, t: int, p: Option<Piece>| #[trigger] generation_target(pk, side, co, f, t, p) == generation_target(a, side, co, f, t, p) by {
        assert forall|b: Block| #[trigger] block_target(pk, side, co, b, f, t, p) == block_target(a, side, co, b, f, t, p) by {
            match b {
                Block::EnPassant => {
                    assert(ep_target(pk, side, f, t, p) == ep_target(a, side, f, t, p));
                },
                Block::Castling => {
                    assert(castle_gen_target(pk, side, f, t, p) == castle_gen_target(a, side, f, t, p));
                },
                Block::Pieces(cat) => {
                    assert(cat_target(pk, side, cat, co, f, t, p) == cat_target(a, side, cat, co, f, t, p));
                },
                Block::King => {
                    assert(cat_target(pk, side, Category::PieceMoves(Piece::King), co, f, t, p) == cat_target(a, side, Category::PieceMoves(Piece::King), co, f, t, p));
                },
            }
        }
    }
}

/// The moves of a block depend only on the board, the game record, the castle
/// rights and the history table.
#[verifier::spinoff_prover]
proof fn lemma_block_same(a: Position, pk: Position, side: Side, co: bool, b: Block, m: Move, f: int, t: int, p: Option<Piece>)
    requires
        pk.board == a.board,
        pk.game_list == a.game_list,
        pk.ply_from_start_of_game == a.ply_from_start_of_game,
        pk.castle == a.castle,
        pk.history_table == a.history_table,
    ensures
        block_sound(pk, side, co, b, m) == block_sound(a, side, co, b, m),
        block_target(pk, side, co, b, f, t, p) == block_target(a, side, co, b, f, t, p),
{
    assert(pk.board == a.board);
    assert(pk.board.view() == a.board.view());
    match b {
        Block::EnPassant => {
            assert(pk.game_at(pk.ply_from_start_of_game as int) == a.game_at(a.ply_from_start_of_game as int));
            assert(ep_target(pk, side, m.from as int, m.to as int, m.promote) == ep_target(a, side, m.from as int, m.to as int, m.promote));
            assert(ep_target(pk, side, f, t, p) == ep_target(a, side, f, t, p));
        },
        Block::Castling => {
            assert(castle_gen_target(pk, side, m.from as int, m.to as int, m.promote) == castle_gen_target(a, side, m.from as int, m.to as int, m.promote));
            assert(castle_gen_target(pk, side, f, t, p) == castle_gen_target(a, side, f, t, p));
        },
        Block::Pieces(cat) => {
            lemma_cat_same(a, pk, side, co, cat, m.from as int, m.to as int, m.promote);
            lemma_cat_same(a, pk, side, co, cat, f, t, p);
        },
        Block::King => {
            lemma_cat_same(a, pk, side, co, Category::PieceMoves(Piece::King), m.from as int, m.to as int, m.promote);
            lemma_cat_same(a, pk, side, co, Category::PieceMoves(Piece::King), f, t, p);
        },
    }
}

/// The moves of a category depend only on the board and the history table.
proof fn lemma_cat_same(a: Position, pk: Position, side: Side, co: bool, cat: Category, f: int, t: int, p: Option<Piece>)
    requires
        pk.board == a.board,
        pk.game_list == a.game_list,
        pk.ply_from_start_of_game == a.ply_from_start_of_game,
        pk.castle == a.castle,
        pk.history_table == a.history_table,
    ensures
        cat_target(pk, side, cat, co, f, t, p) == cat_target(a, side, cat, co, f, t, p),
        cat_score(pk, cat, f, t) == cat_score(a, cat, f, t),
{
    assert(pk.board == a.board);
    match cat {
        Category::PieceMoves(k) => {
            assert(piece_target(pk, side, k, co, f, t) == piece_target(a, side, k, co, f, t));
        },
        Category::PawnCaptures(right) => {
            assert(pawn_capture_target(pk, side, f, t, p, right) == pawn_capture_target(a, side, f, t, p, right));
        },
        Category::PawnPushes => {
            assert(pawn_push_target(pk, side, f, t, p) == pawn_push_target(a, side, f, t, p));
        },
    }
}

impl Position {
    /// Generates the moves of `side` for the current ply: en passant captures,
    /// castlings, pawn captures and moves forward, the moves of the knights,
    /// bishops, rooks and queens, and those of the king; captures are scored by
    /// the pieces involved, quiet moves by the history table. The moves fill the
    /// move list from where the moves of the ply start, and where the moves of
    /// the next ply start is recorded.
    pub fn generate_moves_and_captures(&mut self, side: Side)
        requires
            old(self).board.wf(),
            has_king(old(self).board.view(), side),
            old(self).ply + 1 < old(self).first_move@.len(),
            0 <= old(self).first_move@[old(self).ply as int],
            old(self).first_move@[old(self).ply as int] <= old(self).move_list@.len(),
            old(self).first_move@[old(self).ply as int] + 60000 <= isize::MAX,
        ensures
            moves_generated(*old(self), *final(self), side, false),
    {
        self.generate(side, false);
    }

    /// Generates the captures of `side` for the current ply (en passant, pawn,
    /// knight, bishop, rook, queen and king captures), as
    /// `generate_moves_and_captures` does.
    pub fn generate_captures(&mut self, side: Side)
        requires
            old(self).board.wf(),
            has_king(old(self).board.view(), side),
            old(self).ply + 1 < old(self).first_move@.len(),
            0 <= old(self).first_move@[old(self).ply as int],
            old(self).first_move@[old(self).ply as int] <= old(self).move_list@.len(),
            old(self).first_move@[old(self).ply as int] + 60000 <= isize::MAX,
        ensures
            moves_generated(*old(self), *final(self), side, true),
    {
        self.generate(side, true);
    }

    #[verifier::spinoff_prover]
    #[verifier::rlimit(60)]
    fn generate(&mut self, side: Side, captures_only: bool)
        requires
            old(self).board.wf(),
            has_king(old(self).board.view(), side),
            old(self).ply + 1 < old(self).first_move@.len(),
            0 <= old(self).first_move@[old(self).ply as int],
            old(self).first_move@[old(self).ply as int] <= old(self).move_list@.len(),
            old(self).first_move@[old(self).ply as int] + 60000 <= isize::MAX,
        ensures
            moves_generated(*old(self), *final(self), side, captures_only),
    {
        let ghost a = *self;
        let co = captures_only;
        let start = self.first_move[self.ply] as usize;
        let mut count = start;
        let ghost s0 = start as int;
        proof {
            lemma_seg_empty(a.move_list@, s0, a, side, co, Set::empty());
        }
        let ghost p0 = *self;
        let ghost c0 = count;
        self.add_en_passant_moves(side, co, &mut count);
        proof {
            lemma_seg_step(a, p0, a.move_list@, self.move_list@, s0, c0 as int, count as int, side, co, Set::empty(), set![Block::EnPassant]);
        }
        let ghost acc1 = Set::<Block>::empty() + set![Block::EnPassant];
        let ghost p1 = *self;
        let ghost c1 = count;
        if !co {
            self.add_castle_moves(side, &mut count);
        } else {
            proof {
                lemma_seg_empty(self.move_list@, count as int, p1, side, co, set![Block::Castling]);
            }
        }
        proof {
            lemma_seg_step(a, p1, a.move_list@, self.move_list@, s0, c1 as int, count as int, side, co, acc1, set![Block::Castling]);
        }
        let ghost acc2 = acc1 + set![Block::Castling];
        self.add_block(side, Category::PawnCaptures(false), co, &mut count, Ghost(a), Ghost(s0), Ghost(acc2));
        let ghost acc3 = acc2 + set![Block::Pieces(Category::PawnCaptures(false))];
        self.add_block(side, Category::PawnCaptures(true), co, &mut count, Ghost(a), Ghost(s0), Ghost(acc3));
        let ghost acc4 = acc3 + set![Block::Pieces(Category::PawnCaptures(true))];
        self.add_block(side, Category::PawnPushes, co, &mut count, Ghost(a), Ghost(s0), Ghost(acc4));
        let ghost acc5 = acc4 + set![Block::Pieces(Category::PawnPushes)];
        self.add_block(side, Category::PieceMoves(Piece::Knight), co, &mut count, Ghost(a), Ghost(s0), Ghost(acc5));
        let ghost acc6 = acc5 + set![Block::Pieces(Category::PieceMoves(Piece::Knight))];
        self.add_block(side, Category::PieceMoves(Piece::Bishop), co, &mut count, Ghost(a), Ghost(s0), Ghost(acc6));
        let ghost acc7 = acc6 + set![Block::Pieces(Category::PieceMoves(Piece::Bishop))];
        self.add_block(side, Category::PieceMoves(Piece::Rook), co, &mut count, Ghost(a), Ghost(s0), Ghost(acc7));
        let ghost acc8 = acc7 + set![Block::Pieces(Category::PieceMoves(Piece::Rook))];
        self.add_block(side, Category::PieceMoves(Piece::Queen), co, &mut count, Ghost(a), Ghost(s0), Ghost(acc8));
        let ghost acc9 = acc8 + set![Block::Pieces(Category::PieceMoves(Piece::Queen))];
        let ghost p9 = *self;
        let ghost c9 = count;
        self.add_king_moves(side, co, &mut count);
        proof {
            lemma_seg_step(a, p9, a.move_list@, self.move_list@, s0, c9 as int, count as int, side, co, acc9, set![Block::King]);
        }
        let ghost acc10 = acc9 + set![Block::King];
        proof {
            vstd::std_specs::vec::axiom_spec_len(&self.first_move);
        }
        let next = self.ply + 1;
        self.first_move[next] = count as isize;
        proof {
            assert(acc10 =~= all_blocks());
            lemma_seg_conclude(a, *self, side, co, s0, count as int);
        }
    }
}

/// The moves generated from `lo` to `hi`, all blocks together, are what
/// `moves_generated` says.
proof fn lemma_seg_conclude(a: Position, b: Position, side: Side, co: bool, lo: int, hi: int)
    requires
        seg_ok(a.move_list@, b.move_list@, lo, hi, a, side, co, all_blocks()),
        b == (Position { move_list: b.move_list, first_move: b.first_move, ..a }),
        a.ply + 1 < a.first_move@.len(),
        lo == a.first_move@[a.ply as int] as int,
        b.first_move@ == a.first_move@.update(a.ply + 1, hi as isize),
        lo <= hi <= isize::MAX,
    ensures
        moves_generated(a, b, side, co),
{
    reveal(seg_ok);
    assert(b.first_move@[a.ply + 1] as int == hi);
}

} // verus!
