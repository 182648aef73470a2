use vstd::prelude::*;

use crate::bitboard::{bit, lemma_bit_ops};
use crate::constants::{
    BISHOP_SCORE, KING_ENDGAME_SCORE, KING_SCORE, KINGSIDE_DEFENSE, KNIGHT_SCORE, PASSED_SCORE, PAWN_SCORE,
    QUEENSIDE_DEFENSE, QUEEN_SCORE, ROOK_SCORE,
};
use crate::geometry::{
    abs_diff, behind, between, bishop_line, edge_walk, king_step, knight_jump, on_border, pawn_attack,
    queen_line, ray, rook_line, same_anti_diagonal, same_diagonal, same_file, same_rank,
};
use crate::types::{BitBoard, Board, Piece, Square};

verus! {

/// The square with index `i`.
pub fn square_of(i: usize) -> (r: Square)
    requires
        i < 64,
    ensures
        r as int == i,
{
    Square::try_from(i as u8).unwrap()
}

/// Decides `between(a, b, c)`.
fn in_between(a: usize, b: usize, c: usize) -> (r: bool)
    requires
        a < 64,
        b < 64,
        c < 64,
    ensures
        r == between(a as int, b as int, c as int),
{
    let lo = if a < b { a } else { b };
    let hi = if a < b { b } else { a };
    if !(lo < c && c < hi) {
        return false;
    }
    (a / 8 == b / 8 && a / 8 == c / 8) || (a % 8 == b % 8 && a % 8 == c % 8) || (a / 8 + a % 8
        == b / 8 + b % 8 && a / 8 + a % 8 == c / 8 + c % 8) || (a % 8 + b / 8 == b % 8 + a / 8
        && a % 8 + c / 8 == c % 8 + a / 8)
}

/// Decides `ray(start, x, inc, bound)` for a step of either sign.
fn on_ray(start: i32, x: i32, inc: i32, bound: i32) -> (r: bool)
    requires
        0 <= start < 64,
        0 <= x < 64,
        -64 <= bound < 128,
        inc != 0,
        -64 <= inc <= 64,
    ensures
        r == ray(start as int, x as int, inc as int, bound as int),
{
    if inc > 0 {
        start <= x && x <= bound && (x - start) % inc == 0
    } else {
        bound <= x && x <= start && (start - x) % (-inc) == 0
    }
}

/// The number of bits a square index has in a bitboard, used to read a table entry.
proof fn lemma_empty_bitboard()
    ensures
        forall|i: int| 0 <= i < 64 ==> !#[trigger] BitBoard(0).has(i),
{
    assert forall|i: int| 0 <= i < 64 implies !#[trigger] BitBoard(0).has(i) by {
        lemma_bit_ops(0u64, 0u64, i);
    }
}

/// The squares but `b` and those behind `b` seen from `a`, given the edges of `a`
/// in the four diagonal directions.
fn after_bitboard(a: usize, b: usize, edges: (i32, i32, i32, i32)) -> (r: BitBoard)
    requires
        a < 64,
        b < 64,
        edges.0 as int == edge_walk(a as int, -7),
        edges.1 as int == edge_walk(a as int, 7),
        edges.2 as int == edge_walk(a as int, -9),
        edges.3 as int == edge_walk(a as int, 9),
    ensures
        forall|x: int| 0 <= x < 64 ==> #[trigger] r.has(x) == !behind(a as int, b as int, x),
{
    proof {
        lemma_edge_walk_range(a as int, -7);
        lemma_edge_walk_range(a as int, 7);
        lemma_edge_walk_range(a as int, -9);
        lemma_edge_walk_range(a as int, 9);
    }
    let up = a < b;
    let mut bb = BitBoard(0);
    proof { lemma_empty_bitboard(); }
    let mut square_3: usize = 0;
    while square_3 < 64
        invariant
            a < 64,
            b < 64,
            square_3 <= 64,
            up == (a < b),
            edges.0 as int == edge_walk(a as int, -7),
            edges.1 as int == edge_walk(a as int, 7),
            edges.2 as int == edge_walk(a as int, -9),
            edges.3 as int == edge_walk(a as int, 9),
            0 <= edges.0 < 64 && 0 <= edges.1 < 64 && 0 <= edges.2 < 64 && 0 <= edges.3 < 64,
            forall|x: int| 0 <= x < 64 ==> #[trigger] bb.has(x) == (x < square_3 && behind(a as int, b as int, x)),
        decreases 64 - square_3,
    {
        let x = square_3 as i32;
        let bi = b as i32;
        let on_rank = a / 8 == b / 8 && on_ray(bi, x, if up { 1 } else { -1 }, if up { ((b / 8) * 8 + 7) as i32 } else { ((b / 8) * 8) as i32 });
        let on_file = a % 8 == b % 8 && on_ray(bi, x, if up { 8 } else { -8 }, if up { (b % 8 + 56) as i32 } else { (b % 8) as i32 });
        let on_anti = a / 8 + a % 8 == b / 8 + b % 8 && on_ray(bi, x, if up { 7 } else { -7 }, if up { edges.1 } else { edges.0 });
        let on_diag = a % 8 + b / 8 == b % 8 + a / 8 && on_ray(bi, x, if up { 9 } else { -9 }, if up { edges.3 } else { edges.2 });
        if on_rank || on_file || on_anti || on_diag {
            bb.set_bit(square_of(square_3));
        }
        square_3 = square_3 + 1;
    }
    let inverted = BitBoard(!bb.0);
    proof {
        assert forall|x: int| 0 <= x < 64 implies #[trigger] inverted.has(x) == !behind(a as int, b as int, x) by {
            lemma_bit_ops(bb.0, bb.0, x);
            assert(bb.has(x) == behind(a as int, b as int, x));
        }
    }
    inverted
}

/// The index reached by `edge_walk` from `index` in steps of `plus`.
fn walk_to_edge(index: i32, plus: i32) -> (r: i32)
    requires
        0 <= index < 64,
        plus != 0,
        plus < i32::MAX - 64,
    ensures
        r as int == edge_walk(index as int, plus as int),
        0 <= r < 64,
{
    let mut square_index: i32 = index;
    loop
        invariant
            0 <= square_index < 64,
            0 <= index < 64,
            plus != 0,
            plus < i32::MAX - 64,
            edge_walk(square_index as int, plus as int) == edge_walk(index as int, plus as int),
        decreases (if plus > 0 { 64 - square_index } else { square_index as int }),
    {
        let next = square_index + plus;
        if next < 0 || next >= 64 {
            proof {
                assert(edge_walk(square_index as int, plus as int) == square_index as int);
            }
            return square_index;
        }
        let n = next as usize;
        if n % 8 == 0 || n % 8 == 7 || n / 8 == 0 || n / 8 == 7 {
            proof {
                assert(edge_walk(square_index as int, plus as int) == next as int);
            }
            return next;
        }
        proof {
            assert(edge_walk(square_index as int, plus as int) == edge_walk(next as int, plus as int));
        }
        square_index = next;
    }
}

/// The walk to the edge ends on the board.
proof fn lemma_edge_walk_range(i: int, plus: int)
    requires
        0 <= i < 64,
        plus != 0,
    ensures
        0 <= edge_walk(i, plus) < 64,
    decreases (if plus > 0 { 64 - i } else { i }),
{
    let j = i + plus;
    if j < 0 || j >= 64 {
    } else if on_border(j) {
    } else {
        lemma_edge_walk_range(j, plus);
    }
}

/// The squares a knight on `square` jumps to.
#[verifier::rlimit(40)]
fn knight_bitboard(square: usize) -> (r: BitBoard)
    requires
        square < 64,
    ensures
        forall|t: int| 0 <= t < 64 ==> #[trigger] r.has(t) == knight_jump(square as int, t),
{
    let row = square / 8;
    let col = square % 8;
    let mut b = BitBoard(0);
    proof { lemma_empty_bitboard(); }
    if row < 6 && col < 7 { b.set_bit(square_of(square + 17)); }
    if row < 7 && col < 6 { b.set_bit(square_of(square + 10)); }
    if row < 6 && col > 0 { b.set_bit(square_of(square + 15)); }
    if row < 7 && col > 1 { b.set_bit(square_of(square + 6)); }
    if row > 1 && col < 7 { b.set_bit(square_of(square - 15)); }
    if row > 0 && col < 6 { b.set_bit(square_of(square - 6)); }
    if row > 1 && col > 0 { b.set_bit(square_of(square - 17)); }
    if row > 0 && col > 1 { b.set_bit(square_of(square - 10)); }
    proof {
        let s = square as int;
        assert forall|t: int| 0 <= t < 64 implies #[trigger] b.has(t) == knight_jump(s, t) by {
            assert(t == (t / 8) * 8 + t % 8);
            assert(s == (s / 8) * 8 + s % 8);
        }
    }
    b
}

/// The squares a king on `square` steps to.
#[verifier::rlimit(40)]
fn king_bitboard(square: usize) -> (r: BitBoard)
    requires
        square < 64,
    ensures
        forall|t: int| 0 <= t < 64 ==> #[trigger] r.has(t) == king_step(square as int, t),
{
    let row = square / 8;
    let col = square % 8;
    let mut b = BitBoard(0);
    proof { lemma_empty_bitboard(); }
    if col > 0 { b.set_bit(square_of(square - 1)); }
    if col < 7 { b.set_bit(square_of(square + 1)); }
    if row > 0 { b.set_bit(square_of(square - 8)); }
    if row < 7 { b.set_bit(square_of(square + 8)); }
    if col < 7 && row < 7 { b.set_bit(square_of(square + 9)); }
    if col > 0 && row < 7 { b.set_bit(square_of(square + 7)); }
    if col > 0 && row > 0 { b.set_bit(square_of(square - 9)); }
    if col < 7 && row > 0 { b.set_bit(square_of(square - 7)); }
    proof {
        let s = square as int;
        assert forall|t: int| 0 <= t < 64 implies #[trigger] b.has(t) == king_step(s, t) by {
            assert(t == (t / 8) * 8 + t % 8);
            assert(s == (s / 8) * 8 + s % 8);
        }
    }
    b
}

/// A pawn on `s` is passed for white (black) when no square of `t` holds an enemy pawn.
pub open spec fn passed_mask(white: bool, s: int, t: int) -> bool {
    abs_diff(s % 8, t % 8) < 2 && (if white { s / 8 < t / 8 && t / 8 < 7 } else { s / 8 > t / 8 && t / 8 > 0 })
}

/// The squares ahead of a pawn on `s` on its file, for white or black.
pub open spec fn path_mask(white: bool, s: int, t: int) -> bool {
    same_file(s, t) && (if white { s / 8 < t / 8 } else { s / 8 > t / 8 })
}

/// The square a pawn on `s` captures towards the a-file, or -1.
pub open spec fn left_index(white: bool, s: int) -> int {
    if white {
        if s % 8 > 0 && s / 8 < 7 { s + 7 } else { -1 }
    } else {
        if s % 8 > 0 && s / 8 > 0 { s - 9 } else { -1 }
    }
}

/// The square a pawn on `s` captures towards the h-file, or -1.
pub open spec fn right_index(white: bool, s: int) -> int {
    if white {
        if s % 8 < 7 && s / 8 < 7 { s + 9 } else { -1 }
    } else {
        if s % 8 < 7 && s / 8 > 0 { s - 7 } else { -1 }
    }
}

/// The square a pawn on `s` moves to, or -1.
pub open spec fn plus_index(white: bool, s: int) -> int {
    if white {
        if s / 8 < 7 { s + 8 } else { -1 }
    } else {
        if s / 8 > 0 { s - 8 } else { -1 }
    }
}

/// The square a pawn on `s` moves to with two steps, or -1.
pub open spec fn double_index(white: bool, s: int) -> int {
    if white {
        if s / 8 < 6 { s + 16 } else { -1 }
    } else {
        if s / 8 > 1 { s - 16 } else { -1 }
    }
}

/// The masks of one square: passed (white, black), isolated, path (white, black), column.
fn pawn_square_masks(s: usize) -> (r: (BitBoard, BitBoard, BitBoard, BitBoard, BitBoard, BitBoard))
    requires
        s < 64,
    ensures
        forall|t: int| 0 <= t < 64 ==> #[trigger] r.0.has(t) == passed_mask(true, s as int, t),
        forall|t: int| 0 <= t < 64 ==> #[trigger] r.1.has(t) == passed_mask(false, s as int, t),
        forall|t: int| 0 <= t < 64 ==> #[trigger] r.2.has(t) == (abs_diff(s as int % 8, t % 8) == 1),
        forall|t: int| 0 <= t < 64 ==> #[trigger] r.3.has(t) == path_mask(true, s as int, t),
        forall|t: int| 0 <= t < 64 ==> #[trigger] r.4.has(t) == path_mask(false, s as int, t),
        forall|t: int| 0 <= t < 64 ==> #[trigger] r.5.has(t) == same_file(s as int, t),
{
    let mut passed_white = BitBoard(0);
    let mut passed_black = BitBoard(0);
    let mut isolated = BitBoard(0);
    let mut path_white = BitBoard(0);
    let mut path_black = BitBoard(0);
    let mut column = BitBoard(0);
    proof { lemma_empty_bitboard(); }
    let mut t: usize = 0;
    while t < 64
        invariant
            s < 64,
            t <= 64,
            forall|x: int| 0 <= x < 64 ==> #[trigger] passed_white.has(x) == (x < t && passed_mask(true, s as int, x)),
            forall|x: int| 0 <= x < 64 ==> #[trigger] passed_black.has(x) == (x < t && passed_mask(false, s as int, x)),
            forall|x: int| 0 <= x < 64 ==> #[trigger] isolated.has(x) == (x < t && abs_diff(s as int % 8, x % 8) == 1),
            forall|x: int| 0 <= x < 64 ==> #[trigger] path_white.has(x) == (x < t && path_mask(true, s as int, x)),
            forall|x: int| 0 <= x < 64 ==> #[trigger] path_black.has(x) == (x < t && path_mask(false, s as int, x)),
            forall|x: int| 0 <= x < 64 ==> #[trigger] column.has(x) == (x < t && same_file(s as int, x)),
        decreases 64 - t,
    {
        let sc = s % 8;
        let tc = t % 8;
        let sr = s / 8;
        let tr = t / 8;
        let col_diff = if sc >= tc { sc - tc } else { tc - sc };
        let sq = square_of(t);
        if col_diff < 2 {
            if sr < tr && tr < 7 {
                passed_white.set_bit(sq);
            }
            if sr > tr && tr > 0 {
                passed_black.set_bit(sq);
            }
        }
        if col_diff == 1 {
            isolated.set_bit(sq);
        }
        if sc == tc {
            if sr < tr {
                path_white.set_bit(sq);
            }
            if sr > tr {
                path_black.set_bit(sq);
            }
        }
        if sc == tc {
            column.set_bit(sq);
        }
        t = t + 1;
    }
    (passed_white, passed_black, isolated, path_white, path_black, column)
}

/// The bitboard with the square `i`, or the empty bitboard when `i` is -1.
fn single_or_empty(i: i32) -> (r: BitBoard)
    requires
        -1 <= i < 64,
    ensures
        forall|t: int| 0 <= t < 64 ==> #[trigger] r.has(t) == (t == i),
{
    let mut b = BitBoard(0);
    proof { lemma_empty_bitboard(); }
    if i >= 0 {
        b.set_bit(square_of(i as usize));
    }
    b
}

/// The piece-square table of a piece kind (0-5), before the piece's own value.
pub open spec fn piece_table(p: int, i: int) -> i32 {
    if p == 0 {
        PAWN_SCORE[i]
    } else if p == 1 {
        KNIGHT_SCORE[i]
    } else if p == 2 {
        BISHOP_SCORE[i]
    } else if p == 3 {
        ROOK_SCORE[i]
    } else if p == 4 {
        QUEEN_SCORE[i]
    } else {
        KING_SCORE[i]
    }
}

/// The square seen from the other side: rank `r` becomes rank `7 - r`.
pub open spec fn flipped(i: int) -> int {
    (7 - i / 8) * 8 + i % 8
}

/// The score of a piece kind (0-5) of a side (0 white, 1 black) on a square: its table
/// entry (read from the side's own point of view) plus its value; the king has no value.
pub open spec fn square_score_of(side: int, p: int, i: int) -> int {
    let j = if side == 0 { i } else { flipped(i) };
    if p == 5 {
        piece_table(5, j) as int
    } else {
        piece_table(p, j) + crate::board::piece_of_index(p).spec_value()
    }
}

/// The pawn index of kind `kind` (0 left capture, 1 right capture, 2 move, 3 double move).
pub open spec fn pawn_index(kind: int, white: bool, s: int) -> int {
    if kind == 0 {
        left_index(white, s)
    } else if kind == 1 {
        right_index(white, s)
    } else if kind == 2 {
        plus_index(white, s)
    } else {
        double_index(white, s)
    }
}

fn pawn_index_exec(kind: u8, white: bool, s: usize) -> (r: i32)
    requires
        kind < 4,
        s < 64,
    ensures
        r as int == pawn_index(kind as int, white, s as int),
        -1 <= r < 64,
{
    let row = s / 8;
    let col = s % 8;
    let sq = s as i32;
    if kind == 0 {
        if white {
            if col > 0 && row < 7 { sq + 7 } else { -1 }
        } else {
            if col > 0 && row > 0 { sq - 9 } else { -1 }
        }
    } else if kind == 1 {
        if white {
            if col < 7 && row < 7 { sq + 9 } else { -1 }
        } else {
            if col < 7 && row > 0 { sq - 7 } else { -1 }
        }
    } else if kind == 2 {
        if white {
            if row < 7 { sq + 8 } else { -1 }
        } else {
            if row > 0 { sq - 8 } else { -1 }
        }
    } else {
        if white {
            if row < 6 { sq + 16 } else { -1 }
        } else {
            if row > 1 { sq - 16 } else { -1 }
        }
    }
}

/// The table of pawn indices of one kind, for white (0) and black (1).
fn index_table(kind: u8) -> (r: [[i32; 64]; 2])
    requires
        kind < 4,
    ensures
        forall|s: int| 0 <= s < 64 ==> #[trigger] r[0][s] as int == pawn_index(kind as int, true, s),
        forall|s: int| 0 <= s < 64 ==> #[trigger] r[1][s] as int == pawn_index(kind as int, false, s),
        forall|side: int, s: int| 0 <= side < 2 && 0 <= s < 64 ==> -1 <= #[trigger] r[side][s] < 64,
{
    let mut table = [[-1i32; 64]; 2];
    let mut s: usize = 0;
    while s < 64
        invariant
            kind < 4,
            s <= 64,
            forall|x: int| 0 <= x < s ==> #[trigger] table[0][x] as int == pawn_index(kind as int, true, x),
            forall|x: int| 0 <= x < s ==> #[trigger] table[1][x] as int == pawn_index(kind as int, false, x),
            forall|side: int, x: int| 0 <= side < 2 && 0 <= x < 64 ==> -1 <= #[trigger] table[side][x] < 64,
        decreases 64 - s,
    {
        table[0][s] = pawn_index_exec(kind, true, s);
        table[1][s] = pawn_index_exec(kind, false, s);
        s = s + 1;
    }
    table
}

/// For each side and square, the bitboard with the square of an index table (empty for -1).
fn capture_table(index: &[[i32; 64]; 2]) -> (r: [[BitBoard; 64]; 2])
    requires
        forall|side: int, s: int| 0 <= side < 2 && 0 <= s < 64 ==> -1 <= #[trigger] index[side][s] < 64,
    ensures
        forall|side: int, s: int, t: int| 0 <= side < 2 && 0 <= s < 64 && 0 <= t < 64 ==> #[trigger] r[side][s].has(t) == (t == index[side][s]),
{
    let mut table = [[BitBoard(0); 64]; 2];
    let mut s: usize = 0;
    while s < 64
        invariant
            s <= 64,
            forall|side: int, x: int| 0 <= side < 2 && 0 <= x < 64 ==> -1 <= #[trigger] index[side][x] < 64,
            forall|side: int, x: int, t: int| 0 <= side < 2 && 0 <= x < s && 0 <= t < 64 ==> #[trigger] table[side][x].has(t) == (t == index[side][x]),
        decreases 64 - s,
    {
        table[0][s] = single_or_empty(index[0][s]);
        table[1][s] = single_or_empty(index[1][s]);
        s = s + 1;
    }
    table
}

/// For each side and square, the squares from which a pawn of that side captures on
/// the square: the capture squares of a pawn of the other side.
fn defends_table(left: &[[BitBoard; 64]; 2], right: &[[BitBoard; 64]; 2]) -> (r: [[BitBoard; 64]; 2])
    ensures
        forall|s: int, t: int| 0 <= s < 64 && 0 <= t < 64 ==> #[trigger] r[0][s].has(t) == (left[1][s].has(t) || right[1][s].has(t)),
        forall|s: int, t: int| 0 <= s < 64 && 0 <= t < 64 ==> #[trigger] r[1][s].has(t) == (left[0][s].has(t) || right[0][s].has(t)),
{
    let mut table = [[BitBoard(0); 64]; 2];
    let mut s: usize = 0;
    while s < 64
        invariant
            s <= 64,
            forall|x: int, t: int| 0 <= x < s && 0 <= t < 64 ==> #[trigger] table[0][x].has(t) == (left[1][x].has(t) || right[1][x].has(t)),
            forall|x: int, t: int| 0 <= x < s && 0 <= t < 64 ==> #[trigger] table[1][x].has(t) == (left[0][x].has(t) || right[0][x].has(t)),
        decreases 64 - s,
    {
        proof {
            crate::bitboard::lemma_bit_ops_all(left[1][s as int].0, right[1][s as int].0);
            crate::bitboard::lemma_bit_ops_all(left[0][s as int].0, right[0][s as int].0);
        }
        table[0][s] = BitBoard(left[1][s].0 | right[1][s].0);
        table[1][s] = BitBoard(left[0][s].0 | right[0][s].0);
        s = s + 1;
    }
    table
}

/// The passed-pawn and path masks, for white (0) and black (1).
fn passed_and_path_tables() -> (r: ([[BitBoard; 64]; 2], [[BitBoard; 64]; 2]))
    ensures
        forall|s: int, t: int| 0 <= s < 64 && 0 <= t < 64 ==> #[trigger] r.0[0][s].has(t) == passed_mask(true, s, t),
        forall|s: int, t: int| 0 <= s < 64 && 0 <= t < 64 ==> #[trigger] r.0[1][s].has(t) == passed_mask(false, s, t),
        forall|s: int, t: int| 0 <= s < 64 && 0 <= t < 64 ==> #[trigger] r.1[0][s].has(t) == path_mask(true, s, t),
        forall|s: int, t: int| 0 <= s < 64 && 0 <= t < 64 ==> #[trigger] r.1[1][s].has(t) == path_mask(false, s, t),
{
    let mut passed = [[BitBoard(0); 64]; 2];
    let mut path = [[BitBoard(0); 64]; 2];
    let mut s: usize = 0;
    while s < 64
        invariant
            s <= 64,
            forall|x: int, t: int| 0 <= x < s && 0 <= t < 64 ==> #[trigger] passed[0][x].has(t) == passed_mask(true, x, t),
            forall|x: int, t: int| 0 <= x < s && 0 <= t < 64 ==> #[trigger] passed[1][x].has(t) == passed_mask(false, x, t),
            forall|x: int, t: int| 0 <= x < s && 0 <= t < 64 ==> #[trigger] path[0][x].has(t) == path_mask(true, x, t),
            forall|x: int, t: int| 0 <= x < s && 0 <= t < 64 ==> #[trigger] path[1][x].has(t) == path_mask(false, x, t),
        decreases 64 - s,
    {
        let m = pawn_square_masks(s);
        passed[0][s] = m.0;
        passed[1][s] = m.1;
        path[0][s] = m.3;
        path[1][s] = m.4;
        s = s + 1;
    }
    (passed, path)
}

/// The isolated-pawn masks (neighbouring files) and the file masks.
fn isolated_and_column_tables() -> (r: ([BitBoard; 64], [BitBoard; 64]))
    ensures
        forall|s: int, t: int| 0 <= s < 64 && 0 <= t < 64 ==> #[trigger] r.0[s].has(t) == (abs_diff(s % 8, t % 8) == 1),
        forall|s: int, t: int| 0 <= s < 64 && 0 <= t < 64 ==> #[trigger] r.1[s].has(t) == same_file(s, t),
{
    let mut isolated = [BitBoard(0); 64];
    let mut column = [BitBoard(0); 64];
    let mut s: usize = 0;
    while s < 64
        invariant
            s <= 64,
            forall|x: int, t: int| 0 <= x < s && 0 <= t < 64 ==> #[trigger] isolated[x].has(t) == (abs_diff(x % 8, t % 8) == 1),
            forall|x: int, t: int| 0 <= x < s && 0 <= t < 64 ==> #[trigger] column[x].has(t) == same_file(x, t),
        decreases 64 - s,
    {
        let m = pawn_square_masks(s);
        isolated[s] = m.2;
        column[s] = m.5;
        s = s + 1;
    }
    (isolated, column)
}

/// The scores of the six piece kinds on one square, for white and for black.
fn scores_at(sq: usize) -> (r: ([i32; 6], [i32; 6]))
    requires
        sq < 64,
    ensures
        forall|q: int| 0 <= q < 6 ==> #[trigger] r.0[q] as int == square_score_of(0, q, sq as int),
        forall|q: int| 0 <= q < 6 ==> #[trigger] r.1[q] as int == square_score_of(1, q, sq as int),
        -200 <= r.0[5] <= 200,
        -200 <= r.1[5] <= 200,
{
    let f = (7 - sq / 8) * 8 + sq % 8;
    let w = [
        PAWN_SCORE[sq] + Piece::Pawn.value(),
        KNIGHT_SCORE[sq] + Piece::Knight.value(),
        BISHOP_SCORE[sq] + Piece::Bishop.value(),
        ROOK_SCORE[sq] + Piece::Rook.value(),
        QUEEN_SCORE[sq] + Piece::Queen.value(),
        KING_SCORE[sq],
    ];
    let b = [
        PAWN_SCORE[f] + Piece::Pawn.value(),
        KNIGHT_SCORE[f] + Piece::Knight.value(),
        BISHOP_SCORE[f] + Piece::Bishop.value(),
        ROOK_SCORE[f] + Piece::Rook.value(),
        QUEEN_SCORE[f] + Piece::Queen.value(),
        KING_SCORE[f],
    ];
    (w, b)
}

/// The precomputed tables of a position: piece-square scores, attack and move
/// bitboards, pawn masks and indices. They are built once and never change.
pub struct Tables {
    pub(crate) square_score: [[[i32; 64]; 6]; 2],
    pub(crate) king_endgame_score: [[i32; 64]; 2],
    pub(crate) passed_pawns_score: [[i32; 64]; 2],
    pub(crate) bit_between: [[BitBoard; 64]; 64],
    pub(crate) bit_after: [[BitBoard; 64]; 64],
    pub(crate) bit_pawn_left_captures: [[BitBoard; 64]; 2],
    pub(crate) bit_pawn_right_captures: [[BitBoard; 64]; 2],
    pub(crate) bit_pawn_defends: [[BitBoard; 64]; 2],
    pub(crate) bit_knight_moves: [BitBoard; 64],
    pub(crate) bit_bishop_moves: [BitBoard; 64],
    pub(crate) bit_rook_moves: [BitBoard; 64],
    pub(crate) bit_queen_moves: [BitBoard; 64],
    pub(crate) bit_king_moves: [BitBoard; 64],
    pub(crate) mask_passed: [[BitBoard; 64]; 2],
    pub(crate) mask_path: [[BitBoard; 64]; 2],
    pub(crate) mask_column: [BitBoard; 64],
    pub(crate) mask_isolated: [BitBoard; 64],
    pub(crate) mask_kingside: BitBoard,
    pub(crate) mask_queenside: BitBoard,
    pub(crate) not_a_file: BitBoard,
    pub(crate) not_h_file: BitBoard,
    pub(crate) pawn_plus_index: [[i32; 64]; 2],
    pub(crate) pawn_double_index: [[i32; 64]; 2],
    pub(crate) pawn_left_index: [[i32; 64]; 2],
    pub(crate) pawn_right_index: [[i32; 64]; 2],
    pub(crate) ranks: [[u8; 64]; 2],
}

impl Tables {
    /// The move and attack bitboards hold what their names say.
    #[verifier::opaque]
    pub(crate) open spec fn moves_ok(self) -> bool {
        &&& forall|a: int, b: int, c: int| 0 <= a < 64 && 0 <= b < 64 && 0 <= c < 64 ==> #[trigger] self.bit_between[a][b].has(c) == between(a, b, c)
        &&& forall|s: int, t: int| 0 <= s < 64 && 0 <= t < 64 ==> #[trigger] self.bit_knight_moves[s].has(t) == knight_jump(s, t)
        &&& forall|s: int, t: int| 0 <= s < 64 && 0 <= t < 64 ==> #[trigger] self.bit_king_moves[s].has(t) == king_step(s, t)
        &&& forall|s: int, t: int| 0 <= s < 64 && 0 <= t < 64 ==> #[trigger] self.bit_queen_moves[s].has(t) == queen_line(s, t)
        &&& forall|s: int, t: int| 0 <= s < 64 && 0 <= t < 64 ==> #[trigger] self.bit_rook_moves[s].has(t) == rook_line(s, t)
        &&& forall|s: int, t: int| 0 <= s < 64 && 0 <= t < 64 ==> #[trigger] self.bit_bishop_moves[s].has(t) == bishop_line(s, t)
    }

    /// The pawn tables hold what their names say.
    #[verifier::opaque]
    pub(crate) open spec fn pawns_ok(self) -> bool {
        &&& forall|s: int, t: int| 0 <= s < 64 && 0 <= t < 64 ==> #[trigger] self.bit_pawn_left_captures[0][s].has(t) == (t == left_index(true, s))
        &&& forall|s: int, t: int| 0 <= s < 64 && 0 <= t < 64 ==> #[trigger] self.bit_pawn_left_captures[1][s].has(t) == (t == left_index(false, s))
        &&& forall|s: int, t: int| 0 <= s < 64 && 0 <= t < 64 ==> #[trigger] self.bit_pawn_right_captures[0][s].has(t) == (t == right_index(true, s))
        &&& forall|s: int, t: int| 0 <= s < 64 && 0 <= t < 64 ==> #[trigger] self.bit_pawn_right_captures[1][s].has(t) == (t == right_index(false, s))
        &&& forall|s: int, t: int| 0 <= s < 64 && 0 <= t < 64 ==> #[trigger] self.bit_pawn_defends[0][s].has(t) == (t == left_index(false, s) || t == right_index(false, s))
        &&& forall|s: int, t: int| 0 <= s < 64 && 0 <= t < 64 ==> #[trigger] self.bit_pawn_defends[1][s].has(t) == (t == left_index(true, s) || t == right_index(true, s))
        &&& forall|s: int| 0 <= s < 64 ==> #[trigger] self.pawn_left_index[0][s] as int == left_index(true, s)
        &&& forall|s: int| 0 <= s < 64 ==> #[trigger] self.pawn_left_index[1][s] as int == left_index(false, s)
        &&& forall|s: int| 0 <= s < 64 ==> #[trigger] self.pawn_right_index[0][s] as int == right_index(true, s)
        &&& forall|s: int| 0 <= s < 64 ==> #[trigger] self.pawn_right_index[1][s] as int == right_index(false, s)
        &&& forall|s: int| 0 <= s < 64 ==> #[trigger] self.pawn_plus_index[0][s] as int == plus_index(true, s)
        &&& forall|s: int| 0 <= s < 64 ==> #[trigger] self.pawn_plus_index[1][s] as int == plus_index(false, s)
        &&& forall|s: int| 0 <= s < 64 ==> #[trigger] self.pawn_double_index[0][s] as int == double_index(true, s)
        &&& forall|s: int| 0 <= s < 64 ==> #[trigger] self.pawn_double_index[1][s] as int == double_index(false, s)
        &&& forall|t: int| 0 <= t < 64 ==> #[trigger] self.not_a_file.has(t) == (t % 8 != 0)
        &&& forall|t: int| 0 <= t < 64 ==> #[trigger] self.not_h_file.has(t) == (t % 8 != 7)
        &&& forall|s: int| 0 <= s < 64 ==> #[trigger] self.ranks[0][s] as int == s / 8
        &&& forall|s: int| 0 <= s < 64 ==> #[trigger] self.ranks[1][s] as int == 7 - s / 8
    }

    /// The evaluation tables hold what their names say.
    #[verifier::opaque]
    pub(crate) open spec fn eval_ok(self) -> bool {
        &&& forall|s: int, t: int| 0 <= s < 64 && 0 <= t < 64 ==> #[trigger] self.mask_passed[0][s].has(t) == passed_mask(true, s, t)
        &&& forall|s: int, t: int| 0 <= s < 64 && 0 <= t < 64 ==> #[trigger] self.mask_passed[1][s].has(t) == passed_mask(false, s, t)
        &&& forall|s: int, t: int| 0 <= s < 64 && 0 <= t < 64 ==> #[trigger] self.mask_path[0][s].has(t) == path_mask(true, s, t)
        &&& forall|s: int, t: int| 0 <= s < 64 && 0 <= t < 64 ==> #[trigger] self.mask_path[1][s].has(t) == path_mask(false, s, t)
        &&& forall|s: int, t: int| 0 <= s < 64 && 0 <= t < 64 ==> #[trigger] self.mask_column[s].has(t) == same_file(s, t)
        &&& forall|s: int, t: int| 0 <= s < 64 && 0 <= t < 64 ==> #[trigger] self.mask_isolated[s].has(t) == (abs_diff(s % 8, t % 8) == 1)
        &&& forall|t: int| 0 <= t < 64 ==> #[trigger] self.mask_queenside.has(t) == (t % 8 < 2)
        &&& forall|t: int| 0 <= t < 64 ==> #[trigger] self.mask_kingside.has(t) == (t % 8 > 5)
        &&& forall|side: int, p: int, i: int| 0 <= side < 2 && 0 <= p < 6 && 0 <= i < 64 ==> #[trigger] self.square_score[side][p][i] as int == square_score_of(side, p, i)
        &&& forall|i: int| 0 <= i < 64 ==> #[trigger] self.king_endgame_score[0][i] as int == KING_ENDGAME_SCORE[i] - square_score_of(0, 5, i)
        &&& forall|i: int| 0 <= i < 64 ==> #[trigger] self.king_endgame_score[1][i] as int == KING_ENDGAME_SCORE[i] - square_score_of(1, 5, i)
        &&& forall|i: int| 0 <= i < 64 ==> #[trigger] self.passed_pawns_score[0][i] == PASSED_SCORE[i]
        &&& forall|i: int| 0 <= i < 64 ==> #[trigger] self.passed_pawns_score[1][i] == PASSED_SCORE[flipped(i)]
        &&& forall|a: int, b: int, x: int| 0 <= a < 64 && 0 <= b < 64 && 0 <= x < 64 ==> #[trigger] self.bit_after[a][b].has(x) == !behind(a, b, x)
    }

    /// Every table holds what its name says.
    #[verifier::type_invariant]
    pub(crate) open spec fn inv(self) -> bool {
        self.moves_ok() && self.pawns_ok() && self.eval_ok()
    }

    /// Builds every table.
    pub fn new() -> (r: Tables) {
        let (mask_queenside, mask_kingside) = Board::get_queenside_and_kingside_masks();
        let (
            mask_passed,
            mask_isolated,
            mask_path,
            mask_column,
            pawn_left_index,
            pawn_right_index,
            bit_pawn_left_captures,
            bit_pawn_right_captures,
            bit_pawn_defends,
            pawn_plus_index,
            pawn_double_index,
            not_a_file,
            not_h_file,
        ) = Board::get_pawn_masks();
        let (square_score, king_endgame_score, passed_pawns_score) = Board::get_score_tables();
        let (bit_queen_moves, bit_rook_moves, bit_bishop_moves) = Board::get_queen_rook_bishop_moves();
        proof {
            reveal(Tables::moves_ok);
            reveal(Tables::pawns_ok);
            reveal(Tables::eval_ok);
        }
        Tables {
            square_score,
            king_endgame_score,
            passed_pawns_score,
            bit_between: Board::get_bit_between(),
            bit_after: Board::get_bit_after(),
            bit_pawn_left_captures,
            bit_pawn_right_captures,
            bit_pawn_defends,
            bit_knight_moves: Board::get_knight_moves(),
            bit_bishop_moves,
            bit_rook_moves,
            bit_queen_moves,
            bit_king_moves: Board::get_king_moves(),
            mask_passed,
            mask_path,
            mask_column,
            mask_isolated,
            mask_kingside,
            mask_queenside,
            not_a_file,
            not_h_file,
            pawn_plus_index,
            pawn_double_index,
            pawn_left_index,
            pawn_right_index,
            ranks: Board::get_ranks(),
        }
    }
}

impl Tables {
    /// The squares a knight on `s` jumps to.
    pub(crate) fn knight_moves(&self, s: usize) -> (r: u64)
        requires
            s < 64,
        ensures
            forall|t: int| 0 <= t < 64 ==> #[trigger] bit(r, t) == knight_jump(s as int, t),
    {
        proof {
            use_type_invariant(self);
            reveal(Tables::moves_ok);
            assert forall|t: int| 0 <= t < 64 implies #[trigger] bit(self.bit_knight_moves[s as int].0, t) == knight_jump(s as int, t) by {
                assert(self.bit_knight_moves[s as int].has(t) == knight_jump(s as int, t));
            }
        }
        self.bit_knight_moves[s].0
    }

    /// The squares a king on `s` steps to.
    pub(crate) fn king_moves(&self, s: usize) -> (r: u64)
        requires
            s < 64,
        ensures
            forall|t: int| 0 <= t < 64 ==> #[trigger] bit(r, t) == king_step(s as int, t),
    {
        proof {
            use_type_invariant(self);
            reveal(Tables::moves_ok);
            assert forall|t: int| 0 <= t < 64 implies #[trigger] bit(self.bit_king_moves[s as int].0, t) == king_step(s as int, t) by {
                assert(self.bit_king_moves[s as int].has(t) == king_step(s as int, t));
            }
        }
        self.bit_king_moves[s].0
    }

    /// The squares on a rank or file through `s`, other than `s`.
    pub(crate) fn rook_moves(&self, s: usize) -> (r: u64)
        requires
            s < 64,
        ensures
            forall|t: int| 0 <= t < 64 ==> #[trigger] bit(r, t) == rook_line(s as int, t),
    {
        proof {
            use_type_invariant(self);
            reveal(Tables::moves_ok);
            assert forall|t: int| 0 <= t < 64 implies #[trigger] bit(self.bit_rook_moves[s as int].0, t) == rook_line(s as int, t) by {
                assert(self.bit_rook_moves[s as int].has(t) == rook_line(s as int, t));
            }
        }
        self.bit_rook_moves[s].0
    }

    /// The squares on a diagonal through `s`, other than `s`.
    pub(crate) fn bishop_moves(&self, s: usize) -> (r: u64)
        requires
            s < 64,
        ensures
            forall|t: int| 0 <= t < 64 ==> #[trigger] bit(r, t) == bishop_line(s as int, t),
    {
        proof {
            use_type_invariant(self);
            reveal(Tables::moves_ok);
            assert forall|t: int| 0 <= t < 64 implies #[trigger] bit(self.bit_bishop_moves[s as int].0, t) == bishop_line(s as int, t) by {
                assert(self.bit_bishop_moves[s as int].has(t) == bishop_line(s as int, t));
            }
        }
        self.bit_bishop_moves[s].0
    }

    /// The squares strictly between `a` and `b` on a line through both.
    pub(crate) fn between_bits(&self, a: usize, b: usize) -> (r: u64)
        requires
            a < 64,
            b < 64,
        ensures
            forall|c: int| 0 <= c < 64 ==> #[trigger] bit(r, c) == between(a as int, b as int, c),
    {
        proof {
            use_type_invariant(self);
            reveal(Tables::moves_ok);
            assert forall|c: int| 0 <= c < 64 implies #[trigger] bit(self.bit_between[a as int][b as int].0, c) == between(a as int, b as int, c) by {
                assert(self.bit_between[a as int][b as int].has(c) == between(a as int, b as int, c));
            }
        }
        self.bit_between[a][b].0
    }

    /// The square a pawn of the side with index `side` on `s` captures on towards
    /// the a-file (`right` false) or the h-file (`right` true), or -1.
    pub(crate) fn pawn_capture_square(&self, side: usize, s: usize, right: bool) -> (r: i32)
        requires
            side < 2,
            s < 64,
        ensures
            r as int == (if right { right_index(side == 0, s as int) } else { left_index(side == 0, s as int) }),
    {
        proof {
            use_type_invariant(self);
            reveal(Tables::pawns_ok);
        }
        if right {
            self.pawn_right_index[side][s]
        } else {
            self.pawn_left_index[side][s]
        }
    }

    /// The square a pawn of the side with index `side` on `s` moves to, with one
    /// step (`double` false) or two, or -1.
    pub(crate) fn pawn_push_square(&self, side: usize, s: usize, double: bool) -> (r: i32)
        requires
            side < 2,
            s < 64,
        ensures
            r as int == (if double { double_index(side == 0, s as int) } else { plus_index(side == 0, s as int) }),
    {
        proof {
            use_type_invariant(self);
            reveal(Tables::pawns_ok);
        }
        if double {
            self.pawn_double_index[side][s]
        } else {
            self.pawn_plus_index[side][s]
        }
    }

    /// The rank of `s` counted from the side with index `side` (0 on its first rank).
    pub(crate) fn rank_from(&self, side: usize, s: usize) -> (r: u8)
        requires
            side < 2,
            s < 64,
        ensures
            r as int == (if side == 0 { s as int / 8 } else { 7 - s as int / 8 }),
    {
        proof {
            use_type_invariant(self);
            reveal(Tables::pawns_ok);
        }
        self.ranks[side][s]
    }

    /// The score of a piece kind (0-5) of the side with index `side` on `i`.
    pub(crate) fn square_score(&self, side: usize, p: usize, i: usize) -> (r: i32)
        requires
            side < 2,
            p < 6,
            i < 64,
        ensures
            r as int == square_score_of(side as int, p as int, i as int),
            -1200 <= r <= 1200,
    {
        proof {
            use_type_invariant(self);
            reveal(Tables::eval_ok);
            lemma_table_bounds();
            assert(0 <= flipped(i as int) < 64);
        }
        self.square_score[side][p][i]
    }

    /// The score of the king of the side with index `side` on `i` once the
    /// opponent has no queen, less its ordinary score.
    pub(crate) fn king_endgame(&self, side: usize, i: usize) -> (r: i32)
        requires
            side < 2,
            i < 64,
        ensures
            r as int == KING_ENDGAME_SCORE[i as int] - square_score_of(side as int, 5, i as int),
            -1200 <= r <= 1200,
    {
        proof {
            use_type_invariant(self);
            reveal(Tables::eval_ok);
            lemma_table_bounds();
            assert(0 <= flipped(i as int) < 64);
        }
        self.king_endgame_score[side][i]
    }

    /// The bonus of a passed pawn of the side with index `side` on `i`.
    pub(crate) fn passed_score(&self, side: usize, i: usize) -> (r: i32)
        requires
            side < 2,
            i < 64,
        ensures
            r == (if side == 0 { PASSED_SCORE[i as int] } else { PASSED_SCORE[flipped(i as int)] }),
            -200 <= r <= 200,
    {
        proof {
            use_type_invariant(self);
            reveal(Tables::eval_ok);
            lemma_table_bounds();
            assert(0 <= flipped(i as int) < 64);
        }
        self.passed_pawns_score[side][i]
    }

    /// The pawn masks of a pawn of the side with index `side` on `s`: the squares
    /// where an opposing pawn stops it from being passed, and its path ahead.
    pub(crate) fn passed_and_path(&self, side: usize, s: usize) -> (r: (u64, u64))
        requires
            side < 2,
            s < 64,
        ensures
            forall|t: int| 0 <= t < 64 ==> #[trigger] bit(r.0, t) == passed_mask(side == 0, s as int, t),
            forall|t: int| 0 <= t < 64 ==> #[trigger] bit(r.1, t) == path_mask(side == 0, s as int, t),
    {
        proof {
            use_type_invariant(self);
            reveal(Tables::eval_ok);
            assert forall|t: int| 0 <= t < 64 implies #[trigger] bit(self.mask_passed[side as int][s as int].0, t) == passed_mask(side == 0, s as int, t) by {
                assert(self.mask_passed[side as int][s as int].has(t) == passed_mask(side == 0, s as int, t));
            }
            assert forall|t: int| 0 <= t < 64 implies #[trigger] bit(self.mask_path[side as int][s as int].0, t) == path_mask(side == 0, s as int, t) by {
                assert(self.mask_path[side as int][s as int].has(t) == path_mask(side == 0, s as int, t));
            }
        }
        (self.mask_passed[side][s].0, self.mask_path[side][s].0)
    }

    /// The squares on the files next to `s` (`isolated` true) or on the file of `s`.
    pub(crate) fn file_mask(&self, s: usize, isolated: bool) -> (r: u64)
        requires
            s < 64,
        ensures
            forall|t: int| 0 <= t < 64 ==> #[trigger] bit(r, t) == (if isolated { abs_diff(s as int % 8, t % 8) == 1 } else { same_file(s as int, t) }),
    {
        proof {
            use_type_invariant(self);
            reveal(Tables::eval_ok);
            assert forall|t: int| 0 <= t < 64 implies #[trigger] bit(self.mask_isolated[s as int].0, t) == (abs_diff(s as int % 8, t % 8) == 1) by {
                assert(self.mask_isolated[s as int].has(t) == (abs_diff(s as int % 8, t % 8) == 1));
            }
            assert forall|t: int| 0 <= t < 64 implies #[trigger] bit(self.mask_column[s as int].0, t) == same_file(s as int, t) by {
                assert(self.mask_column[s as int].has(t) == same_file(s as int, t));
            }
        }
        if isolated {
            self.mask_isolated[s].0
        } else {
            self.mask_column[s].0
        }
    }

    /// The squares on the two files of the kingside (`kingside` true) or of the queenside.
    pub(crate) fn wing_mask(&self, kingside: bool) -> (r: u64)
        ensures
            forall|t: int| 0 <= t < 64 ==> #[trigger] bit(r, t) == (if kingside { t % 8 > 5 } else { t % 8 < 2 }),
    {
        proof {
            use_type_invariant(self);
            reveal(Tables::eval_ok);
            assert forall|t: int| 0 <= t < 64 implies #[trigger] bit(self.mask_kingside.0, t) == (t % 8 > 5) by {
                assert(self.mask_kingside.has(t) == (t % 8 > 5));
            }
            assert forall|t: int| 0 <= t < 64 implies #[trigger] bit(self.mask_queenside.0, t) == (t % 8 < 2) by {
                assert(self.mask_queenside.has(t) == (t % 8 < 2));
            }
        }
        if kingside {
            self.mask_kingside.0
        } else {
            self.mask_queenside.0
        }
    }

    /// The squares from which a pawn of the side with index `side` captures on `s`.
    pub(crate) fn pawn_defends(&self, side: usize, s: usize) -> (r: u64)
        requires
            side < 2,
            s < 64,
        ensures
            forall|t: int| 0 <= t < 64 ==> #[trigger] bit(r, t) == pawn_attack(side == 0, t, s as int),
    {
        proof {
            use_type_invariant(self);
            reveal(Tables::pawns_ok);
            assert forall|t: int| 0 <= t < 64 implies #[trigger] bit(self.bit_pawn_defends[side as int][s as int].0, t) == pawn_attack(side == 0, t, s as int) by {
                assert(self.bit_pawn_defends[side as int][s as int].has(t) == (if side == 0 { t == left_index(false, s as int) || t == right_index(false, s as int) } else { t == left_index(true, s as int) || t == right_index(true, s as int) }));
                assert(t == (t / 8) * 8 + t % 8);
                assert(s == (s / 8) * 8 + s % 8);
            }
        }
        self.bit_pawn_defends[side][s].0
    }
}

impl Board {
    /// For each side, the rank of each square counted from that side: white counts
    /// from rank 1, black from rank 8.
    pub fn get_ranks() -> (r: [[u8; 64]; 2])
        ensures
            forall|s: int| 0 <= s < 64 ==> #[trigger] r[0][s] as int == s / 8,
            forall|s: int| 0 <= s < 64 ==> #[trigger] r[1][s] as int == 7 - s / 8,
    {
        let mut ranks = [[0u8; 64]; 2];
        let mut square: usize = 0;
        while square < 64
            invariant
                square <= 64,
                forall|s: int| 0 <= s < square ==> #[trigger] ranks[0][s] as int == s / 8,
                forall|s: int| 0 <= s < square ==> #[trigger] ranks[1][s] as int == 7 - s / 8,
            decreases 64 - square,
        {
            let row = (square / 8) as u8;
            ranks[0][square] = row;
            ranks[1][square] = 7 - row;
            square = square + 1;
        }
        ranks
    }

    /// For each square, the squares a knight on it jumps to.
    pub fn get_knight_moves() -> (r: [BitBoard; 64])
        ensures
            forall|s: int, t: int| 0 <= s < 64 && 0 <= t < 64 ==> #[trigger] r[s].has(t) == knight_jump(s, t),
    {
        let mut bit_knight_moves = [BitBoard(0); 64];
        for square in 0..64usize
            invariant
                forall|s: int, t: int| 0 <= s < square && 0 <= t < 64 ==> #[trigger] bit_knight_moves[s].has(t) == knight_jump(s, t),
        {
            let b = knight_bitboard(square);
            bit_knight_moves[square] = b;
        }
        bit_knight_moves
    }

    /// For each square, the squares a king on it steps to.
    pub fn get_king_moves() -> (r: [BitBoard; 64])
        ensures
            forall|s: int, t: int| 0 <= s < 64 && 0 <= t < 64 ==> #[trigger] r[s].has(t) == king_step(s, t),
    {
        let mut bit_king_moves = [BitBoard(0); 64];
        for square in 0..64usize
            invariant
                forall|s: int, t: int| 0 <= s < square && 0 <= t < 64 ==> #[trigger] bit_king_moves[s].has(t) == king_step(s, t),
        {
            let b = king_bitboard(square);
            bit_king_moves[square] = b;
        }
        bit_king_moves
    }

    /// The squares of the a and b files (queenside), and of the g and h files (kingside).
    pub fn get_queenside_and_kingside_masks() -> (r: (BitBoard, BitBoard))
        ensures
            forall|t: int| 0 <= t < 64 ==> #[trigger] r.0.has(t) == (t % 8 < 2),
            forall|t: int| 0 <= t < 64 ==> #[trigger] r.1.has(t) == (t % 8 > 5),
    {
        let mut mask_queenside = BitBoard(0);
        let mut mask_kingside = BitBoard(0);
        proof { lemma_empty_bitboard(); }
        for square in 0..64usize
            invariant
                forall|t: int| 0 <= t < 64 ==> #[trigger] mask_queenside.has(t) == (t < square && t % 8 < 2),
                forall|t: int| 0 <= t < 64 ==> #[trigger] mask_kingside.has(t) == (t < square && t % 8 > 5),
        {
            if square % 8 < 2 {
                mask_queenside.set_bit(square_of(square));
            } else if square % 8 > 5 {
                mask_kingside.set_bit(square_of(square));
            }
        }
        (mask_queenside, mask_kingside)
    }

    /// For each square, the squares a queen, a rook and a bishop on it reach on an empty board.
    pub fn get_queen_rook_bishop_moves() -> (r: ([BitBoard; 64], [BitBoard; 64], [BitBoard; 64]))
        ensures
            forall|s: int, t: int| 0 <= s < 64 && 0 <= t < 64 ==> #[trigger] r.0[s].has(t) == queen_line(s, t),
            forall|s: int, t: int| 0 <= s < 64 && 0 <= t < 64 ==> #[trigger] r.1[s].has(t) == rook_line(s, t),
            forall|s: int, t: int| 0 <= s < 64 && 0 <= t < 64 ==> #[trigger] r.2[s].has(t) == bishop_line(s, t),
    {
        let mut bit_queen_moves = [BitBoard(0); 64];
        let mut bit_rook_moves = [BitBoard(0); 64];
        let mut bit_bishop_moves = [BitBoard(0); 64];
        for square in 0..64usize
            invariant
                forall|s: int, t: int| 0 <= s < square && 0 <= t < 64 ==> #[trigger] bit_queen_moves[s].has(t) == queen_line(s, t),
                forall|s: int, t: int| 0 <= s < square && 0 <= t < 64 ==> #[trigger] bit_rook_moves[s].has(t) == rook_line(s, t),
                forall|s: int, t: int| 0 <= s < square && 0 <= t < 64 ==> #[trigger] bit_bishop_moves[s].has(t) == bishop_line(s, t),
        {
            let mut q = BitBoard(0);
            let mut rk = BitBoard(0);
            let mut bs = BitBoard(0);
            proof { lemma_empty_bitboard(); }
            for square_2 in 0..64usize
                invariant
                    square < 64,
                    forall|t: int| 0 <= t < 64 ==> #[trigger] q.has(t) == (t < square_2 && queen_line(square as int, t)),
                    forall|t: int| 0 <= t < 64 ==> #[trigger] rk.has(t) == (t < square_2 && rook_line(square as int, t)),
                    forall|t: int| 0 <= t < 64 ==> #[trigger] bs.has(t) == (t < square_2 && bishop_line(square as int, t)),
            {
                if square != square_2 {
                    let s = square;
                    let t = square_2;
                    if s / 8 + s % 8 == t / 8 + t % 8 || s % 8 + t / 8 == t % 8 + s / 8 {
                        q.set_bit(square_of(t));
                        bs.set_bit(square_of(t));
                    }
                    if s / 8 == t / 8 || s % 8 == t % 8 {
                        q.set_bit(square_of(t));
                        rk.set_bit(square_of(t));
                    }
                }
            }
            bit_queen_moves[square] = q;
            bit_rook_moves[square] = rk;
            bit_bishop_moves[square] = bs;
        }
        (bit_queen_moves, bit_rook_moves, bit_bishop_moves)
    }

    /// For each pair of squares, the squares strictly between them on a common rank,
    /// file or diagonal (none when they share no line).
    pub fn get_bit_between() -> (r: [[BitBoard; 64]; 64])
        ensures
            forall|a: int, b: int, c: int| 0 <= a < 64 && 0 <= b < 64 && 0 <= c < 64 ==> #[trigger] r[a][b].has(c) == between(a, b, c),
    {
        let mut bit_between = [[BitBoard(0); 64]; 64];
        for square in 0..64usize
            invariant
                forall|a: int, b: int, c: int| 0 <= a < square && 0 <= b < 64 && 0 <= c < 64 ==> #[trigger] bit_between[a][b].has(c) == between(a, b, c),
        {
            for square_2 in 0..64usize
                invariant
                    square < 64,
                    forall|a: int, b: int, c: int| 0 <= a < square && 0 <= b < 64 && 0 <= c < 64 ==> #[trigger] bit_between[a][b].has(c) == between(a, b, c),
                    forall|b: int, c: int| 0 <= b < square_2 && 0 <= c < 64 ==> #[trigger] bit_between[square as int][b].has(c) == between(square as int, b, c),
            {
                let mut bb = BitBoard(0);
                proof { lemma_empty_bitboard(); }
                for square_3 in 0..64usize
                    invariant
                        square < 64,
                        square_2 < 64,
                        forall|c: int| 0 <= c < 64 ==> #[trigger] bb.has(c) == (c < square_3 && between(square as int, square_2 as int, c)),
                {
                    if in_between(square, square_2, square_3) {
                        bb.set_bit(square_of(square_3));
                    }
                }
                bit_between[square][square_2] = bb;
            }
        }
        bit_between
    }

    /// The first square on the border of the board when walking from `square` in
    /// steps of `plus`, or the last square on the board when the walk leaves it first.
    pub fn get_edge(square: Square, plus: i32) -> (r: Square)
        requires
            plus != 0,
            plus < i32::MAX - 64,
        ensures
            r as int == edge_walk(square as int, plus as int),
    {
        let e = walk_to_edge(square as i32, plus);
        square_of(e as usize)
    }

    /// For each pair of squares on a common line, every square but the second one
    /// and those behind it (seen from the first), up to the border; all squares
    /// for a pair on no common line.
    pub fn get_bit_after() -> (r: [[BitBoard; 64]; 64])
        ensures
            forall|a: int, b: int, x: int| 0 <= a < 64 && 0 <= b < 64 && 0 <= x < 64 ==> #[trigger] r[a][b].has(x) == !behind(a, b, x),
    {
        let mut bit_after = [[BitBoard(0); 64]; 64];
        for square in 0..64usize
            invariant
                forall|a: int, b: int, x: int| 0 <= a < square && 0 <= b < 64 && 0 <= x < 64 ==> #[trigger] bit_after[a][b].has(x) == !behind(a, b, x),
        {
            let si = square as i32;
            let edges = (
                walk_to_edge(si, -7),
                walk_to_edge(si, 7),
                walk_to_edge(si, -9),
                walk_to_edge(si, 9),
            );
            for square_2 in 0..64usize
                invariant
                    square < 64,
                    edges.0 as int == edge_walk(square as int, -7),
                    edges.1 as int == edge_walk(square as int, 7),
                    edges.2 as int == edge_walk(square as int, -9),
                    edges.3 as int == edge_walk(square as int, 9),
                    forall|a: int, b: int, x: int| 0 <= a < square && 0 <= b < 64 && 0 <= x < 64 ==> #[trigger] bit_after[a][b].has(x) == !behind(a, b, x),
                    forall|b: int, x: int| 0 <= b < square_2 && 0 <= x < 64 ==> #[trigger] bit_after[square as int][b].has(x) == !behind(square as int, b, x),
            {
                bit_after[square][square_2] = after_bitboard(square, square_2, edges);
            }
        }
        bit_after
    }

    /// The pawn tables: passed-pawn masks, isolated-pawn masks, path masks, file
    /// masks, capture and move indices (-1 where there is none), capture bitboards,
    /// the squares from which pawns defend a square, and the masks of all squares
    /// but the a-file and but the h-file. Index 0 of a side is white, 1 black.
    pub fn get_pawn_masks() -> (r: (
        [[BitBoard; 64]; 2],
        [BitBoard; 64],
        [[BitBoard; 64]; 2],
        [BitBoard; 64],
        [[i32; 64]; 2],
        [[i32; 64]; 2],
        [[BitBoard; 64]; 2],
        [[BitBoard; 64]; 2],
        [[BitBoard; 64]; 2],
        [[i32; 64]; 2],
        [[i32; 64]; 2],
        BitBoard,
        BitBoard,
    ))
        ensures
            forall|s: int, t: int| 0 <= s < 64 && 0 <= t < 64 ==> #[trigger] r.0[0][s].has(t) == passed_mask(true, s, t),
            forall|s: int, t: int| 0 <= s < 64 && 0 <= t < 64 ==> #[trigger] r.0[1][s].has(t) == passed_mask(false, s, t),
            forall|s: int, t: int| 0 <= s < 64 && 0 <= t < 64 ==> #[trigger] r.1[s].has(t) == (abs_diff(s % 8, t % 8) == 1),
            forall|s: int, t: int| 0 <= s < 64 && 0 <= t < 64 ==> #[trigger] r.2[0][s].has(t) == path_mask(true, s, t),
            forall|s: int, t: int| 0 <= s < 64 && 0 <= t < 64 ==> #[trigger] r.2[1][s].has(t) == path_mask(false, s, t),
            forall|s: int, t: int| 0 <= s < 64 && 0 <= t < 64 ==> #[trigger] r.3[s].has(t) == same_file(s, t),
            forall|s: int| 0 <= s < 64 ==> #[trigger] r.4[0][s] as int == left_index(true, s),
            forall|s: int| 0 <= s < 64 ==> #[trigger] r.4[1][s] as int == left_index(false, s),
            forall|s: int| 0 <= s < 64 ==> #[trigger] r.5[0][s] as int == right_index(true, s),
            forall|s: int| 0 <= s < 64 ==> #[trigger] r.5[1][s] as int == right_index(false, s),
            forall|s: int, t: int| 0 <= s < 64 && 0 <= t < 64 ==> #[trigger] r.6[0][s].has(t) == (t == left_index(true, s)),
            forall|s: int, t: int| 0 <= s < 64 && 0 <= t < 64 ==> #[trigger] r.6[1][s].has(t) == (t == left_index(false, s)),
            forall|s: int, t: int| 0 <= s < 64 && 0 <= t < 64 ==> #[trigger] r.7[0][s].has(t) == (t == right_index(true, s)),
            forall|s: int, t: int| 0 <= s < 64 && 0 <= t < 64 ==> #[trigger] r.7[1][s].has(t) == (t == right_index(false, s)),
            forall|s: int, t: int| 0 <= s < 64 && 0 <= t < 64 ==> #[trigger] r.8[0][s].has(t) == (t == left_index(false, s) || t == right_index(false, s)),
            forall|s: int, t: int| 0 <= s < 64 && 0 <= t < 64 ==> #[trigger] r.8[1][s].has(t) == (t == left_index(true, s) || t == right_index(true, s)),
            forall|s: int| 0 <= s < 64 ==> #[trigger] r.9[0][s] as int == plus_index(true, s),
            forall|s: int| 0 <= s < 64 ==> #[trigger] r.9[1][s] as int == plus_index(false, s),
            forall|s: int| 0 <= s < 64 ==> #[trigger] r.10[0][s] as int == double_index(true, s),
            forall|s: int| 0 <= s < 64 ==> #[trigger] r.10[1][s] as int == double_index(false, s),
            forall|t: int| 0 <= t < 64 ==> #[trigger] r.11.has(t) == (t % 8 != 0),
            forall|t: int| 0 <= t < 64 ==> #[trigger] r.12.has(t) == (t % 8 != 7),
    {
        let (mask_passed, mask_path) = passed_and_path_tables();
        let (mask_isolated, mask_column) = isolated_and_column_tables();
        let pawn_left_index = index_table(0);
        let pawn_right_index = index_table(1);
        let pawn_plus_index = index_table(2);
        let pawn_double_index = index_table(3);
        let bit_pawn_left_captures = capture_table(&pawn_left_index);
        let bit_pawn_right_captures = capture_table(&pawn_right_index);
        let bit_pawn_defends = defends_table(&bit_pawn_left_captures, &bit_pawn_right_captures);
        let not_a_file = BitBoard(!mask_column[0].0);
        let not_h_file = BitBoard(!mask_column[7].0);
        proof {
            crate::bitboard::lemma_bit_ops_all(mask_column[0].0, mask_column[7].0);
            crate::bitboard::lemma_bit_ops_all(mask_column[7].0, mask_column[0].0);
            assert forall|t: int| 0 <= t < 64 implies #[trigger] not_a_file.has(t) == (t % 8 != 0) by {
                assert(mask_column[0].has(t) == same_file(0, t));
            }
            assert forall|t: int| 0 <= t < 64 implies #[trigger] not_h_file.has(t) == (t % 8 != 7) by {
                assert(mask_column[7].has(t) == same_file(7, t));
            }
        }
        (
            mask_passed,
            mask_isolated,
            mask_path,
            mask_column,
            pawn_left_index,
            pawn_right_index,
            bit_pawn_left_captures,
            bit_pawn_right_captures,
            bit_pawn_defends,
            pawn_plus_index,
            pawn_double_index,
            not_a_file,
            not_h_file,
        )
    }

    /// The piece-square scores of each side and piece, the king scores for the
    /// endgame (relative to the middlegame king score), and the passed-pawn scores.
    pub fn get_score_tables() -> (r: ([[[i32; 64]; 6]; 2], [[i32; 64]; 2], [[i32; 64]; 2]))
        ensures
            forall|side: int, p: int, i: int| 0 <= side < 2 && 0 <= p < 6 && 0 <= i < 64 ==> #[trigger] r.0[side][p][i] as int == square_score_of(side, p, i),
            forall|i: int| 0 <= i < 64 ==> #[trigger] r.1[0][i] as int == KING_ENDGAME_SCORE[i] - square_score_of(0, 5, i),
            forall|i: int| 0 <= i < 64 ==> #[trigger] r.1[1][i] as int == KING_ENDGAME_SCORE[i] - square_score_of(1, 5, i),
            forall|i: int| 0 <= i < 64 ==> #[trigger] r.2[0][i] == PASSED_SCORE[i],
            forall|i: int| 0 <= i < 64 ==> #[trigger] r.2[1][i] == PASSED_SCORE[flipped(i)],
    {
        let mut square_score = [[[0i32; 64]; 6]; 2];
        let mut king_endgame_score = [[0i32; 64]; 2];
        let mut passed_pawns_score = [[0i32; 64]; 2];
        let mut sq: usize = 0;
        while sq < 64
            invariant
                sq <= 64,
                forall|side: int, p: int, i: int| 0 <= side < 2 && 0 <= p < 6 && 0 <= i < sq ==> #[trigger] square_score[side][p][i] as int == square_score_of(side, p, i),
                forall|i: int| 0 <= i < sq ==> #[trigger] king_endgame_score[0][i] as int == KING_ENDGAME_SCORE[i] - square_score_of(0, 5, i),
                forall|i: int| 0 <= i < sq ==> #[trigger] king_endgame_score[1][i] as int == KING_ENDGAME_SCORE[i] - square_score_of(1, 5, i),
                forall|i: int| 0 <= i < sq ==> #[trigger] passed_pawns_score[0][i] == PASSED_SCORE[i],
                forall|i: int| 0 <= i < sq ==> #[trigger] passed_pawns_score[1][i] == PASSED_SCORE[flipped(i)],
            decreases 64 - sq,
        {
            let (w, b) = scores_at(sq);
            let flipped_sq = (7 - sq / 8) * 8 + sq % 8;
            let mut p: usize = 0;
            while p < 6
                invariant
                    sq < 64,
                    p <= 6,
                    forall|q: int| 0 <= q < 6 ==> #[trigger] w[q] as int == square_score_of(0, q, sq as int),
                    forall|q: int| 0 <= q < 6 ==> #[trigger] b[q] as int == square_score_of(1, q, sq as int),
                    forall|side: int, q: int, i: int| 0 <= side < 2 && 0 <= q < 6 && 0 <= i < sq ==> #[trigger] square_score[side][q][i] as int == square_score_of(side, q, i),
                    forall|side: int, q: int| 0 <= side < 2 && 0 <= q < p ==> #[trigger] square_score[side][q][sq as int] as int == square_score_of(side, q, sq as int),
                decreases 6 - p,
            {
                square_score[0][p][sq] = w[p];
                square_score[1][p][sq] = b[p];
                p = p + 1;
            }
            king_endgame_score[0][sq] = KING_ENDGAME_SCORE[sq] - w[5];
            king_endgame_score[1][sq] = KING_ENDGAME_SCORE[sq] - b[5];
            passed_pawns_score[0][sq] = PASSED_SCORE[sq];
            passed_pawns_score[1][sq] = PASSED_SCORE[flipped_sq];
            sq = sq + 1;
        }
        (square_score, king_endgame_score, passed_pawns_score)
    }
}

/// Every entry of the score tables lies between -200 and 200.
pub proof fn lemma_table_bounds()
    ensures
        forall|i: int| 0 <= i < 64 ==> -200 <= #[trigger] PAWN_SCORE[i] <= 200,
        forall|i: int| 0 <= i < 64 ==> -200 <= #[trigger] KNIGHT_SCORE[i] <= 200,
        forall|i: int| 0 <= i < 64 ==> -200 <= #[trigger] BISHOP_SCORE[i] <= 200,
        forall|i: int| 0 <= i < 64 ==> -200 <= #[trigger] ROOK_SCORE[i] <= 200,
        forall|i: int| 0 <= i < 64 ==> -200 <= #[trigger] QUEEN_SCORE[i] <= 200,
        forall|i: int| 0 <= i < 64 ==> -200 <= #[trigger] KING_SCORE[i] <= 200,
        forall|i: int| 0 <= i < 64 ==> -200 <= #[trigger] KING_ENDGAME_SCORE[i] <= 200,
        forall|i: int| 0 <= i < 64 ==> -200 <= #[trigger] PASSED_SCORE[i] <= 200,
        forall|s: int, i: int| 0 <= s < 2 && 0 <= i < 64 ==> -200 <= #[trigger] KINGSIDE_DEFENSE[s][i] <= 200,
        forall|s: int, i: int| 0 <= s < 2 && 0 <= i < 64 ==> -200 <= #[trigger] QUEENSIDE_DEFENSE[s][i] <= 200,
{
}

} // verus!
