use vstd::prelude::*;

verus! {

/// Square `a` and square `b` (indices 0-63) are on the same rank.
pub open spec fn same_rank(a: int, b: int) -> bool {
    a / 8 == b / 8
}

/// Square `a` and square `b` are on the same file.
pub open spec fn same_file(a: int, b: int) -> bool {
    a % 8 == b % 8
}

/// Square `a` and square `b` are on the same diagonal running from the north-west
/// to the south-east (rank plus file is the same).
pub open spec fn same_anti_diagonal(a: int, b: int) -> bool {
    a / 8 + a % 8 == b / 8 + b % 8
}

/// Square `a` and square `b` are on the same diagonal running from the south-west
/// to the north-east (file minus rank is the same).
pub open spec fn same_diagonal(a: int, b: int) -> bool {
    a % 8 - a / 8 == b % 8 - b / 8
}

/// Distinct squares on a common rank or file: a rook moves between them on an empty board.
pub open spec fn rook_line(a: int, b: int) -> bool {
    a != b && (same_rank(a, b) || same_file(a, b))
}

/// Distinct squares on a common diagonal: a bishop moves between them on an empty board.
pub open spec fn bishop_line(a: int, b: int) -> bool {
    a != b && (same_anti_diagonal(a, b) || same_diagonal(a, b))
}

/// A queen moves between the two squares on an empty board.
pub open spec fn queen_line(a: int, b: int) -> bool {
    rook_line(a, b) || bishop_line(a, b)
}

pub open spec fn abs_diff(x: int, y: int) -> int {
    if x >= y { x - y } else { y - x }
}

/// A knight jumps from `a` to `b`.
pub open spec fn knight_jump(a: int, b: int) -> bool {
    let dr = abs_diff(a / 8, b / 8);
    let df = abs_diff(a % 8, b % 8);
    (dr == 1 && df == 2) || (dr == 2 && df == 1)
}

/// A king steps from `a` to `b`.
pub open spec fn king_step(a: int, b: int) -> bool {
    let dr = abs_diff(a / 8, b / 8);
    let df = abs_diff(a % 8, b % 8);
    a != b && dr <= 1 && df <= 1
}

/// Square `c` lies strictly between `a` and `b` on a rank, file or diagonal that holds both.
pub open spec fn between(a: int, b: int, c: int) -> bool {
    let lo = if a < b { a } else { b };
    let hi = if a < b { b } else { a };
    &&& lo < c < hi
    &&& ((same_rank(a, b) && same_rank(a, c)) || (same_file(a, b) && same_file(a, c)) || (
    same_anti_diagonal(a, b) && same_anti_diagonal(a, c)) || (same_diagonal(a, b)
        && same_diagonal(a, c)))
}

/// The square is on the border of the board.
pub open spec fn on_border(i: int) -> bool {
    i % 8 == 0 || i % 8 == 7 || i / 8 == 0 || i / 8 == 7
}

/// Walking from square `i` in steps of `plus`, the first square on the border of
/// the board, or the last square on the board when the walk leaves it first.
pub open spec fn edge_walk(i: int, plus: int) -> int
    decreases (if plus > 0 { 64 - i } else { i }),
    when 0 <= i < 64 && plus != 0
{
    let j = i + plus;
    if j < 0 || j >= 64 {
        i
    } else if on_border(j) {
        j
    } else {
        edge_walk(j, plus)
    }
}

/// Square `x` is reached from `start` in steps of `inc` without passing `bound`.
pub open spec fn ray(start: int, x: int, inc: int, bound: int) -> bool {
    if inc > 0 {
        start <= x <= bound && (x - start) % inc == 0
    } else {
        bound <= x <= start && (start - x) % (-inc) == 0
    }
}

/// Square `x` is `b`, or a square behind `b` seen from `a`, on the line through both,
/// up to the border of the board.
pub open spec fn behind(a: int, b: int, x: int) -> bool {
    let up = a < b;
    ||| same_rank(a, b) && ray(b, x, if up { 1 } else { -1 }, if up { (b / 8) * 8 + 7 } else { (b / 8) * 8 })
    ||| same_file(a, b) && ray(b, x, if up { 8 } else { -8 }, if up { b % 8 + 56 } else { b % 8 })
    ||| same_anti_diagonal(a, b) && ray(b, x, if up { 7 } else { -7 }, if up { edge_walk(a, 7) } else { edge_walk(a, -7) })
    ||| same_diagonal(a, b) && ray(b, x, if up { 9 } else { -9 }, if up { edge_walk(a, 9) } else { edge_walk(a, -9) })
}

/// A pawn of white (`white`) or black on `from` captures on `to`.
pub open spec fn pawn_attack(white: bool, from: int, to: int) -> bool {
    if white {
        (from % 8 > 0 && from / 8 < 7 && to == from + 7) || (from % 8 < 7 && from / 8 < 7 && to == from + 9)
    } else {
        (from % 8 > 0 && from / 8 > 0 && to == from - 9) || (from % 8 < 7 && from / 8 > 0 && to == from - 7)
    }
}

} // verus!
