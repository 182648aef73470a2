use vstd::prelude::*;

use crate::board::Occupant;
use crate::geometry::{abs_diff, between, bishop_line, king_step, knight_jump, pawn_attack, rook_line};
use crate::types::{Piece, Side};

verus! {

/// No square strictly between `a` and `c` holds a piece.
pub open spec fn path_clear(v: Seq<Occupant>, a: int, c: int) -> bool {
    forall|x: int| 0 <= x < 64 && between(a, c, x) ==> #[trigger] v[x] is None
}

/// The piece of `side` on the square `t` attacks the square `sq`.
pub open spec fn attacks_from(v: Seq<Occupant>, side: Side, t: int, sq: int) -> bool {
    ||| v[t] == Some((side, Piece::Pawn)) && pawn_attack(side == Side::White, t, sq)
    ||| v[t] == Some((side, Piece::Knight)) && knight_jump(t, sq)
    ||| (v[t] == Some((side, Piece::Rook)) || v[t] == Some((side, Piece::Queen))) && rook_line(t, sq)
        && path_clear(v, t, sq)
    ||| (v[t] == Some((side, Piece::Bishop)) || v[t] == Some((side, Piece::Queen))) && bishop_line(t, sq)
        && path_clear(v, t, sq)
    ||| v[t] == Some((side, Piece::King)) && king_step(t, sq)
}

/// Some piece of `side` attacks the square `sq`.
pub open spec fn attacked(v: Seq<Occupant>, side: Side, sq: int) -> bool {
    exists|t: int| 0 <= t < 64 && #[trigger] attacks_from(v, side, t, sq)
}

/// The piece on the square, or `Empty`.
pub open spec fn piece_at(v: Seq<Occupant>, i: int) -> Piece {
    match v[i] {
        Some((_, p)) => p,
        None => Piece::Empty,
    }
}

/// The square `to` is one a king reaches by castling (g1, c1, g8 or c8).
pub open spec fn castle_target(to: int) -> bool {
    to == 6 || to == 2 || to == 62 || to == 58
}

/// The square the rook leaves when the king castles to `to`.
pub open spec fn rook_from(to: int) -> int {
    if to == 6 {
        7
    } else if to == 2 {
        0
    } else if to == 62 {
        63
    } else {
        56
    }
}

/// The square the rook reaches when the king castles to `to`.
pub open spec fn rook_to(to: int) -> int {
    if to == 6 {
        5
    } else if to == 2 {
        3
    } else if to == 62 {
        61
    } else {
        59
    }
}

/// A king moving two squares along the board's numbering: the move is taken as castling.
pub open spec fn is_castle(v: Seq<Occupant>, from: int, to: int) -> bool {
    piece_at(v, from) == Piece::King && abs_diff(to, from) == 2
}

/// A pawn changing file onto an empty square short of the last ranks: the move is
/// taken as an en passant capture.
pub open spec fn is_en_passant(v: Seq<Occupant>, from: int, to: int) -> bool {
    &&& piece_at(v, from) == Piece::Pawn
    &&& v[to] is None
    &&& from % 8 != to % 8
    &&& to / 8 != 0
    &&& to / 8 != 7
}

/// The square of the pawn taken en passant by side `s` moving to `to`.
pub open spec fn ep_victim(s: Side, to: int) -> int {
    if s == Side::White {
        to - 8
    } else {
        to + 8
    }
}

/// A pawn reaching the first or last rank.
pub open spec fn is_promotion(v: Seq<Occupant>, from: int, to: int) -> bool {
    piece_at(v, from) == Piece::Pawn && (to / 8 == 0 || to / 8 == 7)
}

/// The piece a pawn promotes to: the one asked for, a queen when none is.
pub open spec fn promotion_piece(promote: Option<Piece>) -> Piece {
    match promote {
        Some(p) => p,
        None => Piece::Queen,
    }
}

/// The board with the rook moved, when the move castles.
pub open spec fn castled_view(v: Seq<Occupant>, s: Side, from: int, to: int) -> Seq<Occupant> {
    if is_castle(v, from, to) && castle_target(to) {
        v.update(rook_from(to), None).update(rook_to(to), Some((s, Piece::Rook)))
    } else {
        v
    }
}

/// The board with the moving piece (or its promotion) on `to`, after any
/// capture, en passant included.
pub open spec fn pieces_view(v: Seq<Occupant>, s: Side, from: int, to: int, promote: Option<Piece>) -> Seq<Occupant> {
    let v1 = if is_en_passant(v, from, to) {
        v.update(ep_victim(s, to), None)
    } else {
        v
    };
    let moved = if is_promotion(v, from, to) {
        promotion_piece(promote)
    } else {
        piece_at(v, from)
    };
    v1.update(from, None).update(to, Some((s, moved)))
}

/// The board after side `s` moves from `from` to `to`, promoting to `promote` if a pawn promotes.
pub open spec fn after_move(v: Seq<Occupant>, s: Side, from: int, to: int, promote: Option<Piece>) -> Seq<Occupant> {
    pieces_view(castled_view(v, s, from, to), s, from, to, promote)
}

/// The part of a move besides the castled rook can be carried out: a piece of side
/// `s` on `from`, no piece of `s` on `to`, a promotion piece that a pawn can
/// become, and for en passant the pawn taken where it has to be.
pub open spec fn pieces_ok(v: Seq<Occupant>, s: Side, from: int, to: int, promote: Option<Piece>) -> bool {
    &&& v.len() == 64
    &&& 0 <= from < 64
    &&& 0 <= to < 64
    &&& from != to
    &&& v[from] matches Some((side, _)) && side == s
    &&& !(v[to] matches Some((side, _)) && side == s)
    &&& piece_at(v, from) != Piece::Empty
    &&& (v[to] is Some ==> piece_at(v, to) != Piece::Empty)
    &&& (promote matches Some(p) ==> (p == Piece::Knight || p == Piece::Bishop || p == Piece::Rook || p == Piece::Queen))
    &&& (is_en_passant(v, from, to) ==> v[ep_victim(s, to)] == Some((s.spec_opponent(), Piece::Pawn)))
}

/// A move that the board can carry out: its pieces can be moved, and when it
/// castles, the rook stands in its corner and the squares it and the king reach are free.
pub open spec fn move_ok(v: Seq<Occupant>, s: Side, from: int, to: int, promote: Option<Piece>) -> bool {
    &&& pieces_ok(v, s, from, to, promote)
    &&& (is_castle(v, from, to) && castle_target(to) ==> {
        &&& v[rook_from(to)] == Some((s, Piece::Rook))
        &&& v[rook_to(to)] is None
        &&& v[to] is None
    })
}

/// The piece a move records as promoted to, if the pawn promotes.
pub open spec fn promotion_record(v: Seq<Occupant>, from: int, to: int, promote: Option<Piece>) -> Option<Piece> {
    if is_promotion(v, from, to) {
        Some(promotion_piece(promote))
    } else {
        None
    }
}

/// Side `s` has a king on the board.
pub open spec fn has_king(v: Seq<Occupant>, s: Side) -> bool {
    exists|i: int| 0 <= i < 64 && v[i] == Some((s, Piece::King))
}

/// `k` is the lowest square holding a king of side `s`.
pub open spec fn is_first_king(v: Seq<Occupant>, s: Side, k: int) -> bool {
    &&& 0 <= k < 64
    &&& v[k] == Some((s, Piece::King))
    &&& forall|j: int| 0 <= j < k ==> #[trigger] v[j] != Some((s, Piece::King))
}

/// The lowest square holding a king of side `s`.
pub open spec fn first_king(v: Seq<Occupant>, s: Side) -> int {
    choose|k: int| is_first_king(v, s, k)
}

/// Castling is refused: the king stands attacked, or passes or lands on an attacked square.
pub open spec fn castle_refused(v: Seq<Occupant>, s: Side, from: int, to: int) -> bool {
    let o = s.spec_opponent();
    is_castle(v, from, to) && (attacked(v, o, from) || (castle_target(to) && (attacked(v, o, rook_to(to))
        || attacked(v, o, to))))
}

/// The move is made: castling is not refused and the king of the side that moved
/// is not attacked afterwards.
pub open spec fn move_succeeds(v: Seq<Occupant>, s: Side, from: int, to: int, promote: Option<Piece>) -> bool {
    let w = after_move(v, s, from, to, promote);
    !castle_refused(v, s, from, to) && !attacked(w, s.spec_opponent(), first_king(w, s))
}

/// The board with the moved piece back on `from` (a pawn again after a promotion)
/// and `to` empty, the pawn taken en passant put back.
pub open spec fn unpieces_view(w: Seq<Occupant>, s: Side, from: int, to: int, promote: Option<Piece>) -> Seq<Occupant> {
    let w1 = if piece_at(w, to) == Piece::Pawn && from % 8 != to % 8 && 0 <= ep_victim(s, to) < 64 {
        w.update(ep_victim(s, to), Some((s.spec_opponent(), Piece::Pawn)))
    } else {
        w
    };
    let back = match promote {
        Some(_) => Piece::Pawn,
        None => piece_at(w, to),
    };
    w1.update(to, None).update(from, Some((s, back)))
}

/// The board with the captured piece back on `to`.
pub open spec fn uncaptured_view(w: Seq<Occupant>, s: Side, to: int, capture: Piece) -> Seq<Occupant> {
    if capture != Piece::Empty {
        w.update(to, Some((s.spec_opponent(), capture)))
    } else {
        w
    }
}

/// The board with the rook back in its corner, when the king just came back from castling.
pub open spec fn uncastled_view(w: Seq<Occupant>, s: Side, from: int, to: int) -> Seq<Occupant> {
    if is_castle(w, from, to) && castle_target(to) {
        w.update(rook_to(to), None).update(rook_from(to), Some((s, Piece::Rook)))
    } else {
        w
    }
}

/// The board before side `s` made the move recorded as from `from` to `to`,
/// capturing `capture` and promoting to `promote`: what taking the move back gives.
pub open spec fn undo_view(w: Seq<Occupant>, s: Side, from: int, to: int, capture: Piece, promote: Option<Piece>) -> Seq<Occupant> {
    let w1 = if capture == Piece::Empty {
        unpieces_view(w, s, from, to, promote)
    } else {
        unpieces_view_no_ep(w, s, from, to, promote)
    };
    uncastled_view(uncaptured_view(w1, s, to, capture), s, from, to)
}

/// The board with the moved piece back on `from` and `to` empty (no en passant).
pub open spec fn unpieces_view_no_ep(w: Seq<Occupant>, s: Side, from: int, to: int, promote: Option<Piece>) -> Seq<Occupant> {
    let back = match promote {
        Some(_) => Piece::Pawn,
        None => piece_at(w, to),
    };
    w.update(to, None).update(from, Some((s, back)))
}

/// A recorded move that the board can take back: the moved piece of side `s` on
/// `to`, `from` empty, and the squares a pawn taken en passant or a castled rook
/// returns to free.
pub open spec fn undo_ok(w: Seq<Occupant>, s: Side, from: int, to: int, capture: Piece, promote: Option<Piece>) -> bool {
    &&& w.len() == 64
    &&& 0 <= from < 64
    &&& 0 <= to < 64
    &&& from != to
    &&& w[to] matches Some((side, _)) && side == s
    &&& w[from] is None
    &&& (promote matches Some(p) ==> w[to] == Some((s, p)))
    &&& (capture == Piece::Empty && piece_at(w, to) == Piece::Pawn && from % 8 != to % 8 && 0 <= ep_victim(s, to) < 64
        ==> w[ep_victim(s, to)] is None)
    &&& ({
        let back = match promote {
            Some(_) => Piece::Pawn,
            None => piece_at(w, to),
        };
        back == Piece::King && abs_diff(to, from) == 2 && castle_target(to) ==> {
            &&& w[rook_to(to)] == Some((s, Piece::Rook))
            &&& w[rook_from(to)] is None
            &&& rook_from(to) != from
        }
    })
}

/// Taking back a move that the board carried out gives the board it was made on.
pub proof fn lemma_undo_after_move(v: Seq<Occupant>, s: Side, from: int, to: int, promote: Option<Piece>)
    requires
        move_ok(v, s, from, to, promote),
    ensures
        undo_ok(after_move(v, s, from, to, promote), s, from, to, piece_at(v, to), promotion_record(v, from, to, promote)),
        undo_view(after_move(v, s, from, to, promote), s, from, to, piece_at(v, to), promotion_record(v, from, to, promote)) == v,
{
    let v1 = castled_view(v, s, from, to);
    let w = after_move(v, s, from, to, promote);
    let capture = piece_at(v, to);
    let pr = promotion_record(v, from, to, promote);
    assert(v1[from] == v[from]);
    assert(v1[to] == v[to]);
    let target = undo_view(w, s, from, to, capture, pr);
    let back = match pr {
        Some(_) => Piece::Pawn,
        None => piece_at(w, to),
    };
    assert(back == piece_at(v, from));
    assert(w[to] == Some((s, if is_promotion(v1, from, to) { promotion_piece(promote) } else { piece_at(v1, from) })));
    assert(is_promotion(v1, from, to) ==> promotion_piece(promote) != Piece::Pawn);
    assert(v1[from] == Some((s, piece_at(v1, from))));
    let ep = is_en_passant(v1, from, to);
    let u1 = if capture == Piece::Empty {
        unpieces_view(w, s, from, to, pr)
    } else {
        unpieces_view_no_ep(w, s, from, to, pr)
    };
    if ep {
        assert(u1 =~= v1);
    } else {
        assert(u1 =~= v1.update(to, None));
    }
    assert(capture != Piece::Empty ==> v1[to] == Some((s.spec_opponent(), capture)));
    let u2 = uncaptured_view(u1, s, to, capture);
    assert(u2 =~= v1);
    assert(is_castle(u2, from, to) == is_castle(v, from, to));
    assert(target =~= v);
}

/// Moving the rook of a castling keeps the rest of the move possible.
pub proof fn lemma_castled_pieces_ok(v: Seq<Occupant>, s: Side, from: int, to: int, promote: Option<Piece>)
    requires
        move_ok(v, s, from, to, promote),
    ensures
        pieces_ok(castled_view(v, s, from, to), s, from, to, promote),
        castled_view(v, s, from, to)[from] == v[from],
        castled_view(v, s, from, to)[to] == v[to],
{
}

/// The lowest square holding a king is the one `first_king` names.
pub proof fn lemma_first_king(v: Seq<Occupant>, s: Side, k: int)
    requires
        is_first_king(v, s, k),
    ensures
        first_king(v, s) == k,
{
    let c = first_king(v, s);
    assert(is_first_king(v, s, c));
    if c < k {
        assert(v[c] != Some((s, Piece::King)));
    } else if c > k {
        assert(v[k] != Some((s, Piece::King)));
    }
}

/// A move keeps a king of the side that moves on the board.
pub proof fn lemma_king_stays(v: Seq<Occupant>, s: Side, from: int, to: int, promote: Option<Piece>)
    requires
        move_ok(v, s, from, to, promote),
        has_king(v, s),
    ensures
        has_king(after_move(v, s, from, to, promote), s),
{
    let k = choose|i: int| 0 <= i < 64 && v[i] == Some((s, Piece::King));
    let w = after_move(v, s, from, to, promote);
    if k == from {
        assert(w[to] == Some((s, Piece::King)));
    } else {
        assert(w[k] == Some((s, Piece::King)));
    }
}

} // verus!
