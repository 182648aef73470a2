use vstd::prelude::*;

use crate::make_move::{can_take_back, lemma_take_back_restores, made_move, move_refused, took_back};
use crate::position::Position;
use crate::rules::move_ok;
use crate::types::{Move, Side};

verus! {

/// `b` is `a` after a search from it: the same board, key, rights, counters,
/// side to move and game record up to the current ply; only the move lists,
/// the node count, the best move, the stop flag and the record past the
/// current ply may differ, and the move lists keep what lies below the current
/// ply's moves.
pub open spec fn search_restored(a: Position, b: Position) -> bool {
    &&& b.board.wf()
    &&& b.board.view() == a.board.view()
    &&& b.board.hash.current_key == a.board.hash.current_key
    &&& b.board.hash.table() == a.board.hash.table()
    &&& b.castle == a.castle
    &&& b.fifty == a.fifty
    &&& b.side == a.side
    &&& b.other_side == a.other_side
    &&& b.ply == a.ply
    &&& b.ply_from_start_of_game == a.ply_from_start_of_game
    &&& b.game_list@.len() == a.game_list@.len()
    &&& forall|i: int| 0 <= i <= a.ply_from_start_of_game ==> #[trigger] b.game_list@[i] == a.game_list@[i]
    &&& b.first_move@.len() == a.first_move@.len()
    &&& forall|j: int| 0 <= j <= a.ply ==> #[trigger] b.first_move@[j] == a.first_move@[j]
    &&& b.move_list@.len() >= a.move_list@.len()
    &&& forall|i: int| 0 <= i < a.first_move@[a.ply as int] && i < a.move_list@.len() ==> #[trigger] b.move_list@[i] == a.move_list@[i]
    &&& b == (Position {
        board: b.board,
        game_list: b.game_list,
        move_list: b.move_list,
        first_move: b.first_move,
        nodes: b.nodes,
        best_move_from: b.best_move_from,
        best_move_to: b.best_move_to,
        stop_search: b.stop_search,
        ..a
    })
}

/// `after` is `before` with the move of highest score in `[from, hi)` (the
/// first one among equals) swapped into `from`.
/// Searching twice in a row restores the position as one search does.
pub proof fn lemma_restored_trans(a: Position, b: Position, c: Position)
    requires
        search_restored(a, b),
        search_restored(b, c),
    ensures
        search_restored(a, c),
{
}

/// A search from the position a move led to, then taking the move back, gives
/// the position the move was made in back.
#[verifier::rlimit(80)]
#[verifier::spinoff_prover]
pub proof fn lemma_take_back_after_search(
    p0: Position,
    p1: Position,
    p2: Position,
    p3: Position,
    from: crate::types::Square,
    to: crate::types::Square,
    promote: Option<crate::types::Piece>,
)
    requires
        p0.board.wf(),
        move_ok(p0.board.view(), p0.side, from as int, to as int, promote),
        p0.ply_from_start_of_game + 1 < p0.game_list@.len(),
        made_move(p0, p1, from, to, promote),
        search_restored(p1, p2),
    ensures
        can_take_back(p2),
        took_back(p2, p3) ==> {
            &&& p3.board.wf()
            &&& p3.board.view() == p0.board.view()
            &&& p3.board.hash.current_key == p0.board.hash.current_key
            &&& p3.board.hash.table() == p0.board.hash.table()
            &&& p3.castle == p0.castle
            &&& p3.fifty == p0.fifty
            &&& p3.side == p0.side
            &&& p3.other_side == p0.other_side
            &&& p3.ply == p0.ply
            &&& p3.ply_from_start_of_game == p0.ply_from_start_of_game
            &&& p3.game_list@.len() == p0.game_list@.len()
            &&& forall|i: int| 0 <= i <= p0.ply_from_start_of_game ==> #[trigger] p3.game_list@[i] == p0.game_list@[i]
            &&& p3 == (Position {
                board: p3.board,
                game_list: p3.game_list,
                move_list: p3.move_list,
                first_move: p3.first_move,
                nodes: p3.nodes,
                best_move_from: p3.best_move_from,
                best_move_to: p3.best_move_to,
                stop_search: p3.stop_search,
                ..p0
            })
        },
{
    lemma_can_take_back_after_search(p0, p1, p2, from, to, promote);
    if took_back(p2, p3) {
        lemma_took_back_after_search(p0, p1, p2, p3, from, to, promote);
    }
}

#[verifier::rlimit(80)]
#[verifier::spinoff_prover]
proof fn lemma_can_take_back_after_search(
    p0: Position,
    p1: Position,
    p2: Position,
    from: crate::types::Square,
    to: crate::types::Square,
    promote: Option<crate::types::Piece>,
)
    requires
        p0.board.wf(),
        move_ok(p0.board.view(), p0.side, from as int, to as int, promote),
        p0.ply_from_start_of_game + 1 < p0.game_list@.len(),
        made_move(p0, p1, from, to, promote),
        search_restored(p1, p2),
    ensures
        can_take_back(p2),
        p2.spec_en_passant_file() == p1.spec_en_passant_file(),
        p2.game_at(p2.ply_from_start_of_game as int) == p1.game_at(p1.ply_from_start_of_game as int),
{
    lemma_take_back_restores(p0, p1, p1, from, to, promote);
    crate::make_move::lemma_value_is_piece(p1.board);
    crate::make_move::lemma_value_is_piece(p2.board);
    let k = p1.ply_from_start_of_game as int;
    assert(p2.game_list@[k] == p1.game_list@[k]);
    assert(p2.game_at(k) == p1.game_at(k));
    if let Some(g) = p1.game_at(k) {
        assert(p2.board.value[g.to as int] == crate::rules::piece_at(p2.board.view(), g.to as int));
        assert(p1.board.value[g.to as int] == crate::rules::piece_at(p1.board.view(), g.to as int));
    }
    assert(p2.spec_en_passant_file() == p1.spec_en_passant_file());
    assert(can_take_back(p2));
}

#[verifier::rlimit(80)]
#[verifier::spinoff_prover]
proof fn lemma_took_back_after_search(
    p0: Position,
    p1: Position,
    p2: Position,
    p3: Position,
    from: crate::types::Square,
    to: crate::types::Square,
    promote: Option<crate::types::Piece>,
)
    requires
        p0.board.wf(),
        move_ok(p0.board.view(), p0.side, from as int, to as int, promote),
        p0.ply_from_start_of_game + 1 < p0.game_list@.len(),
        made_move(p0, p1, from, to, promote),
        search_restored(p1, p2),
        p2.spec_en_passant_file() == p1.spec_en_passant_file(),
        p2.game_at(p2.ply_from_start_of_game as int) == p1.game_at(p1.ply_from_start_of_game as int),
        took_back(p2, p3),
    ensures
        p3.board.wf(),
        p3.board.view() == p0.board.view(),
        p3.board.hash.current_key == p0.board.hash.current_key,
        p3.board.hash.table() == p0.board.hash.table(),
        p3.castle == p0.castle,
        p3.fifty == p0.fifty,
        p3.side == p0.side,
        p3.other_side == p0.other_side,
        p3.ply == p0.ply,
        p3.ply_from_start_of_game == p0.ply_from_start_of_game,
        p3.game_list@.len() == p0.game_list@.len(),
        forall|i: int| 0 <= i <= p0.ply_from_start_of_game ==> #[trigger] p3.game_list@[i] == p0.game_list@[i],
        p3 == (Position {
            board: p3.board,
            game_list: p3.game_list,
            move_list: p3.move_list,
            first_move: p3.first_move,
            nodes: p3.nodes,
            best_move_from: p3.best_move_from,
            best_move_to: p3.best_move_to,
            stop_search: p3.stop_search,
            ..p0
        }),
{
    {
        let c = Position {
            board: p3.board,
            game_list: p1.game_list,
            fifty: p3.fifty,
            ply: p3.ply,
            ply_from_start_of_game: p3.ply_from_start_of_game,
            castle: p3.castle,
            side: p3.side,
            other_side: p3.other_side,
            ..p1
        };
        assert(p2.board.key_rest() == p1.board.key_rest());
        assert(took_back(p1, c));
        lemma_take_back_restores(p0, p1, c, from, to, promote);
        assert forall|i: int| 0 <= i <= p0.ply_from_start_of_game implies #[trigger] p3.game_list@[i] == p0.game_list@[i] by {
            assert(p3.game_list@[i] == p2.game_list@[i]);
            assert(p2.game_list@[i] == p1.game_list@[i]);
        }
    }
}

/// `after` is `before` with the move at `k`, one of highest score in
/// `[from, hi)` and the first among equals, swapped into `from`.
pub open spec fn selected_at(before: Seq<Option<Move>>, after: Seq<Option<Move>>, from: int, hi: int, k: int) -> bool {
    &&& from <= k < hi
    &&& after == before.update(from, before[k]).update(k, before[from])
    &&& forall|j: int| from <= j < hi ==> (#[trigger] before[j]).unwrap().score <= before[k].unwrap().score
    &&& forall|j: int| from <= j < k ==> (#[trigger] before[j]).unwrap().score < before[k].unwrap().score
}

/// `after` is `before` with the move of highest score in `[from, hi)` (the
/// first one among equals) swapped into `from`.
pub open spec fn selected(before: Seq<Option<Move>>, after: Seq<Option<Move>>, from: int, hi: int) -> bool {
    exists|k: int| #[trigger] selected_at(before, after, from, hi, k)
}

proof fn lemma_selected_witness(before: Seq<Option<Move>>, after: Seq<Option<Move>>, from: int, hi: int, k: int)
    requires
        from <= k < hi,
        after == before.update(from, before[k]).update(k, before[from]),
        forall|j: int| from <= j < hi ==> (#[trigger] before[j]).unwrap().score <= before[k].unwrap().score,
        forall|j: int| from <= j < k ==> (#[trigger] before[j]).unwrap().score < before[k].unwrap().score,
    ensures
        selected(before, after, from, hi),
{
    assert(selected_at(before, after, from, hi, k));
}

/// Swaps the move of highest score in `list[from..hi]` (the first one among
/// equals) into `from`.
#[verifier::spinoff_prover]
pub fn select_best(list: &mut Vec<Option<Move>>, from: usize, hi: usize)
    requires
        from < hi <= old(list)@.len(),
        forall|i: int| from <= i < hi ==> #[trigger] old(list)@[i] is Some,
    ensures
        final(list)@.len() == old(list)@.len(),
        forall|i: int| 0 <= i < old(list)@.len() && !(from <= i < hi) ==> #[trigger] final(list)@[i] == old(list)@[i],
        forall|i: int| from <= i < hi ==> #[trigger] final(list)@[i] is Some,
        selected(old(list)@, final(list)@, from as int, hi as int),
{
    let mut best_score = list[from].unwrap().score;
    let mut best: usize = from;
    let mut i = from + 1;
    while i < hi
        invariant
            from < hi <= list@.len(),
            from <= best < hi,
            from < i <= hi,
            forall|j: int| from <= j < hi ==> #[trigger] list@[j] is Some,
            best_score == list@[best as int].unwrap().score,
            forall|j: int| from <= j < i ==> (#[trigger] list@[j]).unwrap().score <= best_score,
            forall|j: int| from <= j < best ==> (#[trigger] list@[j]).unwrap().score < best_score,
        decreases hi - i,
    {
        let s = list[i].unwrap().score;
        if s > best_score {
            best_score = s;
            best = i;
        }
        i = i + 1;
    }
    let ghost before = list@;
    let m = list[from];
    let b = list[best];
    list.set(from, b);
    list.set(best, m);
    proof {
        let k = best as int;
        assert(list@ =~= before.update(from as int, before[k]).update(k, before[from as int]));
        assert(forall|j: int| from <= j < hi ==> (#[trigger] before[j]).unwrap().score <= before[k].unwrap().score);
        assert(forall|j: int| from <= j < k ==> (#[trigger] before[j]).unwrap().score < before[k].unwrap().score);
        lemma_selected_witness(before, list@, from as int, hi as int, k);
    }
}

impl Position {
    /// Brings the move with the highest score among those from `from_index` to
    /// the end of the current ply's moves to `from_index` (the first such move
    /// when several share it), swapping it with the move there.
    pub fn sort(&mut self, from_index: usize)
        requires
            old(self).ply + 1 < old(self).first_move@.len(),
            from_index < old(self).first_move@[old(self).ply + 1],
            old(self).first_move@[old(self).ply + 1] <= old(self).move_list@.len(),
            forall|i: int| from_index <= i < old(self).first_move@[old(self).ply + 1] ==> #[trigger] old(self).move_list@[i] is Some,
        ensures
            *final(self) == (Position { move_list: final(self).move_list, ..*old(self) }),
            final(self).move_list@.len() == old(self).move_list@.len(),
            forall|i: int| 0 <= i < old(self).move_list@.len() && !(from_index <= i < old(self).first_move@[old(self).ply + 1])
                ==> #[trigger] final(self).move_list@[i] == old(self).move_list@[i],
            forall|i: int| from_index <= i < old(self).first_move@[old(self).ply + 1] ==> #[trigger] final(self).move_list@[i] is Some,
            selected(old(self).move_list@, final(self).move_list@, from_index as int, old(self).first_move@[old(self).ply + 1] as int),
    {
        proof {
            vstd::std_specs::vec::axiom_spec_len(&self.first_move);
        }
        let hi = self.first_move[self.ply + 1] as usize;
        select_best(&mut self.move_list, from_index, hi);
    }
}


/// The bound on the scores a search handles.
pub const SCORE_BOUND: i32 = 2_000_000;

/// What the stand-pat evaluation fixes of a quiescence result `r` in the window
/// `alpha`..`beta`: with both kings on the board, an evaluation for the side to
/// move at or above `beta` gives `beta`, and otherwise the result is at least the better of
/// `alpha` and the evaluation (or at least `beta`); without them the result is `alpha`.
pub open spec fn stand_pat_bound(p: Position, alpha: i32, beta: i32, r: i32) -> bool {
    let v = p.board.view();
    let e = crate::eval::evaluation(v, p.side);
    if crate::rules::has_king(v, p.side) && crate::rules::has_king(v, p.side.spec_opponent()) {
        &&& e >= beta ==> r == beta
        &&& e < beta ==> (r >= alpha && r >= e) || r >= beta
    } else {
        r == alpha
    }
}

/// `p` can search at its current ply: the move lists have room for its moves.
pub open spec fn search_ready(p: Position) -> bool {
    &&& p.board.wf()
    &&& p.ply + 1 < p.first_move@.len()
    &&& 0 <= p.first_move@[p.ply as int] <= p.move_list@.len()
}

/// The search can go one ply deeper from `p`: a king on each side, room in the
/// move lists and the game record, and a halfmove clock that can still count.
pub open spec fn deep_enough(p: Position) -> bool {
    &&& crate::rules::has_king(p.board.view(), p.side)
    &&& crate::rules::has_king(p.board.view(), p.side.spec_opponent())
    &&& p.ply + 2 < p.first_move@.len()
    &&& p.first_move@[p.ply as int] <= 1_000_000
    &&& p.ply_from_start_of_game + 1 < p.game_list@.len()
    &&& p.fifty < 255
}

/// The side to move in `p` has a legal move: one it generates, the board can
/// carry out, and that does not leave its king attacked.
pub open spec fn has_legal_move(p: Position) -> bool {
    exists|f: int, t: int, q: Option<crate::types::Piece>| #[trigger] crate::legal::legal_move(p, f, t, q)
}

/// The king of the side to move in `p` stands attacked.
pub open spec fn king_attacked(p: Position) -> bool {
    let v = p.board.view();
    crate::rules::attacked(v, p.side.spec_opponent(), crate::rules::first_king(v, p.side))
}

/// A search of `p` to `depth` looks at its moves: the position is no
/// repetition, the depth is positive, the clock is not read on the way (the
/// depth is fixed or the ply is one of the first two), and it can go deeper.
pub open spec fn search_expands(p: Position, depth: u16) -> bool {
    &&& !repeated(p)
    &&& depth >= 1
    &&& (p.fixed_depth || p.ply <= 1)
    &&& p.ply < crate::constants::MAX_PLY - 1
    &&& deep_enough(p)
}

/// Squares with the same index are the same square.
proof fn lemma_same_square(a: crate::types::Square, b: crate::types::Square)
    requires
        a as int == b as int,
    ensures
        a == b,
{
}

/// The static evaluation `e` kept inside the window `alpha`..`beta`: `beta` when
/// it reaches `beta`, `alpha` when it does not rise above `alpha`.
pub open spec fn clip(e: int, alpha: int, beta: int) -> int {
    if e >= beta {
        beta
    } else if e > alpha {
        e
    } else {
        alpha
    }
}

/// The smaller of two numbers.
pub open spec fn min_of(x: int, y: int) -> int {
    if x <= y {
        x
    } else {
        y
    }
}

/// Both kings stand on the board of `p`.
pub open spec fn kings_on(p: Position) -> bool {
    &&& crate::rules::has_king(p.board.view(), p.side)
    &&& crate::rules::has_king(p.board.view(), p.side.spec_opponent())
}

/// The evaluation of `p` for its side to move.
pub open spec fn eval_of(p: Position) -> int {
    crate::eval::evaluation(p.board.view(), p.side)
}

/// A capture the side to move in `p` generates, can carry out, and that does
/// not leave its king attacked.
pub open spec fn legal_capture(p: Position, f: int, t: int, q: Option<crate::types::Piece>) -> bool {
    &&& crate::movegen::generation_target(p, p.side, true, f, t, q)
    &&& move_ok(p.board.view(), p.side, f, t, q)
    &&& crate::rules::move_succeeds(p.board.view(), p.side, f, t, q)
}

/// The side to move in `p` has a legal capture.
pub open spec fn has_legal_capture(p: Position) -> bool {
    exists|f: int, t: int, q: Option<crate::types::Piece>| #[trigger] legal_capture(p, f, t, q)
}

/// `c` is `p` after the move `m`, as far as its squares, side to move, castle
/// rights and record of the last move go.
pub open spec fn moved_to(p: Position, c: Position, m: Move) -> bool {
    &&& c.board.view() == crate::rules::after_move(p.board.view(), p.side, m.from as int, m.to as int, m.promote)
    &&& c.side == p.side.spec_opponent()
    &&& c.castle == p.castle & crate::constants::CASTLE_MASK[m.from as int] & crate::constants::CASTLE_MASK[m.to as int]
    &&& c.ply_from_start_of_game == p.ply_from_start_of_game + 1
    &&& c.game_at(c.ply_from_start_of_game as int) == Some(crate::make_move::move_record(p, m.from, m.to, m.promote))
}

/// A quiescence result `r` of `p` in the window `alpha`..`beta`, when both kings
/// stand and the side to move has no legal capture: the evaluation kept inside
/// the window.
pub open spec fn quiet_exact(p: Position, alpha: int, beta: int, r: int) -> bool {
    kings_on(p) && !has_legal_capture(p) ==> r == clip(eval_of(p), alpha, beta)
}

/// What a capture in the entry `e` into a quiet position `c` (both kings on the
/// board, no legal capture for the side to move) gives a quiescence result `x`
/// of `a` under the bound `beta`: at least the smaller of `beta` and minus the
/// evaluation of `c` for its side to move.
pub open spec fn counted(a: Position, e: Option<Move>, c: Position, beta: int, x: int) -> bool {
    e matches Some(m) && playable_move(a, m) && moved_to(a, c, m) && kings_on(c) && !has_legal_capture(c) ==> x >= min_of(
        beta,
        -eval_of(c),
    )
}

/// Every legal capture of `p` into a quiet position counts in the quiescence
/// result `r` of `p` (when the search looks at the captures of `p`): the
/// opponent's reply there is its own evaluation, so `r` is at least the smaller
/// of `beta` and minus that evaluation.
pub open spec fn quiet_captures_counted(p: Position, beta: int, r: int) -> bool {
    deep_enough(p) ==> forall|m: Move, c: Position|
        #![trigger moved_to(p, c, m)]
        legal_capture(p, m.from as int, m.to as int, m.promote) && moved_to(p, c, m) && kings_on(c) && !has_legal_capture(c)
            ==> r >= min_of(beta, -eval_of(c))
}

/// Two positions after the same move from positions alike in squares, side,
/// castle rights, counters, key and last move are alike in what quiescence reads.
proof fn lemma_moved_same(a: Position, b: Position, c: Position, d: Position, m: Move)
    requires
        b.board.view() == a.board.view(),
        b.board.key_rest() == a.board.key_rest(),
        b.side == a.side,
        b.castle == a.castle,
        b.fifty == a.fifty,
        b.ply_from_start_of_game == a.ply_from_start_of_game,
        b.game_at(b.ply_from_start_of_game as int) == a.game_at(a.ply_from_start_of_game as int),
        moved_to(a, c, m),
        moved_to(b, d, m),
    ensures
        kings_on(c) == kings_on(d),
        has_legal_capture(c) == has_legal_capture(d),
        eval_of(c) == eval_of(d),
{
    crate::make_move::lemma_value_is_piece(a.board);
    crate::make_move::lemma_value_is_piece(b.board);
    assert(a.spec_en_passant_file() == b.spec_en_passant_file());
    assert(crate::make_move::move_record(a, m.from, m.to, m.promote) == crate::make_move::move_record(b, m.from, m.to, m.promote)) by {
        reveal(crate::make_move::move_record);
    }
    crate::movegen::lemma_targets_same_view(c, d, c.side, true);
    assert forall|f: int, t: int, q: Option<crate::types::Piece>| #[trigger] legal_capture(d, f, t, q) == legal_capture(c, f, t, q) by {
        assert(crate::movegen::generation_target(d, c.side, true, f, t, q) == crate::movegen::generation_target(c, c.side, true, f, t, q));
    }
    if has_legal_capture(c) {
        let (f, t, q) = choose|f: int, t: int, q: Option<crate::types::Piece>| #[trigger] legal_capture(c, f, t, q);
        assert(legal_capture(d, f, t, q));
    }
    if has_legal_capture(d) {
        let (f, t, q) = choose|f: int, t: int, q: Option<crate::types::Piece>| #[trigger] legal_capture(d, f, t, q);
        assert(legal_capture(c, f, t, q));
    }
}

/// Positions alike in squares, side, castle rights, counters, key and last move
/// lead by a move to the same positions.
proof fn lemma_moved_to_same(a: Position, b: Position, c: Position, m: Move)
    requires
        b.board.view() == a.board.view(),
        b.board.key_rest() == a.board.key_rest(),
        b.side == a.side,
        b.castle == a.castle,
        b.fifty == a.fifty,
        b.ply_from_start_of_game == a.ply_from_start_of_game,
        b.game_at(b.ply_from_start_of_game as int) == a.game_at(a.ply_from_start_of_game as int),
    ensures
        moved_to(a, c, m) == moved_to(b, c, m),
{
    crate::make_move::lemma_value_is_piece(a.board);
    crate::make_move::lemma_value_is_piece(b.board);
    assert(a.spec_en_passant_file() == b.spec_en_passant_file());
    assert(crate::make_move::move_record(a, m.from, m.to, m.promote) == crate::make_move::move_record(b, m.from, m.to, m.promote)) by {
        reveal(crate::make_move::move_record);
    }
}

/// `c` is `p` after the move `m`, with its own move list: the board, key,
/// castle rights, counters, side to move and game record moved on by one ply.
pub open spec fn made_from(p: Position, c: Position, m: Move) -> bool {
    crate::make_move::made_move(Position { move_list: c.move_list, ..p }, c, m.from, m.to, m.promote)
}

/// A position after a move, taken in any move list, has the board, key,
/// counters, side and game record of the one the search reached.
#[verifier::spinoff_prover]
#[verifier::rlimit(100)]
proof fn lemma_child_fields(o: Position, p0: Position, p1: Position, c: Position, m: Move)
    requires
        p0 == (Position { move_list: p0.move_list, ..o }),
        o.ply_from_start_of_game + 1 < o.game_list@.len(),
        crate::make_move::made_move(p0, p1, m.from, m.to, m.promote),
        made_from(o, c, m),
    ensures
        c.game_list@ == p1.game_list@,
        c.first_move == p1.first_move,
        c.board.view() == p1.board.view(),
        c.board.key_rest() == p1.board.key_rest(),
        c.side == p1.side,
        c.castle == p1.castle,
        c.fifty == p1.fifty,
        c.ply == p1.ply,
        c.ply_from_start_of_game == p1.ply_from_start_of_game,
{
    let x0 = Position { move_list: c.move_list, ..o };
    assert(crate::make_move::move_record(x0, m.from, m.to, m.promote) == crate::make_move::move_record(p0, m.from, m.to, m.promote)) by {
        reveal(crate::make_move::move_record);
    }
    assert(c.game_list@ =~= p1.game_list@);
    crate::make_move::lemma_value_is_piece(c.board);
    crate::make_move::lemma_value_is_piece(p1.board);
    crate::make_move::lemma_value_is_piece(p0.board);
    crate::make_move::lemma_value_is_piece(x0.board);
    assert(c.spec_en_passant_file() == p1.spec_en_passant_file());
    assert(x0.spec_en_passant_file() == p0.spec_en_passant_file());
}

/// Two positions alike in board, key, counters, side and game record meet the
/// same quiescence laws.
#[verifier::spinoff_prover]
#[verifier::rlimit(100)]
proof fn lemma_alike_laws(p1: Position, c: Position, alpha: int, beta: int, x: int)
    requires
        c.game_list@ == p1.game_list@,
        c.first_move == p1.first_move,
        c.board.view() == p1.board.view(),
        c.board.key_rest() == p1.board.key_rest(),
        c.side == p1.side,
        c.castle == p1.castle,
        c.fifty == p1.fifty,
        c.ply == p1.ply,
        c.ply_from_start_of_game == p1.ply_from_start_of_game,
        quiet_exact(p1, alpha, beta, x),
        quiet_captures_counted(p1, beta, x),
    ensures
        quiet_exact(c, alpha, beta, x),
        quiet_captures_counted(c, beta, x),
{
    assert(c.game_at(c.ply_from_start_of_game as int) == p1.game_at(p1.ply_from_start_of_game as int));
    crate::movegen::lemma_targets_same_view(p1, c, c.side, true);
    assert forall|f: int, t: int, q: Option<crate::types::Piece>| #[trigger] legal_capture(c, f, t, q) == legal_capture(p1, f, t, q) by {
        assert(crate::movegen::generation_target(c, c.side, true, f, t, q) == crate::movegen::generation_target(p1, c.side, true, f, t, q));
    }
    if has_legal_capture(c) {
        let (f, t, q) = choose|f: int, t: int, q: Option<crate::types::Piece>| #[trigger] legal_capture(c, f, t, q);
        assert(legal_capture(p1, f, t, q));
    }
    if has_legal_capture(p1) {
        let (f, t, q) = choose|f: int, t: int, q: Option<crate::types::Piece>| #[trigger] legal_capture(p1, f, t, q);
        assert(legal_capture(c, f, t, q));
    }
    assert(deep_enough(c) == deep_enough(p1));
    if deep_enough(c) {
        assert forall|m2: Move, g: Position|
            #![trigger moved_to(c, g, m2)]
            legal_capture(c, m2.from as int, m2.to as int, m2.promote) && moved_to(c, g, m2) && kings_on(g) && !has_legal_capture(g)
                implies x >= min_of(beta, -eval_of(g)) by {
            lemma_moved_to_same(p1, c, g, m2);
            assert(moved_to(p1, g, m2));
            assert(legal_capture(p1, m2.from as int, m2.to as int, m2.promote));
        }
    }
}

/// The bound of the captures processed so far carries over to the next one.
#[verifier::spinoff_prover]
#[verifier::rlimit(60)]
proof fn lemma_counted_step(
    a: Position,
    before: Position,
    ml0: Seq<Option<Move>>,
    ml1: Seq<Option<Move>>,
    lo: int,
    mi: int,
    beta: int,
    alpha_b: int,
    alpha: int,
    res: Option<i32>,
)
    requires
        lo <= mi,
        alpha >= alpha_b,
        before.board.view() == a.board.view(),
        before.board.key_rest() == a.board.key_rest(),
        before.side == a.side,
        before.castle == a.castle,
        before.fifty == a.fifty,
        before.ply_from_start_of_game == a.ply_from_start_of_game,
        before.game_at(before.ply_from_start_of_game as int) == a.game_at(a.ply_from_start_of_game as int),
        forall|j: int| lo <= j < mi ==> #[trigger] ml1[j] == ml0[j],
        forall|j: int, c: Position| lo <= j < mi ==> #[trigger] counted(a, ml0[j], c, beta, alpha_b),
        ml1[mi] is Some,
        res is Some <==> playable_move(before, ml1[mi].unwrap()),
        res matches Some(v) ==> forall|c: Position|
            #[trigger] moved_to(before, c, ml1[mi].unwrap()) && kings_on(c) && !has_legal_capture(c) ==> -v == clip(
                eval_of(c),
                -beta,
                -alpha_b,
            ),
        res matches Some(v) ==> alpha >= v,
    ensures
        forall|j: int, c: Position| lo <= j < mi + 1 ==> #[trigger] counted(a, ml1[j], c, beta, alpha),
{
    assert forall|j: int, c: Position| lo <= j < mi + 1 implies #[trigger] counted(a, ml1[j], c, beta, alpha) by {
        if j < mi {
            assert(counted(a, ml0[j], c, beta, alpha_b));
        } else {
            let m = ml1[mi].unwrap();
            if playable_move(a, m) && moved_to(a, c, m) && kings_on(c) && !has_legal_capture(c) {
                lemma_moved_to_same(a, before, c, m);
                assert(playable_move(before, m));
                let v = res.unwrap();
                assert(-v == clip(eval_of(c), -beta, -alpha_b));
            }
        }
    }
}

/// Once every capture is processed, the bound holds for every legal capture.
#[verifier::spinoff_prover]
#[verifier::rlimit(60)]
proof fn lemma_counted_all(a: Position, side: Side, ml: Seq<Option<Move>>, lo: int, hi: int, beta: int, alpha: int)
    requires
        side == a.side,
        deep_enough(a),
        forall|f: int, t: int, q: Option<crate::types::Piece>|
            #[trigger] crate::movegen::generation_target(a, side, true, f, t, q) ==> crate::movegen::has_move(ml, lo, hi, f, t, q),
        forall|j: int, c: Position| lo <= j < hi ==> #[trigger] counted(a, ml[j], c, beta, alpha),
    ensures
        quiet_captures_counted(a, beta, alpha),
{
    assert forall|m: Move, c: Position|
        #![trigger moved_to(a, c, m)]
        legal_capture(a, m.from as int, m.to as int, m.promote) && moved_to(a, c, m) && kings_on(c) && !has_legal_capture(c)
            implies alpha >= min_of(beta, -eval_of(c)) by {
        let f = m.from as int;
        let t = m.to as int;
        let q = m.promote;
        assert(crate::movegen::has_move(ml, lo, hi, f, t, q));
        let j = choose|j: int| lo <= j < hi && #[trigger] crate::movegen::move_at(ml, j, f, t, q);
        let m2 = ml[j].unwrap();
        lemma_same_square(m2.from, m.from);
        lemma_same_square(m2.to, m.to);
        assert(moved_to(a, c, m2));
        assert(counted(a, ml[j], c, beta, alpha));
    }
}

/// A search can start from `p`: a king on each side, room for the moves of the
/// first ply and for a move in the game record, and a halfmove clock that can
/// still count.
pub open spec fn root_ready(p: Position) -> bool {
    &&& crate::rules::has_king(p.board.view(), p.side)
    &&& crate::rules::has_king(p.board.view(), p.side.spec_opponent())
    &&& p.first_move@.len() >= 3
    &&& p.ply_from_start_of_game + 1 < p.game_list@.len()
    &&& p.fifty < 255
}

/// The score of a position whose side to move has no legal move, for that side:
/// checkmate when its king is attacked, stalemate (a draw) otherwise.
pub open spec fn no_move_score(p: Position) -> int {
    if king_attacked(p) {
        -10000
    } else {
        0
    }
}

/// Two positions with the same squares, side to move, castle rights and last
/// move of the game record have the same legal moves.
pub proof fn lemma_legal_moves_same(a: Position, pk: Position)
    requires
        pk.board.view() == a.board.view(),
        pk.side == a.side,
        pk.ply_from_start_of_game == a.ply_from_start_of_game,
        pk.game_at(pk.ply_from_start_of_game as int) == a.game_at(a.ply_from_start_of_game as int),
        pk.castle == a.castle,
    ensures
        has_legal_move(pk) == has_legal_move(a),
        king_attacked(pk) == king_attacked(a),
{
    crate::movegen::lemma_targets_same_view(a, pk, a.side, false);
    assert forall|f: int, t: int, q: Option<crate::types::Piece>|
        #[trigger] crate::legal::legal_move(pk, f, t, q) == crate::legal::legal_move(a, f, t, q) by {
        assert(crate::movegen::generation_target(pk, a.side, false, f, t, q) == crate::movegen::generation_target(a, a.side, false, f, t, q));
    }
    if has_legal_move(a) {
        let (f, t, q) = choose|f: int, t: int, q: Option<crate::types::Piece>| #[trigger] crate::legal::legal_move(a, f, t, q);
        assert(crate::legal::legal_move(pk, f, t, q));
    }
    if has_legal_move(pk) {
        let (f, t, q) = choose|f: int, t: int, q: Option<crate::types::Piece>| #[trigger] crate::legal::legal_move(pk, f, t, q);
        assert(crate::legal::legal_move(a, f, t, q));
    }
}

/// The entries of `after` in `[lo, hi)` are those of `before` with the entries
/// at `mi` and `k` swapped.
pub open spec fn swap_at(before: Seq<Option<Move>>, after: Seq<Option<Move>>, lo: int, mi: int, hi: int, k: int) -> bool {
    &&& mi <= k < hi
    &&& forall|i: int| lo <= i < hi ==> #[trigger] after[i] == before.update(mi, before[k]).update(k, before[mi])[i]
}

/// The entries of `after` in `[lo, hi)` are those of `before` with the entry at
/// `mi` swapped with one at or after it.
pub open spec fn swapped_in(before: Seq<Option<Move>>, after: Seq<Option<Move>>, lo: int, mi: int, hi: int) -> bool {
    exists|k: int| #[trigger] swap_at(before, after, lo, mi, hi, k)
}

/// A swap within `[lo, hi)` keeps every move there, and keeps the entries
/// generated moves.
proof fn lemma_swap_keeps(before: Seq<Option<Move>>, after: Seq<Option<Move>>, lo: int, mi: int, hi: int, a: Position, side: Side, co: bool)
    requires
        0 <= lo <= mi < hi,
        hi <= before.len(),
        swapped_in(before, after, lo, mi, hi),
        forall|j: int| lo <= j < hi ==> (#[trigger] before[j] matches Some(m) && crate::movegen::generated_move(a, side, co, m)),
    ensures
        forall|j: int| lo <= j < hi ==> (#[trigger] after[j] matches Some(m) && crate::movegen::generated_move(a, side, co, m)),
        forall|j: int| lo <= j < mi ==> #[trigger] after[j] == before[j],
        forall|f: int, t: int, q: Option<crate::types::Piece>|
            #[trigger] crate::movegen::has_move(before, lo, hi, f, t, q) ==> crate::movegen::has_move(after, lo, hi, f, t, q),
{
    let k = choose|k: int| #[trigger] swap_at(before, after, lo, mi, hi, k);
    let sw = before.update(mi, before[k]).update(k, before[mi]);
    assert forall|j: int| lo <= j < mi implies #[trigger] after[j] == before[j] by {
        assert(after[j] == sw[j]);
    }
    assert forall|j: int| lo <= j < hi implies (#[trigger] after[j] matches Some(m) && crate::movegen::generated_move(a, side, co, m)) by {
        assert(after[j] == sw[j]);
        if j == k {
            assert(sw[j] == before[mi]);
        } else if j == mi {
            assert(sw[j] == before[k]);
        } else {
            assert(sw[j] == before[j]);
        }
    }
    assert forall|f: int, t: int, q: Option<crate::types::Piece>|
        #[trigger] crate::movegen::has_move(before, lo, hi, f, t, q) implies crate::movegen::has_move(after, lo, hi, f, t, q) by {
        let i = choose|i: int| lo <= i < hi && #[trigger] crate::movegen::move_at(before, i, f, t, q);
        let j = if i == mi { k } else if i == k { mi } else { i };
        assert(after[j] == sw[j]);
        assert(crate::movegen::move_at(after, j, f, t, q));
    }
}

/// Sorting at `mi` and keeping what lies below `hi` swaps in `[lo, hi)`.
proof fn lemma_swapped(before: Seq<Option<Move>>, sorted: Seq<Option<Move>>, after: Seq<Option<Move>>, lo: int, mi: int, hi: int)
    requires
        lo <= mi,
        selected(before, sorted, mi, hi),
        forall|i: int| lo <= i < hi ==> #[trigger] after[i] == sorted[i],
    ensures
        swapped_in(before, after, lo, mi, hi),
{
    let k = choose|k: int| #[trigger] selected_at(before, sorted, mi, hi, k);
    assert(swap_at(before, after, lo, mi, hi, k));
}

impl Position {
    /// Whether the search can go one ply deeper from here: a king on each side,
    /// room in the move lists and the game record, and a halfmove clock that can
    /// still count.
    fn can_go_deeper(&self) -> (r: bool)
        requires
            search_ready(*self),
        ensures
            r ==> {
                &&& crate::rules::has_king(self.board.view(), self.side)
                &&& crate::rules::has_king(self.board.view(), self.side.spec_opponent())
                &&& self.ply + 2 < self.first_move@.len()
                &&& self.first_move@[self.ply as int] <= 1_000_000
                &&& self.ply_from_start_of_game + 1 < self.game_list@.len()
                &&& self.fifty < 255
                &&& self.ply + 2 < usize::MAX
            },
            r == deep_enough(*self),
    {
        proof {
            vstd::std_specs::vec::axiom_spec_len(&self.first_move);
        }
        self.king_present(self.side) && self.king_present(self.side.opponent()) && self.ply + 2 < self.first_move.len()
            && self.first_move[self.ply] <= 1_000_000 && self.ply_from_start_of_game < self.game_list.len()
            && self.game_list.len() - self.ply_from_start_of_game >= 2 && self.fifty < 255
    }

    /// Plays the capture at `mi` of the current ply (once the best remaining one
    /// is sorted there), searches the reply and takes the capture back; gives the
    /// score for the side to move, or nothing when the capture cannot be made.
    #[verifier::rlimit(100)]
    #[verifier::spinoff_prover]
    fn search_capture(&mut self, mi: usize, alpha: i32, beta: i32) -> (r: Option<i32>)
        requires
            search_ready(*old(self)),
            crate::rules::has_king(old(self).board.view(), old(self).side),
            old(self).ply + 2 < old(self).first_move@.len(),
            old(self).ply_from_start_of_game + 1 < old(self).game_list@.len(),
            old(self).fifty < 255,
            old(self).ply + 2 < usize::MAX,
            old(self).first_move@[old(self).ply as int] <= mi < old(self).first_move@[old(self).ply + 1],
            old(self).first_move@[old(self).ply + 1] <= old(self).move_list@.len(),
            forall|i: int| mi <= i < old(self).first_move@[old(self).ply + 1] ==> #[trigger] old(self).move_list@[i] is Some,
            -SCORE_BOUND <= alpha <= SCORE_BOUND,
            -SCORE_BOUND <= beta <= SCORE_BOUND,
        ensures
            search_restored(*old(self), *final(self)),
            final(self).first_move@[old(self).ply + 1] == old(self).first_move@[old(self).ply + 1],
            final(self).move_list@.len() >= old(self).first_move@[old(self).ply + 1],
            forall|i: int| mi < i < old(self).first_move@[old(self).ply + 1] ==> #[trigger] final(self).move_list@[i] is Some,
            r matches Some(v) ==> -SCORE_BOUND <= v <= SCORE_BOUND,
            final(self).stop_search == old(self).stop_search,
            final(self).best_move_from == old(self).best_move_from && final(self).best_move_to == old(self).best_move_to,
            swapped_in(old(self).move_list@, final(self).move_list@, old(self).first_move@[old(self).ply as int] as int, mi as int,
                old(self).first_move@[old(self).ply + 1] as int),
            final(self).move_list@[mi as int] is Some,
            r is Some <==> playable_move(*old(self), final(self).move_list@[mi as int].unwrap()),
            r matches Some(v) ==> forall|c: Position|
                #[trigger] moved_to(*old(self), c, final(self).move_list@[mi as int].unwrap()) && kings_on(c) && !has_legal_capture(c)
                    ==> -v == clip(eval_of(c), -beta, -alpha),
            r matches Some(v) ==> forall|c: Position|
                #[trigger] made_from(*old(self), c, final(self).move_list@[mi as int].unwrap()) ==> quiet_exact(c, -beta, -alpha, -v)
                    && quiet_captures_counted(c, -alpha, -v),
        decreases old(self).first_move@.len() - old(self).ply, 1int,
    {
        let ghost a = *self;
        let ghost lo = a.first_move@[a.ply as int] as int;
        let ghost hi = a.first_move@[a.ply + 1] as int;
        self.sort(mi);
        let ghost s0 = *self;
        proof {
            assert(search_restored(a, s0));
        }
        let current = self.move_list[mi].unwrap();
        if !self.move_playable(current.from, current.to, current.promote) {
            proof {
                lemma_swapped(a.move_list@, s0.move_list@, self.move_list@, lo, mi as int, hi);
            }
            return None;
        }
        let ghost p0 = *self;
        if !self.make_move_with_promotion(current.from, current.to, current.promote) {
            proof {
                assert(self.move_list == s0.move_list);
                lemma_swapped(a.move_list@, s0.move_list@, self.move_list@, lo, mi as int, hi);
            }
            return None;
        }
        let ghost p1 = *self;
        let s = self.quiescent_search(-beta, -alpha);
        let ghost p2 = *self;
        proof {
            lemma_take_back_after_search(p0, p1, p2, p2, current.from, current.to, current.promote);
        }
        self.take_back_move();
        proof {
            lemma_take_back_after_search(p0, p1, p2, *self, current.from, current.to, current.promote);
            assert(p1.move_list == s0.move_list && p1.first_move == s0.first_move && p1.ply == a.ply + 1);
            assert(self.move_list == p2.move_list);
            assert forall|i: int| lo <= i < hi implies #[trigger] self.move_list@[i] == s0.move_list@[i] by {
                assert(p2.move_list@[i] == p1.move_list@[i]);
            }
            lemma_swapped(a.move_list@, s0.move_list@, self.move_list@, lo, mi as int, hi);
            assert(self.move_list@[mi as int] == Some(current));
            assert(p1.game_at(p1.ply_from_start_of_game as int) == Some(crate::make_move::move_record(p0, current.from, current.to, current.promote)));
            assert(moved_to(p0, p1, current));
            assert forall|c: Position|
                #[trigger] moved_to(a, c, current) && kings_on(c) && !has_legal_capture(c) implies -(-s) == clip(eval_of(c), -beta, -alpha) by {
                lemma_moved_same(a, p0, c, p1, current);
            }
            assert forall|c: Position| #[trigger] made_from(a, c, current) implies quiet_exact(c, -beta, -alpha, -(-s))
                && quiet_captures_counted(c, -alpha, -(-s)) by {
                lemma_child_fields(a, p0, p1, c, current);
                lemma_alike_laws(p1, c, -beta as int, -alpha as int, s as int);
            }
        }
        Some(-s)
    }

    /// The quiescence search: the static evaluation of the side to move (stand
    /// pat), improved by searching the captures until the position is quiet,
    /// within the window `alpha`..`beta` (a score at or above `beta` cuts the
    /// search off). The position comes back as it was.
    #[verifier::rlimit(100)]
    #[verifier::spinoff_prover]
    pub fn quiescent_search(&mut self, alpha: i32, beta: i32) -> (r: i32)
        requires
            search_ready(*old(self)),
            -SCORE_BOUND <= alpha <= SCORE_BOUND,
            -SCORE_BOUND <= beta <= SCORE_BOUND,
        ensures
            search_restored(*old(self), *final(self)),
            -SCORE_BOUND <= r <= SCORE_BOUND,
            stand_pat_bound(*old(self), alpha, beta, r),
            quiet_exact(*old(self), alpha as int, beta as int, r as int),
            quiet_captures_counted(*old(self), beta as int, r as int),
            final(self).stop_search == old(self).stop_search,
            final(self).best_move_from == old(self).best_move_from && final(self).best_move_to == old(self).best_move_to,
        decreases old(self).first_move@.len() - old(self).ply, 2int,
    {
        let ghost a = *self;
        let mut alpha = alpha;
        self.nodes = self.nodes.wrapping_add(1);
        if !self.can_go_deeper() {
            if self.king_present(self.side) && self.king_present(self.side.opponent()) {
                let stand_pat = self.evaluate_position();
                if stand_pat >= beta {
                    return beta;
                }
                if stand_pat > alpha {
                    return stand_pat;
                }
            }
            return alpha;
        }
        let stand_pat = self.evaluate_position();
        let ghost a0 = alpha;
        if stand_pat >= beta {
            return beta;
        }
        if stand_pat > alpha {
            alpha = stand_pat;
        }
        let side = self.side;
        let ply = self.ply;
        let ghost pre = *self;
        let ghost alpha1 = alpha;
        self.generate_captures(side);
        let lo = self.first_move[ply] as usize;
        let hi = self.first_move[ply + 1] as usize;
        proof {
            assert(crate::movegen::moves_generated(pre, *self, side, true));
            crate::movegen::lemma_targets_same(a, pre, side, true);
            assert forall|j: int| lo <= j < hi implies (#[trigger] self.move_list@[j] matches Some(m) && crate::movegen::generated_move(
                a, side, true, m)) by {
                assert(self.move_list@[j] matches Some(m) && crate::movegen::generated_move(pre, side, true, m));
            }
            assert forall|f: int, t: int, q: Option<crate::types::Piece>|
                #[trigger] crate::movegen::generation_target(a, side, true, f, t, q) implies crate::movegen::has_move(
                    self.move_list@, lo as int, hi as int, f, t, q) by {
                assert(crate::movegen::generation_target(pre, side, true, f, t, q));
            }
        }
        let mut mi = lo;
        while mi < hi
            invariant
                search_restored(a, *self),
                search_ready(a),
                a.ply == ply,
                a.side == side,
                crate::rules::has_king(a.board.view(), side),
                a.ply + 2 < a.first_move@.len(),
                a.ply_from_start_of_game + 1 < a.game_list@.len(),
                a.fifty < 255,
                a.ply + 2 < usize::MAX,
                lo as int == a.first_move@[ply as int],
                lo <= mi,
                self.first_move@[ply + 1] == hi as int,
                hi <= self.move_list@.len(),
                forall|i: int| mi <= i < hi ==> #[trigger] self.move_list@[i] is Some,
                -SCORE_BOUND <= alpha <= SCORE_BOUND,
                -SCORE_BOUND <= beta <= SCORE_BOUND,
                self.ply == ply,
                self.first_move@.len() == a.first_move@.len(),
                *old(self) == a,
                alpha >= a0,
                alpha >= stand_pat,
                stand_pat < beta,
                stand_pat == crate::eval::evaluation(a.board.view(), a.side),
                crate::rules::has_king(a.board.view(), a.side.spec_opponent()),
                self.stop_search == a.stop_search,
                self.best_move_from == a.best_move_from && self.best_move_to == a.best_move_to,
                deep_enough(a),
                forall|f: int, t: int, q: Option<crate::types::Piece>|
                    #[trigger] crate::movegen::generation_target(a, side, true, f, t, q) ==> crate::movegen::has_move(
                        self.move_list@, lo as int, hi as int, f, t, q),
                forall|j: int| lo <= j < hi ==> (#[trigger] self.move_list@[j] matches Some(m) && crate::movegen::generated_move(
                    a, side, true, m)),
                forall|j: int, c: Position| lo <= j < mi ==> #[trigger] counted(a, self.move_list@[j], c, beta as int, alpha as int),
                !has_legal_capture(a) ==> alpha == alpha1,
                alpha1 == (if stand_pat > a0 { stand_pat } else { a0 }),
            decreases hi - mi,
        {
            let ghost before = *self;
            let ghost alpha_b = alpha;
            let res = self.search_capture(mi, alpha, beta);
            proof {
                lemma_restored_trans(a, before, *self);
                assert(search_restored(a, *self));
                lemma_swap_keeps(before.move_list@, self.move_list@, lo as int, mi as int, hi as int, a, side, true);
                let m = self.move_list@[mi as int].unwrap();
                assert(self.move_list@[mi as int] matches Some(_) && crate::movegen::generated_move(a, side, true, m));
                if res is Some {
                    crate::legal::lemma_generated_target(a, side, true, m);
                    assert(legal_capture(a, m.from as int, m.to as int, m.promote));
                }
            }
            if let Some(score) = res {
                if score >= beta {
                    return score;
                }
                if score > alpha {
                    alpha = score;
                }
            }
            proof {
                lemma_counted_step(a, before, before.move_list@, self.move_list@, lo as int, mi as int, beta as int, alpha_b as int,
                    alpha as int, res);
            }
            mi = mi + 1;
        }
        proof {
            lemma_counted_all(a, side, self.move_list@, lo as int, hi as int, beta as int, alpha as int);
        }
        alpha
    }
}


/// `from`-`to` is a move of the side to move in `p` that the board can carry
/// out and that does not leave its king attacked.
pub open spec fn legal_choice(p: Position, from: Option<crate::types::Square>, to: Option<crate::types::Square>) -> bool {
    exists|m: Move| #[trigger] playable_move(p, m) && from == Some(m.from) && to == Some(m.to)
}

/// The board of `p` can carry out `m` for the side to move, and it does not
/// leave that side's king attacked.
pub open spec fn playable_move(p: Position, m: Move) -> bool {
    &&& move_ok(p.board.view(), p.side, m.from as int, m.to as int, m.promote)
    &&& crate::rules::move_succeeds(p.board.view(), p.side, m.from as int, m.to as int, m.promote)
}

/// The position repeats an earlier one inside the fifty-move window (below the root).
pub open spec fn repeated(p: Position) -> bool {
    p.ply > 0 && exists|j: int| #[trigger] p.backward_candidate(j) && (p.game_at(j) matches Some(g) && g.hash == p.board.hash.current_key)
}

impl Position {
    /// Plays the move at `mi` of the current ply (once the best remaining one is
    /// sorted there), searches the reply to `depth - 1` and takes the move back;
    /// gives the score for the side to move, or nothing when the move cannot be
    /// made or leaves the mover's king attacked.
    #[verifier::rlimit(100)]
    #[verifier::spinoff_prover]
    fn search_move(&mut self, mi: usize, alpha: i32, beta: i32, depth: u16) -> (r: Option<(i32, Move)>)
        requires
            search_ready(*old(self)),
            depth >= 1,
            crate::rules::has_king(old(self).board.view(), old(self).side),
            old(self).ply + 2 < old(self).first_move@.len(),
            old(self).ply_from_start_of_game + 1 < old(self).game_list@.len(),
            old(self).fifty < 255,
            old(self).ply + 2 < usize::MAX,
            old(self).first_move@[old(self).ply as int] <= mi < old(self).first_move@[old(self).ply + 1],
            old(self).first_move@[old(self).ply + 1] <= old(self).move_list@.len(),
            forall|i: int| mi <= i < old(self).first_move@[old(self).ply + 1] ==> #[trigger] old(self).move_list@[i] is Some,
            -SCORE_BOUND <= alpha <= SCORE_BOUND,
            -SCORE_BOUND <= beta <= SCORE_BOUND,
        ensures
            search_restored(*old(self), *final(self)),
            final(self).first_move@[old(self).ply + 1] == old(self).first_move@[old(self).ply + 1],
            final(self).move_list@.len() >= old(self).first_move@[old(self).ply + 1],
            forall|i: int| mi < i < old(self).first_move@[old(self).ply + 1] ==> #[trigger] final(self).move_list@[i] is Some,
            r matches Some((v, _)) ==> -SCORE_BOUND <= v <= SCORE_BOUND,
            old(self).fixed_depth ==> final(self).stop_search == old(self).stop_search,
            r matches Some((_, m)) ==> move_ok(old(self).board.view(), old(self).side, m.from as int, m.to as int, m.promote)
                && crate::rules::move_succeeds(old(self).board.view(), old(self).side, m.from as int, m.to as int, m.promote),
            final(self).best_move_from == old(self).best_move_from && final(self).best_move_to == old(self).best_move_to,
            swapped_in(old(self).move_list@, final(self).move_list@, old(self).first_move@[old(self).ply as int] as int, mi as int,
                old(self).first_move@[old(self).ply + 1] as int),
            r matches Some((_, m)) ==> final(self).move_list@[mi as int] == Some(m),
        decreases old(self).first_move@.len() - old(self).ply, 1int,
    {
        let ghost a = *self;
        let ghost lo = a.first_move@[a.ply as int] as int;
        let ghost hi = a.first_move@[a.ply + 1] as int;
        self.sort(mi);
        let ghost s0 = *self;
        proof {
            assert(search_restored(a, s0));
        }
        let current = self.move_list[mi].unwrap();
        if !self.move_playable(current.from, current.to, current.promote) {
            proof {
                lemma_swapped(a.move_list@, s0.move_list@, self.move_list@, lo, mi as int, hi);
            }
            return None;
        }
        let ghost p0 = *self;
        if !self.make_move_with_promotion(current.from, current.to, current.promote) {
            proof {
                assert(self.move_list == s0.move_list);
                lemma_swapped(a.move_list@, s0.move_list@, self.move_list@, lo, mi as int, hi);
            }
            return None;
        }
        let ghost p1 = *self;
        let s = self.search(-beta, -alpha, depth - 1);
        let ghost p2 = *self;
        proof {
            lemma_take_back_after_search(p0, p1, p2, p2, current.from, current.to, current.promote);
        }
        self.take_back_move();
        proof {
            lemma_take_back_after_search(p0, p1, p2, *self, current.from, current.to, current.promote);
            assert(p1.move_list == s0.move_list && p1.first_move == s0.first_move && p1.ply == a.ply + 1);
            assert(self.move_list == p2.move_list);
            assert forall|i: int| lo <= i < hi implies #[trigger] self.move_list@[i] == s0.move_list@[i] by {
                assert(p2.move_list@[i] == p1.move_list@[i]);
            }
            lemma_swapped(a.move_list@, s0.move_list@, self.move_list@, lo, mi as int, hi);
        }
        Some((-s, current))
    }

    /// The negamax search with alpha-beta pruning to `depth` plies, then the
    /// quiescence search: a repeated position scores 0; checkmate scores
    /// `-10000` plus the ply (shorter mates are preferred) and stalemate 0; with
    /// the fifty-move counter at 100 the score is 0. At the root it records the
    /// best move. Every 256 positions it reads the clock and, past the stop time
    /// (unless the depth is fixed, and below the first two plies), sets the stop
    /// flag and gives up with 0. The position comes back as it was.
    #[verifier::rlimit(100)]
    #[verifier::spinoff_prover]
    pub fn search(&mut self, alpha: i32, beta: i32, depth: u16) -> (r: i32)
        requires
            search_ready(*old(self)),
            -SCORE_BOUND <= alpha <= SCORE_BOUND,
            -SCORE_BOUND <= beta <= SCORE_BOUND,
        ensures
            search_restored(*old(self), *final(self)),
            -SCORE_BOUND <= r <= SCORE_BOUND,
            repeated(*old(self)) ==> r == 0,
            !repeated(*old(self)) && depth == 0 ==> stand_pat_bound(*old(self), alpha, beta, r),
            old(self).fixed_depth ==> final(self).stop_search == old(self).stop_search,
            old(self).ply > 0 ==> final(self).best_move_from == old(self).best_move_from && final(self).best_move_to == old(
                self,
            ).best_move_to,
            (final(self).best_move_from == old(self).best_move_from && final(self).best_move_to == old(self).best_move_to)
                || legal_choice(*old(self), final(self).best_move_from, final(self).best_move_to),
            search_expands(*old(self), depth) && !has_legal_move(*old(self)) ==> r == (if king_attacked(*old(self)) {
                -10000 + old(self).ply
            } else {
                0
            }),
        decreases old(self).first_move@.len() - old(self).ply, 2int,
    {
        let ghost a = *self;
        let mut alpha = alpha;
        if self.ply > 0 && self.search_backward_for_identical_position() {
            return 0;
        }
        if depth == 0 {
            return self.quiescent_search(alpha, beta);
        }
        self.nodes = self.nodes.wrapping_add(1);
        if self.nodes & 255 == 0 {
            if crate::time::get_time() >= self.stop_time && !self.fixed_depth && self.ply > 1 {
                self.stop_search = true;
                return 0;
            }
        }
        proof {
            assert(search_restored(a, *self));
        }
        if self.ply >= crate::constants::MAX_PLY - 1 || !self.can_go_deeper() {
            if self.king_present(self.side) && self.king_present(self.side.opponent()) {
                return self.evaluate_position();
            }
            return 0;
        }
        let side = self.side;
        let ply = self.ply;
        let king = self.king_square(side);
        let in_check = self.is_square_attacked_by_side(side.opponent(), crate::tables::square_of(king));
        let ghost pre = *self;
        self.generate_moves_and_captures(side);
        let lo = self.first_move[ply] as usize;
        let hi = self.first_move[ply + 1] as usize;
        proof {
            assert(crate::movegen::moves_generated(pre, *self, side, false));
            crate::movegen::lemma_targets_same(a, pre, side, false);
            assert(in_check == king_attacked(a));
            assert forall|j: int| lo <= j < hi implies (#[trigger] self.move_list@[j] matches Some(m) && crate::movegen::generated_move(
                a, side, false, m)) by {
                assert(self.move_list@[j] matches Some(m) && crate::movegen::generated_move(pre, side, false, m));
            }
            assert forall|f: int, t: int, q: Option<crate::types::Piece>|
                #[trigger] crate::movegen::generation_target(a, side, false, f, t, q) implies crate::movegen::has_move(
                    self.move_list@, lo as int, hi as int, f, t, q) by {
                assert(crate::movegen::generation_target(pre, side, false, f, t, q));
            }
        }
        let mut best_score: i32 = -100000;
        let mut best_move: Option<Move> = None;
        let mut legal_moves: usize = 0;
        let mut mi = lo;
        while mi < hi
            invariant
                search_restored(a, *self),
                search_ready(a),
                a.ply == ply,
                a.side == side,
                crate::rules::has_king(a.board.view(), side),
                a.ply + 2 < a.first_move@.len(),
                a.ply_from_start_of_game + 1 < a.game_list@.len(),
                a.fifty < 255,
                a.ply + 2 < usize::MAX,
                lo as int == a.first_move@[ply as int],
                lo <= mi,
                depth >= 1,
                ply < 63,
                legal_moves <= mi,
                self.first_move@[ply + 1] == hi as int,
                hi <= self.move_list@.len(),
                forall|i: int| mi <= i < hi ==> #[trigger] self.move_list@[i] is Some,
                -SCORE_BOUND <= alpha <= SCORE_BOUND,
                -SCORE_BOUND <= beta <= SCORE_BOUND,
                -SCORE_BOUND <= best_score <= SCORE_BOUND,
                a.fixed_depth ==> self.stop_search == a.stop_search,
                !repeated(a),
                self.best_move_from == a.best_move_from && self.best_move_to == a.best_move_to,
                best_move matches Some(m) ==> move_ok(a.board.view(), a.side, m.from as int, m.to as int, m.promote)
                    && crate::rules::move_succeeds(a.board.view(), a.side, m.from as int, m.to as int, m.promote),
                self.ply == ply,
                self.first_move@.len() == a.first_move@.len(),
                *old(self) == a,
                in_check == king_attacked(a),
                forall|f: int, t: int, q: Option<crate::types::Piece>|
                    #[trigger] crate::movegen::generation_target(a, side, false, f, t, q) ==> crate::movegen::has_move(
                        self.move_list@, lo as int, hi as int, f, t, q),
                forall|j: int| lo <= j < hi ==> (#[trigger] self.move_list@[j] matches Some(m) && crate::movegen::generated_move(
                    a, side, false, m)),
                !has_legal_move(a) ==> legal_moves == 0,
            decreases hi - mi,
        {
            let ghost before = *self;
            let res = self.search_move(mi, alpha, beta, depth);
            proof {
                lemma_restored_trans(a, before, *self);
                lemma_swap_keeps(before.move_list@, self.move_list@, lo as int, mi as int, hi as int, a, side, false);
                if let Some((_, m)) = res {
                    assert(self.move_list@[mi as int] == Some(m));
                    crate::legal::lemma_generated_target(a, side, false, m);
                    assert(crate::legal::legal_move(a, m.from as int, m.to as int, m.promote));
                }
            }
            if let Some((score, m)) = res {
                legal_moves = legal_moves + 1;
                if self.stop_search {
                    return 0;
                }
                if score > best_score {
                    best_score = score;
                    best_move = Some(m);
                    if score > alpha {
                        alpha = score;
                    }
                }
                if score >= beta {
                    return best_score;
                }
            }
            mi = mi + 1;
        }
        if legal_moves == 0 {
            if in_check {
                return -10000 + ply as i32;
            } else {
                return 0;
            }
        }
        if self.fifty >= 100 {
            return 0;
        }
        if ply == 0 {
            if let Some(mv) = best_move {
                self.best_move_from = Some(mv.from);
                self.best_move_to = Some(mv.to);
                proof {
                    assert(playable_move(a, mv));
                }
            }
        }
        best_score
    }
}


/// What one completed depth of an iterative deepening search found.
#[derive(Clone, Copy, Debug)]
pub struct DepthReport {
    pub depth: u16,
    pub nodes: usize,
    pub score: i32,
    pub best_move_from: Option<crate::types::Square>,
    pub best_move_to: Option<crate::types::Square>,
}

impl Position {
    /// Iterative deepening: searches to depth 1, 2, ... up to the maximal
    /// depth, one report per completed depth. A depth is not started once the
    /// time spent reaches the budget (a quarter of it unless the time is fixed)
    /// when the depth is not fixed; a depth cut short by the clock is dropped;
    /// a mate score ends the search. The best move is left as the hash move.
    pub fn think(&mut self) -> (r: Vec<DepthReport>)
        requires
            old(self).board.wf(),
            old(self).first_move@.len() >= 2,
        ensures
            final(self).board.view() == old(self).board.view(),
            final(self).board.hash.current_key == old(self).board.hash.current_key,
            final(self).side == old(self).side,
            final(self).castle == old(self).castle,
            final(self).ply == 0,
            final(self).ply_from_start_of_game == old(self).ply_from_start_of_game,
            r@.len() <= old(self).max_depth,
            forall|i: int| 0 <= i < r@.len() ==> (#[trigger] r@[i]).depth == i + 1 && -SCORE_BOUND <= r@[i].score <= SCORE_BOUND,
            old(self).fixed_depth ==> r@.len() == old(self).max_depth || (r@.len() > 0 && (r@.last().score > 9000
                || r@.last().score < -9000)),
            (final(self).best_move_from == old(self).best_move_from && final(self).best_move_to == old(self).best_move_to)
                || legal_choice(*old(self), final(self).best_move_from, final(self).best_move_to),
            root_ready(*old(self)) && !has_legal_move(*old(self)) ==> forall|i: int| 0 <= i < r@.len() ==> (#[trigger] r@[i]).score
                == no_move_score(*old(self)),
    {
        let ghost o = *self;
        self.stop_search = false;
        self.start_time = crate::time::get_time();
        self.stop_time = self.start_time.saturating_add(self.max_search_duration_ms as u64);
        self.ply = 0;
        self.nodes = 0;
        self.set_material_scores();
        let ghost a = *self;
        let mut reports: Vec<DepthReport> = Vec::new();
        let max_depth = self.max_depth;
        let mut depth: u32 = 1;
        let ghost mut mated = false;
        self.first_move.set(0, 0);
        while depth <= max_depth as u32
            invariant_except_break
                !mated,
            invariant
                self.fixed_depth == a.fixed_depth,
                a.fixed_depth ==> !self.stop_search,
                a.board.view() == o.board.view() && a.side == o.side,
                (self.best_move_from == o.best_move_from && self.best_move_to == o.best_move_to) || legal_choice(
                    o,
                    self.best_move_from,
                    self.best_move_to,
                ),
                mated ==> reports@.len() > 0 && (reports@.last().score > 9000 || reports@.last().score < -9000),
                self.board.wf(),
                self.board.view() == a.board.view(),
                self.board.hash.current_key == a.board.hash.current_key,
                self.side == a.side,
                self.castle == a.castle,
                self.ply == 0,
                self.ply_from_start_of_game == a.ply_from_start_of_game,
                self.first_move@.len() >= 2,
                self.first_move@[0] == 0,
                1 <= depth <= max_depth as u32 + 1,
                max_depth == a.max_depth,
                reports@.len() == depth - 1,
                forall|i: int| 0 <= i < reports@.len() ==> (#[trigger] reports@[i]).depth == i + 1 && -SCORE_BOUND
                    <= reports@[i].score <= SCORE_BOUND,
                self.first_move@.len() == o.first_move@.len(),
                self.fifty == o.fifty,
                self.game_list@.len() == o.game_list@.len(),
                self.ply_from_start_of_game == o.ply_from_start_of_game,
                self.game_at(o.ply_from_start_of_game as int) == o.game_at(o.ply_from_start_of_game as int),
                self.castle == o.castle,
                root_ready(o) && !has_legal_move(o) ==> forall|i: int| 0 <= i < reports@.len() ==> (#[trigger] reports@[i]).score
                    == no_move_score(o),
            ensures
                self.fixed_depth ==> mated || depth == max_depth as u32 + 1,
            decreases max_depth as u32 + 1 - depth,
        {
            if !self.fixed_depth && max_depth > 1 {
                let now = crate::time::get_time();
                let elapsed = if now >= self.start_time { now - self.start_time } else { 0 };
                let limit = if self.fixed_time {
                    self.max_search_duration_ms as u64
                } else {
                    self.max_search_duration_ms as u64 / 4
                };
                if elapsed >= limit {
                    break;
                }
            }
            let ghost pre = *self;
            proof {
                lemma_legal_moves_same(o, pre);
            }
            let score = self.search(-10000, 10000, depth as u16);
            proof {
                if legal_choice(pre, self.best_move_from, self.best_move_to) {
                    let m = choose|m: Move| #[trigger] playable_move(pre, m) && self.best_move_from == Some(m.from) && self.best_move_to == Some(m.to);
                    assert(playable_move(o, m));
                }
            }
            if self.stop_search {
                break;
            }
            reports.push(DepthReport {
                depth: depth as u16,
                nodes: self.nodes,
                score,
                best_move_from: self.best_move_from,
                best_move_to: self.best_move_to,
            });
            depth = depth + 1;
            if score > 9000 || score < -9000 {
                proof {
                    mated = true;
                }
                break;
            }
        }
        self.ply = 0;
        self.first_move.set(0, 0);
        if let (Some(from), Some(to)) = (self.best_move_from, self.best_move_to) {
            self.hash_from = Some(from);
            self.hash_to = Some(to);
        }
        reports
    }
}


/// The move at `i` goes from the hash move's origin to its target.
pub open spec fn is_hash_move(p: Position, i: int) -> bool {
    p.move_list@[i] matches Some(m) && p.hash_from == Some(m.from) && p.hash_to == Some(m.to)
}

impl Position {
    /// Gives the hash move (the best move of the last search), if it is among
    /// the current ply's moves, the top score so that it is searched first; only
    /// its first occurrence is marked.
    pub fn set_hash_move(&mut self)
        requires
            old(self).ply + 1 < old(self).first_move@.len(),
            0 <= old(self).first_move@[old(self).ply as int],
            old(self).first_move@[old(self).ply + 1] <= old(self).move_list@.len(),
        ensures
            *final(self) == (Position { move_list: final(self).move_list, ..*old(self) }),
            ({
                let lo = old(self).first_move@[old(self).ply as int] as int;
                let hi = old(self).first_move@[old(self).ply + 1] as int;
                ||| (forall|i: int| lo <= i < hi ==> !#[trigger] is_hash_move(*old(self), i)) && final(self).move_list == old(
                    self,
                ).move_list
                ||| exists|i: int|
                    lo <= i < hi && #[trigger] is_hash_move(*old(self), i) && (forall|j: int| lo <= j < i ==> !#[trigger] is_hash_move(
                        *old(self),
                        j,
                    )) && final(self).move_list@ == old(self).move_list@.update(
                        i,
                        Some(Move { score: crate::constants::HASH_SCORE as isize, ..old(self).move_list@[i].unwrap() }),
                    )
            }),
    {
        let ghost a = *self;
        proof {
            vstd::std_specs::vec::axiom_spec_len(&self.first_move);
        }
        let lo = self.first_move[self.ply];
        let hi = self.first_move[self.ply + 1];
        let mut i = lo;
        while i < hi
            invariant
                *self == a,
                *old(self) == a,
                lo == a.first_move@[a.ply as int],
                hi == a.first_move@[a.ply + 1],
                0 <= lo,
                hi <= a.move_list@.len(),
                lo <= i || hi <= i,
                forall|j: int| lo <= j < i ==> !#[trigger] is_hash_move(a, j),
            decreases hi - i,
        {
            if let Some(m) = self.move_list[i as usize] {
                if let (Some(hf), Some(ht)) = (self.hash_from, self.hash_to) {
                    if m.from == hf && m.to == ht {
                        proof {
                            assert(is_hash_move(a, i as int));
                        }
                        let marked = Move { score: crate::constants::HASH_SCORE as isize, ..m };
                        self.move_list.set(i as usize, Some(marked));
                        proof {
                            assert(self.move_list@ == a.move_list@.update(
                                i as int,
                                Some(Move { score: crate::constants::HASH_SCORE as isize, ..a.move_list@[i as int].unwrap() }),
                            ));
                        }
                        return;
                    }
                }
            }
            i = i + 1;
        }
    }
}

} // verus!
