use vstd::prelude::*;

use crate::board::{lemma_wf_bits, uci_text, Occupant};
use crate::make_move::{keeps_search_state, lemma_take_back_restores};
use crate::movegen::{generated_move, generation_target, has_move, move_at, moves_generated};
use crate::position::Position;
use crate::rules::{
    castle_target, ep_victim, has_king, is_castle, is_en_passant, move_ok, move_succeeds, piece_at, rook_from,
    rook_to,
};
use crate::tables::square_of;
use crate::types::{Board, Move, Piece, Side, Square};

verus! {

/// `t` is one of the texts of `out`.
pub open spec fn in_list(out: Seq<String>, t: Seq<char>) -> bool {
    exists|k: int| 0 <= k < out.len() && #[trigger] out[k]@ == t
}

/// `t` is the UCI text of a move that `a` generates for its side to move, that
/// the board can carry out and that does not leave the mover's king attacked.
pub open spec fn legal_text(a: Position, t: Seq<char>) -> bool {
    exists|m: Move|
        #[trigger] generated_move(a, a.side, false, m) && move_ok(a.board.view(), a.side, m.from as int, m.to as int, m.promote)
            && move_succeeds(a.board.view(), a.side, m.from as int, m.to as int, m.promote) && t == uci_text(
            m.from as int,
            m.to as int,
            m.promote,
            false,
        )
}

/// A move from `f` to `t` promoting to `p` that `a` generates, can carry out,
/// and that does not leave the mover's king attacked.
pub open spec fn legal_move(a: Position, f: int, t: int, p: Option<Piece>) -> bool {
    &&& generation_target(a, a.side, false, f, t, p)
    &&& move_ok(a.board.view(), a.side, f, t, p)
    &&& move_succeeds(a.board.view(), a.side, f, t, p)
}

/// When the entry holds a move the board can carry out and that does not leave
/// the mover's king attacked, its UCI text is in `out`.
pub open spec fn listed_if_legal(a: Position, out: Seq<String>, entry: Option<Move>) -> bool {
    match entry {
        Some(m) => move_ok(a.board.view(), a.side, m.from as int, m.to as int, m.promote) && move_succeeds(
            a.board.view(),
            a.side,
            m.from as int,
            m.to as int,
            m.promote,
        ) ==> in_list(out, uci_text(m.from as int, m.to as int, m.promote, false)),
        None => true,
    }
}

/// No text is twice in `out`.
pub open spec fn distinct_texts(out: Seq<String>) -> bool {
    forall|i: int, j: int| 0 <= i < j < out.len() ==> (#[trigger] out[i])@ != (#[trigger] out[j])@
}

/// A generated move joins two squares of the board and promotes to nothing or
/// to a queen, rook, bishop or knight, so its UCI text reads back as itself.
#[verifier::rlimit(50)]
#[verifier::spinoff_prover]
proof fn lemma_generated_promotion(pos: Position, side: Side, co: bool, m: Move)
    requires
        generated_move(pos, side, co, m),
    ensures
        0 <= (m.from as int) < 64,
        0 <= (m.to as int) < 64,
        crate::board::normalized_promotion(m.promote) == m.promote,
{
    let b = choose|b: crate::movegen::Block| #[trigger] crate::movegen::all_blocks().contains(b) && crate::movegen::block_sound(pos, side, co, b, m);
    match b {
        crate::movegen::Block::Pieces(cat) => {
            assert(m.from as int <= 63);
            assert(crate::movegen::cat_target(pos, side, cat, co, m.from as int, m.to as int, m.promote));
        },
        _ => {},
    }
    assert(crate::movegen::block_target(pos, side, co, b, m.from as int, m.to as int, m.promote));
}

/// Two generated moves with one UCI text are the same move.
proof fn lemma_texts_apart(pos: Position, side: Side, m1: Move, m2: Move)
    requires
        generated_move(pos, side, false, m1),
        generated_move(pos, side, false, m2),
        uci_text(m1.from as int, m1.to as int, m1.promote, false) == uci_text(m2.from as int, m2.to as int, m2.promote, false),
    ensures
        crate::movegen::same_move(Some(m1), Some(m2)),
{
    lemma_generated_promotion(pos, side, false, m1);
    lemma_generated_promotion(pos, side, false, m2);
    crate::board::lemma_uci_roundtrip(m1.from as int, m1.to as int, m1.promote);
    crate::board::lemma_uci_roundtrip(m2.from as int, m2.to as int, m2.promote);
}

/// A generated move is one of the targets of the generation.
#[verifier::rlimit(50)]
#[verifier::spinoff_prover]
pub proof fn lemma_generated_target(pos: Position, side: Side, co: bool, m: Move)
    requires
        generated_move(pos, side, co, m),
    ensures
        generation_target(pos, side, co, m.from as int, m.to as int, m.promote),
{
    let b = choose|b: crate::movegen::Block| #[trigger] crate::movegen::all_blocks().contains(b) && crate::movegen::block_sound(pos, side, co, b, m);
    match b {
        crate::movegen::Block::Pieces(cat) => {
            assert(m.from as int <= 63);
        },
        _ => {},
    }
    assert(crate::movegen::block_target(pos, side, co, b, m.from as int, m.to as int, m.promote));
}

/// The entry at `j` of the move list holds a move whose UCI text is `t`.
pub open spec fn text_at(ml: Seq<Option<Move>>, j: int, t: Seq<char>) -> bool {
    ml[j] matches Some(m) && t == uci_text(m.from as int, m.to as int, m.promote, false)
}

/// The texts of `out` are those of the entries at the increasing indices `idx`,
/// each below `i`.
pub open spec fn entry_texts(ml: Seq<Option<Move>>, idx: Seq<int>, out: Seq<String>, lo: int, i: int) -> bool {
    &&& idx.len() == out.len()
    &&& forall|k: int| 0 <= k < idx.len() ==> lo <= #[trigger] idx[k] < i && text_at(ml, idx[k], out[k]@)
    &&& forall|k1: int, k2: int| 0 <= k1 < k2 < idx.len() ==> #[trigger] idx[k1] < #[trigger] idx[k2]
}

/// Appending the text of the entry at `i` keeps `entry_texts`.
proof fn lemma_texts_push(ml: Seq<Option<Move>>, idx: Seq<int>, out1: Seq<String>, out2: Seq<String>, lo: int, i: int)
    requires
        entry_texts(ml, idx, out1, lo, i),
        out2 == out1.push(out2.last()),
        text_at(ml, i, out2.last()@),
        lo <= i,
    ensures
        entry_texts(ml, idx.push(i), out2, lo, i + 1),
{
    let idx2 = idx.push(i);
    assert forall|k: int| 0 <= k < idx2.len() implies lo <= #[trigger] idx2[k] < i + 1 && text_at(ml, idx2[k], out2[k]@) by {
        if k < idx.len() {
            assert(idx2[k] == idx[k] && out2[k] == out1[k]);
        }
    }
}

/// `entry_texts` below `i` holds below `i + 1`.
proof fn lemma_texts_later(ml: Seq<Option<Move>>, idx: Seq<int>, out: Seq<String>, lo: int, i: int)
    requires
        entry_texts(ml, idx, out, lo, i),
    ensures
        entry_texts(ml, idx, out, lo, i + 1),
{
}

/// Texts of distinct generated moves at increasing indices are distinct.
#[verifier::rlimit(50)]
#[verifier::spinoff_prover]
proof fn lemma_texts_distinct(a: Position, g: Position, side: Side, lo: int, hi: int, idx: Seq<int>, out: Seq<String>)
    requires
        moves_generated(a, g, side, false),
        lo == a.first_move@[a.ply as int],
        hi == g.first_move@[a.ply + 1],
        entry_texts(g.move_list@, idx, out, lo, hi),
        crate::movegen::generation_clean(a, side),
    ensures
        distinct_texts(out),
{
    assert forall|x: int, y: int| 0 <= x < y < out.len() implies (#[trigger] out[x])@ != (#[trigger] out[y])@ by {
        let jx = idx[x];
        let jy = idx[y];
        assert(text_at(g.move_list@, jx, out[x]@));
        assert(text_at(g.move_list@, jy, out[y]@));
        assert(jx < jy);
        let mx = g.move_list@[jx]->Some_0;
        let my = g.move_list@[jy]->Some_0;
        assert(g.move_list@[jx] matches Some(_) && generated_move(a, side, false, mx));
        assert(g.move_list@[jy] matches Some(_) && generated_move(a, side, false, my));
        if out[x]@ == out[y]@ {
            lemma_texts_apart(a, side, mx, my);
            assert(crate::movegen::distinct_moves(g.move_list@, lo, hi));
            assert(!crate::movegen::same_move(g.move_list@[jx], g.move_list@[jy]));
        }
    }
}

/// The text of a legal move is listed when every legal move's text is.
#[verifier::rlimit(100)]
#[verifier::spinoff_prover]
proof fn lemma_legal_listed(a: Position, out: Seq<String>, t: Seq<char>)
    requires
        forall|f: int, t: int, p: Option<Piece>| #[trigger] legal_move(a, f, t, p) ==> in_list(out, uci_text(f, t, p, false)),
        legal_text(a, t),
    ensures
        in_list(out, t),
{
    let m = choose|m: Move| #[trigger] generated_move(a, a.side, false, m) && move_ok(a.board.view(), a.side, m.from as int, m.to as int, m.promote)
        && move_succeeds(a.board.view(), a.side, m.from as int, m.to as int, m.promote) && t == uci_text(m.from as int, m.to as int, m.promote, false);
    lemma_generated_target(a, a.side, false, m);
    assert(legal_move(a, m.from as int, m.to as int, m.promote));
}

/// A list that holds only legal texts and every legal move's text holds
/// exactly the legal texts.
proof fn lemma_list_iff(a: Position, out: Seq<String>)
    requires
        forall|k: int| 0 <= k < out.len() ==> legal_text(a, #[trigger] out[k]@),
        forall|f: int, t: int, p: Option<Piece>| #[trigger] legal_move(a, f, t, p) ==> in_list(out, uci_text(f, t, p, false)),
    ensures
        forall|t: Seq<char>| #[trigger] in_list(out, t) <==> legal_text(a, t),
{
    assert forall|t: Seq<char>| #[trigger] in_list(out, t) <==> legal_text(a, t) by {
        if legal_text(a, t) {
            lemma_legal_listed(a, out, t);
        }
        if in_list(out, t) {
            let k = choose|k: int| 0 <= k < out.len() && #[trigger] out[k]@ == t;
            assert(legal_text(a, out[k]@));
        }
    }
}

/// `p` is `g` again after moves were made and taken back: the same board, key,
/// rights, counters and search state; only the game record slot after the
/// current ply may differ.
pub open spec fn restored(g: Position, p: Position) -> bool {
    &&& p.board.wf()
    &&& p.board.view() == g.board.view()
    &&& p.board.hash.current_key == g.board.hash.current_key
    &&& p.castle == g.castle
    &&& p.fifty == g.fifty
    &&& p.side == g.side
    &&& p.other_side == g.other_side
    &&& p.ply == g.ply
    &&& p.ply_from_start_of_game == g.ply_from_start_of_game
    &&& p.game_list@.len() == g.game_list@.len()
    &&& forall|i: int| 0 <= i < g.game_list@.len() && i != g.ply_from_start_of_game + 1 ==> #[trigger] p.game_list@[i] == g.game_list@[i]
    &&& keeps_search_state(g, p)
}

impl Position {
    /// What stands on the square with index `sq`.
    pub fn occupant_at(&self, sq: usize) -> (r: Option<(Side, Piece)>)
        requires
            self.board.wf(),
            sq < 64,
        ensures
            r == self.board.view()[sq as int],
    {
        proof {
            lemma_wf_bits(self.board, sq as int);
            crate::make_move::lemma_value_is_piece(self.board);
            assert(self.board.square_wf(sq as int));
        }
        let piece = self.board.value[sq];
        if piece == Piece::Empty {
            None
        } else if self.board.bit_units[0].is_bit_set(square_of(sq)) {
            Some((Side::White, piece))
        } else {
            Some((Side::Black, piece))
        }
    }

    /// A king of `side` stands on the board.
    pub fn king_present(&self, side: Side) -> (r: bool)
        requires
            self.board.wf(),
        ensures
            r == has_king(self.board.view(), side),
    {
        let kings = self.board.bit_pieces[side as usize][5].0;
        proof {
            crate::bitboard::lemma_zero_iff_no_bits(kings);
            assert forall|t: int| 0 <= t < 64 implies #[trigger] crate::bitboard::bit(kings, t) == (self.board.view()[t] == Some((side, Piece::King))) by {
                lemma_wf_bits(self.board, t);
                assert(self.board.bit_pieces[side as int][5].has(t) == (self.board.view()[t] == Some((crate::board::side_of_index(side as int), crate::board::piece_of_index(5)))));
            }
            if has_king(self.board.view(), side) {
                let t = choose|t: int| 0 <= t < 64 && self.board.view()[t] == Some((side, Piece::King));
                assert(crate::bitboard::bit(kings, t));
            }
        }
        kings != 0
    }

    /// A piece `piece` of `side` stands on the square with index `sq`.
    pub fn holds_piece(&self, sq: usize, side: Side, piece: Piece) -> (r: bool)
        requires
            self.board.wf(),
            sq < 64,
        ensures
            r == (self.board.view()[sq as int] == Some((side, piece))),
    {
        match self.occupant_at(sq) {
            Some((s, p)) => s == side && p == piece,
            None => false,
        }
    }

    /// Decides whether the board can carry out a move of the side to move:
    /// `move_ok` (a piece of its own on `from`, none on `to`, a promotion piece a
    /// pawn can become, the pawn taken en passant in place, and for castling the
    /// rook in its corner with the squares it and the king reach free).
    pub fn move_playable(&self, from: Square, to: Square, promote: Option<Piece>) -> (r: bool)
        requires
            self.board.wf(),
        ensures
            r == move_ok(self.board.view(), self.side, from as int, to as int, promote),
    {
        let ghost v = self.board.view();
        let f = from as usize;
        let t = to as usize;
        let s = self.side;
        if f == t {
            return false;
        }
        let moving = match self.occupant_at(f) {
            Some((side, piece)) => {
                if side != s {
                    return false;
                }
                piece
            },
            None => {
                return false;
            },
        };
        let target = self.occupant_at(t);
        if let Some((side, _)) = target {
            if side == s {
                return false;
            }
        }
        proof {
            lemma_wf_bits(self.board, f as int);
            lemma_wf_bits(self.board, t as int);
            crate::make_move::lemma_value_is_piece(self.board);
            assert(self.board.square_wf(f as int));
            assert(self.board.square_wf(t as int));
            assert(piece_at(v, f as int) == moving);
            assert(moving != Piece::Empty);
        }
        if let Some(p) = promote {
            if !(p == Piece::Knight || p == Piece::Bishop || p == Piece::Rook || p == Piece::Queen) {
                return false;
            }
        }
        if moving == Piece::Pawn && target.is_none() && f % 8 != t % 8 && t / 8 != 0 && t / 8 != 7 {
            let victim = if s == Side::White { t - 8 } else { t + 8 };
            proof {
                assert(is_en_passant(v, f as int, t as int));
                assert(victim as int == ep_victim(s, t as int));
            }
            if !self.holds_piece(victim, s.opponent(), Piece::Pawn) {
                return false;
            }
        }
        let distance = if t > f { t - f } else { f - t };
        if moving == Piece::King && distance == 2 {
            if let Some((rf, rt)) = crate::make_move::castle_rook_squares(to) {
                proof {
                    assert(is_castle(v, f as int, t as int));
                    assert(castle_target(t as int));
                }
                if !self.holds_piece(rf as usize, s, Piece::Rook) || self.occupant_at(rt as usize).is_some()
                    || target.is_some() {
                    return false;
                }
            }
        }
        true
    }

    /// The UCI texts of the legal moves of the side to move: the moves generated
    /// for it that the board can carry out and that do not leave its king
    /// attacked. Each is made and taken back; the position comes back as it was
    /// but for the move list and the game record slot after the current ply.
    #[verifier::rlimit(100)]
    #[verifier::spinoff_prover]
    pub fn get_legal_moves(&mut self) -> (r: Vec<String>)
        requires
            old(self).board.wf(),
            has_king(old(self).board.view(), old(self).side),
            old(self).ply + 1 < old(self).first_move@.len(),
            0 <= old(self).first_move@[old(self).ply as int],
            old(self).first_move@[old(self).ply as int] <= old(self).move_list@.len(),
            old(self).first_move@[old(self).ply as int] + 60000 <= isize::MAX,
            old(self).ply_from_start_of_game + 1 < old(self).game_list@.len(),
            old(self).fifty < 255,
            old(self).ply + 1 < usize::MAX,
        ensures
            forall|k: int| 0 <= k < r@.len() ==> legal_text(*old(self), #[trigger] r@[k]@),
            forall|f: int, t: int, p: Option<Piece>| #[trigger] legal_move(*old(self), f, t, p) ==> in_list(r@, uci_text(f, t, p, false)),
            forall|t: Seq<char>| #[trigger] in_list(r@, t) <==> legal_text(*old(self), t),
            crate::movegen::generation_clean(*old(self), old(self).side) ==> distinct_texts(r@),
            restored(
                Position { move_list: final(self).move_list, first_move: final(self).first_move, ..*old(self) },
                *final(self),
            ),
            final(self).first_move@ == old(self).first_move@.update(old(self).ply + 1, final(self).first_move@[old(self).ply + 1]),
    {
        let ghost a = *self;
        let ply = self.ply;
        let side = self.side;
        self.generate_moves_and_captures(side);
        let ghost g = *self;
        let lo = self.first_move[ply];
        let hi = self.first_move[ply + 1];
        proof {
            assert(moves_generated(a, g, side, false));
            assert(g == (Position { move_list: g.move_list, first_move: g.first_move, ..a }));
        }
        let mut out: Vec<String> = Vec::new();
        let ghost mut idx: Seq<int> = Seq::empty();
        let mut i: isize = lo;
        while i < hi
            invariant
                moves_generated(a, g, side, false),
                g == (Position { move_list: g.move_list, first_move: g.first_move, ..a }),
                side == a.side,
                a.board.wf(),
                has_king(a.board.view(), a.side),
                a.ply_from_start_of_game + 1 < a.game_list@.len(),
                a.fifty < 255,
                a.ply + 1 < usize::MAX,
                lo == a.first_move@[a.ply as int],
                hi == g.first_move@[a.ply + 1],
                0 <= lo <= i <= hi || hi <= lo == i,
                restored(g, *self),
                forall|k: int| 0 <= k < out@.len() ==> legal_text(a, #[trigger] out@[k]@),
                forall|j: int| lo <= j < i ==> listed_if_legal(a, out@, #[trigger] g.move_list@[j]),
                entry_texts(g.move_list@, idx, out@, lo as int, i as int),
            decreases hi - i,
        {
            let ghost out0 = out@;
            proof {
                assert(g.move_list@[i as int] matches Some(m) && generated_move(a, side, false, m));
            }
            if let Some(m) = self.move_list[i as usize] {
                if self.move_playable(m.from, m.to, m.promote) {
                    let ghost p1 = *self;
                    if self.make_move_with_promotion(m.from, m.to, m.promote) {
                        let text = Board::move_to_uci_string(m.from, m.to, m.promote, false);
                        let ghost out1 = out@;
                        out.push(text);
                        let ghost p2 = *self;
                        proof {
                            assert(text_at(g.move_list@, i as int, out@.last()@));
                            lemma_texts_push(g.move_list@, idx, out1, out@, lo as int, i as int);
                            idx = idx.push(i as int);
                            lemma_take_back_restores(p1, p2, p2, m.from, m.to, m.promote);
                        }
                        self.take_back_move();
                        proof {
                            lemma_take_back_restores(p1, p2, *self, m.from, m.to, m.promote);
                            assert(legal_text(a, out@[out@.len() - 1]@));
                            assert(in_list(out@, uci_text(m.from as int, m.to as int, m.promote, false))) by {
                                assert(out@[out@.len() - 1]@ == uci_text(m.from as int, m.to as int, m.promote, false));
                            }
                        }
                    }
                }
            }
            proof {
                assert forall|k: int| 0 <= k < out@.len() implies legal_text(a, #[trigger] out@[k]@) by {
                    if k < out0.len() {
                        assert(out@[k] == out0[k]);
                    }
                }
                assert forall|j: int| lo <= j < i + 1 implies listed_if_legal(a, out@, #[trigger] g.move_list@[j]) by {
                    if j < i {
                        assert(listed_if_legal(a, out0, g.move_list@[j]));
                        if let Some(m) = g.move_list@[j] {
                            if move_ok(a.board.view(), side, m.from as int, m.to as int, m.promote)
                                && move_succeeds(a.board.view(), side, m.from as int, m.to as int, m.promote) {
                                let k = choose|k: int| 0 <= k < out0.len() && #[trigger] out0[k]@ == uci_text(m.from as int, m.to as int, m.promote, false);
                                assert(out@[k] == out0[k]);
                            }
                        }
                    }
                }
            }
            proof {
                if !entry_texts(g.move_list@, idx, out@, lo as int, i as int + 1) {
                    lemma_texts_later(g.move_list@, idx, out@, lo as int, i as int);
                }
            }
            i = i + 1;
        }
        proof {
            if crate::movegen::generation_clean(a, side) {
                lemma_texts_distinct(a, g, side, lo as int, hi as int, idx, out@);
            }
            assert forall|f: int, t: int, p: Option<Piece>| #[trigger] legal_move(a, f, t, p) implies in_list(out@, uci_text(f, t, p, false)) by {
                assert(generation_target(a, side, false, f, t, p));
                assert(has_move(g.move_list@, lo as int, hi as int, f, t, p));
                let j = choose|j: int| lo <= j < hi && #[trigger] move_at(g.move_list@, j, f, t, p);
                assert(move_at(g.move_list@, j, f, t, p));
                assert(listed_if_legal(a, out@, g.move_list@[j]));
            }
            lemma_list_iff(a, out@);
        }
        out
    }
}


/// The kinds in the order of their value, lowest first: pawn, knight, bishop, rook, queen, king.
pub open spec fn kind_by_value(k: int) -> Piece {
    if k == 0 {
        Piece::Pawn
    } else if k == 1 {
        Piece::Knight
    } else if k == 2 {
        Piece::Bishop
    } else if k == 3 {
        Piece::Rook
    } else if k == 4 {
        Piece::Queen
    } else {
        Piece::King
    }
}

/// A piece of kind `kind_by_value(k)` of `side` on `t` attacks `sq`.
pub open spec fn attacker_of_kind(v: Seq<Occupant>, side: Side, k: int, t: int, sq: int) -> bool {
    v[t] == Some((side, kind_by_value(k))) && crate::rules::attacks_from(v, side, t, sq)
}

/// `t` is the attacker of `sq` among the pieces of `side` that the lowest-value
/// rule picks: of the lowest kind that attacks, the one on the lowest square.
pub open spec fn lowest_attacker(v: Seq<Occupant>, side: Side, sq: int, t: int) -> bool {
    exists|k: int| {
        &&& 0 <= k < 6
        &&& #[trigger] attacker_of_kind(v, side, k, t, sq)
        &&& forall|k2: int, t2: int| 0 <= k2 < k && 0 <= t2 < 64 ==> !#[trigger] attacker_of_kind(v, side, k2, t2, sq)
        &&& forall|t2: int| 0 <= t2 < t ==> !#[trigger] attacker_of_kind(v, side, k, t2, sq)
    }
}

/// Bit `i` of `x` is set.
fn test_bit(x: u64, i: usize) -> (r: bool)
    requires
        i < 64,
    ensures
        r == crate::bitboard::bit(x, i as int),
{
    (x >> (i as u64)) & 1u64 == 1u64
}

impl Position {
    /// The piece of `side` on `t` attacks `sq`.
    pub fn attacks_square(&self, side: Side, t: usize, sq: usize) -> (r: bool)
        requires
            self.board.wf(),
            t < 64,
            sq < 64,
        ensures
            r == crate::rules::attacks_from(self.board.view(), side, t as int, sq as int),
    {
        match self.occupant_at(t) {
            None => false,
            Some((s, p)) => {
                if s != side {
                    return false;
                }
                match p {
                    Piece::Pawn => if side == Side::White {
                        (t % 8 > 0 && t / 8 < 7 && sq == t + 7) || (t % 8 < 7 && t / 8 < 7 && sq == t + 9)
                    } else {
                        (t % 8 > 0 && t / 8 > 0 && sq + 9 == t) || (t % 8 < 7 && t / 8 > 0 && sq + 7 == t)
                    },
                    Piece::Knight => test_bit(self.tables.knight_moves(t), sq),
                    Piece::King => test_bit(self.tables.king_moves(t), sq),
                    Piece::Rook => test_bit(self.tables.rook_moves(t), sq) && self.path_is_clear(t, sq),
                    Piece::Bishop => test_bit(self.tables.bishop_moves(t), sq) && self.path_is_clear(t, sq),
                    Piece::Queen => (test_bit(self.tables.rook_moves(t), sq) || test_bit(self.tables.bishop_moves(t), sq)) && self.path_is_clear(t, sq),
                    _ => false,
                }
            },
        }
    }

    /// The square of the lowest-value piece of `side` that attacks `square`
    /// (pawns first, then knights, bishops, rooks, queens and the king; the
    /// lowest square among pieces of one kind), if any piece of `side` attacks it.
    pub fn get_square_of_lowest_value_attacker_of_square(&self, side: Side, square: Square) -> (r: Option<Square>)
        requires
            self.board.wf(),
        ensures
            r matches Some(t) ==> lowest_attacker(self.board.view(), side, square as int, t as int),
            r is None ==> !crate::rules::attacked(self.board.view(), side, square as int),
    {
        let ghost v = self.board.view();
        let sq = square as usize;
        let kinds = [Piece::Pawn, Piece::Knight, Piece::Bishop, Piece::Rook, Piece::Queen, Piece::King];
        let mut k: usize = 0;
        while k < 6
            invariant
                k <= 6,
                self.board.wf(),
                v == self.board.view(),
                sq < 64,
                sq == square as int,
                kinds@ == seq![Piece::Pawn, Piece::Knight, Piece::Bishop, Piece::Rook, Piece::Queen, Piece::King],
                forall|k2: int, t2: int| 0 <= k2 < k && 0 <= t2 < 64 ==> !#[trigger] attacker_of_kind(v, side, k2, t2, sq as int),
            decreases 6 - k,
        {
            let kind = kinds[k];
            proof {
                assert(kind == kind_by_value(k as int));
            }
            let mut t: usize = 0;
            while t < 64
                invariant
                    t <= 64,
                    k < 6,
                    self.board.wf(),
                    v == self.board.view(),
                    sq < 64,
                    sq == square as int,
                    kind == kind_by_value(k as int),
                    forall|k2: int, t2: int| 0 <= k2 < k && 0 <= t2 < 64 ==> !#[trigger] attacker_of_kind(v, side, k2, t2, sq as int),
                    forall|t2: int| 0 <= t2 < t ==> !#[trigger] attacker_of_kind(v, side, k as int, t2, sq as int),
                decreases 64 - t,
            {
                if self.holds_piece(t, side, kind) && self.attacks_square(side, t, sq) {
                    proof {
                        assert(attacker_of_kind(v, side, k as int, t as int, sq as int));
                    }
                    let r = square_of(t);
                    proof {
                        assert(lowest_attacker(v, side, sq as int, t as int));
                    }
                    return Some(r);
                }
                t = t + 1;
            }
            k = k + 1;
        }
        proof {
            if crate::rules::attacked(v, side, sq as int) {
                let t = choose|t: int| 0 <= t < 64 && #[trigger] crate::rules::attacks_from(v, side, t, sq as int);
                let (s, p) = v[t].unwrap();
                let kk: int = if p == Piece::Pawn { 0 } else if p == Piece::Knight { 1 } else if p == Piece::Bishop { 2 } else if p == Piece::Rook { 3 } else if p == Piece::Queen { 4 } else { 5 };
                assert(attacker_of_kind(v, side, kk, t, sq as int));
            }
        }
        None
    }
}

} // verus!
