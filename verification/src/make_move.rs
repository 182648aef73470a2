use vstd::prelude::*;

use crate::board::{board_pieces_hash, lemma_hash_only_change, lemma_wf_bits, Occupant};
use crate::constants::CASTLE_MASK;
use crate::hash::{castle_delta, en_passant_key, lemma_castle_delta_same, lemma_castle_delta_symmetric, lemma_xor_zero, zobrist_key};
use crate::position::Position;
use crate::rules::{
    after_move, attacked, castle_refused, castle_target, castled_view, ep_victim, first_king, has_king, is_castle,
    is_en_passant, is_first_king, is_promotion, lemma_castled_pieces_ok, lemma_first_king, lemma_king_stays,
    lemma_undo_after_move, move_ok, move_succeeds, piece_at, pieces_ok, pieces_view, promotion_piece,
    promotion_record, rook_from, rook_to, undo_ok, undo_view, unpieces_view, unpieces_view_no_ep,
    uncaptured_view, uncastled_view,
};
use crate::tables::square_of;
use crate::types::{Board, Game, Piece, Side, Square};

verus! {

/// The piece array holds what the view says.
pub proof fn lemma_value_is_piece(b: Board)
    ensures
        forall|i: int| 0 <= i < 64 ==> #[trigger] b.value[i] == piece_at(b.view(), i),
{
}

/// The squares the rook leaves and reaches when the king castles to `to`, if `to`
/// is a castling square.
pub fn castle_rook_squares(to: Square) -> (r: Option<(Square, Square)>)
    ensures
        r is Some == castle_target(to as int),
        r matches Some((a, b)) ==> a as int == rook_from(to as int) && b as int == rook_to(to as int),
{
    match to {
        Square::G1 => Some((Square::H1, Square::F1)),
        Square::C1 => Some((Square::A1, Square::D1)),
        Square::G8 => Some((Square::H8, Square::F8)),
        Square::C8 => Some((Square::A8, Square::D8)),
        _ => None,
    }
}

impl Board {
    /// Carries out a move of side `s` but for the rook of a castling: takes the
    /// pawn captured en passant or the piece on `to`, and puts the moving piece, or
    /// the piece a pawn promotes to, on `to`.
    #[verifier::spinoff_prover]
    #[verifier::rlimit(60)]
    pub fn move_pieces(&mut self, s: Side, from: Square, to: Square, promote: Option<Piece>)
        requires
            old(self).wf(),
            pieces_ok(old(self).view(), s, from as int, to as int, promote),
        ensures
            final(self).wf(),
            final(self).view() == pieces_view(old(self).view(), s, from as int, to as int, promote),
            final(self).key_rest() == old(self).key_rest(),
            final(self).hash.table() == old(self).hash.table(),
    {
        let ghost v = self.view();
        let f = from as usize;
        let t = to as usize;
        let opp = s.opponent();
        proof {
            lemma_value_is_piece(*self);
        }
        if self.value[f] == Piece::Pawn && self.value[t] == Piece::Empty && f % 8 != t % 8 && t / 8 != 0 && t / 8 != 7 {
            let victim = if s == Side::White { t - 8 } else { t + 8 };
            self.remove_piece(opp, Piece::Pawn, square_of(victim));
        }
        let ghost v1 = self.view();
        proof {
            assert(v1 == (if is_en_passant(v, f as int, t as int) { v.update(ep_victim(s, t as int), None) } else { v }));
            lemma_value_is_piece(*self);
        }
        let captured = self.value[t];
        if captured != Piece::Empty {
            self.remove_piece(opp, captured, to);
        }
        let ghost v2 = self.view();
        proof {
            assert(v2 == v1.update(t as int, None));
            lemma_value_is_piece(*self);
        }
        let moving = self.value[f];
        if moving == Piece::Pawn && (t / 8 == 0 || t / 8 == 7) {
            let piece = match promote {
                Some(p) => p,
                None => Piece::Queen,
            };
            self.remove_piece(s, Piece::Pawn, from);
            self.add_piece(s, piece, to);
        } else {
            self.update_piece(s, moving, from, to);
        }
        proof {
            assert(self.view() =~= pieces_view(v, s, from as int, to as int, promote));
        }
    }

    /// Takes back a move of side `s` recorded as from `from` to `to`, capturing
    /// `capture` and promoting to `promote`: puts back the pawn taken en passant,
    /// the moving piece (a pawn after a promotion), the captured piece and the
    /// castled rook.
    #[verifier::spinoff_prover]
    pub fn unmove_pieces(&mut self, s: Side, from: Square, to: Square, capture: Piece, promote: Option<Piece>)
        requires
            old(self).wf(),
            undo_ok(old(self).view(), s, from as int, to as int, capture, promote),
        ensures
            final(self).wf(),
            final(self).view() == undo_view(old(self).view(), s, from as int, to as int, capture, promote),
            final(self).key_rest() == old(self).key_rest(),
            final(self).hash.table() == old(self).hash.table(),
    {
        let ghost w = self.view();
        let f = from as usize;
        let t = to as usize;
        self.unmove_moving_piece(s, from, to, capture, promote);
        let ghost w2 = self.view();
        if capture != Piece::Empty {
            self.add_piece(s.opponent(), capture, to);
        }
        let ghost w3 = self.view();
        proof {
            assert(w3 == uncaptured_view(w2, s, t as int, capture));
            lemma_value_is_piece(*self);
            if is_castle(w3, f as int, t as int) && castle_target(t as int) {
                assert(w3[rook_to(t as int)] == w[rook_to(t as int)]);
                assert(w3[rook_from(t as int)] == w[rook_from(t as int)]);
            }
        }
        if (if t > f { t - f } else { f - t }) == 2 && self.value[f] == Piece::King {
            if let Some((rook_home, rook_castled)) = castle_rook_squares(to) {
                self.update_piece(s, Piece::Rook, rook_castled, rook_home);
            }
        }
        proof {
            assert(self.view() =~= uncastled_view(w3, s, f as int, t as int));
        }
    }

    /// The first steps of taking back a move: the pawn taken en passant comes
    /// back, and the moving piece (a pawn after a promotion) returns to `from`.
    #[verifier::spinoff_prover]
    #[verifier::rlimit(60)]
    fn unmove_moving_piece(&mut self, s: Side, from: Square, to: Square, capture: Piece, promote: Option<Piece>)
        requires
            old(self).wf(),
            undo_ok(old(self).view(), s, from as int, to as int, capture, promote),
        ensures
            final(self).wf(),
            final(self).view() == (if capture == Piece::Empty {
                unpieces_view(old(self).view(), s, from as int, to as int, promote)
            } else {
                unpieces_view_no_ep(old(self).view(), s, from as int, to as int, promote)
            }),
            final(self).key_rest() == old(self).key_rest(),
            final(self).hash.table() == old(self).hash.table(),
    {
        let ghost w = self.view();
        let f = from as usize;
        let t = to as usize;
        self.restore_en_passant(s, from, to, capture);
        let ghost w1 = self.view();
        proof {
            lemma_value_is_piece(*self);
        }
        proof {
            lemma_value_is_piece(*self);
            assert(w1[t as int] == w[t as int]);
            assert(w1[f as int] is None);
        }
        match promote {
            Some(piece) => {
                self.add_piece(s, Piece::Pawn, from);
                self.remove_piece(s, piece, to);
                proof {
                    assert(self.view() =~= w1.update(t as int, None).update(f as int, Some((s, Piece::Pawn))));
                }
            },
            None => {
                let back = self.value[t];
                self.update_piece(s, back, to, from);
                proof {
                    assert(self.view() =~= w1.update(t as int, None).update(f as int, Some((s, piece_at(w, t as int)))));
                }
            },
        }
    }
    /// Puts back the pawn of the opponent of `s` taken en passant, when the move
    /// recorded as from `from` to `to` without capture was an en passant capture.
    #[verifier::spinoff_prover]
    fn restore_en_passant(&mut self, s: Side, from: Square, to: Square, capture: Piece)
        requires
            old(self).wf(),
            capture == Piece::Empty && piece_at(old(self).view(), to as int) == Piece::Pawn && from as int % 8 != to as int % 8
                && 0 <= ep_victim(s, to as int) < 64 ==> old(self).view()[ep_victim(s, to as int)] is None,
        ensures
            final(self).wf(),
            final(self).view() == (if capture == Piece::Empty && piece_at(old(self).view(), to as int) == Piece::Pawn
                && from as int % 8 != to as int % 8 && 0 <= ep_victim(s, to as int) < 64 {
                old(self).view().update(ep_victim(s, to as int), Some((s.spec_opponent(), Piece::Pawn)))
            } else {
                old(self).view()
            }),
            final(self).key_rest() == old(self).key_rest(),
            final(self).hash.table() == old(self).hash.table(),
    {
        let f = from as usize;
        let t = to as usize;
        proof {
            lemma_value_is_piece(*self);
        }
        if self.value[t] == Piece::Pawn && capture == Piece::Empty && f % 8 != t % 8 {
            let in_range = if s == Side::White { t >= 8 } else { t + 8 < 64 };
            if in_range {
                let victim = if s == Side::White { t - 8 } else { t + 8 };
                self.add_piece(s.opponent(), Piece::Pawn, square_of(victim));
            }
        }
    }
}

/// The record a move leaves in the game list: its squares, what it captured and
/// promoted to, and the fifty-move counter, castle rights, key (with a castled rook
/// already moved) and en passant file of the position it was made in.
#[verifier::opaque]
pub open spec fn move_record(a: Position, from: Square, to: Square, promote: Option<Piece>) -> Game {
    let v = a.board.view();
    Game {
        from,
        to,
        promote: promotion_record(v, from as int, to as int, promote),
        capture: piece_at(v, to as int),
        fifty: a.fifty,
        castle: a.castle,
        hash: a.board.key_rest() ^ board_pieces_hash(castled_view(v, a.side, from as int, to as int)),
        en_passant_file: a.spec_en_passant_file(),
        en_passant_adjacent_opponent_pawn: match a.game_at(a.ply_from_start_of_game as int) {
            Some(g) => g.en_passant_adjacent_opponent_pawn,
            None => false,
        },
    }
}

/// `b` is `a` but for the board, the game list, the counters, the castle rights
/// and the side to move: the same search settings, move lists, scores and tables.
pub open spec fn keeps_search_state(a: Position, b: Position) -> bool {
    b == (Position {
        board: b.board,
        game_list: b.game_list,
        fifty: b.fifty,
        ply: b.ply,
        ply_from_start_of_game: b.ply_from_start_of_game,
        castle: b.castle,
        side: b.side,
        other_side: b.other_side,
        ..a
    })
}

/// `b` is `a` after the side to move played from `from` to `to` (promoting to
/// `promote` if a pawn promotes): the board, key, castle rights, counters, side
/// to move and game list moved on by one ply.
pub open spec fn made_move(a: Position, b: Position, from: Square, to: Square, promote: Option<Piece>) -> bool {
    let v = a.board.view();
    &&& b.board.wf()
    &&& b.board.view() == after_move(v, a.side, from as int, to as int, promote)
    &&& b.board.key_rest() == a.board.key_rest() ^ castle_delta(a.castle, b.castle) ^ zobrist_key(780)
        ^ en_passant_key(a.spec_en_passant_file()) ^ en_passant_key(b.spec_en_passant_file())
    &&& b.board.hash.table() == a.board.hash.table()
    &&& b.castle == a.castle & CASTLE_MASK[from as int] & CASTLE_MASK[to as int]
    &&& b.side == a.side.spec_opponent()
    &&& b.other_side == a.other_side.spec_opponent()
    &&& b.ply == a.ply + 1
    &&& b.ply_from_start_of_game == a.ply_from_start_of_game + 1
    &&& b.fifty == (if piece_at(v, from as int) == Piece::Pawn || piece_at(v, to as int) != Piece::Empty {
        0
    } else {
        a.fifty + 1
    })
    &&& records_move(a.game_list@, b.game_list@, a.ply_from_start_of_game + 1, move_record(a, from, to, promote))
    &&& keeps_search_state(a, b)
}

/// `after` is `before` with the entry at `i` set to the record `g`.
pub open spec fn records_move(before: Seq<Option<Game>>, after: Seq<Option<Game>>, i: int, g: Game) -> bool {
    &&& after.len() == before.len()
    &&& after[i] == Some(g)
    &&& forall|j: int| 0 <= j < before.len() && j != i ==> #[trigger] after[j] == before[j]
}

/// `b` is `a` after a refused move: the same position; only the game list slot
/// past the current ply may have been written.
pub open spec fn move_refused(a: Position, b: Position) -> bool {
    &&& b.board.wf()
    &&& b.board.view() == a.board.view()
    &&& b.board.hash.current_key == a.board.hash.current_key
    &&& b.board.hash.table() == a.board.hash.table()
    &&& b.castle == a.castle
    &&& b.side == a.side
    &&& b.other_side == a.other_side
    &&& b.ply == a.ply
    &&& b.ply_from_start_of_game == a.ply_from_start_of_game
    &&& b.fifty == a.fifty
    &&& b.game_list@.len() == a.game_list@.len()
    &&& forall|i: int| 0 <= i < a.game_list@.len() && i != a.ply_from_start_of_game + 1 ==> #[trigger] b.game_list@[i] == a.game_list@[i]
    &&& keeps_search_state(a, b)
}

/// The last move recorded in the game list of `b` can be taken back.
pub open spec fn can_take_back(b: Position) -> bool {
    &&& b.board.wf()
    &&& b.ply > 0
    &&& b.ply_from_start_of_game > 0
    &&& match b.game_at(b.ply_from_start_of_game as int) {
        Some(g) => undo_ok(b.board.view(), b.side.spec_opponent(), g.from as int, g.to as int, g.capture, g.promote),
        None => false,
    }
}

/// `c` is `b` with its last recorded move taken back: the board, key, castle
/// rights, counters and side to move of the position the move was made in.
pub open spec fn took_back(b: Position, c: Position) -> bool {
    match b.game_at(b.ply_from_start_of_game as int) {
        Some(g) => {
            let s = b.side.spec_opponent();
            &&& c.board.wf()
            &&& c.board.view() == undo_view(b.board.view(), s, g.from as int, g.to as int, g.capture, g.promote)
            &&& c.board.key_rest() == b.board.key_rest() ^ zobrist_key(780) ^ castle_delta(b.castle, g.castle)
                ^ en_passant_key(b.spec_en_passant_file()) ^ en_passant_key(g.en_passant_file)
            &&& c.board.hash.table() == b.board.hash.table()
            &&& c.castle == g.castle
            &&& c.fifty == g.fifty
            &&& c.side == s
            &&& c.other_side == b.other_side.spec_opponent()
            &&& c.ply == b.ply - 1
            &&& c.ply_from_start_of_game == b.ply_from_start_of_game - 1
            &&& c.game_list@ == b.game_list@
            &&& keeps_search_state(b, c)
        },
        None => false,
    }
}

proof fn lemma_xor_shift(k: u64, h: u64, d: u64)
    ensures
        (k ^ d) ^ h == (k ^ h) ^ d,
        (k ^ h) ^ h == k,
{
    assert((k ^ d) ^ h == (k ^ h) ^ d) by (bit_vector);
    assert((k ^ h) ^ h == k) by (bit_vector);
}

proof fn lemma_xor_round_trip(x: u64, d: u64, k: u64, e: u64, f: u64)
    ensures
        (x ^ d ^ k ^ e ^ f) ^ k ^ d ^ f ^ e == x,
{
    assert((x ^ d ^ k ^ e ^ f) ^ k ^ d ^ f ^ e == x) by (bit_vector);
}

/// Taking back a move that was made gives back the position it was made in: the
/// board, the key, the castle rights, the fifty-move counter, the side to move and
/// the ply counters. The move can always be taken back.
#[verifier::spinoff_prover]
#[verifier::rlimit(50)]
pub proof fn lemma_take_back_restores(a: Position, b: Position, c: Position, from: Square, to: Square, promote: Option<Piece>)
    requires
        a.board.wf(),
        move_ok(a.board.view(), a.side, from as int, to as int, promote),
        a.ply_from_start_of_game + 1 < a.game_list@.len(),
        made_move(a, b, from, to, promote),
    ensures
        can_take_back(b),
        took_back(b, c) ==> {
            &&& c.board.view() == a.board.view()
            &&& c.board.hash.current_key == a.board.hash.current_key
            &&& c.castle == a.castle
            &&& c.fifty == a.fifty
            &&& c.side == a.side
            &&& c.other_side == a.other_side
            &&& c.ply == a.ply
            &&& c.ply_from_start_of_game == a.ply_from_start_of_game
            &&& keeps_search_state(a, c)
        },
{
    let v = a.board.view();
    let s = a.side;
    reveal(move_record);
    let g = move_record(a, from, to, promote);
    assert(b.game_at(b.ply_from_start_of_game as int) == Some(g));
    crate::types::lemma_opponent_involution(s);
    lemma_undo_after_move(v, s, from as int, to as int, promote);
    if took_back(b, c) {
        lemma_castle_delta_symmetric(a.castle, b.castle);
        lemma_xor_round_trip(a.board.key_rest(), castle_delta(a.castle, b.castle), zobrist_key(780),
            en_passant_key(a.spec_en_passant_file()), en_passant_key(b.spec_en_passant_file()));
        lemma_xor_shift(c.board.key_rest(), board_pieces_hash(c.board.view()), 0);
        lemma_xor_shift(a.board.key_rest(), board_pieces_hash(a.board.view()), 0);
        assert(c.board.key_rest() == a.board.key_rest());
        lemma_xor_shift(c.board.hash.current_key, board_pieces_hash(c.board.view()), 0);
        lemma_xor_shift(a.board.hash.current_key, board_pieces_hash(a.board.view()), 0);
    }
}

impl Position {
    /// Takes back the last move of the game list: the side to move, ply counters,
    /// castle rights, fifty-move counter and key go back to what they were, and
    /// the pieces go back where they stood.
    #[verifier::spinoff_prover]
    #[verifier::rlimit(60)]
    pub fn take_back_move(&mut self)
        requires
            can_take_back(*old(self)),
        ensures
            took_back(*old(self), *final(self)),
    {
        let ghost b = *self;
        let game = self.game_entry(self.ply_from_start_of_game).unwrap();
        let current_ep = self.get_en_passant_file();
        self.side = self.side.opponent();
        self.other_side = self.other_side.opponent();
        self.board.hash.toggle_side_to_move();
        self.ply = self.ply - 1;
        self.ply_from_start_of_game = self.ply_from_start_of_game - 1;
        let old_castle = self.castle;
        self.castle = game.castle;
        if old_castle != self.castle {
            self.board.hash.update_castle_rights(old_castle, self.castle);
        } else {
            proof {
                lemma_castle_delta_same(old_castle);
            }
        }
        self.fifty = game.fifty;
        self.board.hash.update_en_passant(current_ep, game.en_passant_file);
        let ghost mid = self.board;
        proof {
            lemma_hash_only_change(b.board, mid);
            let h = board_pieces_hash(b.board.view());
            let k0 = b.board.hash.current_key;
            let d = zobrist_key(780) ^ castle_delta(b.castle, game.castle) ^ en_passant_key(current_ep) ^ en_passant_key(game.en_passant_file);
            assert(mid.hash.current_key == k0 ^ d) by {
                let k1 = zobrist_key(780);
                let c = castle_delta(b.castle, game.castle);
                let e = en_passant_key(current_ep);
                let f = en_passant_key(game.en_passant_file);
                lemma_xor_zero(k0 ^ k1);
                assert((((k0 ^ k1) ^ c) ^ e) ^ f == k0 ^ (k1 ^ c ^ e ^ f)) by (bit_vector);
            }
            lemma_xor_shift(k0, h, d);
            assert(mid.key_rest() == b.board.key_rest() ^ d);
            assert(b.board.key_rest() ^ d == b.board.key_rest() ^ zobrist_key(780) ^ castle_delta(b.castle, game.castle)
                ^ en_passant_key(current_ep) ^ en_passant_key(game.en_passant_file)) by {
                let r = b.board.key_rest();
                let k1 = zobrist_key(780);
                let c = castle_delta(b.castle, game.castle);
                let e = en_passant_key(current_ep);
                let f = en_passant_key(game.en_passant_file);
                assert(r ^ (k1 ^ c ^ e ^ f) == r ^ k1 ^ c ^ e ^ f) by (bit_vector);
            }
        }
        self.board.unmove_pieces(self.side, game.from, game.to, game.capture, game.promote);
    }

    /// Makes a move of the side to move, a pawn reaching the last rank becoming a
    /// queen. Returns whether the move was made; a move that castles out of,
    /// through or into check, or leaves the king attacked, is refused and the
    /// position stays as it was.
    pub fn make_move(&mut self, from: Square, to: Square) -> (r: bool)
        requires
            old(self).board.wf(),
            move_ok(old(self).board.view(), old(self).side, from as int, to as int, None),
            has_king(old(self).board.view(), old(self).side),
            old(self).ply_from_start_of_game + 1 < old(self).game_list@.len(),
            old(self).fifty < 255,
            old(self).ply < usize::MAX,
        ensures
            r == move_succeeds(old(self).board.view(), old(self).side, from as int, to as int, None),
            r ==> made_move(*old(self), *final(self), from, to, None),
            !r ==> move_refused(*old(self), *final(self)),
    {
        self.make_move_with_promotion(from, to, None)
    }

    /// Makes a move of the side to move, a pawn reaching the last rank becoming
    /// `promote` (a queen when `None`). Returns whether the move was made; a move
    /// that castles out of, through or into check, or leaves the king attacked, is
    /// refused and the position stays as it was.
    #[verifier::spinoff_prover]
    #[verifier::rlimit(100)]
    pub fn make_move_with_promotion(&mut self, from: Square, to: Square, promote: Option<Piece>) -> (r: bool)
        requires
            old(self).board.wf(),
            move_ok(old(self).board.view(), old(self).side, from as int, to as int, promote),
            has_king(old(self).board.view(), old(self).side),
            old(self).ply_from_start_of_game + 1 < old(self).game_list@.len(),
            old(self).fifty < 255,
            old(self).ply < usize::MAX,
        ensures
            r == move_succeeds(old(self).board.view(), old(self).side, from as int, to as int, promote),
            r ==> made_move(*old(self), *final(self), from, to, promote),
            !r ==> move_refused(*old(self), *final(self)),
    {
        let ghost a = *self;
        let side = self.side;
        let old_ep = self.get_en_passant_file();
        if !self.castle_rook_if_castling(from, to, promote) {
            return false;
        }
        self.record_and_move(from, to, promote, old_ep, Ghost(a));
        let ghost b = *self;
        proof {
            lemma_king_stays(a.board.view(), side, from as int, to as int, promote);
        }
        let king_square = self.king_square(side);
        if self.is_square_attacked_by_side(side.opponent(), square_of(king_square)) {
            proof {
                lemma_take_back_restores(a, b, b, from, to, promote);
            }
            self.take_back_move();
            proof {
                lemma_take_back_restores(a, b, *self, from, to, promote);
            }
            return false;
        }
        true
    }

    /// The lowest square holding a king of `side`.
    pub(crate) fn king_square(&self, side: Side) -> (r: usize)
        requires
            self.board.wf(),
            has_king(self.board.view(), side),
        ensures
            r < 64,
            r as int == first_king(self.board.view(), side),
    {
        let king_bits = self.board.bit_pieces[side as usize][5];
        let king_square = king_bits.next_bit();
        proof {
            let w = self.board.view();
            let k = choose|i: int| 0 <= i < 64 && w[i] == Some((side, Piece::King));
            lemma_wf_bits(self.board, k);
            assert(king_bits.has(k));
            assert(king_bits.0 != 0) by {
                crate::bitboard::lemma_zero_iff_no_bits(king_bits.0);
            }
            lemma_wf_bits(self.board, king_square as int);
            assert forall|j: int| 0 <= j < king_square implies #[trigger] w[j] != Some((side, Piece::King)) by {
                lemma_wf_bits(self.board, j);
                assert(!king_bits.has(j));
            }
            assert(is_first_king(w, side, king_square as int));
            lemma_first_king(w, side, king_square as int);
        }
        king_square as usize
    }

    /// Refuses castling out of, through or into check; otherwise moves the rook
    /// of a castling (nothing happens for another move).
    fn castle_rook_if_castling(&mut self, from: Square, to: Square, promote: Option<Piece>) -> (r: bool)
        requires
            old(self).board.wf(),
            move_ok(old(self).board.view(), old(self).side, from as int, to as int, promote),
        ensures
            r == !castle_refused(old(self).board.view(), old(self).side, from as int, to as int),
            final(self).board.wf(),
            final(self).board.view() == (if r {
                castled_view(old(self).board.view(), old(self).side, from as int, to as int)
            } else {
                old(self).board.view()
            }),
            final(self).board.key_rest() == old(self).board.key_rest(),
            final(self).board.hash.table() == old(self).board.hash.table(),
            !r ==> final(self).board == old(self).board,
            *final(self) == (Position { board: final(self).board, ..*old(self) }),
    {
        let f = from as usize;
        let t = to as usize;
        let side = self.side;
        let opp = side.opponent();
        proof {
            lemma_value_is_piece(self.board);
        }
        if (if t > f { t - f } else { f - t }) == 2 && self.board.value[f] == Piece::King {
            if self.is_square_attacked_by_side(opp, from) {
                return false;
            }
            if let Some((rook_home, rook_castled)) = castle_rook_squares(to) {
                if self.is_square_attacked_by_side(opp, rook_castled) || self.is_square_attacked_by_side(opp, to) {
                    return false;
                }
                self.board.update_piece(side, Piece::Rook, rook_home, rook_castled);
            }
        }
        true
    }

    /// Records the move in the game list and carries it out but for the rook of a
    /// castling, already moved from position `a`: castle rights, counters, pieces,
    /// side to move and key.
    #[verifier::spinoff_prover]
    #[verifier::rlimit(60)]
    fn record_and_move(&mut self, from: Square, to: Square, promote: Option<Piece>, old_ep: Option<u8>, Ghost(a): Ghost<Position>)
        requires
            a.board.wf(),
            move_ok(a.board.view(), a.side, from as int, to as int, promote),
            a.ply_from_start_of_game + 1 < a.game_list@.len(),
            a.fifty < 255,
            a.ply < usize::MAX,
            old_ep == a.spec_en_passant_file(),
            *old(self) == (Position { board: old(self).board, ..a }),
            old(self).board.wf(),
            old(self).board.view() == castled_view(a.board.view(), a.side, from as int, to as int),
            old(self).board.key_rest() == a.board.key_rest(),
            old(self).board.hash.table() == a.board.hash.table(),
        ensures
            made_move(a, *final(self), from, to, promote),
    {
        let ghost c = *self;
        let side = self.side;
        proof {
            vstd::std_specs::vec::axiom_spec_len(&a.game_list);
            lemma_castled_pieces_ok(a.board.view(), side, from as int, to as int, promote);
        }
        let game = self.move_record_of(from, to, promote, old_ep);
        self.advance_counters(from, to);
        let ghost d = *self;
        self.toggle_side_and_key();
        let ghost e = *self;
        proof {
            lemma_hash_only_change(c.board, e.board);
        }
        self.board.move_pieces(side, from, to, promote);
        let ghost f = *self;
        let p = self.ply_from_start_of_game;
        self.game_list[p] = Some(game);
        let ghost g = *self;
        let new_ep = self.new_en_passant_file(from, to);
        self.board.hash.update_en_passant(old_ep, new_ep);
        proof {
            lemma_hash_only_change(g.board, self.board);
            lemma_record_and_move(a, c, d, e, f, g, *self, from, to, promote, old_ep, new_ep, game);
        }
    }

    /// The record of a move from `from` to `to` made in this position.
    fn move_record_of(&self, from: Square, to: Square, promote: Option<Piece>, old_ep: Option<u8>) -> (g: Game)
        requires
            pieces_ok(self.board.view(), self.side, from as int, to as int, promote),
        ensures
            g == (Game {
                from,
                to,
                promote: promotion_record(self.board.view(), from as int, to as int, promote),
                capture: piece_at(self.board.view(), to as int),
                fifty: self.fifty,
                castle: self.castle,
                hash: self.board.hash.current_key,
                en_passant_file: old_ep,
                en_passant_adjacent_opponent_pawn: match self.game_at(self.ply_from_start_of_game as int) {
                    Some(g) => g.en_passant_adjacent_opponent_pawn,
                    None => false,
                },
            }),
    {
        proof {
            lemma_value_is_piece(self.board);
        }
        let f = from as usize;
        let t = to as usize;
        let mut game = match self.game_entry(self.ply_from_start_of_game) {
            Some(g) => g,
            None => Game::new(),
        };
        game.from = from;
        game.to = to;
        game.capture = self.board.value[t];
        game.fifty = self.fifty;
        game.castle = self.castle;
        game.hash = self.board.hash.current_key;
        game.en_passant_file = old_ep;
        game.promote = if self.board.value[f] == Piece::Pawn && (t / 8 == 0 || t / 8 == 7) {
            Some(
                match promote {
                    Some(p) => p,
                    None => Piece::Queen,
                },
            )
        } else {
            None
        };
        game
    }

    /// Takes the castle rights the move loses, and moves the ply counters and the
    /// fifty-move counter on.
    fn advance_counters(&mut self, from: Square, to: Square)
        requires
            old(self).fifty < 255,
            old(self).ply < usize::MAX,
            old(self).ply_from_start_of_game < usize::MAX,
        ensures
            ({
                let new_castle = old(self).castle & CASTLE_MASK[from as int] & CASTLE_MASK[to as int];
                &&& *final(self) == (Position {
                    castle: new_castle,
                    ply: (old(self).ply + 1) as usize,
                    ply_from_start_of_game: (old(self).ply_from_start_of_game + 1) as usize,
                    fifty: (if old(self).board.value[from as int] == Piece::Pawn || old(self).board.value[to as int] != Piece::Empty {
                        0
                    } else {
                        old(self).fifty + 1
                    }) as u8,
                    board: final(self).board,
                    ..*old(self)
                })
                &&& final(self).board == (Board { hash: final(self).board.hash, ..old(self).board })
                &&& final(self).board.hash.current_key == old(self).board.hash.current_key ^ castle_delta(old(self).castle, new_castle)
                &&& final(self).board.hash.table() == old(self).board.hash.table()
                &&& final(self).board.hash.wf() == old(self).board.hash.wf()
            }),
    {
        let f = from as usize;
        let t = to as usize;
        let old_castle = self.castle;
        self.castle = self.castle & CASTLE_MASK[f] & CASTLE_MASK[t];
        if old_castle != self.castle {
            self.board.hash.update_castle_rights(old_castle, self.castle);
        } else {
            proof {
                lemma_castle_delta_same(old_castle);
                lemma_xor_zero(self.board.hash.current_key);
            }
        }
        self.ply = self.ply + 1;
        self.ply_from_start_of_game = self.ply_from_start_of_game + 1;
        self.fifty = self.fifty + 1;
        if self.board.value[f] == Piece::Pawn {
            self.fifty = 0;
        }
        if self.board.value[t] != Piece::Empty {
            self.fifty = 0;
        }
    }

    /// The en passant file after the last move from `from` to `to`: the file of a
    /// pawn that now stands on `to` after moving two ranks.
    fn new_en_passant_file(&self, from: Square, to: Square) -> (r: Option<u8>)
        requires
            self.ply_from_start_of_game > 0,
            self.game_at(self.ply_from_start_of_game as int) matches Some(g) && g.from == from && g.to == to,
        ensures
            r == self.spec_en_passant_file(),
    {
        let f = from as usize;
        let t = to as usize;
        if self.board.value[t] == Piece::Pawn && (if t > f { t - f } else { f - t }) == 16 {
            Some((t % 8) as u8)
        } else {
            None
        }
    }

    /// Hands the move to the other side: the side to move, the other side and the key.
    fn toggle_side_and_key(&mut self)
        ensures
            *final(self) == (Position {
                side: old(self).side.spec_opponent(),
                other_side: old(self).other_side.spec_opponent(),
                board: final(self).board,
                ..*old(self)
            }),
            final(self).board == (Board { hash: final(self).board.hash, ..old(self).board }),
            final(self).board.hash.current_key == old(self).board.hash.current_key ^ zobrist_key(780),
            final(self).board.hash.table() == old(self).board.hash.table(),
            final(self).board.hash.wf() == old(self).board.hash.wf(),
    {
        self.side = self.side.opponent();
        self.other_side = self.other_side.opponent();
        self.board.hash.toggle_side_to_move();
    }
}

/// The steps of making a move (recording it, moving the counters on, handing the
/// move over, moving the pieces, storing the record and updating the en passant
/// key) together make the move.
#[verifier::spinoff_prover]
#[verifier::rlimit(60)]
proof fn lemma_record_and_move(
    a: Position,
    c: Position,
    d: Position,
    e: Position,
    f: Position,
    g: Position,
    b: Position,
    from: Square,
    to: Square,
    promote: Option<Piece>,
    old_ep: Option<u8>,
    new_ep: Option<u8>,
    game: Game,
)
    requires
        move_ok(a.board.view(), a.side, from as int, to as int, promote),
        a.ply_from_start_of_game + 1 < a.game_list@.len(),
        a.game_list@.len() <= usize::MAX,
        a.fifty < 255,
        a.ply < usize::MAX,
        old_ep == a.spec_en_passant_file(),
        c == (Position { board: c.board, ..a }),
        c.board.view() == castled_view(a.board.view(), a.side, from as int, to as int),
        c.board.key_rest() == a.board.key_rest(),
        c.board.hash.table() == a.board.hash.table(),
        game == (Game {
            from,
            to,
            promote: promotion_record(c.board.view(), from as int, to as int, promote),
            capture: piece_at(c.board.view(), to as int),
            fifty: c.fifty,
            castle: c.castle,
            hash: c.board.hash.current_key,
            en_passant_file: old_ep,
            en_passant_adjacent_opponent_pawn: match c.game_at(c.ply_from_start_of_game as int) {
                Some(g) => g.en_passant_adjacent_opponent_pawn,
                None => false,
            },
        }),
        d == (Position {
            castle: c.castle & CASTLE_MASK[from as int] & CASTLE_MASK[to as int],
            ply: (c.ply + 1) as usize,
            ply_from_start_of_game: (c.ply_from_start_of_game + 1) as usize,
            fifty: (if c.board.value[from as int] == Piece::Pawn || c.board.value[to as int] != Piece::Empty {
                0
            } else {
                c.fifty + 1
            }) as u8,
            board: d.board,
            ..c
        }),
        d.board == (Board { hash: d.board.hash, ..c.board }),
        d.board.hash.current_key == c.board.hash.current_key ^ castle_delta(c.castle, d.castle),
        d.board.hash.table() == c.board.hash.table(),
        e == (Position { side: d.side.spec_opponent(), other_side: d.other_side.spec_opponent(), board: e.board, ..d }),
        e.board == (Board { hash: e.board.hash, ..d.board }),
        e.board.hash.current_key == d.board.hash.current_key ^ zobrist_key(780),
        e.board.hash.table() == d.board.hash.table(),
        e.board.view() == c.board.view(),
        f == (Position { board: f.board, ..e }),
        f.board.view() == pieces_view(e.board.view(), c.side, from as int, to as int, promote),
        f.board.key_rest() == e.board.key_rest(),
        f.board.hash.table() == e.board.hash.table(),
        g == (Position { game_list: g.game_list, ..f }),
        g.game_list@ == f.game_list@.update(f.ply_from_start_of_game as int, Some(game)),
        new_ep == g.spec_en_passant_file(),
        b == (Position { board: b.board, ..g }),
        b.board.wf(),
        b.board.view() == g.board.view(),
        b.board.hash.current_key == g.board.hash.current_key ^ en_passant_key(old_ep) ^ en_passant_key(new_ep),
        b.board.hash.table() == g.board.hash.table(),
        b.board.value == g.board.value,
    ensures
        b.board.view() == after_move(a.board.view(), a.side, from as int, to as int, promote),
        b.spec_en_passant_file() == g.spec_en_passant_file(),
        b.board.key_rest() == a.board.key_rest() ^ castle_delta(a.castle, b.castle) ^ zobrist_key(780)
            ^ en_passant_key(a.spec_en_passant_file()) ^ en_passant_key(b.spec_en_passant_file()),
        records_move(a.game_list@, b.game_list@, a.ply_from_start_of_game + 1, move_record(a, from, to, promote)),
{
    lemma_record_key(a, c, e, g, b, from, to, old_ep, new_ep);
    lemma_record_game(a, c, f, g, b, from, to, promote, old_ep, game);
}

proof fn lemma_record_counters(a: Position, c: Position, d: Position, b: Position, from: Square, to: Square, promote: Option<Piece>)
    requires
        move_ok(a.board.view(), a.side, from as int, to as int, promote),
        c == (Position { board: c.board, ..a }),
        c.board.view() == castled_view(a.board.view(), a.side, from as int, to as int),
        d.fifty == (if c.board.value[from as int] == Piece::Pawn || c.board.value[to as int] != Piece::Empty {
            0
        } else {
            c.fifty + 1
        }) as u8,
        a.fifty < 255,
        b.fifty == d.fifty,
    ensures
        b.fifty == (if piece_at(a.board.view(), from as int) == Piece::Pawn || piece_at(a.board.view(), to as int) != Piece::Empty {
            0
        } else {
            a.fifty + 1
        }),
{
    lemma_value_is_piece(c.board);
    assert(piece_at(c.board.view(), from as int) == piece_at(a.board.view(), from as int));
    assert(piece_at(c.board.view(), to as int) == piece_at(a.board.view(), to as int));
}

proof fn lemma_record_key(a: Position, c: Position, e: Position, g: Position, b: Position, from: Square, to: Square, old_ep: Option<u8>, new_ep: Option<u8>)
    requires
        c.board.view() == castled_view(a.board.view(), a.side, from as int, to as int),
        c.board.key_rest() == a.board.key_rest(),
        e.board.hash.current_key == c.board.hash.current_key ^ castle_delta(a.castle, b.castle) ^ zobrist_key(780),
        e.board.view() == c.board.view(),
        g.board.key_rest() == e.board.key_rest(),
        b.board.view() == g.board.view(),
        b.board.hash.current_key == g.board.hash.current_key ^ en_passant_key(old_ep) ^ en_passant_key(new_ep),
    ensures
        b.board.key_rest() == a.board.key_rest() ^ castle_delta(a.castle, b.castle) ^ zobrist_key(780)
            ^ en_passant_key(old_ep) ^ en_passant_key(new_ep),
{
    let h0 = board_pieces_hash(c.board.view());
    let h1 = board_pieces_hash(b.board.view());
    let k0 = c.board.hash.current_key;
    let cd = castle_delta(a.castle, b.castle);
    let z = zobrist_key(780);
    let ep0 = en_passant_key(old_ep);
    let ep1 = en_passant_key(new_ep);
    let r0 = a.board.key_rest();
    assert(e.board.key_rest() == r0 ^ cd ^ z) by {
        assert((k0 ^ cd ^ z) ^ h0 == (k0 ^ h0) ^ cd ^ z) by (bit_vector);
    }
    let k2 = g.board.hash.current_key;
    assert((k2 ^ ep0 ^ ep1) ^ h1 == (k2 ^ h1) ^ ep0 ^ ep1) by (bit_vector);
}

proof fn lemma_record_game(a: Position, c: Position, f: Position, g: Position, b: Position, from: Square, to: Square, promote: Option<Piece>, old_ep: Option<u8>, game: Game)
    requires
        a.ply_from_start_of_game + 1 < a.game_list@.len(),
        move_ok(a.board.view(), a.side, from as int, to as int, promote),
        old_ep == a.spec_en_passant_file(),
        c == (Position { board: c.board, ..a }),
        c.board.view() == castled_view(a.board.view(), a.side, from as int, to as int),
        c.board.key_rest() == a.board.key_rest(),
        game == (Game {
            from,
            to,
            promote: promotion_record(c.board.view(), from as int, to as int, promote),
            capture: piece_at(c.board.view(), to as int),
            fifty: c.fifty,
            castle: c.castle,
            hash: c.board.hash.current_key,
            en_passant_file: old_ep,
            en_passant_adjacent_opponent_pawn: match c.game_at(c.ply_from_start_of_game as int) {
                Some(g) => g.en_passant_adjacent_opponent_pawn,
                None => false,
            },
        }),
        f.game_list == c.game_list,
        f.ply_from_start_of_game as int == c.ply_from_start_of_game + 1,
        g.game_list@ == f.game_list@.update(f.ply_from_start_of_game as int, Some(game)),
        b.game_list == g.game_list,
    ensures
        records_move(a.game_list@, b.game_list@, a.ply_from_start_of_game + 1, move_record(a, from, to, promote)),
{
    let v = a.board.view();
    let cv = c.board.view();
    assert(piece_at(cv, to as int) == piece_at(v, to as int));
    assert(is_promotion(cv, from as int, to as int) == is_promotion(v, from as int, to as int));
    lemma_xor_shift(a.board.key_rest(), board_pieces_hash(cv), 0);
    lemma_xor_shift(c.board.hash.current_key, board_pieces_hash(cv), 0);
    lemma_xor_zero(a.board.key_rest());
    reveal(move_record);
    assert(game == move_record(a, from, to, promote));
}



/// The key of a position is what its board, side to move, castle rights and en
/// passant file give: the pieces, the castle keys of the rights held, the
/// side-to-move key when black is to move and the key of the en passant file.
pub open spec fn key_consistent(p: Position) -> bool {
    p.board.key_rest() == castle_delta(0, p.castle) ^ (if p.side == Side::Black { zobrist_key(780) } else { 0u64 })
        ^ en_passant_key(p.spec_en_passant_file())
}

/// Moving from castle rights `a` to `b` and then to `c` changes the key as
/// moving from `a` to `c` at once.
proof fn lemma_castle_delta_chain(a: u8, b: u8, c: u8)
    ensures
        castle_delta(a, b) ^ castle_delta(b, c) == castle_delta(a, c),
{
    lemma_castle_bits(a);
    lemma_castle_bits(b);
    lemma_castle_bits(c);
    let k0 = zobrist_key(768);
    let k1 = zobrist_key(769);
    let k2 = zobrist_key(770);
    let k3 = zobrist_key(771);
    let a0: u64 = if a & 1 != b & 1 { k0 } else { 0u64 };
    let a1: u64 = if a & 2 != b & 2 { k1 } else { 0u64 };
    let a2: u64 = if a & 4 != b & 4 { k2 } else { 0u64 };
    let a3: u64 = if a & 8 != b & 8 { k3 } else { 0u64 };
    let b0: u64 = if b & 1 != c & 1 { k0 } else { 0u64 };
    let b1: u64 = if b & 2 != c & 2 { k1 } else { 0u64 };
    let b2: u64 = if b & 4 != c & 4 { k2 } else { 0u64 };
    let b3: u64 = if b & 8 != c & 8 { k3 } else { 0u64 };
    let c0: u64 = if a & 1 != c & 1 { k0 } else { 0u64 };
    let c1: u64 = if a & 2 != c & 2 { k1 } else { 0u64 };
    let c2: u64 = if a & 4 != c & 4 { k2 } else { 0u64 };
    let c3: u64 = if a & 8 != c & 8 { k3 } else { 0u64 };
    lemma_delta_bit(a & 1, b & 1, c & 1, 1, k0);
    lemma_delta_bit(a & 2, b & 2, c & 2, 2, k1);
    lemma_delta_bit(a & 4, b & 4, c & 4, 4, k2);
    lemma_delta_bit(a & 8, b & 8, c & 8, 8, k3);
    assert((a0 ^ a1 ^ a2 ^ a3) ^ (b0 ^ b1 ^ b2 ^ b3) == (a0 ^ b0) ^ (a1 ^ b1) ^ (a2 ^ b2) ^ (a3 ^ b3)) by (bit_vector);
}

/// One castle key across two changes of rights.
proof fn lemma_delta_bit(x: u8, y: u8, z: u8, m: u8, k: u64)
    requires
        x == 0 || x == m,
        y == 0 || y == m,
        z == 0 || z == m,
    ensures
        (if x != y { k } else { 0u64 }) ^ (if y != z { k } else { 0u64 }) == (if x != z { k } else { 0u64 }),
{
    lemma_xor_facts(k);
}

/// Each castle bit of a rights value is either clear or set.
proof fn lemma_castle_bits(a: u8)
    by (bit_vector)
    ensures
        a & 1 == 0 || a & 1 == 1,
        a & 2 == 0 || a & 2 == 2,
        a & 4 == 0 || a & 4 == 4,
        a & 8 == 0 || a & 8 == 8,
{
}

/// A key cancels itself and zero changes nothing.
proof fn lemma_xor_facts(k: u64)
    by (bit_vector)
    ensures
        k ^ k == 0u64,
        k ^ 0u64 == k,
        0u64 ^ k == k,
        0u64 ^ 0u64 == 0u64,
{
}

/// A move made from a position whose key is consistent leaves a position
/// whose key is consistent: the key stays a function of the board, the side to
/// move, the castle rights and the en passant file.
pub proof fn lemma_key_consistent_after_move(a: Position, b: Position, from: Square, to: Square, promote: Option<Piece>)
    requires
        key_consistent(a),
        made_move(a, b, from, to, promote),
    ensures
        key_consistent(b),
{
    lemma_castle_delta_chain(0, a.castle, b.castle);
    let ca = castle_delta(0, a.castle);
    let cb = castle_delta(0, b.castle);
    let d = castle_delta(a.castle, b.castle);
    let k = zobrist_key(780);
    let ea = en_passant_key(a.spec_en_passant_file());
    let eb = en_passant_key(b.spec_en_passant_file());
    let sa: u64 = if a.side == Side::Black { k } else { 0u64 };
    let sb: u64 = if b.side == Side::Black { k } else { 0u64 };
    assert(sb == sa ^ k) by {
        lemma_xor_facts(k);
    }
    assert((ca ^ sa ^ ea) ^ d ^ k ^ ea ^ eb == cb ^ (sa ^ k) ^ eb) by (bit_vector)
        requires
            ca ^ d == cb,
    ;
}

/// The initial position's key is consistent.
pub proof fn lemma_key_consistent_initial(p: Position)
    requires
        p.board.key_rest() == castle_delta(0, p.castle),
        p.side == Side::White,
        p.ply_from_start_of_game == 0,
    ensures
        key_consistent(p),
{
    let c = castle_delta(0, p.castle);
    lemma_xor_facts(c);
}

} // verus!
