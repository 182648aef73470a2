use vstd::prelude::*;

use crate::bitboard::{bit, lemma_bit_ops, lemma_zero_iff_no_bits};
use crate::board::{initial_view, lemma_wf_bits, Occupant};
use crate::constants::{GAME_STACK, MAX_PLY, MOVE_STACK};
use crate::geometry::{between, bishop_line, rook_line};
use crate::rules::{attacked, attacks_from, path_clear};
use crate::hash::{castle_delta, zobrist_key};
use crate::tables::Tables;
use crate::types::{BitBoard, Board, Game, Move, Piece, Side, Square};

verus! {

/// A game in progress: the board, the side to move, castle rights and the
/// fifty-move counter, the record of the moves made (to take them back), the
/// move list of the search, and the settings and results of a search.
pub struct Position {
    /// The moves generated for each ply of the search, one segment per ply.
    pub move_list: Vec<Option<Move>>,
    /// Where the segment of each ply starts in `move_list` (the segment of ply `p`
    /// ends where the one of `p + 1` starts).
    pub first_move: Vec<isize>,
    /// For each ply from the start of the game, the move that led to it.
    pub game_list: Vec<Option<Game>>,
    /// Plies since the last pawn move or capture.
    pub fifty: u8,
    /// Positions searched since the search began.
    pub nodes: usize,
    /// Plies from the root of the current search.
    pub ply: usize,
    /// Plies from the start of the game.
    pub ply_from_start_of_game: usize,
    pub board: Board,
    /// Scores of quiet moves, indexed by origin and target square.
    pub history_table: [[isize; 64]; 64],
    pub pawn_material_score: [usize; 2],
    pub piece_material_score: [usize; 2],
    /// Castle rights: 1 white kingside, 2 white queenside, 4 black kingside, 8 black queenside.
    pub castle: u8,
    pub stop_search: bool,
    pub best_move_from: Option<Square>,
    pub best_move_to: Option<Square>,
    pub hash_from: Option<Square>,
    pub hash_to: Option<Square>,
    pub start_time: u64,
    pub stop_time: u64,
    pub max_search_duration_ms: u32,
    pub fixed_time: bool,
    pub max_depth: u16,
    pub fixed_depth: bool,
    pub side: Side,
    pub other_side: Side,
    pub tables: Tables,
}

/// The side (0 white, 1 black) whose unit stands on the square: white when the
/// white units hold it, black otherwise.
pub open spec fn unit_side(b: Board, i: int) -> int {
    if b.bit_units[0].has(i) { 0 } else { 1 }
}

/// The material of a side on the first `n` squares: of its pawns (`pawns`) or of its other pieces.
pub open spec fn material(b: Board, side: int, pawns: bool, n: int) -> int
    decreases n,
{
    if n <= 0 {
        0
    } else {
        let i = n - 1;
        let p = b.value[i];
        material(b, side, pawns, n - 1) + (if p != Piece::Empty && unit_side(b, i) == side && ((p == Piece::Pawn) == pawns) {
            p.spec_value() as int
        } else {
            0
        })
    }
}

proof fn lemma_material_bounds(b: Board, side: int, pawns: bool, n: int)
    requires
        0 <= n <= 64,
    ensures
        0 <= material(b, side, pawns, n) <= 10000 * n,
    decreases n,
{
    if n > 0 {
        lemma_material_bounds(b, side, pawns, n - 1);
    }
}

/// Counts the earlier positions, at an even distance in plies and inside the
/// fifty-move window, whose key is `key` (`i` is the ply where counting starts).
pub open spec fn repetitions_from(games: Seq<Option<Game>>, key: u64, fifty: int, i: int) -> int
    decreases i,
{
    if i >= fifty && i >= 2 {
        repetitions_from(games, key, fifty, i - 2) + (match game_at_seq(games, i - 2) {
            Some(g) => if g.hash == key { 1int } else { 0int },
            None => 0int,
        })
    } else {
        0
    }
}

/// The entry of the game list at `i`, or nothing when `i` is out of range.
pub open spec fn game_at_seq(games: Seq<Option<Game>>, i: int) -> Option<Game> {
    if 0 <= i < games.len() {
        games[i]
    } else {
        None
    }
}

/// A common bit of two words whose `and` is not zero.
pub proof fn lemma_common_bit(a: u64, b: u64) -> (t: int)
    requires
        a & b != 0,
    ensures
        0 <= t < 64,
        bit(a, t),
        bit(b, t),
{
    crate::bitboard::lemma_lowest_bit_facts(a & b);
    let t = crate::bitboard::lowest_bit(a & b);
    lemma_bit_ops(a, b, t);
    t
}

/// Two words whose `and` is zero share no bit.
pub proof fn lemma_no_common_bit(a: u64, b: u64, t: int)
    requires
        a & b == 0,
        0 <= t < 64,
    ensures
        !(bit(a, t) && bit(b, t)),
{
    lemma_zero_iff_no_bits(a & b);
    lemma_bit_ops(a, b, t);
}

/// The start of the move list of each ply: 0 for the root, -1 for the others.
fn initial_first_moves() -> (r: Vec<isize>)
    ensures
        r@.len() == MAX_PLY,
        r@[0] == 0,
        forall|i: int| 1 <= i < MAX_PLY ==> #[trigger] r@[i] == -1,
{
    let mut first_move: Vec<isize> = Vec::new();
    first_move.push(0);
    let mut i: usize = 1;
    while i < MAX_PLY
        invariant
            1 <= i <= MAX_PLY,
            first_move@.len() == i,
            first_move@[0] == 0,
            forall|j: int| 1 <= j < i ==> #[trigger] first_move@[j] == -1,
        decreases MAX_PLY - i,
    {
        first_move.push(-1);
        i = i + 1;
    }
    first_move
}

/// A move list of `MOVE_STACK` empty slots.
fn empty_move_list() -> (r: Vec<Option<Move>>)
    ensures
        r@.len() == MOVE_STACK,
        forall|i: int| 0 <= i < MOVE_STACK ==> #[trigger] r@[i] is None,
{
    let mut move_list: Vec<Option<Move>> = Vec::new();
    let mut i: usize = 0;
    while i < MOVE_STACK
        invariant
            i <= MOVE_STACK,
            move_list@.len() == i,
            forall|j: int| 0 <= j < i ==> #[trigger] move_list@[j] is None,
        decreases MOVE_STACK - i,
    {
        move_list.push(None);
        i = i + 1;
    }
    move_list
}

/// A game list of `GAME_STACK` empty slots.
fn empty_game_list() -> (r: Vec<Option<Game>>)
    ensures
        r@.len() == GAME_STACK,
        forall|i: int| 0 <= i < GAME_STACK ==> #[trigger] r@[i] is None,
{
    let mut game_list: Vec<Option<Game>> = Vec::new();
    let mut i: usize = 0;
    while i < GAME_STACK
        invariant
            i <= GAME_STACK,
            game_list@.len() == i,
            forall|j: int| 0 <= j < i ==> #[trigger] game_list@[j] is None,
        decreases GAME_STACK - i,
    {
        game_list.push(None);
        i = i + 1;
    }
    game_list
}

proof fn lemma_side_out(key: u64, h: u64)
    requires
        key ^ h == zobrist_key(780) ^ castle_delta(0, 15),
    ensures
        key ^ zobrist_key(780) ^ h == castle_delta(0, 15),
{
    let k = zobrist_key(780);
    let c = castle_delta(0, 15);
    assert(key ^ k ^ h == c) by (bit_vector)
        requires
            key ^ h == k ^ c,
    ;
}

/// The initial board with the key of white to move and all castle rights: the
/// castle keys enter the key twice and cancel out.
fn initial_board() -> (r: Board)
    ensures
        r.wf(),
        r.view() == initial_view(),
        r.key_rest() == castle_delta(0, 15),
{
    let mut board = Board::new();
    let ghost pre = board;
    board.hash.toggle_side_to_move();
    proof {
        lemma_side_out(pre.hash.current_key, crate::board::board_pieces_hash(pre.view()));
        assert(board.view() == pre.view());
        assert forall|i: int| 0 <= i < 64 implies #[trigger] board.square_wf(i) by {
            assert(pre.square_wf(i));
        }
    }
    board
}

impl Position {
    /// The entry of the game list for ply `i` from the start of the game.
    pub open spec fn game_at(&self, i: int) -> Option<Game> {
        game_at_seq(self.game_list@, i)
    }

    /// The en passant file after the last move: the file of a pawn that just moved two squares.
    pub open spec fn spec_en_passant_file(&self) -> Option<u8> {
        if self.ply_from_start_of_game == 0 {
            None
        } else {
            match self.game_at(self.ply_from_start_of_game as int) {
                Some(g) => if self.board.value[g.to as int] == Piece::Pawn && (g.from as int - g.to as int == 16 || g.to as int - g.from as int == 16) {
                    Some((g.to as int % 8) as u8)
                } else {
                    None
                },
                None => None,
            }
        }
    }

    /// The entry of the game list at `i` (nothing when `i` is past its end).
    pub(crate) fn game_entry(&self, i: usize) -> (r: Option<Game>)
        ensures
            r == self.game_at(i as int),
    {
        if i < self.game_list.len() {
            self.game_list[i]
        } else {
            None
        }
    }

    /// The initial position, white to move with all castle rights, and an empty
    /// search state; its key holds the pieces and the four castle rights (no
    /// side-to-move key, white being to move).
    pub fn new() -> (r: Self)
        ensures
            r.board.wf(),
            r.board.view() == initial_view(),
            r.board.key_rest() == castle_delta(0, 15),
            crate::make_move::key_consistent(r),
            r.castle == 15,
            r.side == Side::White,
            r.other_side == Side::Black,
            r.fifty == 0,
            r.ply == 0,
            r.ply_from_start_of_game == 0,
            r.nodes == 0,
            r.first_move@.len() == MAX_PLY,
            r.first_move@[0] == 0,
            forall|i: int| 1 <= i < MAX_PLY ==> #[trigger] r.first_move@[i] == -1,
            r.move_list@.len() == MOVE_STACK,
            forall|i: int| 0 <= i < MOVE_STACK ==> #[trigger] r.move_list@[i] is None,
            r.game_list@.len() == GAME_STACK,
            forall|i: int| 0 <= i < GAME_STACK ==> #[trigger] r.game_list@[i] is None,
            r.pawn_material_score[0] == 0 && r.pawn_material_score[1] == 0,
            r.piece_material_score[0] == 0 && r.piece_material_score[1] == 0,
            !r.stop_search,
            r.best_move_from is None && r.best_move_to is None,
            r.hash_from is None && r.hash_to is None,
            r.start_time == 0 && r.stop_time == 0 && r.max_search_duration_ms == 0,
            !r.fixed_time && !r.fixed_depth && r.max_depth == 0,
    {
        let first_move = initial_first_moves();
        let move_list = empty_move_list();
        let game_list = empty_game_list();
        let board = initial_board();
        let position = Position {
            move_list,
            first_move,
            game_list,
            fifty: 0,
            nodes: 0,
            ply: 0,
            ply_from_start_of_game: 0,
            board,
            history_table: [[0isize; 64]; 64],
            pawn_material_score: [0usize; 2],
            piece_material_score: [0usize; 2],
            castle: 0b1111,
            stop_search: false,
            best_move_from: None,
            best_move_to: None,
            hash_from: None,
            hash_to: None,
            start_time: 0,
            stop_time: 0,
            max_search_duration_ms: 0,
            fixed_time: false,
            max_depth: 0,
            fixed_depth: false,
            side: Side::White,
            other_side: Side::Black,
            tables: Tables::new(),
        };
        proof {
            crate::make_move::lemma_key_consistent_initial(position);
        }
        position
    }

    /// Recomputes the material of both sides from the board: pawns and other pieces
    /// (the king counts 10000).
    pub fn set_material_scores(&mut self)
        ensures
            final(self).pawn_material_score[0] as int == material(old(self).board, 0, true, 64),
            final(self).pawn_material_score[1] as int == material(old(self).board, 1, true, 64),
            final(self).piece_material_score[0] as int == material(old(self).board, 0, false, 64),
            final(self).piece_material_score[1] as int == material(old(self).board, 1, false, 64),
            final(self).board == old(self).board,
            final(self).ply == old(self).ply,
            final(self).side == old(self).side,
            final(self).castle == old(self).castle,
            *final(self) == (Position {
                pawn_material_score: final(self).pawn_material_score,
                piece_material_score: final(self).piece_material_score,
                ..*old(self)
            }),
    {
        self.piece_material_score = [0usize; 2];
        self.pawn_material_score = [0usize; 2];
        let mut i: usize = 0;
        while i < 64
            invariant
                i <= 64,
                self.board == old(self).board,
                self.ply == old(self).ply,
                self.side == old(self).side,
                self.castle == old(self).castle,
                *self == (Position {
                    pawn_material_score: self.pawn_material_score,
                    piece_material_score: self.piece_material_score,
                    ..*old(self)
                }),
                self.pawn_material_score[0] as int == material(self.board, 0, true, i as int),
                self.pawn_material_score[1] as int == material(self.board, 1, true, i as int),
                self.piece_material_score[0] as int == material(self.board, 0, false, i as int),
                self.piece_material_score[1] as int == material(self.board, 1, false, i as int),
            decreases 64 - i,
        {
            proof {
                lemma_material_bounds(self.board, 0, true, i as int);
                lemma_material_bounds(self.board, 1, true, i as int);
                lemma_material_bounds(self.board, 0, false, i as int);
                lemma_material_bounds(self.board, 1, false, i as int);
            }
            let square = crate::tables::square_of(i);
            let piece = self.board.value[i];
            if piece != Piece::Empty {
                let side_idx: usize = if self.board.bit_units[0].is_bit_set(square) { 0 } else { 1 };
                if piece == Piece::Pawn {
                    self.pawn_material_score[side_idx] = self.pawn_material_score[side_idx] + piece.value() as usize;
                } else {
                    self.piece_material_score[side_idx] = self.piece_material_score[side_idx] + piece.value() as usize;
                }
            }
            i = i + 1;
        }
    }

    /// The number of earlier positions, an even number of plies back and inside
    /// the fifty-move window, with the current key.
    pub fn reps(&self) -> (r: usize)
        ensures
            r as int == repetitions_from(self.game_list@, self.board.hash.current_key, self.fifty as int, self.ply_from_start_of_game as int),
    {
        let mut count: usize = 0;
        let mut i = self.ply_from_start_of_game;
        let key = self.board.hash.current_key;
        proof {
            lemma_repetitions_bound(self.game_list@, key, self.fifty as int, i as int);
        }
        while i >= self.fifty as usize && i >= 2
            invariant
                i <= self.ply_from_start_of_game,
                key == self.board.hash.current_key,
                count as int + repetitions_from(self.game_list@, key, self.fifty as int, i as int)
                    == repetitions_from(self.game_list@, key, self.fifty as int, self.ply_from_start_of_game as int),
                0 <= repetitions_from(self.game_list@, key, self.fifty as int, i as int) <= i,
                count as int <= self.ply_from_start_of_game - i,
            decreases i,
        {
            proof {
                lemma_repetitions_bound(self.game_list@, key, self.fifty as int, i - 2);
            }
            i = i - 2;
            if let Some(game) = self.game_entry(i) {
                if game.hash == key {
                    count = count + 1;
                }
            }
        }
        count
    }

    /// The en passant file after the last move (0-7 for a-h), if a pawn just moved two squares.
    pub fn get_en_passant_file(&self) -> (r: Option<u8>)
        ensures
            r == self.spec_en_passant_file(),
    {
        if self.ply_from_start_of_game == 0 {
            return None;
        }
        if let Some(last_game) = self.game_entry(self.ply_from_start_of_game) {
            let from = last_game.from as i32;
            let to = last_game.to as i32;
            if self.board.value[to as usize] == Piece::Pawn && (from - to == 16 || to - from == 16) {
                return Some((to % 8) as u8);
            }
        }
        None
    }

    /// Whether an earlier position, four or more plies back at an even distance and
    /// inside the fifty-move window, has the current key.
    pub fn search_backward_for_identical_position(&self) -> (r: bool)
        ensures
            r == (exists|j: int| #[trigger] self.backward_candidate(j) && (self.game_at(j) matches Some(g) && g.hash == self.board.hash.current_key)),
    {
        let p = self.ply_from_start_of_game;
        let mut cur = if p >= 4 { p - 4 } else { 0 };
        let end = if p >= self.fifty as usize { p - self.fifty as usize } else { 0 };
        let key = self.board.hash.current_key;
        while cur >= end
            invariant
                cur <= (if p >= 4 { p - 4 } else { 0 }),
                p == self.ply_from_start_of_game,
                end as int == (if p >= self.fifty as usize { p - self.fifty } else { 0 }),
                key == self.board.hash.current_key,
                ((if p >= 4 { p - 4 } else { 0 }) - cur) % 2 == 0,
                forall|j: int| #[trigger] self.backward_candidate(j) && j > cur ==> !(self.game_at(j) matches Some(g) && g.hash == key),
            decreases cur,
        {
            if let Some(game) = self.game_entry(cur) {
                if game.hash == key {
                    proof {
                        assert(self.backward_candidate(cur as int));
                    }
                    return true;
                }
            }
            if cur < 2 {
                proof {
                    assert forall|j: int| #[trigger] self.backward_candidate(j) implies !(self.game_at(j) matches Some(g) && g.hash == key) by {
                        assert(j >= cur);
                    }
                }
                return false;
            }
            cur = cur - 2;
        }
        false
    }

    /// Ply `j` is one that the backward search looks at: from four plies back (or
    /// ply 0), in steps of two, down to the start of the fifty-move window.
    pub open spec fn backward_candidate(&self, j: int) -> bool {
        let p = self.ply_from_start_of_game as int;
        let start = if p >= 4 { p - 4 } else { 0 };
        let end = if p >= self.fifty as int { p - self.fifty as int } else { 0 };
        0 <= j <= start && (start - j) % 2 == 0 && j >= end
    }

    /// Whether a piece of `side` attacks `square`.
    pub fn is_square_attacked_by_side(&self, side: Side, square: Square) -> (r: bool)
        requires
            self.board.wf(),
        ensures
            r == attacked(self.board.view(), side, square as int),
    {
        let s = side as usize;
        let sq = square as usize;
        let pawns = self.board.bit_pieces[s][0].0;
        let knights = self.board.bit_pieces[s][1].0;
        let kings = self.board.bit_pieces[s][5].0;
        let defends = self.tables.pawn_defends(s, sq);
        let knight_moves = self.tables.knight_moves(sq);
        let king_moves = self.tables.king_moves(sq);
        let ghost v = self.board.view();
        if (defends & pawns) != 0 {
            proof {
                let t = lemma_common_bit(defends, pawns);
                lemma_wf_bits(self.board, t);
                assert(self.board.bit_pieces[s as int][0].has(t));
                assert(attacks_from(v, side, t, sq as int));
            }
            return true;
        }
        if (knight_moves & knights) != 0 {
            proof {
                let t = lemma_common_bit(knight_moves, knights);
                lemma_wf_bits(self.board, t);
                assert(self.board.bit_pieces[s as int][1].has(t));
                assert(attacks_from(v, side, t, sq as int));
            }
            return true;
        }
        if self.slider_attack(side, sq) {
            proof {
                let t = choose|t: int| 0 <= t < 64 && #[trigger] slider_attacks_from(v, side, t, sq as int);
                assert(attacks_from(v, side, t, sq as int));
            }
            return true;
        }
        if (king_moves & kings) != 0 {
            proof {
                let t = lemma_common_bit(king_moves, kings);
                lemma_wf_bits(self.board, t);
                assert(self.board.bit_pieces[s as int][5].has(t));
                assert(attacks_from(v, side, t, sq as int));
            }
            return true;
        }
        proof {
            assert forall|t: int| 0 <= t < 64 implies !#[trigger] attacks_from(v, side, t, sq as int) by {
                lemma_wf_bits(self.board, t);
                lemma_no_common_bit(defends, pawns, t);
                lemma_no_common_bit(knight_moves, knights, t);
                lemma_no_common_bit(king_moves, kings, t);
                assert(self.board.bit_pieces[s as int][0].has(t) == (v[t] == Some((side, Piece::Pawn))));
                assert(self.board.bit_pieces[s as int][1].has(t) == (v[t] == Some((side, Piece::Knight))));
                assert(self.board.bit_pieces[s as int][5].has(t) == (v[t] == Some((side, Piece::King))));
                assert(!slider_attacks_from(v, side, t, sq as int));
            }
        }
        false
    }

    /// Whether a rook, bishop or queen of `side` attacks `square`.
    fn slider_attack(&self, side: Side, sq: usize) -> (r: bool)
        requires
            self.board.wf(),
            sq < 64,
        ensures
            r == exists|t: int| 0 <= t < 64 && #[trigger] slider_attacks_from(self.board.view(), side, t, sq as int),
    {
        let s = side as usize;
        let ghost v = self.board.view();
        let bishops = self.board.bit_pieces[s][2].0;
        let rooks = self.board.bit_pieces[s][3].0;
        let queens = self.board.bit_pieces[s][4].0;
        let all = self.board.bit_all.0;
        let rook_moves = self.tables.rook_moves(sq);
        let bishop_moves = self.tables.bishop_moves(sq);
        let rook_like = rook_moves & (rooks | queens);
        let bishop_like = bishop_moves & (bishops | queens);
        let mut b1 = BitBoard(rook_like | bishop_like);
        let ghost b1_start = b1;
        proof {
            assert forall|t: int| 0 <= t < 64 implies #[trigger] b1.has(t) == slider_on_line(v, side, t, sq as int) by {
                lemma_wf_bits(self.board, t);
                lemma_bit_ops(rook_like, bishop_like, t);
                lemma_bit_ops(rook_moves, rooks | queens, t);
                lemma_bit_ops(rooks, queens, t);
                lemma_bit_ops(bishop_moves, bishops | queens, t);
                lemma_bit_ops(bishops, queens, t);
                assert(self.board.bit_pieces[s as int][2].has(t) == (v[t] == Some((side, Piece::Bishop))));
                assert(self.board.bit_pieces[s as int][3].has(t) == (v[t] == Some((side, Piece::Rook))));
                assert(self.board.bit_pieces[s as int][4].has(t) == (v[t] == Some((side, Piece::Queen))));
                assert(crate::geometry::rook_line(t, sq as int) == crate::geometry::rook_line(sq as int, t));
                assert(crate::geometry::bishop_line(t, sq as int) == crate::geometry::bishop_line(sq as int, t));
            }
        }
        while b1.0 != 0
            invariant
                self.board.wf(),
                v == self.board.view(),
                all == self.board.bit_all.0,
                s == side as usize,
                sq < 64,
                forall|t: int| 0 <= t < 64 ==> #[trigger] b1.has(t) ==> b1_start.has(t),
                forall|t: int| 0 <= t < 64 ==> #[trigger] b1_start.has(t) == slider_on_line(v, side, t, sq as int),
                forall|t: int| 0 <= t < 64 && #[trigger] b1_start.has(t) && !b1.has(t) ==> !path_clear(v, t, sq as int),
            decreases b1.0,
        {
            let t = b1.next_bit_mut() as usize;
            let between_bits = self.tables.between_bits(t, sq);
            let blockers = between_bits & all;
            proof {
                if blockers != 0 {
                    let x = lemma_common_bit(between_bits, all);
                    lemma_wf_bits(self.board, x);
                    assert(v[x] is Some);
                    assert(!path_clear(v, t as int, sq as int));
                } else {
                    assert forall|x: int| 0 <= x < 64 && between(t as int, sq as int, x) implies #[trigger] v[x] is None by {
                        lemma_wf_bits(self.board, x);
                        lemma_no_common_bit(between_bits, all, x);
                    }
                }
            }
            if blockers == 0 {
                proof {
                    assert(slider_attacks_from(v, side, t as int, sq as int));
                }
                return true;
            }
        }
        proof {
            assert forall|t: int| 0 <= t < 64 implies !#[trigger] slider_attacks_from(v, side, t, sq as int) by {
                lemma_zero_iff_no_bits(b1.0);
                assert(!b1.has(t));
                assert(b1_start.has(t) == slider_on_line(v, side, t, sq as int));
            }
        }
        false
    }
}

/// A rook, bishop or queen of `side` on `t` stands on a line through `sq` that it moves along.
pub open spec fn slider_on_line(v: Seq<Occupant>, side: Side, t: int, sq: int) -> bool {
    ||| (v[t] == Some((side, Piece::Rook)) || v[t] == Some((side, Piece::Queen))) && rook_line(t, sq)
    ||| (v[t] == Some((side, Piece::Bishop)) || v[t] == Some((side, Piece::Queen))) && bishop_line(t, sq)
}

/// A rook, bishop or queen of `side` on `t` attacks `sq`.
pub open spec fn slider_attacks_from(v: Seq<Occupant>, side: Side, t: int, sq: int) -> bool {
    slider_on_line(v, side, t, sq) && path_clear(v, t, sq)
}

proof fn lemma_repetitions_bound(games: Seq<Option<Game>>, key: u64, fifty: int, i: int)
    ensures
        0 <= repetitions_from(games, key, fifty, i) <= (if i > 0 { i } else { 0 }),
    decreases i,
{
    if i >= fifty && i >= 2 {
        lemma_repetitions_bound(games, key, fifty, i - 2);
    }
}

} // verus!
