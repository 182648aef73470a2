use vstd::prelude::*;

use crate::board::initial_view;
use crate::constants::{DEFAULT_MAX_DEPTH, DEFAULT_PLAYER_INCREMENT_MS, DEFAULT_PLAYER_TIME_REMAINING_MS, MAX_PLY, MOVE_STACK};
use crate::movegen::moves_generated;
use crate::position::Position;
use crate::rules::has_king;
use crate::types::{Difficulty, MoveData, Piece, Side, Square};

verus! {

/// The limits of a search: the clocks and increments of both sides (in
/// milliseconds), a fixed time per move, a maximal depth and a node budget.
pub struct SearchSettings {
    pub wtime: u64,
    pub btime: u64,
    pub winc: u64,
    pub binc: u64,
    pub movetime: Option<u64>,
    pub max_depth: u16,
    pub max_nodes: Option<usize>,
}

/// What a search found: the best move, its evaluation, the depth reached, the
/// positions searched, the time taken and the principal variation.
pub struct SearchResult {
    pub best_move_from: Option<Square>,
    pub best_move_to: Option<Square>,
    pub best_move_promote: Option<Piece>,
    pub evaluation: i32,
    pub depth: u16,
    pub nodes: usize,
    pub qnodes: usize,
    pub time_ms: u64,
    pub principal_variation: Vec<MoveData>,
    pub from_book: bool,
}

/// A chess engine: the position being played, the search settings, the
/// playing strength and the side the engine plays.
pub struct Engine {
    pub difficulty: Option<Difficulty>,
    pub position: Position,
    pub search_settings: SearchSettings,
    pub computer_side: Option<Side>,
}

/// The depth an engine searches to: the one of its difficulty, else the one
/// asked for, else the default.
pub open spec fn chosen_depth(max_depth: Option<u16>, difficulty: Option<Difficulty>) -> int {
    match difficulty {
        Some(d) => d.spec_max_depth() as int,
        None => match max_depth {
            Some(m) => m as int,
            None => DEFAULT_MAX_DEPTH as int,
        },
    }
}

/// `p` is the initial position, ready for play at the root.
pub open spec fn fresh_game_position(p: Position) -> bool {
    &&& fresh_game(p)
    &&& p.other_side == Side::Black
    &&& p.move_list@.len() == MOVE_STACK
}

/// `p` is the initial position with the moves of white generated at the root.
pub open spec fn fresh_game(p: Position) -> bool {
    &&& p.board.wf()
    &&& p.board.view() == initial_view()
    &&& p.side == Side::White
    &&& p.castle == 15
    &&& p.ply == 0
    &&& p.ply_from_start_of_game == 0
    &&& p.fifty == 0
    &&& p.first_move@.len() == MAX_PLY
    &&& p.first_move@[0] == 0
    &&& p.game_list@.len() == crate::constants::GAME_STACK
}

/// The initial position has a king of each side.
proof fn lemma_initial_kings()
    ensures
        has_king(initial_view(), Side::White),
        has_king(initial_view(), Side::Black),
{
    assert(initial_view()[4] == Some((Side::White, Piece::King)));
    assert(initial_view()[60] == Some((Side::Black, Piece::King)));
}

impl Engine {
    /// An engine at the initial position. Missing clocks get the default time
    /// and increment; the depth is that of the difficulty if one is given, else
    /// `max_depth`, else the default. The moves of white are generated.
    pub fn new(
        wtime: Option<u64>,
        btime: Option<u64>,
        winc: Option<u64>,
        binc: Option<u64>,
        movetime: Option<u64>,
        max_depth: Option<u16>,
        max_nodes: Option<usize>,
        difficulty: Option<Difficulty>,
    ) -> (r: Engine)
        ensures
            r.search_settings.wtime == (match wtime { Some(t) => t, None => DEFAULT_PLAYER_TIME_REMAINING_MS }),
            r.search_settings.btime == (match btime { Some(t) => t, None => DEFAULT_PLAYER_TIME_REMAINING_MS }),
            r.search_settings.winc == (match winc { Some(t) => t, None => DEFAULT_PLAYER_INCREMENT_MS }),
            r.search_settings.binc == (match binc { Some(t) => t, None => DEFAULT_PLAYER_INCREMENT_MS }),
            r.search_settings.movetime == movetime,
            r.search_settings.max_depth as int == chosen_depth(max_depth, difficulty),
            r.search_settings.max_nodes == max_nodes,
            r.difficulty == difficulty,
            r.computer_side is None,
            fresh_game(r.position),
    {
        let wtime = match wtime { Some(t) => t, None => DEFAULT_PLAYER_TIME_REMAINING_MS };
        let btime = match btime { Some(t) => t, None => DEFAULT_PLAYER_TIME_REMAINING_MS };
        let winc = match winc { Some(t) => t, None => DEFAULT_PLAYER_INCREMENT_MS };
        let binc = match binc { Some(t) => t, None => DEFAULT_PLAYER_INCREMENT_MS };
        let depth: u16 = match difficulty {
            Some(d) => d.max_depth() as u16,
            None => match max_depth {
                Some(m) => m,
                None => DEFAULT_MAX_DEPTH,
            },
        };
        let mut engine = Engine {
            difficulty,
            position: Position::new(),
            search_settings: SearchSettings { wtime, btime, winc, binc, movetime, max_depth: depth, max_nodes },
            computer_side: None,
        };
        proof {
            lemma_initial_kings();
        }
        engine.generate_moves();
        engine
    }

    /// Starts a new game: the initial position, and no side for the engine.
    pub fn new_game(&mut self)
        ensures
            final(self).search_settings == old(self).search_settings,
            final(self).difficulty == old(self).difficulty,
            final(self).computer_side is None,
            fresh_game(final(self).position),
    {
        self.position = Position::new();
        self.computer_side = None;
    }

    /// Generates the moves of the side to move at the current ply of the search.
    pub fn generate_moves(&mut self)
        requires
            old(self).position.board.wf(),
            has_king(old(self).position.board.view(), old(self).position.side),
            old(self).position.ply + 1 < old(self).position.first_move@.len(),
            0 <= old(self).position.first_move@[old(self).position.ply as int],
            old(self).position.first_move@[old(self).position.ply as int] <= old(self).position.move_list@.len(),
            old(self).position.first_move@[old(self).position.ply as int] + 60000 <= isize::MAX,
        ensures
            moves_generated(old(self).position, final(self).position, old(self).position.side, false),
            final(self).search_settings == old(self).search_settings,
            final(self).difficulty == old(self).difficulty,
            final(self).computer_side == old(self).computer_side,
    {
        let side = self.position.side;
        self.position.generate_moves_and_captures(side);
    }
}

impl Engine {
    /// Searches the current position with the engine's settings: the time
    /// budget of the side to move, the maximal depth; gives the best move found,
    /// the score and depth of the last completed depth, the positions searched
    /// and the time taken.
    pub fn think(&mut self) -> (r: SearchResult)
        requires
            old(self).position.board.wf(),
            old(self).position.first_move@.len() >= 2,
            old(self).search_settings.movetime is None ==> (if old(self).position.side == Side::White {
                old(self).search_settings.wtime / 30 + old(self).search_settings.winc
            } else {
                old(self).search_settings.btime / 30 + old(self).search_settings.binc
            }) <= u64::MAX,
        ensures
            final(self).position.board.view() == old(self).position.board.view(),
            final(self).position.side == old(self).position.side,
            r.best_move_from == final(self).position.best_move_from,
            r.best_move_to == final(self).position.best_move_to,
            r.depth <= old(self).search_settings.max_depth,
            old(self).position.fixed_depth ==> r.depth == old(self).search_settings.max_depth || r.evaluation > 9000
                || r.evaluation < -9000,
            r.depth == 0 ==> r.evaluation == 0,
            crate::search::root_ready(old(self).position) && !crate::search::has_legal_move(old(self).position) && r.depth >= 1
                ==> r.evaluation == crate::search::no_move_score(old(self).position),
            r.nodes == final(self).position.nodes,
            (r.best_move_from == old(self).position.best_move_from && r.best_move_to == old(self).position.best_move_to)
                || crate::search::legal_choice(old(self).position, r.best_move_from, r.best_move_to),
            !r.from_book,
    {
        let settings = &self.search_settings;
        let tm = crate::time::TimeManager::new(
            settings.wtime,
            settings.btime,
            settings.winc,
            settings.binc,
            settings.movetime,
            self.position.side == Side::White,
        );
        self.position.max_depth = self.search_settings.max_depth;
        self.position.max_search_duration_ms = if tm.hard_limit > 0xffff_ffff { 0xffff_ffffu32 } else { tm.hard_limit as u32 };
        self.position.fixed_time = self.search_settings.movetime.is_some();
        let ghost before = self.position;
        proof {
            crate::search::lemma_legal_moves_same(old(self).position, before);
        }
        let reports = self.position.think();
        proof {
            if crate::search::legal_choice(before, self.position.best_move_from, self.position.best_move_to) {
                let m = choose|m: crate::types::Move| #[trigger] crate::search::playable_move(before, m)
                    && self.position.best_move_from == Some(m.from) && self.position.best_move_to == Some(m.to);
                assert(crate::search::playable_move(old(self).position, m));
            }
        }
        let n = reports.len();
        let (evaluation, depth) = if n > 0 { (reports[n - 1].score, reports[n - 1].depth) } else { (0, 0) };
        let mut principal_variation: Vec<MoveData> = Vec::new();
        if let (Some(from), Some(to)) = (self.position.best_move_from, self.position.best_move_to) {
            principal_variation.push(MoveData { from, to, promote: None });
        }
        SearchResult {
            best_move_from: self.position.best_move_from,
            best_move_to: self.position.best_move_to,
            best_move_promote: None,
            evaluation,
            depth,
            nodes: self.position.nodes,
            qnodes: 0,
            time_ms: tm.elapsed(),
            principal_variation,
            from_book: false,
        }
    }
}

impl Default for Engine {
    /// An engine with the default settings at the initial position.
    fn default() -> (r: Engine)
        ensures
            r.search_settings.wtime == DEFAULT_PLAYER_TIME_REMAINING_MS,
            r.search_settings.btime == DEFAULT_PLAYER_TIME_REMAINING_MS,
            r.search_settings.winc == DEFAULT_PLAYER_INCREMENT_MS,
            r.search_settings.binc == DEFAULT_PLAYER_INCREMENT_MS,
            r.search_settings.movetime is None,
            r.search_settings.max_depth == DEFAULT_MAX_DEPTH,
            r.search_settings.max_nodes is None,
            r.difficulty is None,
            r.computer_side is None,
            fresh_game(r.position),
    {
        Engine::new(None, None, None, None, None, None, None, None)
    }
}

} // verus!
