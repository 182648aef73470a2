use vstd::prelude::*;

verus! {

/// One ply is one move by a single player.
pub const NUM_SQUARES: usize = 64;
pub const NUM_PIECE_TYPES: usize = 6;
pub const NUM_SIDES: usize = 2;
pub const NUM_RANKS: usize = 8;
pub const NUM_FILES: usize = 8;

/// Maximum search depth (in full moves) used when nothing else is configured.
pub const DEFAULT_MAX_DEPTH: u16 = 5;

/// Limit for the search depth (in ply).
pub const MAX_PLY: usize = 64;

pub const DEFAULT_PLAYER_TIME_REMAINING_MS: u64 = 300_000;
pub const DEFAULT_PLAYER_INCREMENT_MS: u64 = 0;
pub const DEFAULT_FIXED_TIME: bool = false;
pub const DEFAULT_MOVETIME_MS: u64 = 1000;

/// The soft time limit is this fraction (numerator / denominator) of the hard limit.
pub const SOFT_LIMIT_NUMERATOR: u64 = 3;
pub const SOFT_LIMIT_DENOMINATOR: u64 = 4;

pub const MAX_HISTORY_SCORE: isize = 10000;

/// Initial size of the move list (it grows when a search needs more room).
pub const MOVE_STACK: usize = 4000;

/// Initial size of the game list, indexed by the ply from the start of the game.
pub const GAME_STACK: usize = 2000;

/// Added to the score of the move from the hash table so that it is searched first.
pub const HASH_SCORE: i32 = 100_000_000;

/// Added to the score of captures so that they are searched right after the hash move.
pub const CAPTURE_SCORE: i32 = 10_000_000;

/// Number of slots of the transposition table.
pub const NUM_HASH_SLOTS: usize = 5_000_000;

pub const INIT_COLOR: [u8; NUM_SQUARES] = [
    0, 0, 0, 0, 0, 0, 0, 0,
    0, 0, 0, 0, 0, 0, 0, 0,
    6, 6, 6, 6, 6, 6, 6, 6,
    6, 6, 6, 6, 6, 6, 6, 6,
    6, 6, 6, 6, 6, 6, 6, 6,
    6, 6, 6, 6, 6, 6, 6, 6,
    1, 1, 1, 1, 1, 1, 1, 1,
    1, 1, 1, 1, 1, 1, 1, 1
];

pub const INIT_BOARD: [u8; NUM_SQUARES] = [
    3, 1, 2, 4, 5, 2, 1, 3,
    0, 0, 0, 0, 0, 0, 0, 0,
    6, 6, 6, 6, 6, 6, 6, 6,
    6, 6, 6, 6, 6, 6, 6, 6,
    6, 6, 6, 6, 6, 6, 6, 6,
    6, 6, 6, 6, 6, 6, 6, 6,
    0, 0, 0, 0, 0, 0, 0, 0,
    3, 1, 2, 4, 5, 2, 1, 3
];






/// A1 - H8
pub const PAWN_SCORE: [i32; NUM_SQUARES] = [
	    0,   0,   0,   0,   0,   0,   0,   0,
	    0,   2,   4, -12, -12,   4,   2,   0,
	    0,   2,   4,   4,   4,   4,   2,   0,
	    0,   2,   4,   8,   8,   4,   2,   0,
	    0,   2,   4,   8,   8,   4,   2,   0,
	    4,   8,  10,  16,  16,  10,   8,   4,
	  100, 100, 100, 100, 100, 100, 100, 100,
	    0,   0,   0,   0,   0,   0,   0,   0
];

pub const KNIGHT_SCORE: [i32; NUM_SQUARES] = [
	   -30, -20, -10, -8, -8, -10, -20,  -30,
	   -16,  -6,  -2,  0,  0,  -2,  -6,  -16,
	    -8,  -2,   4,  6,  6,   4,  -2,   -8,
	    -5,   0,   6,  8,  8,   6,   0,   -5,
	    -5,   0,   6,  8,  8,   6,   0,   -5,
	   -10,  -2,   4,  6,  6,   4,  -2,  -10,
	   -20, -10,  -2,  0,  0,  -2, -10,  -20,
	  -150, -20, -10, -5, -5, -10, -20, -150
];

pub const BISHOP_SCORE: [i32; NUM_SQUARES] = [
	  -10, -10, -12, -10, -10, -12, -10, -10,
	    0,   4,   4,   4,   4,   4,   4,   0,
	    2,   4,   6,   6,   6,   6,   4,   2,
	    2,   4,   6,   8,   8,   6,   4,   2,
	    2,   4,   6,   8,   8,   6,   4,   2,
	    2,   4,   6,   6,   6,   6,   4,   2,
	  -10,   4,   4,   4,   4,   4,   4, -10,
	  -10, -10, -10, -10, -10, -10, -10, -10
];

pub const ROOK_SCORE: [i32; NUM_SQUARES] = [
	   4,  4,  4,  6,  6,  4,  4,  4,
	   0,  0,  0,  0,  0,  0,  0,  0,
	   0,  0,  0,  0,  0,  0,  0,  0,
	   0,  0,  0,  0,  0,  0,  0,  0,
	   0,  0,  0,  0,  0,  0,  0,  0,
	   0,  0,  0,  0,  0,  0,  0,  0,
	  20, 20, 20, 20, 20, 20, 20, 20,
	  10, 10, 10, 10, 10, 10, 10, 10
];

pub const QUEEN_SCORE: [i32; NUM_SQUARES] = [
	  -10, -10, -6, -4, -4, -6, -10, -10,
	  -10,   2,  2,  2,  2,  2,   2, -10,
	    2,   2,  2,  3,  3,  2,   2,   2,
	    2,   2,  3,  4,  4,  3,   2,   2,
	    2,   2,  3,  4,  4,  3,   2,   2,
	    2,   2,  2,  3,  3,  2,   2,   2,
	  -10,   2,  2,  2,  2,  2,   2, -10,
	  -10, -10,  2,  2,  2,  2, -10, -10
];

pub const KING_SCORE: [i32; NUM_SQUARES] = [
	   20,  20,  20, -40,  10, -60,  20,  20,     
	   15,  20, -25, -30, -30, -45,  20,  15,   
	  -48, -48, -48, -48, -48, -48, -48, -48,
	  -48, -48, -48, -48, -48, -48, -48, -48,
	  -48, -48, -48, -48, -48, -48, -48, -48,
	  -48, -48, -48, -48, -48, -48, -48, -48,
	  -48, -48, -48, -48, -48, -48, -48, -48,
	  -48, -48, -48, -48, -48, -48, -48, -48
];

pub const KING_ENDGAME_SCORE: [i32; NUM_SQUARES] = [
	   0,  8, 16, 18, 18, 16,  8,  0,
	   8, 16, 24, 32, 32, 24, 16,  8,
	  16, 24, 32, 40, 40, 32, 24, 16,
	  25, 32, 40, 48, 48, 40, 32, 25,
	  25, 32, 40, 48, 48, 40, 32, 25,
	  16, 24, 32, 40, 40, 32, 24, 16,
	   8, 16, 24, 32, 32, 24, 16,  8,
	   0,  8, 16, 18, 18, 16,  8,  0
];

pub const PASSED_SCORE: [i32; NUM_SQUARES] = [
     0,  0,  0,  0,  0,  0,  0,  0,
     8,  8,  8,  8,  8,  8,  8,  8,
     8,  8,  8,  8,  8,  8,  8,  8,
    15, 15, 15, 15, 15, 15, 15, 15,
    30, 30, 30, 30, 30, 30, 30, 30,
    60, 60, 60, 60, 60, 60, 60, 60,
     0,  0,  0,  0,  0,  0,  0,  0, // 7th rank; always passed; handled by `pawn_score`
     0,  0,  0,  0,  0,  0,  0,  0
];

/// Used to determine the castling permissions after a move.
/// We logical-AND the castle bits with the CASTLE_MASK bits for
/// both of the move's squares.
///
/// If castle is 1 (white can castle kingside), and we play a move
/// where the rook on h1 gets captured, we AND castle with
/// CASTLE_MASK[63] (1&14).
///
/// Castle becomes 0 and white can't castle kingside anymore.
/// 
/// 0001 white kingside  (14: 1110)
/// 0010 white queenside (13: 1101)
/// 0100 black kingside  (11: 1011)
/// 1000 black queenside (7: 0111)
///
/// 12: 1100
///  3: 0011
/// 15: 1111
pub const CASTLE_MASK: [u8; NUM_SQUARES] = [
	  13, 15, 15, 15, 12, 15, 15, 14,
	  15, 15, 15, 15, 15, 15, 15, 15,
	  15, 15, 15, 15, 15, 15, 15, 15,
	  15, 15, 15, 15, 15, 15, 15, 15,
	  15, 15, 15, 15, 15, 15, 15, 15,
	  15, 15, 15, 15, 15, 15, 15, 15,
	  15, 15, 15, 15, 15, 15, 15, 15,
	   7, 15, 15, 15,  3, 15, 15, 11
];



pub const QUEENSIDE_DEFENSE: [[i32; NUM_SQUARES]; NUM_SIDES] = [
  [
  	0,  0, 0, 0, 0, 0, 0, 0,
	  8, 10, 8, 0, 0, 0, 0, 0,
	  8,  6, 8, 0, 0, 0, 0, 0,
	  0,  0, 0, 0, 0, 0, 0, 0,
	  0,  0, 0, 0, 0, 0, 0, 0,
	  0,  0, 0, 0, 0, 0, 0, 0,
	  0,  0, 0, 0, 0, 0, 0, 0,
	  0,  0, 0, 0, 0, 0, 0, 0
  ],
  [
  	0,  0, 0, 0, 0, 0, 0, 0,
	  0,  0, 0, 0, 0, 0, 0, 0,
	  0,  0, 0, 0, 0, 0, 0, 0,
	  0,  0, 0, 0, 0, 0, 0, 0,
	  0,  0, 0, 0, 0, 0, 0, 0,
	  8,  6, 8, 0, 0, 0, 0, 0,
	  8, 10, 8, 0, 0, 0, 0, 0,
	  0,  0, 0, 0, 0, 0, 0, 0
  ]
];

pub const KINGSIDE_DEFENSE: [[i32; NUM_SQUARES]; NUM_SIDES] = [
  [
  	0, 0, 0, 0, 0, 0,  0, 0,
	  0, 0, 0, 0, 0, 8, 10, 8,
	  0, 0, 0, 0, 0, 8,  6, 8,
	  0, 0, 0, 0, 0, 0,  0, 0,
	  0, 0, 0, 0, 0, 0,  0, 0,
	  0, 0, 0, 0, 0, 0,  0, 0,
	  8, 6, 8, 0, 0, 8,  8, 8,
	  0, 0, 0, 0, 0, 0,  0, 0
  ],
  [
  	0, 0, 0, 0, 0, 0,  0, 0,
	  0, 0, 0, 0, 0, 0,  0, 0,
	  0, 0, 0, 0, 0, 0,  0, 0,
	  0, 0, 0, 0, 0, 0,  0, 0,
	  0, 0, 0, 0, 0, 0,  0, 0,
	  0, 0, 0, 0, 0, 8,  6, 8,
	  0, 0, 0, 0, 0, 8, 10, 8,
	  0, 0, 0, 0, 0, 0,  0, 0
  ]
];

pub const PAWN_CAPTURE_SCORE: [i32; 7] = [0, 10, 20, 30, 40, 0, 0]; // Last element is for Empty piece
pub const KNIGHT_CAPTURE_SCORE: [i32; 7] = [-3, 7, 17, 27, 37, 0, 0]; // Last element is for Empty piece
pub const BISHOP_CAPTURE_SCORE: [i32; 7] = [-3, 7, 17, 27, 37, 0, 0]; // Last element is for Empty piece
pub const ROOK_CAPTURE_SCORE: [i32; 7] = [-5, 5, 15, 25, 35, 0, 0]; // Last element is for Empty piece
pub const QUEEN_CAPTURE_SCORE: [i32; 7] = [-9, 1, 11, 21, 31, 0, 0]; // Last element is for Empty piece
pub const KING_CAPTURE_SCORE: [i32; 7] = [0, 10, 20, 30, 40, 0, 0]; // Last element is for Empty piece

pub const REVERSE_SQUARE: [i32; NUM_SIDES] = [-8, 8];

pub const ISOLATED_PAWN_SCORE: i32 = -20;

} // verus!
