use vstd::prelude::*;

verus! {

/// A set of squares: bit `i` stands for the square with index `i`; the lowest bit is A1.
#[derive(Clone, Copy, PartialEq, Eq, Debug, Structural)]
pub struct BitBoard(pub u64);

/// The squares of the board, in index order: A1 has index 0, H1 index 7, A8 index 56.
#[derive(Copy, Clone, Debug, PartialEq, Eq, Structural)]
pub enum Square {
    A1, B1, C1, D1, E1, F1, G1, H1,
    A2, B2, C2, D2, E2, F2, G2, H2,
    A3, B3, C3, D3, E3, F3, G3, H3,
    A4, B4, C4, D4, E4, F4, G4, H4,
    A5, B5, C5, D5, E5, F5, G5, H5,
    A6, B6, C6, D6, E6, F6, G6, H6,
    A7, B7, C7, D7, E7, F7, G7, H7,
    A8, B8, C8, D8, E8, F8, G8, H8,
}

/// The pieces on a board; `Empty` marks a square without a piece.
#[derive(Copy, Clone, Debug, PartialEq, Eq, Structural)]
pub enum Piece {
    Pawn,
    Knight,
    Bishop,
    Rook,
    Queen,
    King,
    Empty,
}

/// The two sides; white has index 0 and black index 1.
#[derive(Copy, Clone, Debug, PartialEq, Eq, Structural)]
pub enum Side {
    White,
    Black,
}

/// The board: the piece on each square and the bitboards that index it, with its hash.
pub struct Board {
    pub value: [Piece; 64],
    pub bit_pieces: [[BitBoard; 6]; 2],
    pub bit_units: [BitBoard; 2],
    pub bit_all: BitBoard,
    pub hash: crate::hash::Hash,
}

/// The state of a game: in progress or finished, and how.
#[derive(Copy, Clone, Debug, PartialEq, Eq, Structural)]
pub enum GameState {
    InProgress,
    Checkmate(Side),
    Stalemate,
    DrawByRepetition,
    DrawByFiftyMoveRule,
    DrawByInsufficientMaterial,
}

/// A move as written in UCI notation: its squares and the promotion piece, if any.
#[derive(Debug)]
pub struct MoveData {
    pub from: Square,
    pub to: Square,
    pub promote: Option<Piece>,
}

/// A move in the move list; moves with higher scores are searched first.
#[derive(Clone, Copy, Debug)]
pub struct Move {
    pub from: Square,
    pub to: Square,
    pub promote: Option<Piece>,
    pub score: isize,
}

/// What is needed to take a move back.
#[derive(Clone, Copy, Debug)]
pub struct Game {
    pub from: Square,
    pub to: Square,
    pub promote: Option<Piece>,
    pub capture: Piece,
    pub fifty: u8,
    pub castle: u8,
    pub hash: u64,
    pub en_passant_file: Option<u8>,
    pub en_passant_adjacent_opponent_pawn: bool,
}

/// Playing strength, given as a maximal search depth.
#[derive(Clone, Copy, Debug, PartialEq, Eq, Structural)]
pub enum Difficulty {
    Beginner,
    Easy,
    Medium,
    Hard,
    Expert,
    Master,
}

impl Side {
    /// Both sides, white first.
    pub fn iter() -> (r: Vec<Side>)
        ensures
            r@ == seq![Side::White, Side::Black],
    {
        vec![Side::White, Side::Black]
    }

    pub open spec fn spec_opponent(self) -> Side {
        match self {
            Side::White => Side::Black,
            Side::Black => Side::White,
        }
    }

    /// The other side.
    #[verifier::when_used_as_spec(spec_opponent)]
    pub fn opponent(self) -> (r: Side)
        ensures
            r == self.spec_opponent(),
    {
        match self {
            Side::White => Side::Black,
            Side::Black => Side::White,
        }
    }

    /// The side with the given index: 0 is white, 1 is black.
    pub fn try_from(value: u8) -> (r: Result<Side, &'static str>)
        ensures
            r is Ok <==> value <= 1,
            r matches Ok(s) ==> s as u8 == value,
    {
        if value == 0 {
            Ok(Side::White)
        } else if value == 1 {
            Ok(Side::Black)
        } else {
            Err("Side index out of range (must be 0-1)")
        }
    }
}

/// The opponent of the opponent is the side itself.
pub proof fn lemma_opponent_involution(s: Side)
    ensures
        s.spec_opponent().spec_opponent() == s,
        s.spec_opponent() != s,
{
}

impl Game {
    /// An entry with no move in it.
    pub fn new() -> (r: Game)
        ensures
            r.from == Square::A1,
            r.to == Square::A1,
            r.promote is None,
            r.capture == Piece::Empty,
            r.fifty == 0,
            r.castle == 0,
            r.hash == 0,
            r.en_passant_file is None,
            !r.en_passant_adjacent_opponent_pawn,
    {
        Game {
            from: Square::A1,
            to: Square::A1,
            promote: None,
            capture: Piece::Empty,
            fifty: 0,
            castle: 0,
            hash: 0,
            en_passant_file: None,
            en_passant_adjacent_opponent_pawn: false,
        }
    }
}

impl Difficulty {
    pub open spec fn spec_max_depth(self) -> u8 {
        match self {
            Difficulty::Beginner => 1,
            Difficulty::Easy => 2,
            Difficulty::Medium => 3,
            Difficulty::Hard => 4,
            Difficulty::Expert => 5,
            Difficulty::Master => 6,
        }
    }

    /// The search depth of the level: one for beginner up to six for master.
    pub fn max_depth(&self) -> (r: u8)
        ensures
            r == self.spec_max_depth(),
    {
        match self {
            Difficulty::Beginner => 1,
            Difficulty::Easy => 2,
            Difficulty::Medium => 3,
            Difficulty::Hard => 4,
            Difficulty::Expert => 5,
            Difficulty::Master => 6,
        }
    }

    /// The name of the level.
    pub fn name(&self) -> (r: &'static str)
        ensures
            r@ == (match *self {
                Difficulty::Beginner => "Beginner"@,
                Difficulty::Easy => "Easy"@,
                Difficulty::Medium => "Medium"@,
                Difficulty::Hard => "Hard"@,
                Difficulty::Expert => "Expert"@,
                Difficulty::Master => "Master"@,
            }),
    {
        match self {
            Difficulty::Beginner => "Beginner",
            Difficulty::Easy => "Easy",
            Difficulty::Medium => "Medium",
            Difficulty::Hard => "Hard",
            Difficulty::Expert => "Expert",
            Difficulty::Master => "Master",
        }
    }

    /// All levels, from the weakest to the strongest.
    pub fn iter() -> (r: Vec<Difficulty>)
        ensures
            r@ == seq![
                Difficulty::Beginner,
                Difficulty::Easy,
                Difficulty::Medium,
                Difficulty::Hard,
                Difficulty::Expert,
                Difficulty::Master,
            ],
    {
        vec![
            Difficulty::Beginner,
            Difficulty::Easy,
            Difficulty::Medium,
            Difficulty::Hard,
            Difficulty::Expert,
            Difficulty::Master,
        ]
    }
}

} // verus!
