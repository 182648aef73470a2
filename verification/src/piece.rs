use vstd::prelude::*;

use crate::types::Piece;

verus! {

impl Piece {
    pub open spec fn spec_value(self) -> i32 {
        match self {
            Piece::Pawn => 100,
            Piece::Knight => 300,
            Piece::Bishop => 300,
            Piece::Rook => 500,
            Piece::Queen => 900,
            Piece::King => 10000,
            Piece::Empty => 0,
        }
    }

    /// The value of the piece in centipawns.
    #[verifier::when_used_as_spec(spec_value)]
    pub fn value(self) -> (r: i32)
        ensures
            r == self.spec_value(),
    {
        match self {
            Piece::Pawn => 100,
            Piece::Knight => 300,
            Piece::Bishop => 300,
            Piece::Rook => 500,
            Piece::Queen => 900,
            Piece::King => 10000,
            Piece::Empty => 0,
        }
    }

    /// The traditional value of the piece in pawns; the king counts nothing.
    pub fn traditional_value(self) -> (r: u8)
        ensures
            r == (match self {
                Piece::Pawn => 1u8,
                Piece::Knight => 3u8,
                Piece::Bishop => 3u8,
                Piece::Rook => 5u8,
                Piece::Queen => 9u8,
                Piece::King => 0u8,
                Piece::Empty => 0u8,
            }),
    {
        match self {
            Piece::Pawn => 1,
            Piece::Knight => 3,
            Piece::Bishop => 3,
            Piece::Rook => 5,
            Piece::Queen => 9,
            Piece::King => 0,
            Piece::Empty => 0,
        }
    }

    /// All pieces in index order, `Empty` last.
    pub fn iter() -> (r: Vec<Piece>)
        ensures
            r@.len() == 7,
            forall|i: int| 0 <= i < 7 ==> #[trigger] r@[i] as int == i,
    {
        vec![
            Piece::Pawn,
            Piece::Knight,
            Piece::Bishop,
            Piece::Rook,
            Piece::Queen,
            Piece::King,
            Piece::Empty,
        ]
    }

    /// The piece with the given index (0-6).
    pub fn try_from(value: u8) -> (r: Result<Piece, &'static str>)
        ensures
            r is Ok <==> value <= 6,
            r matches Ok(p) ==> p as u8 == value,
    {
        match value {
            0 => Ok(Piece::Pawn),
            1 => Ok(Piece::Knight),
            2 => Ok(Piece::Bishop),
            3 => Ok(Piece::Rook),
            4 => Ok(Piece::Queen),
            5 => Ok(Piece::King),
            6 => Ok(Piece::Empty),
            _ => Err("Piece index out of range (must be 0-6)"),
        }
    }
}

} // verus!
