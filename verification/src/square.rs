use vstd::prelude::*;

use crate::types::Square;

verus! {

/// The square with index `i` (0 to 63).
pub open spec fn square_at(i: int) -> Square {
    match i as u8 {
        0 => Square::A1,
        1 => Square::B1,
        2 => Square::C1,
        3 => Square::D1,
        4 => Square::E1,
        5 => Square::F1,
        6 => Square::G1,
        7 => Square::H1,
        8 => Square::A2,
        9 => Square::B2,
        10 => Square::C2,
        11 => Square::D2,
        12 => Square::E2,
        13 => Square::F2,
        14 => Square::G2,
        15 => Square::H2,
        16 => Square::A3,
        17 => Square::B3,
        18 => Square::C3,
        19 => Square::D3,
        20 => Square::E3,
        21 => Square::F3,
        22 => Square::G3,
        23 => Square::H3,
        24 => Square::A4,
        25 => Square::B4,
        26 => Square::C4,
        27 => Square::D4,
        28 => Square::E4,
        29 => Square::F4,
        30 => Square::G4,
        31 => Square::H4,
        32 => Square::A5,
        33 => Square::B5,
        34 => Square::C5,
        35 => Square::D5,
        36 => Square::E5,
        37 => Square::F5,
        38 => Square::G5,
        39 => Square::H5,
        40 => Square::A6,
        41 => Square::B6,
        42 => Square::C6,
        43 => Square::D6,
        44 => Square::E6,
        45 => Square::F6,
        46 => Square::G6,
        47 => Square::H6,
        48 => Square::A7,
        49 => Square::B7,
        50 => Square::C7,
        51 => Square::D7,
        52 => Square::E7,
        53 => Square::F7,
        54 => Square::G7,
        55 => Square::H7,
        56 => Square::A8,
        57 => Square::B8,
        58 => Square::C8,
        59 => Square::D8,
        60 => Square::E8,
        61 => Square::F8,
        62 => Square::G8,
        _ => Square::H8,
    }
}

/// The rank (0-7) of the square with index `i`.
pub open spec fn rank_of(i: int) -> int {
    i / 8
}

/// The file (0-7) of the square with index `i`.
pub open spec fn file_of(i: int) -> int {
    i % 8
}

impl Square {
    /// The index of the square (0-63).
    pub open spec fn idx(self) -> int {
        self as int
    }

    /// All squares in index order.
    pub fn iter() -> (r: Vec<Square>)
        ensures
            r@.len() == 64,
            forall|i: int| 0 <= i < 64 ==> #[trigger] r@[i] as int == i,
    {
        let r = vec![
        Square::A1, Square::B1, Square::C1, Square::D1, Square::E1, Square::F1, Square::G1, Square::H1,
        Square::A2, Square::B2, Square::C2, Square::D2, Square::E2, Square::F2, Square::G2, Square::H2,
        Square::A3, Square::B3, Square::C3, Square::D3, Square::E3, Square::F3, Square::G3, Square::H3,
        Square::A4, Square::B4, Square::C4, Square::D4, Square::E4, Square::F4, Square::G4, Square::H4,
        Square::A5, Square::B5, Square::C5, Square::D5, Square::E5, Square::F5, Square::G5, Square::H5,
        Square::A6, Square::B6, Square::C6, Square::D6, Square::E6, Square::F6, Square::G6, Square::H6,
        Square::A7, Square::B7, Square::C7, Square::D7, Square::E7, Square::F7, Square::G7, Square::H7,
        Square::A8, Square::B8, Square::C8, Square::D8, Square::E8, Square::F8, Square::G8, Square::H8,
        ];
        r
    }

    /// The bitboard with just this square.
    pub fn as_bit(self) -> (r: u64)
        ensures
            r == 1u64 << (self as u64),
    {
        1u64 << (self as u64)
    }

    /// The rank of the square, 0-indexed (0-7).
    pub fn rank(self) -> (r: u8)
        ensures
            r as int == rank_of(self as int),
            r < 8,
    {
        self as u8 / 8
    }

    /// The file of the square, 0-indexed (0-7).
    pub fn file(self) -> (r: u8)
        ensures
            r as int == file_of(self as int),
            r < 8,
    {
        (self as u8) % 8
    }

    /// The square with the given index (0-63).
    pub fn try_from(value: u8) -> (r: Result<Square, &'static str>)
        ensures
            r is Ok <==> value < 64,
            r matches Ok(s) ==> s as u8 == value && s == square_at(value as int),
    {
        match value {
            0 => Ok(Square::A1),
            1 => Ok(Square::B1),
            2 => Ok(Square::C1),
            3 => Ok(Square::D1),
            4 => Ok(Square::E1),
            5 => Ok(Square::F1),
            6 => Ok(Square::G1),
            7 => Ok(Square::H1),
            8 => Ok(Square::A2),
            9 => Ok(Square::B2),
            10 => Ok(Square::C2),
            11 => Ok(Square::D2),
            12 => Ok(Square::E2),
            13 => Ok(Square::F2),
            14 => Ok(Square::G2),
            15 => Ok(Square::H2),
            16 => Ok(Square::A3),
            17 => Ok(Square::B3),
            18 => Ok(Square::C3),
            19 => Ok(Square::D3),
            20 => Ok(Square::E3),
            21 => Ok(Square::F3),
            22 => Ok(Square::G3),
            23 => Ok(Square::H3),
            24 => Ok(Square::A4),
            25 => Ok(Square::B4),
            26 => Ok(Square::C4),
            27 => Ok(Square::D4),
            28 => Ok(Square::E4),
            29 => Ok(Square::F4),
            30 => Ok(Square::G4),
            31 => Ok(Square::H4),
            32 => Ok(Square::A5),
            33 => Ok(Square::B5),
            34 => Ok(Square::C5),
            35 => Ok(Square::D5),
            36 => Ok(Square::E5),
            37 => Ok(Square::F5),
            38 => Ok(Square::G5),
            39 => Ok(Square::H5),
            40 => Ok(Square::A6),
            41 => Ok(Square::B6),
            42 => Ok(Square::C6),
            43 => Ok(Square::D6),
            44 => Ok(Square::E6),
            45 => Ok(Square::F6),
            46 => Ok(Square::G6),
            47 => Ok(Square::H6),
            48 => Ok(Square::A7),
            49 => Ok(Square::B7),
            50 => Ok(Square::C7),
            51 => Ok(Square::D7),
            52 => Ok(Square::E7),
            53 => Ok(Square::F7),
            54 => Ok(Square::G7),
            55 => Ok(Square::H7),
            56 => Ok(Square::A8),
            57 => Ok(Square::B8),
            58 => Ok(Square::C8),
            59 => Ok(Square::D8),
            60 => Ok(Square::E8),
            61 => Ok(Square::F8),
            62 => Ok(Square::G8),
            63 => Ok(Square::H8),
            _ => Err("Square index out of range (must be 0-63)"),
        }
    }

    /// The square with the given index (0-63), from a signed index.
    pub fn try_from_i32(value: i32) -> (r: Result<Square, &'static str>)
        ensures
            r is Ok <==> 0 <= value < 64,
            r matches Ok(s) ==> s as i32 == value,
    {
        if value < 0 || value > 63 {
            return Err("Square index out of range (must be 0-63)");
        }
        Square::try_from(value as u8)
    }
}

/// Every index names the square with that index.
pub proof fn lemma_square_at(i: int)
    requires
        0 <= i < 64,
    ensures
        square_at(i) as int == i,
{
}

} // verus!
