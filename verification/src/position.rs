use vstd::prelude::*;

verus! {

/// A board square. The numbering reads the board from the top left:
/// `A8` is 0, `H8` is 7, `A1` is 56 and `H1` is 63.
#[derive(Debug, Clone, Copy, PartialEq, Eq, Structural)]
pub enum Position {
    A8, B8, C8, D8, E8, F8, G8, H8,
    A7, B7, C7, D7, E7, F7, G7, H7,
    A6, B6, C6, D6, E6, F6, G6, H6,
    A5, B5, C5, D5, E5, F5, G5, H5,
    A4, B4, C4, D4, E4, F4, G4, H4,
    A3, B3, C3, D3, E3, F3, G3, H3,
    A2, B2, C2, D2, E2, F2, G2, H2,
    A1, B1, C1, D1, E1, F1, G1, H1,
}

impl Position {
    /// The square index, in 0..64.
    pub open spec fn idx(self) -> int {
        match self {
            Position::A8 => 0,
            Position::B8 => 1,
            Position::C8 => 2,
            Position::D8 => 3,
            Position::E8 => 4,
            Position::F8 => 5,
            Position::G8 => 6,
            Position::H8 => 7,
            Position::A7 => 8,
            Position::B7 => 9,
            Position::C7 => 10,
            Position::D7 => 11,
            Position::E7 => 12,
            Position::F7 => 13,
            Position::G7 => 14,
            Position::H7 => 15,
            Position::A6 => 16,
            Position::B6 => 17,
            Position::C6 => 18,
            Position::D6 => 19,
            Position::E6 => 20,
            Position::F6 => 21,
            Position::G6 => 22,
            Position::H6 => 23,
            Position::A5 => 24,
            Position::B5 => 25,
            Position::C5 => 26,
            Position::D5 => 27,
            Position::E5 => 28,
            Position::F5 => 29,
            Position::G5 => 30,
            Position::H5 => 31,
            Position::A4 => 32,
            Position::B4 => 33,
            Position::C4 => 34,
            Position::D4 => 35,
            Position::E4 => 36,
            Position::F4 => 37,
            Position::G4 => 38,
            Position::H4 => 39,
            Position::A3 => 40,
            Position::B3 => 41,
            Position::C3 => 42,
            Position::D3 => 43,
            Position::E3 => 44,
            Position::F3 => 45,
            Position::G3 => 46,
            Position::H3 => 47,
            Position::A2 => 48,
            Position::B2 => 49,
            Position::C2 => 50,
            Position::D2 => 51,
            Position::E2 => 52,
            Position::F2 => 53,
            Position::G2 => 54,
            Position::H2 => 55,
            Position::A1 => 56,
            Position::B1 => 57,
            Position::C1 => 58,
            Position::D1 => 59,
            Position::E1 => 60,
            Position::F1 => 61,
            Position::G1 => 62,
            Position::H1 => 63,
        }
    }

    /// Rank coordinate in 0..8; the chess rank is this plus one.
    pub open spec fn spec_rank(self) -> int {
        7 - self.idx() / 8
    }

    /// File coordinate in 0..8; 0 is the a-file.
    pub open spec fn spec_file(self) -> int {
        self.idx() % 8
    }

    /// The square index as a machine integer.
    pub fn index(self) -> (r: u8)
        ensures
            r as int == self.idx(),
            r < 64,
    {
        match self {
            Position::A8 => 0u8,
            Position::B8 => 1u8,
            Position::C8 => 2u8,
            Position::D8 => 3u8,
            Position::E8 => 4u8,
            Position::F8 => 5u8,
            Position::G8 => 6u8,
            Position::H8 => 7u8,
            Position::A7 => 8u8,
            Position::B7 => 9u8,
            Position::C7 => 10u8,
            Position::D7 => 11u8,
            Position::E7 => 12u8,
            Position::F7 => 13u8,
            Position::G7 => 14u8,
            Position::H7 => 15u8,
            Position::A6 => 16u8,
            Position::B6 => 17u8,
            Position::C6 => 18u8,
            Position::D6 => 19u8,
            Position::E6 => 20u8,
            Position::F6 => 21u8,
            Position::G6 => 22u8,
            Position::H6 => 23u8,
            Position::A5 => 24u8,
            Position::B5 => 25u8,
            Position::C5 => 26u8,
            Position::D5 => 27u8,
            Position::E5 => 28u8,
            Position::F5 => 29u8,
            Position::G5 => 30u8,
            Position::H5 => 31u8,
            Position::A4 => 32u8,
            Position::B4 => 33u8,
            Position::C4 => 34u8,
            Position::D4 => 35u8,
            Position::E4 => 36u8,
            Position::F4 => 37u8,
            Position::G4 => 38u8,
            Position::H4 => 39u8,
            Position::A3 => 40u8,
            Position::B3 => 41u8,
            Position::C3 => 42u8,
            Position::D3 => 43u8,
            Position::E3 => 44u8,
            Position::F3 => 45u8,
            Position::G3 => 46u8,
            Position::H3 => 47u8,
            Position::A2 => 48u8,
            Position::B2 => 49u8,
            Position::C2 => 50u8,
            Position::D2 => 51u8,
            Position::E2 => 52u8,
            Position::F2 => 53u8,
            Position::G2 => 54u8,
            Position::H2 => 55u8,
            Position::A1 => 56u8,
            Position::B1 => 57u8,
            Position::C1 => 58u8,
            Position::D1 => 59u8,
            Position::E1 => 60u8,
            Position::F1 => 61u8,
            Position::G1 => 62u8,
            Position::H1 => 63u8,
        }
    }

    pub fn from_u8(value: u8) -> (r: Option<Position>)
        ensures
            (match r {
                Some(p) => value < 64 && p.idx() == value as int,
                None => value >= 64,
            }),
    {
        match value {
            0 => Some(Position::A8),
            1 => Some(Position::B8),
            2 => Some(Position::C8),
            3 => Some(Position::D8),
            4 => Some(Position::E8),
            5 => Some(Position::F8),
            6 => Some(Position::G8),
            7 => Some(Position::H8),
            8 => Some(Position::A7),
            9 => Some(Position::B7),
            10 => Some(Position::C7),
            11 => Some(Position::D7),
            12 => Some(Position::E7),
            13 => Some(Position::F7),
            14 => Some(Position::G7),
            15 => Some(Position::H7),
            16 => Some(Position::A6),
            17 => Some(Position::B6),
            18 => Some(Position::C6),
            19 => Some(Position::D6),
            20 => Some(Position::E6),
            21 => Some(Position::F6),
            22 => Some(Position::G6),
            23 => Some(Position::H6),
            24 => Some(Position::A5),
            25 => Some(Position::B5),
            26 => Some(Position::C5),
            27 => Some(Position::D5),
            28 => Some(Position::E5),
            29 => Some(Position::F5),
            30 => Some(Position::G5),
            31 => Some(Position::H5),
            32 => Some(Position::A4),
            33 => Some(Position::B4),
            34 => Some(Position::C4),
            35 => Some(Position::D4),
            36 => Some(Position::E4),
            37 => Some(Position::F4),
            38 => Some(Position::G4),
            39 => Some(Position::H4),
            40 => Some(Position::A3),
            41 => Some(Position::B3),
            42 => Some(Position::C3),
            43 => Some(Position::D3),
            44 => Some(Position::E3),
            45 => Some(Position::F3),
            46 => Some(Position::G3),
            47 => Some(Position::H3),
            48 => Some(Position::A2),
            49 => Some(Position::B2),
            50 => Some(Position::C2),
            51 => Some(Position::D2),
            52 => Some(Position::E2),
            53 => Some(Position::F2),
            54 => Some(Position::G2),
            55 => Some(Position::H2),
            56 => Some(Position::A1),
            57 => Some(Position::B1),
            58 => Some(Position::C1),
            59 => Some(Position::D1),
            60 => Some(Position::E1),
            61 => Some(Position::F1),
            62 => Some(Position::G1),
            63 => Some(Position::H1),
            _ => None,
        }
    }

    pub fn from_u64(value: u64) -> (r: Option<Position>)
        ensures
            (match r {
                Some(p) => value < 64 && p.idx() == value as int,
                None => value >= 64,
            }),
    {
        if value < 64 {
            Position::from_u8(value as u8)
        } else {
            None
        }
    }

    pub fn from_u32(value: u32) -> (r: Option<Position>)
        ensures
            (match r {
                Some(p) => value < 64 && p.idx() == value as int,
                None => value >= 64,
            }),
    {
        if value < 64 {
            Position::from_u8(value as u8)
        } else {
            None
        }
    }

    /// Build a square from rank and file coordinates, both counted from zero;
    /// rank 0 is the first chess rank, at the bottom of the board.
    pub fn from_coords(rank: u64, file: u64) -> (r: Option<Position>)
        ensures
            (match r {
                Some(p) => rank < 8 && file < 8 && p.idx() == (7 - rank as int) * 8 + file as int,
                None => rank >= 8 || file >= 8,
            }),
    {
        if rank < 8 && file < 8 {
            Position::from_u64((7 - rank) * 8 + file)
        } else {
            None
        }
    }

    pub fn rank(&self) -> (r: usize)
        ensures
            r as int == self.spec_rank(),
            r < 8,
    {
        7 - ((self.index() as usize) / 8)
    }

    pub fn file(&self) -> (r: usize)
        ensures
            r as int == self.spec_file(),
            r < 8,
    {
        (self.index() as usize) % 8
    }

    /// Step the given number of ranks towards the eighth rank (negative steps
    /// towards the first), staying on the same file.
    pub fn change_rank(&self, delta: i8) -> (r: Option<Position>)
        ensures
            (match r {
                Some(p) => 0 <= self.spec_rank() + delta && self.spec_rank() + delta < 8
                    && p.idx() == (7 - (self.spec_rank() + delta)) * 8 + self.spec_file(),
                None => !(0 <= self.spec_rank() + delta && self.spec_rank() + delta < 8),
            }),
    {
        let rank: i16 = self.rank() as i16 + delta as i16;
        let file: i16 = self.file() as i16;

        if 0 <= rank && rank < 8 {
            Position::from_u64(((7 - rank) as u64) * 8 + file as u64)
        } else {
            None
        }
    }

    /// Step the given number of files towards the h-file (negative steps
    /// towards the a-file), staying on the same rank.
    pub fn add_file(&self, delta: i8) -> (r: Option<Position>)
        ensures
            (match r {
                Some(p) => 0 <= self.spec_file() + delta && self.spec_file() + delta < 8
                    && p.idx() == (7 - self.spec_rank()) * 8 + self.spec_file() + delta,
                None => !(0 <= self.spec_file() + delta && self.spec_file() + delta < 8),
            }),
    {
        let rank: i16 = self.rank() as i16;
        let file: i16 = self.file() as i16 + delta as i16;

        if 0 <= file && file < 8 {
            Position::from_u64(((7 - rank) as u64) * 8 + file as u64)
        } else {
            None
        }
    }

    /// Build a square from its algebraic name, file letter first.
    pub fn from_chars(file: char, rank: char) -> (r: Option<Position>)
        ensures
            (match r {
                Some(p) => 'a' <= file && file <= 'h' && '1' <= rank && rank <= '8'
                    && p.idx() == ('8' as int - rank as int) * 8 + (file as int - 'a' as int),
                None => !('a' <= file && file <= 'h' && '1' <= rank && rank <= '8'),
            }),
    {
        let f: u32 = file as u32;
        let k: u32 = rank as u32;
        if 'a' as u32 <= f && f <= 'h' as u32 && '1' as u32 <= k && k <= '8' as u32 {
            Position::from_u32(('8' as u32 - k) * 8 + (f - 'a' as u32))
        } else {
            None
        }
    }

    /// The lower-case file letter of the square, for algebraic notation.
    pub fn file_byte(&self) -> (r: u8)
        ensures
            r == 97 + self.spec_file(),
    {
        97 + self.file() as u8
    }

    /// The rank digit of the square, for algebraic notation.
    pub fn rank_byte(&self) -> (r: u8)
        ensures
            r == 49 + self.spec_rank(),
    {
        49 + self.rank() as u8
    }
}

} // verus!

verus! {

/// The square with the given index.
pub open spec fn pos_of(i: int) -> Position {
    if i == 0 {
        Position::A8
    } else if i == 1 {
        Position::B8
    } else if i == 2 {
        Position::C8
    } else if i == 3 {
        Position::D8
    } else if i == 4 {
        Position::E8
    } else if i == 5 {
        Position::F8
    } else if i == 6 {
        Position::G8
    } else if i == 7 {
        Position::H8
    } else if i == 8 {
        Position::A7
    } else if i == 9 {
        Position::B7
    } else if i == 10 {
        Position::C7
    } else if i == 11 {
        Position::D7
    } else if i == 12 {
        Position::E7
    } else if i == 13 {
        Position::F7
    } else if i == 14 {
        Position::G7
    } else if i == 15 {
        Position::H7
    } else if i == 16 {
        Position::A6
    } else if i == 17 {
        Position::B6
    } else if i == 18 {
        Position::C6
    } else if i == 19 {
        Position::D6
    } else if i == 20 {
        Position::E6
    } else if i == 21 {
        Position::F6
    } else if i == 22 {
        Position::G6
    } else if i == 23 {
        Position::H6
    } else if i == 24 {
        Position::A5
    } else if i == 25 {
        Position::B5
    } else if i == 26 {
        Position::C5
    } else if i == 27 {
        Position::D5
    } else if i == 28 {
        Position::E5
    } else if i == 29 {
        Position::F5
    } else if i == 30 {
        Position::G5
    } else if i == 31 {
        Position::H5
    } else if i == 32 {
        Position::A4
    } else if i == 33 {
        Position::B4
    } else if i == 34 {
        Position::C4
    } else if i == 35 {
        Position::D4
    } else if i == 36 {
        Position::E4
    } else if i == 37 {
        Position::F4
    } else if i == 38 {
        Position::G4
    } else if i == 39 {
        Position::H4
    } else if i == 40 {
        Position::A3
    } else if i == 41 {
        Position::B3
    } else if i == 42 {
        Position::C3
    } else if i == 43 {
        Position::D3
    } else if i == 44 {
        Position::E3
    } else if i == 45 {
        Position::F3
    } else if i == 46 {
        Position::G3
    } else if i == 47 {
        Position::H3
    } else if i == 48 {
        Position::A2
    } else if i == 49 {
        Position::B2
    } else if i == 50 {
        Position::C2
    } else if i == 51 {
        Position::D2
    } else if i == 52 {
        Position::E2
    } else if i == 53 {
        Position::F2
    } else if i == 54 {
        Position::G2
    } else if i == 55 {
        Position::H2
    } else if i == 56 {
        Position::A1
    } else if i == 57 {
        Position::B1
    } else if i == 58 {
        Position::C1
    } else if i == 59 {
        Position::D1
    } else if i == 60 {
        Position::E1
    } else if i == 61 {
        Position::F1
    } else if i == 62 {
        Position::G1
    } else {
        Position::H1
    }
}

/// A square is recovered from its own index.
pub proof fn lemma_pos_of_idx(p: Position)
    ensures
        pos_of(p.idx()) == p,
{
}

/// Distinct squares have distinct indices.
pub proof fn lemma_pos_inj(a: Position, b: Position)
    requires
        a.idx() == b.idx(),
    ensures
        a == b,
{
    lemma_pos_of_idx(a);
    lemma_pos_of_idx(b);
}

} // verus!

verus! {

/// The index of the square with a given index.
pub proof fn lemma_idx_of_pos(i: int)
    requires
        0 <= i < 64,
    ensures
        pos_of(i).idx() == i,
{
}

} // verus!
