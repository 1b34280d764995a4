use vstd::prelude::*;

use crate::colour::Colour;
use crate::error::Error;

verus! {

/// The six kinds of chess piece.
#[derive(Debug, Clone, Copy, PartialEq, Eq, Structural)]
pub enum Kind {
    Bishop,
    King,
    Knight,
    Pawn,
    Queen,
    Rook,
}

impl Kind {
    /// The ordinal used inside material-table indices: pawns first, king last.
    pub open spec fn ord(self) -> int {
        match self {
            Kind::Pawn => 0,
            Kind::Knight => 1,
            Kind::Bishop => 2,
            Kind::Rook => 3,
            Kind::Queen => 4,
            Kind::King => 5,
        }
    }

    /// The non-zero identifier used inside packed move and delta words.
    pub open spec fn id(self) -> int {
        self.ord() + 1
    }
}

/// A coloured piece.
#[derive(Debug, Clone, Copy, PartialEq, Eq, Structural)]
pub struct Piece(pub Colour, pub Kind);

impl Piece {
    /// The index of the piece's bitboard in the material table, in 0..12:
    /// the six White pieces first.
    pub open spec fn idx(self) -> int {
        self.0.idx() * 6 + self.1.ord()
    }

    /// The 4-bit encoding used inside packed move and delta words:
    /// bit 3 is the colour, bits 0..3 the kind identifier. Zero is
    /// reserved for "no piece".
    pub open spec fn nibble(self) -> u8 {
        match self {
            Piece(Colour::White, Kind::Pawn) => 1,
            Piece(Colour::White, Kind::Knight) => 2,
            Piece(Colour::White, Kind::Bishop) => 3,
            Piece(Colour::White, Kind::Rook) => 4,
            Piece(Colour::White, Kind::Queen) => 5,
            Piece(Colour::White, Kind::King) => 6,
            Piece(Colour::Black, Kind::Pawn) => 9,
            Piece(Colour::Black, Kind::Knight) => 10,
            Piece(Colour::Black, Kind::Bishop) => 11,
            Piece(Colour::Black, Kind::Rook) => 12,
            Piece(Colour::Black, Kind::Queen) => 13,
            Piece(Colour::Black, Kind::King) => 14,
        }
    }

    /// The material-table index as a machine integer.
    pub fn index(&self) -> (r: usize)
        ensures
            r as int == self.idx(),
            r < 12,
    {
        self.0.index() * 6 + kind_ord(self.1)
    }

    /// The packed 4-bit encoding as a machine integer. Decoding the
    /// encoding gives the piece back.
    pub fn code(&self) -> (r: u8)
        ensures
            r == self.nibble(),
            0 < r < 16,
            spec_decode_nibble(r) == Some(Some(*self)),
    {
        proof {
            lemma_nibble_facts();
        }
        match *self {
            Piece(Colour::White, Kind::Pawn) => 1,
            Piece(Colour::White, Kind::Knight) => 2,
            Piece(Colour::White, Kind::Bishop) => 3,
            Piece(Colour::White, Kind::Rook) => 4,
            Piece(Colour::White, Kind::Queen) => 5,
            Piece(Colour::White, Kind::King) => 6,
            Piece(Colour::Black, Kind::Pawn) => 9,
            Piece(Colour::Black, Kind::Knight) => 10,
            Piece(Colour::Black, Kind::Bishop) => 11,
            Piece(Colour::Black, Kind::Rook) => 12,
            Piece(Colour::Black, Kind::Queen) => 13,
            Piece(Colour::Black, Kind::King) => 14,
        }
    }
}

/// How each piece nibble splits into its colour bit and kind identifier.
pub proof fn lemma_nibble_facts()
    by (bit_vector)
    ensures
        forall|v: u8| 0 < v < 16 ==> (#[trigger] (v & 0x7)) == v % 8,
        forall|v: u8| 0 < v < 16 ==> (#[trigger] ((v >> 3) & 1)) == v / 8,
{
}

/// The kind ordinal as a machine integer.
pub fn kind_ord(kind: Kind) -> (r: usize)
    ensures
        r as int == kind.ord(),
        r < 6,
{
    match kind {
        Kind::Pawn => 0,
        Kind::Knight => 1,
        Kind::Bishop => 2,
        Kind::Rook => 3,
        Kind::Queen => 4,
        Kind::King => 5,
    }
}

/// Pair a bare colour with a kind.
pub fn from_colour_kind(colour: &Colour, kind: Kind) -> (r: Piece)
    ensures
        r == Piece(*colour, kind),
{
    Piece(*colour, kind)
}

/// The kind of a piece.
pub fn get_kind(piece: &Piece) -> (r: Kind)
    ensures
        r == piece.1,
{
    piece.1
}

/// The colour of a piece.
pub fn get_colour(piece: &Piece) -> (r: Colour)
    ensures
        r == piece.0,
{
    piece.0
}

/// What a packed 4-bit field decodes to, when it does: bits above the
/// nibble are ignored, zero means "no piece", and kind identifiers
/// 0 and 7 inside a non-zero value name nothing.
pub open spec fn spec_decode_nibble(value: u8) -> Option<Option<Piece>> {
    if value == 0 {
        Some(None)
    } else if value & 0x7 == 0 || value & 0x7 == 7 {
        None
    } else {
        Some(Some(spec_piece_of_bits(value)))
    }
}

pub open spec fn spec_kind_of_id(id: int) -> Kind {
    if id == 1 {
        Kind::Pawn
    } else if id == 2 {
        Kind::Knight
    } else if id == 3 {
        Kind::Bishop
    } else if id == 4 {
        Kind::Rook
    } else if id == 5 {
        Kind::Queen
    } else {
        Kind::King
    }
}

pub open spec fn spec_piece_of_bits(value: u8) -> Piece {
    Piece(
        if (value >> 3) & 1 == 1 {
            Colour::Black
        } else {
            Colour::White
        },
        spec_kind_of_id((value & 0x7) as int),
    )
}

/// Decode the packed 4-bit piece field of a move or delta word.
pub fn try_from_u8(value: u8) -> (r: Result<Option<Piece>, Error>)
    ensures
        (match r {
            Ok(opt) => spec_decode_nibble(value) == Some(opt),
            Err(e) => spec_decode_nibble(value) is None && e == (Error::Encode { value }),
        }),
{
    if value == 0 {
        return Ok(None);
    }
    proof {
        assert(value & 0x7 < 8) by (bit_vector);
    }
    let kind_id = value & 0x7;
    let colour_flag = (value >> 3) & 0x1;

    let kind = match kind_id {
        1 => Kind::Pawn,
        2 => Kind::Knight,
        3 => Kind::Bishop,
        4 => Kind::Rook,
        5 => Kind::Queen,
        6 => Kind::King,
        _ => {
            return Err(Error::Encode { value });
        },
    };

    let colour = if colour_flag == 1 {
        Colour::Black
    } else {
        Colour::White
    };

    Ok(Some(Piece(colour, kind)))
}

/// The piece a FEN letter names, if any.
pub fn piece_from_ascii(b: u8) -> (r: Option<Piece>)
    ensures
        r == spec_piece_from_ascii(b),
{
    match b {
        80u8 => Some(Piece(Colour::White, Kind::Pawn)),
        78u8 => Some(Piece(Colour::White, Kind::Knight)),
        66u8 => Some(Piece(Colour::White, Kind::Bishop)),
        82u8 => Some(Piece(Colour::White, Kind::Rook)),
        81u8 => Some(Piece(Colour::White, Kind::Queen)),
        75u8 => Some(Piece(Colour::White, Kind::King)),
        112u8 => Some(Piece(Colour::Black, Kind::Pawn)),
        110u8 => Some(Piece(Colour::Black, Kind::Knight)),
        98u8 => Some(Piece(Colour::Black, Kind::Bishop)),
        114u8 => Some(Piece(Colour::Black, Kind::Rook)),
        113u8 => Some(Piece(Colour::Black, Kind::Queen)),
        107u8 => Some(Piece(Colour::Black, Kind::King)),
        _ => None,
    }
}

pub open spec fn spec_piece_from_ascii(b: u8) -> Option<Piece> {
    if b == 80 {
        Some(Piece(Colour::White, Kind::Pawn))
    } else if b == 78 {
        Some(Piece(Colour::White, Kind::Knight))
    } else if b == 66 {
        Some(Piece(Colour::White, Kind::Bishop))
    } else if b == 82 {
        Some(Piece(Colour::White, Kind::Rook))
    } else if b == 81 {
        Some(Piece(Colour::White, Kind::Queen))
    } else if b == 75 {
        Some(Piece(Colour::White, Kind::King))
    } else if b == 112 {
        Some(Piece(Colour::Black, Kind::Pawn))
    } else if b == 110 {
        Some(Piece(Colour::Black, Kind::Knight))
    } else if b == 98 {
        Some(Piece(Colour::Black, Kind::Bishop))
    } else if b == 114 {
        Some(Piece(Colour::Black, Kind::Rook))
    } else if b == 113 {
        Some(Piece(Colour::Black, Kind::Queen))
    } else if b == 107 {
        Some(Piece(Colour::Black, Kind::King))
    } else {
        None
    }
}

/// The FEN letter of a piece: upper case for White, lower case for Black.
pub fn ascii_of_piece(p: &Piece) -> (r: u8)
    ensures
        r == spec_ascii_of_piece(*p),
        spec_piece_from_ascii(r) == Some(*p),
        r < 128,
{
    match *p {
        Piece(Colour::White, Kind::Pawn) => 80,
        Piece(Colour::White, Kind::Knight) => 78,
        Piece(Colour::White, Kind::Bishop) => 66,
        Piece(Colour::White, Kind::Rook) => 82,
        Piece(Colour::White, Kind::Queen) => 81,
        Piece(Colour::White, Kind::King) => 75,
        Piece(Colour::Black, Kind::Pawn) => 112,
        Piece(Colour::Black, Kind::Knight) => 110,
        Piece(Colour::Black, Kind::Bishop) => 98,
        Piece(Colour::Black, Kind::Rook) => 114,
        Piece(Colour::Black, Kind::Queen) => 113,
        Piece(Colour::Black, Kind::King) => 107,
    }
}

pub open spec fn spec_ascii_of_piece(p: Piece) -> u8 {
    match p {
        Piece(Colour::White, Kind::Pawn) => 80,
        Piece(Colour::White, Kind::Knight) => 78,
        Piece(Colour::White, Kind::Bishop) => 66,
        Piece(Colour::White, Kind::Rook) => 82,
        Piece(Colour::White, Kind::Queen) => 81,
        Piece(Colour::White, Kind::King) => 75,
        Piece(Colour::Black, Kind::Pawn) => 112,
        Piece(Colour::Black, Kind::Knight) => 110,
        Piece(Colour::Black, Kind::Bishop) => 98,
        Piece(Colour::Black, Kind::Rook) => 114,
        Piece(Colour::Black, Kind::Queen) => 113,
        Piece(Colour::Black, Kind::King) => 107,
    }
}

} // verus!

verus! {

/// The colour that owns the given material-table index.
pub open spec fn idx_colour(pi: int) -> Colour {
    if pi < 6 {
        Colour::White
    } else {
        Colour::Black
    }
}

/// The kind stored at the given material-table index.
pub open spec fn idx_kind(pi: int) -> Kind {
    let k = if pi < 6 {
        pi
    } else {
        pi - 6
    };
    if k == 0 {
        Kind::Pawn
    } else if k == 1 {
        Kind::Knight
    } else if k == 2 {
        Kind::Bishop
    } else if k == 3 {
        Kind::Rook
    } else if k == 4 {
        Kind::Queen
    } else {
        Kind::King
    }
}

/// The piece a material-table index stands for.
pub fn piece_of_index(i: usize) -> (r: Piece)
    requires
        i < 12,
    ensures
        r.idx() == i,
        r.0 == idx_colour(i as int),
        r.1 == idx_kind(i as int),
        r == Piece(idx_colour(i as int), idx_kind(i as int)),
{
    let colour = if i < 6 {
        Colour::White
    } else {
        Colour::Black
    };
    let k = if i < 6 {
        i
    } else {
        i - 6
    };
    let kind = if k == 0 {
        Kind::Pawn
    } else if k == 1 {
        Kind::Knight
    } else if k == 2 {
        Kind::Bishop
    } else if k == 3 {
        Kind::Rook
    } else if k == 4 {
        Kind::Queen
    } else {
        Kind::King
    };
    Piece(colour, kind)
}

} // verus!

verus! {

/// A piece is recovered from its own material-table index.
pub proof fn lemma_piece_roundtrip(p: Piece)
    ensures
        p == Piece(idx_colour(p.idx()), idx_kind(p.idx())),
{
}

} // verus!

verus! {

/// Decoding a piece's own nibble gives the piece back.
pub proof fn lemma_nibble_decode(p: Piece)
    ensures
        spec_piece_of_bits(p.nibble()) == p,
        spec_decode_nibble(p.nibble()) == Some(Some(p)),
{
    lemma_nibble_facts();
}

} // verus!
