use vstd::prelude::*;

use crate::castling::{spec_rights_list, Castling, CastlingRights};
use crate::error::Error;
use crate::movement::Move;
use crate::pieces::{spec_decode_nibble, Piece};
use crate::position::Position;

verus! {

/// What a move changed, packed so the move can be reversed. The first
/// word holds, from the highest bit down: the en-passant square that was
/// set before the move (six bits), a flag saying whether one was set,
/// the promotion flag, the castling rights the move took away, and then
/// the same piece, source, target and capture fields as a move word.
/// The second word is the half-move clock before the move, which the
/// packed word has no room to carry.
#[derive(Debug, Clone, Copy, PartialEq, Eq, Structural)]
pub struct Delta(pub u32, pub u32);

/// The prior-en-passant-square field of a packed delta word.
pub open spec fn d_ep_square(w: u32) -> u32 {
    (w >> 26) & 0x3F
}

/// Whether an en-passant square was set before the move.
pub open spec fn d_ep_flag(w: u32) -> bool {
    (w >> 25) & 1 == 1
}

/// Whether the move promoted a pawn.
pub open spec fn d_promotion(w: u32) -> bool {
    (w >> 24) & 1 == 1
}

/// The castling rights the move took away.
pub open spec fn d_castling(w: u32) -> u32 {
    (w >> 20) & 0xF
}

/// The moving-piece nibble of a packed delta word.
pub open spec fn d_piece(w: u32) -> u32 {
    (w >> 16) & 0xF
}

/// The source-square field of a packed delta word.
pub open spec fn d_source(w: u32) -> u32 {
    (w >> 10) & 0x3F
}

/// The target-square field of a packed delta word.
pub open spec fn d_target(w: u32) -> u32 {
    (w >> 4) & 0x3F
}

/// The captured-piece nibble of a packed delta word.
pub open spec fn d_capture(w: u32) -> u32 {
    w & 0xF
}

/// Whether an en-passant square was set before the move was applied.
pub fn is_en_passant(delta: Delta) -> (r: bool)
    ensures
        r == d_ep_flag(delta.0),
{
    (delta.0 >> 25) & 1 == 1
}

/// Whether the move promoted a pawn.
pub fn is_promotion(delta: Delta) -> (r: bool)
    ensures
        r == d_promotion(delta.0),
{
    (delta.0 >> 24) & 1 == 1
}

/// The en-passant square that was set before the move, if one was.
pub fn ep_square_before(delta: Delta) -> (r: Option<Position>)
    ensures
        (match r {
            Some(p) => d_ep_flag(delta.0) && p.idx() == d_ep_square(delta.0),
            None => !d_ep_flag(delta.0),
        }),
{
    if (delta.0 >> 25) & 1 == 1 {
        let v = ((delta.0 >> 26) & 0x3F) as u8;
        proof {
            crate::bits::lemma_field_bounds(delta.0, 26);
        }
        match Position::from_u8(v) {
            Some(p) => Some(p),
            None => {
                proof {
                    assert(false);
                }
                None
            },
        }
    } else {
        None
    }
}

/// The castling permissions the move took away.
pub fn castling(delta: Delta) -> (r: Vec<Castling>)
    ensures
        r@ == spec_rights_list(d_castling(delta.0) as u8),
{
    proof {
        crate::bits::lemma_field_bounds(delta.0, 20);
    }
    crate::castling::castling_rights_from_bits(CastlingRights(((delta.0 >> 20) & 0xF) as u8))
}

/// The piece that moved, or nothing where the field is empty.
pub fn moved_piece(delta: Delta) -> (r: Result<Option<Piece>, Error>)
    ensures
        (match r {
            Ok(opt) => spec_decode_nibble(d_piece(delta.0) as u8) == Some(opt),
            Err(_) => spec_decode_nibble(d_piece(delta.0) as u8) is None,
        }),
{
    crate::pieces::try_from_u8(((delta.0 >> 16) & 0xF) as u8)
}

/// The source square of the recorded move.
pub fn source(delta: Delta) -> (r: Position)
    ensures
        r.idx() == d_source(delta.0),
{
    let v = ((delta.0 >> 10) & 0x3F) as u8;
    proof {
        crate::bits::lemma_field_bounds(delta.0, 10);
    }
    match Position::from_u8(v) {
        Some(p) => p,
        None => {
            proof {
                assert(false);
            }
            Position::A8
        },
    }
}

/// The target square of the recorded move.
pub fn target(delta: Delta) -> (r: Position)
    ensures
        r.idx() == d_target(delta.0),
{
    let v = ((delta.0 >> 4) & 0x3F) as u8;
    proof {
        crate::bits::lemma_field_bounds(delta.0, 4);
    }
    match Position::from_u8(v) {
        Some(p) => p,
        None => {
            proof {
                assert(false);
            }
            Position::A8
        },
    }
}

/// The captured piece, or nothing where no capture was recorded.
pub fn captured(delta: Delta) -> (r: Result<Option<Piece>, Error>)
    ensures
        (match r {
            Ok(opt) => spec_decode_nibble(d_capture(delta.0) as u8) == Some(opt),
            Err(_) => spec_decode_nibble(d_capture(delta.0) as u8) is None,
        }),
{
    crate::pieces::try_from_u8((delta.0 & 0xF) as u8)
}

/// Builds a packed delta field by field: the packed word first, the
/// saved half-move clock second.
#[derive(Debug, Clone, Copy, PartialEq, Eq, Structural)]
pub struct DeltaBuilder(pub u32, pub u32);

impl DeltaBuilder {
    pub fn new() -> (r: Self)
        ensures
            r.0 == 0 && r.1 == 0,
    {
        Self(0, 0)
    }

    /// Record whether an en-passant square was set before the move.
    pub fn en_passant(self, enpassant: bool) -> (r: Self)
        ensures
            r.0 == self.0 | ((if enpassant {
                1u32
            } else {
                0u32
            }) << 25),
            r.1 == self.1,
    {
        Self(self.0 | ((if enpassant {
            1u32
        } else {
            0u32
        }) << 25), self.1)
    }

    /// Record the en-passant square that was set before the move.
    pub fn ep_square(self, sq: Position) -> (r: Self)
        ensures
            r.0 == self.0 | ((sq.idx() as u32) << 26),
            r.1 == self.1,
    {
        Self(self.0 | ((sq.index() as u32) << 26), self.1)
    }

    /// Record whether the move promoted a pawn.
    pub fn promotion(self, promotion: bool) -> (r: Self)
        ensures
            r.0 == self.0 | ((if promotion {
                1u32
            } else {
                0u32
            }) << 24),
            r.1 == self.1,
    {
        Self(self.0 | ((if promotion {
            1u32
        } else {
            0u32
        }) << 24), self.1)
    }

    /// Record the castling rights the move took away.
    pub fn castling(self, castling: CastlingRights) -> (r: Self)
        ensures
            r.0 == self.0 | (((castling.0 & 0xF) as u32) << 20),
            r.1 == self.1,
    {
        Self(self.0 | (((castling.0 & 0xF) as u32) << 20), self.1)
    }

    /// Copy the piece, source, target and capture fields of a move word,
    /// which sit at the same places in the delta word.
    pub fn set_movement_from_move(self, mv: Move) -> (r: Self)
        ensures
            r.0 == (self.0 & !0x000FFFFFu32) | (mv.0 & 0x000FFFFFu32),
            r.1 == self.1,
    {
        Self((self.0 & !0x000FFFFFu32) | (mv.0 & 0x000FFFFFu32), self.1)
    }

    /// Record the moving piece.
    pub fn set_piece(self, piece: Piece) -> (r: Self)
        ensures
            r.0 == self.0 | ((piece.nibble() as u32) << 16),
            r.1 == self.1,
    {
        Self(self.0 | ((piece.code() as u32) << 16), self.1)
    }

    /// Record the source square.
    pub fn set_source(self, src: Position) -> (r: Self)
        ensures
            r.0 == self.0 | ((src.idx() as u32) << 10),
            r.1 == self.1,
    {
        Self(self.0 | ((src.index() as u32) << 10), self.1)
    }

    /// Record the target square.
    pub fn set_target(self, trgt: Position) -> (r: Self)
        ensures
            r.0 == self.0 | ((trgt.idx() as u32) << 4),
            r.1 == self.1,
    {
        Self(self.0 | ((trgt.index() as u32) << 4), self.1)
    }

    /// Record the captured piece.
    pub fn captures(self, captures: Piece) -> (r: Self)
        ensures
            r.0 == self.0 | (captures.nibble() as u32),
            r.1 == self.1,
    {
        Self(self.0 | (captures.code() as u32), self.1)
    }

    /// Record the half-move clock before the move.
    pub fn half_moves(self, clock: u32) -> (r: Self)
        ensures
            r.0 == self.0,
            r.1 == clock,
    {
        Self(self.0, clock)
    }

    pub fn build(self) -> (r: Delta)
        ensures
            r.0 == self.0,
            r.1 == self.1,
    {
        Delta(self.0, self.1)
    }
}

} // verus!
