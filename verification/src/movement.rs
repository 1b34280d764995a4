use vstd::prelude::*;

use crate::error::Error;
use crate::pieces::{spec_decode_nibble, Piece};
use crate::position::Position;

verus! {

/// A move in flight: the piece together with where it goes.
#[derive(Debug, Clone, Copy, PartialEq, Eq, Structural)]
pub struct Detail {
    pub piece: Piece,
    pub source: Position,
    pub target: Position,
}

/// A move packed into 32 bits. From the highest bit down: twelve trait
/// flags, the moving piece nibble, six bits of source square, six bits
/// of target square, and the captured piece nibble, zero for none.
#[derive(Debug, Clone, Copy, PartialEq, Eq, Structural)]
pub struct Move(pub u32);

/// The trait-flag field of a packed move word.
pub open spec fn w_traits(w: u32) -> u32 {
    (w >> 20) & 0xFFF
}

/// The moving-piece nibble of a packed move word.
pub open spec fn w_piece(w: u32) -> u32 {
    (w >> 16) & 0xF
}

/// The source-square field of a packed move word.
pub open spec fn w_source(w: u32) -> u32 {
    (w >> 10) & 0x3F
}

/// The target-square field of a packed move word.
pub open spec fn w_target(w: u32) -> u32 {
    (w >> 4) & 0x3F
}

/// The captured-piece nibble of a packed move word.
pub open spec fn w_capture(w: u32) -> u32 {
    w & 0xF
}

/// Whether a packed move word carries the given trait flag.
pub open spec fn has_trait(w: u32, t: MoveTrait) -> bool {
    w_traits(w) & (t.spec_bit() as u32) != 0
}

/// A packed move word is well formed when both piece nibbles decode,
/// exactly one of the flags `Quiet`, `Capture`, `Castle` and `Enpassant`
/// is set, and a castle captures nothing.
pub open spec fn move_wf(w: u32) -> bool {
    &&& spec_decode_nibble(w_piece(w) as u8) is Some
    &&& spec_decode_nibble(w_capture(w) as u8) is Some
    &&& (if has_trait(w, MoveTrait::Quiet) {
        1int
    } else {
        0int
    }) + (if has_trait(w, MoveTrait::Capture) {
        1int
    } else {
        0int
    }) + (if has_trait(w, MoveTrait::Castle) {
        1int
    } else {
        0int
    }) + (if has_trait(w, MoveTrait::Enpassant) {
        1int
    } else {
        0int
    }) == 1
    &&& (has_trait(w, MoveTrait::Castle) ==> w_capture(w) == 0)
}

/// The semantic flags a move can carry.
#[derive(Debug, Clone, Copy, PartialEq, Eq, Structural)]
pub enum MoveTrait {
    Quiet,
    Capture,
    Check,
    Promotion,
    Enpassant,
    Castle,
}

impl MoveTrait {
    pub open spec fn spec_bit(self) -> u16 {
        match self {
            MoveTrait::Quiet => 1,
            MoveTrait::Capture => 2,
            MoveTrait::Check => 4,
            MoveTrait::Promotion => 8,
            MoveTrait::Enpassant => 16,
            MoveTrait::Castle => 32,
        }
    }

    /// The flag's bit inside the trait field.
    pub fn bit(self) -> (r: u16)
        ensures
            r == self.spec_bit(),
    {
        match self {
            MoveTrait::Quiet => 1,
            MoveTrait::Capture => 2,
            MoveTrait::Check => 4,
            MoveTrait::Promotion => 8,
            MoveTrait::Enpassant => 16,
            MoveTrait::Castle => 32,
        }
    }
}

/// The union of the bits of a list of trait flags.
pub open spec fn traits_fold(s: Seq<MoveTrait>) -> u16
    decreases s.len(),
{
    if s.len() == 0 {
        0
    } else {
        traits_fold(s.drop_last()) | s.last().spec_bit()
    }
}

impl Move {
    /// Replace the trait field wholesale with the union of the given flags.
    pub fn with_traits(&mut self, move_traits: &[MoveTrait])
        ensures
            final(self).0 == (old(self).0 & !(0xFFFu32 << 20)) | ((traits_fold(move_traits@)
                as u32) << 20),
    {
        let flags = fold_trait_bits(move_traits);
        self.0 = (self.0 & !(0xFFFu32 << 20)) | ((flags as u32) << 20);
    }
}

/// The union of the bits of a slice of trait flags.
pub fn fold_trait_bits(move_traits: &[MoveTrait]) -> (r: u16)
    ensures
        r == traits_fold(move_traits@),
{
    let mut acc: u16 = 0;
    let mut i: usize = 0;
    while i < move_traits.len()
        invariant
            i <= move_traits.len(),
            acc == traits_fold(move_traits@.take(i as int)),
        decreases move_traits.len() - i,
    {
        proof {
            assert(move_traits@.take(i + 1).drop_last() =~= move_traits@.take(i as int));
        }
        acc = acc | move_traits[i].bit();
        i = i + 1;
    }
    proof {
        assert(move_traits@.take(move_traits@.len() as int) =~= move_traits@);
    }
    acc
}

/// The flags carried by a move, in the fixed order of the declaration.
pub open spec fn spec_traits_list(w: u32) -> Seq<MoveTrait> {
    (if has_trait(w, MoveTrait::Quiet) {
        seq![MoveTrait::Quiet]
    } else {
        Seq::empty()
    }) + (if has_trait(w, MoveTrait::Capture) {
        seq![MoveTrait::Capture]
    } else {
        Seq::empty()
    }) + (if has_trait(w, MoveTrait::Check) {
        seq![MoveTrait::Check]
    } else {
        Seq::empty()
    }) + (if has_trait(w, MoveTrait::Promotion) {
        seq![MoveTrait::Promotion]
    } else {
        Seq::empty()
    }) + (if has_trait(w, MoveTrait::Enpassant) {
        seq![MoveTrait::Enpassant]
    } else {
        Seq::empty()
    }) + (if has_trait(w, MoveTrait::Castle) {
        seq![MoveTrait::Castle]
    } else {
        Seq::empty()
    })
}

/// The flags set on a move.
pub fn traits(action: Move) -> (r: Vec<MoveTrait>)
    ensures
        r@ == spec_traits_list(action.0),
{
    let t = (action.0 >> 20) & 0xFFF;
    let mut v: Vec<MoveTrait> = Vec::new();
    if t & 1 != 0 {
        v.push(MoveTrait::Quiet);
    }
    if t & 2 != 0 {
        v.push(MoveTrait::Capture);
    }
    if t & 4 != 0 {
        v.push(MoveTrait::Check);
    }
    if t & 8 != 0 {
        v.push(MoveTrait::Promotion);
    }
    if t & 16 != 0 {
        v.push(MoveTrait::Enpassant);
    }
    if t & 32 != 0 {
        v.push(MoveTrait::Castle);
    }
    proof {
        assert(v@ =~= spec_traits_list(action.0));
    }
    v
}

/// The moving piece of a move, or nothing where the piece field is empty.
pub fn piece(action: Move) -> (r: Result<Option<Piece>, Error>)
    ensures
        (match r {
            Ok(opt) => spec_decode_nibble(w_piece(action.0) as u8) == Some(opt),
            Err(_) => spec_decode_nibble(w_piece(action.0) as u8) is None,
        }),
{
    crate::pieces::try_from_u8(((action.0 >> 16) & 0xF) as u8)
}

/// The source square of a move.
pub fn source(action: Move) -> (r: Position)
    ensures
        r.idx() == w_source(action.0),
{
    let v = ((action.0 >> 10) & 0x3F) as u8;
    proof {
        crate::bits::lemma_field_bounds(action.0, 10);
    }
    match Position::from_u8(v) {
        Some(p) => p,
        None => {
            proof {
                assert(false);
            }
            Position::A8
        },
    }
}

/// The target square of a move.
pub fn target(action: Move) -> (r: Position)
    ensures
        r.idx() == w_target(action.0),
{
    let v = ((action.0 >> 4) & 0x3F) as u8;
    proof {
        crate::bits::lemma_field_bounds(action.0, 4);
    }
    match Position::from_u8(v) {
        Some(p) => p,
        None => {
            proof {
                assert(false);
            }
            Position::A8
        },
    }
}

/// The captured piece of a move, or nothing where no capture is recorded.
pub fn capture(action: Move) -> (r: Result<Option<Piece>, Error>)
    ensures
        (match r {
            Ok(opt) => spec_decode_nibble(w_capture(action.0) as u8) == Some(opt),
            Err(_) => spec_decode_nibble(w_capture(action.0) as u8) is None,
        }),
{
    crate::pieces::try_from_u8((action.0 & 0xF) as u8)
}

/// Builds a packed move word field by field, starting from zero.
#[derive(Debug, Clone, Copy, PartialEq, Eq, Structural)]
pub struct MoveBuilder(pub u32);

impl MoveBuilder {
    pub fn new() -> (r: Self)
        ensures
            r.0 == 0,
    {
        Self(0)
    }

    /// Replace the trait field with the union of the given flags.
    pub fn set_traits(self, move_traits: &[MoveTrait]) -> (r: Self)
        ensures
            r.0 == (self.0 & !(0xFFFu32 << 20)) | ((traits_fold(move_traits@) as u32) << 20),
    {
        let flags = fold_trait_bits(move_traits);
        Self((self.0 & !(0xFFFu32 << 20)) | ((flags as u32) << 20))
    }

    /// Record the moving piece.
    pub fn set_piece(self, piece: Piece) -> (r: Self)
        ensures
            r.0 == self.0 | ((piece.nibble() as u32) << 16),
    {
        Self(self.0 | ((piece.code() as u32) << 16))
    }

    /// Record the source square.
    pub fn set_source(self, src: Position) -> (r: Self)
        ensures
            r.0 == self.0 | ((src.idx() as u32) << 10),
    {
        Self(self.0 | ((src.index() as u32) << 10))
    }

    /// Record the target square.
    pub fn set_target(self, trgt: Position) -> (r: Self)
        ensures
            r.0 == self.0 | ((trgt.idx() as u32) << 4),
    {
        Self(self.0 | ((trgt.index() as u32) << 4))
    }

    /// Record the captured piece.
    pub fn captures(self, captures: Piece) -> (r: Self)
        ensures
            r.0 == self.0 | (captures.nibble() as u32),
    {
        Self(self.0 | (captures.code() as u32))
    }

    pub fn build(self) -> (r: Move)
        ensures
            r.0 == self.0,
    {
        Move(self.0)
    }
}

} // verus!
