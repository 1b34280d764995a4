use vstd::prelude::*;

use crate::bitboard::Bitboard;

verus! {

/// One bitboard per piece: the six White pieces first, pawns before
/// knights, bishops, rooks, queens and the king, then Black in the
/// same order.
#[derive(Debug, Clone, Copy, PartialEq, Eq)]
pub struct MaterialLayer(pub [Bitboard; 12]);

impl MaterialLayer {
    /// The material of the starting position.
    pub open spec fn spec_start() -> MaterialLayer {
        MaterialLayer(
            [
                Bitboard(0x00FF000000000000),
                Bitboard(0x4200000000000000),
                Bitboard(0x2400000000000000),
                Bitboard(0x8100000000000000),
                Bitboard(0x0800000000000000),
                Bitboard(0x1000000000000000),
                Bitboard(0x000000000000FF00),
                Bitboard(0x0000000000000042),
                Bitboard(0x0000000000000024),
                Bitboard(0x0000000000000081),
                Bitboard(0x0000000000000008),
                Bitboard(0x0000000000000010),
            ],
        )
    }


    /// The material of the starting position.
    pub fn new() -> (r: Self)
        ensures
            r.0@[0].0 == 0x00FF000000000000u64,
            r.0@[1].0 == 0x4200000000000000u64,
            r.0@[2].0 == 0x2400000000000000u64,
            r.0@[3].0 == 0x8100000000000000u64,
            r.0@[4].0 == 0x0800000000000000u64,
            r.0@[5].0 == 0x1000000000000000u64,
            r.0@[6].0 == 0x000000000000FF00u64,
            r.0@[7].0 == 0x0000000000000042u64,
            r.0@[8].0 == 0x0000000000000024u64,
            r.0@[9].0 == 0x0000000000000081u64,
            r.0@[10].0 == 0x0000000000000008u64,
            r.0@[11].0 == 0x0000000000000010u64,
    {
        MaterialLayer(
            [
                Bitboard(0x00FF000000000000),
                Bitboard(0x4200000000000000),
                Bitboard(0x2400000000000000),
                Bitboard(0x8100000000000000),
                Bitboard(0x0800000000000000),
                Bitboard(0x1000000000000000),
                Bitboard(0x000000000000FF00),
                Bitboard(0x0000000000000042),
                Bitboard(0x0000000000000024),
                Bitboard(0x0000000000000081),
                Bitboard(0x0000000000000008),
                Bitboard(0x0000000000000010),
            ],
        )
    }
}

} // verus!
