use vstd::prelude::*;

use crate::bitboard::Bitboard;
use crate::material_layer::MaterialLayer;

verus! {

/// The union of each side's material, White at index 0.
#[derive(Debug, Clone, Copy, PartialEq, Eq)]
pub struct OccupancyLayer(pub [Bitboard; 2]);

impl OccupancyLayer {
    /// The occupancies of the starting position: the two lowest and the
    /// two highest ranks.
    pub fn new() -> (r: Self)
        ensures
            r.0@[0].0 == 0xFFFF000000000000u64,
            r.0@[1].0 == 0x000000000000FFFFu64,
    {
        OccupancyLayer([Bitboard(0xFFFF000000000000), Bitboard(0x000000000000FFFF)])
    }
}

/// All occupied squares, of either colour.
pub fn get_both(occ: &OccupancyLayer) -> (r: Bitboard)
    ensures
        r.0 == occ.0@[0].0 | occ.0@[1].0,
{
    Bitboard(occ.0[0].0 | occ.0[1].0)
}

/// What the White occupancy of a material table is.
pub open spec fn white_union(m: MaterialLayer) -> u64 {
    m.0@[0].0 | m.0@[1].0 | m.0@[2].0 | m.0@[3].0 | m.0@[4].0 | m.0@[5].0
}

/// What the Black occupancy of a material table is.
pub open spec fn black_union(m: MaterialLayer) -> u64 {
    m.0@[6].0 | m.0@[7].0 | m.0@[8].0 | m.0@[9].0 | m.0@[10].0 | m.0@[11].0
}

/// Rebuild both occupancies from the material.
pub fn generate_occ(mat_layer: MaterialLayer) -> (r: OccupancyLayer)
    ensures
        r.0@[0].0 == white_union(mat_layer),
        r.0@[1].0 == black_union(mat_layer),
{
    OccupancyLayer(
        [
            Bitboard(
                mat_layer.0[0].0 | mat_layer.0[1].0 | mat_layer.0[2].0 | mat_layer.0[3].0
                    | mat_layer.0[4].0 | mat_layer.0[5].0,
            ),
            Bitboard(
                mat_layer.0[6].0 | mat_layer.0[7].0 | mat_layer.0[8].0 | mat_layer.0[9].0
                    | mat_layer.0[10].0 | mat_layer.0[11].0,
            ),
        ],
    )
}

} // verus!
