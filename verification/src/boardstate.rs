use vstd::prelude::*;

use crate::attack_generation::{bishop_rays, rook_rays};
use crate::attack_masks::{king_step, knight_jump, pawn_attack};
use crate::attack_tables::AttackTables;
use crate::bitboard::Bitboard;
use crate::bits::{bit, lemma_and_bits, lemma_eq_by_bits, lemma_or_bits, lemma_zero_bits};
use crate::castling::CastlingRights;
use crate::colour::Colour;
use crate::material_layer::MaterialLayer;
use crate::occupancy_layer::{black_union, get_both, white_union, OccupancyLayer};
use crate::pieces::{idx_colour, idx_kind, piece_of_index, Kind, Piece};
use crate::position::Position;

verus! {

/// The whole game state: material, occupancies, whose turn it is, the
/// en-passant square if any, castling rights and the two move counters.
#[derive(Debug, Clone, Copy, PartialEq)]
pub struct State {
    pub material_layer: MaterialLayer,
    pub occupancy_layer: OccupancyLayer,
    pub side_to_move: Colour,
    pub en_passant: Option<Position>,
    pub castling: CastlingRights,
    pub half_moves: u32,
    pub full_moves: u32,
}

impl State {
    /// What every position the library hands out satisfies: no square
    /// holds two pieces, each occupancy is the union of its side's
    /// material, the en-passant square sits on its only possible ranks,
    /// the castling mask fits in four bits, and the move number counts
    /// from one.
    pub open spec fn wf(self) -> bool {
        &&& (forall|i: int, j: int|
            0 <= i < j < 12 ==> (#[trigger] self.material_layer.0@[i].0) & (
            #[trigger] self.material_layer.0@[j].0) == 0)
        &&& self.occupancy_layer.0@[0].0 == white_union(self.material_layer)
        &&& self.occupancy_layer.0@[1].0 == black_union(self.material_layer)
        &&& (match self.en_passant {
            Some(e) => e.spec_rank() == 2 || e.spec_rank() == 5,
            None => true,
        })
        &&& self.castling.0 < 16
        &&& self.full_moves >= 1
    }

    /// The starting position's material, White to move, with no
    /// castling rights granted yet: the parser grants them.
    pub fn new() -> (r: Self)
        ensures
            r.wf(),
            r.material_layer == MaterialLayer::spec_start(),
            r.side_to_move == Colour::White,
            r.en_passant is None,
            r.castling.0 == 0,
            r.half_moves == 0,
            r.full_moves == 1,
    {
        let r = State {
            material_layer: MaterialLayer::new(),
            occupancy_layer: OccupancyLayer::new(),
            side_to_move: Colour::White,
            en_passant: None,
            castling: CastlingRights(0),
            half_moves: 0,
            full_moves: 1,
        };
        proof {
            assert(0x00FF000000000000u64 & 0x4200000000000000u64 == 0
                && 0x00FF000000000000u64 & 0x2400000000000000u64 == 0
                && 0x00FF000000000000u64 & 0x8100000000000000u64 == 0
                && 0x00FF000000000000u64 & 0x0800000000000000u64 == 0
                && 0x00FF000000000000u64 & 0x1000000000000000u64 == 0
                && 0x00FF000000000000u64 & 0x000000000000FF00u64 == 0
                && 0x00FF000000000000u64 & 0x0000000000000042u64 == 0
                && 0x00FF000000000000u64 & 0x0000000000000024u64 == 0
                && 0x00FF000000000000u64 & 0x0000000000000081u64 == 0
                && 0x00FF000000000000u64 & 0x0000000000000008u64 == 0
                && 0x00FF000000000000u64 & 0x0000000000000010u64 == 0
                && 0x4200000000000000u64 & 0x2400000000000000u64 == 0
                && 0x4200000000000000u64 & 0x8100000000000000u64 == 0
                && 0x4200000000000000u64 & 0x0800000000000000u64 == 0
                && 0x4200000000000000u64 & 0x1000000000000000u64 == 0
                && 0x4200000000000000u64 & 0x000000000000FF00u64 == 0
                && 0x4200000000000000u64 & 0x0000000000000042u64 == 0
                && 0x4200000000000000u64 & 0x0000000000000024u64 == 0
                && 0x4200000000000000u64 & 0x0000000000000081u64 == 0
                && 0x4200000000000000u64 & 0x0000000000000008u64 == 0
                && 0x4200000000000000u64 & 0x0000000000000010u64 == 0
                && 0x2400000000000000u64 & 0x8100000000000000u64 == 0
                && 0x2400000000000000u64 & 0x0800000000000000u64 == 0
                && 0x2400000000000000u64 & 0x1000000000000000u64 == 0
                && 0x2400000000000000u64 & 0x000000000000FF00u64 == 0
                && 0x2400000000000000u64 & 0x0000000000000042u64 == 0
                && 0x2400000000000000u64 & 0x0000000000000024u64 == 0
                && 0x2400000000000000u64 & 0x0000000000000081u64 == 0
                && 0x2400000000000000u64 & 0x0000000000000008u64 == 0
                && 0x2400000000000000u64 & 0x0000000000000010u64 == 0
                && 0x8100000000000000u64 & 0x0800000000000000u64 == 0
                && 0x8100000000000000u64 & 0x1000000000000000u64 == 0
                && 0x8100000000000000u64 & 0x000000000000FF00u64 == 0
                && 0x8100000000000000u64 & 0x0000000000000042u64 == 0
                && 0x8100000000000000u64 & 0x0000000000000024u64 == 0
                && 0x8100000000000000u64 & 0x0000000000000081u64 == 0
                && 0x8100000000000000u64 & 0x0000000000000008u64 == 0
                && 0x8100000000000000u64 & 0x0000000000000010u64 == 0
                && 0x0800000000000000u64 & 0x1000000000000000u64 == 0
                && 0x0800000000000000u64 & 0x000000000000FF00u64 == 0
                && 0x0800000000000000u64 & 0x0000000000000042u64 == 0
                && 0x0800000000000000u64 & 0x0000000000000024u64 == 0
                && 0x0800000000000000u64 & 0x0000000000000081u64 == 0
                && 0x0800000000000000u64 & 0x0000000000000008u64 == 0
                && 0x0800000000000000u64 & 0x0000000000000010u64 == 0
                && 0x1000000000000000u64 & 0x000000000000FF00u64 == 0
                && 0x1000000000000000u64 & 0x0000000000000042u64 == 0
                && 0x1000000000000000u64 & 0x0000000000000024u64 == 0
                && 0x1000000000000000u64 & 0x0000000000000081u64 == 0
                && 0x1000000000000000u64 & 0x0000000000000008u64 == 0
                && 0x1000000000000000u64 & 0x0000000000000010u64 == 0
                && 0x000000000000FF00u64 & 0x0000000000000042u64 == 0
                && 0x000000000000FF00u64 & 0x0000000000000024u64 == 0
                && 0x000000000000FF00u64 & 0x0000000000000081u64 == 0
                && 0x000000000000FF00u64 & 0x0000000000000008u64 == 0
                && 0x000000000000FF00u64 & 0x0000000000000010u64 == 0
                && 0x0000000000000042u64 & 0x0000000000000024u64 == 0
                && 0x0000000000000042u64 & 0x0000000000000081u64 == 0
                && 0x0000000000000042u64 & 0x0000000000000008u64 == 0
                && 0x0000000000000042u64 & 0x0000000000000010u64 == 0
                && 0x0000000000000024u64 & 0x0000000000000081u64 == 0
                && 0x0000000000000024u64 & 0x0000000000000008u64 == 0
                && 0x0000000000000024u64 & 0x0000000000000010u64 == 0
                && 0x0000000000000081u64 & 0x0000000000000008u64 == 0
                && 0x0000000000000081u64 & 0x0000000000000010u64 == 0
                && 0x0000000000000008u64 & 0x0000000000000010u64 == 0
                && (0x00FF000000000000u64 | 0x4200000000000000u64 | 0x2400000000000000u64 | 0x8100000000000000u64 | 0x0800000000000000u64 | 0x1000000000000000u64) == 0xFFFF000000000000u64
                && (0x000000000000FF00u64 | 0x0000000000000042u64 | 0x0000000000000024u64 | 0x0000000000000081u64 | 0x0000000000000008u64 | 0x0000000000000010u64) == 0x000000000000FFFFu64) by (bit_vector);
            assert forall|k: int| 0 <= k < 12 implies r.material_layer.0@[k]
                == MaterialLayer::spec_start().0@[k] by {
                assert(MaterialLayer::spec_start().0@[k].0 == r.material_layer.0@[k].0);
            }
            assert(r.material_layer.0 =~= MaterialLayer::spec_start().0);
        }
        r
    }
}

/// Whether a piece of colour `by` and kind `k` standing on `p` attacks
/// square `q` on this board.
pub open spec fn attacks_sq(s: State, by: Colour, k: Kind, p: int, q: int) -> bool {
    let occ = s.occupancy_layer.0@[0].0 | s.occupancy_layer.0@[1].0;
    match k {
        Kind::Pawn => pawn_attack(by, p, q),
        Kind::Knight => knight_jump(p, q),
        Kind::King => king_step(p, q),
        Kind::Bishop => bit(bishop_rays(occ, p), q),
        Kind::Rook => bit(rook_rays(occ, p), q),
        Kind::Queen => bit(bishop_rays(occ, p), q) || bit(rook_rays(occ, p), q),
    }
}

/// Whether any piece of colour `by` attacks square `q`.
pub open spec fn attacked(s: State, q: int, by: Colour) -> bool {
    exists|p: int, pi: int|
        #![trigger bit(s.material_layer.0@[pi].0, p)]
        0 <= pi < 12 && idx_colour(pi) == by && bit(s.material_layer.0@[pi].0, p) && attacks_sq(
            s,
            by,
            idx_kind(pi),
            p,
            q,
        )
}

/// The piece standing on a square, scanning the material table from
/// White pawns up.
pub fn get_piece_at_pos(board: &State, pos: Position) -> (r: Option<Piece>)
    ensures
        (match r {
            Some(pc) => bit(board.material_layer.0@[pc.idx()].0, pos.idx()) && pc == Piece(
                idx_colour(pc.idx()),
                idx_kind(pc.idx()),
            ) && (forall|i: int|
                0 <= i < pc.idx() ==> !bit(#[trigger] board.material_layer.0@[i].0, pos.idx())),
            None => forall|i: int|
                0 <= i < 12 ==> !bit(#[trigger] board.material_layer.0@[i].0, pos.idx()),
        }),
{
    let mut i: usize = 0;
    while i < 12
        invariant
            i <= 12,
            forall|j: int| 0 <= j < i ==> !bit(#[trigger] board.material_layer.0@[j].0, pos.idx()),
        decreases 12 - i,
    {
        if board.material_layer.0[i].is_occupied(pos) {
            return Some(piece_of_index(i));
        }
        i = i + 1;
    }
    None
}

/// Whether the side that just moved attacks the given square: the
/// check used to keep the king out of danger while castling.
pub fn is_attacked(board: &State, pos: Position, tables: &AttackTables) -> (r: bool)
    requires
        board.wf(),
        tables.wf(),
    ensures
        r == attacked(*board, pos.idx(), board.side_to_move.spec_opp()),
{
    let att = board.side_to_move.opp();
    let occ = get_both(&board.occupancy_layer);
    let mut p: u8 = 0;
    while p < 64
        invariant
            p <= 64,
            board.wf(),
            tables.wf(),
            att == board.side_to_move.spec_opp(),
            occ.0 == board.occupancy_layer.0@[0].0 | board.occupancy_layer.0@[1].0,
            forall|p2: int, pi: int|
                #![trigger bit(board.material_layer.0@[pi].0, p2)]
                0 <= p2 < p && 0 <= pi < 12 && idx_colour(pi) == att && bit(
                    board.material_layer.0@[pi].0,
                    p2,
                ) ==> !attacks_sq(*board, att, idx_kind(pi), p2, pos.idx()),
        decreases 64 - p,
    {
        let sq = match Position::from_u8(p) {
            Some(q) => q,
            None => {
                proof {
                    assert(false);
                }
                Position::A8
            },
        };
        match get_piece_at_pos(board, sq) {
            Some(piece) => {
                if piece.0 == att {
                    let bb = match piece.1 {
                        Kind::Pawn => tables.get_pawn_attacks(sq, att),
                        Kind::Knight => tables.get_knight_attacks(sq),
                        Kind::King => tables.get_king_attacks(sq),
                        Kind::Bishop => tables.get_bishop_attacks(sq, occ),
                        Kind::Rook => tables.get_rook_attacks(sq, occ),
                        Kind::Queen => tables.get_queen_attacks(sq, occ),
                    };
                    proof {
                        if piece.1 == Kind::Queen {
                            crate::bits::lemma_or_bits(
                                bishop_rays(occ.0, sq.idx()),
                                rook_rays(occ.0, sq.idx()),
                            );
                        }
                    }
                    if bb.is_occupied(pos) {
                        proof {
                            assert(bit(board.material_layer.0@[piece.idx()].0, p as int));
                            assert(attacks_sq(*board, att, idx_kind(piece.idx()), p as int, pos.idx()));
                        }
                        return true;
                    }
                    proof {
                        lemma_no_attack_from(*board, piece, p as int, pos.idx());
                    }
                } else {
                    proof {
                        lemma_other_colour_empty(*board, piece, p as int, att);
                    }
                }
            },
            None => {},
        }
        p = p + 1;
    }
    false
}

/// A square whose scan found a piece of one colour holds no piece of
/// the other: the material bitboards never overlap.
proof fn lemma_other_colour_empty(s: State, piece: Piece, p: int, att: Colour)
    requires
        s.wf(),
        0 <= p < 64,
        0 <= piece.idx() < 12,
        piece.0 != att,
        bit(s.material_layer.0@[piece.idx()].0, p),
        forall|i: int| 0 <= i < piece.idx() ==> !bit(#[trigger] s.material_layer.0@[i].0, p),
    ensures
        forall|pi: int|
            0 <= pi < 12 && idx_colour(pi) == att ==> !bit(
                #[trigger] s.material_layer.0@[pi].0,
                p,
            ),
{
    assert forall|pi: int|
        0 <= pi < 12 && idx_colour(pi) == att implies !bit(
        #[trigger] s.material_layer.0@[pi].0,
        p,
    ) by {
        if pi != piece.idx() {
            let lo = if pi < piece.idx() {
                pi
            } else {
                piece.idx()
            };
            let hi = if pi < piece.idx() {
                piece.idx()
            } else {
                pi
            };
            assert(s.material_layer.0@[lo].0 & s.material_layer.0@[hi].0 == 0);
            if lo == piece.idx() {
                crate::bits::lemma_disjoint_bit(
                    s.material_layer.0@[lo].0,
                    s.material_layer.0@[hi].0,
                    p,
                );
            } else {
                assert(!bit(s.material_layer.0@[lo].0, p));
            }
        }
    }
}

/// Once the piece on a square has been found not to attack the target,
/// no other material bitboard can put an attacker there.
proof fn lemma_no_attack_from(s: State, piece: Piece, p: int, q: int)
    requires
        s.wf(),
        0 <= p < 64,
        0 <= piece.idx() < 12,
        piece == Piece(idx_colour(piece.idx()), idx_kind(piece.idx())),
        bit(s.material_layer.0@[piece.idx()].0, p),
        forall|i: int| 0 <= i < piece.idx() ==> !bit(#[trigger] s.material_layer.0@[i].0, p),
        !attacks_sq(s, piece.0, piece.1, p, q),
    ensures
        forall|pi: int|
            0 <= pi < 12 && bit(#[trigger] s.material_layer.0@[pi].0, p) ==> !attacks_sq(
                s,
                idx_colour(pi),
                idx_kind(pi),
                p,
                q,
            ),
{
    assert forall|pi: int|
        0 <= pi < 12 && bit(#[trigger] s.material_layer.0@[pi].0, p) implies !attacks_sq(
        s,
        idx_colour(pi),
        idx_kind(pi),
        p,
        q,
    ) by {
        if pi != piece.idx() {
            let lo = if pi < piece.idx() {
                pi
            } else {
                piece.idx()
            };
            let hi = if pi < piece.idx() {
                piece.idx()
            } else {
                pi
            };
            assert(s.material_layer.0@[lo].0 & s.material_layer.0@[hi].0 == 0);
            if lo == piece.idx() {
                crate::bits::lemma_disjoint_bit(
                    s.material_layer.0@[lo].0,
                    s.material_layer.0@[hi].0,
                    p,
                );
            } else {
                assert(!bit(s.material_layer.0@[lo].0, p));
            }
        }
    }
}

/// Every square the opposing side attacks in the current position.
pub fn current_attacks(board: &State, tables: &AttackTables) -> (r: Bitboard)
    requires
        board.wf(),
        tables.wf(),
    ensures
        forall|t: int|
            #[trigger] bit(r.0, t) <==> (0 <= t < 64 && attacked(
                *board,
                t,
                board.side_to_move.spec_opp(),
            )),
{
    let mut bb = Bitboard::new();
    proof {
        lemma_zero_bits();
    }
    let mut t: u8 = 0;
    while t < 64
        invariant
            t <= 64,
            board.wf(),
            tables.wf(),
            forall|j: int|
                #[trigger] bit(bb.0, j) <==> (0 <= j < t && attacked(
                    *board,
                    j,
                    board.side_to_move.spec_opp(),
                )),
        decreases 64 - t,
    {
        let sq = match Position::from_u8(t) {
            Some(q) => q,
            None => {
                proof {
                    assert(false);
                }
                Position::A8
            },
        };
        if is_attacked(board, sq, tables) {
            let nb = bb.0 | (1u64 << (t as u64));
            proof {
                crate::bits::lemma_set_bit(bb.0, nb, t as u64);
            }
            bb = Bitboard(nb);
        }
        t = t + 1;
    }
    bb
}

/// The two occupancies never overlap: each square holds at most one
/// piece, so it belongs to at most one side.
pub proof fn lemma_occupancy_disjoint(s: State)
    requires
        s.wf(),
    ensures
        s.occupancy_layer.0@[0].0 & s.occupancy_layer.0@[1].0 == 0,
{
    let m = s.material_layer;
    let w = white_union(m);
    let b = black_union(m);
    lemma_zero_bits();
    assert forall|t: int| 0 <= t < 64 implies !(bit(w, t) && bit(b, t)) by {
        lemma_or_bits(m.0@[0].0, m.0@[1].0);
        lemma_or_bits(m.0@[0].0 | m.0@[1].0, m.0@[2].0);
        lemma_or_bits(m.0@[0].0 | m.0@[1].0 | m.0@[2].0, m.0@[3].0);
        lemma_or_bits(m.0@[0].0 | m.0@[1].0 | m.0@[2].0 | m.0@[3].0, m.0@[4].0);
        lemma_or_bits(m.0@[0].0 | m.0@[1].0 | m.0@[2].0 | m.0@[3].0 | m.0@[4].0, m.0@[5].0);
        lemma_or_bits(m.0@[6].0, m.0@[7].0);
        lemma_or_bits(m.0@[6].0 | m.0@[7].0, m.0@[8].0);
        lemma_or_bits(m.0@[6].0 | m.0@[7].0 | m.0@[8].0, m.0@[9].0);
        lemma_or_bits(m.0@[6].0 | m.0@[7].0 | m.0@[8].0 | m.0@[9].0, m.0@[10].0);
        lemma_or_bits(m.0@[6].0 | m.0@[7].0 | m.0@[8].0 | m.0@[9].0 | m.0@[10].0, m.0@[11].0);
        if bit(w, t) && bit(b, t) {
            assert forall|i: int, j: int| 0 <= i < 6 && 6 <= j < 12 && bit(m.0@[i].0, t) && bit(
                m.0@[j].0,
                t,
            ) implies false by {
                assert(m.0@[i].0 & m.0@[j].0 == 0);
                crate::bits::lemma_disjoint_bit(m.0@[i].0, m.0@[j].0, t);
            }
        }
    }
    assert forall|t: int| 0 <= t < 64 implies !bit(w & b, t) by {
        lemma_and_bits(w, b);
    }
    lemma_eq_by_bits(w & b, 0);
}

/// No square holds two pieces: distinct material bitboards never share
/// a square.
pub proof fn lemma_piece_uniqueness(s: State)
    requires
        s.wf(),
    ensures
        forall|i: int, j: int, t: int|
            #![trigger bit(s.material_layer.0@[i].0, t), bit(s.material_layer.0@[j].0, t)]
            0 <= i < 12 && 0 <= j < 12 && i != j && bit(s.material_layer.0@[i].0, t) ==> !bit(
                s.material_layer.0@[j].0,
                t,
            ),
{
    assert forall|i: int, j: int, t: int|
        #![trigger bit(s.material_layer.0@[i].0, t), bit(s.material_layer.0@[j].0, t)]
        0 <= i < 12 && 0 <= j < 12 && i != j && bit(s.material_layer.0@[i].0, t) implies !bit(
        s.material_layer.0@[j].0,
        t,
    ) by {
        let lo = if i < j {
            i
        } else {
            j
        };
        let hi = if i < j {
            j
        } else {
            i
        };
        assert(s.material_layer.0@[lo].0 & s.material_layer.0@[hi].0 == 0);
        let a = s.material_layer.0@[lo].0;
        let b = s.material_layer.0@[hi].0;
        if lo == i {
            crate::bits::lemma_disjoint_bit(a, b, t);
        } else {
            crate::bits::lemma_disjoint_bit_rev(a, b, t);
        }
    }
}

} // verus!

verus! {

/// All occupied squares of the position.
pub open spec fn spec_both(s: State) -> u64 {
    s.occupancy_layer.0@[0].0 | s.occupancy_layer.0@[1].0
}

/// The occupancy of one side.
pub open spec fn occ_of(s: State, c: Colour) -> u64 {
    match c {
        Colour::White => s.occupancy_layer.0@[0].0,
        Colour::Black => s.occupancy_layer.0@[1].0,
    }
}

/// The material bitboard of one piece.
pub open spec fn layer_of(s: State, c: Colour, k: Kind) -> u64 {
    s.material_layer.0@[Piece(c, k).idx()].0
}

/// The first material index whose bitboard holds square `t`, scanning
/// from `i` up; twelve reports an empty square.
pub open spec fn scan_piece(s: State, t: int, i: nat) -> nat
    decreases 12 - i,
{
    if i >= 12 {
        12
    } else if bit(s.material_layer.0@[i as int].0, t) {
        i
    } else {
        scan_piece(s, t, i + 1)
    }
}

proof fn lemma_scan_from(s: State, t: int, k: nat, i: nat)
    requires
        k <= i < 12,
        bit(s.material_layer.0@[i as int].0, t),
        forall|j: int| k <= j < i ==> !bit(#[trigger] s.material_layer.0@[j].0, t),
    ensures
        scan_piece(s, t, k) == i,
    decreases 12 - k,
{
    if k < i {
        lemma_scan_from(s, t, k + 1, i);
    }
}

/// The square scan lands on the piece the loop in `get_piece_at_pos` finds.
pub proof fn lemma_scan_char(s: State, t: int, i: nat)
    requires
        i < 12,
        bit(s.material_layer.0@[i as int].0, t),
        forall|j: int| 0 <= j < i ==> !bit(#[trigger] s.material_layer.0@[j].0, t),
    ensures
        scan_piece(s, t, 0) == i,
{
    lemma_scan_from(s, t, 0, i);
}

proof fn lemma_scan_none_from(s: State, t: int, k: nat)
    requires
        forall|j: int| 0 <= j < 12 ==> !bit(#[trigger] s.material_layer.0@[j].0, t),
        k <= 12,
    ensures
        scan_piece(s, t, k) == 12,
    decreases 12 - k,
{
    if k < 12 {
        lemma_scan_none_from(s, t, k + 1);
    }
}

/// An empty square scans to twelve.
pub proof fn lemma_scan_none(s: State, t: int)
    requires
        forall|j: int| 0 <= j < 12 ==> !bit(#[trigger] s.material_layer.0@[j].0, t),
    ensures
        scan_piece(s, t, 0) == 12,
{
    lemma_scan_none_from(s, t, 0);
}

} // verus!

verus! {

/// A square of a side's occupancy is a square of one of its six
/// material bitboards.
pub proof fn lemma_occ_member(s: State, c: Colour, t: int)
    requires
        s.wf(),
        bit(occ_of(s, c), t),
    ensures
        exists|i: int|
            c.idx() * 6 <= i < c.idx() * 6 + 6 && bit(#[trigger] s.material_layer.0@[i].0, t),
{
    let m = s.material_layer;
    let base = c.idx() * 6;
    lemma_or_bits(m.0@[base].0, m.0@[base + 1].0);
    lemma_or_bits(m.0@[base].0 | m.0@[base + 1].0, m.0@[base + 2].0);
    lemma_or_bits(m.0@[base].0 | m.0@[base + 1].0 | m.0@[base + 2].0, m.0@[base + 3].0);
    lemma_or_bits(
        m.0@[base].0 | m.0@[base + 1].0 | m.0@[base + 2].0 | m.0@[base + 3].0,
        m.0@[base + 4].0,
    );
    lemma_or_bits(
        m.0@[base].0 | m.0@[base + 1].0 | m.0@[base + 2].0 | m.0@[base + 3].0 | m.0@[base + 4].0,
        m.0@[base + 5].0,
    );
}

/// A square of a side's material is a square of its occupancy.
pub proof fn lemma_occ_cover(s: State, i: int, t: int)
    requires
        s.wf(),
        0 <= i < 12,
        bit(s.material_layer.0@[i].0, t),
    ensures
        bit(occ_of(s, idx_colour(i)), t),
        bit(spec_both(s), t),
{
    let m = s.material_layer;
    let base = idx_colour(i).idx() * 6;
    lemma_or_bits(m.0@[base].0, m.0@[base + 1].0);
    lemma_or_bits(m.0@[base].0 | m.0@[base + 1].0, m.0@[base + 2].0);
    lemma_or_bits(m.0@[base].0 | m.0@[base + 1].0 | m.0@[base + 2].0, m.0@[base + 3].0);
    lemma_or_bits(
        m.0@[base].0 | m.0@[base + 1].0 | m.0@[base + 2].0 | m.0@[base + 3].0,
        m.0@[base + 4].0,
    );
    lemma_or_bits(
        m.0@[base].0 | m.0@[base + 1].0 | m.0@[base + 2].0 | m.0@[base + 3].0 | m.0@[base + 4].0,
        m.0@[base + 5].0,
    );
    lemma_or_bits(s.occupancy_layer.0@[0].0, s.occupancy_layer.0@[1].0);
}

} // verus!

verus! {

proof fn lemma_scan_finds_from(s: State, t: int, k: nat, i: int)
    requires
        k <= i < 12,
        bit(s.material_layer.0@[i].0, t),
    ensures
        scan_piece(s, t, k) <= i,
        scan_piece(s, t, k) < 12,
    decreases 12 - k,
{
    if !bit(s.material_layer.0@[k as int].0, t) {
        lemma_scan_finds_from(s, t, k + 1, i);
    }
}

/// An occupied square scans to a real material index.
pub proof fn lemma_scan_finds(s: State, t: int, i: int)
    requires
        0 <= i < 12,
        bit(s.material_layer.0@[i].0, t),
    ensures
        scan_piece(s, t, 0) < 12,
{
    lemma_scan_finds_from(s, t, 0, i);
}

} // verus!
