use vstd::prelude::*;

use crate::attack_masks::col;
use crate::bitboard::Bitboard;
use crate::bits::bit;
use crate::boardstate::{layer_of, spec_both, State};
use crate::castling::CastlingRights;
use crate::colour::Colour;
use crate::delta::{
    d_capture, d_castling, d_ep_flag, d_ep_square, d_piece, d_promotion, d_source, d_target, Delta,
};
use crate::material_layer::MaterialLayer;
use crate::movement::{
    has_trait, move_wf, w_capture, w_piece, w_source, w_target, Move, MoveTrait,
};
use crate::occupancy_layer::generate_occ;
use crate::pieces::{spec_piece_of_bits, Kind, Piece};
use crate::position::Position;

verus! {

/// The piece a non-zero packed nibble stands for.
pub open spec fn nib_piece(pn: u32) -> Piece {
    spec_piece_of_bits(pn as u8)
}

/// The moving piece of a move word.
pub open spec fn mover_of(w: u32) -> Piece {
    nib_piece(w_piece(w))
}

/// The material index the moved piece lands in: on promotion the
/// pawn turns into this side's queen.
pub open spec fn dest_idx(w: u32) -> int {
    if has_trait(w, MoveTrait::Promotion) {
        Piece(mover_of(w).0, Kind::Queen).idx()
    } else {
        mover_of(w).idx()
    }
}

/// The square the captured piece is removed from: for en passant the
/// pawn stands one rank behind the target.
pub open spec fn capsq_of(w: u32) -> int {
    let ti = w_target(w) as int;
    if has_trait(w, MoveTrait::Enpassant) {
        if mover_of(w).0 == Colour::White {
            ti + 8
        } else {
            ti - 8
        }
    } else {
        ti
    }
}

/// Where the castling rook starts, keyed by the king's destination.
pub open spec fn rook_from(ti: int) -> int {
    if ti == 62 {
        63
    } else if ti == 58 {
        56
    } else if ti == 6 {
        7
    } else {
        0
    }
}

/// Where the castling rook lands, keyed by the king's destination.
pub open spec fn rook_to(ti: int) -> int {
    if ti == 62 {
        61
    } else if ti == 58 {
        59
    } else if ti == 6 {
        5
    } else {
        3
    }
}

/// What a move word must say about the position it is applied to: the
/// stated piece belongs to the side to move and stands on the source;
/// a capture names the piece on its target; a quiet move goes to a
/// free square; castling and en passant find the board as their flags
/// promise. Clock growth must also still fit the counters.
pub open spec fn move_compat(st: State, w: u32) -> bool {
    let side = st.side_to_move;
    let p = mover_of(w);
    let si = w_source(w) as int;
    let ti = w_target(w) as int;
    let cn = w_capture(w);
    &&& move_wf(w)
    &&& w_piece(w) != 0
    &&& p.0 == side
    &&& bit(layer_of(st, p.0, p.1), si)
    &&& si != ti
    &&& (has_trait(w, MoveTrait::Capture) ==> cn != 0 && nib_piece(cn).0 == side.spec_opp() && bit(
        layer_of(st, side.spec_opp(), nib_piece(cn).1),
        ti,
    ))
    &&& (has_trait(w, MoveTrait::Quiet) ==> cn == 0 && !bit(spec_both(st), ti))
    &&& (has_trait(w, MoveTrait::Castle) ==> p.1 == Kind::King && cn == 0 && ((side
        == Colour::White && si == 60 && (ti == 62 || ti == 58)) || (side == Colour::Black && si
        == 4 && (ti == 6 || ti == 2))) && bit(layer_of(st, side, Kind::Rook), rook_from(ti))
        && !bit(spec_both(st), ti) && !bit(spec_both(st), rook_to(ti)))
    &&& (has_trait(w, MoveTrait::Enpassant) ==> p.1 == Kind::Pawn && (match st.en_passant {
        Some(e) => e.idx() == ti,
        None => false,
    }) && cn == Piece(side.spec_opp(), Kind::Pawn).nibble() && bit(
        layer_of(st, side.spec_opp(), Kind::Pawn),
        capsq_of(w),
    ) && 0 <= capsq_of(w) < 64 && !bit(spec_both(st), ti))
    &&& (has_trait(w, MoveTrait::Promotion) ==> p.1 == Kind::Pawn && !has_trait(
        w,
        MoveTrait::Castle,
    ) && !has_trait(w, MoveTrait::Enpassant) && (if p.0 == Colour::White {
        ti / 8 == 0
    } else {
        ti / 8 == 7
    }))
    &&& (p.1 == Kind::Pawn && si - ti == 16 ==> si / 8 == 6)
    &&& (p.1 == Kind::Pawn && ti - si == 16 ==> si / 8 == 1)
    &&& (p.1 == Kind::King && !has_trait(w, MoveTrait::Castle)
        ==> crate::attack_masks::king_step(si, ti))
    &&& (match st.en_passant {
        Some(e) => !bit(spec_both(st), e.idx()),
        None => true,
    })
    &&& st.half_moves < 0xFFFFFFFFu32
    &&& st.full_moves < 0xFFFFFFFFu32
}

/// The material bitboard `i` after the move: the mover leaves its
/// source and lands on its target, a promotion lands on the queen
/// table instead, the captured piece disappears, and the castling
/// rook makes its own step.
pub open spec fn apply_mat_layer(st: State, w: u32, i: int) -> u64 {
    let el = st.material_layer.0@[i].0;
    let si = w_source(w) as int;
    let ti = w_target(w) as int;
    let a = if i == mover_of(w).idx() {
        el & !(1u64 << (si as u64))
    } else {
        el
    };
    let b = if i == dest_idx(w) {
        a | (1u64 << (ti as u64))
    } else {
        a
    };
    let c = if w_capture(w) != 0 && i == nib_piece(w_capture(w)).idx() {
        b & !(1u64 << (capsq_of(w) as u64))
    } else {
        b
    };
    if has_trait(w, MoveTrait::Castle) && i == Piece(mover_of(w).0, Kind::Rook).idx() {
        (c & !(1u64 << (rook_from(ti) as u64))) | (1u64 << (rook_to(ti) as u64))
    } else {
        c
    }
}

/// The castling rights that survive the move: a king move forfeits
/// both of its side's rights, a rook leaving its home corner forfeits
/// that corner's right, and a capture on a home corner forfeits the
/// victim's.
pub open spec fn apply_castling(st: State, w: u32) -> u8 {
    let si = w_source(w) as int;
    let ti = w_target(w) as int;
    let p = mover_of(w);
    let a = if p.1 == Kind::King {
        if p.0 == Colour::White {
            st.castling.0 & !3u8
        } else {
            st.castling.0 & !12u8
        }
    } else if p.1 == Kind::Rook {
        if si == 63 {
            st.castling.0 & !1u8
        } else if si == 56 {
            st.castling.0 & !2u8
        } else if si == 7 {
            st.castling.0 & !4u8
        } else if si == 0 {
            st.castling.0 & !8u8
        } else {
            st.castling.0
        }
    } else {
        st.castling.0
    };
    if w_capture(w) != 0 && nib_piece(w_capture(w)).1 == Kind::Rook {
        if ti == 63 {
            a & !1u8
        } else if ti == 56 {
            a & !2u8
        } else if ti == 7 {
            a & !4u8
        } else if ti == 0 {
            a & !8u8
        } else {
            a
        }
    } else {
        a
    }
}

/// The en-passant square after the move: set behind a pawn double
/// push, cleared otherwise.
pub open spec fn apply_ep(st: State, w: u32) -> Option<int> {
    let si = w_source(w) as int;
    let ti = w_target(w) as int;
    if mover_of(w).1 == Kind::Pawn && mover_of(w).0 == Colour::White && si - ti == 16 {
        Some(ti + 8)
    } else if mover_of(w).1 == Kind::Pawn && mover_of(w).0 == Colour::Black && ti - si == 16 {
        Some(ti - 8)
    } else {
        None
    }
}

/// The half-move clock after the move: reset by pawn moves and
/// captures, grown otherwise.
pub open spec fn apply_half(st: State, w: u32) -> u32 {
    if mover_of(w).1 == Kind::Pawn || has_trait(w, MoveTrait::Capture) || has_trait(
        w,
        MoveTrait::Enpassant,
    ) {
        0
    } else {
        (st.half_moves + 1) as u32
    }
}

/// The position after the move.
pub open spec fn apply_spec(st: State, w: u32) -> State {
    let mat = MaterialLayer(
        [
            Bitboard(apply_mat_layer(st, w, 0)),
            Bitboard(apply_mat_layer(st, w, 1)),
            Bitboard(apply_mat_layer(st, w, 2)),
            Bitboard(apply_mat_layer(st, w, 3)),
            Bitboard(apply_mat_layer(st, w, 4)),
            Bitboard(apply_mat_layer(st, w, 5)),
            Bitboard(apply_mat_layer(st, w, 6)),
            Bitboard(apply_mat_layer(st, w, 7)),
            Bitboard(apply_mat_layer(st, w, 8)),
            Bitboard(apply_mat_layer(st, w, 9)),
            Bitboard(apply_mat_layer(st, w, 10)),
            Bitboard(apply_mat_layer(st, w, 11)),
        ],
    );
    State {
        material_layer: mat,
        occupancy_layer: crate::occupancy_layer::OccupancyLayer(
            [
                Bitboard(crate::occupancy_layer::white_union(mat)),
                Bitboard(crate::occupancy_layer::black_union(mat)),
            ],
        ),
        side_to_move: st.side_to_move.spec_opp(),
        en_passant: (match apply_ep(st, w) {
            Some(e) => {
                if 0 <= e < 64 {
                    Some(crate::position::pos_of(e))
                } else {
                    None
                }
            },
            None => None,
        }),
        castling: CastlingRights(apply_castling(st, w)),
        half_moves: apply_half(st, w),
        full_moves: (if st.side_to_move == Colour::Black {
            (st.full_moves + 1) as u32
        } else {
            st.full_moves
        }),
    }
}

/// The delta word recording the move: the prior en-passant square and
/// its presence flag, the promotion flag, the rights the move took
/// away, and the move's own piece, source, target and capture fields.
pub open spec fn delta_word_spec(st: State, w: u32) -> u32 {
    let eps: u32 = match st.en_passant {
        Some(e) => e.idx() as u32,
        None => 0,
    };
    let epf: u32 = match st.en_passant {
        Some(e) => 1,
        None => 0,
    };
    let promo: u32 = if has_trait(w, MoveTrait::Promotion) {
        1
    } else {
        0
    };
    let lost: u32 = ((st.castling.0 & !apply_castling(st, w)) & 0xF) as u32;
    (eps << 26u32) | (epf << 25u32) | (promo << 24u32) | (lost << 20u32) | (w & 0x000FFFFFu32)
}

} // verus!

verus! {

/// Whether the recorded move was a castle: only a castling king ever
/// steps two files.
pub open spec fn undo_castle(d: Delta) -> bool {
    let w2 = d.0;
    let p = nib_piece(d_piece(w2));
    let si = d_source(w2) as int;
    let ti = d_target(w2) as int;
    p.1 == Kind::King && (col(ti) - col(si) == 2 || col(si) - col(ti) == 2)
}

/// Whether the recorded move captured en passant: a pawn capture onto
/// the very square that was the en-passant square before.
pub open spec fn undo_ep_capture(d: Delta) -> bool {
    let w2 = d.0;
    let p = nib_piece(d_piece(w2));
    p.1 == Kind::Pawn && d_capture(w2) != 0 && d_ep_flag(w2) && d_ep_square(w2) == d_target(w2)
}

/// The square the captured piece is put back on.
pub open spec fn undo_capsq(s2: State, d: Delta) -> int {
    let ti = d_target(d.0) as int;
    if undo_ep_capture(d) {
        if s2.side_to_move.spec_opp() == Colour::White {
            ti + 8
        } else {
            ti - 8
        }
    } else {
        ti
    }
}

/// The material bitboard `i` before the move, reconstructed: the mover
/// steps back from its landing table, the captured piece reappears,
/// and the castling rook returns home.
pub open spec fn undo_mat_layer(s2: State, d: Delta, i: int) -> u64 {
    let w2 = d.0;
    let mover_side = s2.side_to_move.spec_opp();
    let p = nib_piece(d_piece(w2));
    let si = d_source(w2) as int;
    let ti = d_target(w2) as int;
    let cn = d_capture(w2);
    let di = if d_promotion(w2) {
        Piece(mover_side, Kind::Queen).idx()
    } else {
        p.idx()
    };
    let el = s2.material_layer.0@[i].0;
    let a = if i == di {
        el & !(1u64 << (ti as u64))
    } else {
        el
    };
    let b = if i == p.idx() {
        a | (1u64 << (si as u64))
    } else {
        a
    };
    let c = if cn != 0 && i == nib_piece(cn).idx() {
        b | (1u64 << (undo_capsq(s2, d) as u64))
    } else {
        b
    };
    if undo_castle(d) && i == Piece(mover_side, Kind::Rook).idx() {
        (c & !(1u64 << (rook_to(ti) as u64))) | (1u64 << (rook_from(ti) as u64))
    } else {
        c
    }
}

/// The position before the move, reconstructed from the position after
/// it and the delta.
pub open spec fn undo_spec(s2: State, d: Delta) -> State {
    let mover_side = s2.side_to_move.spec_opp();
    let mat = MaterialLayer(
        [
            Bitboard(undo_mat_layer(s2, d, 0)),
            Bitboard(undo_mat_layer(s2, d, 1)),
            Bitboard(undo_mat_layer(s2, d, 2)),
            Bitboard(undo_mat_layer(s2, d, 3)),
            Bitboard(undo_mat_layer(s2, d, 4)),
            Bitboard(undo_mat_layer(s2, d, 5)),
            Bitboard(undo_mat_layer(s2, d, 6)),
            Bitboard(undo_mat_layer(s2, d, 7)),
            Bitboard(undo_mat_layer(s2, d, 8)),
            Bitboard(undo_mat_layer(s2, d, 9)),
            Bitboard(undo_mat_layer(s2, d, 10)),
            Bitboard(undo_mat_layer(s2, d, 11)),
        ],
    );
    State {
        material_layer: mat,
        occupancy_layer: crate::occupancy_layer::OccupancyLayer(
            [
                Bitboard(crate::occupancy_layer::white_union(mat)),
                Bitboard(crate::occupancy_layer::black_union(mat)),
            ],
        ),
        side_to_move: mover_side,
        en_passant: (if d_ep_flag(d.0) {
            Some(crate::position::pos_of(d_ep_square(d.0) as int))
        } else {
            None
        }),
        castling: CastlingRights((s2.castling.0 | (d_castling(d.0) as u8)) as u8),
        half_moves: d.1,
        full_moves: (if mover_side == Colour::Black {
            (s2.full_moves - 1) as u32
        } else {
            s2.full_moves
        }),
    }
}

} // verus!

verus! {

/// The lens over positions: applying a move yields the next position
/// and the delta that reverses it.
pub struct History;

impl History {
    /// Apply a move, returning the next position and its delta.
    pub fn apply_move(&self, state: State, mv: Move) -> (r: (State, Delta))
        requires
            move_compat(state, mv.0),
        ensures
            r.0 == apply_spec(state, mv.0),
            r.1.0 == delta_word_spec(state, mv.0),
            r.1.1 == state.half_moves,
    {
        let w = mv.0;
        proof {
            crate::bits::lemma_field_bounds(w, 16);
        }
        let tr = (w >> 20) & 0xFFF;
        let promo = tr & 8 != 0;
        let castle = tr & 32 != 0;
        let ep = tr & 16 != 0;
        let capture = tr & 2 != 0;
        let pn = ((w >> 16) & 0xF) as u8;
        let piece = match crate::pieces::try_from_u8(pn) {
            Ok(Some(p)) => p,
            _ => {
                proof {
                    assert(false);
                }
                Piece(Colour::White, Kind::Pawn)
            },
        };
        let side = piece.0;
        let white = match side {
            Colour::White => true,
            Colour::Black => false,
        };
        let si = crate::movement::source(mv).index();
        let ti = crate::movement::target(mv).index();
        let cn = (w & 0xF) as u8;
        let capi: usize = if cn != 0 {
            match crate::pieces::try_from_u8(cn) {
                Ok(Some(c)) => c.index(),
                _ => {
                    proof {
                        assert(false);
                    }
                    0
                },
            }
        } else {
            12
        };
        let capsq: u8 = if ep {
            if white {
                ti + 8
            } else {
                ti - 8
            }
        } else {
            ti
        };
        proof {
            assert(capsq as int == capsq_of(w)) by {
                if ep {
                    assert(has_trait(w, MoveTrait::Enpassant)) by {
                        assert(tr == crate::movement::w_traits(w));
                    }
                }
            }
        }
        let pi = piece.index();
        let di: usize = if promo {
            crate::pieces::from_colour_kind(&side, Kind::Queen).index()
        } else {
            pi
        };
        let ri = crate::pieces::from_colour_kind(&side, Kind::Rook).index();
        let rf: u8 = if ti == 62 {
            63
        } else if ti == 58 {
            56
        } else if ti == 6 {
            7
        } else {
            0
        };
        let rt: u8 = if ti == 62 {
            61
        } else if ti == 58 {
            59
        } else if ti == 6 {
            5
        } else {
            3
        };
        proof {
            assert(tr == crate::movement::w_traits(w));
            assert(pn == w_piece(w) as u8);
            assert(cn == w_capture(w) as u8);
            assert(piece == mover_of(w));
            assert(pi == mover_of(w).idx());
            assert(di == dest_idx(w));
            assert(cn != 0 ==> capi == nib_piece(w_capture(w)).idx());
        }

        let mut layers: Vec<Bitboard> = Vec::new();
        let mut i: usize = 0;
        while i < 12
            invariant
                i <= 12,
                layers.len() == i,
                move_compat(state, w),
                tr == crate::movement::w_traits(w),
                promo == has_trait(w, MoveTrait::Promotion),
                castle == has_trait(w, MoveTrait::Castle),
                ep == has_trait(w, MoveTrait::Enpassant),
                si == w_source(w),
                ti == w_target(w),
                cn == w_capture(w),
                capsq as int == capsq_of(w),
                si < 64,
                ti < 64,
                capsq < 64,
                rf < 64,
                rt < 64,
                pi == mover_of(w).idx(),
                di == dest_idx(w),
                side == mover_of(w).0,
                cn != 0 ==> capi == nib_piece(w_capture(w)).idx(),
                cn == 0 ==> capi == 12,
                ri == Piece(mover_of(w).0, Kind::Rook).idx(),
                castle ==> (rf as int == rook_from(ti as int) && rt as int == rook_to(ti as int)),
                forall|j: int| 0 <= j < i ==> #[trigger] layers@[j].0 == apply_mat_layer(
                    state,
                    w,
                    j,
                ),
            decreases 12 - i,
        {
            let el = state.material_layer.0[i].0;
            let a = if i == pi {
                el & !(1u64 << (si as u64))
            } else {
                el
            };
            let b = if i == di {
                a | (1u64 << (ti as u64))
            } else {
                a
            };
            let c = if cn != 0 && i == capi {
                b & !(1u64 << (capsq as u64))
            } else {
                b
            };
            let d = if castle && i == ri {
                (c & !(1u64 << (rf as u64))) | (1u64 << (rt as u64))
            } else {
                c
            };
            layers.push(Bitboard(d));
            proof {
                assert(layers@[i as int].0 == apply_mat_layer(state, w, i as int));
            }
            i = i + 1;
        }
        let mat = MaterialLayer(
            [
                layers[0],
                layers[1],
                layers[2],
                layers[3],
                layers[4],
                layers[5],
                layers[6],
                layers[7],
                layers[8],
                layers[9],
                layers[10],
                layers[11],
            ],
        );
        proof {
            assert forall|j: int| 0 <= j < 12 implies mat.0@[j]
                == apply_spec(state, w).material_layer.0@[j] by {
                assert(layers@[j].0 == apply_mat_layer(state, w, j));
            }
            assert(mat.0 =~= apply_spec(state, w).material_layer.0);
        }

        // castling rights that survive
        let kingish = match piece.1 {
            Kind::King => true,
            _ => false,
        };
        let rookish = match piece.1 {
            Kind::Rook => true,
            _ => false,
        };
        let a_cr: u8 = if kingish {
            if white {
                state.castling.0 & !3u8
            } else {
                state.castling.0 & !12u8
            }
        } else if rookish {
            if si == 63 {
                state.castling.0 & !1u8
            } else if si == 56 {
                state.castling.0 & !2u8
            } else if si == 7 {
                state.castling.0 & !4u8
            } else if si == 0 {
                state.castling.0 & !8u8
            } else {
                state.castling.0
            }
        } else {
            state.castling.0
        };
        let cap_rook = if cn != 0 {
            match crate::pieces::try_from_u8(cn) {
                Ok(Some(c)) => match c.1 {
                    Kind::Rook => true,
                    _ => false,
                },
                _ => false,
            }
        } else {
            false
        };
        let ncr: u8 = if cap_rook {
            if ti == 63 {
                a_cr & !1u8
            } else if ti == 56 {
                a_cr & !2u8
            } else if ti == 7 {
                a_cr & !4u8
            } else if ti == 0 {
                a_cr & !8u8
            } else {
                a_cr
            }
        } else {
            a_cr
        };
        proof {
            assert(ncr == apply_castling(state, w));
        }

        // en passant square behind a double push
        let pawnish = match piece.1 {
            Kind::Pawn => true,
            _ => false,
        };
        let nep: Option<Position> = if pawnish && white && si >= 16 && ti == si - 16 {
            match Position::from_u8(ti + 8) {
                Some(p) => Some(p),
                None => {
                    proof {
                        assert(false);
                    }
                    None
                },
            }
        } else if pawnish && !white && ti >= 16 && si == ti - 16 {
            match Position::from_u8(ti - 8) {
                Some(p) => Some(p),
                None => {
                    proof {
                        assert(false);
                    }
                    None
                },
            }
        } else {
            None
        };
        proof {
            assert(nep == apply_spec(state, w).en_passant) by {
                match apply_ep(state, w) {
                    Some(e) => {
                        assert(0 <= e < 64);
                        match nep {
                            Some(p) => {
                                crate::position::lemma_pos_inj(p, crate::position::pos_of(e));
                            },
                            None => {
                                assert(false);
                            },
                        }
                    },
                    None => {},
                }
            }
        }

        let nhalf: u32 = if pawnish || capture || ep {
            0
        } else {
            state.half_moves + 1
        };
        let nfull: u32 = if white {
            state.full_moves
        } else {
            state.full_moves + 1
        };

        let new_state = State {
            material_layer: mat,
            occupancy_layer: generate_occ(mat),
            side_to_move: side.opp(),
            en_passant: nep,
            castling: CastlingRights(ncr),
            half_moves: nhalf,
            full_moves: nfull,
        };
        proof {
            assert(new_state.occupancy_layer.0 =~= apply_spec(state, w).occupancy_layer.0);
            assert(new_state =~= apply_spec(state, w));
        }

        // the delta that reverses the move
        let (epf, eps): (u32, u8) = match state.en_passant {
            Some(e) => (1, e.index()),
            None => (0, 0),
        };
        let lost: u8 = (state.castling.0 & !ncr) & 0xF;
        let dw: u32 = ((eps as u32) << 26) | (epf << 25) | ((if promo {
            1u32
        } else {
            0u32
        }) << 24) | ((lost as u32) << 20) | (w & 0x000FFFFF);
        proof {
            assert(dw == delta_word_spec(state, w));
        }
        (new_state, Delta(dw, state.half_moves))
    }
}

} // verus!

verus! {

impl History {
    /// Reverse a move: rebuild the prior position from the position
    /// after it and the delta the application returned.
    pub fn undo(&self, state: State, delta: &Delta) -> (r: State)
        requires
            d_piece(delta.0) != 0,
            crate::pieces::spec_decode_nibble(d_piece(delta.0) as u8) is Some,
            crate::pieces::spec_decode_nibble(d_capture(delta.0) as u8) is Some,
            undo_ep_capture(*delta) ==> 0 <= undo_capsq(state, *delta) < 64,
            state.side_to_move == Colour::White ==> state.full_moves >= 1,
        ensures
            r == undo_spec(state, *delta),
    {
        let w2 = delta.0;
        proof {
            crate::bits::lemma_field_bounds(w2, 16);
        }
        let mover = state.side_to_move.opp();
        let white = match mover {
            Colour::White => true,
            Colour::Black => false,
        };
        let pn = ((w2 >> 16) & 0xF) as u8;
        let piece = match crate::pieces::try_from_u8(pn) {
            Ok(Some(p)) => p,
            _ => {
                proof {
                    assert(false);
                }
                Piece(Colour::White, Kind::Pawn)
            },
        };
        let si = ((w2 >> 10) & 0x3F) as u8;
        let ti = ((w2 >> 4) & 0x3F) as u8;
        let cn = (w2 & 0xF) as u8;
        let promo = (w2 >> 24) & 1 == 1;
        let epf = (w2 >> 25) & 1 == 1;
        let eps = ((w2 >> 26) & 0x3F) as u8;
        let capi: usize = if cn != 0 {
            match crate::pieces::try_from_u8(cn) {
                Ok(Some(c)) => c.index(),
                _ => {
                    proof {
                        assert(false);
                    }
                    0
                },
            }
        } else {
            12
        };
        let pawnish = match piece.1 {
            Kind::Pawn => true,
            _ => false,
        };
        let kingish = match piece.1 {
            Kind::King => true,
            _ => false,
        };
        let fs = si % 8;
        let ft = ti % 8;
        let castle = kingish && (ft == fs + 2 || fs == ft + 2);
        let ep_cap = pawnish && cn != 0 && epf && eps == ti;
        proof {
            crate::bits::lemma_field_bounds(w2, 26);
            assert(piece == nib_piece(d_piece(w2)));
            assert(castle == undo_castle(*delta));
            assert(ep_cap == undo_ep_capture(*delta));
        }
        let capsq: u8 = if ep_cap {
            if white {
                ti + 8
            } else {
                ti - 8
            }
        } else {
            ti
        };
        proof {
            assert(capsq as int == undo_capsq(state, *delta));
        }
        let pi = piece.index();
        let di: usize = if promo {
            crate::pieces::from_colour_kind(&mover, Kind::Queen).index()
        } else {
            pi
        };
        let ri = crate::pieces::from_colour_kind(&mover, Kind::Rook).index();
        let rf: u8 = if ti == 62 {
            63
        } else if ti == 58 {
            56
        } else if ti == 6 {
            7
        } else {
            0
        };
        let rt: u8 = if ti == 62 {
            61
        } else if ti == 58 {
            59
        } else if ti == 6 {
            5
        } else {
            3
        };

        let mut layers: Vec<Bitboard> = Vec::new();
        let mut i: usize = 0;
        while i < 12
            invariant
                i <= 12,
                layers.len() == i,
                w2 == delta.0,
                si == d_source(w2),
                ti == d_target(w2),
                cn == d_capture(w2),
                si < 64,
                ti < 64,
                capsq < 64,
                rf < 64,
                rt < 64,
                promo == d_promotion(w2),
                mover == state.side_to_move.spec_opp(),
                piece == nib_piece(d_piece(w2)),
                pi == piece.idx(),
                di == (if d_promotion(w2) {
                    Piece(mover, Kind::Queen).idx()
                } else {
                    piece.idx()
                }),
                cn != 0 ==> capi == nib_piece(d_capture(w2)).idx(),
                cn == 0 ==> capi == 12,
                ri == Piece(mover, Kind::Rook).idx(),
                castle == undo_castle(*delta),
                capsq as int == undo_capsq(state, *delta),
                castle ==> (rf as int == rook_from(ti as int) && rt as int == rook_to(ti as int)),
                forall|j: int| 0 <= j < i ==> #[trigger] layers@[j].0 == undo_mat_layer(
                    state,
                    *delta,
                    j,
                ),
            decreases 12 - i,
        {
            let el = state.material_layer.0[i].0;
            let a = if i == di {
                el & !(1u64 << (ti as u64))
            } else {
                el
            };
            let b = if i == pi {
                a | (1u64 << (si as u64))
            } else {
                a
            };
            let c = if cn != 0 && i == capi {
                b | (1u64 << (capsq as u64))
            } else {
                b
            };
            let d = if castle && i == ri {
                (c & !(1u64 << (rt as u64))) | (1u64 << (rf as u64))
            } else {
                c
            };
            layers.push(Bitboard(d));
            proof {
                assert(layers@[i as int].0 == undo_mat_layer(state, *delta, i as int));
            }
            i = i + 1;
        }
        let mat = MaterialLayer(
            [
                layers[0],
                layers[1],
                layers[2],
                layers[3],
                layers[4],
                layers[5],
                layers[6],
                layers[7],
                layers[8],
                layers[9],
                layers[10],
                layers[11],
            ],
        );
        proof {
            assert forall|j: int| 0 <= j < 12 implies mat.0@[j]
                == undo_spec(state, *delta).material_layer.0@[j] by {
                assert(layers@[j].0 == undo_mat_layer(state, *delta, j));
            }
            assert(mat.0 =~= undo_spec(state, *delta).material_layer.0);
        }

        let pep: Option<Position> = if epf {
            match Position::from_u8(eps) {
                Some(p) => Some(p),
                None => {
                    proof {
                        assert(false);
                    }
                    None
                },
            }
        } else {
            None
        };
        proof {
            match pep {
                Some(p) => {
                    crate::position::lemma_idx_of_pos(d_ep_square(w2) as int);
                    crate::position::lemma_pos_inj(
                        p,
                        crate::position::pos_of(d_ep_square(w2) as int),
                    );
                },
                None => {},
            }
        }

        let r = State {
            material_layer: mat,
            occupancy_layer: generate_occ(mat),
            side_to_move: mover,
            en_passant: pep,
            castling: CastlingRights(state.castling.0 | (((w2 >> 20) & 0xF) as u8)),
            half_moves: delta.1,
            full_moves: (if white {
                state.full_moves
            } else {
                state.full_moves - 1
            }),
        };
        proof {
            assert(r.occupancy_layer.0 =~= undo_spec(state, *delta).occupancy_layer.0);
            assert(r =~= undo_spec(state, *delta));
        }
        r
    }
}

} // verus!

verus! {

/// Decide whether a position satisfies every invariant the library
/// maintains, by checking each clause outright.
pub fn check_wf(s: &State) -> (r: bool)
    ensures
        r == s.wf(),
{
    let mut i: usize = 0;
    let mut disjoint = true;
    while i < 12
        invariant
            i <= 12,
            disjoint == (forall|a: int, b: int|
                0 <= a < b < 12 && a < i ==> (#[trigger] s.material_layer.0@[a].0) & (
                #[trigger] s.material_layer.0@[b].0) == 0),
        decreases 12 - i,
    {
        let mut j: usize = i + 1;
        while j < 12
            invariant
                i < 12,
                i < j <= 12,
                disjoint == (forall|a: int, b: int|
                    0 <= a < b < 12 && (a < i || (a == i && b < j)) ==> (
                    #[trigger] s.material_layer.0@[a].0) & (#[trigger] s.material_layer.0@[b].0)
                        == 0),
            decreases 12 - j,
        {
            if s.material_layer.0[i].0 & s.material_layer.0[j].0 != 0 {
                disjoint = false;
            }
            j = j + 1;
        }
        i = i + 1;
    }
    let occ = generate_occ(s.material_layer);
    let occ_ok = s.occupancy_layer.0[0].0 == occ.0[0].0 && s.occupancy_layer.0[1].0 == occ.0[1].0;
    let ep_ok = match s.en_passant {
        Some(e) => {
            let rk = e.rank();
            rk == 2 || rk == 5
        },
        None => true,
    };
    disjoint && occ_ok && ep_ok && s.castling.0 < 16 && s.full_moves >= 1
}

impl History {
    /// Apply a move and hand the result back only when it satisfies
    /// every invariant; from a well-formed position a fitting move is
    /// never refused.
    pub fn apply_move_checked(&self, state: State, mv: Move) -> (r: Option<(State, Delta)>)
        requires
            move_compat(state, mv.0),
        ensures
            (match r {
                Some(p) => p.0 == apply_spec(state, mv.0) && p.0.wf() && p.1.0 == delta_word_spec(
                    state,
                    mv.0,
                ) && p.1.1 == state.half_moves,
                None => !apply_spec(state, mv.0).wf(),
            }),
            state.wf() ==> r is Some,
    {
        proof {
            if state.wf() {
                lemma_apply_preserves_wf(state, mv);
            }
        }
        let (ns, d) = self.apply_move(state, mv);
        if check_wf(&ns) {
            Some((ns, d))
        } else {
            None
        }
    }
}

/// What folding a run of moves over a position yields: the run stops
/// with nothing when a move does not fit its position.
pub open spec fn fold_moves(st: State, moves: Seq<Move>) -> Option<State>
    decreases moves.len(),
{
    if moves.len() == 0 {
        Some(st)
    } else if move_compat(st, moves[0].0) {
        fold_moves(apply_spec(st, moves[0].0), moves.subrange(1, moves.len() as int))
    } else {
        None
    }
}

/// Apply a run of moves in order; a move that does not fit its
/// position stops the run with nothing.
pub fn apply_all_moves(lens: &History, initial: State, moves: &[Move]) -> (r: Option<State>)
    ensures
        r == fold_moves(initial, moves@),
{
    let mut st = initial;
    proof {
        assert(moves@.subrange(0, moves@.len() as int) =~= moves@);
    }
    let mut i: usize = 0;
    while i < moves.len()
        invariant
            i <= moves.len(),
            fold_moves(initial, moves@) == fold_moves(st, moves@.subrange(i as int, moves@.len() as int)),
        decreases moves.len() - i,
    {
        let mv = moves[i];
        if check_move_compat(&st, mv) {
            proof {
                assert(moves@.subrange(i as int, moves@.len() as int)[0] == mv);
                assert(moves@.subrange(i as int, moves@.len() as int).subrange(
                    1,
                    moves@.len() - i,
                ) =~= moves@.subrange(i + 1, moves@.len() as int));
            }
            let (ns, _d) = lens.apply_move(st, mv);
            st = ns;
        } else {
            proof {
                assert(moves@.subrange(i as int, moves@.len() as int)[0] == mv);
            }
            return None;
        }
        i = i + 1;
    }
    proof {
        assert(moves@.subrange(moves@.len() as int, moves@.len() as int).len() == 0);
    }
    Some(st)
}

/// Folding one more move steps the fold once.
proof fn lemma_fold_push(st: State, xs: Seq<Move>, x: Move)
    ensures
        fold_moves(st, xs.push(x)) == (match fold_moves(st, xs) {
            Some(t) => {
                if move_compat(t, x.0) {
                    Some(apply_spec(t, x.0))
                } else {
                    None::<State>
                }
            },
            None => None::<State>,
        }),
    decreases xs.len(),
{
    if xs.len() == 0 {
        assert(xs.push(x)[0] == x);
        assert(xs.push(x).subrange(1, 1) =~= Seq::<Move>::empty());
        if move_compat(st, x.0) {
            assert(fold_moves(apply_spec(st, x.0), Seq::<Move>::empty()) == Some(
                apply_spec(st, x.0),
            ));
        }
    } else {
        assert(xs.push(x)[0] == xs[0]);
        assert(xs.push(x).subrange(1, xs.len() as int + 1) =~= xs.subrange(1, xs.len() as int).push(x));
        if move_compat(st, xs[0].0) {
            lemma_fold_push(apply_spec(st, xs[0].0), xs.subrange(1, xs.len() as int), x);
        }
    }
}

/// Apply a run of moves, collecting each delta; a move that does not
/// fit its position stops the run with nothing. Each collected delta
/// is the one its step's application returns.
pub fn apply_and_collect_deltas(lens: &History, initial: State, moves: &[Move]) -> (r: Option<
    (State, Vec<Delta>)>)
    ensures
        (match r {
            Some(p) => {
                &&& Some(p.0) == fold_moves(initial, moves@)
                &&& p.1@.len() == moves@.len()
                &&& (forall|j: int|
                    0 <= j < moves@.len() ==> {
                        let sj = fold_moves(initial, #[trigger] moves@.subrange(0, j));
                        &&& sj is Some
                        &&& p.1@[j].0 == delta_word_spec(sj->Some_0, moves@[j].0)
                        &&& p.1@[j].1 == sj->Some_0.half_moves
                    })
            },
            None => fold_moves(initial, moves@) is None,
        }),
{
    let mut st = initial;
    let mut ds: Vec<Delta> = Vec::new();
    proof {
        assert(moves@.subrange(0, moves@.len() as int) =~= moves@);
    }
    let mut i: usize = 0;
    while i < moves.len()
        invariant
            i <= moves.len(),
            ds.len() == i,
            fold_moves(initial, moves@) == fold_moves(st, moves@.subrange(i as int, moves@.len() as int)),
            fold_moves(initial, moves@.subrange(0, i as int)) == Some(st),
            forall|j: int|
                0 <= j < i ==> {
                    let sj = fold_moves(initial, #[trigger] moves@.subrange(0, j));
                    &&& sj is Some
                    &&& ds@[j].0 == delta_word_spec(sj->Some_0, moves@[j].0)
                    &&& ds@[j].1 == sj->Some_0.half_moves
                },
        decreases moves.len() - i,
    {
        let mv = moves[i];
        if check_move_compat(&st, mv) {
            proof {
                assert(moves@.subrange(i as int, moves@.len() as int)[0] == mv);
                assert(moves@.subrange(i as int, moves@.len() as int).subrange(
                    1,
                    moves@.len() - i,
                ) =~= moves@.subrange(i + 1, moves@.len() as int));
                assert(moves@.subrange(0, i + 1) =~= moves@.subrange(0, i as int).push(mv));
                lemma_fold_push(initial, moves@.subrange(0, i as int), mv);
            }
            let (ns, d) = lens.apply_move(st, mv);
            st = ns;
            ds.push(d);
        } else {
            proof {
                assert(moves@.subrange(i as int, moves@.len() as int)[0] == mv);
            }
            return None;
        }
        i = i + 1;
    }
    proof {
        assert(moves@.subrange(moves@.len() as int, moves@.len() as int).len() == 0);
    }
    Some((st, ds))
}

} // verus!

verus! {

/// Decide whether a move fits a position, clause by clause.
pub fn check_move_compat(st: &State, mv: Move) -> (r: bool)
    ensures
        r == move_compat(*st, mv.0),
{
    let w = mv.0;
    proof {
        crate::bits::lemma_field_bounds(w, 16);
    }
    let tr = (w >> 20) & 0xFFF;
    let quiet = tr & 1 != 0;
    let capture = tr & 2 != 0;
    let promo = tr & 8 != 0;
    let ep = tr & 16 != 0;
    let castle = tr & 32 != 0;
    let pn = ((w >> 16) & 0xF) as u8;
    let cn = (w & 0xF) as u8;
    let si = ((w >> 10) & 0x3F) as u8;
    let ti = ((w >> 4) & 0x3F) as u8;
    let side = st.side_to_move;
    let white = match side {
        Colour::White => true,
        Colour::Black => false,
    };

    // the packed word itself
    let piece = match crate::pieces::try_from_u8(pn) {
        Ok(Some(p)) => p,
        Ok(None) => {
            return false;
        },
        Err(_) => {
            return false;
        },
    };
    let capt: Option<Piece> = match crate::pieces::try_from_u8(cn) {
        Ok(o) => o,
        Err(_) => {
            return false;
        },
    };
    let ones = (if quiet {
        1u32
    } else {
        0u32
    }) + (if capture {
        1u32
    } else {
        0u32
    }) + (if castle {
        1u32
    } else {
        0u32
    }) + (if ep {
        1u32
    } else {
        0u32
    });
    if ones != 1 {
        return false;
    }
    if castle && cn != 0 {
        return false;
    }
    proof {
        assert(move_wf(w));
    }

    if piece.0 != side {
        return false;
    }
    if !st.material_layer.0[piece.index()].test_sq(si) {
        return false;
    }
    if si == ti {
        return false;
    }
    let both = crate::occupancy_layer::get_both(&st.occupancy_layer);

    if capture {
        let ok = match capt {
            Some(c) => {
                let oppc = side.opp();
                c.0 == oppc && st.material_layer.0[c.index()].test_sq(ti)
            },
            None => false,
        };
        if !ok {
            return false;
        }
    }
    if quiet {
        if cn != 0 || both.test_sq(ti) {
            return false;
        }
    }
    if castle {
        let kingish = match piece.1 {
            Kind::King => true,
            _ => false,
        };
        let geom = if white {
            si == 60 && (ti == 62 || ti == 58)
        } else {
            si == 4 && (ti == 6 || ti == 2)
        };
        if !kingish || !geom {
            return false;
        }
        let rf: u8 = if ti == 62 {
            63
        } else if ti == 58 {
            56
        } else if ti == 6 {
            7
        } else {
            0
        };
        let rt: u8 = if ti == 62 {
            61
        } else if ti == 58 {
            59
        } else if ti == 6 {
            5
        } else {
            3
        };
        let ri = crate::pieces::from_colour_kind(&side, Kind::Rook).index();
        if !st.material_layer.0[ri].test_sq(rf) || both.test_sq(ti) || both.test_sq(rt) {
            return false;
        }
    }
    if ep {
        let pawnish = match piece.1 {
            Kind::Pawn => true,
            _ => false,
        };
        if !pawnish {
            return false;
        }
        let eok = match st.en_passant {
            Some(e) => e.index() == ti,
            None => false,
        };
        if !eok {
            return false;
        }
        if cn != crate::pieces::from_colour_kind(&side.opp(), Kind::Pawn).code() {
            return false;
        }
        let cs_ok = if white {
            ti < 56
        } else {
            ti >= 8
        };
        if !cs_ok {
            return false;
        }
        let capsq = if white {
            ti + 8
        } else {
            ti - 8
        };
        let oppi = crate::pieces::from_colour_kind(&side.opp(), Kind::Pawn).index();
        if !st.material_layer.0[oppi].test_sq(capsq) || both.test_sq(ti) {
            return false;
        }
        proof {
            assert(capsq as int == capsq_of(w));
        }
    }
    if promo {
        let pawnish = match piece.1 {
            Kind::Pawn => true,
            _ => false,
        };
        let rank_ok = if white {
            ti / 8 == 0
        } else {
            ti / 8 == 7
        };
        if !pawnish || castle || ep || !rank_ok {
            return false;
        }
    }
    let pawnish = match piece.1 {
        Kind::Pawn => true,
        _ => false,
    };
    if pawnish && si >= 16 && ti == si - 16 && !(si / 8 == 6) {
        return false;
    }
    if pawnish && ti >= 16 && si == ti - 16 && !(si / 8 == 1) {
        return false;
    }
    let kingish = match piece.1 {
        Kind::King => true,
        _ => false,
    };
    if kingish && !castle {
        let sr = si / 8;
        let tr2 = ti / 8;
        let sf = si % 8;
        let tf = ti % 8;
        let drok = sr <= tr2 + 1 && tr2 <= sr + 1;
        let dfok = sf <= tf + 1 && tf <= sf + 1;
        if !(drok && dfok) {
            return false;
        }
    }
    let ep_clear = match st.en_passant {
        Some(e) => !both.test_sq(e.index()),
        None => true,
    };
    if !ep_clear {
        return false;
    }
    if !(st.half_moves < 0xFFFFFFFF && st.full_moves < 0xFFFFFFFF) {
        return false;
    }
    proof {
        assert(move_compat(*st, w));
    }
    true
}

} // verus!


verus! {

use crate::bits::{lemma_clear_bit, lemma_set_bit};

/// The squares a move adds to material bitboard `i`.
pub open spec fn apply_added(st: State, w: u32, i: int, t: int) -> bool {
    ||| (i == dest_idx(w) && t == w_target(w) as int)
    ||| (has_trait(w, MoveTrait::Castle) && i == Piece(mover_of(w).0, Kind::Rook).idx() && t
        == rook_to(w_target(w) as int))
}

/// The squares a move removes from material bitboard `i`.
pub open spec fn apply_removed(st: State, w: u32, i: int, t: int) -> bool {
    ||| (i == mover_of(w).idx() && t == w_source(w) as int)
    ||| (w_capture(w) != 0 && i == nib_piece(w_capture(w)).idx() && t == capsq_of(w))
    ||| (has_trait(w, MoveTrait::Castle) && i == Piece(mover_of(w).0, Kind::Rook).idx() && t
        == rook_from(w_target(w) as int))
}

/// What each material bitboard holds after a move, square by square:
/// what it held, less what the move removes, plus what it adds.
proof fn lemma_apply_layer_bits(st: State, w: u32, i: int)
    requires
        move_compat(st, w),
        0 <= i < 12,
    ensures
        forall|t: int|
            0 <= t < 64 ==> (#[trigger] bit(apply_mat_layer(st, w, i), t) <==> ((bit(
                st.material_layer.0@[i].0,
                t,
            ) && !apply_removed(st, w, i, t)) || apply_added(st, w, i, t))),
{
    let el = st.material_layer.0@[i].0;
    let si = w_source(w) as int;
    let ti = w_target(w) as int;
    crate::bits::lemma_field_bounds(w, 16);
    let a = if i == mover_of(w).idx() {
        el & !(1u64 << (si as u64))
    } else {
        el
    };
    let b = if i == dest_idx(w) {
        a | (1u64 << (ti as u64))
    } else {
        a
    };
    let c = if w_capture(w) != 0 && i == nib_piece(w_capture(w)).idx() {
        b & !(1u64 << (capsq_of(w) as u64))
    } else {
        b
    };
    if i == mover_of(w).idx() {
        lemma_clear_bit(el, a, si as u64);
    }
    if i == dest_idx(w) {
        lemma_set_bit(a, b, ti as u64);
    }
    if w_capture(w) != 0 && i == nib_piece(w_capture(w)).idx() {
        lemma_clear_bit(b, c, capsq_of(w) as u64);
    }
    if has_trait(w, MoveTrait::Castle) && i == Piece(mover_of(w).0, Kind::Rook).idx() {
        let rfv = rook_from(ti);
        let rtv = rook_to(ti);
        let d1 = c & !(1u64 << (rfv as u64));
        lemma_clear_bit(c, d1, rfv as u64);
        lemma_set_bit(d1, d1 | (1u64 << (rtv as u64)), rtv as u64);
    }
}

/// No square of a side's occupancy is missing from the board.
proof fn lemma_square_empty_layer(st: State, t: int, k: int)
    requires
        st.wf(),
        0 <= t < 64,
        0 <= k < 12,
        !bit(spec_both(st), t),
    ensures
        !bit(st.material_layer.0@[k].0, t),
{
    if bit(st.material_layer.0@[k].0, t) {
        crate::boardstate::lemma_occ_cover(st, k, t);
    }
}

/// Distinct material bitboards of a well-formed position never share
/// a square.
proof fn lemma_layers_disjoint_at(st: State, i: int, j: int, t: int)
    requires
        st.wf(),
        0 <= i < 12,
        0 <= j < 12,
        i != j,
        bit(st.material_layer.0@[i].0, t),
    ensures
        !bit(st.material_layer.0@[j].0, t),
{
    let lo = if i < j {
        i
    } else {
        j
    };
    let hi = if i < j {
        j
    } else {
        i
    };
    let al = st.material_layer.0@[lo].0;
    let ah = st.material_layer.0@[hi].0;
    assert(al & ah == 0);
    if lo == i {
        crate::bits::lemma_disjoint_bit(al, ah, t);
    } else {
        crate::bits::lemma_disjoint_bit_rev(al, ah, t);
    }
}

/// Law: applying a move that fits a well-formed position yields a
/// well-formed position: each occupancy is again the union of its
/// side's material, no square holds two pieces, and the bookkeeping
/// fields stay in range.
pub proof fn lemma_apply_preserves_wf(st: State, m: Move)
    requires
        st.wf(),
        move_compat(st, m.0),
    ensures
        apply_spec(st, m.0).wf(),
{
    let w = m.0;
    let s2 = apply_spec(st, w);
    let si = w_source(w) as int;
    let ti = w_target(w) as int;
    let cn = w_capture(w);
    let castle = has_trait(w, MoveTrait::Castle);
    let capture = has_trait(w, MoveTrait::Capture);
    let pidx = mover_of(w).idx();
    let didx = dest_idx(w);
    let cidx: int = if cn != 0 {
        nib_piece(cn).idx()
    } else {
        -1
    };
    let ridx = Piece(mover_of(w).0, Kind::Rook).idx();
    crate::pieces::lemma_piece_roundtrip(mover_of(w));
    crate::bits::lemma_zero_bits();

    assert forall|i: int, j: int|
        0 <= i < j < 12 implies (#[trigger] s2.material_layer.0@[i].0) & (
    #[trigger] s2.material_layer.0@[j].0) == 0 by {
        lemma_apply_layer_bits(st, w, i);
        lemma_apply_layer_bits(st, w, j);
        let ai = apply_mat_layer(st, w, i);
        let aj = apply_mat_layer(st, w, j);
        assert forall|t: int| 0 <= t < 64 implies !(bit(ai, t) && bit(aj, t)) by {
            if bit(ai, t) && bit(aj, t) {
                if apply_added(st, w, i, t) && apply_added(st, w, j, t) {
                    assert(false);
                } else if apply_added(st, w, i, t) || apply_added(st, w, j, t) {
                    let ad = if apply_added(st, w, i, t) {
                        i
                    } else {
                        j
                    };
                    let ot = if apply_added(st, w, i, t) {
                        j
                    } else {
                        i
                    };
                    assert(bit(st.material_layer.0@[ot].0, t) && !apply_removed(st, w, ot, t));
                    if ad == didx && t == ti {
                        if capture {
                            if ot == cidx {
                                assert(capsq_of(w) == ti);
                                assert(false);
                            } else {
                                lemma_layers_disjoint_at(st, cidx, ot, ti);
                            }
                        } else {
                            lemma_square_empty_layer(st, ti, ot);
                        }
                    } else {
                        assert(castle && ad == ridx && t == rook_to(ti));
                        lemma_square_empty_layer(st, rook_to(ti), ot);
                    }
                } else {
                    lemma_layers_disjoint_at(st, i, j, t);
                }
            }
        }
        crate::bits::lemma_and_bits(ai, aj);
        crate::bits::lemma_eq_by_bits(ai & aj, 0);
    }

    crate::bits::lemma_nibble_and_not();
    assert(s2.castling.0 < 16);

    match apply_ep(st, w) {
        Some(e) => {
            assert(0 <= e < 64);
            crate::position::lemma_idx_of_pos(e);
        },
        None => {},
    }
    assert(s2.wf());
}

} // verus!

verus! {

/// The squares the undo adds back to material bitboard `i`.
pub open spec fn undo_added(s2: State, d: Delta, i: int, t: int) -> bool {
    let w2 = d.0;
    let p = nib_piece(d_piece(w2));
    ||| (i == p.idx() && t == d_source(w2) as int)
    ||| (d_capture(w2) != 0 && i == nib_piece(d_capture(w2)).idx() && t == undo_capsq(s2, d))
    ||| (undo_castle(d) && i == Piece(s2.side_to_move.spec_opp(), Kind::Rook).idx() && t
        == rook_from(d_target(w2) as int))
}

/// The squares the undo takes away from material bitboard `i`.
pub open spec fn undo_removed(s2: State, d: Delta, i: int, t: int) -> bool {
    let w2 = d.0;
    let p = nib_piece(d_piece(w2));
    let di = if d_promotion(w2) {
        Piece(s2.side_to_move.spec_opp(), Kind::Queen).idx()
    } else {
        p.idx()
    };
    ||| (i == di && t == d_target(w2) as int)
    ||| (undo_castle(d) && i == Piece(s2.side_to_move.spec_opp(), Kind::Rook).idx() && t
        == rook_to(d_target(w2) as int))
}

/// What each material bitboard holds after the undo, square by square.
proof fn lemma_undo_layer_bits(s2: State, d: Delta, i: int)
    requires
        0 <= i < 12,
        d_source(d.0) < 64,
        d_target(d.0) < 64,
        0 <= undo_capsq(s2, d) < 64,
        undo_castle(d) ==> (0 <= rook_from(d_target(d.0) as int) < 64 && 0 <= rook_to(
            d_target(d.0) as int,
        ) < 64),
        undo_castle(d) ==> d_capture(d.0) == 0,
    ensures
        forall|t: int|
            0 <= t < 64 ==> (#[trigger] bit(undo_mat_layer(s2, d, i), t) <==> ((bit(
                s2.material_layer.0@[i].0,
                t,
            ) && !undo_removed(s2, d, i, t)) || undo_added(s2, d, i, t))),
{
    let w2 = d.0;
    let mover_side = s2.side_to_move.spec_opp();
    let p = nib_piece(d_piece(w2));
    let si = d_source(w2) as int;
    let ti = d_target(w2) as int;
    let cn = d_capture(w2);
    let di = if d_promotion(w2) {
        Piece(mover_side, Kind::Queen).idx()
    } else {
        p.idx()
    };
    let el = s2.material_layer.0@[i].0;
    let a = if i == di {
        el & !(1u64 << (ti as u64))
    } else {
        el
    };
    let b = if i == p.idx() {
        a | (1u64 << (si as u64))
    } else {
        a
    };
    let c = if cn != 0 && i == nib_piece(cn).idx() {
        b | (1u64 << (undo_capsq(s2, d) as u64))
    } else {
        b
    };
    if i == di {
        lemma_clear_bit(el, a, ti as u64);
    }
    if i == p.idx() {
        lemma_set_bit(a, b, si as u64);
    }
    if cn != 0 && i == nib_piece(cn).idx() {
        lemma_set_bit(b, c, undo_capsq(s2, d) as u64);
    }
    if undo_castle(d) && i == Piece(mover_side, Kind::Rook).idx() {
        let rtv = rook_to(ti);
        let rfv = rook_from(ti);
        let d1 = c & !(1u64 << (rtv as u64));
        lemma_clear_bit(c, d1, rtv as u64);
        lemma_set_bit(d1, d1 | (1u64 << (rfv as u64)), rfv as u64);
    }
}

} // verus!

verus! {

/// Law: a delta reverses its move. Undoing a move just applied to a
/// well-formed position, with the delta the application returned,
/// restores that position exactly, field for field.
#[verifier::rlimit(60)]
#[verifier::spinoff_prover]
pub proof fn lemma_apply_undo(st: State, m: Move)
    requires
        st.wf(),
        move_compat(st, m.0),
    ensures
        undo_spec(apply_spec(st, m.0), Delta(delta_word_spec(st, m.0), st.half_moves)) == st,
{
    let w = m.0;
    let s2 = apply_spec(st, w);
    let d = Delta(delta_word_spec(st, w), st.half_moves);
    let side = st.side_to_move;
    let si = w_source(w) as int;
    let ti = w_target(w) as int;
    let cn = w_capture(w);
    let castle = has_trait(w, MoveTrait::Castle);
    let ep = has_trait(w, MoveTrait::Enpassant);
    let promo = has_trait(w, MoveTrait::Promotion);
    let capture = has_trait(w, MoveTrait::Capture);
    crate::pieces::lemma_piece_roundtrip(mover_of(w));
    crate::bits::lemma_field_bounds(w, 16);

    // the delta word hands every recorded field back
    let eps: u32 = match st.en_passant {
        Some(e) => e.idx() as u32,
        None => 0,
    };
    let epf: u32 = match st.en_passant {
        Some(e) => 1,
        None => 0,
    };
    let promo01: u32 = if promo {
        1
    } else {
        0
    };
    let crv = st.castling.0;
    let ncr = apply_castling(st, w);
    let lost: u32 = ((crv & !ncr) & 0xF) as u32;
    assert(lost < 16) by (bit_vector)
        requires
            lost == ((crv & !ncr) & 0xF) as u32,
    ;
    crate::bits::lemma_delta_pack(eps, epf, promo01, lost, w);
    assert(d_piece(d.0) == w_piece(w));
    assert(d_source(d.0) == w_source(w));
    assert(d_target(d.0) == w_target(w));
    assert(d_capture(d.0) == w_capture(w));
    assert(d_promotion(d.0) == promo);
    assert(d_ep_flag(d.0) == (st.en_passant is Some));
    assert(d_castling(d.0) == lost);
    assert(s2.side_to_move.spec_opp() == side);
    assert(nib_piece(d_piece(d.0)) == mover_of(w));

    // a castle is recognised, and nothing else is mistaken for one
    if castle {
        assert(undo_castle(d));
    } else {
        if mover_of(w).1 == Kind::King {
            assert(crate::attack_masks::king_step(si, ti));
        }
        assert(!undo_castle(d));
    }

    // an en-passant capture is recognised, and no other capture is
    if ep {
        assert(cn != 0);
        assert(undo_ep_capture(d));
    } else {
        if cn != 0 && mover_of(w).1 == Kind::Pawn && d_ep_flag(d.0) && d_ep_square(d.0) == ti {
            let e = st.en_passant->Some_0;
            assert(e.idx() == ti);
            assert(!bit(spec_both(st), e.idx()));
            assert(capture);
            assert(bit(layer_of(st, side.spec_opp(), nib_piece(cn).1), ti));
            crate::boardstate::lemma_occ_cover(st, nib_piece(cn).idx(), ti);
            assert(false);
        }
        assert(!undo_ep_capture(d));
    }
    assert(undo_capsq(s2, d) == capsq_of(w));

    // every material bitboard walks back to where it started
    let pidx = mover_of(w).idx();
    let didx = dest_idx(w);
    let cidx: int = if cn != 0 {
        nib_piece(cn).idx()
    } else {
        -1
    };
    let ridx = Piece(side, Kind::Rook).idx();
    let capsq = capsq_of(w);
    assert forall|i: int| 0 <= i < 12 implies undo_mat_layer(s2, d, i)
        == st.material_layer.0@[i].0 by {
        lemma_apply_layer_bits(st, w, i);
        lemma_undo_layer_bits(s2, d, i);
        let ul = undo_mat_layer(s2, d, i);
        let ol = st.material_layer.0@[i].0;
        assert forall|t: int| 0 <= t < 64 implies bit(ul, t) == bit(ol, t) by {
            assert(bit(s2.material_layer.0@[i].0, t) == ((bit(ol, t) && !apply_removed(
                st,
                w,
                i,
                t,
            )) || apply_added(st, w, i, t)));
            if apply_added(st, w, i, t) {
                if i == didx && t == ti {
                    if capture {
                        if i == cidx {
                            assert(false);
                        } else {
                            lemma_layers_disjoint_at(st, cidx, i, ti);
                        }
                    } else {
                        lemma_square_empty_layer(st, ti, i);
                    }
                } else {
                    lemma_square_empty_layer(st, rook_to(ti), i);
                }
                assert(!bit(ol, t));
            }
            if apply_removed(st, w, i, t) {
                if i == pidx && t == si {
                    assert(bit(ol, t));
                } else if cn != 0 && i == cidx && t == capsq {
                    if ep {
                        crate::pieces::lemma_nibble_decode(Piece(side.spec_opp(), Kind::Pawn));
                        assert(nib_piece(cn) == Piece(side.spec_opp(), Kind::Pawn));
                        assert(bit(layer_of(st, side.spec_opp(), Kind::Pawn), capsq));
                    } else {
                        assert(capture);
                        assert(capsq == ti);
                        assert(bit(layer_of(st, side.spec_opp(), nib_piece(cn).1), ti));
                    }
                    assert(bit(ol, t));
                } else {
                    assert(castle && i == ridx && t == rook_from(ti));
                    assert(bit(layer_of(st, side, Kind::Rook), rook_from(ti)));
                    assert(bit(ol, t));
                }
            }
        }
        crate::bits::lemma_eq_by_bits(ul, ol);
    }

    // the castling rights come back
    let o = st.castling.0;
    if mover_of(w).1 == Kind::King {
        if side == Colour::White {
            crate::bits::lemma_and_not_in(o, 3);
        } else {
            crate::bits::lemma_and_not_in(o, 12);
        }
    } else if mover_of(w).1 == Kind::Rook {
        crate::bits::lemma_and_not_in(o, 1);
        crate::bits::lemma_and_not_in(o, 2);
        crate::bits::lemma_and_not_in(o, 4);
        crate::bits::lemma_and_not_in(o, 8);
    }
    crate::bits::lemma_and_not_in(o, 0);
    let a_cr: u8 = if mover_of(w).1 == Kind::King {
        if side == Colour::White {
            o & !3u8
        } else {
            o & !12u8
        }
    } else if mover_of(w).1 == Kind::Rook {
        if si == 63 {
            o & !1u8
        } else if si == 56 {
            o & !2u8
        } else if si == 7 {
            o & !4u8
        } else if si == 0 {
            o & !8u8
        } else {
            o
        }
    } else {
        o
    };
    assert(o & o == o) by (bit_vector);
    assert(a_cr & o == a_cr);
    crate::bits::lemma_and_not_in2(o, a_cr, 1);
    crate::bits::lemma_and_not_in2(o, a_cr, 2);
    crate::bits::lemma_and_not_in2(o, a_cr, 4);
    crate::bits::lemma_and_not_in2(o, a_cr, 8);
    assert(ncr & o == ncr);
    crate::bits::lemma_cr_restore(o, ncr);
    assert((s2.castling.0 | (d_castling(d.0) as u8)) as u8 == o);

    // and so does everything else
    match st.en_passant {
        Some(e) => {
            crate::position::lemma_pos_of_idx(e);
        },
        None => {},
    }
    let u = undo_spec(s2, d);
    assert(u.en_passant == st.en_passant);
    assert(u.half_moves == st.half_moves);
    assert(u.full_moves == st.full_moves);
    assert(u.side_to_move == st.side_to_move);
    assert forall|i: int| 0 <= i < 12 implies u.material_layer.0@[i]
        == st.material_layer.0@[i] by {
        assert(u.material_layer.0@[i].0 == undo_mat_layer(s2, d, i));
    }
    assert(u.material_layer.0 =~= st.material_layer.0);
    assert(u.occupancy_layer.0@[0].0 == st.occupancy_layer.0@[0].0);
    assert(u.occupancy_layer.0@[1].0 == st.occupancy_layer.0@[1].0);
    assert(u.occupancy_layer.0 =~= st.occupancy_layer.0);
    assert(u =~= st);
}

} // verus!
