use vstd::prelude::*;

use crate::attack_generation::{bishop_rays, rook_rays};
use crate::attack_masks::pawn_attack;
use crate::attack_tables::AttackTables;
use crate::bitboard::Bitboard;
use crate::bits::{bit, lemma_intersect_exists, lemma_or_bits};
use crate::boardstate::{
    attacked, attacks_sq, layer_of, occ_of, scan_piece, spec_both, State,
    get_piece_at_pos, is_attacked, lemma_occ_cover, lemma_occ_member, lemma_scan_char,
    lemma_scan_none,
};
use crate::colour::Colour;
use crate::movement::{Detail, Move};
use crate::occupancy_layer::get_both;
use crate::pieces::{idx_colour, idx_kind, Kind, Piece};
use crate::position::Position;

verus! {

/// A move word assembled from its five fields.
pub open spec fn mv_word(tr: u32, nib: u32, s: int, t: int, cap: u32) -> u32 {
    (tr << 20u32) | (nib << 16u32) | ((s as u32) << 10u32) | ((t as u32) << 4u32) | cap
}

/// Whether a piece of the side to move, standing on `from`, would give
/// check from there: its attack set reaches the opposing king. This
/// deliberately ignores discovered checks and the castling rook.
pub open spec fn gives_check(st: State, side: Colour, k: Kind, from: int) -> bool {
    exists|kq: int|
        #![trigger bit(layer_of(st, side.spec_opp(), Kind::King), kq)]
        bit(layer_of(st, side.spec_opp(), Kind::King), kq) && attacks_sq(st, side, k, from, kq)
}

/// Whether a move of this piece to `target` would give check, judged
/// from the target square against the current occupancy.
pub fn into_check(detail: &Detail, chessboard: &State, tables: &AttackTables) -> (r: bool)
    requires
        chessboard.wf(),
        tables.wf(),
    ensures
        r == gives_check(
            *chessboard,
            chessboard.side_to_move,
            detail.piece.1,
            detail.target.idx(),
        ),
{
    let side = chessboard.side_to_move;
    let occ = get_both(&chessboard.occupancy_layer);
    let bb = match detail.piece.1 {
        Kind::Pawn => tables.get_pawn_attacks(detail.target, side),
        Kind::Knight => tables.get_knight_attacks(detail.target),
        Kind::King => tables.get_king_attacks(detail.target),
        Kind::Bishop => tables.get_bishop_attacks(detail.target, occ),
        Kind::Rook => tables.get_rook_attacks(detail.target, occ),
        Kind::Queen => tables.get_queen_attacks(detail.target, occ),
    };
    let opp = side.opp();
    let king_bb = chessboard.material_layer.0[crate::pieces::from_colour_kind(
        &opp,
        Kind::King,
    ).index()];
    proof {
        let st = *chessboard;
        let from = detail.target.idx();
        let k = detail.piece.1;
        if k == Kind::Queen {
            lemma_or_bits(bishop_rays(occ.0, from), rook_rays(occ.0, from));
        }
        assert(king_bb.0 == layer_of(st, side.spec_opp(), Kind::King));
        assert forall|kq: int| bit(bb.0, kq) == attacks_sq(st, side, k, from, kq) by {}
        lemma_intersect_exists(bb.0, king_bb.0);
        if bb.0 & king_bb.0 != 0 {
            let t = choose|t: int|
                #![trigger bit(bb.0, t), bit(king_bb.0, t)]
                bit(bb.0, t) && bit(king_bb.0, t);
            assert(bit(layer_of(st, side.spec_opp(), Kind::King), t) && attacks_sq(
                st,
                side,
                k,
                from,
                t,
            ));
            assert(gives_check(st, side, k, from));
        } else {
            if gives_check(st, side, k, from) {
                let kq = choose|kq: int|
                    #![trigger bit(layer_of(st, side.spec_opp(), Kind::King), kq)]
                    bit(layer_of(st, side.spec_opp(), Kind::King), kq) && attacks_sq(
                        st,
                        side,
                        k,
                        from,
                        kq,
                    );
                assert(bit(bb.0, kq) && bit(king_bb.0, kq));
                assert(false);
            }
        }
    }
    !(Bitboard(bb.0 & king_bb.0).is_empty())
}

} // verus!

verus! {

/// The single push of a pawn on `s`, when the square ahead is free.
/// White pawns move towards index zero. A push onto the last rank
/// carries the promotion flag.
pub open spec fn pawn_push1(st: State, side: Colour, s: int) -> Seq<Move> {
    let nib = Piece(side, Kind::Pawn).nibble() as u32;
    if side == Colour::White {
        if s >= 8 && !bit(spec_both(st), s - 8) {
            if s / 8 == 1 {
                seq![Move(mv_word(9, nib, s, s - 8, 0))]
            } else {
                seq![Move(mv_word(1, nib, s, s - 8, 0))]
            }
        } else {
            Seq::empty()
        }
    } else {
        if s < 56 && !bit(spec_both(st), s + 8) {
            if s / 8 == 6 {
                seq![Move(mv_word(9, nib, s, s + 8, 0))]
            } else {
                seq![Move(mv_word(1, nib, s, s + 8, 0))]
            }
        } else {
            Seq::empty()
        }
    }
}

/// The double push of a pawn still on its starting rank, when both
/// squares ahead are free. A double push never promotes.
pub open spec fn pawn_push2(st: State, side: Colour, s: int) -> Seq<Move> {
    let nib = Piece(side, Kind::Pawn).nibble() as u32;
    if side == Colour::White {
        if s / 8 == 6 && !bit(spec_both(st), s - 8) && !bit(spec_both(st), s - 16) {
            seq![Move(mv_word(1, nib, s, s - 16, 0))]
        } else {
            Seq::empty()
        }
    } else {
        if s / 8 == 1 && !bit(spec_both(st), s + 8) && !bit(spec_both(st), s + 16) {
            seq![Move(mv_word(1, nib, s, s + 16, 0))]
        } else {
            Seq::empty()
        }
    }
}

/// The capture of a pawn on `s` onto `t`, when `t` holds an enemy
/// piece under the pawn's attack. A capture onto the last rank always
/// promotes; other captures carry the check flag when they give one.
pub open spec fn pawn_cap_at(st: State, side: Colour, s: int, t: int) -> Seq<Move> {
    let nib = Piece(side, Kind::Pawn).nibble() as u32;
    if pawn_attack(side, s, t) && bit(occ_of(st, side.spec_opp()), t) {
        let ci = scan_piece(st, t, 0);
        let cap = if ci < 12 {
            Piece(idx_colour(ci as int), idx_kind(ci as int)).nibble() as u32
        } else {
            0
        };
        let promo = if side == Colour::White {
            s / 8 == 1
        } else {
            s / 8 == 6
        };
        let tr: u32 = if promo {
            10
        } else if gives_check(st, side, Kind::Pawn, t) {
            6
        } else {
            2
        };
        seq![Move(mv_word(tr, nib, s, t, cap))]
    } else {
        Seq::empty()
    }
}

/// The captures of a pawn on `s` onto the squares below `t`, in
/// ascending target order.
pub open spec fn pawn_caps_pre(st: State, side: Colour, s: int, t: nat) -> Seq<Move>
    decreases t,
{
    if t == 0 {
        Seq::empty()
    } else {
        pawn_caps_pre(st, side, s, (t - 1) as nat) + pawn_cap_at(st, side, s, t - 1)
    }
}

/// The en-passant capture of a pawn on `s`, when the en-passant square
/// is set and under its attack.
pub open spec fn pawn_ep(st: State, side: Colour, s: int) -> Seq<Move> {
    let nib = Piece(side, Kind::Pawn).nibble() as u32;
    let cap = Piece(side.spec_opp(), Kind::Pawn).nibble() as u32;
    match st.en_passant {
        Some(e) => {
            if pawn_attack(side, s, e.idx()) {
                let tr: u32 = if gives_check(st, side, Kind::Pawn, e.idx()) {
                    20
                } else {
                    16
                };
                seq![Move(mv_word(tr, nib, s, e.idx(), cap))]
            } else {
                Seq::empty()
            }
        },
        None => Seq::empty(),
    }
}

/// Every move of a pawn standing on `s`: push, double push, captures
/// in target order, then en passant.
pub open spec fn pawn_at(st: State, side: Colour, s: int) -> Seq<Move> {
    if bit(layer_of(st, side, Kind::Pawn), s) {
        pawn_push1(st, side, s) + pawn_push2(st, side, s) + pawn_caps_pre(st, side, s, 64)
            + pawn_ep(st, side, s)
    } else {
        Seq::empty()
    }
}

/// The pawn moves from squares below `s`, in ascending square order.
pub open spec fn pawn_pre(st: State, side: Colour, s: nat) -> Seq<Move>
    decreases s,
{
    if s == 0 {
        Seq::empty()
    } else {
        pawn_pre(st, side, (s - 1) as nat) + pawn_at(st, side, s - 1)
    }
}

/// Generate every pawn move of the side to move, one source square at
/// a time in ascending order.
pub fn generate_pawn_moves(board: &State, tables: &AttackTables) -> (r: Vec<Move>)
    requires
        board.wf(),
        tables.wf(),
    ensures
        r@ == pawn_pre(*board, board.side_to_move, 64),
{
    let side = board.side_to_move;
    let layer = board.material_layer.0[crate::pieces::from_colour_kind(&side, Kind::Pawn).index()];
    let mut v: Vec<Move> = Vec::new();
    let mut s: u8 = 0;
    while s < 64
        invariant
            s <= 64,
            board.wf(),
            tables.wf(),
            side == board.side_to_move,
            layer.0 == layer_of(*board, side, Kind::Pawn),
            v@ == pawn_pre(*board, side, s as nat),
        decreases 64 - s,
    {
        if layer.test_sq(s) {
            pawn_square_moves(board, tables, s, &mut v);
        } else {
            proof {
                assert(pawn_at(*board, side, s as int) =~= Seq::<Move>::empty());
                assert(v@ =~= pawn_pre(*board, side, (s + 1) as nat));
            }
        }
        s = s + 1;
    }
    v
}

/// Append every move of the pawn on square `s` to the list.
fn pawn_square_moves(board: &State, tables: &AttackTables, s: u8, v: &mut Vec<Move>)
    requires
        board.wf(),
        tables.wf(),
        s < 64,
        bit(layer_of(*board, board.side_to_move, Kind::Pawn), s as int),
    ensures
        final(v)@ == old(v)@ + pawn_at(*board, board.side_to_move, s as int),
{
    let ghost st = *board;
    let ghost base = old(v)@;
    let side = board.side_to_move;
    let sq = match Position::from_u8(s) {
        Some(q) => q,
        None => {
            proof {
                assert(false);
            }
            Position::A8
        },
    };
    let nib = crate::pieces::from_colour_kind(&side, Kind::Pawn).code();
    let both = get_both(&board.occupancy_layer);
    let white = match side {
        Colour::White => true,
        Colour::Black => false,
    };

    // single push
    let t1_ok = if white {
        s >= 8
    } else {
        s < 56
    };
    if t1_ok {
        let t1 = if white {
            s - 8
        } else {
            s + 8
        };
        if !both.test_sq(t1) {
            let promo = if white {
                s / 8 == 1
            } else {
                s / 8 == 6
            };
            let tr: u32 = if promo {
                9
            } else {
                1
            };
            let w = (tr << 20) | ((nib as u32) << 16) | ((s as u32) << 10) | ((t1 as u32) << 4);
            v.push(Move(w));
            proof {
                crate::bits::lemma_or_zero32();
                assert(w == mv_word(tr, nib as u32, s as int, t1 as int, 0));
                assert(pawn_push1(st, side, s as int) =~= seq![
                    Move(mv_word(tr, nib as u32, s as int, t1 as int, 0)),
                ]);
            }
        } else {
            proof {
                assert(pawn_push1(st, side, s as int) =~= Seq::<Move>::empty());
            }
        }
    } else {
        proof {
            assert(pawn_push1(st, side, s as int) =~= Seq::<Move>::empty());
        }
    }
    proof {
        assert(v@ =~= base + pawn_push1(st, side, s as int));
    }
    let ghost base1 = v@;

    // double push
    let start_rank = if white {
        s / 8 == 6
    } else {
        s / 8 == 1
    };
    if start_rank {
        let t1 = if white {
            s - 8
        } else {
            s + 8
        };
        let t2 = if white {
            s - 16
        } else {
            s + 16
        };
        if !both.test_sq(t1) && !both.test_sq(t2) {
            let w = (1u32 << 20) | ((nib as u32) << 16) | ((s as u32) << 10) | ((t2 as u32) << 4);
            v.push(Move(w));
            proof {
                crate::bits::lemma_or_zero32();
                assert(w == mv_word(1, nib as u32, s as int, t2 as int, 0));
                assert(pawn_push2(st, side, s as int) =~= seq![
                    Move(mv_word(1, nib as u32, s as int, t2 as int, 0)),
                ]);
            }
        } else {
            proof {
                assert(pawn_push2(st, side, s as int) =~= Seq::<Move>::empty());
            }
        }
    } else {
        proof {
            assert(pawn_push2(st, side, s as int) =~= Seq::<Move>::empty());
        }
    }
    proof {
        assert(v@ =~= base1 + pawn_push2(st, side, s as int));
    }
    let ghost base2 = v@;

    // captures, in ascending target order
    let patt = tables.get_pawn_attacks(sq, side);
    let opp = side.opp();
    let opp_occ = board.occupancy_layer.0[opp.index()];
    proof {
        assert(opp_occ.0 == occ_of(st, side.spec_opp()));
    }
    let mut t: u8 = 0;
    while t < 64
        invariant
            t <= 64,
            board.wf(),
            tables.wf(),
            st == *board,
            side == board.side_to_move,
            sq.idx() == s as int,
            s < 64,
            nib == Piece(side, Kind::Pawn).nibble(),
            white == (side == Colour::White),
            forall|j: int| #[trigger] bit(patt.0, j) <==> pawn_attack(side, s as int, j),
            opp_occ.0 == occ_of(st, side.spec_opp()),
            v@ == base2 + pawn_caps_pre(st, side, s as int, t as nat),
        decreases 64 - t,
    {
        if patt.test_sq(t) && opp_occ.test_sq(t) {
            let tpos = match Position::from_u8(t) {
                Some(q) => q,
                None => {
                    proof {
                        assert(false);
                    }
                    Position::A8
                },
            };
            let cap: u8 = match get_piece_at_pos(board, tpos) {
                Some(pc) => {
                    proof {
                        lemma_scan_char(st, t as int, pc.idx() as nat);
                    }
                    pc.code()
                },
                None => {
                    proof {
                        lemma_occ_member(st, side.spec_opp(), t as int);
                        assert(false);
                    }
                    0
                },
            };
            let promo = if white {
                s / 8 == 1
            } else {
                s / 8 == 6
            };
            let tr: u32 = if promo {
                10
            } else {
                let checks = into_check(
                    &Detail { piece: crate::pieces::from_colour_kind(&side, Kind::Pawn), source: sq, target: tpos },
                    board,
                    tables,
                );
                if checks {
                    6
                } else {
                    2
                }
            };
            let w = (tr << 20) | ((nib as u32) << 16) | ((s as u32) << 10) | ((t as u32) << 4) | (
            cap as u32);
            v.push(Move(w));
            proof {
                assert(w == mv_word(tr, nib as u32, s as int, t as int, cap as u32));
                let ci = scan_piece(st, t as int, 0);
                assert(ci < 12);
                assert(cap as u32 == (Piece(idx_colour(ci as int), idx_kind(ci as int)).nibble()
                    as u32));
                assert(pawn_attack(side, s as int, t as int));
                assert(bit(occ_of(st, side.spec_opp()), t as int));
                assert(tr == 10 || tr == 6 || tr == 2);
                let spec_seq = pawn_cap_at(st, side, s as int, t as int);
                assert(spec_seq.len() == 1);
                let spec_promo = if side == Colour::White {
                    (s as int) / 8 == 1
                } else {
                    (s as int) / 8 == 6
                };
                assert(spec_promo == promo);
                let spec_tr: u32 = if spec_promo {
                    10
                } else if gives_check(st, side, Kind::Pawn, t as int) {
                    6
                } else {
                    2
                };
                assert(spec_tr == tr);
                assert(spec_seq[0] == Move(mv_word(tr, nib as u32, s as int, t as int, cap
                    as u32)));
                assert(pawn_cap_at(st, side, s as int, t as int) =~= seq![
                    Move(mv_word(tr, nib as u32, s as int, t as int, cap as u32)),
                ]);
                assert(v@ =~= base2 + pawn_caps_pre(st, side, s as int, (t + 1) as nat));
            }
        } else {
            proof {
                assert(pawn_cap_at(st, side, s as int, t as int) =~= Seq::<Move>::empty());
                assert(v@ =~= base2 + pawn_caps_pre(st, side, s as int, (t + 1) as nat));
            }
        }
        t = t + 1;
    }
    let ghost base3 = v@;

    // en passant
    match board.en_passant {
        Some(e) => {
            if patt.is_occupied(e) {
                let cap = crate::pieces::from_colour_kind(&opp, Kind::Pawn).code();
                let checks = into_check(
                    &Detail { piece: crate::pieces::from_colour_kind(&side, Kind::Pawn), source: sq, target: e },
                    board,
                    tables,
                );
                let tr: u32 = if checks {
                    20
                } else {
                    16
                };
                let ei = e.index();
                let w = (tr << 20) | ((nib as u32) << 16) | ((s as u32) << 10) | ((ei as u32) << 4)
                    | (cap as u32);
                v.push(Move(w));
                proof {
                    assert(w == mv_word(tr, nib as u32, s as int, e.idx(), cap as u32));
                    assert(pawn_ep(st, side, s as int) =~= seq![
                        Move(mv_word(tr, nib as u32, s as int, e.idx(), cap as u32)),
                    ]);
                }
            } else {
                proof {
                    assert(pawn_ep(st, side, s as int) =~= Seq::<Move>::empty());
                }
            }
        },
        None => {
            proof {
                assert(pawn_ep(st, side, s as int) =~= Seq::<Move>::empty());
            }
        },
    }
    proof {
        assert(v@ =~= base3 + pawn_ep(st, side, s as int));
        assert(v@ =~= base + pawn_at(st, side, s as int));
    }
}

} // verus!

verus! {

/// One candidate target of a knight, bishop, rook, queen or king on
/// `s`: kept when the piece attacks it and no friendly piece sits
/// there; a capture when an enemy piece does.
pub open spec fn major_target_at(st: State, side: Colour, kind: Kind, s: int, t: int) -> Seq<
    Move,
> {
    let nib = Piece(side, kind).nibble() as u32;
    if attacks_sq(st, side, kind, s, t) && !bit(occ_of(st, side), t) {
        let ci = scan_piece(st, t, 0);
        if ci < 12 {
            let cap = Piece(idx_colour(ci as int), idx_kind(ci as int)).nibble() as u32;
            let tr: u32 = if gives_check(st, side, kind, t) {
                6
            } else {
                2
            };
            seq![Move(mv_word(tr, nib, s, t, cap))]
        } else {
            let tr: u32 = if gives_check(st, side, kind, t) {
                5
            } else {
                1
            };
            seq![Move(mv_word(tr, nib, s, t, 0))]
        }
    } else {
        Seq::empty()
    }
}

/// The moves of the piece on `s` onto targets below `t`, ascending.
pub open spec fn major_targets_pre(st: State, side: Colour, kind: Kind, s: int, t: nat) -> Seq<
    Move,
>
    decreases t,
{
    if t == 0 {
        Seq::empty()
    } else {
        major_targets_pre(st, side, kind, s, (t - 1) as nat) + major_target_at(
            st,
            side,
            kind,
            s,
            t - 1,
        )
    }
}

/// Every move of a piece of the given kind standing on `s`.
pub open spec fn major_at(st: State, side: Colour, kind: Kind, s: int) -> Seq<Move> {
    if bit(layer_of(st, side, kind), s) {
        major_targets_pre(st, side, kind, s, 64)
    } else {
        Seq::empty()
    }
}

/// The moves of the given kind from squares below `s`, ascending.
pub open spec fn major_pre(st: State, side: Colour, kind: Kind, s: nat) -> Seq<Move>
    decreases s,
{
    if s == 0 {
        Seq::empty()
    } else {
        major_pre(st, side, kind, (s - 1) as nat) + major_at(st, side, kind, s - 1)
    }
}

/// Generate every move of the side's pieces of one kind, one source
/// square at a time in ascending order.
pub fn generate_major_piece_moves(board: &State, tables: &AttackTables, piece: Kind) -> (r: Vec<
    Move,
>)
    requires
        board.wf(),
        tables.wf(),
        piece != Kind::Pawn,
    ensures
        r@ == major_pre(*board, board.side_to_move, piece, 64),
{
    let side = board.side_to_move;
    let layer = board.material_layer.0[crate::pieces::from_colour_kind(&side, piece).index()];
    let mut v: Vec<Move> = Vec::new();
    let mut s: u8 = 0;
    while s < 64
        invariant
            s <= 64,
            board.wf(),
            tables.wf(),
            piece != Kind::Pawn,
            side == board.side_to_move,
            layer.0 == layer_of(*board, side, piece),
            v@ == major_pre(*board, side, piece, s as nat),
        decreases 64 - s,
    {
        if layer.test_sq(s) {
            major_square_moves(board, tables, piece, s, &mut v);
        } else {
            proof {
                assert(major_at(*board, side, piece, s as int) =~= Seq::<Move>::empty());
                assert(v@ =~= major_pre(*board, side, piece, (s + 1) as nat));
            }
        }
        s = s + 1;
    }
    v
}

/// Append every move of the piece of the given kind on square `s`.
fn major_square_moves(board: &State, tables: &AttackTables, piece: Kind, s: u8, v: &mut Vec<Move>)
    requires
        board.wf(),
        tables.wf(),
        piece != Kind::Pawn,
        s < 64,
        bit(layer_of(*board, board.side_to_move, piece), s as int),
    ensures
        final(v)@ == old(v)@ + major_at(*board, board.side_to_move, piece, s as int),
{
    let ghost st = *board;
    let ghost base = old(v)@;
    let side = board.side_to_move;
    let sq = match Position::from_u8(s) {
        Some(q) => q,
        None => {
            proof {
                assert(false);
            }
            Position::A8
        },
    };
    let nib = crate::pieces::from_colour_kind(&side, piece).code();
    let occ = get_both(&board.occupancy_layer);
    let raw = match piece {
        Kind::Knight => tables.get_knight_attacks(sq),
        Kind::King => tables.get_king_attacks(sq),
        Kind::Bishop => tables.get_bishop_attacks(sq, occ),
        Kind::Rook => tables.get_rook_attacks(sq, occ),
        Kind::Queen => tables.get_queen_attacks(sq, occ),
        Kind::Pawn => Bitboard(0),
    };
    let own_occ = board.occupancy_layer.0[side.index()];
    let attacks = Bitboard(raw.0 & !own_occ.0);
    proof {
        if piece == Kind::Queen {
            lemma_or_bits(bishop_rays(occ.0, s as int), rook_rays(occ.0, s as int));
        }
        crate::bits::lemma_not_bits(own_occ.0);
        crate::bits::lemma_and_bits(raw.0, !own_occ.0);
        assert(own_occ.0 == occ_of(st, side));
        assert forall|j: int| 0 <= j < 64 implies (#[trigger] bit(attacks.0, j) == (attacks_sq(
            st,
            side,
            piece,
            s as int,
            j,
        ) && !bit(occ_of(st, side), j))) by {}
    }
    let mut t: u8 = 0;
    while t < 64
        invariant
            t <= 64,
            board.wf(),
            tables.wf(),
            st == *board,
            piece != Kind::Pawn,
            side == board.side_to_move,
            sq.idx() == s as int,
            s < 64,
            nib == Piece(side, piece).nibble(),
            forall|j: int|
                0 <= j < 64 ==> (#[trigger] bit(attacks.0, j) == (attacks_sq(
                    st,
                    side,
                    piece,
                    s as int,
                    j,
                ) && !bit(occ_of(st, side), j))),
            v@ == base + major_targets_pre(st, side, piece, s as int, t as nat),
        decreases 64 - t,
    {
        if attacks.test_sq(t) {
            let tpos = match Position::from_u8(t) {
                Some(q) => q,
                None => {
                    proof {
                        assert(false);
                    }
                    Position::A8
                },
            };
            let checks = into_check(
                &Detail {
                    piece: crate::pieces::from_colour_kind(&side, piece),
                    source: sq,
                    target: tpos,
                },
                board,
                tables,
            );
            let w: u32 = match get_piece_at_pos(board, tpos) {
                Some(pc) => {
                    proof {
                        lemma_scan_char(st, t as int, pc.idx() as nat);
                    }
                    let cap = pc.code();
                    let tr: u32 = if checks {
                        6
                    } else {
                        2
                    };
                    (tr << 20) | ((nib as u32) << 16) | ((s as u32) << 10) | ((t as u32) << 4) | (
                    cap as u32)
                },
                None => {
                    proof {
                        lemma_scan_none(st, t as int);
                        crate::bits::lemma_or_zero32();
                    }
                    let tr: u32 = if checks {
                        5
                    } else {
                        1
                    };
                    (tr << 20) | ((nib as u32) << 16) | ((s as u32) << 10) | ((t as u32) << 4)
                },
            };
            v.push(Move(w));
            proof {
                assert(major_target_at(st, side, piece, s as int, t as int) =~= seq![Move(w)]);
                assert(v@ =~= base + major_targets_pre(st, side, piece, s as int, (t + 1) as nat));
            }
        } else {
            proof {
                assert(major_target_at(st, side, piece, s as int, t as int)
                    =~= Seq::<Move>::empty());
                assert(v@ =~= base + major_targets_pre(st, side, piece, s as int, (t + 1) as nat));
            }
        }
        t = t + 1;
    }
    proof {
        assert(v@ =~= base + major_at(st, side, piece, s as int));
    }
}

} // verus!

verus! {

/// The castle moves of the side to move, king side before queen side.
/// A castle needs its right to be intact, the squares between king and
/// rook to be free, and the king's own and crossing squares to be out
/// of enemy attack; the move is encoded as the king's two-square step.
pub open spec fn castle_moves_spec(st: State) -> Seq<Move> {
    let side = st.side_to_move;
    let opp = side.spec_opp();
    let nib = Piece(side, Kind::King).nibble() as u32;
    let both = spec_both(st);
    if side == Colour::White {
        (if st.castling.0 & 1 != 0 && !attacked(st, 60, opp) && !attacked(st, 62, opp) && !bit(
            both,
            61,
        ) && !bit(both, 62) {
            seq![Move(mv_word(32, nib, 60, 62, 0))]
        } else {
            Seq::empty()
        }) + (if st.castling.0 & 2 != 0 && !attacked(st, 60, opp) && !attacked(st, 58, opp)
            && !bit(both, 59) && !bit(both, 58) && !bit(both, 57) {
            seq![Move(mv_word(32, nib, 60, 58, 0))]
        } else {
            Seq::empty()
        })
    } else {
        (if st.castling.0 & 4 != 0 && !attacked(st, 4, opp) && !attacked(st, 6, opp) && !bit(
            both,
            5,
        ) && !bit(both, 6) {
            seq![Move(mv_word(32, nib, 4, 6, 0))]
        } else {
            Seq::empty()
        }) + (if st.castling.0 & 8 != 0 && !attacked(st, 4, opp) && !attacked(st, 2, opp) && !bit(
            both,
            3,
        ) && !bit(both, 2) && !bit(both, 1) {
            seq![Move(mv_word(32, nib, 4, 2, 0))]
        } else {
            Seq::empty()
        })
    }
}

/// Generate the castle moves of the side to move.
pub fn generate_castle_moves(board: &State, tables: &AttackTables) -> (r: Vec<Move>)
    requires
        board.wf(),
        tables.wf(),
    ensures
        r@ == castle_moves_spec(*board),
{
    let ghost st = *board;
    let side = board.side_to_move;
    let nib = crate::pieces::from_colour_kind(&side, Kind::King).code();
    let both = get_both(&board.occupancy_layer);
    let mut v: Vec<Move> = Vec::new();
    proof {
        crate::bits::lemma_or_zero32();
    }
    let white = match side {
        Colour::White => true,
        Colour::Black => false,
    };
    if white {
        if board.castling.0 & 1 != 0 && !both.test_sq(61) && !both.test_sq(62) && !is_attacked(
            board,
            Position::E1,
            tables,
        ) && !is_attacked(board, Position::G1, tables) {
            let w = (32u32 << 20) | ((nib as u32) << 16) | (60u32 << 10) | (62u32 << 4);
            v.push(Move(w));
            proof {
                assert(w == mv_word(32, nib as u32, 60, 62, 0));
            }
        }
        if board.castling.0 & 2 != 0 && !both.test_sq(59) && !both.test_sq(58) && !both.test_sq(57)
            && !is_attacked(board, Position::E1, tables) && !is_attacked(
            board,
            Position::C1,
            tables,
        ) {
            let w = (32u32 << 20) | ((nib as u32) << 16) | (60u32 << 10) | (58u32 << 4);
            v.push(Move(w));
            proof {
                assert(w == mv_word(32, nib as u32, 60, 58, 0));
            }
        }
    } else {
        if board.castling.0 & 4 != 0 && !both.test_sq(5) && !both.test_sq(6) && !is_attacked(
            board,
            Position::E8,
            tables,
        ) && !is_attacked(board, Position::G8, tables) {
            let w = (32u32 << 20) | ((nib as u32) << 16) | (4u32 << 10) | (6u32 << 4);
            v.push(Move(w));
            proof {
                assert(w == mv_word(32, nib as u32, 4, 6, 0));
            }
        }
        if board.castling.0 & 8 != 0 && !both.test_sq(3) && !both.test_sq(2) && !both.test_sq(1)
            && !is_attacked(board, Position::E8, tables) && !is_attacked(
            board,
            Position::C8,
            tables,
        ) {
            let w = (32u32 << 20) | ((nib as u32) << 16) | (4u32 << 10) | (2u32 << 4);
            v.push(Move(w));
            proof {
                assert(w == mv_word(32, nib as u32, 4, 2, 0));
            }
        }
    }
    proof {
        assert(v@ =~= castle_moves_spec(st));
    }
    v
}

/// Every pseudo-legal move of the position, in a fixed order: pawn
/// moves, castles, then knight, rook, bishop, queen and king moves,
/// each family walking its source squares in ascending order. The
/// result is a function of the position alone: two calls agree.
pub open spec fn gen_moves_spec(st: State) -> Seq<Move> {
    let side = st.side_to_move;
    pawn_pre(st, side, 64) + castle_moves_spec(st) + major_pre(st, side, Kind::Knight, 64)
        + major_pre(st, side, Kind::Rook, 64) + major_pre(st, side, Kind::Bishop, 64) + major_pre(
        st,
        side,
        Kind::Queen,
        64,
    ) + major_pre(st, side, Kind::King, 64)
}

/// Generate every pseudo-legal move of the side to move.
pub fn generate_moves(chessboard: &State, tables: &AttackTables) -> (r: Vec<Move>)
    requires
        chessboard.wf(),
        tables.wf(),
    ensures
        r@ == gen_moves_spec(*chessboard),
{
    let mut v = generate_pawn_moves(chessboard, tables);
    let mut c = generate_castle_moves(chessboard, tables);
    v.append(&mut c);
    let mut m1 = generate_major_piece_moves(chessboard, tables, Kind::Knight);
    v.append(&mut m1);
    let mut m2 = generate_major_piece_moves(chessboard, tables, Kind::Rook);
    v.append(&mut m2);
    let mut m3 = generate_major_piece_moves(chessboard, tables, Kind::Bishop);
    v.append(&mut m3);
    let mut m4 = generate_major_piece_moves(chessboard, tables, Kind::Queen);
    v.append(&mut m4);
    let mut m5 = generate_major_piece_moves(chessboard, tables, Kind::King);
    v.append(&mut m5);
    proof {
        assert(v@ =~= gen_moves_spec(*chessboard));
    }
    v
}

} // verus!

verus! {

use crate::movement::{has_trait, w_capture, w_target, MoveTrait};

/// What a well-formed capture move must record: the packed capture
/// field names exactly the piece standing on the target square.
pub open spec fn capture_ok(st: State, m: Move) -> bool {
    has_trait(m.0, MoveTrait::Capture) ==> {
        let t = w_target(m.0) as int;
        let ci = scan_piece(st, t, 0);
        &&& ci < 12
        &&& w_capture(m.0) == Piece(idx_colour(ci as int), idx_kind(ci as int)).nibble()
    }
}

/// A generated word takes its five fields apart again.
proof fn lemma_gen_word(tr: u32, nib: u32, s: int, t: int, cap: u32)
    requires
        tr < 4096,
        nib < 16,
        0 <= s < 64,
        0 <= t < 64,
        cap < 16,
    ensures
        crate::movement::w_traits(mv_word(tr, nib, s, t, cap)) == tr,
        crate::movement::w_piece(mv_word(tr, nib, s, t, cap)) == nib,
        crate::movement::w_source(mv_word(tr, nib, s, t, cap)) == s,
        w_target(mv_word(tr, nib, s, t, cap)) == t,
        w_capture(mv_word(tr, nib, s, t, cap)) == cap,
{
    crate::bits::lemma_word_fields(tr, nib, s as u32, t as u32, cap);
}

proof fn lemma_pawn_at_ok(st: State, side: Colour, s: int)
    requires
        st.wf(),
        0 <= s < 64,
    ensures
        forall|i: int|
            0 <= i < pawn_at(st, side, s).len() ==> capture_ok(st, #[trigger] pawn_at(
                st,
                side,
                s,
            )[i]),
    decreases 65int,
{
    crate::bits::lemma_trait_bits();
    let nib = Piece(side, Kind::Pawn).nibble() as u32;
    assert(nib < 16);
    assert forall|i: int|
        0 <= i < pawn_push1(st, side, s).len() implies capture_ok(st, pawn_push1(st, side, s)[i]) by {
        let m = pawn_push1(st, side, s)[i];
        if side == Colour::White {
            lemma_gen_word(if s / 8 == 1 {
                9
            } else {
                1
            }, nib, s, s - 8, 0);
        } else {
            lemma_gen_word(if s / 8 == 6 {
                9
            } else {
                1
            }, nib, s, s + 8, 0);
        }
    }
    assert forall|i: int|
        0 <= i < pawn_push2(st, side, s).len() implies capture_ok(st, pawn_push2(st, side, s)[i]) by {
        if side == Colour::White {
            lemma_gen_word(1, nib, s, s - 16, 0);
        } else {
            lemma_gen_word(1, nib, s, s + 16, 0);
        }
    }
    assert forall|t: int, i: int|
        #![trigger pawn_cap_at(st, side, s, t)[i]]
        0 <= t < 64 && 0 <= i < pawn_cap_at(st, side, s, t).len() implies capture_ok(
        st,
        pawn_cap_at(st, side, s, t)[i],
    ) by {
        lemma_cap_at_ok(st, side, s, t);
    }
    lemma_caps_pre_ok(st, side, s, 64);
    assert forall|i: int|
        0 <= i < pawn_ep(st, side, s).len() implies capture_ok(st, pawn_ep(st, side, s)[i]) by {
        match st.en_passant {
            Some(e) => {
                if pawn_attack(side, s, e.idx()) {
                    let cap = Piece(side.spec_opp(), Kind::Pawn).nibble() as u32;
                    assert(cap < 16);
                    if gives_check(st, side, Kind::Pawn, e.idx()) {
                        lemma_gen_word(20, nib, s, e.idx(), cap);
                    } else {
                        lemma_gen_word(16, nib, s, e.idx(), cap);
                    }
                }
            },
            None => {},
        }
    }
}

proof fn lemma_cap_at_ok(st: State, side: Colour, s: int, t: int)
    requires
        st.wf(),
        0 <= s < 64,
        0 <= t < 64,
    ensures
        forall|i: int|
            0 <= i < pawn_cap_at(st, side, s, t).len() ==> capture_ok(st, #[trigger] pawn_cap_at(
                st,
                side,
                s,
                t,
            )[i]),
{
    crate::bits::lemma_trait_bits();
    if pawn_attack(side, s, t) && bit(occ_of(st, side.spec_opp()), t) {
        lemma_occ_member(st, side.spec_opp(), t);
        let wi = choose|i: int|
            side.spec_opp().idx() * 6 <= i < side.spec_opp().idx() * 6 + 6 && bit(
                #[trigger] st.material_layer.0@[i].0,
                t,
            );
        crate::boardstate::lemma_scan_finds(st, t, wi);
        let ci = scan_piece(st, t, 0);
        let nib = Piece(side, Kind::Pawn).nibble() as u32;
        let cap = Piece(idx_colour(ci as int), idx_kind(ci as int)).nibble() as u32;
        assert(nib < 16 && cap < 16);
        let promo = if side == Colour::White {
            s / 8 == 1
        } else {
            s / 8 == 6
        };
        let tr: u32 = if promo {
            10
        } else if gives_check(st, side, Kind::Pawn, t) {
            6
        } else {
            2
        };
        lemma_gen_word(tr, nib, s, t, cap);
    }
}

proof fn lemma_caps_pre_ok(st: State, side: Colour, s: int, t: nat)
    requires
        st.wf(),
        0 <= s < 64,
        t <= 64,
        forall|t2: int, i: int|
            #![trigger pawn_cap_at(st, side, s, t2)[i]]
            0 <= t2 < 64 && 0 <= i < pawn_cap_at(st, side, s, t2).len() ==> capture_ok(
                st,
                pawn_cap_at(st, side, s, t2)[i],
            ),
    ensures
        forall|i: int|
            0 <= i < pawn_caps_pre(st, side, s, t).len() ==> capture_ok(st, #[trigger]
            pawn_caps_pre(st, side, s, t)[i]),
    decreases t,
{
    if t > 0 {
        lemma_caps_pre_ok(st, side, s, (t - 1) as nat);
        let a = pawn_caps_pre(st, side, s, (t - 1) as nat);
        let b = pawn_cap_at(st, side, s, t - 1);
        assert forall|i: int|
            0 <= i < pawn_caps_pre(st, side, s, t).len() implies capture_ok(st, #[trigger]
        pawn_caps_pre(st, side, s, t)[i]) by {
            if i < a.len() {
                assert(pawn_caps_pre(st, side, s, t)[i] == a[i]);
            } else {
                assert(pawn_caps_pre(st, side, s, t)[i] == b[i - a.len()]);
            }
        }
    }
}

proof fn lemma_pawn_pre_ok(st: State, side: Colour, s: nat)
    requires
        st.wf(),
        s <= 64,
    ensures
        forall|i: int|
            0 <= i < pawn_pre(st, side, s).len() ==> capture_ok(st, #[trigger] pawn_pre(
                st,
                side,
                s,
            )[i]),
    decreases s,
{
    if s > 0 {
        lemma_pawn_pre_ok(st, side, (s - 1) as nat);
        lemma_pawn_at_ok(st, side, s - 1);
        let a = pawn_pre(st, side, (s - 1) as nat);
        let b = pawn_at(st, side, s - 1);
        assert forall|i: int|
            0 <= i < pawn_pre(st, side, s).len() implies capture_ok(st, #[trigger] pawn_pre(
            st,
            side,
            s,
        )[i]) by {
            if i < a.len() {
                assert(pawn_pre(st, side, s)[i] == a[i]);
            } else {
                assert(pawn_pre(st, side, s)[i] == b[i - a.len()]);
            }
        }
    }
}

proof fn lemma_major_at_ok(st: State, side: Colour, kind: Kind, s: int)
    requires
        st.wf(),
        0 <= s < 64,
    ensures
        forall|i: int|
            0 <= i < major_at(st, side, kind, s).len() ==> capture_ok(st, #[trigger] major_at(
                st,
                side,
                kind,
                s,
            )[i]),
{
    crate::bits::lemma_trait_bits();
    let nib = Piece(side, kind).nibble() as u32;
    assert(nib < 16);
    assert forall|t: int, i: int|
        #![trigger major_target_at(st, side, kind, s, t)[i]]
        0 <= t < 64 && 0 <= i < major_target_at(st, side, kind, s, t).len() implies capture_ok(
        st,
        major_target_at(st, side, kind, s, t)[i],
    ) by {
        if attacks_sq(st, side, kind, s, t) && !bit(occ_of(st, side), t) {
            let ci = scan_piece(st, t, 0);
            if ci < 12 {
                let cap = Piece(idx_colour(ci as int), idx_kind(ci as int)).nibble() as u32;
                assert(cap < 16);
                let tr: u32 = if gives_check(st, side, kind, t) {
                    6
                } else {
                    2
                };
                lemma_gen_word(tr, nib, s, t, cap);
            } else {
                let tr: u32 = if gives_check(st, side, kind, t) {
                    5
                } else {
                    1
                };
                lemma_gen_word(tr, nib, s, t, 0);
            }
        }
    }
    lemma_major_targets_pre_ok(st, side, kind, s, 64);
}

proof fn lemma_major_targets_pre_ok(st: State, side: Colour, kind: Kind, s: int, t: nat)
    requires
        st.wf(),
        0 <= s < 64,
        t <= 64,
        forall|t2: int, i: int|
            #![trigger major_target_at(st, side, kind, s, t2)[i]]
            0 <= t2 < 64 && 0 <= i < major_target_at(st, side, kind, s, t2).len() ==> capture_ok(
                st,
                major_target_at(st, side, kind, s, t2)[i],
            ),
    ensures
        forall|i: int|
            0 <= i < major_targets_pre(st, side, kind, s, t).len() ==> capture_ok(st, #[trigger]
            major_targets_pre(st, side, kind, s, t)[i]),
    decreases t,
{
    if t > 0 {
        lemma_major_targets_pre_ok(st, side, kind, s, (t - 1) as nat);
        let a = major_targets_pre(st, side, kind, s, (t - 1) as nat);
        let b = major_target_at(st, side, kind, s, t - 1);
        assert forall|i: int|
            0 <= i < major_targets_pre(st, side, kind, s, t).len() implies capture_ok(
            st,
            #[trigger] major_targets_pre(st, side, kind, s, t)[i],
        ) by {
            if i < a.len() {
                assert(major_targets_pre(st, side, kind, s, t)[i] == a[i]);
            } else {
                assert(major_targets_pre(st, side, kind, s, t)[i] == b[i - a.len()]);
            }
        }
    }
}

proof fn lemma_major_pre_ok(st: State, side: Colour, kind: Kind, s: nat)
    requires
        st.wf(),
        s <= 64,
    ensures
        forall|i: int|
            0 <= i < major_pre(st, side, kind, s).len() ==> capture_ok(st, #[trigger] major_pre(
                st,
                side,
                kind,
                s,
            )[i]),
    decreases s,
{
    if s > 0 {
        lemma_major_pre_ok(st, side, kind, (s - 1) as nat);
        lemma_major_at_ok(st, side, kind, s - 1);
        let a = major_pre(st, side, kind, (s - 1) as nat);
        let b = major_at(st, side, kind, s - 1);
        assert forall|i: int|
            0 <= i < major_pre(st, side, kind, s).len() implies capture_ok(st, #[trigger]
        major_pre(st, side, kind, s)[i]) by {
            if i < a.len() {
                assert(major_pre(st, side, kind, s)[i] == a[i]);
            } else {
                assert(major_pre(st, side, kind, s)[i] == b[i - a.len()]);
            }
        }
    }
}

proof fn lemma_castle_ok(st: State)
    requires
        st.wf(),
    ensures
        forall|i: int|
            0 <= i < castle_moves_spec(st).len() ==> capture_ok(st, #[trigger] castle_moves_spec(
                st,
            )[i]),
{
    crate::bits::lemma_trait_bits();
    let side = st.side_to_move;
    let nib = Piece(side, Kind::King).nibble() as u32;
    assert(nib < 16);
    lemma_gen_word(32, nib, 60, 62, 0);
    lemma_gen_word(32, nib, 60, 58, 0);
    lemma_gen_word(32, nib, 4, 6, 0);
    lemma_gen_word(32, nib, 4, 2, 0);
}

/// Law: every move the generator emits with the capture flag records
/// in its capture field exactly the piece standing on its target
/// square. En-passant captures carry the en-passant flag instead and
/// are not covered here: the pawn they take stands beside the target.
pub proof fn lemma_generator_capture_consistent(st: State)
    requires
        st.wf(),
    ensures
        forall|i: int|
            0 <= i < gen_moves_spec(st).len() ==> capture_ok(st, #[trigger] gen_moves_spec(st)[i]),
{
    let side = st.side_to_move;
    lemma_pawn_pre_ok(st, side, 64);
    lemma_castle_ok(st);
    lemma_major_pre_ok(st, side, Kind::Knight, 64);
    lemma_major_pre_ok(st, side, Kind::Rook, 64);
    lemma_major_pre_ok(st, side, Kind::Bishop, 64);
    lemma_major_pre_ok(st, side, Kind::Queen, 64);
    lemma_major_pre_ok(st, side, Kind::King, 64);
    let a1 = pawn_pre(st, side, 64);
    let a2 = castle_moves_spec(st);
    let a3 = major_pre(st, side, Kind::Knight, 64);
    let a4 = major_pre(st, side, Kind::Rook, 64);
    let a5 = major_pre(st, side, Kind::Bishop, 64);
    let a6 = major_pre(st, side, Kind::Queen, 64);
    let a7 = major_pre(st, side, Kind::King, 64);
    assert forall|i: int|
        0 <= i < gen_moves_spec(st).len() implies capture_ok(st, #[trigger] gen_moves_spec(
        st,
    )[i]) by {
        let m = gen_moves_spec(st)[i];
        let n1 = a1.len() as int;
        let n2 = n1 + a2.len();
        let n3 = n2 + a3.len();
        let n4 = n3 + a4.len();
        let n5 = n4 + a5.len();
        let n6 = n5 + a6.len();
        if i < n1 {
            assert(m == a1[i]);
        } else if i < n2 {
            assert(m == a2[i - n1]);
        } else if i < n3 {
            assert(m == a3[i - n2]);
        } else if i < n4 {
            assert(m == a4[i - n3]);
        } else if i < n5 {
            assert(m == a5[i - n4]);
        } else if i < n6 {
            assert(m == a6[i - n5]);
        } else {
            assert(m == a7[i - n6]);
        }
    }
}

} // verus!

verus! {




/// What a well-formed en-passant move must record: the capture field
/// names the opposing pawn, and the target square itself is empty —
/// the pawn taken stands beside it, not on it.
pub open spec fn ep_ok(st: State, m: Move) -> bool {
    has_trait(m.0, MoveTrait::Enpassant) ==> {
        &&& w_capture(m.0) == Piece(st.side_to_move.spec_opp(), Kind::Pawn).nibble()
        &&& scan_piece(st, w_target(m.0) as int, 0) == 12
    }
}

/// An empty square is empty of every piece.
proof fn lemma_empty_square(st: State, t: int)
    requires
        st.wf(),
        0 <= t < 64,
        !bit(spec_both(st), t),
    ensures
        scan_piece(st, t, 0) == 12,
{
    assert forall|k: int| 0 <= k < 12 implies !bit(#[trigger] st.material_layer.0@[k].0, t) by {
        if bit(st.material_layer.0@[k].0, t) {
            lemma_occ_cover(st, k, t);
        }
    }
    crate::boardstate::lemma_scan_none(st, t);
}

proof fn lemma_pawn_at_ep_ok(st: State, side: Colour, s: int)
    requires
        st.wf(),
        side == st.side_to_move,
        0 <= s < 64,
        (match st.en_passant {
            Some(e) => !bit(spec_both(st), e.idx()),
            None => true,
        }),
    ensures
        forall|i: int|
            0 <= i < pawn_at(st, side, s).len() ==> ep_ok(st, #[trigger] pawn_at(st, side, s)[i]),
{
    crate::bits::lemma_trait_bits();
    let nib = Piece(side, Kind::Pawn).nibble() as u32;
    assert(nib < 16);
    assert forall|i: int|
        0 <= i < pawn_push1(st, side, s).len() implies ep_ok(st, pawn_push1(st, side, s)[i]) by {
        if side == Colour::White {
            lemma_gen_word(if s / 8 == 1 {
                9
            } else {
                1
            }, nib, s, s - 8, 0);
        } else {
            lemma_gen_word(if s / 8 == 6 {
                9
            } else {
                1
            }, nib, s, s + 8, 0);
        }
    }
    assert forall|i: int|
        0 <= i < pawn_push2(st, side, s).len() implies ep_ok(st, pawn_push2(st, side, s)[i]) by {
        if side == Colour::White {
            lemma_gen_word(1, nib, s, s - 16, 0);
        } else {
            lemma_gen_word(1, nib, s, s + 16, 0);
        }
    }
    assert forall|t: int, i: int|
        #![trigger pawn_cap_at(st, side, s, t)[i]]
        0 <= t < 64 && 0 <= i < pawn_cap_at(st, side, s, t).len() implies ep_ok(
        st,
        pawn_cap_at(st, side, s, t)[i],
    ) by {
        if pawn_attack(side, s, t) && bit(occ_of(st, side.spec_opp()), t) {
            let ci = scan_piece(st, t, 0);
            let cap = if ci < 12 {
                Piece(idx_colour(ci as int), idx_kind(ci as int)).nibble() as u32
            } else {
                0
            };
            assert(cap < 16);
            let promo = if side == Colour::White {
                s / 8 == 1
            } else {
                s / 8 == 6
            };
            let tr: u32 = if promo {
                10
            } else if gives_check(st, side, Kind::Pawn, t) {
                6
            } else {
                2
            };
            lemma_gen_word(tr, nib, s, t, cap);
        }
    }
    lemma_caps_pre_ep_ok(st, side, s, 64);
    assert forall|i: int|
        0 <= i < pawn_ep(st, side, s).len() implies ep_ok(st, pawn_ep(st, side, s)[i]) by {
        match st.en_passant {
            Some(e) => {
                if pawn_attack(side, s, e.idx()) {
                    let cap = Piece(side.spec_opp(), Kind::Pawn).nibble() as u32;
                    assert(cap < 16);
                    let tr: u32 = if gives_check(st, side, Kind::Pawn, e.idx()) {
                        20
                    } else {
                        16
                    };
                    lemma_gen_word(tr, nib, s, e.idx(), cap);
                    lemma_empty_square(st, e.idx());
                }
            },
            None => {},
        }
    }
}

proof fn lemma_caps_pre_ep_ok(st: State, side: Colour, s: int, t: nat)
    requires
        st.wf(),
        0 <= s < 64,
        t <= 64,
        forall|t2: int, i: int|
            #![trigger pawn_cap_at(st, side, s, t2)[i]]
            0 <= t2 < 64 && 0 <= i < pawn_cap_at(st, side, s, t2).len() ==> ep_ok(
                st,
                pawn_cap_at(st, side, s, t2)[i],
            ),
    ensures
        forall|i: int|
            0 <= i < pawn_caps_pre(st, side, s, t).len() ==> ep_ok(st, #[trigger] pawn_caps_pre(
                st,
                side,
                s,
                t,
            )[i]),
    decreases t,
{
    if t > 0 {
        lemma_caps_pre_ep_ok(st, side, s, (t - 1) as nat);
        let a = pawn_caps_pre(st, side, s, (t - 1) as nat);
        let b = pawn_cap_at(st, side, s, t - 1);
        assert forall|i: int|
            0 <= i < pawn_caps_pre(st, side, s, t).len() implies ep_ok(st, #[trigger]
        pawn_caps_pre(st, side, s, t)[i]) by {
            if i < a.len() {
                assert(pawn_caps_pre(st, side, s, t)[i] == a[i]);
            } else {
                assert(pawn_caps_pre(st, side, s, t)[i] == b[i - a.len()]);
            }
        }
    }
}

proof fn lemma_pawn_pre_ep_ok(st: State, side: Colour, s: nat)
    requires
        st.wf(),
        side == st.side_to_move,
        s <= 64,
        (match st.en_passant {
            Some(e) => !bit(spec_both(st), e.idx()),
            None => true,
        }),
    ensures
        forall|i: int|
            0 <= i < pawn_pre(st, side, s).len() ==> ep_ok(st, #[trigger] pawn_pre(
                st,
                side,
                s,
            )[i]),
    decreases s,
{
    if s > 0 {
        lemma_pawn_pre_ep_ok(st, side, (s - 1) as nat);
        lemma_pawn_at_ep_ok(st, side, s - 1);
        let a = pawn_pre(st, side, (s - 1) as nat);
        let b = pawn_at(st, side, s - 1);
        assert forall|i: int|
            0 <= i < pawn_pre(st, side, s).len() implies ep_ok(st, #[trigger] pawn_pre(
            st,
            side,
            s,
        )[i]) by {
            if i < a.len() {
                assert(pawn_pre(st, side, s)[i] == a[i]);
            } else {
                assert(pawn_pre(st, side, s)[i] == b[i - a.len()]);
            }
        }
    }
}

proof fn lemma_major_at_ep_ok(st: State, side: Colour, kind: Kind, s: int)
    requires
        st.wf(),
        0 <= s < 64,
    ensures
        forall|i: int|
            0 <= i < major_at(st, side, kind, s).len() ==> ep_ok(st, #[trigger] major_at(
                st,
                side,
                kind,
                s,
            )[i]),
{
    crate::bits::lemma_trait_bits();
    let nib = Piece(side, kind).nibble() as u32;
    assert(nib < 16);
    assert forall|t: int, i: int|
        #![trigger major_target_at(st, side, kind, s, t)[i]]
        0 <= t < 64 && 0 <= i < major_target_at(st, side, kind, s, t).len() implies ep_ok(
        st,
        major_target_at(st, side, kind, s, t)[i],
    ) by {
        if attacks_sq(st, side, kind, s, t) && !bit(occ_of(st, side), t) {
            let ci = scan_piece(st, t, 0);
            if ci < 12 {
                let cap = Piece(idx_colour(ci as int), idx_kind(ci as int)).nibble() as u32;
                assert(cap < 16);
                let tr: u32 = if gives_check(st, side, kind, t) {
                    6
                } else {
                    2
                };
                lemma_gen_word(tr, nib, s, t, cap);
            } else {
                let tr: u32 = if gives_check(st, side, kind, t) {
                    5
                } else {
                    1
                };
                lemma_gen_word(tr, nib, s, t, 0);
            }
        }
    }
    lemma_major_targets_pre_ep_ok(st, side, kind, s, 64);
}

proof fn lemma_major_targets_pre_ep_ok(st: State, side: Colour, kind: Kind, s: int, t: nat)
    requires
        st.wf(),
        0 <= s < 64,
        t <= 64,
        forall|t2: int, i: int|
            #![trigger major_target_at(st, side, kind, s, t2)[i]]
            0 <= t2 < 64 && 0 <= i < major_target_at(st, side, kind, s, t2).len() ==> ep_ok(
                st,
                major_target_at(st, side, kind, s, t2)[i],
            ),
    ensures
        forall|i: int|
            0 <= i < major_targets_pre(st, side, kind, s, t).len() ==> ep_ok(st, #[trigger]
            major_targets_pre(st, side, kind, s, t)[i]),
    decreases t,
{
    if t > 0 {
        lemma_major_targets_pre_ep_ok(st, side, kind, s, (t - 1) as nat);
        let a = major_targets_pre(st, side, kind, s, (t - 1) as nat);
        let b = major_target_at(st, side, kind, s, t - 1);
        assert forall|i: int|
            0 <= i < major_targets_pre(st, side, kind, s, t).len() implies ep_ok(
            st,
            #[trigger] major_targets_pre(st, side, kind, s, t)[i],
        ) by {
            if i < a.len() {
                assert(major_targets_pre(st, side, kind, s, t)[i] == a[i]);
            } else {
                assert(major_targets_pre(st, side, kind, s, t)[i] == b[i - a.len()]);
            }
        }
    }
}

proof fn lemma_major_pre_ep_ok(st: State, side: Colour, kind: Kind, s: nat)
    requires
        st.wf(),
        s <= 64,
    ensures
        forall|i: int|
            0 <= i < major_pre(st, side, kind, s).len() ==> ep_ok(st, #[trigger] major_pre(
                st,
                side,
                kind,
                s,
            )[i]),
    decreases s,
{
    if s > 0 {
        lemma_major_pre_ep_ok(st, side, kind, (s - 1) as nat);
        lemma_major_at_ep_ok(st, side, kind, s - 1);
        let a = major_pre(st, side, kind, (s - 1) as nat);
        let b = major_at(st, side, kind, s - 1);
        assert forall|i: int|
            0 <= i < major_pre(st, side, kind, s).len() implies ep_ok(st, #[trigger] major_pre(
            st,
            side,
            kind,
            s,
        )[i]) by {
            if i < a.len() {
                assert(major_pre(st, side, kind, s)[i] == a[i]);
            } else {
                assert(major_pre(st, side, kind, s)[i] == b[i - a.len()]);
            }
        }
    }
}

proof fn lemma_castle_ep_ok(st: State)
    requires
        st.wf(),
    ensures
        forall|i: int|
            0 <= i < castle_moves_spec(st).len() ==> ep_ok(st, #[trigger] castle_moves_spec(
                st,
            )[i]),
{
    crate::bits::lemma_trait_bits();
    let side = st.side_to_move;
    let nib = Piece(side, Kind::King).nibble() as u32;
    assert(nib < 16);
    lemma_gen_word(32, nib, 60, 62, 0);
    lemma_gen_word(32, nib, 60, 58, 0);
    lemma_gen_word(32, nib, 4, 6, 0);
    lemma_gen_word(32, nib, 4, 2, 0);
}

/// Law: every en-passant move the generator emits records the
/// opposing pawn in its capture field, and its target square is empty:
/// the pawn it takes stands beside the target, not on it. The law
/// asks the en-passant square to be empty, as it is in every position
/// reached by play.
pub proof fn lemma_generator_ep_consistent(st: State)
    requires
        st.wf(),
        (match st.en_passant {
            Some(e) => !bit(spec_both(st), e.idx()),
            None => true,
        }),
    ensures
        forall|i: int|
            0 <= i < gen_moves_spec(st).len() ==> ep_ok(st, #[trigger] gen_moves_spec(st)[i]),
{
    let side = st.side_to_move;
    lemma_pawn_pre_ep_ok(st, side, 64);
    lemma_castle_ep_ok(st);
    lemma_major_pre_ep_ok(st, side, Kind::Knight, 64);
    lemma_major_pre_ep_ok(st, side, Kind::Rook, 64);
    lemma_major_pre_ep_ok(st, side, Kind::Bishop, 64);
    lemma_major_pre_ep_ok(st, side, Kind::Queen, 64);
    lemma_major_pre_ep_ok(st, side, Kind::King, 64);
    let a1 = pawn_pre(st, side, 64);
    let a2 = castle_moves_spec(st);
    let a3 = major_pre(st, side, Kind::Knight, 64);
    let a4 = major_pre(st, side, Kind::Rook, 64);
    let a5 = major_pre(st, side, Kind::Bishop, 64);
    let a6 = major_pre(st, side, Kind::Queen, 64);
    let a7 = major_pre(st, side, Kind::King, 64);
    assert forall|i: int|
        0 <= i < gen_moves_spec(st).len() implies ep_ok(st, #[trigger] gen_moves_spec(st)[i]) by {
        let m = gen_moves_spec(st)[i];
        let n1 = a1.len() as int;
        let n2 = n1 + a2.len();
        let n3 = n2 + a3.len();
        let n4 = n3 + a4.len();
        let n5 = n4 + a5.len();
        let n6 = n5 + a6.len();
        if i < n1 {
            assert(m == a1[i]);
        } else if i < n2 {
            assert(m == a2[i - n1]);
        } else if i < n3 {
            assert(m == a3[i - n2]);
        } else if i < n4 {
            assert(m == a4[i - n3]);
        } else if i < n5 {
            assert(m == a5[i - n4]);
        } else if i < n6 {
            assert(m == a6[i - n5]);
        } else {
            assert(m == a7[i - n6]);
        }
    }
}

} // verus!
