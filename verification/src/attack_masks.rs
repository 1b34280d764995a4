use vstd::prelude::*;

use crate::bitboard::Bitboard;
use crate::bits::bit;
use crate::colour::Colour;
use crate::position::Position;

verus! {

/// The row of a square, counted from the top of the board.
pub open spec fn row(s: int) -> int {
    s / 8
}

/// The column of a square, counted from the a-file.
pub open spec fn col(s: int) -> int {
    s % 8
}

pub open spec fn iabs(x: int) -> int {
    if x < 0 {
        -x
    } else {
        x
    }
}

/// Whether a pawn of the given colour standing on `s` attacks `t`.
/// White pawns move towards the eighth rank, which is where the
/// numbering starts, so they attack towards lower indices.
pub open spec fn pawn_attack(side: Colour, s: int, t: int) -> bool {
    &&& 0 <= s < 64
    &&& 0 <= t < 64
    &&& iabs(col(t) - col(s)) == 1
    &&& (match side {
        Colour::White => row(t) == row(s) - 1,
        Colour::Black => row(t) == row(s) + 1,
    })
}

/// Whether a knight standing on `s` attacks `t`.
pub open spec fn knight_jump(s: int, t: int) -> bool {
    &&& 0 <= s < 64
    &&& 0 <= t < 64
    &&& {
        let dr = iabs(row(t) - row(s));
        let df = iabs(col(t) - col(s));
        (dr == 1 && df == 2) || (dr == 2 && df == 1)
    }
}

/// Whether a king standing on `s` attacks `t`.
pub open spec fn king_step(s: int, t: int) -> bool {
    &&& 0 <= s < 64
    &&& 0 <= t < 64
    &&& s != t
    &&& iabs(row(t) - row(s)) <= 1
    &&& iabs(col(t) - col(s)) <= 1
}

/// Whether `t` lies on a diagonal ray of `s`, short of the board edge:
/// the blockers there are the only ones that can shorten a bishop's reach.
pub open spec fn bishop_mask_at(s: int, t: int) -> bool {
    &&& 0 <= s < 64
    &&& 0 <= t < 64
    &&& t != s
    &&& iabs(row(t) - row(s)) == iabs(col(t) - col(s))
    &&& 1 <= row(t) <= 6
    &&& 1 <= col(t) <= 6
}

/// Whether `t` lies on the rank or file of `s`, short of the board edge.
pub open spec fn rook_mask_at(s: int, t: int) -> bool {
    &&& 0 <= s < 64
    &&& 0 <= t < 64
    &&& t != s
    &&& ((row(t) == row(s) && 1 <= col(t) <= 6) || (col(t) == col(s) && 1 <= row(t) <= 6))
}

/// The two diagonal squares a pawn on the given square attacks.
pub fn mask_pawn_attacks(position: Position, side: &Colour) -> (r: Bitboard)
    ensures
        forall|t: int| #[trigger] bit(r.0, t) <==> pawn_attack(*side, position.idx(), t),
{
    let s = position.index() as i64;
    let mut bb: u64 = 0;
    proof {
        crate::bits::lemma_zero_bits();
    }
    let mut t: u64 = 0;
    while t < 64
        invariant
            t <= 64,
            position.idx() == s,
            forall|j: int| #[trigger] bit(bb, j) <==> (j < t && pawn_attack(*side, s as int, j)),
        decreases 64 - t,
    {
        let tr = (t / 8) as i64;
        let tf = (t % 8) as i64;
        let sr = s / 8;
        let sf = s % 8;
        let df = if tf >= sf {
            tf - sf
        } else {
            sf - tf
        };
        let hit = df == 1 && (match side {
            Colour::White => tr == sr - 1,
            Colour::Black => tr == sr + 1,
        });
        if hit {
            let nb = bb | (1u64 << t);
            proof {
                crate::bits::lemma_set_bit(bb, nb, t);
            }
            bb = nb;
        }
        t = t + 1;
    }
    Bitboard(bb)
}

/// The knight jumps from the given square.
pub fn mask_knight_attacks(position: Position) -> (r: Bitboard)
    ensures
        forall|t: int| #[trigger] bit(r.0, t) <==> knight_jump(position.idx(), t),
{
    let s = position.index() as i64;
    let mut bb: u64 = 0;
    proof {
        crate::bits::lemma_zero_bits();
    }
    let mut t: u64 = 0;
    while t < 64
        invariant
            t <= 64,
            position.idx() == s,
            forall|j: int| #[trigger] bit(bb, j) <==> (j < t && knight_jump(s as int, j)),
        decreases 64 - t,
    {
        let tr = (t / 8) as i64;
        let tf = (t % 8) as i64;
        let sr = s / 8;
        let sf = s % 8;
        let dr = if tr >= sr {
            tr - sr
        } else {
            sr - tr
        };
        let df = if tf >= sf {
            tf - sf
        } else {
            sf - tf
        };
        if (dr == 1 && df == 2) || (dr == 2 && df == 1) {
            let nb = bb | (1u64 << t);
            proof {
                crate::bits::lemma_set_bit(bb, nb, t);
            }
            bb = nb;
        }
        t = t + 1;
    }
    Bitboard(bb)
}

/// The king steps from the given square.
pub fn mask_king_attacks(position: Position) -> (r: Bitboard)
    ensures
        forall|t: int| #[trigger] bit(r.0, t) <==> king_step(position.idx(), t),
{
    let s = position.index() as i64;
    let mut bb: u64 = 0;
    proof {
        crate::bits::lemma_zero_bits();
    }
    let mut t: u64 = 0;
    while t < 64
        invariant
            t <= 64,
            position.idx() == s,
            forall|j: int| #[trigger] bit(bb, j) <==> (j < t && king_step(s as int, j)),
        decreases 64 - t,
    {
        let tr = (t / 8) as i64;
        let tf = (t % 8) as i64;
        let sr = s / 8;
        let sf = s % 8;
        let dr = if tr >= sr {
            tr - sr
        } else {
            sr - tr
        };
        let df = if tf >= sf {
            tf - sf
        } else {
            sf - tf
        };
        if dr <= 1 && df <= 1 && (t as i64) != s {
            let nb = bb | (1u64 << t);
            proof {
                crate::bits::lemma_set_bit(bb, nb, t);
            }
            bb = nb;
        }
        t = t + 1;
    }
    Bitboard(bb)
}

/// The relevant-blocker mask of a bishop on the given square.
pub fn mask_bishop_attacks(position: Position) -> (r: Bitboard)
    ensures
        forall|t: int| #[trigger] bit(r.0, t) <==> bishop_mask_at(position.idx(), t),
{
    let s = position.index() as i64;
    let mut bb: u64 = 0;
    proof {
        crate::bits::lemma_zero_bits();
    }
    let mut t: u64 = 0;
    while t < 64
        invariant
            t <= 64,
            position.idx() == s,
            forall|j: int| #[trigger] bit(bb, j) <==> (j < t && bishop_mask_at(s as int, j)),
        decreases 64 - t,
    {
        let tr = (t / 8) as i64;
        let tf = (t % 8) as i64;
        let sr = s / 8;
        let sf = s % 8;
        let dr = if tr >= sr {
            tr - sr
        } else {
            sr - tr
        };
        let df = if tf >= sf {
            tf - sf
        } else {
            sf - tf
        };
        if (t as i64) != s && dr == df && 1 <= tr && tr <= 6 && 1 <= tf && tf <= 6 {
            let nb = bb | (1u64 << t);
            proof {
                crate::bits::lemma_set_bit(bb, nb, t);
            }
            bb = nb;
        }
        t = t + 1;
    }
    Bitboard(bb)
}

/// The relevant-blocker mask of a rook on the given square.
pub fn mask_rook_attacks(position: Position) -> (r: Bitboard)
    ensures
        forall|t: int| #[trigger] bit(r.0, t) <==> rook_mask_at(position.idx(), t),
{
    let s = position.index() as i64;
    let mut bb: u64 = 0;
    proof {
        crate::bits::lemma_zero_bits();
    }
    let mut t: u64 = 0;
    while t < 64
        invariant
            t <= 64,
            position.idx() == s,
            forall|j: int| #[trigger] bit(bb, j) <==> (j < t && rook_mask_at(s as int, j)),
        decreases 64 - t,
    {
        let tr = (t / 8) as i64;
        let tf = (t % 8) as i64;
        let sr = s / 8;
        let sf = s % 8;
        if (t as i64) != s && ((tr == sr && 1 <= tf && tf <= 6) || (tf == sf && 1 <= tr && tr
            <= 6)) {
            let nb = bb | (1u64 << t);
            proof {
                crate::bits::lemma_set_bit(bb, nb, t);
            }
            bb = nb;
        }
        t = t + 1;
    }
    Bitboard(bb)
}

} // verus!

verus! {

/// A knight or king attacks a square exactly when it would be attacked
/// back from there: the jumps and steps are their own mirrors.
pub proof fn lemma_leaper_symmetry(s: int, t: int)
    ensures
        knight_jump(s, t) == knight_jump(t, s),
        king_step(s, t) == king_step(t, s),
{
}

/// A pawn attacks a square exactly when a pawn of the other colour
/// standing there would attack back.
pub proof fn lemma_pawn_symmetry(c: Colour, s: int, t: int)
    ensures
        pawn_attack(c, s, t) == pawn_attack(c.spec_opp(), t, s),
{
}

} // verus!

verus! {

use crate::bits::{lemma_or_bits, lemma_or_zero, lemma_single_bit, lemma_zero_bits};

/// The relevant-blocker squares of either slider kind.
pub open spec fn slider_mask_at(bishop: bool, s: int, t: int) -> bool {
    if bishop {
        bishop_mask_at(s, t)
    } else {
        rook_mask_at(s, t)
    }
}

pub open spec fn mval_rec(bishop: bool, s: int, t: nat) -> u64
    decreases t,
{
    if t == 0 {
        0
    } else {
        mval_rec(bishop, s, (t - 1) as nat) | (if slider_mask_at(bishop, s, t - 1) {
            1u64 << ((t - 1) as u64)
        } else {
            0u64
        })
    }
}

/// The relevant-blocker mask of a slider as one word: what the mask
/// builders compute.
pub open spec fn mask_value(bishop: bool, s: int) -> u64 {
    mval_rec(bishop, s, 64)
}

proof fn lemma_mval_rec_bits(bishop: bool, s: int, n: nat)
    requires
        n <= 64,
    ensures
        forall|t: int|
            #[trigger] bit(mval_rec(bishop, s, n), t) <==> (0 <= t < n && slider_mask_at(
                bishop,
                s,
                t,
            )),
    decreases n,
{
    if n == 0 {
        lemma_zero_bits();
    } else {
        lemma_mval_rec_bits(bishop, s, (n - 1) as nat);
        let a = mval_rec(bishop, s, (n - 1) as nat);
        if slider_mask_at(bishop, s, n - 1) {
            lemma_or_bits(a, 1u64 << ((n - 1) as u64));
            lemma_single_bit((n - 1) as u64);
        } else {
            lemma_or_zero(a);
        }
    }
}

/// Which squares the slider mask word holds.
pub proof fn lemma_mask_value_bits(bishop: bool, s: int)
    ensures
        forall|t: int|
            #[trigger] bit(mask_value(bishop, s), t) <==> slider_mask_at(bishop, s, t),
{
    lemma_mval_rec_bits(bishop, s, 64);
}

} // verus!
