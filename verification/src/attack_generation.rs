use vstd::prelude::*;

use crate::bitboard::Bitboard;
use crate::bits::{bit, lemma_eq_by_bits, lemma_or_bits, lemma_test_bit, lemma_zero_bits};
use crate::position::Position;

verus! {

pub open spec fn on_board(r: int, f: int) -> bool {
    0 <= r < 8 && 0 <= f < 8
}

/// The single-square word of the square at the given coordinates.
pub open spec fn sq_bb(r: int, f: int) -> u64 {
    1u64 << ((r * 8 + f) as u64)
}

/// The squares a slider reaches in one direction from `(r, f)` against
/// the blockers in `occ`: every square up to and including the first
/// occupied one, or the board edge.
pub open spec fn ray_from(occ: u64, r: int, f: int, dr: int, df: int, n: nat) -> u64
    decreases n,
{
    if n == 0 {
        0
    } else {
        let r2 = r + dr;
        let f2 = f + df;
        if !on_board(r2, f2) {
            0
        } else if bit(occ, r2 * 8 + f2) {
            sq_bb(r2, f2)
        } else {
            sq_bb(r2, f2) | ray_from(occ, r2, f2, dr, df, (n - 1) as nat)
        }
    }
}

/// The diagonal attacks of a bishop on square `s` against blockers `occ`.
pub open spec fn bishop_rays(occ: u64, s: int) -> u64 {
    ray_from(occ, s / 8, s % 8, 1, 1, 7) | ray_from(occ, s / 8, s % 8, 1, -1, 7) | ray_from(
        occ,
        s / 8,
        s % 8,
        -1,
        1,
        7,
    ) | ray_from(occ, s / 8, s % 8, -1, -1, 7)
}

/// The straight attacks of a rook on square `s` against blockers `occ`.
pub open spec fn rook_rays(occ: u64, s: int) -> u64 {
    ray_from(occ, s / 8, s % 8, 1, 0, 7) | ray_from(occ, s / 8, s % 8, -1, 0, 7) | ray_from(
        occ,
        s / 8,
        s % 8,
        0,
        1,
        7,
    ) | ray_from(occ, s / 8, s % 8, 0, -1, 7)
}

/// Walk one ray, collecting squares until the edge or the first blocker.
fn ray_attacks(occ: u64, r0: i64, f0: i64, dr: i64, df: i64) -> (a: u64)
    requires
        0 <= r0 < 8,
        0 <= f0 < 8,
        -1 <= dr <= 1,
        -1 <= df <= 1,
    ensures
        a == ray_from(occ, r0 as int, f0 as int, dr as int, df as int, 7),
{
    let ghost total = ray_from(occ, r0 as int, f0 as int, dr as int, df as int, 7);
    let mut acc: u64 = 0;
    let mut r = r0;
    let mut f = f0;
    let mut n: u64 = 7;
    proof {
        lemma_zero_bits();
    }
    while n > 0
        invariant
            0 <= r < 8,
            0 <= f < 8,
            -1 <= dr <= 1,
            -1 <= df <= 1,
            n <= 7,
            total == ray_from(occ, r0 as int, f0 as int, dr as int, df as int, 7),
            forall|j: int| #[trigger] bit(total, j) <==> (bit(acc, j) || bit(
                ray_from(occ, r as int, f as int, dr as int, df as int, n as nat),
                j,
            )),
        decreases n,
    {
        let r2 = r + dr;
        let f2 = f + df;
        if r2 < 0 || r2 > 7 || f2 < 0 || f2 > 7 {
            proof {
                assert(!on_board(r + dr, f + df));
                assert(ray_from(occ, r as int, f as int, dr as int, df as int, n as nat) == 0);
                lemma_zero_bits();
                lemma_eq_by_bits(total, acc);
            }
            return acc;
        }
        let idx = (r2 * 8 + f2) as u64;
        let b = 1u64 << idx;
        let blocked = occ & b != 0;
        proof {
            lemma_test_bit(occ, idx);
        }
        let nacc = acc | b;
        proof {
            lemma_or_bits(acc, b);
        }
        if blocked {
            proof {
                assert(bit(occ, (r + dr) * 8 + (f + df)));
                assert(ray_from(occ, r as int, f as int, dr as int, df as int, n as nat) == sq_bb(
                    r + dr,
                    f + df,
                ));
                assert(sq_bb(r + dr, f + df) == b);
                lemma_eq_by_bits(total, nacc);
            }
            return nacc;
        }
        proof {
            assert(!bit(occ, (r + dr) * 8 + (f + df)));
            assert(ray_from(occ, r as int, f as int, dr as int, df as int, n as nat) == sq_bb(
                r + dr,
                f + df,
            ) | ray_from(occ, r2 as int, f2 as int, dr as int, df as int, (n - 1) as nat));
            assert(sq_bb(r + dr, f + df) == b);
            lemma_or_bits(
                b,
                ray_from(occ, r2 as int, f2 as int, dr as int, df as int, (n - 1) as nat),
            );
        }
        acc = nacc;
        r = r2;
        f = f2;
        n = n - 1;
    }
    proof {
        lemma_zero_bits();
        lemma_eq_by_bits(total, acc);
    }
    acc
}

/// The bishop attacks from a square, stepping the rays one square at a
/// time against the given blockers.
pub fn fly_gen_bishop_attks(position: Position, block: &Bitboard) -> (r: Bitboard)
    ensures
        r.0 == bishop_rays(block.0, position.idx()),
{
    let ri = (position.index() / 8) as i64;
    let fi = (position.index() % 8) as i64;
    let a = ray_attacks(block.0, ri, fi, 1, 1);
    let b = ray_attacks(block.0, ri, fi, 1, -1);
    let c = ray_attacks(block.0, ri, fi, -1, 1);
    let d = ray_attacks(block.0, ri, fi, -1, -1);
    Bitboard(a | b | c | d)
}

/// The rook attacks from a square, stepping the rays one square at a
/// time against the given blockers.
pub fn fly_gen_rook_attks(position: Position, block: &Bitboard) -> (r: Bitboard)
    ensures
        r.0 == rook_rays(block.0, position.idx()),
{
    let ri = (position.index() / 8) as i64;
    let fi = (position.index() % 8) as i64;
    let a = ray_attacks(block.0, ri, fi, 1, 0);
    let b = ray_attacks(block.0, ri, fi, -1, 0);
    let c = ray_attacks(block.0, ri, fi, 0, 1);
    let d = ray_attacks(block.0, ri, fi, 0, -1);
    Bitboard(a | b | c | d)
}

} // verus!

verus! {

use crate::attack_masks::{bishop_mask_at, rook_mask_at};
use crate::bits::{lemma_and_bits, lemma_or_zero};

/// One ray reads only relevant-blocker squares: two occupancies that
/// agree on the mask squares of `s` drive the walk the same way. The
/// square the walk is at sits `d` steps out from `s` along the ray.
#[verifier::rlimit(80)]
proof fn lemma_ray_masked(
    occ: u64,
    mask: u64,
    s: int,
    bishop: bool,
    a: int,
    b: int,
    dr: int,
    df: int,
    d: int,
    n: nat,
)
    requires
        0 <= s < 64,
        (if bishop {
            (dr == 1 || dr == -1) && (df == 1 || df == -1)
        } else {
            (dr == 0 && (df == 1 || df == -1)) || (df == 0 && (dr == 1 || dr == -1))
        }),
        d >= 0,
        d + n == 7,
        on_board(a, b),
        (dr == 1 ==> a == s / 8 + d),
        (dr == -1 ==> a == s / 8 - d),
        (dr == 0 ==> a == s / 8),
        (df == 1 ==> b == s % 8 + d),
        (df == -1 ==> b == s % 8 - d),
        (df == 0 ==> b == s % 8),
        forall|t: int|
            (if bishop {
                bishop_mask_at(s, t)
            } else {
                rook_mask_at(s, t)
            }) ==> (#[trigger] bit(occ & mask, t) == bit(occ, t)),
    ensures
        ray_from(occ & mask, a, b, dr, df, n) == ray_from(occ, a, b, dr, df, n),
    decreases n,
{
    if n > 0 {
        let a2 = a + dr;
        let b2 = b + df;
        if on_board(a2, b2) {
            let q = a2 * 8 + b2;
            if on_board(a2 + dr, b2 + df) {
                assert(0 <= q < 64);
                assert(if bishop {
                    bishop_mask_at(s, q)
                } else {
                    rook_mask_at(s, q)
                });
                assert(bit(occ & mask, q) == bit(occ, q));
                if !bit(occ, q) {
                    lemma_ray_masked(occ, mask, s, bishop, a2, b2, dr, df, d + 1, (n - 1) as nat);
                }
            } else {
                lemma_or_zero(sq_bb(a2, b2));
                if n > 1 {
                    assert(ray_from(occ & mask, a2, b2, dr, df, (n - 1) as nat) == 0);
                    assert(ray_from(occ, a2, b2, dr, df, (n - 1) as nat) == 0);
                } else {
                    assert(ray_from(occ & mask, a2, b2, dr, df, (n - 1) as nat) == 0);
                    assert(ray_from(occ, a2, b2, dr, df, (n - 1) as nat) == 0);
                }
                if bit(occ & mask, q) {
                    assert(ray_from(occ & mask, a, b, dr, df, n) == sq_bb(a2, b2));
                } else {
                    assert(ray_from(occ & mask, a, b, dr, df, n) == sq_bb(a2, b2) | ray_from(
                        occ & mask,
                        a2,
                        b2,
                        dr,
                        df,
                        (n - 1) as nat,
                    ));
                }
                if bit(occ, q) {
                    assert(ray_from(occ, a, b, dr, df, n) == sq_bb(a2, b2));
                } else {
                    assert(ray_from(occ, a, b, dr, df, n) == sq_bb(a2, b2) | ray_from(
                        occ,
                        a2,
                        b2,
                        dr,
                        df,
                        (n - 1) as nat,
                    ));
                }
            }
        }
    }
}

/// A slider's attacks depend only on the blockers inside its
/// relevant-blocker mask: masking the occupancy first changes nothing.
pub proof fn lemma_slider_masked(occ: u64, mask: u64, s: int, bishop: bool)
    requires
        0 <= s < 64,
        forall|t: int|
            (if bishop {
                bishop_mask_at(s, t)
            } else {
                rook_mask_at(s, t)
            }) ==> #[trigger] bit(mask, t),
    ensures
        bishop ==> bishop_rays(occ & mask, s) == bishop_rays(occ, s),
        !bishop ==> rook_rays(occ & mask, s) == rook_rays(occ, s),
{
    lemma_and_bits(occ, mask);
    assert forall|t: int|
        (if bishop {
            bishop_mask_at(s, t)
        } else {
            rook_mask_at(s, t)
        }) implies (#[trigger] bit(occ & mask, t) == bit(occ, t)) by {
        if bishop {
            assert(bishop_mask_at(s, t) ==> bit(mask, t));
        } else {
            assert(rook_mask_at(s, t) ==> bit(mask, t));
        }
    }
    if bishop {
        lemma_ray_masked(occ, mask, s, true, s / 8, s % 8, 1, 1, 0, 7);
        lemma_ray_masked(occ, mask, s, true, s / 8, s % 8, 1, -1, 0, 7);
        lemma_ray_masked(occ, mask, s, true, s / 8, s % 8, -1, 1, 0, 7);
        lemma_ray_masked(occ, mask, s, true, s / 8, s % 8, -1, -1, 0, 7);
    } else {
        lemma_ray_masked(occ, mask, s, false, s / 8, s % 8, 1, 0, 0, 7);
        lemma_ray_masked(occ, mask, s, false, s / 8, s % 8, -1, 0, 0, 7);
        lemma_ray_masked(occ, mask, s, false, s / 8, s % 8, 0, 1, 0, 7);
        lemma_ray_masked(occ, mask, s, false, s / 8, s % 8, 0, -1, 0, 7);
    }
}

} // verus!

verus! {

use crate::bits::lemma_single_bit;

/// A ray that reaches an unblocked square reaches one square further,
/// when the board goes on: fuel never runs out before the edge. The
/// walking point `(a, b)` sits `g` steps out from the ray's origin.
proof fn lemma_ray_extend_rec(
    occ: u64,
    ca: int,
    cb: int,
    a: int,
    b: int,
    dr: int,
    df: int,
    g: int,
    n: nat,
    xa: int,
    xb: int,
)
    requires
        -1 <= dr <= 1,
        -1 <= df <= 1,
        !(dr == 0 && df == 0),
        g >= 0,
        g + n == 7,
        on_board(ca, cb),
        on_board(a, b),
        (dr == 1 ==> a == ca + g),
        (dr == -1 ==> a == ca - g),
        (dr == 0 ==> a == ca),
        (df == 1 ==> b == cb + g),
        (df == -1 ==> b == cb - g),
        (df == 0 ==> b == cb),
        on_board(xa, xb),
        bit(ray_from(occ, a, b, dr, df, n), xa * 8 + xb),
        !bit(occ, xa * 8 + xb),
        on_board(xa + dr, xb + df),
    ensures
        bit(ray_from(occ, a, b, dr, df, n), (xa + dr) * 8 + (xb + df)),
    decreases n,
{
    if n == 0 {
        lemma_zero_bits();
    } else {
        let qa = a + dr;
        let qb = b + df;
        if !on_board(qa, qb) {
            lemma_zero_bits();
        } else {
            let qi = qa * 8 + qb;
            lemma_single_bit(qi as u64);
            if bit(occ, qi) {
                assert(ray_from(occ, a, b, dr, df, n) == sq_bb(qa, qb));
                assert(xa * 8 + xb == qi);
                assert(false);
            } else {
                lemma_or_bits(sq_bb(qa, qb), ray_from(occ, qa, qb, dr, df, (n - 1) as nat));
                if xa == qa && xb == qb {
                    // the next square is the head of the rest of the walk
                    assert(n >= 2);
                    let ra = qa + dr;
                    let rb = qb + df;
                    let rest = ray_from(occ, qa, qb, dr, df, (n - 1) as nat);
                    lemma_single_bit((ra * 8 + rb) as u64);
                    if bit(occ, ra * 8 + rb) {
                        assert(rest == sq_bb(ra, rb));
                    } else {
                        lemma_or_bits(
                            sq_bb(ra, rb),
                            ray_from(occ, ra, rb, dr, df, (n - 2) as nat),
                        );
                    }
                    assert(bit(rest, ra * 8 + rb));
                } else {
                    assert(xa * 8 + xb != qi) by {
                        if xa * 8 + xb == qi {
                            assert(xa == qa && xb == qb);
                        }
                    }
                    lemma_ray_extend_rec(
                        occ,
                        ca,
                        cb,
                        qa,
                        qb,
                        dr,
                        df,
                        g + 1,
                        (n - 1) as nat,
                        xa,
                        xb,
                    );
                }
            }
        }
    }
}

/// The ray from `s` that reaches `t` is answered by the ray from `t`
/// back towards `s`: walking back over the same unblocked squares
/// reaches `s`, with `s` reached whether or not it is occupied.
proof fn lemma_ray_sym_dir(occ: u64, a: int, b: int, dr: int, df: int, n: nat, ti: int)
    requires
        -1 <= dr <= 1,
        -1 <= df <= 1,
        !(dr == 0 && df == 0),
        on_board(a, b),
        n <= 7,
        bit(ray_from(occ, a, b, dr, df, n), ti),
    ensures
        0 <= ti < 64,
        bit(ray_from(occ, ti / 8, ti % 8, -dr, -df, 7), a * 8 + b),
    decreases n,
{
    if n == 0 {
        lemma_zero_bits();
    } else {
        let qa = a + dr;
        let qb = b + df;
        if !on_board(qa, qb) {
            lemma_zero_bits();
        } else {
            let qi = qa * 8 + qb;
            lemma_single_bit(qi as u64);
            if bit(occ, qi) {
                assert(ray_from(occ, a, b, dr, df, n) == sq_bb(qa, qb));
                assert(ti == qi);
            } else {
                lemma_or_bits(sq_bb(qa, qb), ray_from(occ, qa, qb, dr, df, (n - 1) as nat));
            }
            if ti == qi {
                // one step back from the target lands on s at once
                assert(qi / 8 == qa && qi % 8 == qb);
                lemma_single_bit((a * 8 + b) as u64);
                if bit(occ, a * 8 + b) {
                    assert(ray_from(occ, qa, qb, -dr, -df, 7) == sq_bb(a, b));
                } else {
                    lemma_or_bits(sq_bb(a, b), ray_from(occ, a, b, -dr, -df, 6));
                }
            } else {
                assert(!bit(occ, qi) && bit(
                    ray_from(occ, qa, qb, dr, df, (n - 1) as nat),
                    ti,
                ));
                lemma_ray_sym_dir(occ, qa, qb, dr, df, (n - 1) as nat, ti);
                lemma_ray_extend_rec(
                    occ,
                    ti / 8,
                    ti % 8,
                    ti / 8,
                    ti % 8,
                    -dr,
                    -df,
                    0,
                    7,
                    qa,
                    qb,
                );
                assert((qa + (-dr)) * 8 + (qb + (-df)) == a * 8 + b);
            }
        }
    }
}

/// Law: slider attacks are mutual. Against any one occupancy, a
/// bishop on `s` attacks `t` exactly when a bishop on `t` attacks
/// `s`, and likewise for rooks: the squares strictly between them are
/// the same either way, and the far square is reached whether or not
/// it is occupied.
pub proof fn lemma_slider_symmetry(occ: u64, s: int, t: int)
    requires
        0 <= s < 64,
        0 <= t < 64,
    ensures
        bit(bishop_rays(occ, s), t) == bit(bishop_rays(occ, t), s),
        bit(rook_rays(occ, s), t) == bit(rook_rays(occ, t), s),
{
    lemma_slider_sym_half(occ, s, t, true);
    lemma_slider_sym_half(occ, t, s, true);
    lemma_slider_sym_half(occ, s, t, false);
    lemma_slider_sym_half(occ, t, s, false);
}

/// One direction of the mutual-attack law.
proof fn lemma_slider_sym_half(occ: u64, s: int, t: int, bishop: bool)
    requires
        0 <= s < 64,
        0 <= t < 64,
    ensures
        bishop ==> (bit(bishop_rays(occ, s), t) ==> bit(bishop_rays(occ, t), s)),
        !bishop ==> (bit(rook_rays(occ, s), t) ==> bit(rook_rays(occ, t), s)),
{
    let a = s / 8;
    let b = s % 8;
    if bishop {
        if bit(bishop_rays(occ, s), t) {
            lemma_or_bits(ray_from(occ, a, b, 1, 1, 7), ray_from(occ, a, b, 1, -1, 7));
            lemma_or_bits(
                ray_from(occ, a, b, 1, 1, 7) | ray_from(occ, a, b, 1, -1, 7),
                ray_from(occ, a, b, -1, 1, 7),
            );
            lemma_or_bits(
                ray_from(occ, a, b, 1, 1, 7) | ray_from(occ, a, b, 1, -1, 7) | ray_from(
                    occ,
                    a,
                    b,
                    -1,
                    1,
                    7,
                ),
                ray_from(occ, a, b, -1, -1, 7),
            );
            let tr = t / 8;
            let tf = t % 8;
            lemma_or_bits(ray_from(occ, tr, tf, 1, 1, 7), ray_from(occ, tr, tf, 1, -1, 7));
            lemma_or_bits(
                ray_from(occ, tr, tf, 1, 1, 7) | ray_from(occ, tr, tf, 1, -1, 7),
                ray_from(occ, tr, tf, -1, 1, 7),
            );
            lemma_or_bits(
                ray_from(occ, tr, tf, 1, 1, 7) | ray_from(occ, tr, tf, 1, -1, 7) | ray_from(
                    occ,
                    tr,
                    tf,
                    -1,
                    1,
                    7,
                ),
                ray_from(occ, tr, tf, -1, -1, 7),
            );
            if bit(ray_from(occ, a, b, 1, 1, 7), t) {
                lemma_ray_sym_dir(occ, a, b, 1, 1, 7, t);
            } else if bit(ray_from(occ, a, b, 1, -1, 7), t) {
                lemma_ray_sym_dir(occ, a, b, 1, -1, 7, t);
            } else if bit(ray_from(occ, a, b, -1, 1, 7), t) {
                lemma_ray_sym_dir(occ, a, b, -1, 1, 7, t);
            } else {
                lemma_ray_sym_dir(occ, a, b, -1, -1, 7, t);
            }
            assert(a * 8 + b == s);
        }
    } else {
        if bit(rook_rays(occ, s), t) {
            lemma_or_bits(ray_from(occ, a, b, 1, 0, 7), ray_from(occ, a, b, -1, 0, 7));
            lemma_or_bits(
                ray_from(occ, a, b, 1, 0, 7) | ray_from(occ, a, b, -1, 0, 7),
                ray_from(occ, a, b, 0, 1, 7),
            );
            lemma_or_bits(
                ray_from(occ, a, b, 1, 0, 7) | ray_from(occ, a, b, -1, 0, 7) | ray_from(
                    occ,
                    a,
                    b,
                    0,
                    1,
                    7,
                ),
                ray_from(occ, a, b, 0, -1, 7),
            );
            let tr = t / 8;
            let tf = t % 8;
            lemma_or_bits(ray_from(occ, tr, tf, 1, 0, 7), ray_from(occ, tr, tf, -1, 0, 7));
            lemma_or_bits(
                ray_from(occ, tr, tf, 1, 0, 7) | ray_from(occ, tr, tf, -1, 0, 7),
                ray_from(occ, tr, tf, 0, 1, 7),
            );
            lemma_or_bits(
                ray_from(occ, tr, tf, 1, 0, 7) | ray_from(occ, tr, tf, -1, 0, 7) | ray_from(
                    occ,
                    tr,
                    tf,
                    0,
                    1,
                    7,
                ),
                ray_from(occ, tr, tf, 0, -1, 7),
            );
            if bit(ray_from(occ, a, b, 1, 0, 7), t) {
                lemma_ray_sym_dir(occ, a, b, 1, 0, 7, t);
            } else if bit(ray_from(occ, a, b, -1, 0, 7), t) {
                lemma_ray_sym_dir(occ, a, b, -1, 0, 7, t);
            } else if bit(ray_from(occ, a, b, 0, 1, 7), t) {
                lemma_ray_sym_dir(occ, a, b, 0, 1, 7, t);
            } else {
                lemma_ray_sym_dir(occ, a, b, 0, -1, 7, t);
            }
            assert(a * 8 + b == s);
        }
    }
}

} // verus!
