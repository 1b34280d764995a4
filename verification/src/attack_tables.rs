use vstd::prelude::*;

use crate::attack_generation::{bishop_rays, rook_rays, lemma_slider_masked};
use crate::attack_masks::{
    bishop_mask_at, king_step, knight_jump, mask_bishop_attacks, mask_king_attacks,
    mask_knight_attacks, mask_pawn_attacks, mask_rook_attacks, pawn_attack, rook_mask_at,
};
use crate::bitboard::Bitboard;
use crate::bits::{bit, lemma_and_bits, p2};
use crate::colour::Colour;
use crate::attack_masks::{lemma_mask_value_bits, mask_value};
use crate::bits::pc;
use crate::magic_numbers::{
    bishop_magic_number, build_slider_table, rook_magic_number, spec_bishop_magic,
    spec_rook_magic, subset_of_mask, transform, transform_spec, lemma_transform_bound,
    valid_magic,
};
use crate::position::Position;

verus! {

/// Every precomputed attack table: leaper attacks looked up directly,
/// slider attacks through a perfect-hash table per square.
pub struct AttackTables {
    pub pawn_attacks: Vec<Vec<Bitboard>>,
    pub knight_attacks: Vec<Bitboard>,
    pub king_attacks: Vec<Bitboard>,
    pub bishop_masks: Vec<Bitboard>,
    pub rook_masks: Vec<Bitboard>,
    pub bishop_magics: Vec<u64>,
    pub rook_magics: Vec<u64>,
    pub bishop_bits: Vec<u32>,
    pub rook_bits: Vec<u32>,
    pub bishop_attacks: Vec<Vec<Bitboard>>,
    pub rook_attacks: Vec<Vec<Bitboard>>,
}

impl AttackTables {
    /// What the tables promise: each leaper entry holds exactly the
    /// squares that piece attacks, and each slider lookup answers any
    /// masked occupancy with its ray attacks.
    pub open spec fn wf(self) -> bool {
        &&& self.pawn_attacks.len() == 2
        &&& self.pawn_attacks@[0].len() == 64
        &&& self.pawn_attacks@[1].len() == 64
        &&& self.knight_attacks.len() == 64
        &&& self.king_attacks.len() == 64
        &&& self.bishop_masks.len() == 64
        &&& self.rook_masks.len() == 64
        &&& self.bishop_magics.len() == 64
        &&& self.rook_magics.len() == 64
        &&& self.bishop_bits.len() == 64
        &&& self.rook_bits.len() == 64
        &&& self.bishop_attacks.len() == 64
        &&& self.rook_attacks.len() == 64
        &&& (forall|s: int, t: int|
            0 <= s < 64 ==> (#[trigger] bit(self.pawn_attacks@[0]@[s].0, t) <==> pawn_attack(
                Colour::White,
                s,
                t,
            )))
        &&& (forall|s: int, t: int|
            0 <= s < 64 ==> (#[trigger] bit(self.pawn_attacks@[1]@[s].0, t) <==> pawn_attack(
                Colour::Black,
                s,
                t,
            )))
        &&& (forall|s: int, t: int|
            0 <= s < 64 ==> (#[trigger] bit(self.knight_attacks@[s].0, t) <==> knight_jump(s, t)))
        &&& (forall|s: int, t: int|
            0 <= s < 64 ==> (#[trigger] bit(self.king_attacks@[s].0, t) <==> king_step(s, t)))
        &&& (forall|s: int, t: int|
            0 <= s < 64 ==> (#[trigger] bit(self.bishop_masks@[s].0, t) <==> bishop_mask_at(s, t)))
        &&& (forall|s: int, t: int|
            0 <= s < 64 ==> (#[trigger] bit(self.rook_masks@[s].0, t) <==> rook_mask_at(s, t)))
        &&& (forall|s: int|
            0 <= s < 64 ==> 1 <= #[trigger] self.bishop_bits@[s] <= 9)
        &&& (forall|s: int|
            0 <= s < 64 ==> 1 <= #[trigger] self.rook_bits@[s] <= 12)
        &&& (forall|s: int|
            0 <= s < 64 ==> #[trigger] self.bishop_attacks@[s].len() == p2(
                self.bishop_bits@[s] as nat,
            ))
        &&& (forall|s: int|
            0 <= s < 64 ==> #[trigger] self.rook_attacks@[s].len() == p2(self.rook_bits@[s] as nat))
        &&& (forall|s: int, o: u64|
            #![trigger transform_spec(o, self.bishop_magics@[s], self.bishop_bits@[s])]
            0 <= s < 64 && subset_of_mask(true, s, o) ==> self.bishop_attacks@[s]@[transform_spec(
                o,
                self.bishop_magics@[s],
                self.bishop_bits@[s],
            ) as int].0 == bishop_rays(o, s))
        &&& (forall|s: int, o: u64|
            #![trigger transform_spec(o, self.rook_magics@[s], self.rook_bits@[s])]
            0 <= s < 64 && subset_of_mask(false, s, o) ==> self.rook_attacks@[s]@[transform_spec(
                o,
                self.rook_magics@[s],
                self.rook_bits@[s],
            ) as int].0 == rook_rays(o, s))
    }

    /// Whether one square's shipped multiplier builds its table: the
    /// relevant mask is of a buildable width and the multiplier hashes
    /// its blocker subsets without a collision.
    pub open spec fn slider_ok(bishop: bool, s: int) -> bool {
        let width = pc(mask_value(bishop, s));
        let magic = if bishop {
            spec_bishop_magic(s)
        } else {
            spec_rook_magic(s)
        };
        &&& 1 <= width
        &&& width <= (if bishop {
            9int
        } else {
            12int
        })
        &&& valid_magic(bishop, s, magic, width as u32)
    }

    /// Build every table once, from the shipped multipliers. Each
    /// slider table is validated square by square as it is built; the
    /// construction is refused only when some square's multiplier
    /// fails that validation.
    pub fn new() -> (r: Option<AttackTables>)
        ensures
            (match r {
                Some(t) => t.wf(),
                None => exists|s: int, b: bool|
                    #![trigger AttackTables::slider_ok(b, s)]
                    0 <= s < 64 && !AttackTables::slider_ok(b, s),
            }),
    {
        let mut pawn_w: Vec<Bitboard> = Vec::new();
        let mut pawn_b: Vec<Bitboard> = Vec::new();
        let mut knight: Vec<Bitboard> = Vec::new();
        let mut king: Vec<Bitboard> = Vec::new();
        let mut s: u8 = 0;
        while s < 64
            invariant
                s <= 64,
                pawn_w.len() == s,
                pawn_b.len() == s,
                knight.len() == s,
                king.len() == s,
                forall|si: int, t: int|
                    0 <= si < s ==> (#[trigger] bit(pawn_w@[si].0, t) <==> pawn_attack(
                        Colour::White,
                        si,
                        t,
                    )),
                forall|si: int, t: int|
                    0 <= si < s ==> (#[trigger] bit(pawn_b@[si].0, t) <==> pawn_attack(
                        Colour::Black,
                        si,
                        t,
                    )),
                forall|si: int, t: int|
                    0 <= si < s ==> (#[trigger] bit(knight@[si].0, t) <==> knight_jump(si, t)),
                forall|si: int, t: int|
                    0 <= si < s ==> (#[trigger] bit(king@[si].0, t) <==> king_step(si, t)),
            decreases 64 - s,
        {
            let pos = match Position::from_u8(s) {
                Some(p) => p,
                None => {
                    proof {
                        assert(false);
                    }
                    Position::A8
                },
            };
            pawn_w.push(mask_pawn_attacks(pos, &Colour::White));
            pawn_b.push(mask_pawn_attacks(pos, &Colour::Black));
            knight.push(mask_knight_attacks(pos));
            king.push(mask_king_attacks(pos));
            s = s + 1;
        }
        let mut pawn: Vec<Vec<Bitboard>> = Vec::new();
        pawn.push(pawn_w);
        pawn.push(pawn_b);

        let mut bishop_masks: Vec<Bitboard> = Vec::new();
        let mut bishop_magics: Vec<u64> = Vec::new();
        let mut bishop_bits: Vec<u32> = Vec::new();
        let mut bishop_attacks: Vec<Vec<Bitboard>> = Vec::new();
        let mut s2: u8 = 0;
        while s2 < 64
            invariant
                s2 <= 64,
                bishop_masks.len() == s2,
                bishop_magics.len() == s2,
                bishop_bits.len() == s2,
                bishop_attacks.len() == s2,
                forall|si: int, t: int|
                    0 <= si < s2 ==> (#[trigger] bit(bishop_masks@[si].0, t) <==> bishop_mask_at(
                        si,
                        t,
                    )),
                forall|si: int| 0 <= si < s2 ==> 1 <= #[trigger] bishop_bits@[si] <= 9,
                forall|si: int|
                    0 <= si < s2 ==> #[trigger] bishop_attacks@[si].len() == p2(
                        bishop_bits@[si] as nat,
                    ),
                forall|si: int, o: u64|
                    #![trigger transform_spec(o, bishop_magics@[si], bishop_bits@[si])]
                    0 <= si < s2 && subset_of_mask(true, si, o) ==> bishop_attacks@[si]@[
                        transform_spec(o, bishop_magics@[si], bishop_bits@[si]) as int].0
                        == bishop_rays(o, si),
            decreases 64 - s2,
        {
            let pos = match Position::from_u8(s2) {
                Some(p) => p,
                None => {
                    proof {
                        assert(false);
                    }
                    Position::A8
                },
            };
            let premask = mask_bishop_attacks(pos);
            let n = premask.count_bits();
            proof {
                lemma_mask_value_bits(true, s2 as int);
                assert forall|t: int|
                    bit(premask.0, t) <==> bit(mask_value(true, s2 as int), t) by {}
                crate::bits::lemma_eq_by_bits(premask.0, mask_value(true, s2 as int));
            }
            if n < 1 || n > 9 {
                proof {
                    assert(!AttackTables::slider_ok(true, s2 as int));
                }
                return None;
            }
            let magic = bishop_magic_number(pos);
            match build_slider_table(pos, true, magic, n as u32) {
                Some(pair) => {
                    bishop_masks.push(pair.0);
                    bishop_magics.push(magic);
                    bishop_bits.push(n as u32);
                    bishop_attacks.push(pair.1);
                },
                None => {
                    proof {
                        assert(!valid_magic(true, s2 as int, spec_bishop_magic(s2 as int), n
                            as u32));
                        assert(!AttackTables::slider_ok(true, s2 as int));
                    }
                    return None;
                },
            }
            s2 = s2 + 1;
        }

        let mut rook_masks: Vec<Bitboard> = Vec::new();
        let mut rook_magics: Vec<u64> = Vec::new();
        let mut rook_bits: Vec<u32> = Vec::new();
        let mut rook_attacks: Vec<Vec<Bitboard>> = Vec::new();
        let mut s3: u8 = 0;
        while s3 < 64
            invariant
                s3 <= 64,
                rook_masks.len() == s3,
                rook_magics.len() == s3,
                rook_bits.len() == s3,
                rook_attacks.len() == s3,
                forall|si: int, t: int|
                    0 <= si < s3 ==> (#[trigger] bit(rook_masks@[si].0, t) <==> rook_mask_at(
                        si,
                        t,
                    )),
                forall|si: int| 0 <= si < s3 ==> 1 <= #[trigger] rook_bits@[si] <= 12,
                forall|si: int|
                    0 <= si < s3 ==> #[trigger] rook_attacks@[si].len() == p2(rook_bits@[si] as nat),
                forall|si: int, o: u64|
                    #![trigger transform_spec(o, rook_magics@[si], rook_bits@[si])]
                    0 <= si < s3 && subset_of_mask(false, si, o) ==> rook_attacks@[si]@[
                        transform_spec(o, rook_magics@[si], rook_bits@[si]) as int].0 == rook_rays(
                        o,
                        si,
                    ),
            decreases 64 - s3,
        {
            let pos = match Position::from_u8(s3) {
                Some(p) => p,
                None => {
                    proof {
                        assert(false);
                    }
                    Position::A8
                },
            };
            let premask = mask_rook_attacks(pos);
            let n = premask.count_bits();
            proof {
                lemma_mask_value_bits(false, s3 as int);
                assert forall|t: int|
                    bit(premask.0, t) <==> bit(mask_value(false, s3 as int), t) by {}
                crate::bits::lemma_eq_by_bits(premask.0, mask_value(false, s3 as int));
            }
            if n < 1 || n > 12 {
                proof {
                    assert(!AttackTables::slider_ok(false, s3 as int));
                }
                return None;
            }
            let magic = rook_magic_number(pos);
            match build_slider_table(pos, false, magic, n as u32) {
                Some(pair) => {
                    rook_masks.push(pair.0);
                    rook_magics.push(magic);
                    rook_bits.push(n as u32);
                    rook_attacks.push(pair.1);
                },
                None => {
                    proof {
                        assert(!valid_magic(false, s3 as int, spec_rook_magic(s3 as int), n
                            as u32));
                        assert(!AttackTables::slider_ok(false, s3 as int));
                    }
                    return None;
                },
            }
            s3 = s3 + 1;
        }

        Some(
            AttackTables {
                pawn_attacks: pawn,
                knight_attacks: knight,
                king_attacks: king,
                bishop_masks,
                rook_masks,
                bishop_magics,
                rook_magics,
                bishop_bits,
                rook_bits,
                bishop_attacks,
                rook_attacks,
            },
        )
    }

    /// The squares a pawn of the given colour attacks from a square.
    pub fn get_pawn_attacks(&self, position: Position, side: Colour) -> (r: Bitboard)
        requires
            self.wf(),
        ensures
            forall|t: int| #[trigger] bit(r.0, t) <==> pawn_attack(side, position.idx(), t),
    {
        let c = side.index();
        let s = position.index() as usize;
        self.pawn_attacks[c][s]
    }

    /// The squares a knight attacks from a square.
    pub fn get_knight_attacks(&self, position: Position) -> (r: Bitboard)
        requires
            self.wf(),
        ensures
            forall|t: int| #[trigger] bit(r.0, t) <==> knight_jump(position.idx(), t),
    {
        self.knight_attacks[position.index() as usize]
    }

    /// The squares a king attacks from a square.
    pub fn get_king_attacks(&self, position: Position) -> (r: Bitboard)
        requires
            self.wf(),
        ensures
            forall|t: int| #[trigger] bit(r.0, t) <==> king_step(position.idx(), t),
    {
        self.king_attacks[position.index() as usize]
    }

    /// The bishop attacks from a square against the given occupancy,
    /// answered by the perfect-hash table.
    pub fn get_bishop_attacks(&self, position: Position, occ: Bitboard) -> (r: Bitboard)
        requires
            self.wf(),
        ensures
            r.0 == bishop_rays(occ.0, position.idx()),
    {
        let s = position.index() as usize;
        let masked = occ.0 & self.bishop_masks[s].0;
        let idx = transform(masked, self.bishop_magics[s], self.bishop_bits[s]) as usize;
        proof {
            lemma_transform_bound(masked, self.bishop_magics@[s as int], self.bishop_bits@[s as int]);
            lemma_and_bits(occ.0, self.bishop_masks@[s as int].0);
            assert(subset_of_mask(true, s as int, masked));
            lemma_slider_masked(occ.0, self.bishop_masks@[s as int].0, s as int, true);
            assert(self.bishop_attacks@[s as int].len() == p2(self.bishop_bits@[s as int] as nat));
            assert(idx < self.bishop_attacks@[s as int].len());
        }
        self.bishop_attacks[s][idx]
    }

    /// The rook attacks from a square against the given occupancy,
    /// answered by the perfect-hash table.
    pub fn get_rook_attacks(&self, position: Position, occ: Bitboard) -> (r: Bitboard)
        requires
            self.wf(),
        ensures
            r.0 == rook_rays(occ.0, position.idx()),
    {
        let s = position.index() as usize;
        let masked = occ.0 & self.rook_masks[s].0;
        let idx = transform(masked, self.rook_magics[s], self.rook_bits[s]) as usize;
        proof {
            lemma_transform_bound(masked, self.rook_magics@[s as int], self.rook_bits@[s as int]);
            lemma_and_bits(occ.0, self.rook_masks@[s as int].0);
            assert(subset_of_mask(false, s as int, masked));
            lemma_slider_masked(occ.0, self.rook_masks@[s as int].0, s as int, false);
            assert(self.rook_attacks@[s as int].len() == p2(self.rook_bits@[s as int] as nat));
            assert(idx < self.rook_attacks@[s as int].len());
        }
        self.rook_attacks[s][idx]
    }

    /// The queen attacks: the union of the bishop and rook attacks.
    pub fn get_queen_attacks(&self, position: Position, occ: Bitboard) -> (r: Bitboard)
        requires
            self.wf(),
        ensures
            r.0 == bishop_rays(occ.0, position.idx()) | rook_rays(occ.0, position.idx()),
    {
        Bitboard(self.get_bishop_attacks(position, occ).0 | self.get_rook_attacks(position, occ).0)
    }
}

} // verus!
