use vstd::prelude::*;

use crate::attack_generation::{bishop_rays, fly_gen_bishop_attks, fly_gen_rook_attks, rook_rays};
use crate::attack_masks::{bishop_mask_at, mask_bishop_attacks, mask_rook_attacks, rook_mask_at};
use crate::bitboard::Bitboard;
use crate::bits::{
    bit, gather, lemma_gather_bound, lemma_or_zero, lemma_p2_shift, lemma_pcl_is_pc,
    lemma_scatter_gather, lemma_subset_from_bits, p2, pcl, scatter,
};
use crate::position::Position;

verus! {

/// Whether every square of `o` is a relevant blocker square of the
/// slider on `s`.
pub open spec fn subset_of_mask(bishop: bool, s: int, o: u64) -> bool {
    forall|t: int|
        #[trigger] bit(o, t) ==> (if bishop {
            bishop_mask_at(s, t)
        } else {
            rook_mask_at(s, t)
        })
}

/// The ray attacks of either slider kind.
pub open spec fn slider_attack(bishop: bool, occ: u64, s: int) -> u64 {
    if bishop {
        bishop_rays(occ, s)
    } else {
        rook_rays(occ, s)
    }
}

/// The perfect-hash index of a blocker set: multiply and keep the top bits.
pub open spec fn transform_spec(b: u64, magic: u64, bits: u32) -> u64 {
    b.wrapping_mul(magic) >> ((64 - bits) as u64)
}

/// A multiplier is collision-free when blocker sets that share an index
/// share their attacks.
pub open spec fn valid_magic(bishop: bool, s: int, magic: u64, bits: u32) -> bool {
    forall|o1: u64, o2: u64|
        #![trigger transform_spec(o1, magic, bits), transform_spec(o2, magic, bits)]
        subset_of_mask(bishop, s, o1) && subset_of_mask(bishop, s, o2) && transform_spec(
            o1,
            magic,
            bits,
        ) == transform_spec(o2, magic, bits) ==> slider_attack(bishop, o1, s) == slider_attack(
            bishop,
            o2,
            s,
        )
}

/// The perfect-hash index stays under two to the index width.
pub proof fn lemma_transform_bound(b: u64, magic: u64, bits: u32)
    requires
        1 <= bits <= 16,
    ensures
        transform_spec(b, magic, bits) < p2(bits as nat),
{
    let p = b.wrapping_mul(magic);
    assert(p >> ((64 - bits) as u64) < (1u64 << bits)) by (bit_vector)
        requires
            1 <= bits <= 16,
    ;
    lemma_p2_shift(bits);
}

/// The perfect-hash index of a blocker set.
pub fn transform(b: u64, magic: u64, bits: u32) -> (r: u32)
    requires
        1 <= bits <= 16,
    ensures
        r == transform_spec(b, magic, bits),
{
    let p = b.wrapping_mul(magic);
    let r = p >> ((64 - bits) as u64);
    proof {
        assert(p >> ((64 - bits) as u64) < 0x10000) by (bit_vector)
            requires
                1 <= bits <= 16,
        ;
    }
    r as u32
}

/// Build the per-square attack table of one slider: enumerate every
/// subset of the relevant-blocker mask, hash it with the multiplier,
/// and refuse the multiplier on the first collision. A table that comes
/// back answers every masked occupancy with its ray attacks.
pub fn build_slider_table(sq: Position, bishop: bool, magic: u64, bits: u32) -> (r: Option<
    (Bitboard, Vec<Bitboard>)>)
    requires
        1 <= bits <= 12,
    ensures
        (match r {
            Some(pair) => {
                &&& (forall|t: int| #[trigger] bit(pair.0.0, t) <==> (if bishop {
                    bishop_mask_at(sq.idx(), t)
                } else {
                    rook_mask_at(sq.idx(), t)
                }))
                &&& pair.1.len() == p2(bits as nat)
                &&& (forall|o: u64|
                    #[trigger] subset_of_mask(bishop, sq.idx(), o) ==> pair.1@[transform_spec(
                        o,
                        magic,
                        bits,
                    ) as int].0 == slider_attack(bishop, o, sq.idx()))
            },
            None => {
                ||| crate::bits::pc(crate::attack_masks::mask_value(bishop, sq.idx())) < 1
                ||| crate::bits::pc(crate::attack_masks::mask_value(bishop, sq.idx())) > 12
                ||| !valid_magic(bishop, sq.idx(), magic, bits)
            },
        }),
{
    let mask = if bishop {
        mask_bishop_attacks(sq)
    } else {
        mask_rook_attacks(sq)
    };
    proof {
        crate::attack_masks::lemma_mask_value_bits(bishop, sq.idx());
        assert forall|t: int|
            bit(mask.0, t) <==> bit(
                crate::attack_masks::mask_value(bishop, sq.idx()),
                t,
            ) by {}
        crate::bits::lemma_eq_by_bits(
            mask.0,
            crate::attack_masks::mask_value(bishop, sq.idx()),
        );
    }
    let n = mask.count_bits();
    if n == 0 || n > 12 {
        return None;
    }
    let count64 = 1u64 << (n as u64);
    let tsize64 = 1u64 << (bits as u64);
    proof {
        assert(1u64 << (n as u64) <= 4096 && 1u64 << (bits as u64) <= 4096) by (bit_vector)
            requires
                1 <= n as u64 <= 12,
                1 <= bits as u64 <= 12,
        ;
        lemma_p2_shift(n as u32);
        lemma_p2_shift(bits);
    }
    let count = count64 as usize;
    let tsize = tsize64 as usize;
    let mut tbl: Vec<Bitboard> = Vec::new();
    let mut used: Vec<bool> = Vec::new();
    let mut z: usize = 0;
    while z < tsize
        invariant
            tbl.len() == z,
            used.len() == z,
            z <= tsize,
            forall|k: int| 0 <= k < z ==> !(#[trigger] used@[k]),
        decreases tsize - z,
    {
        tbl.push(Bitboard(0));
        used.push(false);
        z = z + 1;
    }
    let mut i: usize = 0;
    while i < count
        invariant
            i <= count,
            count as nat == p2(n as nat),
            tbl.len() == tsize,
            used.len() == tsize,
            tsize as nat == p2(bits as nat),
            1 <= bits <= 12,
            mask.0 == crate::attack_masks::mask_value(bishop, sq.idx()),
            forall|t: int|
                #[trigger] bit(mask.0, t) <==> crate::attack_masks::slider_mask_at(
                    bishop,
                    sq.idx(),
                    t,
                ),
            forall|j2: int|
                0 <= j2 < tsize && #[trigger] used@[j2] ==> (exists|ii: nat|
                    #![trigger scatter(ii, mask.0)]
                    ii < i && transform_spec(scatter(ii, mask.0), magic, bits) == j2 && tbl@[j2].0
                        == slider_attack(bishop, scatter(ii, mask.0), sq.idx())),
            forall|ii: nat|
                #![trigger scatter(ii, mask.0)]
                ii < i ==> {
                    let o = scatter(ii, mask.0);
                    &&& transform_spec(o, magic, bits) < tsize
                    &&& used@[transform_spec(o, magic, bits) as int]
                    &&& tbl@[transform_spec(o, magic, bits) as int].0 == slider_attack(
                        bishop,
                        o,
                        sq.idx(),
                    )
                },
        decreases count - i,
    {
        let mut occ = Bitboard::new();
        occ.set_occupancy(i as u64, &mask);
        proof {
            lemma_or_zero(scatter(i as nat, mask.0));
        }
        let att = if bishop {
            fly_gen_bishop_attks(sq, &occ)
        } else {
            fly_gen_rook_attks(sq, &occ)
        };
        let idx = transform(occ.0, magic, bits) as usize;
        proof {
            lemma_transform_bound(occ.0, magic, bits);
        }
        if used[idx] {
            if tbl[idx].0 != att.0 {
                proof {
                    let j2 = idx as int;
                    let ii = choose|ii: nat|
                        #![trigger scatter(ii, mask.0)]
                        ii < i && transform_spec(scatter(ii, mask.0), magic, bits) == j2
                            && tbl@[j2].0 == slider_attack(bishop, scatter(ii, mask.0), sq.idx());
                    let o1 = scatter(ii, mask.0);
                    let o2 = scatter(i as nat, mask.0);
                    crate::bits::lemma_scatter_in_mask(ii, mask.0);
                    crate::bits::lemma_scatter_in_mask(i as nat, mask.0);
                    crate::bits::lemma_subset_bits_of(o1, mask.0);
                    crate::bits::lemma_subset_bits_of(o2, mask.0);
                    assert(subset_of_mask(bishop, sq.idx(), o1));
                    assert(subset_of_mask(bishop, sq.idx(), o2));
                    assert(transform_spec(o1, magic, bits) == transform_spec(o2, magic, bits));
                    assert(slider_attack(bishop, o1, sq.idx()) != slider_attack(
                        bishop,
                        o2,
                        sq.idx(),
                    ));
                    assert(!valid_magic(bishop, sq.idx(), magic, bits));
                }
                return None;
            }
        } else {
            let ghost old_used = used@;
            let ghost old_tbl = tbl@;
            tbl.set(idx, att);
            used.set(idx, true);
            proof {
                assert forall|j2: int|
                    0 <= j2 < tsize && #[trigger] used@[j2] implies (exists|ii: nat|
                    #![trigger scatter(ii, mask.0)]
                    ii < i + 1 && transform_spec(scatter(ii, mask.0), magic, bits) == j2
                        && tbl@[j2].0 == slider_attack(bishop, scatter(ii, mask.0), sq.idx())) by {
                    if j2 == idx as int {
                        assert(scatter(i as nat, mask.0) == occ.0);
                        assert(transform_spec(scatter(i as nat, mask.0), magic, bits) == j2);
                        assert(tbl@[j2].0 == slider_attack(
                            bishop,
                            scatter(i as nat, mask.0),
                            sq.idx(),
                        ));
                    } else {
                        assert(old_used[j2]);
                        let ii = choose|ii: nat|
                            #![trigger scatter(ii, mask.0)]
                            ii < i && transform_spec(scatter(ii, mask.0), magic, bits) == j2
                                && old_tbl[j2].0 == slider_attack(
                                bishop,
                                scatter(ii, mask.0),
                                sq.idx(),
                            );
                        assert(tbl@[j2].0 == old_tbl[j2].0);
                        assert(transform_spec(scatter(ii, mask.0), magic, bits) == j2);
                    }
                }
            }
        }
        i = i + 1;
    }
    proof {
        lemma_pcl_is_pc(mask.0);
        assert forall|o: u64| #[trigger]
            subset_of_mask(bishop, sq.idx(), o) implies tbl@[transform_spec(o, magic, bits)
            as int].0 == slider_attack(bishop, o, sq.idx()) by {
            lemma_subset_from_bits(o, mask.0);
            lemma_gather_bound(o, mask.0);
            lemma_scatter_gather(o, mask.0);
            let i0 = gather(o, mask.0);
            assert(scatter(i0, mask.0) == o);
        }
    }
    Some((mask, tbl))
}

/// The shipped bishop multipliers, one per square.
pub fn bishop_magic_number(position: Position) -> (r: u64)
    ensures
        r == spec_bishop_magic(position.idx()),
{
    match position {
        Position::A8 => 0x0040040822862081,
        Position::B8 => 0x00040810a4108000,
        Position::C8 => 0x2008008400920040,
        Position::D8 => 0x0061050104000008,
        Position::E8 => 0x8282021010016100,
        Position::F8 => 0x41008210400a0001,
        Position::G8 => 0x03004202104050c0,
        Position::H8 => 0x0022010108410402,
        Position::A7 => 0x0060400862888605,
        Position::B7 => 0x0006311401040228,
        Position::C7 => 0x0000080801082000,
        Position::D7 => 0x802a082080240100,
        Position::E7 => 0x1860061210016800,
        Position::F7 => 0x000401016010a810,
        Position::G7 => 0x1000060545201005,
        Position::H7 => 0x21000c2098280819,
        Position::A6 => 0x2020004242020200,
        Position::B6 => 0x4102100490040101,
        Position::C6 => 0x0114012208001500,
        Position::D6 => 0x0108000682004460,
        Position::E6 => 0x7809000490401000,
        Position::F6 => 0x420b001601052912,
        Position::G6 => 0x00408c8206100300,
        Position::H6 => 0x2231001041180110,
        Position::A5 => 0x8010102008a02100,
        Position::B5 => 0x0204201004080084,
        Position::C5 => 0x0410500058008811,
        Position::D5 => 0x480a040008010820,
        Position::E5 => 0x2194082044002002,
        Position::F5 => 0x2008a20001004200,
        Position::G5 => 0x0040908041041004,
        Position::H5 => 0x0881002200540404,
        Position::A4 => 0x4001082002082101,
        Position::B4 => 0x0008110408880880,
        Position::C4 => 0x8000404040080200,
        Position::D4 => 0x0200020082180080,
        Position::E4 => 0x1184440400114100,
        Position::F4 => 0xc220008020110412,
        Position::G4 => 0x4088084040090100,
        Position::H4 => 0x8822104100121080,
        Position::A3 => 0x100111884008200a,
        Position::B3 => 0x2844040288820200,
        Position::C3 => 0x0090901088003010,
        Position::D3 => 0x001000a218000400,
        Position::E3 => 0x0001102010420204,
        Position::F3 => 0x08414a3483000200,
        Position::G3 => 0x6410849901420400,
        Position::H3 => 0x0201080200901040,
        Position::A2 => 0x0204880808050002,
        Position::B2 => 0x1001008201210000,
        Position::C2 => 0x016a6300a890040a,
        Position::D2 => 0x8049000441108600,
        Position::E2 => 0x2212002060410044,
        Position::F2 => 0x0100086308020020,
        Position::G2 => 0x0484241408020421,
        Position::H2 => 0x105084028429c085,
        Position::A1 => 0x004282480801080c,
        Position::B1 => 0x081c098488088240,
        Position::C1 => 0x1400000090480820,
        Position::D1 => 0x4444000030208810,
        Position::E1 => 0x1020142010820200,
        Position::F1 => 0x2234802004018200,
        Position::G1 => 0x00c2040450820a00,
        Position::H1 => 0x0002101021090020,
    }
}

/// The shipped rook multipliers, one per square.
pub fn rook_magic_number(position: Position) -> (r: u64)
    ensures
        r == spec_rook_magic(position.idx()),
{
    match position {
        Position::A8 => 0xa080041440042080,
        Position::B8 => 0xa840200410004001,
        Position::C8 => 0x0c800c1000200081,
        Position::D8 => 0x0100081001000420,
        Position::E8 => 0x0200020010080420,
        Position::F8 => 0x03001c0002010008,
        Position::G8 => 0x8480008002000100,
        Position::H8 => 0x2080088004402900,
        Position::A7 => 0x0000800098204000,
        Position::B7 => 0x2024401000200040,
        Position::C7 => 0x0100802000801000,
        Position::D7 => 0x0120800800801000,
        Position::E7 => 0x0208808088000400,
        Position::F7 => 0x0002802200800400,
        Position::G7 => 0x2200800100020080,
        Position::H7 => 0x0801000060821100,
        Position::A6 => 0x0080044006422000,
        Position::B6 => 0x0100808020004000,
        Position::C6 => 0x12108a0010204200,
        Position::D6 => 0x0140848010000802,
        Position::E6 => 0x0481828014002800,
        Position::F6 => 0x8094004002004100,
        Position::G6 => 0x4010040010010802,
        Position::H6 => 0x0000020008806104,
        Position::A5 => 0x0100400080208000,
        Position::B5 => 0x2040002120081000,
        Position::C5 => 0x0021200680100081,
        Position::D5 => 0x0020100080080080,
        Position::E5 => 0x0002000a00200410,
        Position::F5 => 0x0000020080800400,
        Position::G5 => 0x0080088400100102,
        Position::H5 => 0x0080004600042881,
        Position::A4 => 0x4040008040800020,
        Position::B4 => 0x0440003000200801,
        Position::C4 => 0x0004200011004500,
        Position::D4 => 0x0188020010100100,
        Position::E4 => 0x0014800401802800,
        Position::F4 => 0x2080040080800200,
        Position::G4 => 0x0124080204001001,
        Position::H4 => 0x0200046502000484,
        Position::A3 => 0x0480400080088020,
        Position::B3 => 0x1000422010034000,
        Position::C3 => 0x0030200100110040,
        Position::D3 => 0x0000100021010009,
        Position::E3 => 0x2002080100110004,
        Position::F3 => 0x0202008004008002,
        Position::G3 => 0x0020020004010100,
        Position::H3 => 0x2048440040820001,
        Position::A2 => 0x0101002200408200,
        Position::B2 => 0x0040802000401080,
        Position::C2 => 0x4008142004410100,
        Position::D2 => 0x02060820c0120200,
        Position::E2 => 0x0001001004080100,
        Position::F2 => 0x020c020080040080,
        Position::G2 => 0x2935610830022400,
        Position::H2 => 0x0044440041009200,
        Position::A1 => 0x0280001040802101,
        Position::B1 => 0x2100190040002085,
        Position::C1 => 0x80c0084100102001,
        Position::D1 => 0x4024081001000421,
        Position::E1 => 0x00020030a0244872,
        Position::F1 => 0x0012001008414402,
        Position::G1 => 0x02006104900a0804,
        Position::H1 => 0x0001004081002402,
    }
}

} // verus!

verus! {

/// Relies on rand::random: one uniformly drawn word per call. Nothing
/// is promised of the value, and nothing in the library depends on it:
/// whatever comes back is only ever validated.
#[verifier::external_body]
fn rand_u64() -> u64 {
    rand::random::<u64>()
}

/// A sparse random candidate multiplier.
fn few_bits() -> u64 {
    rand_u64() & rand_u64() & rand_u64()
}

/// Search for a collision-free multiplier for the slider on the given
/// square, hashing into `m` index bits. Zero reports that none was
/// found; any other answer has been validated against every subset of
/// the relevant-blocker mask.
pub fn find_magic(sq: Position, m: usize, bishop: bool) -> (r: u64)
    ensures
        r == 0 || valid_magic(bishop, sq.idx(), r, m as u32),
        m < 1 || m > 12 ==> r == 0,
{
    if m < 1 || m > 12 {
        return 0;
    }
    let mbits = m as u32;
    let mask = if bishop {
        mask_bishop_attacks(sq)
    } else {
        mask_rook_attacks(sq)
    };
    let mut k: u64 = 0;
    while k < 100000000
        invariant
            1 <= mbits <= 12,
            1 <= m <= 12,
            mbits == m as u32,
        decreases 100000000 - k,
    {
        let magic = few_bits();
        let entropy = Bitboard(mask.0.wrapping_mul(magic) & 0xFF00000000000000).count_bits();
        if entropy >= 6 {
            match build_slider_table(sq, bishop, magic, mbits) {
                Some(pair) => {
                    proof {
                        assert forall|o1: u64, o2: u64|
                            subset_of_mask(bishop, sq.idx(), o1) && subset_of_mask(
                                bishop,
                                sq.idx(),
                                o2,
                            ) && transform_spec(o1, magic, mbits) == transform_spec(
                                o2,
                                magic,
                                mbits,
                            ) implies slider_attack(bishop, o1, sq.idx()) == slider_attack(
                            bishop,
                            o2,
                            sq.idx(),
                        ) by {
                            assert(pair.1@[transform_spec(o1, magic, mbits) as int].0
                                == slider_attack(bishop, o1, sq.idx()));
                            assert(pair.1@[transform_spec(o2, magic, mbits) as int].0
                                == slider_attack(bishop, o2, sq.idx()));
                        }
                        assert(valid_magic(bishop, sq.idx(), magic, mbits));
                    }
                    if magic != 0 {
                        return magic;
                    }
                },
                None => {},
            }
        }
        k = k + 1;
    }
    0
}

} // verus!

verus! {

/// The shipped bishop multiplier of each square.
pub open spec fn spec_bishop_magic(s: int) -> u64 {
    if s == 0 {
        0x0040040822862081u64
    } else if s == 1 {
        0x00040810a4108000u64
    } else if s == 2 {
        0x2008008400920040u64
    } else if s == 3 {
        0x0061050104000008u64
    } else if s == 4 {
        0x8282021010016100u64
    } else if s == 5 {
        0x41008210400a0001u64
    } else if s == 6 {
        0x03004202104050c0u64
    } else if s == 7 {
        0x0022010108410402u64
    } else if s == 8 {
        0x0060400862888605u64
    } else if s == 9 {
        0x0006311401040228u64
    } else if s == 10 {
        0x0000080801082000u64
    } else if s == 11 {
        0x802a082080240100u64
    } else if s == 12 {
        0x1860061210016800u64
    } else if s == 13 {
        0x000401016010a810u64
    } else if s == 14 {
        0x1000060545201005u64
    } else if s == 15 {
        0x21000c2098280819u64
    } else if s == 16 {
        0x2020004242020200u64
    } else if s == 17 {
        0x4102100490040101u64
    } else if s == 18 {
        0x0114012208001500u64
    } else if s == 19 {
        0x0108000682004460u64
    } else if s == 20 {
        0x7809000490401000u64
    } else if s == 21 {
        0x420b001601052912u64
    } else if s == 22 {
        0x00408c8206100300u64
    } else if s == 23 {
        0x2231001041180110u64
    } else if s == 24 {
        0x8010102008a02100u64
    } else if s == 25 {
        0x0204201004080084u64
    } else if s == 26 {
        0x0410500058008811u64
    } else if s == 27 {
        0x480a040008010820u64
    } else if s == 28 {
        0x2194082044002002u64
    } else if s == 29 {
        0x2008a20001004200u64
    } else if s == 30 {
        0x0040908041041004u64
    } else if s == 31 {
        0x0881002200540404u64
    } else if s == 32 {
        0x4001082002082101u64
    } else if s == 33 {
        0x0008110408880880u64
    } else if s == 34 {
        0x8000404040080200u64
    } else if s == 35 {
        0x0200020082180080u64
    } else if s == 36 {
        0x1184440400114100u64
    } else if s == 37 {
        0xc220008020110412u64
    } else if s == 38 {
        0x4088084040090100u64
    } else if s == 39 {
        0x8822104100121080u64
    } else if s == 40 {
        0x100111884008200au64
    } else if s == 41 {
        0x2844040288820200u64
    } else if s == 42 {
        0x0090901088003010u64
    } else if s == 43 {
        0x001000a218000400u64
    } else if s == 44 {
        0x0001102010420204u64
    } else if s == 45 {
        0x08414a3483000200u64
    } else if s == 46 {
        0x6410849901420400u64
    } else if s == 47 {
        0x0201080200901040u64
    } else if s == 48 {
        0x0204880808050002u64
    } else if s == 49 {
        0x1001008201210000u64
    } else if s == 50 {
        0x016a6300a890040au64
    } else if s == 51 {
        0x8049000441108600u64
    } else if s == 52 {
        0x2212002060410044u64
    } else if s == 53 {
        0x0100086308020020u64
    } else if s == 54 {
        0x0484241408020421u64
    } else if s == 55 {
        0x105084028429c085u64
    } else if s == 56 {
        0x004282480801080cu64
    } else if s == 57 {
        0x081c098488088240u64
    } else if s == 58 {
        0x1400000090480820u64
    } else if s == 59 {
        0x4444000030208810u64
    } else if s == 60 {
        0x1020142010820200u64
    } else if s == 61 {
        0x2234802004018200u64
    } else if s == 62 {
        0x00c2040450820a00u64
    } else {
        0x0002101021090020u64
    }
}

/// The shipped rook multiplier of each square.
pub open spec fn spec_rook_magic(s: int) -> u64 {
    if s == 0 {
        0xa080041440042080u64
    } else if s == 1 {
        0xa840200410004001u64
    } else if s == 2 {
        0x0c800c1000200081u64
    } else if s == 3 {
        0x0100081001000420u64
    } else if s == 4 {
        0x0200020010080420u64
    } else if s == 5 {
        0x03001c0002010008u64
    } else if s == 6 {
        0x8480008002000100u64
    } else if s == 7 {
        0x2080088004402900u64
    } else if s == 8 {
        0x0000800098204000u64
    } else if s == 9 {
        0x2024401000200040u64
    } else if s == 10 {
        0x0100802000801000u64
    } else if s == 11 {
        0x0120800800801000u64
    } else if s == 12 {
        0x0208808088000400u64
    } else if s == 13 {
        0x0002802200800400u64
    } else if s == 14 {
        0x2200800100020080u64
    } else if s == 15 {
        0x0801000060821100u64
    } else if s == 16 {
        0x0080044006422000u64
    } else if s == 17 {
        0x0100808020004000u64
    } else if s == 18 {
        0x12108a0010204200u64
    } else if s == 19 {
        0x0140848010000802u64
    } else if s == 20 {
        0x0481828014002800u64
    } else if s == 21 {
        0x8094004002004100u64
    } else if s == 22 {
        0x4010040010010802u64
    } else if s == 23 {
        0x0000020008806104u64
    } else if s == 24 {
        0x0100400080208000u64
    } else if s == 25 {
        0x2040002120081000u64
    } else if s == 26 {
        0x0021200680100081u64
    } else if s == 27 {
        0x0020100080080080u64
    } else if s == 28 {
        0x0002000a00200410u64
    } else if s == 29 {
        0x0000020080800400u64
    } else if s == 30 {
        0x0080088400100102u64
    } else if s == 31 {
        0x0080004600042881u64
    } else if s == 32 {
        0x4040008040800020u64
    } else if s == 33 {
        0x0440003000200801u64
    } else if s == 34 {
        0x0004200011004500u64
    } else if s == 35 {
        0x0188020010100100u64
    } else if s == 36 {
        0x0014800401802800u64
    } else if s == 37 {
        0x2080040080800200u64
    } else if s == 38 {
        0x0124080204001001u64
    } else if s == 39 {
        0x0200046502000484u64
    } else if s == 40 {
        0x0480400080088020u64
    } else if s == 41 {
        0x1000422010034000u64
    } else if s == 42 {
        0x0030200100110040u64
    } else if s == 43 {
        0x0000100021010009u64
    } else if s == 44 {
        0x2002080100110004u64
    } else if s == 45 {
        0x0202008004008002u64
    } else if s == 46 {
        0x0020020004010100u64
    } else if s == 47 {
        0x2048440040820001u64
    } else if s == 48 {
        0x0101002200408200u64
    } else if s == 49 {
        0x0040802000401080u64
    } else if s == 50 {
        0x4008142004410100u64
    } else if s == 51 {
        0x02060820c0120200u64
    } else if s == 52 {
        0x0001001004080100u64
    } else if s == 53 {
        0x020c020080040080u64
    } else if s == 54 {
        0x2935610830022400u64
    } else if s == 55 {
        0x0044440041009200u64
    } else if s == 56 {
        0x0280001040802101u64
    } else if s == 57 {
        0x2100190040002085u64
    } else if s == 58 {
        0x80c0084100102001u64
    } else if s == 59 {
        0x4024081001000421u64
    } else if s == 60 {
        0x00020030a0244872u64
    } else if s == 61 {
        0x0012001008414402u64
    } else if s == 62 {
        0x02006104900a0804u64
    } else {
        0x0001004081002402u64
    }
}

} // verus!
