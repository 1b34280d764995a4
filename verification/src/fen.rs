use vstd::prelude::*;
use vstd::string::StringSliceAdditionalSpecFns;

use crate::bitboard::Bitboard;
use crate::bits::bit;
use crate::boardstate::{scan_piece, State};
use crate::castling::CastlingRights;
use crate::colour::Colour;
use crate::error::Error;
use crate::material_layer::MaterialLayer;
use crate::occupancy_layer::{black_union, white_union, OccupancyLayer};
use crate::pieces::{
    ascii_of_piece, idx_colour, idx_kind, piece_from_ascii, piece_of_index, spec_ascii_of_piece,
    spec_piece_from_ascii, Piece,
};
use crate::position::{pos_of, Position};

verus! {

/// Read the board field of a record: digits skip squares, letters
/// place pieces reading the top rank first, and a stroke closes each
/// rank. The walk returns the index just past the closing blank and
/// the twelve material words, or nothing on any ill-formed text.
/// `sq` counts the squares filled so far and `last` remembers where
/// the current rank began.
pub open spec fn parse_board(s: Seq<u8>, i: int, sq: int, last: int, m: Seq<u64>) -> Option<
    (int, Seq<u64>)>
    decreases s.len() - i,
{
    if i < 0 || i >= s.len() {
        None
    } else {
        let c = s[i];
        if c == 32 {
            if sq == 64 && last == 56 {
                Some((i + 1, m))
            } else {
                None
            }
        } else if 49 <= c <= 56 {
            let d = c - 48;
            if sq + d <= last + 8 {
                parse_board(s, i + 1, sq + d, last, m)
            } else {
                None
            }
        } else if c == 47 {
            if sq == last + 8 && sq < 64 {
                parse_board(s, i + 1, sq, sq, m)
            } else {
                None
            }
        } else {
            match spec_piece_from_ascii(c) {
                Some(p) => {
                    if sq < last + 8 && sq < 64 {
                        parse_board(
                            s,
                            i + 1,
                            sq + 1,
                            last,
                            m.update(p.idx(), m[p.idx()] | (1u64 << (sq as u64))),
                        )
                    } else {
                        None
                    }
                },
                None => None,
            }
        }
    }
}

/// Read the side-to-move field and its closing blank.
pub open spec fn parse_side(s: Seq<u8>, i: int) -> Option<(int, Colour)> {
    if 0 <= i && i + 1 < s.len() && s[i + 1] == 32 {
        if s[i] == 119 {
            Some((i + 2, Colour::White))
        } else if s[i] == 98 {
            Some((i + 2, Colour::Black))
        } else {
            None
        }
    } else {
        None
    }
}

/// The castling bit a letter grants, or zero.
pub open spec fn castle_bit(c: u8) -> u8 {
    if c == 75 {
        1
    } else if c == 81 {
        2
    } else if c == 107 {
        4
    } else if c == 113 {
        8
    } else {
        0
    }
}

/// Read the castling field: a dash for no rights, or letters granting
/// each right at most once, ending at the blank.
pub open spec fn parse_castling(s: Seq<u8>, i: int, acc: u8) -> Option<(int, u8)>
    decreases s.len() - i,
{
    if i < 0 || i >= s.len() {
        None
    } else if s[i] == 32 {
        if acc != 0 {
            Some((i + 1, acc))
        } else {
            None
        }
    } else if castle_bit(s[i]) != 0 && acc & castle_bit(s[i]) == 0 {
        parse_castling(s, i + 1, (acc | castle_bit(s[i])) as u8)
    } else {
        None
    }
}

/// Read the whole castling field, dash form included.
pub open spec fn parse_castling_field(s: Seq<u8>, i: int) -> Option<(int, u8)> {
    if 0 <= i && i + 1 < s.len() && s[i] == 45 && s[i + 1] == 32 {
        Some((i + 2, 0))
    } else {
        parse_castling(s, i, 0)
    }
}

/// Read the en-passant field: a dash, or a square on the two ranks an
/// en-passant square can sit on, then the blank.
pub open spec fn parse_ep(s: Seq<u8>, i: int) -> Option<(int, Option<Position>)> {
    if 0 <= i && i + 1 < s.len() && s[i] == 45 && s[i + 1] == 32 {
        Some((i + 2, None))
    } else if 0 <= i && i + 2 < s.len() && 97 <= s[i] <= 104 && (s[i + 1] == 51 || s[i + 1] == 54)
        && s[i + 2] == 32 {
        let file = s[i] - 97;
        let row = if s[i + 1] == 51 {
            5int
        } else {
            2int
        };
        Some((i + 3, Some(pos_of(row * 8 + file))))
    } else {
        None
    }
}

/// Read a decimal number ending right before `stop`; overflowing the
/// counter word refuses the record.
pub open spec fn parse_number(s: Seq<u8>, i: int, acc: u32, seen: bool, stop: int) -> Option<
    (int, u32)>
    decreases s.len() - i,
{
    if i < 0 || i > s.len() {
        None
    } else if i == stop {
        if seen {
            Some((i + 1, acc))
        } else {
            None
        }
    } else if i < s.len() && 48 <= s[i] <= 57 {
        let d = (s[i] - 48) as u32;
        if acc * 10 + d <= 0xFFFFFFFF {
            parse_number(s, i + 1, (acc * 10 + d) as u32, true, stop)
        } else {
            None
        }
    } else {
        None
    }
}

/// Where the next blank at or after `i` sits, if any.
pub open spec fn next_space(s: Seq<u8>, i: int) -> Option<int>
    decreases s.len() - i,
{
    if i < 0 || i >= s.len() {
        None
    } else if s[i] == 32 {
        Some(i)
    } else {
        next_space(s, i + 1)
    }
}

/// What a whole record means, when it is well formed: the six fields
/// in order, each ending where the next begins, the last ending with
/// the text, and a move number counting from one.
pub open spec fn spec_parse(s: Seq<u8>) -> Option<State> {
    let zeros = Seq::new(12, |i: int| 0u64);
    match parse_board(s, 0, 0, 0, zeros) {
        Some((i1, m)) => {
            match parse_side(s, i1) {
                Some((i2, side)) => {
                    match parse_castling_field(s, i2) {
                        Some((i3, cr)) => {
                            match parse_ep(s, i3) {
                                Some((i4, ep)) => {
                                    match next_space(s, i4) {
                                        Some(sp) => {
                                            match parse_number(s, i4, 0, false, sp) {
                                                Some((i5, half)) => {
                                                    match parse_number(
                                                        s,
                                                        i5,
                                                        0,
                                                        false,
                                                        s.len() as int,
                                                    ) {
                                                        Some((_i6, full)) => {
                                                            if full >= 1 {
                                                                Some(
                                                                    assemble(m, side, cr, ep, half, full),
                                                                )
                                                            } else {
                                                                None
                                                            }
                                                        },
                                                        None => None,
                                                    }
                                                },
                                                None => None,
                                            }
                                        },
                                        None => None,
                                    }
                                },
                                None => None,
                            }
                        },
                        None => None,
                    }
                },
                None => None,
            }
        },
        None => None,
    }
}

/// Put the parsed fields together into a position, the occupancies
/// rebuilt from the material.
pub open spec fn assemble(
    m: Seq<u64>,
    side: Colour,
    cr: u8,
    ep: Option<Position>,
    half: u32,
    full: u32,
) -> State {
    let mat = MaterialLayer(
        [
            Bitboard(m[0]),
            Bitboard(m[1]),
            Bitboard(m[2]),
            Bitboard(m[3]),
            Bitboard(m[4]),
            Bitboard(m[5]),
            Bitboard(m[6]),
            Bitboard(m[7]),
            Bitboard(m[8]),
            Bitboard(m[9]),
            Bitboard(m[10]),
            Bitboard(m[11]),
        ],
    );
    State {
        material_layer: mat,
        occupancy_layer: OccupancyLayer(
            [Bitboard(white_union(mat)), Bitboard(black_union(mat))],
        ),
        side_to_move: side,
        en_passant: ep,
        castling: CastlingRights(cr),
        half_moves: half,
        full_moves: full,
    }
}

} // verus!

verus! {

/// Walking the board field only ever fills fresh squares: the material
/// words that come out never overlap, and never reach off the board.
pub proof fn lemma_parse_board_inv(s: Seq<u8>, i: int, sq: int, last: int, m: Seq<u64>)
    requires
        m.len() == 12,
        0 <= last,
        last % 8 == 0,
        last + 8 <= 64,
        last <= sq <= last + 8,
        forall|k: int, t: int| 0 <= k < 12 && #[trigger] bit(m[k], t) ==> t < sq,
        forall|k: int, l: int| 0 <= k < l < 12 ==> (#[trigger] m[k]) & (#[trigger] m[l]) == 0,
        parse_board(s, i, sq, last, m) is Some,
    ensures
        ({
            let m2 = parse_board(s, i, sq, last, m)->Some_0.1;
            &&& m2.len() == 12
            &&& (forall|k: int, t: int| 0 <= k < 12 && #[trigger] bit(m2[k], t) ==> t < 64)
            &&& (forall|k: int, l: int|
                0 <= k < l < 12 ==> (#[trigger] m2[k]) & (#[trigger] m2[l]) == 0)
        }),
    decreases s.len() - i,
{
    let c = s[i];
    if c == 32 {
        assert forall|k: int, t: int| 0 <= k < 12 && #[trigger] bit(m[k], t) implies t < 64 by {}
    } else if 49 <= c <= 56 {
        lemma_parse_board_inv(s, i + 1, sq + (c - 48), last, m);
    } else if c == 47 {
        lemma_parse_board_inv(s, i + 1, sq, sq, m);
    } else {
        match spec_piece_from_ascii(c) {
            Some(p) => {
                let pi = p.idx();
                let nv = m[pi] | (1u64 << (sq as u64));
                let m2 = m.update(pi, nv);
                crate::bits::lemma_set_bit(m[pi], nv, sq as u64);
                assert forall|k: int, t: int| 0 <= k < 12 && #[trigger] bit(m2[k], t) implies t
                    < sq + 1 by {
                    if k == pi {
                        assert(bit(nv, t) ==> (bit(m[pi], t) || t == sq));
                    }
                }
                assert forall|k: int, l: int| 0 <= k < l < 12 implies (#[trigger] m2[k]) & (
                #[trigger] m2[l]) == 0 by {
                    if k == pi || l == pi {
                        let other = if k == pi {
                            l
                        } else {
                            k
                        };
                        let lo = if other < pi {
                            other
                        } else {
                            pi
                        };
                        let hi = if other < pi {
                            pi
                        } else {
                            other
                        };
                        assert(m[lo] & m[hi] == 0);
                        crate::bits::lemma_zero_bits();
                        assert forall|t: int| 0 <= t < 64 implies !(bit(m2[k], t) && bit(
                            m2[l],
                            t,
                        )) by {
                            if bit(m[other], t) {
                                let alo = m[lo];
                                let ahi = m[hi];
                                if other == lo {
                                    crate::bits::lemma_disjoint_bit(alo, ahi, t);
                                } else {
                                    crate::bits::lemma_disjoint_bit_rev(alo, ahi, t);
                                }
                                assert(!bit(m[pi], t));
                                assert(t < sq);
                                assert(!bit(nv, t));
                            } else {
                                assert(!bit(m2[other], t));
                            }
                        }
                        crate::bits::lemma_and_bits(m2[k], m2[l]);
                        crate::bits::lemma_eq_by_bits(m2[k] & m2[l], 0);
                    }
                }
                lemma_parse_board_inv(s, i + 1, sq + 1, last, m2);
            },
            None => {},
        }
    }
}

} // verus!

verus! {

/// Parse a record into a position. A malformed record is refused,
/// with the offending byte and its offset; anything accepted is a
/// position the library's invariants hold of.
#[verifier::loop_isolation(false)]
#[verifier::rlimit(100)]
pub fn parse(input: &[u8]) -> (r: Result<State, Error>)
    ensures
        (match r {
            Ok(st) => spec_parse(input@) == Some(st) && st.wf(),
            Err(e) => spec_parse(input@) is None && (e matches Error::Deserialization {
                invalid_byte,
                pos,
            } && pos as int == spec_parse_diag(input@).0 && invalid_byte == spec_parse_diag(
                input@,
            ).1),
        }),
{
    let ghost sv = input@;
    let ghost zeros = Seq::new(12, |k: int| 0u64);
    let mut m: Vec<u64> = Vec::new();
    let mut z: usize = 0;
    while z < 12
        invariant
            z <= 12,
            m.len() == z,
            forall|k: int| 0 <= k < z ==> #[trigger] m@[k] == 0u64,
        decreases 12 - z,
    {
        m.push(0);
        z = z + 1;
    }
    proof {
        assert(m@ =~= zeros);
    }

    // board field
    let mut i: usize = 0;
    let mut sq: u8 = 0;
    let mut last: u8 = 0;
    loop
        invariant
            i <= input.len(),
            sv == input@,
            m.len() == 12,
            last % 8 == 0,
            last + 8 <= 64,
            last <= sq,
            sq <= last + 8,
            parse_board(sv, 0, 0, 0, zeros) == parse_board(
                sv,
                i as int,
                sq as int,
                last as int,
                m@,
            ),
            board_err(sv, 0, 0, 0) == board_err(sv, i as int, sq as int, last as int),
        decreases input.len() - i,
    {
        if i >= input.len() {
            return Err(Error::Deserialization { invalid_byte: 0, pos: i });
        }
        let c = input[i];
        if c == 32 {
            if sq == 64 && last == 56 {
                i = i + 1;
                break;
            } else {
                return Err(Error::Deserialization { invalid_byte: c, pos: i });
            }
        } else if 49 <= c && c <= 56 {
            let d = c - 48;
            if sq + d <= last + 8 {
                sq = sq + d;
                i = i + 1;
            } else {
                return Err(Error::Deserialization { invalid_byte: c, pos: i });
            }
        } else if c == 47 {
            if sq == last + 8 && sq < 64 {
                last = sq;
                i = i + 1;
            } else {
                return Err(Error::Deserialization { invalid_byte: c, pos: i });
            }
        } else {
            match piece_from_ascii(c) {
                Some(p) => {
                    if sq < last + 8 {
                        let pi = p.index();
                        let nv = m[pi] | (1u64 << (sq as u64));
                        m.set(pi, nv);
                        sq = sq + 1;
                        i = i + 1;
                    } else {
                        return Err(Error::Deserialization { invalid_byte: c, pos: i });
                    }
                },
                None => {
                    return Err(Error::Deserialization { invalid_byte: c, pos: i });
                },
            }
        }
    }
    let ghost mfinal = m@;
    proof {
        crate::bits::lemma_zero_bits();
        crate::bits::lemma_and_zero(0u64);
        lemma_parse_board_inv(sv, 0, 0, 0, zeros);
    }

    // side to move
    if !(i < input.len() && input.len() - i >= 2 && input[i + 1] == 32) {
        return Err(Error::Deserialization { invalid_byte: 0, pos: i });
    }
    let cside = input[i];
    let side = if cside == 119 {
        Colour::White
    } else if cside == 98 {
        Colour::Black
    } else {
        return Err(Error::Deserialization { invalid_byte: cside, pos: i });
    };
    i = i + 2;

    // castling rights
    let ghost icr = i as int;
    let mut cr: u8 = 0;
    if i < input.len() && input.len() - i >= 2 && input[i] == 45 && input[i + 1] == 32 {
        i = i + 2;
    } else {
        loop
            invariant
                icr <= i as int,
                i <= input.len(),
                sv == input@,
                cr < 16,
                parse_castling_field(sv, icr) == parse_castling(sv, i as int, cr),
                parse_castling_field(sv, icr) is None ==> castling_err(sv, icr, 0)
                    == castling_err(sv, i as int, cr),
        decreases input.len() - i,
        {
            if i >= input.len() {
                return Err(Error::Deserialization { invalid_byte: 0, pos: i });
            }
            let c = input[i];
            if c == 32 {
                if cr != 0 {
                    i = i + 1;
                    break;
                } else {
                    return Err(Error::Deserialization { invalid_byte: c, pos: i });
                }
            } else {
                let b: u8 = if c == 75 {
                    1
                } else if c == 81 {
                    2
                } else if c == 107 {
                    4
                } else if c == 113 {
                    8
                } else {
                    0
                };
                if b != 0 && cr & b == 0 {
                    proof {
                        crate::bits::lemma_nibble_or(cr, b);
                    }
                    cr = cr | b;
                    i = i + 1;
                } else {
                    return Err(Error::Deserialization { invalid_byte: c, pos: i });
                }
            }
        }
    }

    // en passant
    let ghost iep = i as int;
    let ep: Option<Position> = if i < input.len() && input.len() - i >= 2 && input[i] == 45 && input[i + 1] == 32 {
        i = i + 2;
        None
    } else if i < input.len() && input.len() - i >= 3 && 97 <= input[i] && input[i] <= 104 && (
    input[i + 1] == 51 || input[i + 1] == 54) && input[i + 2] == 32 {
        let file = input[i] - 97;
        let row: u8 = if input[i + 1] == 51 {
            5
        } else {
            2
        };
        let idx = row * 8 + file;
        let p = match Position::from_u8(idx) {
            Some(p) => p,
            None => {
                proof {
                    assert(false);
                }
                Position::A8
            },
        };
        proof {
            crate::position::lemma_idx_of_pos(idx as int);
            crate::position::lemma_pos_inj(p, pos_of(idx as int));
        }
        i = i + 3;
        Some(p)
    } else {
        return Err(Error::Deserialization { invalid_byte: 0, pos: i });
    };

    // half-move clock, up to the next blank
    let ghost ihalf = i as int;
    let mut j = i;
    loop
        invariant
            ihalf <= j as int,
            j <= input.len(),
            sv == input@,
            next_space(sv, ihalf) == next_space(sv, j as int),
        decreases input.len() - j,
    {
        if j >= input.len() {
            return Err(Error::Deserialization { invalid_byte: 0, pos: j });
        }
        if input[j] == 32 {
            break;
        }
        j = j + 1;
    }
    let sp = j;
    let mut acc: u32 = 0;
    let mut seen = false;
    loop
        invariant
            ihalf <= i as int,
            i <= sp,
            sp < input.len(),
            sv == input@,
            sv[sp as int] == 32,
            parse_number(sv, ihalf, 0, false, sp as int) == parse_number(
                sv,
                i as int,
                acc,
                seen,
                sp as int,
            ),
            parse_number(sv, ihalf, 0, false, sp as int) is None ==> number_err(
                sv,
                ihalf,
                0,
                false,
                sp as int,
                32,
            ) == number_err(sv, i as int, acc, seen, sp as int, 32),
        decreases sp - i,
    {
        if i == sp {
            break;
        }
        let c = input[i];
        if 48 <= c && c <= 57 {
            let d = (c - 48) as u32;
            let acc64 = acc as u64 * 10 + d as u64;
            if acc64 <= 0xFFFFFFFF {
                acc = acc64 as u32;
                seen = true;
                i = i + 1;
            } else {
                return Err(Error::Deserialization { invalid_byte: c, pos: i });
            }
        } else {
            return Err(Error::Deserialization { invalid_byte: c, pos: i });
        }
    }
    if !seen {
        return Err(Error::Deserialization { invalid_byte: 32, pos: i });
    }
    let half = acc;
    i = sp + 1;

    // full-move number, up to the end of the record
    let ghost ifull = i as int;
    let mut acc2: u32 = 0;
    let mut seen2 = false;
    loop
        invariant
            ifull <= i as int,
            i <= input.len(),
            sv == input@,
            parse_number(sv, ifull, 0, false, sv.len() as int) == parse_number(
                sv,
                i as int,
                acc2,
                seen2,
                sv.len() as int,
            ),
            parse_number(sv, ifull, 0, false, sv.len() as int) is None ==> number_err(
                sv,
                ifull,
                0,
                false,
                sv.len() as int,
                0,
            ) == number_err(sv, i as int, acc2, seen2, sv.len() as int, 0),
        decreases input.len() - i,
    {
        if i == input.len() {
            break;
        }
        let c = input[i];
        if 48 <= c && c <= 57 {
            let d = (c - 48) as u32;
            let acc64 = acc2 as u64 * 10 + d as u64;
            if acc64 <= 0xFFFFFFFF {
                acc2 = acc64 as u32;
                seen2 = true;
                i = i + 1;
            } else {
                return Err(Error::Deserialization { invalid_byte: c, pos: i });
            }
        } else {
            return Err(Error::Deserialization { invalid_byte: c, pos: i });
        }
    }
    if !seen2 || acc2 < 1 {
        return Err(Error::Deserialization { invalid_byte: 0, pos: i });
    }
    let full = acc2;

    let mat = MaterialLayer(
        [
            Bitboard(m[0]),
            Bitboard(m[1]),
            Bitboard(m[2]),
            Bitboard(m[3]),
            Bitboard(m[4]),
            Bitboard(m[5]),
            Bitboard(m[6]),
            Bitboard(m[7]),
            Bitboard(m[8]),
            Bitboard(m[9]),
            Bitboard(m[10]),
            Bitboard(m[11]),
        ],
    );
    let st = State {
        material_layer: mat,
        occupancy_layer: crate::occupancy_layer::generate_occ(mat),
        side_to_move: side,
        en_passant: ep,
        castling: CastlingRights(cr),
        half_moves: half,
        full_moves: full,
    };
    proof {
        let built = assemble(mfinal, side, cr, ep, half, full);
        assert(mat.0 =~= built.material_layer.0);
        assert(st.occupancy_layer.0 =~= built.occupancy_layer.0);
        assert(st =~= built);
        assert(spec_parse(sv) == Some(st));
        assert(st.wf());
    }
    Ok(st)
}

} // verus!

verus! {

/// One rank of the board field, walking the files left to right with
/// `run` empty squares pending: pieces print their letter, runs of
/// empty squares print their length.
pub open spec fn ser_rank(st: State, row: int, f: int, run: int) -> Seq<u8>
    decreases 8 - f,
{
    if f >= 8 {
        if run > 0 {
            seq![(48 + run) as u8]
        } else {
            Seq::empty()
        }
    } else {
        let ci = scan_piece(st, row * 8 + f, 0);
        if ci < 12 {
            (if run > 0 {
                seq![(48 + run) as u8]
            } else {
                Seq::empty()
            }) + seq![spec_ascii_of_piece(Piece(idx_colour(ci as int), idx_kind(ci as int)))]
                + ser_rank(st, row, f + 1, 0)
        } else {
            ser_rank(st, row, f + 1, run + 1)
        }
    }
}

/// The board field from `row` down, ranks separated by strokes.
pub open spec fn ser_board(st: State, row: int) -> Seq<u8>
    decreases 8 - row,
{
    if row >= 8 {
        Seq::empty()
    } else {
        ser_rank(st, row, 0, 0) + (if row < 7 {
            seq![47u8]
        } else {
            Seq::empty()
        }) + ser_board(st, row + 1)
    }
}

/// The castling field: the surviving rights' letters, or a dash.
pub open spec fn ser_castling(cr: u8) -> Seq<u8> {
    if cr == 0 {
        seq![45u8]
    } else {
        (if cr & 1 != 0 {
            seq![75u8]
        } else {
            Seq::empty()
        }) + (if cr & 2 != 0 {
            seq![81u8]
        } else {
            Seq::empty()
        }) + (if cr & 4 != 0 {
            seq![107u8]
        } else {
            Seq::empty()
        }) + (if cr & 8 != 0 {
            seq![113u8]
        } else {
            Seq::empty()
        })
    }
}

/// The en-passant field: the square's name, or a dash.
pub open spec fn ser_ep(ep: Option<Position>) -> Seq<u8> {
    match ep {
        Some(e) => seq![(97 + e.spec_file()) as u8, (49 + e.spec_rank()) as u8],
        None => seq![45u8],
    }
}

/// A number in decimal.
pub open spec fn dec(n: int) -> Seq<u8>
    decreases n,
{
    if n < 10 {
        seq![(48 + n) as u8]
    } else {
        dec(n / 10) + seq![(48 + n % 10) as u8]
    }
}

/// What a position prints as: the six fields, blank-separated.
pub open spec fn spec_ser(st: State) -> Seq<u8> {
    ser_board(st, 0) + seq![32u8] + (if st.side_to_move == Colour::White {
        seq![119u8]
    } else {
        seq![98u8]
    }) + seq![32u8] + ser_castling(st.castling.0) + seq![32u8] + ser_ep(st.en_passant)
        + seq![32u8] + dec(st.half_moves as int) + seq![32u8] + dec(st.full_moves as int)
}

/// Print one rank onto the buffer.
fn ser_rank_exec(st: &State, row: u8, f: u8, run: u8, v: &mut Vec<u8>)
    requires
        row < 8,
        f <= 8,
        run <= f,
    ensures
        final(v)@ == old(v)@ + ser_rank(*st, row as int, f as int, run as int),
    decreases 8 - f,
{
    if f >= 8 {
        if run > 0 {
            v.push(48 + run);
        }
        proof {
            if run > 0 {
                assert(v@ =~= old(v)@ + ser_rank(*st, row as int, f as int, run as int));
            } else {
                assert(v@ =~= old(v)@ + ser_rank(*st, row as int, f as int, run as int));
            }
        }
    } else {
        let sqi = row * 8 + f;
        let pos = match Position::from_u8(sqi) {
            Some(p) => p,
            None => {
                proof {
                    assert(false);
                }
                Position::A8
            },
        };
        match crate::boardstate::get_piece_at_pos(st, pos) {
            Some(pc) => {
                proof {
                    crate::boardstate::lemma_scan_char(*st, sqi as int, pc.idx() as nat);
                    crate::pieces::lemma_piece_roundtrip(pc);
                }
                if run > 0 {
                    v.push(48 + run);
                }
                v.push(ascii_of_piece(&pc));
                let ghost mid = v@;
                ser_rank_exec(st, row, f + 1, 0, v);
                proof {
                    assert(v@ =~= old(v)@ + ser_rank(*st, row as int, f as int, run as int));
                }
            },
            None => {
                proof {
                    crate::boardstate::lemma_scan_none(*st, sqi as int);
                }
                ser_rank_exec(st, row, f + 1, run + 1, v);
                proof {
                    assert(v@ =~= old(v)@ + ser_rank(*st, row as int, f as int, run as int));
                }
            },
        }
    }
}

/// Print the board field from `row` down onto the buffer.
fn ser_board_exec(st: &State, row: u8, v: &mut Vec<u8>)
    requires
        row <= 8,
    ensures
        final(v)@ == old(v)@ + ser_board(*st, row as int),
    decreases 8 - row,
{
    if row < 8 {
        ser_rank_exec(st, row, 0, 0, v);
        if row < 7 {
            v.push(47);
        }
        ser_board_exec(st, row + 1, v);
        proof {
            assert(v@ =~= old(v)@ + ser_board(*st, row as int));
        }
    } else {
        proof {
            assert(v@ =~= old(v)@ + ser_board(*st, row as int));
        }
    }
}

/// Print a number in decimal onto the buffer.
fn dec_exec(n: u32, v: &mut Vec<u8>)
    ensures
        final(v)@ == old(v)@ + dec(n as int),
    decreases n,
{
    if n < 10 {
        v.push(48 + (n as u8));
        proof {
            assert(v@ =~= old(v)@ + dec(n as int));
        }
    } else {
        dec_exec(n / 10, v);
        v.push(48 + ((n % 10) as u8));
        proof {
            assert(v@ =~= old(v)@ + dec(n as int));
        }
    }
}

/// Print a position as the six blank-separated fields of a record.
#[verifier::rlimit(100)]
pub fn serialize(state: &State) -> (r: Vec<u8>)
    ensures
        r@ == spec_ser(*state),
{
    let mut v: Vec<u8> = Vec::new();
    ser_board_exec(state, 0, &mut v);
    v.push(32);
    let wside = match state.side_to_move {
        Colour::White => true,
        Colour::Black => false,
    };
    if wside {
        v.push(119);
    } else {
        v.push(98);
    }
    v.push(32);
    let cr = state.castling.0;
    if cr == 0 {
        v.push(45);
    } else {
        if cr & 1 != 0 {
            v.push(75);
        }
        if cr & 2 != 0 {
            v.push(81);
        }
        if cr & 4 != 0 {
            v.push(107);
        }
        if cr & 8 != 0 {
            v.push(113);
        }
    }
    v.push(32);
    match state.en_passant {
        Some(e) => {
            v.push(e.file_byte());
            v.push(e.rank_byte());
        },
        None => {
            v.push(45);
        },
    }
    proof {
        assert(v@ =~= ser_board(*state, 0) + seq![32u8] + (if state.side_to_move
            == Colour::White {
            seq![119u8]
        } else {
            seq![98u8]
        }) + seq![32u8] + ser_castling(state.castling.0) + seq![32u8] + ser_ep(
            state.en_passant,
        ));
    }
    v.push(32);
    dec_exec(state.half_moves, &mut v);
    v.push(32);
    dec_exec(state.full_moves, &mut v);
    proof {
        assert(v@ =~= spec_ser(*state));
    }
    v
}

} // verus!

verus! {

proof fn lemma_dec_ascii(n: int)
    requires
        n >= 0,
    ensures
        forall|k: int| 0 <= k < dec(n).len() ==> 48 <= #[trigger] dec(n)[k] < 128,
    decreases n,
{
    if n >= 10 {
        lemma_dec_ascii(n / 10);
        assert forall|k: int| 0 <= k < dec(n).len() implies 48 <= #[trigger] dec(n)[k] < 128 by {
            if k < dec(n / 10).len() {
                assert(dec(n)[k] == dec(n / 10)[k]);
            }
        }
    }
}

proof fn lemma_ser_rank_ascii(st: State, row: int, f: int, run: int)
    requires
        0 <= run <= f,
        f <= 8,
    ensures
        forall|k: int| 0 <= k < ser_rank(st, row, f, run).len() ==> #[trigger] ser_rank(
            st,
            row,
            f,
            run,
        )[k] < 128,
    decreases 8 - f,
{
    if f >= 8 {
    } else {
        let ci = scan_piece(st, row * 8 + f, 0);
        if ci < 12 {
            lemma_ser_rank_ascii(st, row, f + 1, 0);
            assert(spec_ascii_of_piece(Piece(idx_colour(ci as int), idx_kind(ci as int))) < 128);
            let a = if run > 0 {
                seq![(48 + run) as u8]
            } else {
                Seq::<u8>::empty()
            };
            let b = seq![spec_ascii_of_piece(Piece(idx_colour(ci as int), idx_kind(ci as int)))];
            let c = ser_rank(st, row, f + 1, 0);
            assert forall|k: int| 0 <= k < ser_rank(st, row, f, run).len() implies #[trigger]
            ser_rank(st, row, f, run)[k] < 128 by {
                if k < a.len() {
                    assert(ser_rank(st, row, f, run)[k] == a[k]);
                } else if k < a.len() + b.len() {
                    assert(ser_rank(st, row, f, run)[k] == b[k - a.len()]);
                } else {
                    assert(ser_rank(st, row, f, run)[k] == c[k - a.len() - b.len()]);
                }
            }
        } else {
            lemma_ser_rank_ascii(st, row, f + 1, run + 1);
            assert forall|k: int| 0 <= k < ser_rank(st, row, f, run).len() implies #[trigger]
            ser_rank(st, row, f, run)[k] < 128 by {
                assert(ser_rank(st, row, f, run)[k] == ser_rank(st, row, f + 1, run + 1)[k]);
            }
        }
    }
}

proof fn lemma_ser_board_ascii(st: State, row: int)
    requires
        0 <= row,
    ensures
        forall|k: int| 0 <= k < ser_board(st, row).len() ==> #[trigger] ser_board(st, row)[k]
            < 128,
    decreases 8 - row,
{
    if row < 8 {
        lemma_ser_rank_ascii(st, row, 0, 0);
        lemma_ser_board_ascii(st, row + 1);
        let a = ser_rank(st, row, 0, 0);
        let b = if row < 7 {
            seq![47u8]
        } else {
            Seq::<u8>::empty()
        };
        let c = ser_board(st, row + 1);
        assert forall|k: int| 0 <= k < ser_board(st, row).len() implies #[trigger] ser_board(
            st,
            row,
        )[k] < 128 by {
            if k < a.len() {
                assert(ser_board(st, row)[k] == a[k]);
            } else if k < a.len() + b.len() {
                assert(ser_board(st, row)[k] == b[k - a.len()]);
            } else {
                assert(ser_board(st, row)[k] == c[k - a.len() - b.len()]);
            }
        }
    }
}

/// Everything a record prints is plain text.
pub proof fn lemma_ser_ascii(st: State)
    ensures
        forall|k: int| 0 <= k < spec_ser(st).len() ==> #[trigger] spec_ser(st)[k] < 128,
{
    lemma_ser_board_ascii(st, 0);
    lemma_dec_ascii(st.half_moves as int);
    lemma_dec_ascii(st.full_moves as int);
}

/// Relies on String::from_utf8_lossy: bytes that are plain text come
/// back as the same characters, one per byte.
#[verifier::external_body]
fn bytes_to_string(v: Vec<u8>) -> (r: String)
    ensures
        (forall|k: int| 0 <= k < v@.len() ==> v@[k] < 128) ==> (r@.len() == v@.len() && (forall|
            k: int,
        | 0 <= k < v@.len() ==> r@[k] == v@[k] as char)),
{
    String::from_utf8_lossy(&v).into_owned()
}

/// Print a position as text.
pub fn to_fen(state: &State) -> (r: String)
    ensures
        r@.len() == spec_ser(*state).len(),
        forall|k: int| 0 <= k < r@.len() ==> r@[k] == #[trigger] spec_ser(*state)[k] as char,
{
    let v = serialize(state);
    proof {
        lemma_ser_ascii(*state);
    }
    bytes_to_string(v)
}

/// Parse a record given as text.
pub fn try_from_fen(fen: &str) -> (r: Result<State, Error>)
    ensures
        (match r {
            Ok(st) => spec_parse(fen.spec_bytes()) == Some(st) && st.wf(),
            Err(e) => spec_parse(fen.spec_bytes()) is None && (e
                matches Error::Deserialization { invalid_byte, pos } && pos as int
                == spec_parse_diag(fen.spec_bytes()).0 && invalid_byte == spec_parse_diag(
                fen.spec_bytes(),
            ).1),
        }),
{
    parse(fen.as_bytes())
}

} // verus!

verus! {

/// Where reading the board field fails, and on what byte: the offsets
/// the parser reports. Off the end of the text the byte is reported
/// as zero.
pub open spec fn board_err(s: Seq<u8>, i: int, sq: int, last: int) -> (int, u8)
    decreases s.len() - i,
{
    if i < 0 || i >= s.len() {
        (i, 0)
    } else {
        let c = s[i];
        if c == 32 {
            if sq == 64 && last == 56 {
                (i, 0)
            } else {
                (i, c)
            }
        } else if 49 <= c <= 56 {
            let d = c - 48;
            if sq + d <= last + 8 {
                board_err(s, i + 1, sq + d, last)
            } else {
                (i, c)
            }
        } else if c == 47 {
            if sq == last + 8 && sq < 64 {
                board_err(s, i + 1, sq, sq)
            } else {
                (i, c)
            }
        } else {
            match spec_piece_from_ascii(c) {
                Some(p) => {
                    if sq < last + 8 && sq < 64 {
                        board_err(s, i + 1, sq + 1, last)
                    } else {
                        (i, c)
                    }
                },
                None => (i, c),
            }
        }
    }
}

/// Where the side field fails, and on what byte.
pub open spec fn side_err(s: Seq<u8>, i: int) -> (int, u8) {
    if !(0 <= i && i + 1 < s.len() && s[i + 1] == 32) {
        (i, 0)
    } else {
        (i, s[i])
    }
}

/// Where the castling field fails, and on what byte.
pub open spec fn castling_err(s: Seq<u8>, i: int, acc: u8) -> (int, u8)
    decreases s.len() - i,
{
    if i < 0 || i >= s.len() {
        (i, 0)
    } else if s[i] == 32 {
        (i, 32)
    } else if castle_bit(s[i]) != 0 && acc & castle_bit(s[i]) == 0 {
        castling_err(s, i + 1, (acc | castle_bit(s[i])) as u8)
    } else {
        (i, s[i])
    }
}

/// Where a decimal field fails, and on what byte; `eofb` is the byte
/// reported when the field is empty.
pub open spec fn number_err(s: Seq<u8>, i: int, acc: u32, seen: bool, stop: int, eofb: u8) -> (
    int,
    u8,
)
    decreases s.len() - i,
{
    if i < 0 || i > s.len() {
        (i, 0)
    } else if i == stop {
        (i, eofb)
    } else if i < s.len() && 48 <= s[i] <= 57 {
        let d = (s[i] - 48) as u32;
        if acc * 10 + d <= 0xFFFFFFFF {
            number_err(s, i + 1, (acc * 10 + d) as u32, true, stop, eofb)
        } else {
            (i, s[i])
        }
    } else if i < s.len() {
        (i, s[i])
    } else {
        (i, 0)
    }
}

/// The byte offset and byte a malformed record is refused at: the
/// first place the staged grammar cannot go on from.
pub open spec fn spec_parse_diag(s: Seq<u8>) -> (int, u8) {
    let zeros = Seq::new(12, |i: int| 0u64);
    match parse_board(s, 0, 0, 0, zeros) {
        None => board_err(s, 0, 0, 0),
        Some((i1, m)) => {
            match parse_side(s, i1) {
                None => side_err(s, i1),
                Some((i2, side)) => {
                    match parse_castling_field(s, i2) {
                        None => castling_err(s, i2, 0),
                        Some((i3, cr)) => {
                            match parse_ep(s, i3) {
                                None => (i3, 0),
                                Some((i4, ep)) => {
                                    match next_space(s, i4) {
                                        None => (s.len() as int, 0),
                                        Some(sp) => {
                                            match parse_number(s, i4, 0, false, sp) {
                                                None => number_err(s, i4, 0, false, sp, 32),
                                                Some((i5, half)) => {
                                                    match parse_number(
                                                        s,
                                                        i5,
                                                        0,
                                                        false,
                                                        s.len() as int,
                                                    ) {
                                                        None => number_err(
                                                            s,
                                                            i5,
                                                            0,
                                                            false,
                                                            s.len() as int,
                                                            0,
                                                        ),
                                                        Some(_) => (s.len() as int, 0),
                                                    }
                                                },
                                            }
                                        },
                                    }
                                },
                            }
                        },
                    }
                },
            }
        },
    }
}

} // verus!

verus! {

/// The value of `acc` with the digits of `m` appended after it.
pub open spec fn append_dec(acc: int, m: int) -> int
    decreases m,
{
    if m < 10 {
        acc * 10 + m
    } else {
        append_dec(acc, m / 10) * 10 + m % 10
    }
}

proof fn lemma_append_dec_zero(m: int)
    requires
        m >= 0,
    ensures
        append_dec(0, m) == m,
    decreases m,
{
    if m >= 10 {
        lemma_append_dec_zero(m / 10);
    }
}

proof fn lemma_append_dec_grows(acc: int, m: int)
    requires
        acc >= 0,
        m >= 0,
    ensures
        append_dec(acc, m) >= acc,
        append_dec(acc, m) >= m,
        append_dec(acc, m) >= append_dec(acc, m / 10) || m < 10,
    decreases m,
{
    if m >= 10 {
        lemma_append_dec_grows(acc, m / 10);
    }
}

/// Reading the printed digits of `m` appends `m` to the accumulator:
/// the number field reads back what the printer wrote.
proof fn lemma_number_steps(s: Seq<u8>, i: int, acc: u32, seen: bool, m: int, stop: int)
    requires
        0 <= m,
        0 <= i,
        i + dec(m).len() <= stop,
        stop <= s.len(),
        forall|j: int| 0 <= j < dec(m).len() ==> s[i + j] == #[trigger] dec(m)[j],
        append_dec(acc as int, m) <= 0xFFFFFFFF,
    ensures
        parse_number(s, i, acc, seen, stop) == parse_number(
            s,
            i + dec(m).len(),
            append_dec(acc as int, m) as u32,
            true,
            stop,
        ),
    decreases m,
{
    if m < 10 {
        assert(dec(m) =~= seq![(48 + m) as u8]);
        assert(dec(m)[0] == (48 + m) as u8);
        assert(s[i + 0] == dec(m)[0]);
        assert(48 <= s[i] <= 57);
    } else {
        lemma_append_dec_grows(acc as int, m);
        assert forall|j: int| 0 <= j < dec(m / 10).len() implies s[i + j] == #[trigger] dec(
            m / 10,
        )[j] by {
            assert(dec(m)[j] == dec(m / 10)[j]);
        }
        lemma_number_steps(s, i, acc, seen, m / 10, stop);
        let i2 = i + dec(m / 10).len();
        let a2 = append_dec(acc as int, m / 10) as u32;
        assert(dec(m)[dec(m).len() - 1] == (48 + m % 10) as u8);
        assert(s[i + (dec(m).len() - 1)] == dec(m)[dec(m).len() - 1]);
        assert(i2 == i + (dec(m).len() - 1));
        assert(48 <= s[i2] <= 57);
        assert(a2 * 10 + (m % 10) == append_dec(acc as int, m));
    }
}

/// Law, one field of the round trip: a counter printed in decimal and
/// read back to its terminator comes back unchanged.
pub proof fn lemma_dec_round_trip(s: Seq<u8>, i: int, n: u32, stop: int)
    requires
        0 <= i,
        stop == i + dec(n as int).len(),
        stop <= s.len(),
        forall|j: int| 0 <= j < dec(n as int).len() ==> s[i + j] == #[trigger] dec(n as int)[j],
    ensures
        parse_number(s, i, 0, false, stop) == Some((stop + 1, n)),
{
    lemma_append_dec_zero(n as int);
    lemma_number_steps(s, i, 0, false, n as int, stop);
}

} // verus!

verus! {

/// How the four right bits accumulate in emission order.
proof fn lemma_castle_bits_acc()
    by (bit_vector)
    ensures
        forall|c: u8| ((#[trigger] (c & 1)) & 2) == 0,
        forall|c: u8| ((#[trigger] (c & 3)) & 4) == 0,
        forall|c: u8| ((#[trigger] (c & 7)) & 8) == 0,
        forall|c: u8| ((#[trigger] (c & 1)) | (c & 2)) == (c & 3),
        forall|c: u8| ((#[trigger] (c & 3)) | (c & 4)) == (c & 7),
        forall|c: u8| ((#[trigger] (c & 7)) | (c & 8)) == (c & 15),
        forall|c: u8| c < 16 ==> (#[trigger] (c & 15)) == c,
        forall|c: u8| c != 0 && c < 16 && (#[trigger] (c & 1)) == 0 && (c & 2) == 0 && (c & 4)
            == 0 ==> (c & 8) != 0,
        forall|c: u8| (#[trigger] (c & 1)) == 0 ==> (c & 3) == (c & 2),
        forall|c: u8| (#[trigger] (c & 2)) == 0 ==> (c & 3) == (c & 1),
        forall|c: u8| (#[trigger] (c & 4)) == 0 ==> (c & 7) == (c & 3),
        forall|c: u8| (#[trigger] (c & 8)) == 0 ==> (c & 15) == (c & 7),
        forall|c: u8| (#[trigger] (c & 1)) != 0 ==> (c & 1) == 1,
        forall|c: u8| (#[trigger] (c & 2)) != 0 ==> (c & 2) == 2,
        forall|c: u8| (#[trigger] (c & 4)) != 0 ==> (c & 4) == 4,
        forall|c: u8| (#[trigger] (c & 8)) != 0 ==> (c & 8) == 8,
        forall|b: u8| (#[trigger] (0u8 & b)) == 0,
        forall|b: u8| (#[trigger] (0u8 | b)) == b,
{
}

/// Law, one field of the round trip: the castling letters printed for
/// a non-empty rights mask read back to exactly that mask.
proof fn lemma_castling_round_trip(s: Seq<u8>, i: int, cr: u8)
    requires
        0 < cr < 16,
        0 <= i,
        i + ser_castling(cr).len() < s.len(),
        forall|j: int| 0 <= j < ser_castling(cr).len() ==> s[i + j] == #[trigger] ser_castling(
            cr,
        )[j],
        s[i + ser_castling(cr).len()] == 32,
    ensures
        parse_castling(s, i, 0) matches Some(pr) && pr.0 == i + ser_castling(cr).len() + 1
            && pr.1 == cr,
{
    lemma_castle_bits_acc();
    let w = ser_castling(cr);
    let l1: Seq<u8> = if cr & 1 != 0 {
        seq![75u8]
    } else {
        Seq::empty()
    };
    let l2: Seq<u8> = if cr & 2 != 0 {
        seq![81u8]
    } else {
        Seq::empty()
    };
    let l3: Seq<u8> = if cr & 4 != 0 {
        seq![107u8]
    } else {
        Seq::empty()
    };
    let l4: Seq<u8> = if cr & 8 != 0 {
        seq![113u8]
    } else {
        Seq::empty()
    };
    assert(w =~= l1 + l2 + l3 + l4);
    let i1 = i + l1.len();
    let i2 = i1 + l2.len();
    let i3 = i2 + l3.len();
    let i4 = i3 + l4.len();
    if cr & 1 != 0 {
        assert(w[0] == 75);
        assert(s[i + 0] == w[0]);
        assert(castle_bit(75) == 1);
        assert(parse_castling(s, i, 0) == parse_castling(s, i1, cr & 1));
    } else {
        assert(parse_castling(s, i, 0) == parse_castling(s, i1, cr & 1));
    }
    if cr & 2 != 0 {
        assert(w[l1.len() as int] == 81);
        assert(s[i + l1.len()] == w[l1.len() as int]);
        assert(castle_bit(81) == 2);
        assert(parse_castling(s, i1, cr & 1) == parse_castling(s, i2, (cr & 1) | (cr & 2)));
    }
    assert(parse_castling(s, i1, cr & 1) == parse_castling(s, i2, cr & 3));
    if cr & 4 != 0 {
        assert(w[(l1.len() + l2.len()) as int] == 107);
        assert(s[i + (l1.len() + l2.len())] == w[(l1.len() + l2.len()) as int]);
        assert(castle_bit(107) == 4);
        assert(parse_castling(s, i2, cr & 3) == parse_castling(s, i3, (cr & 3) | (cr & 4)));
    }
    assert(parse_castling(s, i2, cr & 3) == parse_castling(s, i3, cr & 7));
    if cr & 8 != 0 {
        assert(w[(l1.len() + l2.len() + l3.len()) as int] == 113);
        assert(s[i + (l1.len() + l2.len() + l3.len())] == w[(l1.len() + l2.len() + l3.len()) as int]);
        assert(castle_bit(113) == 8);
        assert(parse_castling(s, i3, cr & 7) == parse_castling(s, i4, (cr & 7) | (cr & 8)));
    }
    assert(parse_castling(s, i3, cr & 7) == parse_castling(s, i4, cr & 15));
    assert(s[i4] == 32);
    assert(parse_castling(s, i4, cr) matches Some(pr) && pr.0 == i4 + 1 && pr.1 == cr);
}

} // verus!

verus! {

use crate::boardstate::lemma_piece_uniqueness;


/// The squares below `n`, as one word.
pub open spec fn below_mask(n: int) -> u64 {
    if n >= 64 {
        0xFFFFFFFFFFFFFFFFu64
    } else if n <= 0 {
        0u64
    } else {
        (((1u64 << (n as u64)) - 1) as u64)
    }
}

/// Which squares the below-`n` word holds.
proof fn lemma_below_mask_bits(n: int)
    ensures
        forall|t: int| #[trigger] bit(below_mask(n), t) <==> (0 <= t < 64 && t < n),
{
    if n >= 64 {
        assert(forall|ju: u64|
            ju < 64 ==> ((#[trigger] (0xFFFFFFFFFFFFFFFFu64 >> ju)) & 1 == 1)) by (bit_vector);
        assert forall|t: int| #[trigger] bit(below_mask(n), t) <==> (0 <= t < 64 && t < n) by {
            if 0 <= t < 64 {
                let ju = t as u64;
                assert((0xFFFFFFFFFFFFFFFFu64 >> ju) & 1 == 1);
            }
        }
    } else if n <= 0 {
        crate::bits::lemma_zero_bits();
    } else {
        let nu = n as u64;
        assert(forall|ju: u64|
            ju < 64 ==> (((#[trigger] ((((1u64 << nu) - 1) as u64) >> ju)) & 1 == 1) <==> ju
                < nu)) by (bit_vector)
            requires
                0 < nu < 64,
        ;
        assert forall|t: int| #[trigger] bit(below_mask(n), t) <==> (0 <= t < 64 && t < n) by {
            if 0 <= t < 64 {
                let ju = t as u64;
                assert((((((1u64 << nu) - 1) as u64)) >> ju) & 1 == 1 <==> ju < nu);
            }
        }
    }
}

/// The material restricted to the squares below `n`.
pub open spec fn restrict(st: State, n: int) -> Seq<u64> {
    Seq::new(12, |k: int| st.material_layer.0@[k].0 & below_mask(n))
}

/// A scan that lands below twelve found its square set there.
proof fn lemma_scan_hit_from(st: State, t: int, k: nat)
    requires
        k <= 12,
        scan_piece(st, t, k) < 12,
    ensures
        bit(st.material_layer.0@[scan_piece(st, t, k) as int].0, t),
    decreases 12 - k,
{
    if k < 12 && !bit(st.material_layer.0@[k as int].0, t) {
        lemma_scan_hit_from(st, t, k + 1);
    }
}

/// A scan that reports twelve found every bitboard clear.
proof fn lemma_scan_empty_from(st: State, t: int, k: nat)
    requires
        k <= 12,
        scan_piece(st, t, k) == 12,
    ensures
        forall|j: int| k <= j < 12 ==> !bit(#[trigger] st.material_layer.0@[j].0, t),
    decreases 12 - k,
{
    if k < 12 {
        lemma_scan_empty_from(st, t, k + 1);
    }
}

/// A scan never reports past twelve.
proof fn lemma_scan_le_from(st: State, t: int, k: nat)
    requires
        k <= 12,
    ensures
        scan_piece(st, t, k) <= 12,
    decreases 12 - k,
{
    if k < 12 && !bit(st.material_layer.0@[k as int].0, t) {
        lemma_scan_le_from(st, t, k + 1);
    }
}

/// A piece letter reads back as its piece.
proof fn lemma_ascii_round(p: Piece)
    ensures
        spec_piece_from_ascii(spec_ascii_of_piece(p)) == Some(p),
{
}

} // verus!

verus! {

/// Reading one printed rank advances the board parse over it: the
/// parser's square count reaches the end of the rank, and the
/// accumulated material grows to everything below it. The pending
/// run covers squares already seen to be empty.
#[verifier::rlimit(100)]
proof fn lemma_rank_rt(s: Seq<u8>, st: State, row: int, f: int, run: int, i: int, m: Seq<u64>)
    requires
        st.wf(),
        0 <= row < 8,
        0 <= run <= f <= 8,
        0 <= i,
        i + ser_rank(st, row, f, run).len() <= s.len(),
        forall|j: int|
            0 <= j < ser_rank(st, row, f, run).len() ==> s[i + j] == #[trigger] ser_rank(
                st,
                row,
                f,
                run,
            )[j],
        m =~= restrict(st, row * 8 + f - run),
        forall|t: int| row * 8 + f - run <= t < row * 8 + f ==> #[trigger] scan_piece(st, t, 0)
            == 12,
    ensures
        parse_board(s, i, row * 8 + f - run, row * 8, m) == parse_board(
            s,
            i + ser_rank(st, row, f, run).len(),
            row * 8 + 8,
            row * 8,
            restrict(st, row * 8 + 8),
        ),
    decreases 8 - f,
{
    let sq0 = row * 8 + f - run;
    let w = ser_rank(st, row, f, run);
    if f >= 8 {
        // the rank ends: flush the pending run, if any
        assert forall|k: int| 0 <= k < 12 implies m[k] == restrict(st, row * 8 + 8)[k] by {
            lemma_below_mask_bits(sq0);
            lemma_below_mask_bits(row * 8 + 8);
            crate::bits::lemma_and_bits(st.material_layer.0@[k].0, below_mask(sq0));
            crate::bits::lemma_and_bits(st.material_layer.0@[k].0, below_mask(row * 8 + 8));
            assert forall|t: int|
                0 <= t < 64 implies bit(m[k], t) == bit(restrict(st, row * 8 + 8)[k], t) by {
                if sq0 <= t < row * 8 + 8 {
                    assert(scan_piece(st, t, 0) == 12);
                    lemma_scan_empty_from(st, t, 0);
                }
            }
            crate::bits::lemma_eq_by_bits(m[k], restrict(st, row * 8 + 8)[k]);
        }
        assert(m =~= restrict(st, row * 8 + 8));
        if run > 0 {
            assert(w =~= seq![(48 + run) as u8]);
            assert(w[0] == (48 + run) as u8);
            assert(s[i + 0] == w[0]);
            assert(49 <= s[i] <= 56);
            assert(s[i] - 48 == run);
            assert(parse_board(s, i, sq0, row * 8, m) == parse_board(
                s,
                i + 1,
                row * 8 + 8,
                row * 8,
                m,
            ));
        } else {
            assert(sq0 == row * 8 + 8);
        }
    } else {
        let sqf = row * 8 + f;
        let ci = scan_piece(st, sqf, 0);
        if ci < 12 {
            let p = Piece(idx_colour(ci as int), idx_kind(ci as int));
            let letter = spec_ascii_of_piece(p);
            let dpart: Seq<u8> = if run > 0 {
                seq![(48 + run) as u8]
            } else {
                Seq::empty()
            };
            let rest = ser_rank(st, row, f + 1, 0);
            assert(w =~= dpart + seq![letter] + rest);
            // the pending run is flushed first
            let i1 = i + dpart.len();
            if run > 0 {
                assert(w[0] == (48 + run) as u8);
                assert(s[i + 0] == w[0]);
                assert(49 <= s[i] <= 56);
                assert(parse_board(s, i, sq0, row * 8, m) == parse_board(
                    s,
                    i1,
                    sqf,
                    row * 8,
                    m,
                ));
            }
            // the run squares were empty, so the material already reaches f
            assert forall|k: int| 0 <= k < 12 implies m[k] == restrict(st, sqf)[k] by {
                lemma_below_mask_bits(sq0);
                lemma_below_mask_bits(sqf);
                crate::bits::lemma_and_bits(st.material_layer.0@[k].0, below_mask(sq0));
                crate::bits::lemma_and_bits(st.material_layer.0@[k].0, below_mask(sqf));
                assert forall|t: int|
                    0 <= t < 64 implies bit(m[k], t) == bit(restrict(st, sqf)[k], t) by {
                    if sq0 <= t < sqf {
                        assert(scan_piece(st, t, 0) == 12);
                        lemma_scan_empty_from(st, t, 0);
                    }
                }
                crate::bits::lemma_eq_by_bits(m[k], restrict(st, sqf)[k]);
            }
            let mm = restrict(st, sqf);
            assert(m =~= mm);
            // the letter places the scanned piece
            lemma_ascii_round(p);
            crate::pieces::lemma_piece_roundtrip(p);
            assert(w[dpart.len() as int] == letter);
            assert(s[i1] == letter);
            let m2 = mm.update(p.idx(), mm[p.idx()] | (1u64 << (sqf as u64)));
            assert(parse_board(s, i1, sqf, row * 8, mm) == parse_board(
                s,
                i1 + 1,
                sqf + 1,
                row * 8,
                m2,
            ));
            // and the grown material is the restriction one square further
            lemma_scan_hit_from(st, sqf, 0);
            lemma_piece_uniqueness(st);
            assert forall|k: int| 0 <= k < 12 implies m2[k] == restrict(st, sqf + 1)[k] by {
                lemma_below_mask_bits(sqf);
                lemma_below_mask_bits(sqf + 1);
                crate::bits::lemma_and_bits(st.material_layer.0@[k].0, below_mask(sqf));
                crate::bits::lemma_and_bits(st.material_layer.0@[k].0, below_mask(sqf + 1));
                if k == p.idx() {
                    crate::bits::lemma_set_bit(
                        mm[k],
                        mm[k] | (1u64 << (sqf as u64)),
                        sqf as u64,
                    );
                    assert(bit(st.material_layer.0@[ci as int].0, sqf));
                }
                assert forall|t: int|
                    0 <= t < 64 implies bit(m2[k], t) == bit(restrict(st, sqf + 1)[k], t) by {
                    if t == sqf && k != p.idx() {
                        assert(bit(st.material_layer.0@[ci as int].0, sqf));
                        assert(!bit(st.material_layer.0@[k].0, sqf));
                    }
                }
                crate::bits::lemma_eq_by_bits(m2[k], restrict(st, sqf + 1)[k]);
            }
            assert(m2 =~= restrict(st, sqf + 1));
            // the rest of the rank carries on from the next file
            assert forall|j: int|
                0 <= j < rest.len() implies s[i1 + 1 + j] == #[trigger] rest[j] by {
                assert(w[dpart.len() + 1 + j] == rest[j]);
                assert(s[i + (dpart.len() + 1 + j)] == w[dpart.len() + 1 + j]);
            }
            lemma_rank_rt(s, st, row, f + 1, 0, i1 + 1, m2);
        } else {
            // an empty square only lengthens the pending run
            lemma_scan_le_from(st, sqf, 0);
            assert(ci == 12);
            assert(w =~= ser_rank(st, row, f + 1, run + 1));
            assert forall|j: int|
                0 <= j < ser_rank(st, row, f + 1, run + 1).len() implies s[i + j] == #[trigger]
            ser_rank(st, row, f + 1, run + 1)[j] by {
                assert(w[j] == ser_rank(st, row, f + 1, run + 1)[j]);
            }
            lemma_rank_rt(s, st, row, f + 1, run + 1, i, m);
        }
    }
}

} // verus!

verus! {

/// Reading the printed board from any rank down carries the parse to
/// the end of the board: sixty-four squares filled, the last rank
/// opened at its proper place, and the material complete.
proof fn lemma_board_rt(s: Seq<u8>, st: State, row: int, i: int)
    requires
        st.wf(),
        0 <= row < 8,
        0 <= i,
        i + ser_board(st, row).len() <= s.len(),
        forall|j: int|
            0 <= j < ser_board(st, row).len() ==> s[i + j] == #[trigger] ser_board(st, row)[j],
    ensures
        parse_board(s, i, row * 8, row * 8, restrict(st, row * 8)) == parse_board(
            s,
            i + ser_board(st, row).len(),
            64,
            56,
            restrict(st, 64),
        ),
    decreases 8 - row,
{
    let w = ser_board(st, row);
    let rank = ser_rank(st, row, 0, 0);
    let slash: Seq<u8> = if row < 7 {
        seq![47u8]
    } else {
        Seq::empty()
    };
    let rest = ser_board(st, row + 1);
    assert(w =~= rank + slash + rest);
    assert forall|j: int| 0 <= j < rank.len() implies s[i + j] == #[trigger] rank[j] by {
        assert(w[j] == rank[j]);
        assert(s[i + j] == w[j]);
    }
    lemma_rank_rt(s, st, row, 0, 0, i, restrict(st, row * 8));
    let i1 = i + rank.len();
    if row < 7 {
        assert(w[rank.len() as int] == 47);
        assert(s[i1] == 47);
        assert(parse_board(s, i1, row * 8 + 8, row * 8, restrict(st, row * 8 + 8))
            == parse_board(
            s,
            i1 + 1,
            (row + 1) * 8,
            (row + 1) * 8,
            restrict(st, (row + 1) * 8),
        ));
        assert forall|j: int| 0 <= j < rest.len() implies s[i1 + 1 + j] == #[trigger] rest[j] by {
            assert(w[rank.len() + 1 + j] == rest[j]);
            assert(s[i + (rank.len() + 1 + j)] == w[rank.len() + 1 + j]);
        }
        lemma_board_rt(s, st, row + 1, i1 + 1);
    } else {
        assert(row * 8 + 8 == 64 && row * 8 == 56);
        assert(w.len() == rank.len());
    }
}

} // verus!

verus! {

/// The first blank at or after `i` is the one the text shows.
proof fn lemma_next_space_at(s: Seq<u8>, i: int, j: int)
    requires
        0 <= i <= j < s.len(),
        forall|x: int| i <= x < j ==> s[x] != 32,
        s[j] == 32,
    ensures
        next_space(s, i) == Some(j),
    decreases j - i,
{
    if i < j {
        lemma_next_space_at(s, i + 1, j);
    }
}

/// Law: the record a position prints parses back to that position.
/// Every field survives the trip: material, side to move, castling
/// rights, en-passant square and both counters.
#[verifier::rlimit(100)]
pub proof fn lemma_fen_round_trip(st: State)
    requires
        st.wf(),
    ensures
        spec_parse(spec_ser(st)) == Some(st),
{
    let b = ser_board(st, 0);
    let sd: Seq<u8> = if st.side_to_move == Colour::White {
        seq![119u8]
    } else {
        seq![98u8]
    };
    let c = ser_castling(st.castling.0);
    let p = ser_ep(st.en_passant);
    let h = dec(st.half_moves as int);
    let fq = dec(st.full_moves as int);
    let sp: Seq<u8> = seq![32u8];
    let e1 = b + sp;
    let e2 = e1 + sd;
    let e3 = e2 + sp;
    let e4 = e3 + c;
    let e5 = e4 + sp;
    let e6 = e5 + p;
    let e7 = e6 + sp;
    let e8 = e7 + h;
    let e9 = e8 + sp;
    let ee = spec_ser(st);
    assert(ee =~= e9 + fq);
    let ob: int = 0;
    let os = e1.len() as int;
    let oc = e3.len() as int;
    let op = e5.len() as int;
    let oh = e7.len() as int;
    let of = e9.len() as int;

    // the board field and its blank
    assert forall|j: int| 0 <= j < b.len() implies ee[j] == #[trigger] b[j] by {
        assert(e1[j] == b[j]);
        assert(e2[j] == e1[j]);
        assert(e3[j] == e2[j]);
        assert(e4[j] == e3[j]);
        assert(e5[j] == e4[j]);
        assert(e6[j] == e5[j]);
        assert(e7[j] == e6[j]);
        assert(e8[j] == e7[j]);
        assert(e9[j] == e8[j]);
    }
    let zeros = Seq::new(12, |k: int| 0u64);
    assert forall|k: int| 0 <= k < 12 implies zeros[k] == restrict(st, 0)[k] by {
        crate::bits::lemma_and_zero(st.material_layer.0@[k].0);
    }
    assert(zeros =~= restrict(st, 0));
    lemma_board_rt(ee, st, 0, 0);
    assert(ee[b.len() as int] == 32) by {
        assert(e1[b.len() as int] == 32);
        assert(e2[b.len() as int] == e1[b.len() as int]);
        assert(e3[b.len() as int] == e2[b.len() as int]);
        assert(e4[b.len() as int] == e3[b.len() as int]);
        assert(e5[b.len() as int] == e4[b.len() as int]);
        assert(e6[b.len() as int] == e5[b.len() as int]);
        assert(e7[b.len() as int] == e6[b.len() as int]);
        assert(e8[b.len() as int] == e7[b.len() as int]);
        assert(e9[b.len() as int] == e8[b.len() as int]);
    }
    let mfull = restrict(st, 64);
    assert(parse_board(ee, 0, 0, 0, zeros) matches Some(pr) && pr.0 == os && pr.1 == mfull);

    // the side field and its blank
    assert(ee[os] == sd[0] && ee[os + 1] == 32) by {
        assert(e2[os] == sd[0]);
        assert(e3[os] == e2[os]);
        assert(e4[os] == e3[os]);
        assert(e5[os] == e4[os]);
        assert(e6[os] == e5[os]);
        assert(e7[os] == e6[os]);
        assert(e8[os] == e7[os]);
        assert(e9[os] == e8[os]);
        assert(ee[os] == e9[os]);
        assert(e3[os + 1] == 32);
        assert(e4[os + 1] == e3[os + 1]);
        assert(e5[os + 1] == e4[os + 1]);
        assert(e6[os + 1] == e5[os + 1]);
        assert(e7[os + 1] == e6[os + 1]);
        assert(e8[os + 1] == e7[os + 1]);
        assert(e9[os + 1] == e8[os + 1]);
        assert(ee[os + 1] == e9[os + 1]);
    }
    assert(parse_side(ee, os) matches Some(pr) && pr.0 == oc && pr.1 == st.side_to_move);

    // the castling field and its blank
    assert forall|j: int| 0 <= j < c.len() implies ee[oc + j] == #[trigger] c[j] by {
        assert(e4[oc + j] == c[j]);
        assert(e5[oc + j] == e4[oc + j]);
        assert(e6[oc + j] == e5[oc + j]);
        assert(e7[oc + j] == e6[oc + j]);
        assert(e8[oc + j] == e7[oc + j]);
        assert(e9[oc + j] == e8[oc + j]);
        assert(ee[oc + j] == e9[oc + j]);
    }
    assert(ee[oc + c.len()] == 32) by {
        assert(e5[oc + c.len()] == 32);
        assert(e6[oc + c.len()] == e5[oc + c.len()]);
        assert(e7[oc + c.len()] == e6[oc + c.len()]);
        assert(e8[oc + c.len()] == e7[oc + c.len()]);
        assert(e9[oc + c.len()] == e8[oc + c.len()]);
        assert(ee[oc + c.len()] == e9[oc + c.len()]);
    }
    let cr = st.castling.0;
    if cr == 0 {
        assert(c =~= seq![45u8]);
        assert(ee[oc] == 45 && ee[oc + 1] == 32);
        assert(parse_castling_field(ee, oc) matches Some(pr) && pr.0 == op && pr.1 == 0);
    } else {
        lemma_castle_bits_acc();
        assert(c[0] != 45) by {
            if cr & 1 != 0 {
                assert(c[0] == 75);
            } else if cr & 2 != 0 {
                assert(c[0] == 81);
            } else if cr & 4 != 0 {
                assert(c[0] == 107);
            } else {
                assert(c[0] == 113);
            }
        }
        assert(ee[oc] == c[0]);
        lemma_castling_round_trip(ee, oc, cr);
        assert(parse_castling_field(ee, oc) matches Some(pr) && pr.0 == op && pr.1 == cr);
    }

    // the en-passant field and its blank
    assert forall|j: int| 0 <= j < p.len() implies ee[op + j] == #[trigger] p[j] by {
        assert(e6[op + j] == p[j]);
        assert(e7[op + j] == e6[op + j]);
        assert(e8[op + j] == e7[op + j]);
        assert(e9[op + j] == e8[op + j]);
        assert(ee[op + j] == e9[op + j]);
    }
    assert(ee[op + p.len()] == 32) by {
        assert(e7[op + p.len()] == 32);
        assert(e8[op + p.len()] == e7[op + p.len()]);
        assert(e9[op + p.len()] == e8[op + p.len()]);
        assert(ee[op + p.len()] == e9[op + p.len()]);
    }
    match st.en_passant {
        Some(e) => {
            assert(p =~= seq![(97 + e.spec_file()) as u8, (49 + e.spec_rank()) as u8]);
            assert(ee[op] == 97 + e.spec_file());
            assert(ee[op + 1] == 49 + e.spec_rank());
            assert(ee[op + 2] == 32);
            let row: int = if ee[op + 1] == 51 {
                5
            } else {
                2
            };
            assert(row == 7 - e.spec_rank());
            assert(row * 8 + (ee[op] - 97) == e.idx());
            crate::position::lemma_pos_of_idx(e);
            assert(parse_ep(ee, op) matches Some(pr) && pr.0 == oh && pr.1 == Some(e));
        },
        None => {
            assert(p =~= seq![45u8]);
            assert(ee[op] == 45 && ee[op + 1] == 32);
            assert(parse_ep(ee, op) matches Some(pr) && pr.0 == oh && pr.1
                == None::<Position>);
        },
    }

    // the half-move clock, up to its blank
    assert forall|j: int| 0 <= j < h.len() implies ee[oh + j] == #[trigger] h[j] by {
        assert(e8[oh + j] == h[j]);
        assert(e9[oh + j] == e8[oh + j]);
        assert(ee[oh + j] == e9[oh + j]);
    }
    assert(ee[oh + h.len()] == 32) by {
        assert(e9[oh + h.len()] == 32);
        assert(ee[oh + h.len()] == e9[oh + h.len()]);
    }
    let sp5 = oh + h.len() as int;
    lemma_dec_ascii(st.half_moves as int);
    assert forall|x: int| oh <= x < sp5 implies ee[x] != 32 by {
        assert(ee[x] == h[x - oh]);
        assert(48 <= h[x - oh]);
    }
    lemma_next_space_at(ee, oh, sp5);
    lemma_dec_round_trip(ee, oh, st.half_moves, sp5);

    // the move number, up to the end of the record
    assert forall|j: int| 0 <= j < fq.len() implies ee[of + j] == #[trigger] fq[j] by {
        assert(ee[of + j] == fq[j]);
    }
    lemma_dec_round_trip(ee, of, st.full_moves, of + fq.len() as int);
    assert(of + fq.len() == ee.len());

    // the fields assemble back into the position itself
    assert forall|k: int| 0 <= k < 12 implies mfull[k] == st.material_layer.0@[k].0 by {
        let lv = st.material_layer.0@[k].0;
        lemma_below_mask_bits(64);
        crate::bits::lemma_and_bits(lv, below_mask(64));
        crate::bits::lemma_eq_by_bits(lv & below_mask(64), lv);
    }
    let built = assemble(mfull, st.side_to_move, cr, st.en_passant, st.half_moves, st.full_moves);
    assert(built.material_layer.0 =~= st.material_layer.0);
    assert(built.occupancy_layer.0@[0].0 == st.occupancy_layer.0@[0].0);
    assert(built.occupancy_layer.0@[1].0 == st.occupancy_layer.0@[1].0);
    assert(built.occupancy_layer.0 =~= st.occupancy_layer.0);
    assert(built =~= st);
    assert(spec_parse(ee) == Some(st));
}

} // verus!
