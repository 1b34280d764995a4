use vstd::prelude::*;

verus! {

/// Whether bit `i` of `m` is set; false off the board.
pub open spec fn bit(m: u64, i: int) -> bool {
    0 <= i < 64 && (m >> (i as u64)) & 1 == 1
}

/// How many of the `n` lowest bits of `m` are set.
pub open spec fn pcr(m: u64, n: nat) -> nat
    decreases n,
{
    if n == 0 {
        0
    } else {
        pcr(m, (n - 1) as nat) + (if bit(m, n - 1) {
            1nat
        } else {
            0nat
        })
    }
}

/// The population count of `m`.
pub open spec fn pc(m: u64) -> nat {
    pcr(m, 64)
}

/// Clearing one set bit lowers the count by exactly one.
pub proof fn lemma_pcr_clear_one(m1: u64, m2: u64, k: int, n: nat)
    requires
        0 <= k < 64,
        bit(m1, k),
        !bit(m2, k),
        forall|j: int| 0 <= j < 64 && j != k ==> bit(m1, j) == bit(m2, j),
        n <= 64,
    ensures
        pcr(m1, n) == pcr(m2, n) + (if k < n {
            1nat
        } else {
            0nat
        }),
    decreases n,
{
    if n > 0 {
        lemma_pcr_clear_one(m1, m2, k, (n - 1) as nat);
    }
}

} // verus!

verus! {

/// Masked fields extracted from a packed word stay under the mask bound.
pub proof fn lemma_field_bounds(w: u32, s: u32)
    by (bit_vector)
    ensures
        (w >> s) & 0x3F < 64,
        (w >> s) & 0xF < 16,
        (w >> s) & 0xFFF < 4096,
        w & 0xF < 16,
        (w >> 20) & 0xFFF < 4096,
        (w >> 16) & 0xF < 16,
        (w >> 10) & 0x3F < 64,
        (w >> 4) & 0x3F < 64,
{
}

} // verus!

verus! {

/// Setting bit `t` of a word sets that bit and leaves the rest alone.
pub proof fn lemma_set_bit(before: u64, after: u64, t: u64)
    requires
        t < 64,
        after == before | (1u64 << t),
    ensures
        forall|j: int| #[trigger] bit(after, j) <==> (bit(before, j) || j == t),
{
    assert(forall|ju: u64|
        ju < 64 ==> (((#[trigger] (after >> ju)) & 1 == 1) <==> (((before >> ju) & 1 == 1) || ju
            == t))) by (bit_vector)
        requires
            after == before | (1u64 << t),
            t < 64,
    ;
    assert forall|j: int| #[trigger] bit(after, j) <==> (bit(before, j) || j == t) by {
        if 0 <= j < 64 {
            let ju = j as u64;
            assert(((after >> ju) & 1 == 1) <==> (((before >> ju) & 1 == 1) || ju == t));
        }
    }
}

/// Clearing bit `t` of a word clears that bit and leaves the rest alone.
pub proof fn lemma_clear_bit(before: u64, after: u64, t: u64)
    requires
        t < 64,
        after == before & !(1u64 << t),
    ensures
        forall|j: int| #[trigger] bit(after, j) <==> (bit(before, j) && j != t),
{
    assert(forall|ju: u64|
        ju < 64 ==> (((#[trigger] (after >> ju)) & 1 == 1) <==> (((before >> ju) & 1 == 1) && ju
            != t))) by (bit_vector)
        requires
            after == before & !(1u64 << t),
            t < 64,
    ;
    assert forall|j: int| #[trigger] bit(after, j) <==> (bit(before, j) && j != t) by {
        if 0 <= j < 64 {
            let ju = j as u64;
            assert(((after >> ju) & 1 == 1) <==> (((before >> ju) & 1 == 1) && ju != t));
        }
    }
}

/// The union of two words holds the bits of either.
pub proof fn lemma_or_bits(a: u64, b: u64)
    ensures
        forall|j: int| #[trigger] bit(a | b, j) <==> (bit(a, j) || bit(b, j)),
{
    assert(forall|ju: u64|
        ju < 64 ==> (((#[trigger] ((a | b) >> ju)) & 1 == 1) <==> (((a >> ju) & 1 == 1) || ((b
            >> ju) & 1 == 1)))) by (bit_vector);
    assert forall|j: int| #[trigger] bit(a | b, j) <==> (bit(a, j) || bit(b, j)) by {
        if 0 <= j < 64 {
            let ju = j as u64;
            assert((((a | b) >> ju) & 1 == 1) <==> (((a >> ju) & 1 == 1) || ((b >> ju) & 1
                == 1)));
        }
    }
}

/// The intersection of two words holds the bits of both.
pub proof fn lemma_and_bits(a: u64, b: u64)
    ensures
        forall|j: int| #[trigger] bit(a & b, j) <==> (bit(a, j) && bit(b, j)),
{
    assert(forall|ju: u64|
        ju < 64 ==> (((#[trigger] ((a & b) >> ju)) & 1 == 1) <==> (((a >> ju) & 1 == 1) && ((b
            >> ju) & 1 == 1)))) by (bit_vector);
    assert forall|j: int| #[trigger] bit(a & b, j) <==> (bit(a, j) && bit(b, j)) by {
        if 0 <= j < 64 {
            let ju = j as u64;
            assert((((a & b) >> ju) & 1 == 1) <==> (((a >> ju) & 1 == 1) && ((b >> ju) & 1
                == 1)));
        }
    }
}

/// The complement of a word holds exactly the on-board bits it lacks.
pub proof fn lemma_not_bits(a: u64)
    ensures
        forall|j: int| 0 <= j < 64 ==> (#[trigger] bit(!a, j) <==> !bit(a, j)),
{
    assert(forall|ju: u64|
        ju < 64 ==> (((#[trigger] ((!a) >> ju)) & 1 == 1) <==> !((a >> ju) & 1 == 1)))
        by (bit_vector);
    assert forall|j: int| 0 <= j < 64 implies (#[trigger] bit(!a, j) <==> !bit(a, j)) by {
        let ju = j as u64;
        assert((((!a) >> ju) & 1 == 1) <==> !((a >> ju) & 1 == 1));
    }
}

/// A single set bit marks exactly its own square.
pub proof fn lemma_single_bit(t: u64)
    requires
        t < 64,
    ensures
        forall|j: int| #[trigger] bit(1u64 << t, j) <==> j == t,
{
    assert(forall|ju: u64|
        ju < 64 ==> (((#[trigger] ((1u64 << t) >> ju)) & 1 == 1) <==> ju == t)) by (bit_vector)
        requires
            t < 64,
    ;
    assert forall|j: int| #[trigger] bit(1u64 << t, j) <==> j == t by {
        if 0 <= j < 64 {
            let ju = j as u64;
            assert((((1u64 << t) >> ju) & 1 == 1) <==> ju == t);
        }
    }
}

/// Words that agree on every square are equal.
pub proof fn lemma_eq_by_bits(a: u64, b: u64)
    requires
        forall|j: int| 0 <= j < 64 ==> (bit(a, j) <==> bit(b, j)),
    ensures
        a == b,
{
    if a != b {
        let x = a ^ b;
        assert(x != 0) by (bit_vector)
            requires
                x == a ^ b,
                a != b,
        ;
        vstd::std_specs::bits::axiom_u64_trailing_zeros(x);
        let t = vstd::std_specs::bits::u64_trailing_zeros(x) as u64;
        assert(((a >> t) & 1 == 1) != ((b >> t) & 1 == 1)) by (bit_vector)
            requires
                x == a ^ b,
                t < 64,
                (x >> t) & 1 == 1,
        ;
        assert(bit(a, t as int) != bit(b, t as int));
    }
}

} // verus!

verus! {

/// The zero word holds no square.
pub proof fn lemma_zero_bits()
    ensures
        forall|j: int| !bit(0u64, j),
{
    assert(forall|ju: u64| ju < 64 ==> ((#[trigger] (0u64 >> ju)) & 1 == 0)) by (bit_vector);
    assert forall|j: int| !bit(0u64, j) by {
        if 0 <= j < 64 {
            let ju = j as u64;
            assert((0u64 >> ju) & 1 == 0);
        }
    }
}

} // verus!

verus! {

/// Testing a square with a mask agrees with reading its bit.
pub proof fn lemma_test_bit(x: u64, t: u64)
    requires
        t < 64,
    ensures
        (x & (1u64 << t) != 0) <==> bit(x, t as int),
{
    assert((x & (1u64 << t) != 0) <==> ((x >> t) & 1 == 1)) by (bit_vector)
        requires
            t < 64,
    ;
}

} // verus!

verus! {

/// `m` with its lowest set bit cleared.
pub open spec fn rest_of(m: u64) -> u64 {
    m & ((m - 1) as u64)
}

/// The lowest set bit of `m` alone.
pub open spec fn low_of(m: u64) -> u64 {
    m & !((m - 1) as u64)
}

/// How the lowest set bit splits a non-zero word in two.
pub proof fn lemma_low_rest(m: u64)
    requires
        m != 0,
    ensures
        rest_of(m) < m,
        low_of(m) != 0,
        low_of(m) & ((low_of(m) - 1) as u64) == 0,
        low_of(m) & rest_of(m) == 0,
        low_of(m) | rest_of(m) == m,
{
    assert((m & ((m - 1) as u64)) < m && (m & !((m - 1) as u64)) != 0 && ((m & !((m - 1) as u64))
        & (((m & !((m - 1) as u64)) - 1) as u64)) == 0 && ((m & !((m - 1) as u64)) & (m & ((m
        - 1) as u64))) == 0 && ((m & !((m - 1) as u64)) | (m & ((m - 1) as u64))) == m)
        by (bit_vector)
        requires
            m != 0,
    ;
}

#[via_fn]
proof fn pcl_dec(m: u64) {
    if m != 0 {
        lemma_low_rest(m);
    }
}

/// The population count of `m`, peeling one set bit at a time.
pub open spec fn pcl(m: u64) -> nat
    decreases m,
    via pcl_dec
{
    if m == 0 {
        0
    } else {
        1 + pcl(rest_of(m))
    }
}

#[via_fn]
proof fn scatter_dec(i: nat, m: u64) {
    if m != 0 {
        lemma_low_rest(m);
    }
}

/// Spread the low bits of the index `i` onto the set bits of `m`, in
/// ascending order: the i-th subset of `m` in the enumeration the
/// table builder walks.
pub open spec fn scatter(i: nat, m: u64) -> u64
    decreases m,
    via scatter_dec
{
    if m == 0 {
        0
    } else {
        (if i % 2 == 1 {
            low_of(m)
        } else {
            0
        }) | scatter(i / 2, rest_of(m))
    }
}

#[via_fn]
proof fn gather_dec(o: u64, m: u64) {
    if m != 0 {
        lemma_low_rest(m);
    }
}

/// Collapse the bits of `o` that lie in `m` into a compact index:
/// the inverse of `scatter` on subsets of `m`.
pub open spec fn gather(o: u64, m: u64) -> nat
    decreases m,
    via gather_dec
{
    if m == 0 {
        0
    } else {
        2 * gather(o, rest_of(m)) + (if o & low_of(m) != 0 {
            1nat
        } else {
            0nat
        })
    }
}

/// Powers of two.
pub open spec fn p2(k: nat) -> nat
    decreases k,
{
    if k == 0 {
        1nat
    } else {
        2 * p2((k - 1) as nat)
    }
}

/// No bit of the zero word is set, counted positionally.
pub proof fn lemma_pcr_zero(n: nat)
    ensures
        pcr(0u64, n) == 0,
    decreases n,
{
    lemma_zero_bits();
    if n > 0 {
        lemma_pcr_zero((n - 1) as nat);
    }
}

/// Peeling set bits counts the same population as reading positions.
pub proof fn lemma_pcl_is_pc(m: u64)
    ensures
        pcl(m) == pc(m),
    decreases m,
{
    if m == 0 {
        lemma_pcr_zero(64);
    } else {
        lemma_low_rest(m);
        vstd::std_specs::bits::axiom_u64_trailing_zeros(m);
        let t = vstd::std_specs::bits::u64_trailing_zeros(m) as u64;
        assert(rest_of(m) == m & !(1u64 << t)) by (bit_vector)
            requires
                t < 64,
                (m >> t) & 1 == 1,
                m << ((64 - t) as u64) == 0,
        ;
        lemma_clear_bit(m, rest_of(m), t);
        assert(bit(m, t as int));
        lemma_pcr_clear_one(m, rest_of(m), t as int, 64);
        lemma_pcl_is_pc(rest_of(m));
    }
}

/// The gathered index of any word stays under two to the population of `m`.
pub proof fn lemma_gather_bound(o: u64, m: u64)
    ensures
        gather(o, m) < p2(pcl(m)),
    decreases m,
{
    if m != 0 {
        lemma_low_rest(m);
        lemma_gather_bound(o, rest_of(m));
    }
}

/// Gathering reads only the bits of `o` that lie in `m`.
pub proof fn lemma_gather_mask(o: u64, m: u64)
    ensures
        gather(o & m, m) == gather(o, m),
    decreases m,
{
    if m != 0 {
        let l = low_of(m);
        let rst = rest_of(m);
        lemma_low_rest(m);
        assert((o & m) & l == o & l && (o & m) & rst == o & rst) by (bit_vector)
            requires
                l | rst == m,
                l & rst == 0,
        ;
        lemma_gather_mask(o, rst);
        lemma_gather_mask(o & m, rst);
        assert(gather((o & m) & rst, rst) == gather(o & rst, rst));
    }
}

/// Scattering the gathered index of a subset of `m` gives the subset back.
pub proof fn lemma_scatter_gather(o: u64, m: u64)
    requires
        o & m == o,
    ensures
        scatter(gather(o, m), m) == o,
    decreases m,
{
    if m == 0 {
        assert(o == 0) by (bit_vector)
            requires
                o & 0 == o,
        ;
    } else {
        let l = low_of(m);
        let rst = rest_of(m);
        lemma_low_rest(m);
        let b: nat = if o & l != 0 {
            1nat
        } else {
            0nat
        };
        let g2 = gather(o, rst);
        assert(gather(o, m) == 2 * g2 + b);
        assert((2 * g2 + b) % 2 == b && (2 * g2 + b) / 2 == g2);
        lemma_gather_mask(o, rst);
        assert((o & rst) & rst == o & rst) by (bit_vector);
        lemma_scatter_gather(o & rst, rst);
        assert(scatter(g2, rst) == o & rst);
        if o & l != 0 {
            assert(scatter(gather(o, m), m) == l | scatter(g2, rst));
            assert(l | (o & rst) == o) by (bit_vector)
                requires
                    o & m == o,
                    l | rst == m,
                    l & rst == 0,
                    l & ((l - 1) as u64) == 0,
                    l != 0,
                    o & l != 0,
            ;
        } else {
            assert(scatter(gather(o, m), m) == 0u64 | scatter(g2, rst));
            assert(0u64 | (o & rst) == o) by (bit_vector)
                requires
                    o & m == o,
                    l | rst == m,
                    o & l == 0,
            ;
        }
    }
}

} // verus!

verus! {

/// Zero is the identity of bitwise union.
pub proof fn lemma_or_zero(x: u64)
    by (bit_vector)
    ensures
        0u64 | x == x,
        x | 0u64 == x,
{
}

/// A word whose squares all lie in `m` is unchanged by masking with `m`.
pub proof fn lemma_subset_from_bits(o: u64, m: u64)
    requires
        forall|t: int| #[trigger] bit(o, t) ==> bit(m, t),
    ensures
        o & m == o,
{
    lemma_and_bits(o, m);
    lemma_eq_by_bits(o & m, o);
}

/// Shifting one left computes the powers of two.
pub proof fn lemma_p2_shift(bits: u32)
    requires
        bits <= 16,
    ensures
        (1u64 << bits) as nat == p2(bits as nat),
    decreases bits,
{
    if bits == 0 {
        assert(1u64 << 0u32 == 1) by (bit_vector);
    } else {
        lemma_p2_shift((bits - 1) as u32);
        assert(1u64 << bits == 2 * (1u64 << ((bits - 1) as u32))) by (bit_vector)
            requires
                1 <= bits <= 16,
        ;
    }
}

} // verus!

verus! {

/// Disjoint words never share a square.
pub proof fn lemma_disjoint_bit(a: u64, b: u64, t: int)
    requires
        a & b == 0,
        bit(a, t),
    ensures
        !bit(b, t),
{
    let tu = t as u64;
    assert((b >> tu) & 1 == 0) by (bit_vector)
        requires
            a & b == 0,
            (a >> tu) & 1 == 1,
            tu < 64,
    ;
}

} // verus!

verus! {

/// Disjointness read from the other side.
pub proof fn lemma_disjoint_bit_rev(a: u64, b: u64, t: int)
    requires
        a & b == 0,
        bit(b, t),
    ensures
        !bit(a, t),
{
    lemma_and_bits(a, b);
    lemma_zero_bits();
    if bit(a, t) {
        assert(bit(a & b, t));
    }
}

/// Conjunction with the empty word empties any word.
pub proof fn lemma_and_zero(x: u64)
    ensures
        x & 0u64 == 0,
{
    lemma_and_bits(x, 0u64);
    lemma_zero_bits();
    lemma_eq_by_bits(x & 0u64, 0u64);
}

/// Two words intersect exactly when they share a square.
pub proof fn lemma_intersect_exists(a: u64, b: u64)
    ensures
        (a & b != 0) <==> (exists|t: int| #![trigger bit(a, t), bit(b, t)] bit(a, t) && bit(b, t)),
{
    if a & b != 0 {
        let x = a & b;
        vstd::std_specs::bits::axiom_u64_trailing_zeros(x);
        let t = vstd::std_specs::bits::u64_trailing_zeros(x) as u64;
        assert((a >> t) & 1 == 1 && (b >> t) & 1 == 1) by (bit_vector)
            requires
                x == a & b,
                x != 0,
                t < 64,
                (x >> t) & 1 == 1,
        ;
        assert(bit(a, t as int) && bit(b, t as int));
    }
    if exists|t: int| #![trigger bit(a, t), bit(b, t)] bit(a, t) && bit(b, t) {
        let t = choose|t: int| #![trigger bit(a, t), bit(b, t)] bit(a, t) && bit(b, t);
        if a & b == 0 {
            lemma_disjoint_bit(a, b, t);
            assert(false);
        }
    }
}

} // verus!

verus! {

/// Zero is the identity of 32-bit union too.
pub proof fn lemma_or_zero32()
    by (bit_vector)
    ensures
        forall|x: u32| (#[trigger] (x | 0u32)) == x,
        forall|x: u32| (#[trigger] (0u32 | x)) == x,
{
}

} // verus!

verus! {

/// How a packed move word splits back into its five fields.
pub proof fn lemma_word_fields(tr: u32, nib: u32, s: u32, t: u32, cap: u32)
    requires
        tr < 4096,
        nib < 16,
        s < 64,
        t < 64,
        cap < 16,
    ensures
        ({
            let w = (tr << 20u32) | (nib << 16u32) | (s << 10u32) | (t << 4u32) | cap;
            &&& (w >> 20) & 0xFFF == tr
            &&& (w >> 16) & 0xF == nib
            &&& (w >> 10) & 0x3F == s
            &&& (w >> 4) & 0x3F == t
            &&& w & 0xF == cap
        }),
{
    assert(({
        let w = (tr << 20u32) | (nib << 16u32) | (s << 10u32) | (t << 4u32) | cap;
        &&& (w >> 20) & 0xFFF == tr
        &&& (w >> 16) & 0xF == nib
        &&& (w >> 10) & 0x3F == s
        &&& (w >> 4) & 0x3F == t
        &&& w & 0xF == cap
    })) by (bit_vector)
        requires
            tr < 4096,
            nib < 16,
            s < 64,
            t < 64,
            cap < 16,
    ;
}

/// Which flags each trait word used by the generator carries.
pub proof fn lemma_trait_bits()
    by (bit_vector)
    ensures
        1u32 & 2 == 0,
        9u32 & 2 == 0,
        5u32 & 2 == 0,
        4u32 & 2 == 0,
        16u32 & 2 == 0,
        20u32 & 2 == 0,
        32u32 & 2 == 0,
        2u32 & 2 != 0,
        6u32 & 2 != 0,
        10u32 & 2 != 0,
        1u32 & 16 == 0,
        9u32 & 16 == 0,
        5u32 & 16 == 0,
        2u32 & 16 == 0,
        6u32 & 16 == 0,
        10u32 & 16 == 0,
        32u32 & 16 == 0,
        16u32 & 16 != 0,
        20u32 & 16 != 0,
        1u32 & 32 == 0,
        9u32 & 32 == 0,
        5u32 & 32 == 0,
        2u32 & 32 == 0,
        6u32 & 32 == 0,
        10u32 & 32 == 0,
        16u32 & 32 == 0,
        20u32 & 32 == 0,
        32u32 & 32 != 0,
        1u32 & 8 == 0,
        5u32 & 8 == 0,
        2u32 & 8 == 0,
        6u32 & 8 == 0,
        16u32 & 8 == 0,
        20u32 & 8 == 0,
        32u32 & 8 == 0,
        9u32 & 8 != 0,
        10u32 & 8 != 0,
        1u32 & 4 == 0,
        9u32 & 4 == 0,
        2u32 & 4 == 0,
        10u32 & 4 == 0,
        16u32 & 4 == 0,
        32u32 & 4 == 0,
        5u32 & 4 != 0,
        6u32 & 4 != 0,
        20u32 & 4 != 0,
        1u32 & 1 != 0,
        9u32 & 1 != 0,
        5u32 & 1 != 0,
        2u32 & 1 == 0,
        6u32 & 1 == 0,
        10u32 & 1 == 0,
        16u32 & 1 == 0,
        20u32 & 1 == 0,
        32u32 & 1 == 0,
{
}

} // verus!

verus! {

/// Unions of nibbles stay nibbles.
pub proof fn lemma_nibble_or(a: u8, b: u8)
    by (bit_vector)
    requires
        a < 16,
        b < 16,
    ensures
        (a | b) < 16,
        a & !b < 16,
{
}

} // verus!



verus! {

/// Scattered indices land only on squares of the mask.
pub proof fn lemma_scatter_in_mask(i: nat, m: u64)
    ensures
        scatter(i, m) & m == scatter(i, m),
    decreases m,
{
    if m == 0 {
        lemma_and_zero(0u64);
    } else {
        lemma_low_rest(m);
        lemma_scatter_in_mask(i / 2, rest_of(m));
        let l = low_of(m);
        let rst = rest_of(m);
        let s2 = scatter(i / 2, rst);
        if i % 2 == 1 {
            assert((l | s2) & m == (l | s2)) by (bit_vector)
                requires
                    s2 & rst == s2,
                    l | rst == m,
            ;
        } else {
            assert((0u64 | s2) & m == (0u64 | s2)) by (bit_vector)
                requires
                    s2 & rst == s2,
                    l | rst == m,
            ;
        }
    }
}

/// A word unchanged by masking holds only the mask's squares.
pub proof fn lemma_subset_bits_of(o: u64, m: u64)
    requires
        o & m == o,
    ensures
        forall|t: int| #[trigger] bit(o, t) ==> bit(m, t),
{
    lemma_and_bits(o, m);
    assert forall|t: int| #[trigger] bit(o, t) implies bit(m, t) by {
        assert(bit(o & m, t));
    }
}

} // verus!

verus! {

/// Masking with any complement keeps a nibble a nibble.
pub proof fn lemma_nibble_and_not()
    by (bit_vector)
    ensures
        forall|a: u8, b: u8| a < 16 ==> (#[trigger] (a & !b)) < 16,
{
}

} // verus!

verus! {

/// How a packed delta word splits back into its fields.
pub proof fn lemma_delta_pack(eps: u32, epf: u32, promo: u32, lost: u32, w: u32)
    requires
        eps < 64,
        epf < 2,
        promo < 2,
        lost < 16,
    ensures
        ({
            let dv = (eps << 26u32) | (epf << 25u32) | (promo << 24u32) | (lost << 20u32) | (w
                & 0x000FFFFFu32);
            &&& (dv >> 26) & 0x3F == eps
            &&& (dv >> 25) & 1 == epf
            &&& (dv >> 24) & 1 == promo
            &&& (dv >> 20) & 0xF == lost
            &&& (dv >> 16) & 0xF == (w >> 16) & 0xF
            &&& (dv >> 10) & 0x3F == (w >> 10) & 0x3F
            &&& (dv >> 4) & 0x3F == (w >> 4) & 0x3F
            &&& dv & 0xF == w & 0xF
        }),
{
    assert(({
        let dv = (eps << 26u32) | (epf << 25u32) | (promo << 24u32) | (lost << 20u32) | (w
            & 0x000FFFFFu32);
        &&& (dv >> 26) & 0x3F == eps
        &&& (dv >> 25) & 1 == epf
        &&& (dv >> 24) & 1 == promo
        &&& (dv >> 20) & 0xF == lost
        &&& (dv >> 16) & 0xF == (w >> 16) & 0xF
        &&& (dv >> 10) & 0x3F == (w >> 10) & 0x3F
        &&& (dv >> 4) & 0x3F == (w >> 4) & 0x3F
        &&& dv & 0xF == w & 0xF
    })) by (bit_vector)
        requires
            eps < 64,
            epf < 2,
            promo < 2,
            lost < 16,
    ;
}

/// A nibble masked into another nibble stays inside it.
pub proof fn lemma_and_not_in(o: u8, k: u8)
    by (bit_vector)
    ensures
        ((o & !k) & o) == o & !k,
        o & o == o,
{
}

/// Masking twice still stays inside the original.
pub proof fn lemma_and_not_in2(o: u8, a: u8, k: u8)
    by (bit_vector)
    requires
        a & o == a,
    ensures
        ((a & !k) & o) == a & !k,
{
}

/// Clearing some rights and then granting them back restores the mask.
pub proof fn lemma_cr_restore(o: u8, n: u8)
    by (bit_vector)
    requires
        o < 16,
        n & o == n,
    ensures
        (n | ((o & !n) & 0xF)) == o,
{
}

} // verus!
