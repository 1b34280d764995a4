use vstd::prelude::*;

verus! {

/// A self-seeded xorshift generator: the deterministic pseudo-random
/// source the engine can use to look for magic multipliers.
#[derive(Debug, Clone, Copy, PartialEq, Eq, Structural)]
pub struct XorRand {
    pub init: u32,
    pub state: u32,
}

/// One xorshift step.
pub open spec fn xs32(x: u32) -> u32 {
    let a = x ^ (x << 13);
    let b = a ^ (a >> 17);
    b ^ (b << 5)
}

/// The state the generator steps to: a zero state first takes the seed.
pub open spec fn next32(state: u32, init: u32) -> u32 {
    xs32(
        if state == 0 {
            init
        } else {
            state
        },
    )
}

/// The value four chained 16-bit draws pack into one word.
pub open spec fn pack64(n0: u32, n1: u32, n2: u32, n3: u32) -> u64 {
    ((n0 & 0xFFFF) as u64) | (((n1 & 0xFFFF) as u64) << 16) | (((n2 & 0xFFFF) as u64) << 32) | ((
    (n3 & 0xFFFF) as u64) << 48)
}

impl XorRand {
    pub fn new() -> (r: Self)
        ensures
            r.init == 1804289383,
            r.state == 0,
    {
        Self { init: 1804289383, state: 0 }
    }

    /// Draw one 32-bit value.
    pub fn rand32(&mut self) -> (r: u32)
        ensures
            final(self).state == next32(old(self).state, old(self).init),
            final(self).init == old(self).init,
            r == final(self).state,
    {
        if self.state == 0 {
            self.state = self.init;
        }
        self.state = self.state ^ (self.state << 13);
        self.state = self.state ^ (self.state >> 17);
        self.state = self.state ^ (self.state << 5);
        self.state
    }

    /// Draw one 64-bit value from four 16-bit chunks.
    pub fn rand64(&mut self) -> (r: u64)
        ensures
            final(self).init == old(self).init,
            ({
                let s1 = next32(old(self).state, old(self).init);
                let s2 = next32(s1, old(self).init);
                let s3 = next32(s2, old(self).init);
                let s4 = next32(s3, old(self).init);
                final(self).state == s4 && r == pack64(s1, s2, s3, s4)
            }),
    {
        let n0 = self.rand32() as u64 & 0xFFFF;
        let n1 = self.rand32() as u64 & 0xFFFF;
        let n2 = self.rand32() as u64 & 0xFFFF;
        let n3 = self.rand32() as u64 & 0xFFFF;
        proof {
            lemma_pack_chunks();
        }
        n0 | (n1 << 16) | (n2 << 32) | (n3 << 48)
    }

    /// Draw a sparse candidate multiplier: the conjunction of three draws.
    pub fn gen_magic_number(&mut self) -> (r: u64)
        ensures
            final(self).init == old(self).init,
    {
        let a = self.rand64();
        let b = self.rand64();
        let c = self.rand64();
        a & b & c
    }
}

/// Masking a chunk before widening agrees with widening before masking.
proof fn lemma_pack_chunks()
    by (bit_vector)
    ensures
        forall|x: u32| ((#[trigger] (x as u64)) & 0xFFFF) == ((x & 0xFFFF) as u64),
{
}

} // verus!
