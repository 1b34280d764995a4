use vstd::prelude::*;

verus! {

/// The four castling permissions, packed one per bit in the low nibble.
#[derive(Debug, Clone, Copy, PartialEq, Eq, Structural)]
pub struct CastlingRights(pub u8);

/// One castling permission. `Neither` stands for the absence of any.
#[derive(Debug, Clone, Copy, PartialEq, Eq, Structural)]
pub enum Castling {
    Neither,
    WK,
    WQ,
    BK,
    BQ,
}

impl Castling {
    pub open spec fn bits(self) -> u8 {
        match self {
            Castling::Neither => 0,
            Castling::WK => 1,
            Castling::WQ => 2,
            Castling::BK => 4,
            Castling::BQ => 8,
        }
    }

    pub fn get_castlings_bits(&self) -> (r: u8)
        ensures
            r == self.bits(),
    {
        match self {
            Castling::Neither => 0,
            Castling::WK => 1,
            Castling::WQ => 2,
            Castling::BK => 4,
            Castling::BQ => 8,
        }
    }

    /// Whether the permission is for the king's side; the absence of a
    /// permission is for neither side.
    pub fn is_kingside(&self) -> (r: Option<bool>)
        ensures
            (match r {
                Some(b) => *self != Castling::Neither && b == (*self == Castling::WK || *self
                    == Castling::BK),
                None => *self == Castling::Neither,
            }),
    {
        match self {
            Castling::WK => Some(true),
            Castling::WQ => Some(false),
            Castling::BK => Some(true),
            Castling::BQ => Some(false),
            Castling::Neither => None,
        }
    }
}

/// The combined bit mask of a list of permissions.
pub open spec fn rights_bits(s: Seq<Castling>) -> u8
    decreases s.len(),
{
    if s.len() == 0 {
        0
    } else {
        rights_bits(s.drop_last()) | s.last().bits()
    }
}

impl CastlingRights {
    /// No permission at all.
    pub fn new() -> (r: Self)
        ensures
            r.0 == 0,
    {
        Self(0)
    }

    /// Replace the mask with the union of the given permissions.
    pub fn set_castling_rights(&mut self, rights: &[Castling])
        ensures
            final(self).0 == rights_bits(rights@),
    {
        let mut acc: u8 = 0;
        let mut i: usize = 0;
        while i < rights.len()
            invariant
                i <= rights.len(),
                acc == rights_bits(rights@.take(i as int)),
            decreases rights.len() - i,
        {
            proof {
                assert(rights@.take(i + 1).drop_last() =~= rights@.take(i as int));
            }
            acc = acc | rights[i].get_castlings_bits();
            i = i + 1;
        }
        proof {
            assert(rights@.take(rights@.len() as int) =~= rights@);
        }
        self.0 = acc;
    }

    /// Grant one permission.
    pub fn add_castling_right(&mut self, right: Castling)
        ensures
            final(self).0 == old(self).0 | right.bits(),
    {
        self.0 = self.0 | right.get_castlings_bits();
    }

    /// Flip one permission.
    pub fn toggle_castling_rights(&mut self, right: Castling)
        ensures
            final(self).0 == old(self).0 ^ right.bits(),
    {
        self.0 = self.0 ^ right.get_castlings_bits();
    }
}

/// The permissions present in a mask, in the fixed order `WK`, `WQ`, `BK`, `BQ`.
pub open spec fn spec_rights_list(b: u8) -> Seq<Castling> {
    (if b & 1 != 0 {
        seq![Castling::WK]
    } else {
        Seq::empty()
    }) + (if b & 2 != 0 {
        seq![Castling::WQ]
    } else {
        Seq::empty()
    }) + (if b & 4 != 0 {
        seq![Castling::BK]
    } else {
        Seq::empty()
    }) + (if b & 8 != 0 {
        seq![Castling::BQ]
    } else {
        Seq::empty()
    })
}

pub fn castling_rights_from_bits(cr: CastlingRights) -> (r: Vec<Castling>)
    ensures
        r@ == spec_rights_list(cr.0),
{
    let mut v: Vec<Castling> = Vec::new();
    if cr.0 & 1 != 0 {
        v.push(Castling::WK);
    }
    if cr.0 & 2 != 0 {
        v.push(Castling::WQ);
    }
    if cr.0 & 4 != 0 {
        v.push(Castling::BK);
    }
    if cr.0 & 8 != 0 {
        v.push(Castling::BQ);
    }
    proof {
        assert(v@ =~= spec_rights_list(cr.0));
    }
    v
}

} // verus!
