use vstd::prelude::*;

verus! {

/// The failures the library reports. Parsing rejects exactly the
/// malformed inputs, carrying the offending byte and its offset;
/// `Encode` is returned when a packed nibble does not name a piece.
#[derive(Debug, Clone, Copy, PartialEq, Eq, Structural)]
pub enum Error {
    Deserialization { invalid_byte: u8, pos: usize },
    Encode { value: u8 },
}

} // verus!
