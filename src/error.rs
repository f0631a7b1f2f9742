//! Errors of the address codec.
use vstd::prelude::*;

verus! {

/// A character outside the callsign alphabet, at the given position.
#[derive(Clone, Copy, Debug, PartialEq, Eq)]
pub struct InvalidCharAt(pub usize);

/// A character outside the callsign alphabet.
#[derive(Clone, Copy, Debug, PartialEq, Eq)]
pub struct InvalidChar;

/// A 16-bit value that is not a valid chunk of three characters.
#[derive(Clone, Copy, Debug, PartialEq, Eq)]
pub struct InvalidChunk;

/// Why an address could not be parsed or converted.
#[derive(Clone, Copy, Debug, PartialEq, Eq, Structural)]
pub enum AddrError {
    /// The character at this position is outside the callsign alphabet.
    InvalidCharAt(usize),
    /// The callsign has more than twelve characters.
    TooLong,
    /// Text starting with `~` that is not one of the raw forms understood.
    UnsupportedNotation,
    /// A byte slice whose length is odd or above eight.
    InvalidLength,
    /// The address has no form in the requested representation.
    Unconvertible,
}

} // verus!
