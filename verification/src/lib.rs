//! A safe, verified model of the tagged-union value type that a spreadsheet
//! host exchanges with an extension module: construction from native scalars,
//! strict and lenient coercions, grid composition (concatenation, transposition,
//! element addressing) and the ownership/release protocol.
//!
//! Floating-point numbers cross the library's boundary as the bit patterns
//! of IEEE-754 doubles, so that the verified core never computes on floats;
//! callers convert with `f64::to_bits` and `f64::from_bits` at the edge.
//! The raw host-side layout of a value, and the call into the host itself,
//! stay outside the library, which deals only in well-formed values.

use vstd::prelude::*;

pub mod builders;
pub mod coerce;
pub mod grid;
pub mod render;
pub mod text;
pub mod value;

verus! {

/// Greatest number of rows a grid value may have, mirroring the host's
/// worksheet row limit.
pub const ROW_LIMIT: usize = 1_048_576;

/// Greatest number of columns a grid value may have, mirroring the host's
/// worksheet column limit.
pub const COL_LIMIT: usize = 16_384;

/// Greatest number of UTF-16 code units a text value may hold: the host's
/// length prefix is one 16-bit unit, and one value below the full 16-bit
/// range is reserved, so texts are capped at 65,534 units.
pub const TEXT_LIMIT: usize = 65_534;

} // verus!
