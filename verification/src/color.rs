//! Concrete color values.

use vstd::prelude::*;

verus! {

/// A concrete color: red, green and blue channels as `0..=255` integers,
/// and the alpha channel carried as the bit pattern of an IEEE 754
/// single-precision value in `0.0..=1.0`.  The engine never computes with
/// the alpha channel; it is opaque payload, so the raw bits preserve the
/// value exactly and make equality structural.
#[derive(Clone, Copy, Debug, PartialEq, Eq, Structural, Hash)]
pub struct Color(pub u8, pub u8, pub u8, pub u32);

/// The bit pattern of the IEEE 754 single-precision value `1.0`,
/// the default alpha channel (fully opaque).
pub const OPAQUE_ALPHA: u32 = 0x3F80_0000;

impl Color {
    /// The default color: opaque black.
    pub fn black() -> (r: Color)
        ensures
            r == (Color(0, 0, 0, OPAQUE_ALPHA)),
    {
        Color(0, 0, 0, OPAQUE_ALPHA)
    }
}

impl Default for Color {
    /// The default color: opaque black.
    fn default() -> (r: Color)
        ensures
            r == (Color(0, 0, 0, OPAQUE_ALPHA)),
    {
        Color::black()
    }
}

} // verus!
