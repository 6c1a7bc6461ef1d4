//! Colours, by the keys of their three channels.
use crate::scalar::Scalar;
use vstd::prelude::*;

verus! {

/// The key of `0.9999999`, the largest value that a channel is written with.
pub const CHANNEL_CEILING: Scalar = 0x3FEF_FFFF_CA50_1ACB;

/// A colour: how much red, green and blue light.
#[derive(Clone, Copy, Debug, PartialEq, Eq, Structural)]
pub struct Color {
    pub red: Scalar,
    pub green: Scalar,
    pub blue: Scalar,
}

/// A channel cut down to the range from zero to [`CHANNEL_CEILING`]; what
/// is no number becomes zero.
pub open spec fn clamped(value: Scalar) -> Scalar {
    if !crate::scalar::is_number(value) || value < 0 {
        0
    } else if value > CHANNEL_CEILING {
        CHANNEL_CEILING
    } else {
        value
    }
}

/// Cuts a channel down to the range that can be written.
pub fn clamp_channel(value: Scalar) -> (out: Scalar)
    ensures
        out == clamped(value),
        0 <= out <= CHANNEL_CEILING,
{
    if crate::scalar::is_nan(value) || value < crate::scalar::ZERO {
        crate::scalar::ZERO
    } else if value > CHANNEL_CEILING {
        CHANNEL_CEILING
    } else {
        value
    }
}

impl Color {
    /// No light at all.
    pub open spec fn is_black(self) -> bool {
        self.red == 0 && self.green == 0 && self.blue == 0
    }

    /// The colour with the given channels.
    pub fn new(red: Scalar, green: Scalar, blue: Scalar) -> (color: Color)
        ensures
            color == (Color { red, green, blue }),
    {
        Color { red, green, blue }
    }

    /// The colour of no light: every channel zero.
    pub fn black() -> (color: Color)
        ensures
            color == (Color { red: 0, green: 0, blue: 0 }),
    {
        Color { red: crate::scalar::ZERO, green: crate::scalar::ZERO, blue: crate::scalar::ZERO }
    }

    /// The colour that attenuates nothing: every channel one.
    pub fn white() -> (color: Color)
        ensures
            color == (Color {
                red: crate::scalar::ONE,
                green: crate::scalar::ONE,
                blue: crate::scalar::ONE,
            }),
    {
        Color { red: crate::scalar::ONE, green: crate::scalar::ONE, blue: crate::scalar::ONE }
    }

    /// The colour with each channel cut down to the range that can be written.
    pub fn clamp(&self) -> (color: Color)
        ensures
            color == (Color {
                red: clamped(self.red),
                green: clamped(self.green),
                blue: clamped(self.blue),
            }),
    {
        Color {
            red: clamp_channel(self.red),
            green: clamp_channel(self.green),
            blue: clamp_channel(self.blue),
        }
    }
}

} // verus!
