//! Colors for dyeable leather armor, as packed RGB values.

use vstd::prelude::*;

verus! {

/// The palette of armor colors used to tell teams apart.
#[derive(Clone, Copy, PartialEq, Eq, Structural, Debug)]
pub enum ArmorColors {
    Red,
    Orange,
    Yellow,
    Lime,
    Green,
    LightBlue,
    Cyan,
    Blue,
    Purple,
    Magenta,
    Pink,
    White,
    LightGray,
    Gray,
    Black,
    Brown,
}

impl ArmorColors {
    /// The packed 0xRRGGBB value of this color.
    pub open spec fn spec_rgb(self) -> u32 {
        match self {
            ArmorColors::Red => 11546150,
            ArmorColors::Orange => 16351261,
            ArmorColors::Yellow => 16701501,
            ArmorColors::Lime => 8439583,
            ArmorColors::Green => 6192150,
            ArmorColors::LightBlue => 3847130,
            ArmorColors::Cyan => 1481884,
            ArmorColors::Blue => 3949738,
            ArmorColors::Purple => 8991416,
            ArmorColors::Magenta => 13061821,
            ArmorColors::Pink => 15961002,
            ArmorColors::White => 16383998,
            ArmorColors::LightGray => 10329495,
            ArmorColors::Gray => 4673362,
            ArmorColors::Black => 1908001,
            ArmorColors::Brown => 8606770,
        }
    }

    /// The packed 0xRRGGBB value of this color.
    pub fn rgb(self) -> (c: u32)
        ensures
            c == self.spec_rgb(),
    {
        match self {
            ArmorColors::Red => 11546150,
            ArmorColors::Orange => 16351261,
            ArmorColors::Yellow => 16701501,
            ArmorColors::Lime => 8439583,
            ArmorColors::Green => 6192150,
            ArmorColors::LightBlue => 3847130,
            ArmorColors::Cyan => 1481884,
            ArmorColors::Blue => 3949738,
            ArmorColors::Purple => 8991416,
            ArmorColors::Magenta => 13061821,
            ArmorColors::Pink => 15961002,
            ArmorColors::White => 16383998,
            ArmorColors::LightGray => 10329495,
            ArmorColors::Gray => 4673362,
            ArmorColors::Black => 1908001,
            ArmorColors::Brown => 8606770,
        }
    }
}

} // verus!
