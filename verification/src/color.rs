use vstd::prelude::*;

verus! {

/// One of the six tile colors painted on the cube's stickers.
#[derive(Copy, Clone, PartialEq, Eq, Structural, Debug)]
pub enum Color {
    Green,
    White,
    Red,
    Orange,
    Yellow,
    Blue,
}

impl Color {
    /// Single-letter name of the color, for rendering by callers.
    pub fn letter(&self) -> (r: &'static str)
        ensures
            r@ == match *self {
                Color::Green => "G"@,
                Color::White => "W"@,
                Color::Red => "R"@,
                Color::Orange => "O"@,
                Color::Yellow => "Y"@,
                Color::Blue => "B"@,
            },
    {
        match *self {
            Color::Green => "G",
            Color::White => "W",
            Color::Red => "R",
            Color::Orange => "O",
            Color::Yellow => "Y",
            Color::Blue => "B",
        }
    }
}

} // verus!
