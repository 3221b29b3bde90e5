use vstd::prelude::*;

use crate::color::Color;

verus! {

/// One of the six faces of the cube. Each face has a fixed home color;
/// the cube is solved when every tile on every face shows that color.
#[derive(Copy, Clone, PartialEq, Eq, Structural, Debug)]
pub enum Face {
    Front,
    Top,
    Right,
    Left,
    Bottom,
    Back,
}

/// The fixed home color of a face.
pub open spec fn home_color(f: Face) -> Color {
    match f {
        Face::Front => Color::White,
        Face::Top => Color::Green,
        Face::Right => Color::Orange,
        Face::Left => Color::Red,
        Face::Bottom => Color::Blue,
        Face::Back => Color::Yellow,
    }
}

impl Face {
    /// The home color this face shows when the cube is solved.
    pub fn color(&self) -> (c: Color)
        ensures
            c == home_color(*self),
    {
        match *self {
            Face::Front => Color::White,
            Face::Top => Color::Green,
            Face::Right => Color::Orange,
            Face::Left => Color::Red,
            Face::Bottom => Color::Blue,
            Face::Back => Color::Yellow,
        }
    }

    /// All six faces, in a fixed order.
    pub fn as_vec() -> (v: Vec<Face>)
        ensures
            v@ == seq![
                Face::Front,
                Face::Top,
                Face::Right,
                Face::Left,
                Face::Bottom,
                Face::Back,
            ],
    {
        let mut v: Vec<Face> = Vec::new();
        v.push(Face::Front);
        v.push(Face::Top);
        v.push(Face::Right);
        v.push(Face::Left);
        v.push(Face::Bottom);
        v.push(Face::Back);
        proof {
            assert(v@ =~= seq![
                Face::Front,
                Face::Top,
                Face::Right,
                Face::Left,
                Face::Bottom,
                Face::Back,
            ]);
        }
        v
    }
}

} // verus!
