//! Highlighting categories and the colours they are drawn in.

use vstd::prelude::*;

verus! {

/// The category that one character of a line is drawn in.
#[derive(PartialEq, Eq, Clone, Copy, Debug, Structural)]
pub enum Type {
    Plain,
    Number,
    Match,
    String,
    Char,
    Comment,
    PrimaryKeyword,
    SecondaryKeyword,
}

/// A true-colour value: red, green and blue.
#[derive(PartialEq, Eq, Clone, Copy, Debug, Structural)]
pub struct Rgb(pub u8, pub u8, pub u8);

impl Type {
    /// The colour of each category.
    pub open spec fn color(self) -> Rgb {
        match self {
            Type::Comment => Rgb(133, 153, 0),
            Type::Number => Rgb(220, 163, 163),
            Type::Match => Rgb(38, 139, 210),
            Type::String => Rgb(211, 54, 130),
            Type::Char => Rgb(108, 113, 196),
            Type::PrimaryKeyword => Rgb(181, 137, 0),
            Type::SecondaryKeyword => Rgb(42, 161, 152),
            Type::Plain => Rgb(230, 230, 230),
        }
    }

    pub fn to_color(self) -> (c: Rgb)
        ensures
            c == self.color(),
    {
        match self {
            Type::Comment => Rgb(133, 153, 0),
            Type::Number => Rgb(220, 163, 163),
            Type::Match => Rgb(38, 139, 210),
            Type::String => Rgb(211, 54, 130),
            Type::Char => Rgb(108, 113, 196),
            Type::PrimaryKeyword => Rgb(181, 137, 0),
            Type::SecondaryKeyword => Rgb(42, 161, 152),
            _ => Rgb(230, 230, 230),
        }
    }
}

} // verus!
