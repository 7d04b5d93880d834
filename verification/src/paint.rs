//! Letters in the colour of their verdict, for a terminal.

use vstd::prelude::*;
use crate::grade::LetterStatus;

verus! {

/// A colour of the terminal.
#[derive(Clone, Copy, Debug, PartialEq, Eq, Structural)]
pub enum Tint {
    Black,
    Red,
    Green,
    Yellow,
    Blue,
    Magenta,
    Cyan,
    White,
    /// One of the 256 colours, by its number.
    Color256(u8),
}

/// A character with the style in which a terminal is to show it.
#[verifier::external_type_specification]
#[verifier::external_body]
#[verifier::reject_recursive_types(D)]
pub struct ExStyledObject<D>(console::StyledObject<D>);

/// What `console::style(c).fg(colour)` returns for a character and the
/// colour that stands for `tint`.
pub uninterp spec fn styled(c: char, tint: Tint) -> console::StyledObject<char>;

/// Styles a character with a foreground colour: `console::style`, then
/// `StyledObject::fg` with the colour of the same name as `tint`. The
/// result holds the character and a style with that colour and nothing
/// else set; the contract only names it.
#[verifier::external_body]
fn paint(c: char, tint: Tint) -> (r: console::StyledObject<char>)
    ensures
        r == styled(c, tint),
{
    let colour = match tint {
        Tint::Black => console::Color::Black,
        Tint::Red => console::Color::Red,
        Tint::Green => console::Color::Green,
        Tint::Yellow => console::Color::Yellow,
        Tint::Blue => console::Color::Blue,
        Tint::Magenta => console::Color::Magenta,
        Tint::Cyan => console::Color::Cyan,
        Tint::White => console::Color::White,
        Tint::Color256(n) => console::Color::Color256(n),
    };
    console::style(c).fg(colour)
}

impl LetterStatus {
    /// The colour that shows a verdict. It is gray where there is none,
    /// and red, yellow or green as the verdict is called.
    pub open spec fn tint_of(self) -> Tint {
        match self {
            LetterStatus::Unknown => Tint::Color256(102),
            LetterStatus::Red => Tint::Red,
            LetterStatus::Yellow => Tint::Yellow,
            LetterStatus::Green => Tint::Green,
        }
    }

    /// The colour of a verdict.
    #[verifier::when_used_as_spec(tint_of)]
    pub fn tint(self) -> (t: Tint)
        ensures
            t == self.tint_of(),
    {
        match self {
            LetterStatus::Unknown => Tint::Color256(102),
            LetterStatus::Red => Tint::Red,
            LetterStatus::Yellow => Tint::Yellow,
            LetterStatus::Green => Tint::Green,
        }
    }

    /// The letter `c` in the colour of this verdict.
    pub fn colored_char(&self, c: char) -> (r: console::StyledObject<char>)
        ensures
            r == styled(c, self.tint()),
    {
        paint(c, self.tint())
    }
}

} // verus!
