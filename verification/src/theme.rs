//! The colours of the board and of the keyboard, in light and in dark
//! mode.

use vstd::prelude::*;
use crate::game::GameStatus;
use crate::grade::LetterStatus;

verus! {

/// The key that submits a guess.
pub const ENTER: char = '\n';

/// The key that takes the last letter back.
pub const BACKSPACE: char = '\x08';

/// A colour of the palette, by its name.
#[derive(Clone, Copy, Debug, PartialEq, Eq, Structural)]
pub enum Shade {
    Black,
    White,
    Gray,
    DarkGray,
    Green,
    Yellow,
    DarkModeBlack,
    DarkModeWhite,
    DarkModeGray,
    DarkModeDarkGray,
    DarkModeGreen,
    DarkModeYellow,
}

impl Shade {
    /// Red, green and blue of the colour.
    pub fn rgb(self) -> (c: (u8, u8, u8))
        ensures
            c == match self {
                Shade::Black => (0u8, 0u8, 0u8),
                Shade::White => (248u8, 248u8, 248u8),
                Shade::Gray => (211u8, 214u8, 218u8),
                Shade::DarkGray => (120u8, 124u8, 126u8),
                Shade::Green => (106u8, 170u8, 100u8),
                Shade::Yellow => (201u8, 180u8, 88u8),
                Shade::DarkModeBlack => (27u8, 27u8, 27u8),
                Shade::DarkModeWhite => (255u8, 255u8, 255u8),
                Shade::DarkModeGray => (129u8, 131u8, 132u8),
                Shade::DarkModeDarkGray => (58u8, 58u8, 60u8),
                Shade::DarkModeGreen => (97u8, 140u8, 85u8),
                Shade::DarkModeYellow => (177u8, 160u8, 76u8),
            },
    {
        match self {
            Shade::Black => (0, 0, 0),
            Shade::White => (248, 248, 248),
            Shade::Gray => (211, 214, 218),
            Shade::DarkGray => (120, 124, 126),
            Shade::Green => (106, 170, 100),
            Shade::Yellow => (201, 180, 88),
            Shade::DarkModeBlack => (27, 27, 27),
            Shade::DarkModeWhite => (255, 255, 255),
            Shade::DarkModeGray => (129, 131, 132),
            Shade::DarkModeDarkGray => (58, 58, 60),
            Shade::DarkModeGreen => (97, 140, 85),
            Shade::DarkModeYellow => (177, 160, 76),
        }
    }
}

/// The colour that fills a letter key.
pub fn get_key_fill_color(dark: bool, status: &LetterStatus) -> (c: Shade)
    ensures
        c == match (dark, *status) {
            (true, LetterStatus::Unknown) => Shade::DarkModeGray,
            (true, LetterStatus::Red) => Shade::DarkModeDarkGray,
            (true, LetterStatus::Yellow) => Shade::DarkModeYellow,
            (true, LetterStatus::Green) => Shade::DarkModeGreen,
            (false, LetterStatus::Unknown) => Shade::Gray,
            (false, LetterStatus::Red) => Shade::DarkGray,
            (false, LetterStatus::Yellow) => Shade::Yellow,
            (false, LetterStatus::Green) => Shade::Green,
        },
{
    if dark {
        match status {
            LetterStatus::Unknown => Shade::DarkModeGray,
            LetterStatus::Red => Shade::DarkModeDarkGray,
            LetterStatus::Yellow => Shade::DarkModeYellow,
            LetterStatus::Green => Shade::DarkModeGreen,
        }
    } else {
        match status {
            LetterStatus::Unknown => Shade::Gray,
            LetterStatus::Red => Shade::DarkGray,
            LetterStatus::Yellow => Shade::Yellow,
            LetterStatus::Green => Shade::Green,
        }
    }
}

/// The colour of the letter on a letter key.
pub fn get_key_text_color(dark: bool, status: &LetterStatus) -> (c: Shade)
    ensures
        c == if dark {
            Shade::DarkModeWhite
        } else if *status == LetterStatus::Unknown {
            Shade::Black
        } else {
            Shade::White
        },
{
    if dark {
        Shade::DarkModeWhite
    } else {
        match status {
            LetterStatus::Unknown => Shade::Black,
            _ => Shade::White,
        }
    }
}

/// The colour that fills the enter key: it shows whether the word typed
/// can be submitted, and how the game ended.
pub fn get_enter_key_fill_color(dark: bool, status: &GameStatus, valid: bool) -> (c: Shade)
    ensures
        c == match *status {
            GameStatus::Going => if dark {
                if valid {
                    Shade::DarkModeGray
                } else {
                    Shade::DarkModeDarkGray
                }
            } else {
                if valid {
                    Shade::Gray
                } else {
                    Shade::DarkGray
                }
            },
            GameStatus::Won(_) => if dark {
                Shade::DarkModeGreen
            } else {
                Shade::Green
            },
            GameStatus::Failed(_) => if dark {
                Shade::DarkModeYellow
            } else {
                Shade::Yellow
            },
        },
{
    if dark {
        match status {
            GameStatus::Going => {
                if valid {
                    Shade::DarkModeGray
                } else {
                    Shade::DarkModeDarkGray
                }
            },
            GameStatus::Won(_) => Shade::DarkModeGreen,
            GameStatus::Failed(_) => Shade::DarkModeYellow,
        }
    } else {
        match status {
            GameStatus::Going => {
                if valid {
                    Shade::Gray
                } else {
                    Shade::DarkGray
                }
            },
            GameStatus::Won(_) => Shade::Green,
            GameStatus::Failed(_) => Shade::Yellow,
        }
    }
}

/// The colour of the text on the enter key.
pub fn get_enter_key_text_color(dark: bool, status: &GameStatus, valid: bool) -> (c: Shade)
    ensures
        c == if *status is Going {
            if dark {
                if valid {
                    Shade::DarkModeWhite
                } else {
                    Shade::DarkModeGray
                }
            } else {
                if valid {
                    Shade::Black
                } else {
                    Shade::Gray
                }
            }
        } else if dark {
            Shade::DarkModeWhite
        } else {
            Shade::White
        },
{
    if dark {
        match status {
            GameStatus::Going => {
                if valid {
                    Shade::DarkModeWhite
                } else {
                    Shade::DarkModeGray
                }
            },
            GameStatus::Won(_) | GameStatus::Failed(_) => Shade::DarkModeWhite,
        }
    } else {
        match status {
            GameStatus::Going => {
                if valid {
                    Shade::Black
                } else {
                    Shade::Gray
                }
            },
            GameStatus::Won(_) | GameStatus::Failed(_) => Shade::White,
        }
    }
}

/// The colour that fills the backspace key.
pub fn get_backspace_key_fill_color(dark: bool, status: &GameStatus) -> (c: Shade)
    ensures
        c == match *status {
            GameStatus::Going => if dark {
                Shade::DarkModeGray
            } else {
                Shade::Gray
            },
            GameStatus::Won(_) => if dark {
                Shade::DarkModeGreen
            } else {
                Shade::Green
            },
            GameStatus::Failed(_) => if dark {
                Shade::DarkModeYellow
            } else {
                Shade::Yellow
            },
        },
{
    if dark {
        match status {
            GameStatus::Going => Shade::DarkModeGray,
            GameStatus::Won(_) => Shade::DarkModeGreen,
            GameStatus::Failed(_) => Shade::DarkModeYellow,
        }
    } else {
        match status {
            GameStatus::Going => Shade::Gray,
            GameStatus::Won(_) => Shade::Green,
            GameStatus::Failed(_) => Shade::Yellow,
        }
    }
}

/// The colour of the text on the backspace key.
pub fn get_backspace_key_text_color(dark: bool, status: &GameStatus) -> (c: Shade)
    ensures
        c == if dark {
            Shade::DarkModeWhite
        } else if *status is Going {
            Shade::Black
        } else {
            Shade::White
        },
{
    if dark {
        Shade::DarkModeWhite
    } else {
        match status {
            GameStatus::Going => Shade::Black,
            GameStatus::Won(_) | GameStatus::Failed(_) => Shade::White,
        }
    }
}

/// What the enter key says: its name while the game goes on, praise
/// after a win, and the answer after a loss.
pub fn enter_key_label(status: &GameStatus) -> (label: String)
    ensures
        label@ == match *status {
            GameStatus::Going => "ENTER"@,
            GameStatus::Won(_) => "Bravo!"@,
            GameStatus::Failed(answer) => answer@,
        },
{
    match status {
        GameStatus::Going => "ENTER".to_owned(),
        GameStatus::Won(_) => "Bravo!".to_owned(),
        GameStatus::Failed(answer) => answer.clone(),
    }
}

/// What the backspace key says: its sign while the game goes on, and an
/// offer to start again after it.
pub fn backspace_key_label(status: &GameStatus) -> (label: String)
    ensures
        label@ == if *status is Going {
            "\u{232b}"@
        } else {
            "RESTART"@
        },
{
    match status {
        GameStatus::Going => "\u{232b}".to_owned(),
        GameStatus::Won(_) | GameStatus::Failed(_) => "RESTART".to_owned(),
    }
}

/// One cell of the board: a letter, if one stands there, and its verdict.
#[derive(Clone, Copy, Debug, PartialEq, Eq, Structural)]
pub struct Letter {
    pub letter: Option<char>,
    pub status: LetterStatus,
}

impl Letter {
    /// The colour of the cell's border.
    pub fn get_stroke_color(&self, dark: bool) -> (c: Shade)
        ensures
            c == if dark {
                if self.letter is Some {
                    match self.status {
                        LetterStatus::Unknown => Shade::DarkModeGray,
                        LetterStatus::Red => Shade::DarkModeDarkGray,
                        LetterStatus::Yellow => Shade::DarkModeYellow,
                        LetterStatus::Green => Shade::DarkModeGreen,
                    }
                } else {
                    Shade::DarkModeDarkGray
                }
            } else {
                if self.letter is Some {
                    match self.status {
                        LetterStatus::Unknown => Shade::DarkGray,
                        LetterStatus::Red => Shade::DarkGray,
                        LetterStatus::Yellow => Shade::Yellow,
                        LetterStatus::Green => Shade::Green,
                    }
                } else {
                    Shade::Gray
                }
            },
    {
        if dark {
            if self.letter.is_some() {
                match self.status {
                    LetterStatus::Unknown => Shade::DarkModeGray,
                    LetterStatus::Red => Shade::DarkModeDarkGray,
                    LetterStatus::Yellow => Shade::DarkModeYellow,
                    LetterStatus::Green => Shade::DarkModeGreen,
                }
            } else {
                Shade::DarkModeDarkGray
            }
        } else {
            if self.letter.is_some() {
                match self.status {
                    LetterStatus::Unknown => Shade::DarkGray,
                    LetterStatus::Red => Shade::DarkGray,
                    LetterStatus::Yellow => Shade::Yellow,
                    LetterStatus::Green => Shade::Green,
                }
            } else {
                Shade::Gray
            }
        }
    }

    /// The colour that fills the cell.
    pub fn get_fill_color(&self, dark: bool) -> (c: Shade)
        ensures
            c == if dark {
                if self.letter is Some {
                    match self.status {
                        LetterStatus::Unknown => Shade::DarkModeBlack,
                        LetterStatus::Red => Shade::DarkModeDarkGray,
                        LetterStatus::Yellow => Shade::DarkModeYellow,
                        LetterStatus::Green => Shade::DarkModeGreen,
                    }
                } else {
                    Shade::DarkModeBlack
                }
            } else {
                if self.letter is Some {
                    match self.status {
                        LetterStatus::Unknown => Shade::White,
                        LetterStatus::Red => Shade::DarkGray,
                        LetterStatus::Yellow => Shade::Yellow,
                        LetterStatus::Green => Shade::Green,
                    }
                } else {
                    Shade::White
                }
            },
    {
        if dark {
            if self.letter.is_some() {
                match self.status {
                    LetterStatus::Unknown => Shade::DarkModeBlack,
                    LetterStatus::Red => Shade::DarkModeDarkGray,
                    LetterStatus::Yellow => Shade::DarkModeYellow,
                    LetterStatus::Green => Shade::DarkModeGreen,
                }
            } else {
                Shade::DarkModeBlack
            }
        } else {
            if self.letter.is_some() {
                match self.status {
                    LetterStatus::Unknown => Shade::White,
                    LetterStatus::Red => Shade::DarkGray,
                    LetterStatus::Yellow => Shade::Yellow,
                    LetterStatus::Green => Shade::Green,
                }
            } else {
                Shade::White
            }
        }
    }

    /// The colour of the cell's letter.
    pub fn get_text_color(&self, dark: bool) -> (c: Shade)
        ensures
            c == if dark {
                Shade::DarkModeWhite
            } else if self.status == LetterStatus::Unknown {
                Shade::Black
            } else {
                Shade::White
            },
    {
        if dark {
            Shade::DarkModeWhite
        } else {
            match self.status {
                LetterStatus::Unknown => Shade::Black,
                _ => Shade::White,
            }
        }
    }
}

} // verus!
