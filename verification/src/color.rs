//! The colors that an entry can be shown in.

use crate::entry::CalendarEntry;
use crate::text::{chars_of, range_is};
use vstd::prelude::*;

verus! {

/// A terminal color: one of the named colors, or an entry of the palette of 256.
#[derive(Clone, Copy, Debug, PartialEq, Eq, Structural)]
pub enum Color {
    Red,
    Green,
    Blue,
    Yellow,
    Magenta,
    Ansi256(u8),
}

/// The color that a color key names. A key is matched letter for letter;
/// upper and lower case differ. Any other text, the empty text too, names no
/// color.
pub open spec fn color_of(key: Seq<char>) -> Option<Color> {
    if key == "red"@ {
        Some(Color::Red)
    } else if key == "green"@ {
        Some(Color::Green)
    } else if key == "blue"@ {
        Some(Color::Blue)
    } else if key == "yellow"@ {
        Some(Color::Yellow)
    } else if key == "pink"@ {
        Some(Color::Magenta)
    } else if key == "purple"@ {
        Some(Color::Ansi256(129))
    } else if key == "orange"@ {
        Some(Color::Ansi256(202))
    } else {
        None
    }
}

impl CalendarEntry {
    /// Looks a color key up. Every text is accepted; one that names no color
    /// gives `None`, which stands for the terminal's own foreground.
    pub fn get_color(color: &str) -> (found: Option<Color>)
        ensures
            found == color_of(color@),
    {
        let chars = chars_of(color);
        let n: usize = chars.len();
        assert(chars@.subrange(0, n as int) =~= color@);
        if range_is(&chars, 0, n, "red") {
            Some(Color::Red)
        } else if range_is(&chars, 0, n, "green") {
            Some(Color::Green)
        } else if range_is(&chars, 0, n, "blue") {
            Some(Color::Blue)
        } else if range_is(&chars, 0, n, "yellow") {
            Some(Color::Yellow)
        } else if range_is(&chars, 0, n, "pink") {
            Some(Color::Magenta)
        } else if range_is(&chars, 0, n, "purple") {
            Some(Color::Ansi256(129))
        } else if range_is(&chars, 0, n, "orange") {
            Some(Color::Ansi256(202))
        } else {
            None
        }
    }
}

} // verus!
