use vstd::prelude::*;

verus! {

/// A closed set of terminal color tags. `Default` means "no color": the
/// compositor emits an escape only when the tag of a cell differs from the
/// tag of the previously emitted cell.
#[derive(Clone, Copy, Debug, PartialEq, Eq, Structural)]
pub enum AnsiColor {
    Default,
    AliceBlue,
    Silver,
    White,
    Black,
}

/// Ordering byte for a tag, used only for the band comparisons behind the
/// escape table. `AliceBlue` and `Silver` share a value, so distinct tags
/// alias under this ordering; the aliasing is observable in the output and
/// deliberate.
pub open spec fn spec_to_byte(c: AnsiColor) -> u8 {
    match c {
        AnsiColor::Default => 0,
        AnsiColor::Black => 1,
        AnsiColor::AliceBlue => 7,
        AnsiColor::White => 8,
        AnsiColor::Silver => 7,
    }
}

/// The tag each color name stands for.
pub const COLOR_NAMES: [(&'static str, AnsiColor); 5] = [
    ("default", AnsiColor::Default),
    ("aliceblue", AnsiColor::AliceBlue),
    ("silver", AnsiColor::Silver),
    ("black", AnsiColor::Black),
    ("white", AnsiColor::White),
];

impl AnsiColor {
    pub fn to_byte(&self) -> (b: u8)
        ensures
            b == spec_to_byte(*self),
    {
        match self {
            AnsiColor::Default => 0,
            AnsiColor::Black => 1,
            AnsiColor::AliceBlue => 7,
            AnsiColor::White => 8,
            AnsiColor::Silver => 7,
        }
    }

    /// The escape sequence a tag renders to. All non-default tags with
    /// ordering byte at most 8 collapse to the same white escape, so only
    /// three sequences are reachable from the tag set.
    pub open spec fn spec_escape(self) -> Seq<char> {
        if self == AnsiColor::Default {
            "\u{1b}[0m"@
        } else if self == AnsiColor::Black {
            "\u{1b}[30m"@
        } else {
            "\u{1b}[37m"@
        }
    }

    pub fn escape(&self) -> (s: String)
        ensures
            s@ == self.spec_escape(),
    {
        match self {
            AnsiColor::Default => "\u{1b}[0m".to_owned(),
            AnsiColor::Black => "\u{1b}[30m".to_owned(),
            _ => "\u{1b}[37m".to_owned(),
        }
    }
}

} // verus!
