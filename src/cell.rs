use vstd::prelude::*;

verus! {

/// The colour of a cell; `Default` stands for the terminal's own colour.
#[derive(Clone, Copy, Debug, PartialEq, Eq, Structural)]
pub enum Color {
    Black,
    Red,
    Green,
    Yellow,
    Blue,
    Magenta,
    Cyan,
    White,
    Byte(u8),
    Default,
}

/// The attribute combination of a cell; `Default` is no attribute.
#[derive(Clone, Copy, Debug, PartialEq, Eq, Structural)]
pub enum Attr {
    Default,
    Bold,
    Underline,
    BoldUnderline,
    Reverse,
    BoldReverse,
    UnderlineReverse,
    BoldReverseUnderline,
}

/// Foreground colour, background colour and attributes.
pub type Style = (Color, Color, Attr);

/// The style with the terminal's default colours and no attribute.
pub fn default_style() -> (r: Style)
    ensures
        r == (Color::Default, Color::Default, Attr::Default),
{
    (Color::Default, Color::Default, Attr::Default)
}

/// One character position of the grid: a glyph and its style.
#[derive(Clone, Copy, Debug, PartialEq, Eq, Structural)]
pub struct Cell {
    pub ch: char,
    pub fg: Color,
    pub bg: Color,
    pub attrs: Attr,
}

/// The glyph that stands for `c` on the grid: ASCII characters stand for
/// themselves, anything else is replaced by a question mark.
pub open spec fn glyph(c: char) -> char {
    if (c as u32) < 128 {
        c
    } else {
        '?'
    }
}

/// The cell that shows character `c` in `style`.
pub open spec fn styled(c: char, style: Style) -> Cell {
    Cell { ch: glyph(c), fg: style.0, bg: style.1, attrs: style.2 }
}

impl Cell {
    pub fn new(ch: char, fg: Color, bg: Color, attrs: Attr) -> (r: Cell)
        ensures
            r == (Cell { ch, fg, bg, attrs }),
    {
        Cell { ch, fg, bg, attrs }
    }

    /// A cell holding `ch` in the default style.
    pub fn with_char(ch: char) -> (r: Cell)
        ensures
            r == (Cell { ch, fg: Color::Default, bg: Color::Default, attrs: Attr::Default }),
    {
        Cell { ch, fg: Color::Default, bg: Color::Default, attrs: Attr::Default }
    }

    /// The cell that shows `c` in `style`, with a placeholder for non-ASCII input.
    pub fn styled(c: char, style: Style) -> (r: Cell)
        ensures
            r == styled(c, style),
    {
        let ch = if (c as u32) < 128 {
            c
        } else {
            '?'
        };
        Cell { ch, fg: style.0, bg: style.1, attrs: style.2 }
    }
}

impl Default for Cell {
    fn default() -> (r: Cell)
        ensures
            r == (Cell { ch: ' ', fg: Color::Default, bg: Color::Default, attrs: Attr::Default }),
    {
        Cell { ch: ' ', fg: Color::Default, bg: Color::Default, attrs: Attr::Default }
    }
}

} // verus!
