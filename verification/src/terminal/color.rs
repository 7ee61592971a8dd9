//! Terminal colours and what they look like.

use vstd::prelude::*;

verus! {

/// The colours that have a name.
#[derive(Clone, Copy, Debug, PartialEq, Eq, Structural)]
pub enum NamedColor {
    Black,
    Red,
    Green,
    Yellow,
    Blue,
    Magenta,
    Cyan,
    White,
    BrightBlack,
    BrightRed,
    BrightGreen,
    BrightYellow,
    BrightBlue,
    BrightMagenta,
    BrightCyan,
    BrightWhite,
    Foreground,
    Background,
    Cursor,
    DimBlack,
    DimRed,
    DimGreen,
    DimYellow,
    DimBlue,
    DimMagenta,
    DimCyan,
    DimWhite,
    BrightForeground,
    DimForeground,
}

/// The colour of a cell's text or background.
#[derive(Clone, Copy, Debug, PartialEq, Eq, Structural)]
pub enum CellColor {
    /// A named colour, by its place in the colour table.
    Named(usize),
    /// Red, green and blue.
    Spec(u8, u8, u8),
    /// One of the 256 palette colours.
    Indexed(u8),
}

/// The number of places in the colour table: the palette, then the named
/// colours that are not part of it.
pub const COLOR_TABLE_LEN: usize = 269;

/// Whether a place in the colour table belongs to a named colour.
pub open spec fn is_named_place(place: int) -> bool {
    0 <= place < 16 || 256 <= place < COLOR_TABLE_LEN
}

impl CellColor {
    /// A named colour's place is one of a named colour.
    pub open spec fn wf(self) -> bool {
        self matches CellColor::Named(place) ==> is_named_place(place as int)
    }
}

impl NamedColor {
    /// The colour's place in the colour table.
    pub open spec fn place(self) -> int {
        match self {
            NamedColor::Black => 0,
            NamedColor::Red => 1,
            NamedColor::Green => 2,
            NamedColor::Yellow => 3,
            NamedColor::Blue => 4,
            NamedColor::Magenta => 5,
            NamedColor::Cyan => 6,
            NamedColor::White => 7,
            NamedColor::BrightBlack => 8,
            NamedColor::BrightRed => 9,
            NamedColor::BrightGreen => 10,
            NamedColor::BrightYellow => 11,
            NamedColor::BrightBlue => 12,
            NamedColor::BrightMagenta => 13,
            NamedColor::BrightCyan => 14,
            NamedColor::BrightWhite => 15,
            NamedColor::Foreground => 256,
            NamedColor::Background => 257,
            NamedColor::Cursor => 258,
            NamedColor::DimBlack => 259,
            NamedColor::DimRed => 260,
            NamedColor::DimGreen => 261,
            NamedColor::DimYellow => 262,
            NamedColor::DimBlue => 263,
            NamedColor::DimMagenta => 264,
            NamedColor::DimCyan => 265,
            NamedColor::DimWhite => 266,
            NamedColor::BrightForeground => 267,
            NamedColor::DimForeground => 268,
        }
    }

    /// The named colour at a place of the colour table.
    pub fn from_place(place: usize) -> (r: NamedColor)
        requires
            is_named_place(place as int),
        ensures
            r.place() == place,
    {
        match place {
            0 => NamedColor::Black,
            1 => NamedColor::Red,
            2 => NamedColor::Green,
            3 => NamedColor::Yellow,
            4 => NamedColor::Blue,
            5 => NamedColor::Magenta,
            6 => NamedColor::Cyan,
            7 => NamedColor::White,
            8 => NamedColor::BrightBlack,
            9 => NamedColor::BrightRed,
            10 => NamedColor::BrightGreen,
            11 => NamedColor::BrightYellow,
            12 => NamedColor::BrightBlue,
            13 => NamedColor::BrightMagenta,
            14 => NamedColor::BrightCyan,
            15 => NamedColor::BrightWhite,
            256 => NamedColor::Foreground,
            257 => NamedColor::Background,
            258 => NamedColor::Cursor,
            259 => NamedColor::DimBlack,
            260 => NamedColor::DimRed,
            261 => NamedColor::DimGreen,
            262 => NamedColor::DimYellow,
            263 => NamedColor::DimBlue,
            264 => NamedColor::DimMagenta,
            265 => NamedColor::DimCyan,
            266 => NamedColor::DimWhite,
            267 => NamedColor::BrightForeground,
            _ => NamedColor::DimForeground,
        }
    }
}

/// The sixteen standard colours.
pub open spec fn standard_rgb(i: int) -> (u8, u8, u8) {
    if i == 0 {
        (0, 0, 0)
    } else if i == 1 {
        (205, 0, 0)
    } else if i == 2 {
        (0, 205, 0)
    } else if i == 3 {
        (205, 205, 0)
    } else if i == 4 {
        (0, 0, 238)
    } else if i == 5 {
        (205, 0, 205)
    } else if i == 6 {
        (0, 205, 205)
    } else if i == 7 {
        (229, 229, 229)
    } else if i == 8 {
        (127, 127, 127)
    } else if i == 9 {
        (255, 0, 0)
    } else if i == 10 {
        (0, 255, 0)
    } else if i == 11 {
        (255, 255, 0)
    } else if i == 12 {
        (92, 92, 255)
    } else if i == 13 {
        (255, 0, 255)
    } else if i == 14 {
        (0, 255, 255)
    } else {
        (255, 255, 255)
    }
}

/// The 256 palette colours: the standard ones, a cube of six levels a channel,
/// and a ramp of greys.
pub open spec fn palette_rgb(idx: u8) -> (u8, u8, u8) {
    if idx < 16 {
        standard_rgb(idx as int)
    } else if idx < 232 {
        let i = idx - 16;
        ((i / 36 * 51) as u8, (i % 36 / 6 * 51) as u8, (i % 6 * 51) as u8)
    } else {
        let g = (8 + (idx - 232) * 10) as u8;
        (g, g, g)
    }
}

/// The named colours where the terminal has not changed them.
pub open spec fn named_rgb(named: NamedColor, is_fg: bool) -> (u8, u8, u8) {
    if named.place() < 16 {
        standard_rgb(named.place())
    } else if !is_fg {
        (0, 0, 0)
    } else if named is Foreground || named is Background {
        (255, 255, 255)
    } else {
        (200, 200, 200)
    }
}

/// What a colour looks like: what the terminal's table holds for it, or else
/// its default.
pub open spec fn resolved_rgb(
    color: CellColor,
    table: Seq<Option<(u8, u8, u8)>>,
    is_fg: bool,
) -> (u8, u8, u8) {
    match color {
        CellColor::Named(place) => match table[place as int] {
            Some(rgb) => rgb,
            None => if place < 16 {
                standard_rgb(place as int)
            } else if !is_fg {
                (0, 0, 0)
            } else if place == 256 || place == 257 {
                (255, 255, 255)
            } else {
                (200, 200, 200)
            },
        },
        CellColor::Spec(r, g, b) => (r, g, b),
        CellColor::Indexed(idx) => match table[idx as int] {
            Some(rgb) => rgb,
            None => palette_rgb(idx),
        },
    }
}

/// What a cell's colour looks like, given the terminal's colour table.
pub fn resolve_color(color: &CellColor, colors: &Vec<Option<(u8, u8, u8)>>, is_fg: bool) -> (r: (
    u8,
    u8,
    u8,
))
    requires
        color.wf(),
        colors@.len() == COLOR_TABLE_LEN,
    ensures
        r == resolved_rgb(*color, colors@, is_fg),
{
    match *color {
        CellColor::Named(place) => {
            if let Some(rgb) = colors[place] {
                rgb
            } else {
                default_named_color(NamedColor::from_place(place), is_fg)
            }
        },
        CellColor::Spec(r, g, b) => (r, g, b),
        CellColor::Indexed(idx) => {
            if let Some(rgb) = colors[idx as usize] {
                rgb
            } else {
                palette_index_to_rgb(idx)
            }
        },
    }
}

/// The default look of a named colour, as text or as background.
pub fn default_named_color(named: NamedColor, is_fg: bool) -> (r: (u8, u8, u8))
    ensures
        r == named_rgb(named, is_fg),
{
    match named {
        NamedColor::Black => (0, 0, 0),
        NamedColor::Red => (205, 0, 0),
        NamedColor::Green => (0, 205, 0),
        NamedColor::Yellow => (205, 205, 0),
        NamedColor::Blue => (0, 0, 238),
        NamedColor::Magenta => (205, 0, 205),
        NamedColor::Cyan => (0, 205, 205),
        NamedColor::White => (229, 229, 229),
        NamedColor::BrightBlack => (127, 127, 127),
        NamedColor::BrightRed => (255, 0, 0),
        NamedColor::BrightGreen => (0, 255, 0),
        NamedColor::BrightYellow => (255, 255, 0),
        NamedColor::BrightBlue => (92, 92, 255),
        NamedColor::BrightMagenta => (255, 0, 255),
        NamedColor::BrightCyan => (0, 255, 255),
        NamedColor::BrightWhite => (255, 255, 255),
        NamedColor::Foreground | NamedColor::Background => {
            if is_fg {
                (255, 255, 255)
            } else {
                (0, 0, 0)
            }
        },
        _ => {
            if is_fg {
                (200, 200, 200)
            } else {
                (0, 0, 0)
            }
        },
    }
}

/// A palette colour.
pub fn palette_index_to_rgb(idx: u8) -> (r: (u8, u8, u8))
    ensures
        r == palette_rgb(idx),
{
    match idx {
        0 => (0, 0, 0),
        1 => (205, 0, 0),
        2 => (0, 205, 0),
        3 => (205, 205, 0),
        4 => (0, 0, 238),
        5 => (205, 0, 205),
        6 => (0, 205, 205),
        7 => (229, 229, 229),
        8 => (127, 127, 127),
        9 => (255, 0, 0),
        10 => (0, 255, 0),
        11 => (255, 255, 0),
        12 => (92, 92, 255),
        13 => (255, 0, 255),
        14 => (0, 255, 255),
        15 => (255, 255, 255),
        16..=231 => {
            let i: u8 = idx - 16;
            ((i / 36) * 51, ((i % 36) / 6) * 51, (i % 6) * 51)
        },
        232..=255 => {
            let g: u8 = 8 + (idx - 232) * 10;
            (g, g, g)
        },
    }
}

/// The first sixteen palette colours and the named colours at the same places
/// look alike, as text and as background.
pub proof fn lemma_palette_matches_names(named: NamedColor, is_fg: bool)
    requires
        named.place() < 16,
    ensures
        named_rgb(named, is_fg) == palette_rgb(named.place() as u8),
{
}

/// Places in the colour table tell the named colours apart.
pub proof fn lemma_places_distinct(a: NamedColor, b: NamedColor)
    requires
        a.place() == b.place(),
    ensures
        a == b,
{
}

/// Different cube colours look different.
pub proof fn lemma_cube_colors_distinct(a: u8, b: u8)
    requires
        16 <= a < 232,
        16 <= b < 232,
        palette_rgb(a) == palette_rgb(b),
    ensures
        a == b,
{
    let i = a - 16;
    let j = b - 16;
    assert(i / 36 * 51 <= 255 && i % 36 / 6 * 51 <= 255 && i % 6 * 51 <= 255);
    assert(j / 36 * 51 <= 255 && j % 36 / 6 * 51 <= 255 && j % 6 * 51 <= 255);
    assert(i == i / 36 * 36 + i % 36 && i % 36 == i % 36 / 6 * 6 + i % 6);
    assert(j == j / 36 * 36 + j % 36 && j % 36 == j % 36 / 6 * 6 + j % 6);
}

/// The standard colours are made of the channels that their number says.  Among
/// the first eight, but for black and white, red is lit where bit 0 of the
/// number is set, green where bit 1 is and blue where bit 2 is; a lit channel is
/// 205, but 238 for blue alone, and any other is 0.  The bright ones repeat this
/// with 255, and bright blue has 92 beside it.  Black, white and their bright
/// forms are greys.
pub proof fn lemma_standard_channels(i: u8)
    requires
        i < 16,
    ensures
        ({
            let (r, g, b) = palette_rgb(i);
            let n = i as int % 8;
            let lit: int = if i == 4 {
                238
            } else if i < 8 {
                205
            } else {
                255
            };
            let unlit: int = if i == 12 {
                92
            } else {
                0
            };
            &&& 1 <= n <= 6 ==> r == if n % 2 == 1 {
                lit
            } else {
                unlit
            }
            &&& 1 <= n <= 6 ==> g == if n / 2 % 2 == 1 {
                lit
            } else {
                unlit
            }
            &&& 1 <= n <= 6 ==> b == if n / 4 == 1 {
                lit
            } else {
                unlit
            }
            &&& n == 0 || n == 7 ==> r == g && g == b
            &&& i == 0 ==> r == 0
            &&& i == 7 ==> r == 229
            &&& i == 8 ==> r == 127
            &&& i == 15 ==> r == 255
        }),
{
}

/// Every named colour looks as its name says, in all three ways to ask for it:
/// by its name, by its number in the palette, and as the colour of a cell that
/// the terminal was told nothing about.  It is the same as text and as
/// background.
pub proof fn lemma_named_colors(table: Seq<Option<(u8, u8, u8)>>, is_fg: bool)
    requires
        table.len() == COLOR_TABLE_LEN,
        forall|i: int| 0 <= i < table.len() ==> #[trigger] table[i] is None,
    ensures
        named_rgb(NamedColor::Black, is_fg) == (0u8, 0u8, 0u8),
        named_rgb(NamedColor::Red, is_fg) == (205u8, 0u8, 0u8),
        named_rgb(NamedColor::Green, is_fg) == (0u8, 205u8, 0u8),
        named_rgb(NamedColor::Yellow, is_fg) == (205u8, 205u8, 0u8),
        named_rgb(NamedColor::Blue, is_fg) == (0u8, 0u8, 238u8),
        named_rgb(NamedColor::Magenta, is_fg) == (205u8, 0u8, 205u8),
        named_rgb(NamedColor::Cyan, is_fg) == (0u8, 205u8, 205u8),
        named_rgb(NamedColor::White, is_fg) == (229u8, 229u8, 229u8),
        named_rgb(NamedColor::BrightBlack, is_fg) == (127u8, 127u8, 127u8),
        named_rgb(NamedColor::BrightRed, is_fg) == (255u8, 0u8, 0u8),
        named_rgb(NamedColor::BrightGreen, is_fg) == (0u8, 255u8, 0u8),
        named_rgb(NamedColor::BrightYellow, is_fg) == (255u8, 255u8, 0u8),
        named_rgb(NamedColor::BrightBlue, is_fg) == (92u8, 92u8, 255u8),
        named_rgb(NamedColor::BrightMagenta, is_fg) == (255u8, 0u8, 255u8),
        named_rgb(NamedColor::BrightCyan, is_fg) == (0u8, 255u8, 255u8),
        named_rgb(NamedColor::BrightWhite, is_fg) == (255u8, 255u8, 255u8),
        forall|i: usize|
            i < 16 ==> #[trigger] resolved_rgb(CellColor::Named(i), table, is_fg) == palette_rgb(
                i as u8,
            ),
        forall|i: u8|
            #[trigger] resolved_rgb(CellColor::Indexed(i), table, is_fg) == palette_rgb(i),
{
}

/// The other names have one look each as text, and all are black as a
/// background: white for the text and the background colour, a light grey for
/// the rest.
pub proof fn lemma_other_names(
    named: NamedColor,
    table: Seq<Option<(u8, u8, u8)>>,
    place: usize,
)
    requires
        256 <= place < 269,
        table[place as int] is None,
        named is Foreground || named is Background || named is Cursor || named is DimBlack
            || named is DimRed || named is DimGreen || named is DimYellow || named is DimBlue
            || named is DimMagenta || named is DimCyan || named is DimWhite
            || named is BrightForeground || named is DimForeground,
    ensures
        named_rgb(named, false) == (0u8, 0u8, 0u8),
        named is Foreground || named is Background ==> named_rgb(named, true) == (
            255u8,
            255u8,
            255u8,
        ),
        !(named is Foreground || named is Background) ==> named_rgb(named, true) == (
            200u8,
            200u8,
            200u8,
        ),
        resolved_rgb(CellColor::Named(place), table, false) == (0u8, 0u8, 0u8),
        place <= 257 ==> resolved_rgb(CellColor::Named(place), table, true) == (
            255u8,
            255u8,
            255u8,
        ),
        place >= 258 ==> resolved_rgb(CellColor::Named(place), table, true) == (
            200u8,
            200u8,
            200u8,
        ),
{
}

/// The cube has six levels a channel, 51 apart: red counts 36 colours, green
/// six and blue one.  The greys behind it start at 8 and are 10 apart.
pub proof fn lemma_palette_order(r: int, g: int, b: int, k: int)
    requires
        0 <= r < 6,
        0 <= g < 6,
        0 <= b < 6,
        0 <= k < 24,
    ensures
        ({
            let c = palette_rgb((16 + 36 * r + 6 * g + b) as u8);
            c.0 == 51 * r && c.1 == 51 * g && c.2 == 51 * b
        }),
        ({
            let c = palette_rgb((232 + k) as u8);
            c.0 == 8 + 10 * k && c.1 == c.0 && c.2 == c.0
        }),
{
    let i = 36 * r + 6 * g + b;
    assert(i / 36 == r && i % 36 == 6 * g + b && (6 * g + b) / 6 == g && i % 6 == b);
}

/// A colour of red, green and blue is these three, as text and as background.
/// What the terminal was told about a colour of its table is what is shown of
/// it, and what it was told about others makes no difference.
pub proof fn lemma_what_was_told_is_shown(
    table: Seq<Option<(u8, u8, u8)>>,
    other: Seq<Option<(u8, u8, u8)>>,
    rgb: (u8, u8, u8),
    place: usize,
    idx: u8,
    is_fg: bool,
)
    ensures
        resolved_rgb(CellColor::Spec(rgb.0, rgb.1, rgb.2), table, is_fg) == rgb,
        table[place as int] == Some(rgb) ==> resolved_rgb(CellColor::Named(place), table, is_fg)
            == rgb,
        table[idx as int] == Some(rgb) ==> resolved_rgb(CellColor::Indexed(idx), table, is_fg)
            == rgb,
        table[place as int] == other[place as int] ==> resolved_rgb(
            CellColor::Named(place),
            table,
            is_fg,
        ) == resolved_rgb(CellColor::Named(place), other, is_fg),
        table[idx as int] == other[idx as int] ==> resolved_rgb(
            CellColor::Indexed(idx),
            table,
            is_fg,
        ) == resolved_rgb(CellColor::Indexed(idx), other, is_fg),
{
}

/// The colour table has the palette first, and the named colours in this order:
/// sixteen with the numbers of the palette, and thirteen behind it.
pub proof fn lemma_places_of_names(named: NamedColor)
    ensures
        NamedColor::Black.place() == 0 && NamedColor::Red.place() == 1 && NamedColor::Green.place()
            == 2 && NamedColor::Yellow.place() == 3 && NamedColor::Blue.place() == 4,
        NamedColor::Magenta.place() == 5 && NamedColor::Cyan.place() == 6
            && NamedColor::White.place() == 7 && NamedColor::BrightBlack.place() == 8,
        NamedColor::BrightRed.place() == 9 && NamedColor::BrightGreen.place() == 10
            && NamedColor::BrightYellow.place() == 11 && NamedColor::BrightBlue.place() == 12,
        NamedColor::BrightMagenta.place() == 13 && NamedColor::BrightCyan.place() == 14
            && NamedColor::BrightWhite.place() == 15,
        NamedColor::Foreground.place() == 256 && NamedColor::Background.place() == 257
            && NamedColor::Cursor.place() == 258,
        NamedColor::DimBlack.place() == 259 && NamedColor::DimRed.place() == 260
            && NamedColor::DimGreen.place() == 261 && NamedColor::DimYellow.place() == 262,
        NamedColor::DimBlue.place() == 263 && NamedColor::DimMagenta.place() == 264
            && NamedColor::DimCyan.place() == 265 && NamedColor::DimWhite.place() == 266,
        NamedColor::BrightForeground.place() == 267 && NamedColor::DimForeground.place() == 268,
        0 <= named.place() < 16 || 256 <= named.place() < 269,
{
}

} // verus!
