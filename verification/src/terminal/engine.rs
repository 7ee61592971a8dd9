//! The terminal emulation that the screen is read from.
//!
//! The grid, the escape sequences and the colour table are those of
//! `alacritty_terminal` and its parser `vte`.  What they make of the bytes fed
//! to them has a name here, and no definition.

use crate::terminal::color::CellColor;
use crate::terminal::color::COLOR_TABLE_LEN;
use crate::terminal::stream::fed_with;
use crate::terminal::stream::has_short_colors;
use crate::terminal::stream::is_narrow;
use crate::terminal::stream::is_plain;
use crate::terminal::stream::is_regular;
use crate::terminal::stream::mended;
use alacritty_terminal::event::VoidListener;
use alacritty_terminal::index::Column;
use alacritty_terminal::index::Line;
use alacritty_terminal::term::cell::Flags;
use alacritty_terminal::term::test::TermSize;
use alacritty_terminal::term::Config;
use alacritty_terminal::term::Term;
use alacritty_terminal::vte::ansi::Color;
use alacritty_terminal::vte::ansi::Processor;
use vstd::prelude::*;

verus! {

/// The terminal of `alacritty_terminal`: grid, cursor, modes and colours.
#[verifier::external_type_specification]
#[verifier::external_body]
#[verifier::reject_recursive_types(T)]
pub struct ExTerm<T>(Term<T>);

/// The listener of `alacritty_terminal` that drops every event.
#[verifier::external_type_specification]
#[verifier::external_body]
pub struct ExVoidListener(VoidListener);

/// The escape sequence parser of `vte`, `ansi::Processor`.  It holds what is
/// left of a sequence that the bytes so far have not completed.
#[verifier::external_body]
pub struct EscapeParser {
    processor: Processor,
}

/// What a cell of the terminal's grid holds, without its colours.
#[derive(Clone, Copy, Debug)]
pub struct CellText {
    pub c: char,
    pub bold: bool,
    pub italic: bool,
    /// The cell holds a character two columns wide.
    pub wide: bool,
    /// The cell is the second column of such a character.
    pub wide_spacer: bool,
    /// The cell is left over at the end of a row that such a character did not
    /// fit in.
    pub leading_spacer: bool,
}

/// What a cell holds that nothing was written to.
pub open spec fn untouched_text() -> CellText {
    CellText {
        c: ' ',
        bold: false,
        italic: false,
        wide: false,
        wide_spacer: false,
        leading_spacer: false,
    }
}

/// How many columns a terminal was made with.
pub uninterp spec fn term_columns(term: Term<VoidListener>) -> nat;

/// How many lines a terminal was made with.
pub uninterp spec fn term_lines(term: Term<VoidListener>) -> nat;

/// What a terminal was fed since it was made, piece by piece and without empty
/// pieces.
pub uninterp spec fn term_fed(term: Term<VoidListener>) -> Seq<Seq<u8>>;

/// How many lines a terminal's display is scrolled back.
pub uninterp spec fn term_display_offset(term: Term<VoidListener>) -> nat;

/// What a parser was fed since it was made, in the same way.
pub uninterp spec fn parser_fed(parser: EscapeParser) -> Seq<Seq<u8>>;

/// What a cell holds, without its colours, in a terminal of the given size
/// that was fed `fed`.
pub uninterp spec fn terminal_text(
    columns: nat,
    lines: nat,
    fed: Seq<Seq<u8>>,
    line: int,
    column: int,
) -> CellText;

/// The text colour and the background of a cell in a terminal of the given
/// size that was fed `fed`.
pub uninterp spec fn terminal_cell_colors(
    columns: nat,
    lines: nat,
    fed: Seq<Seq<u8>>,
    line: int,
    column: int,
) -> (CellColor, CellColor);

/// What the colour table of a terminal of the given size holds after it was
/// fed `fed`, on a machine whose words have `word` bits.
pub uninterp spec fn terminal_color(
    word: nat,
    columns: nat,
    lines: nat,
    fed: Seq<Seq<u8>>,
    place: int,
) -> Option<(u8, u8, u8)>;

/// The rows and cells of a terminal of this size can be addressed.
pub open spec fn is_addressable(columns: int, lines: int) -> bool {
    &&& lines <= i32::MAX
    &&& 32 * lines <= isize::MAX
    &&& 32 * columns <= isize::MAX
    &&& 32 * (lines * columns) <= isize::MAX
}

/// There can be a terminal of this size: it has a column, or no rows, and its
/// cells can be addressed.
pub open spec fn has_size(columns: int, lines: int) -> bool {
    &&& columns >= 1 || lines == 0
    &&& is_addressable(columns, lines)
}

/// What a cell holds once plain text was written into a terminal that was fed
/// nothing else: the lines are filled one after the other.
pub open spec fn printed_text(data: Seq<u8>, columns: nat, line: int, column: int) -> CellText {
    let i = line * columns + column;
    if 0 <= i < data.len() {
        CellText { c: data[i] as char, ..untouched_text() }
    } else {
        untouched_text()
    }
}

/// `Term::new` of `alacritty_terminal`, with its default configuration and no
/// listener: a terminal that was fed nothing and is not scrolled back.  A
/// terminal with lines needs a column.
#[verifier::external_body]
pub(crate) fn term_new(columns: usize, lines: usize) -> (r: Term<VoidListener>)
    requires
        has_size(columns as int, lines as int),
    ensures
        term_columns(r) == columns,
        term_lines(r) == lines,
        term_fed(r) == Seq::<Seq<u8>>::empty(),
        term_display_offset(r) == 0,
{
    Term::new(Config::default(), &TermSize::new(columns, lines), VoidListener)
}

/// `Processor::new` of `vte`: a parser that was fed nothing.
#[verifier::external_body]
pub(crate) fn parser_new() -> (r: EscapeParser)
    ensures
        parser_fed(r) == Seq::<Seq<u8>>::empty(),
{
    EscapeParser { processor: Processor::new() }
}

/// The terminal has room for some more bytes: none at all, or there is a line
/// to write in, two columns for what may take two, and no channel of a colour
/// has more digits than a machine word holds.
pub open spec fn has_room(columns: nat, lines: nat, fed: Seq<Seq<u8>>, data: Seq<u8>) -> bool {
    data.len() == 0 || {
        &&& lines >= 1
        &&& columns >= 2 || (columns == 1 && is_narrow(fed.flatten() + data))
        &&& has_short_colors(fed.flatten() + data)
    }
}

/// `Processor::advance` of `vte`, on a terminal that was fed the same so far:
/// feeds both one more piece, unless it is empty.  The terminal keeps its size,
/// and one that is not scrolled back stays so.  There has to be a line to write
/// in, and two columns for a character that takes two.  Colours given by a
/// number sign are read into machine words, and no channel may have more digits
/// than a word holds.
#[verifier::external_body]
pub(crate) fn parser_advance(parser: &mut EscapeParser, term: &mut Term<VoidListener>, data: &[u8])
    requires
        parser_fed(*old(parser)) == term_fed(*old(term)),
        has_room(
            term_columns(*old(term)),
            term_lines(*old(term)),
            term_fed(*old(term)),
            data@,
        ),
    ensures
        parser_fed(*final(parser)) == fed_with(parser_fed(*old(parser)), data@),
        term_fed(*final(term)) == fed_with(term_fed(*old(term)), data@),
        term_columns(*final(term)) == term_columns(*old(term)),
        term_lines(*final(term)) == term_lines(*old(term)),
        term_display_offset(*old(term)) == 0 ==> term_display_offset(*final(term)) == 0,
{
    parser.processor.advance(term, data);
}

/// `Grid::display_offset` of `alacritty_terminal`: how many lines the display
/// is scrolled back.
#[verifier::external_body]
pub(crate) fn display_offset(term: &Term<VoidListener>) -> (r: usize)
    ensures
        r == term_display_offset(*term),
{
    term.grid().display_offset()
}

/// The grid of `alacritty_terminal`, indexed by line and column: the colours of
/// the cell, a function of the terminal's size and of what it was fed.  A named
/// colour is given by its place in the colour table.  Plain text has the
/// foreground and the background colour, and so has every cell it leaves alone.
/// It matters in three ways only where the pieces are cut.  A character of two
/// bytes that is cut, and followed by an ASCII character and a byte beyond
/// ASCII, takes the ASCII character with it, which is lost.  A control
/// character that is cut counts as printed, so that a control sequence may
/// repeat it.  Synchronized updates are held back, piece by piece, up to a size.
#[verifier::external_body]
pub(crate) fn grid_colors(term: &Term<VoidListener>, line: i32, column: usize) -> (r: (CellColor, CellColor))
    requires
        0 <= line < term_lines(*term),
        column < term_columns(*term),
    ensures
        r == terminal_cell_colors(
            term_columns(*term),
            term_lines(*term),
            term_fed(*term),
            line as int,
            column as int,
        ),
        is_regular(term_fed(*term)) ==> r == terminal_cell_colors(
            term_columns(*term),
            term_lines(*term),
            mended(term_fed(*term)),
            line as int,
            column as int,
        ),
        r.0.wf(),
        r.1.wf(),
        is_plain(term_fed(*term).flatten()) ==> r == (
            CellColor::Named(256),
            CellColor::Named(257),
        ),
{
    let cell = &term.grid()[Line(line)][Column(column)];
    let fg = match cell.fg {
        Color::Named(named) => CellColor::Named(named as usize),
        Color::Spec(rgb) => CellColor::Spec(rgb.r, rgb.g, rgb.b),
        Color::Indexed(idx) => CellColor::Indexed(idx),
    };
    let bg = match cell.bg {
        Color::Named(named) => CellColor::Named(named as usize),
        Color::Spec(rgb) => CellColor::Spec(rgb.r, rgb.g, rgb.b),
        Color::Indexed(idx) => CellColor::Indexed(idx),
    };
    (fg, bg)
}

/// The grid of `alacritty_terminal`, indexed by line and column: the cell's
/// character and flags, a function of the terminal's size and of what it was
/// fed.  Plain text fills the lines one after the other, as long as there are
/// lines; the other cells hold blanks without flags.  Where the pieces are cut
/// matters as it does for the colours.
#[verifier::external_body]
pub(crate) fn grid_text(term: &Term<VoidListener>, line: i32, column: usize) -> (r: CellText)
    requires
        0 <= line < term_lines(*term),
        column < term_columns(*term),
    ensures
        r == terminal_text(
            term_columns(*term),
            term_lines(*term),
            term_fed(*term),
            line as int,
            column as int,
        ),
        is_regular(term_fed(*term)) ==> r == terminal_text(
            term_columns(*term),
            term_lines(*term),
            mended(term_fed(*term)),
            line as int,
            column as int,
        ),
        is_plain(term_fed(*term).flatten()) && term_fed(*term).flatten().len() <= term_lines(*term)
            * term_columns(*term) ==> r == printed_text(
            term_fed(*term).flatten(),
            term_columns(*term),
            line as int,
            column as int,
        ),
{
    let cell = &term.grid()[Line(line)][Column(column)];
    CellText {
        c: cell.c,
        bold: cell.flags.contains(Flags::BOLD),
        italic: cell.flags.contains(Flags::ITALIC),
        wide: cell.flags.contains(Flags::WIDE_CHAR),
        wide_spacer: cell.flags.contains(Flags::WIDE_CHAR_SPACER),
        leading_spacer: cell.flags.contains(Flags::LEADING_WIDE_CHAR_SPACER),
    }
}

/// `Term::colors` of `alacritty_terminal`, indexed by place: what the terminal
/// was told that the colour looks like.  Plain text tells it nothing.  The
/// digits of a colour are read into a machine word, and of eight digits a word
/// of 32 bits keeps fewer than one of 64.  Where the pieces are cut matters as
/// it does for the cells.
#[verifier::external_body]
pub(crate) fn color_entry(term: &Term<VoidListener>, place: usize) -> (r: Option<(u8, u8, u8)>)
    requires
        place < COLOR_TABLE_LEN,
    ensures
        r == terminal_color(
            usize::BITS as nat,
            term_columns(*term),
            term_lines(*term),
            term_fed(*term),
            place as int,
        ),
        is_regular(term_fed(*term)) ==> r == terminal_color(
            usize::BITS as nat,
            term_columns(*term),
            term_lines(*term),
            mended(term_fed(*term)),
            place as int,
        ),
        is_plain(term_fed(*term).flatten()) ==> r is None,
{
    term.colors()[place].map(|rgb| (rgb.r, rgb.g, rgb.b))
}

} // verus!
