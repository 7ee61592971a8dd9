//! The terminal and its screen.

use crate::terminal::color::palette_rgb;
use crate::terminal::color::resolve_color;
use crate::terminal::color::resolved_rgb;
use crate::terminal::color::CellColor;
use crate::terminal::color::COLOR_TABLE_LEN;
use crate::terminal::engine::color_entry;
use crate::terminal::engine::display_offset;
use crate::terminal::engine::grid_colors;
use crate::terminal::engine::grid_text;
use crate::terminal::engine::has_room;
use crate::terminal::engine::has_size;
use crate::terminal::engine::parser_advance;
use crate::terminal::engine::parser_fed;
use crate::terminal::engine::parser_new;
use crate::terminal::engine::term_columns;
use crate::terminal::engine::term_display_offset;
use crate::terminal::engine::term_fed;
use crate::terminal::engine::term_lines;
use crate::terminal::engine::term_new;
use crate::terminal::engine::terminal_cell_colors;
use crate::terminal::engine::terminal_color;
use crate::terminal::engine::terminal_text;
use crate::terminal::engine::CellText;
use crate::terminal::engine::EscapeParser;
use crate::terminal::stream::fed_with;
use crate::terminal::stream::has_short_colors;
use crate::terminal::stream::is_plain;
use crate::terminal::stream::is_harmless_cut;
use crate::terminal::stream::is_regular;
use crate::terminal::stream::joined;
use crate::terminal::stream::lemma_cut_is_mended;
use crate::terminal::stream::lemma_fed_with;
use crate::terminal::stream::lemma_no_command;
use crate::terminal::stream::lemma_nothing_lost;
use crate::terminal::stream::lemma_which_bytes_are_narrow;
use crate::terminal::stream::loses_nothing;
use crate::terminal::stream::may_begin_wide;
use crate::terminal::stream::mended;
use crate::terminal::stream::pieces;
use crate::terminal::stream::scan_of;
use crate::terminal::stream::StreamScan;
use alacritty_terminal::event::VoidListener;
use alacritty_terminal::term::Term;
use vstd::prelude::*;

verus! {

/// The visible cells, row by row from the top.
pub struct TerminalScreen {
    pub cells: Vec<TerminalCell>,
    pub cols: usize,
    pub rows: usize,
}

/// A cell of the screen.
#[derive(Debug, Clone, Copy)]
pub struct TerminalCell {
    pub ch: char,
    pub fg_color: (u8, u8, u8),
    pub bg_color: (u8, u8, u8),
    pub bold: bool,
    pub italic: bool,
    pub wide: bool,
}

/// A blank cell: white on black.
pub open spec fn blank_cell() -> TerminalCell {
    TerminalCell {
        ch: ' ',
        fg_color: (255, 255, 255),
        bg_color: (0, 0, 0),
        bold: false,
        italic: false,
        wide: false,
    }
}

/// What cell `i` shows of plain text: the text's `i`-th character, white on
/// black.
pub open spec fn printed_cell(text: Seq<u8>, i: int) -> TerminalCell {
    if 0 <= i < text.len() {
        TerminalCell { ch: text[i] as char, ..blank_cell() }
    } else {
        blank_cell()
    }
}

impl Default for TerminalCell {
    fn default() -> (r: Self)
        ensures
            r == blank_cell(),
    {
        TerminalCell {
            ch: ' ',
            fg_color: (255, 255, 255),
            bg_color: (0, 0, 0),
            bold: false,
            italic: false,
            wide: false,
        }
    }
}

/// A failure of the emulation.  No operation fails so far.
#[derive(Debug)]
pub struct TerminalError;

/// A terminal that is fed what a program prints.
pub struct TerminalEmulator {
    term: Term<VoidListener>,
    parser: EscapeParser,
    rows: usize,
    cols: usize,
    /// What is known of the bytes that were fed.
    scan: StreamScan,
}

/// What a cell of the grid looks like, given the terminal's colour table: the
/// cells beside a wide character show a blank.
pub open spec fn displayed(
    text: CellText,
    colors: (CellColor, CellColor),
    table: Seq<Option<(u8, u8, u8)>>,
) -> TerminalCell {
    TerminalCell {
        ch: if text.wide_spacer || text.leading_spacer || text.c == '\0' {
            ' '
        } else {
            text.c
        },
        fg_color: resolved_rgb(colors.0, table, true),
        bg_color: resolved_rgb(colors.1, table, false),
        bold: text.bold,
        italic: text.italic,
        wide: text.wide,
    }
}

/// What a cell of the grid looks like, given the terminal's colour table.
pub fn display_cell(
    text: &CellText,
    fg: &CellColor,
    bg: &CellColor,
    table: &Vec<Option<(u8, u8, u8)>>,
) -> (r: TerminalCell)
    requires
        fg.wf(),
        bg.wf(),
        table@.len() == COLOR_TABLE_LEN,
    ensures
        r == displayed(*text, (*fg, *bg), table@),
{
    let is_spacer: bool = text.wide_spacer || text.leading_spacer;
    let ch: char = if is_spacer || text.c == '\0' {
        ' '
    } else {
        text.c
    };
    TerminalCell {
        ch,
        fg_color: resolve_color(fg, table, true),
        bg_color: resolve_color(bg, table, false),
        bold: text.bold,
        italic: text.italic,
        wide: text.wide,
    }
}

/// The colour table of a terminal of the given size that was fed `fed`.
pub open spec fn color_table(cols: nat, rows: nat, fed: Seq<Seq<u8>>) -> Seq<
    Option<(u8, u8, u8)>,
> {
    Seq::new(COLOR_TABLE_LEN as nat, |place: int| terminal_color(usize::BITS as nat, cols, rows, fed, place))
}

/// What a terminal of the given size shows at a line and a column after it was
/// fed `fed`.
pub open spec fn screen_cell(
    cols: nat,
    rows: nat,
    fed: Seq<Seq<u8>>,
    line: int,
    col: int,
) -> TerminalCell {
    displayed(
        terminal_text(cols, rows, fed, line, col),
        terminal_cell_colors(cols, rows, fed, line, col),
        color_table(cols, rows, fed),
    )
}

impl TerminalEmulator {
    /// Parser and terminal were fed the same, and the display is not scrolled.
    pub closed spec fn wf(self) -> bool {
        &&& term_columns(self.term) == self.cols
        &&& term_lines(self.term) == self.rows
        &&& parser_fed(self.parser) == term_fed(self.term)
        &&& term_display_offset(self.term) == 0
        &&& has_size(self.cols as int, self.rows as int)
        &&& self.scan == scan_of(term_fed(self.term).flatten())
    }

    /// The number of columns.
    pub closed spec fn columns(self) -> nat {
        self.cols as nat
    }

    /// The number of rows.
    pub closed spec fn lines(self) -> nat {
        self.rows as nat
    }

    /// What the terminal was fed, piece by piece.
    pub closed spec fn fed(self) -> Seq<Seq<u8>> {
        term_fed(self.term)
    }

    /// Whether the terminal has room for what is printed.
    pub open spec fn accepts(self, data: Seq<u8>) -> bool {
        has_room(self.columns(), self.lines(), self.fed(), data)
    }

    /// The terminal was fed plain text that fits its lines.
    pub open spec fn is_filling(self) -> bool {
        &&& is_plain(self.fed().flatten())
        &&& self.fed().flatten().len() <= self.lines() * self.columns()
    }

    /// What the terminal shows.
    pub open spec fn shows(self, screen: TerminalScreen) -> bool {
        &&& screen.cols == self.columns()
        &&& screen.rows == self.lines()
        &&& screen.cells@.len() == self.lines() * self.columns()
        &&& screen.rows * screen.cols <= usize::MAX
        &&& screen.cols + 2 <= usize::MAX
        &&& screen.rows < usize::MAX
        &&& self.holds(screen.cells@, self.lines() as int, self.fed())
        &&& is_regular(self.fed()) ==> self.holds(
            screen.cells@,
            self.lines() as int,
            mended(self.fed()),
        )
    }

    /// The first `rows` rows of cells are those of a terminal of this size that
    /// was fed `fed`.
    pub open spec fn holds(self, cells: Seq<TerminalCell>, rows: int, fed: Seq<Seq<u8>>) -> bool {
        forall|line: int, col: int|
            0 <= line < rows && 0 <= col < self.columns() ==> #[trigger] cells[line * self.columns()
                + col] == screen_cell(self.columns(), self.lines(), fed, line, col)
    }

    /// Whether there can be a terminal of this size.
    pub fn fits(cols: usize, rows: usize) -> (r: bool)
        ensures
            r == has_size(cols as int, rows as int),
    {
        let limit: u128 = isize::MAX as u128;
        assert(rows * cols <= u64::MAX * u64::MAX) by (nonlinear_arith)
            requires
                rows <= u64::MAX,
                cols <= u64::MAX,
        ;
        let total: u128 = rows as u128 * cols as u128;
        (cols >= 1 || rows == 0) && rows <= i32::MAX as usize && rows as u128 <= limit / 32
            && cols as u128 <= limit / 32 && total <= limit / 32
    }

    /// A terminal that was fed nothing.  It has a column, or no rows.
    pub fn new(cols: usize, rows: usize) -> (r: Result<Self, TerminalError>)
        requires
            has_size(cols as int, rows as int),
        ensures
            r matches Ok(e) && e.wf() && e.columns() == cols && e.lines() == rows && e.fed()
                == Seq::<Seq<u8>>::empty(),
    {
        Ok(
            TerminalEmulator {
                term: term_new(cols, rows),
                parser: parser_new(),
                rows,
                cols,
                scan: StreamScan::new(),
            },
        )
    }

    /// Whether the terminal has room for what is printed.
    pub fn accepts_output(&self, data: &[u8]) -> (r: bool)
        requires
            self.wf(),
        ensures
            r == self.accepts(data@),
    {
        if data.len() == 0 {
            return true;
        }
        let scan: StreamScan = self.scan.after(data, Ghost(self.fed().flatten()));
        self.rows >= 1 && (self.cols >= 2 || (self.cols == 1 && scan.narrow)) && scan.short_colors
    }

    /// Whether the terminal has room for all the pieces.
    pub fn accepts_pieces(&self, pending: &Vec<Vec<u8>>) -> (r: bool)
        requires
            self.wf(),
        ensures
            r == self.accepts(pieces(pending@).flatten()),
    {
        let ghost all = pieces(pending@);
        let mut scan: StreamScan = self.scan;
        let mut empty: bool = true;
        let mut i: usize = 0;
        proof {
            assert(all.take(0).flatten() == Seq::<u8>::empty());
            assert(self.fed().flatten() + all.take(0).flatten() == self.fed().flatten());
        }
        while i < pending.len()
            invariant
                self.wf(),
                all == pieces(pending@),
                i <= pending@.len(),
                scan == scan_of(self.fed().flatten() + all.take(i as int).flatten()),
                empty == (all.take(i as int).flatten().len() == 0),
            decreases pending@.len() - i,
        {
            proof {
                let so_far = all.take(i as int);
                so_far.lemma_flatten_push(all[i as int]);
                assert(so_far.push(all[i as int]) == all.take(i + 1));
                assert(self.fed().flatten() + so_far.flatten() + all[i as int]
                    == self.fed().flatten() + (so_far.flatten() + all[i as int]));
            }
            scan = scan.after(
                pending[i].as_slice(),
                Ghost(self.fed().flatten() + all.take(i as int).flatten()),
            );
            empty = empty && pending[i].len() == 0;
            i = i + 1;
        }
        assert(all.take(i as int) == all);
        empty || (self.rows >= 1 && (self.cols >= 2 || (self.cols == 1 && scan.narrow))
            && scan.short_colors)
    }

    /// Feeds the terminal what a program printed.
    pub fn process_output(&mut self, data: &[u8]) -> (r: Result<(), TerminalError>)
        requires
            old(self).wf(),
            old(self).accepts(data@),
        ensures
            r is Ok,
            final(self).wf(),
            final(self).columns() == old(self).columns(),
            final(self).lines() == old(self).lines(),
            final(self).fed() == fed_with(old(self).fed(), data@),
    {
        parser_advance(&mut self.parser, &mut self.term, data);
        self.scan = self.scan.after(data, Ghost(old(self).fed().flatten()));
        proof {
            lemma_fed_with(old(self).fed(), data@);
        }
        Ok(())
    }

    /// The terminal's colour table.
    fn read_color_table(&self) -> (r: Vec<Option<(u8, u8, u8)>>)
        ensures
            r@ == color_table(
                term_columns(self.term),
                term_lines(self.term),
                term_fed(self.term),
            ),
            is_regular(term_fed(self.term)) ==> r@ == color_table(
                term_columns(self.term),
                term_lines(self.term),
                mended(term_fed(self.term)),
            ),
            is_plain(term_fed(self.term).flatten()) ==> forall|i: int|
                0 <= i < r@.len() ==> #[trigger] r@[i] is None,
    {
        let mut table: Vec<Option<(u8, u8, u8)>> = Vec::new();
        let mut place: usize = 0;
        while place < COLOR_TABLE_LEN
            invariant
                place <= COLOR_TABLE_LEN,
                table@.len() == place,
                forall|i: int|
                    0 <= i < place ==> #[trigger] table@[i] == terminal_color(
                        usize::BITS as nat,
                        term_columns(self.term),
                        term_lines(self.term),
                        term_fed(self.term),
                        i,
                    ),
                is_regular(term_fed(self.term)) ==> forall|i: int|
                    0 <= i < place ==> #[trigger] table@[i] == terminal_color(
                        usize::BITS as nat,
                        term_columns(self.term),
                        term_lines(self.term),
                        mended(term_fed(self.term)),
                        i,
                    ),
                is_plain(term_fed(self.term).flatten()) ==> forall|i: int|
                    0 <= i < place ==> #[trigger] table@[i] is None,
            decreases COLOR_TABLE_LEN - place,
        {
            table.push(color_entry(&self.term, place));
            place = place + 1;
        }
        table
    }

    /// One more row of cells that are those of the terminal.
    proof fn lemma_one_more_row(
        self,
        before: Seq<TerminalCell>,
        cells: Seq<TerminalCell>,
        rows: int,
        fed: Seq<Seq<u8>>,
    )
        requires
            0 <= rows,
            before.len() == rows * self.columns(),
            cells.len() == before.len() + self.columns(),
            forall|i: int| 0 <= i < before.len() ==> #[trigger] cells[i] == before[i],
            self.holds(before, rows, fed),
            forall|col: int|
                0 <= col < self.columns() ==> #[trigger] cells[before.len() + col] == screen_cell(
                    self.columns(),
                    self.lines(),
                    fed,
                    rows,
                    col,
                ),
        ensures
            self.holds(cells, rows + 1, fed),
    {
        let cols = self.columns() as int;
        assert forall|l: int, col: int|
            0 <= l < rows + 1 && 0 <= col < cols implies #[trigger] cells[l * cols + col]
            == screen_cell(self.columns(), self.lines(), fed, l, col) by {
            if l < rows {
                assert(0 <= l * cols + col < rows * cols) by (nonlinear_arith)
                    requires
                        0 <= l,
                        l + 1 <= rows,
                        0 <= col < cols,
                ;
                assert(cells[l * cols + col] == before[l * cols + col]);
            } else {
                assert(cells[before.len() + col] == cells[l * cols + col]);
            }
        }
    }

    /// The screen as it is now.  Plain text shows as it was printed, and a
    /// terminal that was fed nothing is blank.
    pub fn get_screen(&self) -> (r: Result<TerminalScreen, TerminalError>)
        requires
            self.wf(),
        ensures
            r matches Ok(screen) && self.shows(screen) && (self.is_filling() ==> forall|i: int|
                0 <= i < screen.cells@.len() ==> #[trigger] screen.cells@[i] == printed_cell(
                    self.fed().flatten(),
                    i,
                )) && (self.fed().len() == 0 ==> forall|i: int|
                0 <= i < screen.cells@.len() ==> #[trigger] screen.cells@[i] == blank_cell()),
    {
        let table: Vec<Option<(u8, u8, u8)>> = self.read_color_table();
        let offset: usize = display_offset(&self.term);
        let mut cells: Vec<TerminalCell> = Vec::new();
        let mut line_idx: usize = 0;
        while line_idx < self.rows
            invariant
                self.wf(),
                offset == 0,
                line_idx <= self.rows,
                table@ == color_table(self.columns(), self.lines(), self.fed()),
                is_regular(self.fed()) ==> table@ == color_table(
                    self.columns(),
                    self.lines(),
                    mended(self.fed()),
                ),
                is_plain(self.fed().flatten()) ==> forall|i: int|
                    0 <= i < table@.len() ==> #[trigger] table@[i] is None,
                cells@.len() == line_idx * self.cols,
                self.holds(cells@, line_idx as int, self.fed()),
                is_regular(self.fed()) ==> self.holds(cells@, line_idx as int, mended(self.fed())),
                self.is_filling() ==> forall|i: int|
                    0 <= i < cells@.len() ==> #[trigger] cells@[i] == printed_cell(
                        self.fed().flatten(),
                        i,
                    ),
            decreases self.rows - line_idx,
        {
            let line: i32 = offset as i32 + line_idx as i32;
            let mut col_idx: usize = 0;
            let ghost before = cells@;
            while col_idx < self.cols
                invariant
                    self.wf(),
                    line == line_idx,
                    line_idx < self.rows,
                    col_idx <= self.cols,
                    table@ == color_table(self.columns(), self.lines(), self.fed()),
                    is_regular(self.fed()) ==> table@ == color_table(
                        self.columns(),
                        self.lines(),
                        mended(self.fed()),
                    ),
                    is_plain(self.fed().flatten()) ==> forall|i: int|
                        0 <= i < table@.len() ==> #[trigger] table@[i] is None,
                    before.len() == line_idx * self.cols,
                    cells@.len() == before.len() + col_idx,
                    forall|i: int| 0 <= i < before.len() ==> #[trigger] cells@[i] == before[i],
                    forall|col: int|
                        0 <= col < col_idx ==> #[trigger] cells@[before.len() + col]
                            == screen_cell(
                            self.columns(),
                            self.lines(),
                            self.fed(),
                            line_idx as int,
                            col,
                        ),
                    is_regular(self.fed()) ==> forall|col: int|
                        0 <= col < col_idx ==> #[trigger] cells@[before.len() + col]
                            == screen_cell(
                            self.columns(),
                            self.lines(),
                            mended(self.fed()),
                            line_idx as int,
                            col,
                        ),
                    self.is_filling() ==> forall|i: int|
                        0 <= i < cells@.len() ==> #[trigger] cells@[i] == printed_cell(
                            self.fed().flatten(),
                            i,
                        ),
                decreases self.cols - col_idx,
            {
                let text: CellText = grid_text(&self.term, line, col_idx);
                let (fg, bg): (CellColor, CellColor) = grid_colors(&self.term, line, col_idx);
                cells.push(display_cell(&text, &fg, &bg, &table));
                col_idx = col_idx + 1;
            }
            proof {
                self.lemma_one_more_row(before, cells@, line_idx as int, self.fed());
                if is_regular(self.fed()) {
                    self.lemma_one_more_row(before, cells@, line_idx as int, mended(self.fed()));
                }
                assert(line_idx * self.cols + self.cols == (line_idx + 1) * self.cols)
                    by (nonlinear_arith);
            }
            line_idx = line_idx + 1;
        }
        assert(self.fed().len() == 0 ==> self.fed().flatten() == Seq::<u8>::empty());
        Ok(TerminalScreen { cells, cols: self.cols, rows: self.rows })
    }
}

/// Two screens that hold the same are the same.
proof fn lemma_same_cells(
    a: TerminalEmulator,
    b: TerminalEmulator,
    first: Seq<TerminalCell>,
    second: Seq<TerminalCell>,
    fed: Seq<Seq<u8>>,
)
    requires
        a.columns() == b.columns(),
        a.lines() == b.lines(),
        first.len() == a.lines() * a.columns(),
        second.len() == a.lines() * a.columns(),
        a.holds(first, a.lines() as int, fed),
        b.holds(second, b.lines() as int, fed),
    ensures
        first == second,
{
    let cols = a.columns() as int;
    assert forall|i: int| 0 <= i < first.len() implies first[i] == second[i] by {
        assert(cols > 0) by (nonlinear_arith)
            requires
                0 <= i < a.lines() * cols,
                cols >= 0,
        ;
        let line = i / cols;
        let col = i % cols;
        vstd::arithmetic::div_mod::lemma_fundamental_div_mod(i, cols);
        assert(cols * a.lines() == a.lines() * cols) by (nonlinear_arith);
        vstd::arithmetic::div_mod::lemma_multiply_divide_lt(i, cols, a.lines() as int);
        assert(cols * line == line * cols) by (nonlinear_arith);
        assert(first[line * cols + col] == second[line * cols + col]);
    }
    assert(first =~= second);
}

/// What a terminal shows follows from its size and from what it was fed: two
/// terminals that agree in these show the same.
pub proof fn lemma_same_output_same_screen(
    a: TerminalEmulator,
    b: TerminalEmulator,
    first: TerminalScreen,
    second: TerminalScreen,
)
    requires
        a.shows(first),
        b.shows(second),
        a.columns() == b.columns(),
        a.lines() == b.lines(),
        a.fed() == b.fed(),
    ensures
        first.cols == second.cols,
        first.rows == second.rows,
        first.cells@ == second.cells@,
{
    lemma_same_cells(a, b, first.cells@, second.cells@, a.fed());
}

/// It does not matter where the output is cut: two terminals of the same size
/// that were fed the same bytes in other pieces show the same.  Left out are
/// synchronized updates, cuts at which a byte is lost, and control characters
/// that a cut parts where a control sequence repeats characters.
pub proof fn lemma_cuts_do_not_matter(
    a: TerminalEmulator,
    b: TerminalEmulator,
    first: TerminalScreen,
    second: TerminalScreen,
)
    requires
        a.shows(first),
        b.shows(second),
        a.columns() == b.columns(),
        a.lines() == b.lines(),
        a.fed().flatten() == b.fed().flatten(),
        is_regular(a.fed()),
        is_regular(b.fed()),
        loses_nothing(a.fed()),
        loses_nothing(b.fed()),
    ensures
        first.cols == second.cols,
        first.rows == second.rows,
        first.cells@ == second.cells@,
{
    lemma_nothing_lost(a.fed());
    lemma_nothing_lost(b.fed());
    assert(joined(a.fed()) == joined(b.fed()));
    lemma_same_cells(a, b, first.cells@, second.cells@, joined(a.fed()));
}

/// Output may come in one piece or two: from the same state, a terminal that is
/// fed `x` and then `y` shows what one shows that is fed both at once.  Bytes
/// that were lost before make no difference.  Left out is the same as above, of
/// the new cut alone where bytes are lost.
pub proof fn lemma_one_piece_or_two(
    before: TerminalEmulator,
    twice: TerminalEmulator,
    once: TerminalEmulator,
    x: Seq<u8>,
    y: Seq<u8>,
    first: TerminalScreen,
    second: TerminalScreen,
)
    requires
        twice.columns() == before.columns(),
        once.columns() == before.columns(),
        twice.lines() == before.lines(),
        once.lines() == before.lines(),
        twice.fed() == fed_with(fed_with(before.fed(), x), y),
        once.fed() == fed_with(before.fed(), x + y),
        twice.shows(first),
        once.shows(second),
        is_regular(twice.fed()),
        is_regular(once.fed()),
        is_harmless_cut(before.fed().flatten(), x, y),
    ensures
        first.cols == second.cols,
        first.rows == second.rows,
        first.cells@ == second.cells@,
{
    lemma_cut_is_mended(before.fed(), x, y);
    lemma_same_cells(twice, once, first.cells@, second.cells@, mended(once.fed()));
}

/// The colours that a cell shows depend on its colours and on the colour table
/// alone: cells with the same text colour show the same one, whatever their
/// characters, flags and backgrounds are, and so for the background.
pub proof fn lemma_colors_shown(
    a: CellText,
    b: CellText,
    fg: CellColor,
    bg: CellColor,
    other: CellColor,
    table: Seq<Option<(u8, u8, u8)>>,
)
    ensures
        displayed(a, (fg, bg), table).fg_color == displayed(b, (fg, other), table).fg_color,
        displayed(a, (fg, bg), table).bg_color == displayed(b, (other, bg), table).bg_color,
        fg matches CellColor::Spec(red, green, blue) ==> displayed(a, (fg, bg), table).fg_color == (
            red,
            green,
            blue,
        ),
        bg matches CellColor::Spec(red, green, blue) ==> displayed(a, (fg, bg), table).bg_color == (
            red,
            green,
            blue,
        ),
        fg matches CellColor::Indexed(i) ==> displayed(a, (fg, bg), table).fg_color
            == match table[i as int] {
            Some(rgb) => rgb,
            None => palette_rgb(i),
        },
        bg matches CellColor::Indexed(i) ==> displayed(a, (fg, bg), table).bg_color
            == match table[i as int] {
            Some(rgb) => rgb,
            None => palette_rgb(i),
        },
        fg matches CellColor::Named(i) ==> table[i as int] is None ==> i < 16 ==> displayed(
            a,
            (fg, bg),
            table,
        ).fg_color == palette_rgb(i as u8),
        bg matches CellColor::Named(i) ==> table[i as int] is None ==> i < 16 ==> displayed(
            a,
            (fg, bg),
            table,
        ).bg_color == palette_rgb(i as u8),
        fg matches CellColor::Named(i) ==> (table[i as int] matches Some(rgb) ==> displayed(
            a,
            (fg, bg),
            table,
        ).fg_color == rgb),
        bg matches CellColor::Named(i) ==> (table[i as int] matches Some(rgb) ==> displayed(
            a,
            (fg, bg),
            table,
        ).bg_color == rgb),
        fg == CellColor::Named(256) && table[256] is None ==> displayed(a, (fg, bg), table).fg_color
            == (255u8, 255u8, 255u8),
        bg == CellColor::Named(257) && table[257] is None ==> displayed(a, (fg, bg), table).bg_color
            == (0u8, 0u8, 0u8),
{
}

/// What else a cell shows depends on its character and flags alone.  Weight,
/// slant and width are its own.  It shows its character, or a blank where it
/// stands beside a wide one or holds none; no two other characters look alike.
pub proof fn lemma_text_shown(
    text: CellText,
    colors: (CellColor, CellColor),
    table: Seq<Option<(u8, u8, u8)>>,
)
    ensures
        ({
            let cell = displayed(text, colors, table);
            &&& cell.bold == text.bold
            &&& cell.italic == text.italic
            &&& cell.wide == text.wide
            &&& text.wide_spacer ==> cell.ch as u32 == 0x20
            &&& text.leading_spacer ==> cell.ch as u32 == 0x20
            &&& text.c as u32 == 0 ==> cell.ch as u32 == 0x20
            &&& !text.wide_spacer && !text.leading_spacer && text.c as u32 != 0 ==> cell.ch == text.c
        }),
{
}

/// The screen is the grid, row by row: the cell at a row and a column shows what
/// the grid holds there, in the colours that the grid gives it.
pub proof fn lemma_screen_is_the_grid(e: TerminalEmulator, screen: TerminalScreen, row: int, col: int)
    requires
        e.shows(screen),
        0 <= row < e.lines(),
        0 <= col < e.columns(),
    ensures
        screen.cols == e.columns(),
        screen.rows == e.lines(),
        screen.cells@.len() == e.lines() * e.columns(),
        0 <= row * e.columns() + col < screen.cells@.len(),
        ({
            let cell = screen.cells@[row * e.columns() + col];
            let text = terminal_text(e.columns(), e.lines(), e.fed(), row, col);
            let colors = terminal_cell_colors(e.columns(), e.lines(), e.fed(), row, col);
            let spaced = text.wide_spacer || text.leading_spacer || text.c as u32 == 0;
            &&& cell.bold == text.bold && cell.italic == text.italic && cell.wide == text.wide
            &&& spaced ==> cell.ch as u32 == 0x20
            &&& !spaced ==> cell.ch == text.c
            &&& colors.0 matches CellColor::Spec(red, green, blue) ==> cell.fg_color == (
                red,
                green,
                blue,
            )
            &&& colors.1 matches CellColor::Spec(red, green, blue) ==> cell.bg_color == (
                red,
                green,
                blue,
            )
            &&& colors.0 matches CellColor::Indexed(i) ==> cell.fg_color == match terminal_color(
                usize::BITS as nat,
                e.columns(),
                e.lines(),
                e.fed(),
                i as int,
            ) {
                Some(rgb) => rgb,
                None => palette_rgb(i),
            }
            &&& colors.1 matches CellColor::Indexed(i) ==> cell.bg_color == match terminal_color(
                usize::BITS as nat,
                e.columns(),
                e.lines(),
                e.fed(),
                i as int,
            ) {
                Some(rgb) => rgb,
                None => palette_rgb(i),
            }
            &&& colors.0 matches CellColor::Named(i) ==> i < 269 ==> cell.fg_color
                == match terminal_color(
                usize::BITS as nat,
                e.columns(),
                e.lines(),
                e.fed(),
                i as int,
            ) {
                Some(rgb) => rgb,
                None => if i < 16 {
                    palette_rgb(i as u8)
                } else if i < 258 {
                    (255u8, 255u8, 255u8)
                } else {
                    (200u8, 200u8, 200u8)
                },
            } || 16 <= i < 256
            &&& colors.1 matches CellColor::Named(i) ==> i < 269 ==> cell.bg_color
                == match terminal_color(
                usize::BITS as nat,
                e.columns(),
                e.lines(),
                e.fed(),
                i as int,
            ) {
                Some(rgb) => rgb,
                None => if i < 16 {
                    palette_rgb(i as u8)
                } else {
                    (0u8, 0u8, 0u8)
                },
            }
        }),
{
    let cols = e.columns() as int;
    assert(0 <= row * cols + col < e.lines() * cols) by (nonlinear_arith)
        requires
            0 <= row,
            row + 1 <= e.lines(),
            0 <= col < cols,
    ;
    assert(screen.cells@[row * cols + col] == screen_cell(
        e.columns(),
        e.lines(),
        e.fed(),
        row,
        col,
    ));
}

/// A blank cell is a space, white on black, and plain text shows its characters
/// one after the other in cells that are otherwise blank.
pub proof fn lemma_plain_cells(text: Seq<u8>, i: int)
    ensures
        ({
            let cell = printed_cell(text, i);
            &&& 0 <= i < text.len() ==> cell.ch as u32 == text[i]
            &&& i < 0 || i >= text.len() ==> cell.ch as u32 == 0x20
            &&& cell.fg_color == (255u8, 255u8, 255u8) && cell.bg_color == (0u8, 0u8, 0u8)
            &&& !cell.bold && !cell.italic && !cell.wide
        }),
        blank_cell().ch as u32 == 0x20,
        blank_cell().fg_color == (255u8, 255u8, 255u8),
        blank_cell().bg_color == (0u8, 0u8, 0u8),
        !blank_cell().bold && !blank_cell().italic && !blank_cell().wide,
{
}

/// Which terminals there can be: with a column, or without rows, and small
/// enough to address 32 bytes for each row, for each column and for each cell.
/// What fits still fits with fewer rows.
pub proof fn lemma_which_terminals_fit(cols: int, rows: int, fewer: int)
    requires
        0 <= cols,
        0 <= fewer <= rows,
    ensures
        has_size(cols, rows) <==> {
            &&& cols > 0 || rows == 0
            &&& rows < 0x8000_0000
            &&& rows * 32 <= isize::MAX
            &&& cols * 32 <= isize::MAX
            &&& rows * cols * 32 <= isize::MAX
        },
        has_size(cols, rows) ==> has_size(cols, fewer),
{
    assert(fewer * cols <= rows * cols) by (nonlinear_arith)
        requires
            fewer <= rows,
            0 <= cols,
    ;
}

/// When there is room for what is printed.  Nothing always has room, and in a
/// terminal without rows or columns nothing else has.  Text without escape
/// characters has room in two columns, and in one if it is ASCII; a character
/// that may be wide has none there.  Nowhere has a colour that is too long.
pub proof fn lemma_when_there_is_room(cols: nat, rows: nat, fed: Seq<Seq<u8>>, data: Seq<u8>, i: int)
    ensures
        data.len() == 0 ==> has_room(cols, rows, fed, data),
        data.len() > 0 && (rows == 0 || cols == 0) ==> !has_room(cols, rows, fed, data),
        rows > 0 && cols > 1 && !(fed.flatten() + data).contains(0x1B) ==> has_room(
            cols,
            rows,
            fed,
            data,
        ),
        rows > 0 && cols == 1 && !(fed.flatten() + data).contains(0x1B) && (forall|k: int|
            0 <= k < fed.flatten().len() + data.len() ==> #[trigger] (fed.flatten() + data)[k] < 0x80)
            ==> has_room(cols, rows, fed, data),
        data.len() > 0 && cols == 1 && 0 <= i && i + 1 < fed.flatten().len() + data.len()
            && may_begin_wide((fed.flatten() + data)[i], (fed.flatten() + data)[i + 1]) ==> !has_room(
            cols,
            rows,
            fed,
            data,
        ),
        data.len() > 0 && !has_short_colors(fed.flatten() + data) ==> !has_room(
            cols,
            rows,
            fed,
            data,
        ),
        data.len() > 0 && rows > 0 && cols > 1 && has_short_colors(fed.flatten() + data)
            ==> has_room(cols, rows, fed, data),
{
    let all = fed.flatten() + data;
    if !all.contains(0x1B) {
        lemma_no_command(all);
    }
    lemma_which_bytes_are_narrow(all, i);
}

} // verus!
