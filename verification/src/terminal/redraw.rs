//! What holds of drawing as a whole: cells tile the picture, drawing a screen
//! twice changes nothing, and redrawing what changed gives the same picture as
//! drawing everything.

use crate::framebuffer::Color;
use crate::single::lemma_edge_monotone;
use crate::single::lemma_first_edge;
use crate::single::Single;
use crate::terminal::boxes::lemma_shape_stays_in_cell;
use crate::terminal::boxes::shape_of;
use crate::terminal::emulator::TerminalCell;
use crate::terminal::emulator::TerminalScreen;
use crate::terminal::renderer::column_count;
use crate::terminal::renderer::is_box_char;
use crate::terminal::renderer::TerminalRenderer;
use vstd::prelude::*;

verus! {

/// Cells that are neighbours in a row or a column share an edge.
pub proof fn lemma_neighbours_share_edges(r: TerminalRenderer, col: nat, row: nat)
    ensures
        r.rect(col, row, 1).x + r.rect(col, row, 1).w == r.rect(col + 1, row, 1).x,
        r.rect(col, row, 1).y + r.rect(col, row, 1).h == r.rect(col, row + 1, 1).y,
        r.rect(col, row, 2).w == r.rect(col, row, 1).w + r.rect(col + 1, row, 1).w,
{
    lemma_edge_monotone(r.cell_width, col, col + 1);
    lemma_edge_monotone(r.cell_width, col + 1, col + 2);
    lemma_edge_monotone(r.cell_width, col, col + 2);
    lemma_edge_monotone(r.cell_height, row, row + 1);
}

/// A pixel lies in a cell when it lies between the cell's edges.
proof fn lemma_contains(r: TerminalRenderer, col: nat, row: nat, px: int, py: int)
    ensures
        r.rect(col, row, 1).contains(px, py) <==> {
            &&& r.cell_width.edge(col) <= px < r.cell_width.edge(col + 1)
            &&& r.cell_height.edge(row) <= py < r.cell_height.edge(row + 1)
        },
{
    lemma_edge_monotone(r.cell_width, col, col + 1);
    lemma_edge_monotone(r.cell_height, row, row + 1);
}

/// No pixel lies in two cells.
pub proof fn lemma_cells_disjoint(
    r: TerminalRenderer,
    col1: nat,
    row1: nat,
    col2: nat,
    row2: nat,
    px: int,
    py: int,
)
    requires
        r.rect(col1, row1, 1).contains(px, py),
        r.rect(col2, row2, 1).contains(px, py),
    ensures
        col1 == col2,
        row1 == row2,
{
    lemma_contains(r, col1, row1, px, py);
    lemma_contains(r, col2, row2, px, py);
    if col1 < col2 {
        lemma_edge_monotone(r.cell_width, col1 + 1, col2);
    }
    if col2 < col1 {
        lemma_edge_monotone(r.cell_width, col2 + 1, col1);
    }
    if row1 < row2 {
        lemma_edge_monotone(r.cell_height, row1 + 1, row2);
    }
    if row2 < row1 {
        lemma_edge_monotone(r.cell_height, row2 + 1, row1);
    }
}

/// Between the first edge and edge `n` every position lies in one of `n` cells.
proof fn lemma_edges_cover(size: Single, n: nat, p: int) -> (i: nat)
    requires
        0 <= p < size.edge(n),
    ensures
        i < n,
        size.edge(i) <= p < size.edge(i + 1),
    decreases n,
{
    lemma_first_edge(size);
    let m = (n - 1) as nat;
    if size.edge(m) <= p {
        m
    } else {
        lemma_edges_cover(size, m, p)
    }
}

/// The cells of a grid leave no gap: every pixel left of the last column's
/// right edge and above the last row's bottom edge lies in one of them.
pub proof fn lemma_cells_cover(r: TerminalRenderer, cols: nat, rows: nat, px: int, py: int) -> (at: (
    nat,
    nat,
))
    requires
        0 <= px < r.cell_width.edge(cols),
        0 <= py < r.cell_height.edge(rows),
    ensures
        at.0 < cols,
        at.1 < rows,
        r.rect(at.0, at.1, 1).contains(px, py),
{
    let col = lemma_edges_cover(r.cell_width, cols, px);
    let row = lemma_edges_cover(r.cell_height, rows, py);
    lemma_contains(r, col, row, px, py);
    (col, row)
}

/// Where no cell is to be drawn, drawing changes nothing.
proof fn lemma_nothing_drawn(
    r: TerminalRenderer,
    screen: TerminalScreen,
    n: nat,
    px: int,
    py: int,
    start: Color,
)
    requires
        forall|i: int| 0 <= i < n ==> !#[trigger] r.is_drawn(screen, i),
    ensures
        r.drawn(screen, n, px, py, start) == start,
    decreases n,
{
    if n > 0 {
        assert(!r.is_drawn(screen, n - 1));
        lemma_nothing_drawn(r, screen, (n - 1) as nat, px, py, start);
    }
}

/// Drawing a screen that was just drawn changes no pixel.
pub proof fn lemma_redraw_is_idle(
    r: TerminalRenderer,
    screen: TerminalScreen,
    px: int,
    py: int,
    before: Color,
)
    requires
        screen.cells@.len() <= screen.rows * screen.cols,
        r.prev_cells@ == TerminalRenderer::remembered(screen),
    ensures
        r.rendered(screen, px, py, before) == before,
{
    let total = (screen.rows * screen.cols) as nat;
    assert(r.prev_cells@.len() == total);
    assert forall|i: int| 0 <= i < total implies !#[trigger] r.is_drawn(screen, i) by {}
    lemma_nothing_drawn(r, screen, total, px, py, before);
}

/// The cell's character is drawn in its one or two columns alone.  Glyphs are
/// cut off there; a shape needs three by three pixels, and an emoji's picture
/// may be too large.
pub open spec fn is_contained(r: TerminalRenderer, cell: TerminalCell, col: nat, row: nat) -> bool {
    let cp = cell.ch as u32;
    let bounds = r.rect(col, row, column_count(cell));
    if cell.ch == ' ' || cell.ch == '\0' {
        true
    } else if is_box_char(cp) {
        r.rect(col, row, 1).w >= 3 && r.rect(col, row, 1).h >= 3
    } else if cp > 0xFF && r.emoji(cell.ch) is Some {
        let image = r.emoji(cell.ch)->0;
        &&& r.emoji_width(cell.wide) <= bounds.w || image.width <= bounds.w
        &&& r.emoji_height() <= bounds.h || image.height <= bounds.h
    } else {
        true
    }
}

/// A screen whose cells keep to themselves: every cell is there and is drawn
/// in its own columns alone, and a wide cell has a blank one behind it in its
/// row.
pub open spec fn is_tidy(r: TerminalRenderer, screen: TerminalScreen) -> bool {
    &&& screen.cells@.len() == screen.rows * screen.cols
    &&& forall|i: int|
        0 <= i < screen.cells@.len() ==> is_contained(
            r,
            #[trigger] screen.cells@[i],
            (i % (screen.cols as int)) as nat,
            (i / (screen.cols as int)) as nat,
        )
    &&& forall|i: int|
        0 <= i < screen.cells@.len() && (#[trigger] screen.cells@[i]).wide ==> has_blank_behind(
            screen,
            i,
        )
}

/// Cell `i` is not the last of its row, and the next one is blank.
pub open spec fn has_blank_behind(screen: TerminalScreen, i: int) -> bool {
    &&& i % (screen.cols as int) + 1 < screen.cols
    &&& i + 1 < screen.cells@.len()
    &&& !screen.cells@[i + 1].wide
    &&& screen.cells@[i + 1].ch == ' ' || screen.cells@[i + 1].ch == '\0'
}

/// A rectangle of two columns holds what its columns hold.
proof fn lemma_two_columns(r: TerminalRenderer, col: nat, row: nat, px: int, py: int)
    ensures
        r.rect(col, row, 2).contains(px, py) <==> r.rect(col, row, 1).contains(px, py) || r.rect(
            col + 1,
            row,
            1,
        ).contains(px, py),
{
    lemma_neighbours_share_edges(r, col, row);
    lemma_contains(r, col, row, px, py);
    lemma_contains(r, col + 1, row, px, py);
    lemma_edge_monotone(r.cell_width, col, col + 1);
    lemma_edge_monotone(r.cell_width, col + 1, col + 2);
    lemma_edge_monotone(r.cell_width, col, col + 2);
    lemma_edge_monotone(r.cell_height, row, row + 1);
}

/// A contained cell changes no pixel outside its one or two columns.
pub proof fn lemma_contained_stays_inside(
    r: TerminalRenderer,
    cell: TerminalCell,
    behind_wide: bool,
    col: nat,
    row: nat,
    px: int,
    py: int,
    under: Color,
)
    requires
        is_contained(r, cell, col, row),
        !r.rect(col, row, column_count(cell)).contains(px, py),
    ensures
        r.cell_over(cell, behind_wide, col, row, px, py, under) == under,
{
    let cp = cell.ch as u32;
    lemma_two_columns(r, col, row, px, py);
    if is_box_char(cp) && shape_of(cp)->0.covers(r.rect(col, row, 1), px, py) {
        lemma_shape_stays_in_cell(shape_of(cp)->0, r.rect(col, row, 1), px, py);
    }
}

/// A cell decides its pixels alone: what was there before is covered.
pub proof fn lemma_cell_covers(
    r: TerminalRenderer,
    cell: TerminalCell,
    col: nat,
    row: nat,
    px: int,
    py: int,
    under1: Color,
    under2: Color,
)
    requires
        r.rect(col, row, column_count(cell)).contains(px, py),
    ensures
        r.cell_over(cell, false, col, row, px, py, under1) == r.cell_over(
            cell,
            false,
            col,
            row,
            px,
            py,
            under2,
        ),
{
}

/// The column and the row of cell `i` lie in the grid.
proof fn lemma_cell_position(i: int, cols: int, rows: int)
    requires
        0 <= i < rows * cols,
        0 <= cols,
        0 <= rows,
    ensures
        0 < cols,
        0 <= i % cols < cols,
        0 <= i / cols < rows,
        i == (i / cols) * cols + i % cols,
{
    assert(cols > 0) by (nonlinear_arith)
        requires
            0 <= i < rows * cols,
            0 <= cols,
            0 <= rows,
    ;
    vstd::arithmetic::div_mod::lemma_fundamental_div_mod(i, cols);
    let q = i / cols;
    let m = i % cols;
    assert(0 <= q < rows) by (nonlinear_arith)
        requires
            i == cols * q + m,
            0 <= m < cols,
            0 <= i < rows * cols,
            cols > 0,
    ;
    assert(cols * q == q * cols) by (nonlinear_arith);
}

/// The cell before one that is not the first of its row.
proof fn lemma_previous_position(i: int, cols: int, rows: int)
    requires
        0 <= i < rows * cols,
        0 <= cols,
        0 <= rows,
        i % cols > 0,
    ensures
        (i - 1) % cols == i % cols - 1,
        (i - 1) / cols == i / cols,
{
    lemma_cell_position(i, cols, rows);
    vstd::arithmetic::div_mod::lemma_fundamental_div_mod_converse(
        i - 1,
        cols,
        i / cols,
        i % cols - 1,
    );
}

/// Whether the pixel lies in grid cell `i` of a screen of `cols` columns.
pub open spec fn in_cell(r: TerminalRenderer, cols: int, i: int, px: int, py: int) -> bool {
    r.rect((i % cols) as nat, (i / cols) as nat, 1).contains(px, py)
}

/// The cell that decides the pixels of grid cell `k`: a wide cell before it,
/// or the one that stands there.
pub open spec fn owner(screen: TerminalScreen, k: int) -> int {
    if k % (screen.cols as int) > 0 && screen.cells@[k - 1].wide {
        k - 1
    } else {
        k
    }
}

/// What drawing cell `i` of the screen with its background makes of a pixel.
pub open spec fn cell_result(
    r: TerminalRenderer,
    screen: TerminalScreen,
    i: int,
    px: int,
    py: int,
    under: Color,
) -> Color {
    r.cell_over(
        screen.cells@[i],
        false,
        (i % (screen.cols as int)) as nat,
        (i / (screen.cols as int)) as nat,
        px,
        py,
        under,
    )
}

/// One more cell of a tidy screen: it changes the pixels it owns, and no
/// others.
proof fn lemma_drawn_step(
    r: TerminalRenderer,
    screen: TerminalScreen,
    n: nat,
    k: int,
    px: int,
    py: int,
    start: Color,
)
    requires
        is_tidy(r, screen),
        n < screen.rows * screen.cols,
        0 <= k < screen.rows * screen.cols,
        in_cell(r, screen.cols as int, k, px, py),
    ensures
        r.drawn(screen, n + 1, px, py, start) == (if n == owner(screen, k) && r.is_drawn(
            screen,
            n as int,
        ) {
            cell_result(r, screen, n as int, px, py, r.drawn(screen, n, px, py, start))
        } else {
            r.drawn(screen, n, px, py, start)
        }),
{
    let cols = screen.cols as int;
    let rows = screen.rows as int;
    let i = n as int;
    lemma_cell_position(i, cols, rows);
    lemma_cell_position(k, cols, rows);
    let col = (i % cols) as nat;
    let row = (i / cols) as nat;
    let kc = (k % cols) as nat;
    let kr = (k / cols) as nat;
    let cell = screen.cells@[i];
    let behind_wide = col > 0 && screen.cells@[i - 1].wide;
    let under = r.drawn(screen, n, px, py, start);
    assert(is_contained(r, cell, col, row));
    lemma_two_columns(r, col, row, px, py);
    if k % cols > 0 {
        lemma_previous_position(k, cols, rows);
    }
    if behind_wide {
        lemma_previous_position(i, cols, rows);
        assert(has_blank_behind(screen, i - 1));
        assert(r.cell_over(cell, true, col, row, px, py, under) == under);
        if i == owner(screen, k) {
            // Then cell `i` is `k` itself, which lies behind a wide cell, or
            // it is wide behind a wide one.
            assert(false);
        }
    } else if r.rect(col, row, column_count(cell)).contains(px, py) {
        if r.rect(col, row, 1).contains(px, py) {
            lemma_cells_disjoint(r, col, row, kc, kr, px, py);
            assert(i == k);
        } else {
            lemma_cells_disjoint(r, col + 1, row, kc, kr, px, py);
            assert(k == i + 1) by {
                assert(has_blank_behind(screen, i));
            }
        }
    } else {
        lemma_contained_stays_inside(r, cell, false, col, row, px, py, under);
        if i == owner(screen, k) {
            if i == k - 1 {
                assert(kc == col + 1 && kr == row);
            }
            assert(false);
        }
    }
}

/// A pixel of grid cell `k` is what its owner makes of it.
proof fn lemma_drawn_inside(
    r: TerminalRenderer,
    screen: TerminalScreen,
    k: int,
    n: nat,
    px: int,
    py: int,
    start: Color,
)
    requires
        is_tidy(r, screen),
        0 <= k < screen.rows * screen.cols,
        n <= screen.rows * screen.cols,
        in_cell(r, screen.cols as int, k, px, py),
    ensures
        r.drawn(screen, n, px, py, start) == if owner(screen, k) < n && r.is_drawn(
            screen,
            owner(screen, k),
        ) {
            cell_result(r, screen, owner(screen, k), px, py, start)
        } else {
            start
        },
    decreases n,
{
    if n > 0 {
        let m = (n - 1) as nat;
        lemma_drawn_inside(r, screen, k, m, px, py, start);
        lemma_drawn_step(r, screen, m, k, px, py, start);
    }
}

/// A pixel outside the grid stays as it is.
proof fn lemma_drawn_outside(
    r: TerminalRenderer,
    screen: TerminalScreen,
    n: nat,
    px: int,
    py: int,
    start: Color,
)
    requires
        is_tidy(r, screen),
        n <= screen.rows * screen.cols,
        forall|i: int|
            0 <= i < screen.rows * screen.cols ==> !#[trigger] in_cell(
                r,
                screen.cols as int,
                i,
                px,
                py,
            ),
    ensures
        r.drawn(screen, n, px, py, start) == start,
    decreases n,
{
    if n > 0 {
        let cols = screen.cols as int;
        let i = n - 1;
        lemma_drawn_outside(r, screen, i as nat, px, py, start);
        lemma_cell_position(i, cols, screen.rows as int);
        let col = (i % cols) as nat;
        let row = (i / cols) as nat;
        let cell = screen.cells@[i];
        assert(is_contained(r, cell, col, row));
        assert(!in_cell(r, cols, i, px, py));
        lemma_two_columns(r, col, row, px, py);
        if cell.wide {
            assert(has_blank_behind(screen, i));
            assert(!in_cell(r, cols, i + 1, px, py));
            lemma_cell_position(i + 1, cols, screen.rows as int);
            vstd::arithmetic::div_mod::lemma_fundamental_div_mod_converse(
                i + 1,
                cols,
                i / cols,
                i % cols + 1,
            );
        }
        lemma_contained_stays_inside(
            r,
            cell,
            col > 0 && screen.cells@[i - 1].wide,
            col,
            row,
            px,
            py,
            start,
        );
    }
}

/// Two renderers that draw any cell alike: they may remember different screens.
pub open spec fn draw_alike(a: TerminalRenderer, b: TerminalRenderer) -> bool {
    &&& a.config == b.config
    &&& a.cell_width == b.cell_width
    &&& a.cell_height == b.cell_height
    &&& a.glyph_cache == b.glyph_cache
    &&& a.emoji_cache == b.emoji_cache
    &&& a.has_emoji_font == b.has_emoji_font
}

/// Renderers that draw alike make the same of a pixel.
proof fn lemma_alike_cell(
    a: TerminalRenderer,
    b: TerminalRenderer,
    cell: TerminalCell,
    col: nat,
    row: nat,
    px: int,
    py: int,
    under: Color,
)
    requires
        draw_alike(a, b),
    ensures
        a.cell_over(cell, false, col, row, px, py, under) == b.cell_over(
            cell,
            false,
            col,
            row,
            px,
            py,
            under,
        ),
{
    assert(a.rect(col, row, 1) == b.rect(col, row, 1));
    assert(a.rect(col, row, 2) == b.rect(col, row, 2));
    assert(a.emoji(cell.ch) == b.emoji(cell.ch));
    assert(a.glyph_over(cell, col, row, px, py, under) == b.glyph_over(
        cell,
        col,
        row,
        px,
        py,
        under,
    ));
    let bg = crate::terminal::renderer::color_of(cell.bg_color);
    assert(a.glyph_over(cell, col, row, px, py, bg) == b.glyph_over(cell, col, row, px, py, bg));
}

/// Renderers that draw alike agree on which screens are tidy.
proof fn lemma_alike_screen(a: TerminalRenderer, b: TerminalRenderer, screen: TerminalScreen)
    requires
        draw_alike(a, b),
        is_tidy(a, screen),
    ensures
        is_tidy(b, screen),
{
    assert forall|i: int| 0 <= i < screen.cells@.len() implies is_contained(
        b,
        #[trigger] screen.cells@[i],
        (i % (screen.cols as int)) as nat,
        (i / (screen.cols as int)) as nat,
    ) by {
        assert(is_contained(
            a,
            screen.cells@[i],
            (i % (screen.cols as int)) as nat,
            (i / (screen.cols as int)) as nat,
        ));
    }
}

/// A pixel of grid cell `k` of a screen drawn from scratch.
proof fn lemma_fresh_inside(
    fresh: TerminalRenderer,
    screen: TerminalScreen,
    k: int,
    px: int,
    py: int,
    before: Color,
)
    requires
        is_tidy(fresh, screen),
        fresh.starts_over(screen),
        0 <= k < screen.rows * screen.cols,
        in_cell(fresh, screen.cols as int, k, px, py),
    ensures
        fresh.rendered(screen, px, py, before) == cell_result(
            fresh,
            screen,
            owner(screen, k),
            px,
            py,
            Color { r: 0, g: 0, b: 0 },
        ),
{
    let total = (screen.rows * screen.cols) as nat;
    lemma_cell_position(k, screen.cols as int, screen.rows as int);
    lemma_drawn_inside(fresh, screen, k, total, px, py, Color { r: 0, g: 0, b: 0 });
}

/// What the owner of a pixel makes of it does not depend on what was there.
proof fn lemma_owner_covers(
    r: TerminalRenderer,
    screen: TerminalScreen,
    k: int,
    px: int,
    py: int,
    under1: Color,
    under2: Color,
)
    requires
        is_tidy(r, screen),
        0 <= k < screen.rows * screen.cols,
        in_cell(r, screen.cols as int, k, px, py),
    ensures
        cell_result(r, screen, owner(screen, k), px, py, under1) == cell_result(
            r,
            screen,
            owner(screen, k),
            px,
            py,
            under2,
        ),
{
    let cols = screen.cols as int;
    let o = owner(screen, k);
    lemma_cell_position(k, cols, screen.rows as int);
    if k % cols > 0 {
        lemma_previous_position(k, cols, screen.rows as int);
    }
    let col = (o % cols) as nat;
    let row = (o / cols) as nat;
    lemma_two_columns(r, col, row, px, py);
    lemma_cell_covers(r, screen.cells@[o], col, row, px, py, under1, under2);
}

/// Where a wide cell gives way to a narrow one, the cell behind it changes too.
pub open spec fn replaces_wide_cells(a: TerminalScreen, b: TerminalScreen) -> bool {
    forall|i: int|
        0 <= i && i + 1 < a.cells@.len() && (#[trigger] a.cells@[i]).wide && !b.cells@[i].wide
            ==> a.cells@[i + 1] != b.cells@[i + 1]
}

/// Redrawing what changed is as good as drawing everything: after a tidy
/// screen was drawn from scratch, drawing a second one of the same size gives
/// each pixel what drawing the second one from scratch gives it.
pub proof fn lemma_redraw_like_fresh(
    fresh: TerminalRenderer,
    second: TerminalRenderer,
    a: TerminalScreen,
    b: TerminalScreen,
    px: int,
    py: int,
    before: Color,
    other: Color,
)
    requires
        is_tidy(fresh, a),
        is_tidy(fresh, b),
        a.cols == b.cols,
        a.rows == b.rows,
        replaces_wide_cells(a, b),
        fresh.starts_over(a),
        draw_alike(fresh, second),
        second.prev_cells@ == TerminalRenderer::remembered(a),
    ensures
        second.rendered(b, px, py, fresh.rendered(a, px, py, before)) == fresh.rendered(
            b,
            px,
            py,
            other,
        ),
{
    let cols = a.cols as int;
    let total = (a.rows * a.cols) as nat;
    let black = Color { r: 0, g: 0, b: 0 };
    assert(second.prev_cells@ =~= a.cells@);
    lemma_alike_screen(fresh, second, b);
    let first = fresh.rendered(a, px, py, before);
    if exists|k: int| 0 <= k < total && #[trigger] in_cell(fresh, cols, k, px, py) {
        let k = choose|k: int| 0 <= k < total && #[trigger] in_cell(fresh, cols, k, px, py);
        assert(in_cell(second, cols, k, px, py));
        lemma_cell_position(k, cols, a.rows as int);
        lemma_fresh_inside(fresh, a, k, px, py, before);
        lemma_fresh_inside(fresh, b, k, px, py, other);
        lemma_drawn_inside(second, b, k, total, px, py, first);
        let o = owner(b, k);
        lemma_owner_covers(fresh, b, k, px, py, first, black);
        lemma_alike_cell(
            fresh,
            second,
            b.cells@[o],
            (o % cols) as nat,
            (o / cols) as nat,
            px,
            py,
            first,
        );
        if a.cells@[o] == b.cells@[o] {
            assert(owner(a, k) == o);
        }
    } else {
        assert forall|i: int| 0 <= i < b.rows * b.cols implies !#[trigger] in_cell(
            second,
            cols,
            i,
            px,
            py,
        ) by {
            assert(!in_cell(fresh, cols, i, px, py));
        }
        lemma_drawn_outside(fresh, a, total, px, py, black);
        lemma_drawn_outside(fresh, b, total, px, py, black);
        lemma_drawn_outside(second, b, total, px, py, first);
    }
}

/// What becomes of a pixel when a screen is drawn.  It belongs to the cell
/// between whose edges it lies, or to a wide cell before that.  If that cell is
/// as it was last drawn, the pixel stays as it is; otherwise it shows the cell's
/// character on the cell's background.  Outside the grid it stays as it is, too,
/// but all is black where the last screen had another number of cells.
pub proof fn lemma_screen_drawn(
    r: TerminalRenderer,
    screen: TerminalScreen,
    col: nat,
    row: nat,
    px: int,
    py: int,
    before: Color,
)
    requires
        is_tidy(r, screen),
        col < screen.cols,
        row < screen.rows,
        r.cell_width.edge(col) <= px < r.cell_width.edge(col + 1),
        r.cell_height.edge(row) <= py < r.cell_height.edge(row + 1),
    ensures
        ({
            let here = row * screen.cols + col;
            let behind_wide = col > 0 && screen.cells@[here - 1].wide;
            let i = if behind_wide {
                here - 1
            } else {
                here
            };
            let first = if behind_wide {
                (col - 1) as nat
            } else {
                col
            };
            let cell = screen.cells@[i];
            let is_old = r.prev_cells@.len() == screen.rows * screen.cols && r.prev_cells@[i]
                == cell;
            let ground = Color { r: cell.bg_color.0, g: cell.bg_color.1, b: cell.bg_color.2 };
            let pixel = r.rendered(screen, px, py, before);
            &&& 0 <= i < screen.cells@.len()
            &&& is_old ==> pixel == before
            &&& !is_old ==> pixel == r.glyph_over(cell, first, row, px, py, ground)
        }),
{
    let cols = screen.cols as int;
    let rows = screen.rows as int;
    let k = row * screen.cols + col;
    let total = (screen.rows * screen.cols) as nat;
    assert(0 <= k < rows * cols) by (nonlinear_arith)
        requires
            k == row * cols + col,
            0 <= row,
            row + 1 <= rows,
            0 <= col < cols,
    ;
    vstd::arithmetic::div_mod::lemma_fundamental_div_mod_converse(k, cols, row as int, col as int);
    lemma_contains(r, col, row, px, py);
    assert(in_cell(r, cols, k, px, py));
    let start = if r.starts_over(screen) {
        Color { r: 0, g: 0, b: 0 }
    } else {
        before
    };
    lemma_drawn_inside(r, screen, k, total, px, py, start);
    let o = owner(screen, k);
    if col > 0 {
        lemma_previous_position(k, cols, rows);
    }
    let oc = (o % cols) as nat;
    let orow = (o / cols) as nat;
    lemma_two_columns(r, oc, orow, px, py);
    if o == k - 1 {
        assert(oc + 1 == col && orow == row);
    }
    assert(r.rect(oc, orow, column_count(screen.cells@[o])).contains(px, py));
}

/// Pixels beyond the last column or the last row are black where the last
/// screen had another number of cells, and otherwise stay as they are.
pub proof fn lemma_beyond_the_grid(
    r: TerminalRenderer,
    screen: TerminalScreen,
    px: int,
    py: int,
    before: Color,
)
    requires
        is_tidy(r, screen),
        px >= r.cell_width.edge(screen.cols as nat) || py >= r.cell_height.edge(screen.rows as nat),
    ensures
        r.prev_cells@.len() == screen.rows * screen.cols ==> r.rendered(screen, px, py, before)
            == before,
        r.prev_cells@.len() != screen.rows * screen.cols ==> r.rendered(screen, px, py, before) == (
        Color { r: 0, g: 0, b: 0 }),
{
    let cols = screen.cols as int;
    let rows = screen.rows as int;
    assert forall|i: int| 0 <= i < screen.rows * screen.cols implies !#[trigger] in_cell(
        r,
        cols,
        i,
        px,
        py,
    ) by {
        lemma_cell_position(i, cols, rows);
        let col = (i % cols) as nat;
        let row = (i / cols) as nat;
        lemma_contains(r, col, row, px, py);
        lemma_edge_monotone(r.cell_width, col + 1, screen.cols as nat);
        lemma_edge_monotone(r.cell_height, row + 1, screen.rows as nat);
    }
    lemma_drawn_outside(
        r,
        screen,
        (screen.rows * screen.cols) as nat,
        px,
        py,
        if r.starts_over(screen) {
            Color { r: 0, g: 0, b: 0 }
        } else {
            before
        },
    );
}

/// What is remembered of a screen is its cells, and blanks where it has too few:
/// white on black, without flags.
pub proof fn lemma_what_is_remembered(screen: TerminalScreen, i: int)
    ensures
        ({
            let cells = TerminalRenderer::remembered(screen);
            &&& cells.len() >= screen.rows * screen.cols
            &&& cells.len() >= screen.cells@.len()
            &&& cells.len() == screen.rows * screen.cols || cells.len() == screen.cells@.len()
            &&& 0 <= i < screen.cells@.len() ==> cells[i] == screen.cells@[i]
            &&& screen.cells@.len() <= i < cells.len() ==> cells[i] == (TerminalCell {
                ch: ' ',
                fg_color: (255, 255, 255),
                bg_color: (0, 0, 0),
                bold: false,
                italic: false,
                wide: false,
            })
        }),
{
}

/// Cells are drawn one after the other, whatever the screen is like: what is
/// drawn last lies on top.  Of the first `n` cells, let `i` be the last one that
/// is not as it was last drawn.  It lies over what the cells before it made of
/// the picture, and behind a wide cell it has no background of its own.  If there
/// is none, the picture is as it was.
pub proof fn lemma_later_cells_on_top(
    r: TerminalRenderer,
    screen: TerminalScreen,
    n: nat,
    i: int,
    px: int,
    py: int,
    start: Color,
)
    requires
        n <= screen.rows * screen.cols,
        -1 <= i < n,
        forall|k: int| i < k < n ==> !#[trigger] r.is_drawn(screen, k),
    ensures
        i == -1 ==> r.drawn(screen, n, px, py, start) == start,
        i >= 0 && r.is_drawn(screen, i) ==> r.drawn(screen, n, px, py, start) == r.cell_over(
            screen.cells@[i],
            i % (screen.cols as int) != 0 && screen.cells@[i - 1].wide,
            (i % (screen.cols as int)) as nat,
            (i / (screen.cols as int)) as nat,
            px,
            py,
            r.drawn(screen, i as nat, px, py, start),
        ),
    decreases n,
{
    if n > 0 {
        let cols = screen.cols as int;
        let rows = screen.rows as int;
        lemma_cell_position(n - 1, cols, rows);
        if i < n - 1 {
            assert(!r.is_drawn(screen, n - 1));
            lemma_later_cells_on_top(r, screen, (n - 1) as nat, i, px, py, start);
        }
    }
}

/// Which cells are drawn: those of the screen that are not as they were last
/// drawn, and all of them if the last screen had another number of cells.  A
/// whole screen is drawn on black then, and otherwise on the picture.
pub proof fn lemma_which_cells_are_drawn(
    r: TerminalRenderer,
    screen: TerminalScreen,
    i: int,
    px: int,
    py: int,
    before: Color,
)
    ensures
        ({
            let total = screen.rows * screen.cols;
            let same = r.prev_cells@.len() == total;
            &&& i < 0 || i >= screen.cells@.len() ==> !r.is_drawn(screen, i)
            &&& 0 <= i < screen.cells@.len() && !same ==> r.is_drawn(screen, i)
            &&& 0 <= i < screen.cells@.len() && same && i >= total ==> r.is_drawn(screen, i)
            &&& 0 <= i < screen.cells@.len() && same && i < total ==> (r.is_drawn(screen, i)
                <==> r.prev_cells@[i] != screen.cells@[i])
            &&& same ==> r.rendered(screen, px, py, before) == r.drawn(
                screen,
                total as nat,
                px,
                py,
                before,
            )
            &&& !same ==> r.rendered(screen, px, py, before) == r.drawn(
                screen,
                total as nat,
                px,
                py,
                (Color { r: 0, g: 0, b: 0 }),
            )
        }),
{
}

} // verus!
