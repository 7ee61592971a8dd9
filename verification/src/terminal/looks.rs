//! What a cell looks like, pixel by pixel.

use crate::framebuffer::laid_over;
use crate::framebuffer::Color;
use crate::single::lemma_edge_monotone;
use crate::single::lemma_whole_is_floor;
use crate::single::Single;
use crate::terminal::boxes::shape_of;
use crate::terminal::boxes::CellRect;
use crate::terminal::emulator::TerminalCell;
use crate::terminal::glyphs::lemma_column_is_three_fifths;
use crate::terminal::glyphs::lemma_line_is_six_fifths;
use crate::terminal::ink::emoji_ink;
use crate::terminal::ink::lemma_bitmap_rows;
use crate::terminal::ink::lemma_picture_in_proportion;
use crate::terminal::ink::EmojiImage;
use crate::terminal::ink::GlyphBitmap;
use crate::terminal::renderer::glyph_key_spec;
use crate::terminal::renderer::RendererConfig;
use crate::terminal::renderer::TerminalRenderer;
use crate::terminal::requests::GlyphRequest;
use vstd::arithmetic::power2::lemma2_to64;
use vstd::arithmetic::power2::lemma_pow2_pos;
use vstd::arithmetic::power2::pow2;
use vstd::prelude::*;

verus! {

/// The baseline lies below a cell's top by the whole part of the font size: `b`
/// with `b <= font size < b + 1`, as far as 31 bits count.
pub proof fn lemma_baseline(r: TerminalRenderer)
    requires
        r.config.font_size.wf(),
    ensures
        ({
            let size = r.config.font_size;
            let b = r.baseline();
            &&& size.exponent < 0 ==> b * pow2((-size.exponent) as nat) <= size.significand < (b + 1)
                * pow2((-size.exponent) as nat)
            &&& size.exponent >= 0 && size.significand * pow2(size.exponent as nat) < 0x8000_0000
                ==> b == size.significand * pow2(size.exponent as nat)
            &&& size.exponent >= 0 && size.significand * pow2(size.exponent as nat) >= 0x8000_0000
                ==> b == 0x7FFF_FFFF
        }),
{
    let size = r.config.font_size;
    lemma_whole_is_floor(size, i32::MAX as nat);
    if size.exponent < 0 {
        let u = pow2((-size.exponent) as nat);
        lemma_pow2_pos((-size.exponent) as nat);
        let b = r.baseline();
        assert(b <= b * u) by (nonlinear_arith)
            requires
                u >= 1,
        ;
    }
}

/// Where the cell at `col` and `row` that takes one or two columns lies: from
/// the edge of its column to that of the first column behind it, and from the
/// edge of its row to that of the next.
pub proof fn lemma_cell_place(r: TerminalRenderer, col: nat, row: nat, count: nat, px: int, py: int)
    ensures
        ({
            let rect = r.rect(col, row, count);
            let inside = r.cell_width.edge(col) <= px < r.cell_width.edge(col + count)
                && r.cell_height.edge(row) <= py < r.cell_height.edge(row + 1);
            &&& rect.x == r.cell_width.edge(col)
            &&& rect.y == r.cell_height.edge(row)
            &&& rect.x + rect.w == r.cell_width.edge(col + count)
            &&& rect.y + rect.h == r.cell_height.edge(row + 1)
            &&& rect.contains(px, py) <==> inside
        }),
{
    lemma_edge_monotone(r.cell_width, col, col + count);
    lemma_edge_monotone(r.cell_height, row, row + 1);
}

/// The cell shows a glyph: it is no blank, it is not drawn from its edges, and
/// it has no picture.
pub open spec fn shows_glyph(r: TerminalRenderer, cell: TerminalCell) -> bool {
    let cp = cell.ch as u32;
    &&& cp != 0 && cp != 0x20
    &&& !(0x2500 <= cp <= 0x25A0) && !(0x2800 <= cp <= 0x28FF)
    &&& cp <= 0xFF || !r.has_emoji_font || !r.emoji_cache@.contains_key(cp) || r.emoji_cache@[cp]
        is None
}

/// A cell of text shows the glyph that was supplied for its own character,
/// weight and slant, in its own text colour and within its own columns.  The
/// glyph's first column lies `left` behind the cell's left edge, and its first
/// row lies `top` above the baseline.
pub proof fn lemma_glyph_place(
    r: TerminalRenderer,
    cell: TerminalCell,
    bitmap: GlyphBitmap,
    col: nat,
    row: nat,
    px: int,
    py: int,
    under: Color,
)
    requires
        shows_glyph(r, cell),
        r.glyph_cache@.contains_key(glyph_key_spec(cell.ch, cell.bold, cell.italic)),
        r.glyph_cache@[glyph_key_spec(cell.ch, cell.bold, cell.italic)] == Some(bitmap),
        bitmap.width > 0,
    ensures
        ({
            let count: nat = if cell.wide {
                2
            } else {
                1
            };
            let inside = r.cell_width.edge(col) <= px < r.cell_width.edge(col + count)
                && r.cell_height.edge(row) <= py < r.cell_height.edge(row + 1);
            let ix = px - (r.cell_width.edge(col) + bitmap.left);
            let iy = py - (r.cell_height.edge(row) + r.baseline() - bitmap.top);
            let at = iy * bitmap.width + ix;
            let fg = Color { r: cell.fg_color.0, g: cell.fg_color.1, b: cell.fg_color.2 };
            let pixel = r.glyph_over(cell, col, row, px, py, under);
            let data = bitmap.data@;
            let in_mask = 0 <= ix < bitmap.width && 0 <= iy && at - ix + bitmap.width <= data.len();
            let in_picture = 0 <= ix < bitmap.width && 0 <= iy && 4 * (at - ix + bitmap.width)
                <= data.len();
            &&& !inside ==> pixel == under
            &&& inside && !bitmap.is_color && in_mask ==> pixel == laid_over(fg, data[at], under)
            &&& inside && !bitmap.is_color && !in_mask ==> pixel == under
            &&& inside && bitmap.is_color && in_picture ==> pixel == laid_over(
                Color { r: data[4 * at], g: data[4 * at + 1], b: data[4 * at + 2] },
                data[4 * at + 3],
                under,
            )
            &&& inside && bitmap.is_color && !in_picture ==> pixel == under
        }),
{
    let count: nat = if cell.wide {
        2
    } else {
        1
    };
    lemma_cell_place(r, col, row, count, px, py);
    let fg = Color { r: cell.fg_color.0, g: cell.fg_color.1, b: cell.fg_color.2 };
    let ix = px - (r.cell_width.edge(col) + bitmap.left);
    let iy = py - (r.cell_height.edge(row) + r.baseline() - bitmap.top);
    lemma_bitmap_rows(bitmap.data@, bitmap.width as int, fg, ix, iy);
}

/// A glyph stands on the baseline of its font size: with a font size from `b` on
/// and below `b + 1`, its first row is `b - top` below the cell's top, so the
/// pixel there is opaque where the glyph's first byte is.
pub proof fn lemma_glyph_on_baseline(
    r: TerminalRenderer,
    cell: TerminalCell,
    bitmap: GlyphBitmap,
    col: nat,
    row: nat,
    b: int,
    under: Color,
)
    requires
        r.config.font_size.wf(),
        r.config.font_size.exponent < 0,
        b * pow2((-r.config.font_size.exponent) as nat) <= r.config.font_size.significand < (b + 1)
            * pow2((-r.config.font_size.exponent) as nat),
        shows_glyph(r, cell),
        r.glyph_cache@.contains_key(glyph_key_spec(cell.ch, cell.bold, cell.italic)),
        r.glyph_cache@[glyph_key_spec(cell.ch, cell.bold, cell.italic)] == Some(bitmap),
        !bitmap.is_color,
        0 < bitmap.width <= bitmap.data@.len(),
        bitmap.data@[0] == 255,
    ensures
        ({
            let px = r.cell_width.edge(col) + bitmap.left;
            let py = r.cell_height.edge(row) + b - bitmap.top;
            r.cell_width.edge(col) <= px < r.cell_width.edge(col + 1) && r.cell_height.edge(row)
                <= py < r.cell_height.edge(row + 1) ==> r.glyph_over(cell, col, row, px, py, under)
                == (Color { r: cell.fg_color.0, g: cell.fg_color.1, b: cell.fg_color.2 })
        }),
{
    let size = r.config.font_size;
    let u = pow2((-size.exponent) as nat) as int;
    let own = r.baseline() as int;
    lemma_baseline(r);
    lemma_pow2_pos((-size.exponent) as nat);
    assert(own == b) by (nonlinear_arith)
        requires
            b * u <= size.significand < (b + 1) * u,
            own * u <= size.significand < (own + 1) * u,
            u > 0,
    ;
    let px = r.cell_width.edge(col) + bitmap.left;
    let py = r.cell_height.edge(row) + b - bitmap.top;
    assert(0 * bitmap.width == 0);
    lemma_glyph_place(r, cell, bitmap, col, row, px, py, under);
    lemma_edge_monotone(r.cell_width, col + 1, col + 2);
}

/// A cell of text for which no font has a glyph shows its background alone.
pub proof fn lemma_missing_glyph(
    r: TerminalRenderer,
    cell: TerminalCell,
    col: nat,
    row: nat,
    px: int,
    py: int,
    under: Color,
)
    requires
        shows_glyph(r, cell),
        r.glyph_cache@.contains_key(glyph_key_spec(cell.ch, cell.bold, cell.italic)) ==>
            r.glyph_cache@[glyph_key_spec(cell.ch, cell.bold, cell.italic)] is None,
    ensures
        r.glyph_over(cell, col, row, px, py, under) == under,
{
}

/// A glyph is kept for one character, weight and slant: supplying another one
/// changes what cells of exactly these show, and no other cell.
pub proof fn lemma_glyphs_kept_apart(
    before: TerminalRenderer,
    after: TerminalRenderer,
    ch: char,
    bold: bool,
    italic: bool,
    bitmap: Option<GlyphBitmap>,
    cell: TerminalCell,
    col: nat,
    row: nat,
    px: int,
    py: int,
    under: Color,
)
    requires
        after.same_setting(before),
        after.emoji_cache@ == before.emoji_cache@,
        after.glyph_cache@ == before.glyph_cache@.insert(glyph_key_spec(ch, bold, italic), bitmap),
    ensures
        cell.ch != ch || cell.bold != bold || cell.italic != italic ==> after.glyph_over(
            cell,
            col,
            row,
            px,
            py,
            under,
        ) == before.glyph_over(cell, col, row, px, py, under) && after.cell_request(cell)
            == before.cell_request(cell),
        cell.ch == ch && cell.bold == bold && cell.italic == italic && shows_glyph(after, cell)
            && !(after.has_emoji_font && cell.ch as u32 > 0xFF && !after.emoji_cache@.contains_key(
            cell.ch as u32,
        )) ==> after.cell_request(cell) is None,
        bitmap is None && cell.ch == ch && cell.bold == bold && cell.italic == italic
            && shows_glyph(after, cell) ==> after.glyph_over(cell, col, row, px, py, under) == under,
{
}

/// What is asked for is what the cell lacks.  A request for text names the
/// cell's own character, weight and slant, for which nothing was looked for
/// yet.  A request for a picture names its character and the whole part of the
/// cell's height.
pub proof fn lemma_requests_name_the_cell(r: TerminalRenderer, cell: TerminalCell)
    requires
        r.cell_height.wf(),
    ensures
        r.cell_request(cell) matches Some(GlyphRequest::Text(ch, bold, italic)) ==> {
            &&& ch == cell.ch
            &&& bold == cell.bold
            &&& italic == cell.italic
            &&& !r.glyph_cache@.contains_key(glyph_key_spec(cell.ch, cell.bold, cell.italic))
            &&& shows_glyph(r, cell)
        },
        r.cell_request(cell) matches Some(GlyphRequest::Emoji(ch, height)) ==> {
            let size = r.cell_height;
            &&& ch == cell.ch
            &&& cell.ch as u32 > 0xFF
            &&& r.has_emoji_font
            &&& !r.emoji_cache@.contains_key(cell.ch as u32)
            &&& size.exponent < 0 ==> height * pow2((-size.exponent) as nat) <= size.significand < (
            height + 1) * pow2((-size.exponent) as nat)
            &&& size.exponent >= 0 && size.significand * pow2(size.exponent as nat) < 0x1_0000_0000
                ==> height == size.significand * pow2(size.exponent as nat)
            &&& size.exponent >= 0 && size.significand * pow2(size.exponent as nat) >= 0x1_0000_0000
                ==> height == 0xFFFF_FFFF
        },
{
    lemma_whole_is_floor(r.cell_height, u32::MAX as nat);
    let size = r.cell_height;
    if size.exponent < 0 {
        let u = pow2((-size.exponent) as nat);
        lemma_pow2_pos((-size.exponent) as nat);
        let b = size.whole(u32::MAX as nat);
        assert(b <= b * u) by (nonlinear_arith)
            requires
                u >= 1,
        ;
    }
}

/// Nothing is asked for that is not needed, and everything that is: a cell
/// asks for nothing exactly when it is blank or drawn from its edges, when its
/// picture was found, or when its picture is known to be missing and its glyph
/// was looked for.
pub proof fn lemma_when_nothing_is_asked(r: TerminalRenderer, cell: TerminalCell)
    ensures
        ({
            let cp = cell.ch as u32;
            let drawn = cp == 0 || cp == 0x20 || 0x2500 <= cp <= 0x25A0 || 0x2800 <= cp <= 0x28FF;
            let pictured = cp > 0xFF && r.has_emoji_font;
            let known = r.glyph_cache@.contains_key(
                glyph_key_spec(cell.ch, cell.bold, cell.italic),
            );
            r.cell_request(cell) is None <==> {
                ||| drawn
                ||| pictured && r.emoji_cache@.contains_key(cp) && (r.emoji_cache@[cp] is Some
                    || known)
                ||| !pictured && known
            }
        }),
{
}

/// A blank shows its background: in all of its one or two columns, and nowhere
/// else.  Behind a wide cell, which has covered it, a blank shows nothing.
pub proof fn lemma_blank_cell(
    r: TerminalRenderer,
    cell: TerminalCell,
    behind_wide: bool,
    col: nat,
    row: nat,
    px: int,
    py: int,
    under: Color,
)
    requires
        cell.ch as u32 == 0x20 || cell.ch as u32 == 0,
    ensures
        ({
            let count: nat = if cell.wide {
                2
            } else {
                1
            };
            let inside = r.cell_width.edge(col) <= px < r.cell_width.edge(col + count)
                && r.cell_height.edge(row) <= py < r.cell_height.edge(row + 1);
            let pixel = r.cell_over(cell, behind_wide, col, row, px, py, under);
            &&& inside && !behind_wide ==> pixel == (Color {
                r: cell.bg_color.0,
                g: cell.bg_color.1,
                b: cell.bg_color.2,
            })
            &&& !inside || behind_wide ==> pixel == under
        }),
{
    let count: nat = if cell.wide {
        2
    } else {
        1
    };
    lemma_cell_place(r, col, row, count, px, py);
}

/// A cell is its character on its background: where the background is drawn,
/// the character lies over it, and elsewhere over what was there.
pub proof fn lemma_character_on_background(
    r: TerminalRenderer,
    cell: TerminalCell,
    behind_wide: bool,
    col: nat,
    row: nat,
    px: int,
    py: int,
    under: Color,
)
    ensures
        ({
            let count: nat = if cell.wide {
                2
            } else {
                1
            };
            let inside = r.cell_width.edge(col) <= px < r.cell_width.edge(col + count)
                && r.cell_height.edge(row) <= py < r.cell_height.edge(row + 1);
            let ground = Color { r: cell.bg_color.0, g: cell.bg_color.1, b: cell.bg_color.2 };
            r.cell_over(cell, behind_wide, col, row, px, py, under) == r.glyph_over(
                cell,
                col,
                row,
                px,
                py,
                if inside && !behind_wide {
                    ground
                } else {
                    under
                },
            )
        }),
{
    let count: nat = if cell.wide {
        2
    } else {
        1
    };
    lemma_cell_place(r, col, row, count, px, py);
}

/// A character of the box-drawing, block and braille ranges is its shape in its
/// own text colour, in one column, whatever its weight, slant and width and
/// whatever was looked for.
pub proof fn lemma_shape_cell(
    r: TerminalRenderer,
    cell: TerminalCell,
    col: nat,
    row: nat,
    px: int,
    py: int,
    under: Color,
)
    requires
        0x2500 <= cell.ch as u32 <= 0x25A0 || 0x2800 <= cell.ch as u32 <= 0x28FF,
    ensures
        ({
            let rect = CellRect {
                x: r.cell_width.edge(col) as usize,
                y: r.cell_height.edge(row) as usize,
                w: (r.cell_width.edge(col + 1) - r.cell_width.edge(col)) as usize,
                h: (r.cell_height.edge(row + 1) - r.cell_height.edge(row)) as usize,
            };
            let fg = Color { r: cell.fg_color.0, g: cell.fg_color.1, b: cell.fg_color.2 };
            &&& shape_of(cell.ch as u32) is Some
            &&& r.glyph_over(cell, col, row, px, py, under) == if shape_of(
                cell.ch as u32,
            )->0.covers(rect, px, py) {
                fg
            } else {
                under
            }
            &&& r.cell_request(cell) is None
        }),
{
}

/// A character with a picture shows it, from the cell's corner on, whatever the
/// colours of the cell are.  It is as high as the cell, as far as whole pixels
/// go, and as wide as it is high, or two columns wide in a wide cell; a picture
/// that is smaller than this is not enlarged beyond its own size.
pub proof fn lemma_picture_cell(
    r: TerminalRenderer,
    cell: TerminalCell,
    image: EmojiImage,
    col: nat,
    row: nat,
    px: int,
    py: int,
    under: Color,
)
    requires
        cell.ch as u32 > 0xFF,
        !(0x2500 <= cell.ch as u32 <= 0x25A0),
        !(0x2800 <= cell.ch as u32 <= 0x28FF),
        r.has_emoji_font,
        r.emoji_cache@.contains_key(cell.ch as u32),
        r.emoji_cache@[cell.ch as u32] == Some(image),
    ensures
        ({
            let w = r.emoji_width(cell.wide);
            let h = r.emoji_height();
            let ix = px - r.cell_width.edge(col);
            let iy = py - r.cell_height.edge(row);
            let inside = 0 <= ix < w && ix < image.width && 0 <= iy < h && iy < image.height;
            let pixel = r.glyph_over(cell, col, row, px, py, under);
            let ink = emoji_ink(
                image.rgba@,
                image.width as int,
                image.height as int,
                w as int,
                h as int,
                ix,
                iy,
            );
            &&& !inside ==> pixel == under
            &&& inside ==> pixel == laid_over(ink.0, ink.1, under)
        }),
{
}

/// How large pictures become: `h` pixels high with `h <= cell height < h + 1`,
/// and as wide, or `w` wide with `w <= 2 * cell width < w + 1` in a wide cell,
/// as far as 32 bits count.
pub proof fn lemma_picture_size(r: TerminalRenderer)
    requires
        r.cell_width.wf(),
        r.cell_height.wf(),
        r.cell_width.exponent < 0,
        r.cell_height.exponent < 0,
    ensures
        ({
            let h = r.emoji_height();
            let w = r.emoji_width(true);
            let tall = pow2((-r.cell_height.exponent) as nat);
            let broad = pow2((-r.cell_width.exponent) as nat);
            &&& h * tall <= r.cell_height.significand < (h + 1) * tall
            &&& w * broad <= 2 * r.cell_width.significand < (w + 1) * broad
            &&& r.emoji_width(false) == h
        }),
{
    let tall = pow2((-r.cell_height.exponent) as nat);
    let broad = pow2((-r.cell_width.exponent) as nat);
    lemma_pow2_pos((-r.cell_height.exponent) as nat);
    lemma_pow2_pos((-r.cell_width.exponent) as nat);
    lemma_whole_is_floor(r.cell_height, u32::MAX as nat);
    let h = r.emoji_height();
    assert(h <= h * tall) by (nonlinear_arith)
        requires
            tall >= 1,
    ;
    let e = r.cell_width.exponent + 1;
    let m = r.cell_width.significand as nat;
    let w = r.emoji_width(true);
    lemma2_to64();
    vstd::arithmetic::power2::lemma_pow2_unfold((-r.cell_width.exponent) as nat);
    let half = pow2((-e) as nat);
    lemma_pow2_pos((-e) as nat);
    assert(broad == 2 * half);
    if e < 0 {
        vstd::arithmetic::div_mod::lemma_fundamental_div_mod(m as int, half as int);
        let q = m / half;
        assert(q <= half * q) by (nonlinear_arith)
            requires
                half >= 1,
        ;
        assert(w == q);
        assert(q * (2 * half) == 2 * (half * q) && (q + 1) * (2 * half) == 2 * (half * q) + 2 * half)
            by (nonlinear_arith);
    } else {
        assert(m * 1 == m);
        assert(w == m);
        assert(half == 1);
    }
}

/// A picture that has the size it is shown in is shown as it is, pixel by
/// pixel.
pub proof fn lemma_picture_as_it_is(
    r: TerminalRenderer,
    cell: TerminalCell,
    image: EmojiImage,
    col: nat,
    row: nat,
    ix: int,
    iy: int,
    under: Color,
)
    requires
        cell.ch as u32 > 0xFF,
        !(0x2500 <= cell.ch as u32 <= 0x25A0),
        !(0x2800 <= cell.ch as u32 <= 0x28FF),
        r.has_emoji_font,
        r.emoji_cache@.contains_key(cell.ch as u32),
        r.emoji_cache@[cell.ch as u32] == Some(image),
        image.width == r.emoji_width(cell.wide),
        image.height == r.emoji_height(),
        0 <= ix < image.width,
        0 <= iy < image.height,
        image.rgba@.len() == 4 * (image.width * image.height),
    ensures
        ({
            let at = 4 * (iy * image.width + ix);
            r.glyph_over(
                cell,
                col,
                row,
                r.cell_width.edge(col) + ix,
                r.cell_height.edge(row) + iy,
                under,
            ) == laid_over(
                Color { r: image.rgba@[at], g: image.rgba@[at + 1], b: image.rgba@[at + 2] },
                image.rgba@[at + 3],
                under,
            )
        }),
{
    let w = image.width as int;
    let h = image.height as int;
    assert(ix * w <= ix * w < (ix + 1) * w) by (nonlinear_arith)
        requires
            w > 0,
    ;
    assert(iy * h <= iy * h < (iy + 1) * h) by (nonlinear_arith)
        requires
            h > 0,
    ;
    lemma_picture_in_proportion(image.rgba@, w, h, w, h, ix, iy, ix, iy);
    lemma_picture_cell(
        r,
        cell,
        image,
        col,
        row,
        r.cell_width.edge(col) + ix,
        r.cell_height.edge(row) + iy,
        under,
    );
}

/// The sizes that a fresh renderer draws in.  A line is six fifths of the font
/// size, as near as 24 bits come to it: the nearest number to the product with
/// the factor, which is 10066330 in units of 2^-23.  A column is as wide as the glyph that
/// was measured, or else half as wide as a line is high.  Nothing is known and
/// nothing was drawn.
pub proof fn lemma_fresh_sizes(
    r: TerminalRenderer,
    config: RendererConfig,
    measured: Option<Single>,
    has_emoji_font: bool,
)
    requires
        config.font_size.is_font_size(),
        r.is_fresh(config, measured, has_emoji_font),
    ensures
        r.config.font_size == config.font_size,
        r.has_emoji_font == has_emoji_font,
        r.prev_cells@.len() == 0,
        forall|key: u64| !#[trigger] r.glyph_cache@.contains_key(key),
        forall|cp: u32| !#[trigger] r.emoji_cache@.contains_key(cp),
        measured matches Some(width) ==> r.cell_width == width,
        ({
            let h = r.cell_height;
            let k = h.exponent - config.font_size.exponent;
            &&& 0 <= k <= 1
            &&& 0x80_0000 <= h.significand < 0x100_0000
            &&& -10 <= 5 * (h.significand * pow2(k as nat)) - 6 * config.font_size.significand <= 10
            &&& -(0x80_0000 * pow2(k as nat)) <= 2 * (h.significand * pow2(k as nat) * 0x80_0000
                - config.font_size.significand * 10_066_330) <= 0x80_0000 * pow2(k as nat)
        }),
        measured is None ==> {
            let w = r.cell_width;
            let k = w.exponent - config.font_size.exponent + 1;
            &&& 0 <= k <= 1
            &&& 0x80_0000 <= w.significand < 0x100_0000
            &&& -10 <= 5 * (w.significand * pow2(k as nat)) - 6 * config.font_size.significand <= 10
            &&& -(0x80_0000 * pow2(k as nat)) <= 2 * (w.significand * pow2(k as nat) * 0x80_0000
                - config.font_size.significand * 10_066_330) <= 0x80_0000 * pow2(k as nat)
        },
{
    lemma_line_is_six_fifths(config.font_size);
    lemma_column_is_three_fifths(config.font_size);
}

/// In cells of very many pixels, whose sizes are whole numbers, pictures are as
/// high as the cell and as wide as two columns, as far as 32 bits count.
pub proof fn lemma_large_picture_size(r: TerminalRenderer)
    ensures
        ({
            let tall = r.cell_height.significand * pow2(r.cell_height.exponent as nat);
            let broad = r.cell_width.significand * pow2(r.cell_width.exponent as nat);
            &&& r.emoji_width(false) == r.emoji_height()
            &&& r.cell_height.exponent >= 0 && tall < 0x1_0000_0000 ==> r.emoji_height() == tall
            &&& r.cell_height.exponent >= 0 && tall >= 0x1_0000_0000 ==> r.emoji_height()
                == 0xFFFF_FFFF
            &&& r.cell_width.exponent >= 0 && 2 * broad < 0x1_0000_0000 ==> r.emoji_width(true) == 2
                * broad
            &&& r.cell_width.exponent >= 0 && 2 * broad >= 0x1_0000_0000 ==> r.emoji_width(true)
                == 0xFFFF_FFFF
        }),
{
    if r.cell_width.exponent >= 0 {
        let e = r.cell_width.exponent as nat;
        vstd::arithmetic::power2::lemma_pow2_unfold(e + 1);
        assert(r.cell_width.significand * (2 * pow2(e)) == 2 * (r.cell_width.significand * pow2(e)))
            by (nonlinear_arith);
    }
}

/// A glyph without columns shows nothing.
pub proof fn lemma_empty_glyph(
    r: TerminalRenderer,
    cell: TerminalCell,
    bitmap: GlyphBitmap,
    col: nat,
    row: nat,
    px: int,
    py: int,
    under: Color,
)
    requires
        shows_glyph(r, cell),
        r.glyph_cache@.contains_key(glyph_key_spec(cell.ch, cell.bold, cell.italic)),
        r.glyph_cache@[glyph_key_spec(cell.ch, cell.bold, cell.italic)] == Some(bitmap),
        bitmap.width == 0,
    ensures
        r.glyph_over(cell, col, row, px, py, under) == under,
{
}

} // verus!
