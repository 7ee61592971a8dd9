//! Drawing the screen into the picture.

use crate::framebuffer::laid_over;
use crate::framebuffer::Color;
use crate::framebuffer::Framebuffer;
use crate::single::at_most;
use crate::single::lemma_edge_monotone;
use crate::single::scaled;
use crate::single::Single;
use crate::terminal::boxes::box_shape;
use crate::terminal::boxes::draw_shape;
use crate::terminal::boxes::shape_of;
use crate::terminal::boxes::CellRect;
use crate::terminal::emulator::blank_cell;
use crate::terminal::emulator::TerminalCell;
use crate::terminal::emulator::TerminalError;
use crate::terminal::emulator::TerminalScreen;
use crate::terminal::glyphs::line_height;
use crate::terminal::glyphs::three_fifths;
use crate::terminal::ink::bitmap_ink;
use crate::terminal::ink::emoji_ink;
use crate::terminal::ink::lay_ink;
use crate::terminal::ink::EmojiImage;
use crate::terminal::ink::GlyphBitmap;
use crate::terminal::ink::PlacedBitmap;
use crate::terminal::ink::PlacedEmoji;
use std::collections::HashMap;
use vstd::prelude::*;

verus! {

broadcast use vstd::std_specs::hash::group_hash_axioms;

/// What the drawing depends on besides the screen.
pub struct RendererConfig {
    pub font_size: Single,
}

/// Draws screens, and redraws only the cells that changed.
pub struct TerminalRenderer {
    pub config: RendererConfig,
    pub cell_width: Single,
    pub cell_height: Single,
    /// The glyphs looked for so far, by `glyph_key`; nothing where no font has
    /// the glyph.
    pub glyph_cache: HashMap<u64, Option<GlyphBitmap>>,
    /// The emoji looked for so far; nothing where the font has no picture.
    pub emoji_cache: HashMap<u32, Option<EmojiImage>>,
    /// Whether there is a font with emoji pictures.
    pub has_emoji_font: bool,
    /// The cells as they were last drawn.
    pub prev_cells: Vec<TerminalCell>,
}

/// What a glyph is looked up by.
pub open spec fn glyph_key_spec(ch: char, bold: bool, italic: bool) -> u64 {
    (ch as u32 * 4 + (if bold {
        2int
    } else {
        0
    }) + (if italic {
        1int
    } else {
        0
    })) as u64
}

/// What a glyph is looked up by.
pub fn glyph_key(ch: char, bold: bool, italic: bool) -> (r: u64)
    ensures
        r == glyph_key_spec(ch, bold, italic),
{
    let b: u64 = if bold {
        2
    } else {
        0
    };
    let i: u64 = if italic {
        1
    } else {
        0
    };
    (ch as u32) as u64 * 4 + b + i
}

/// Glyphs that differ in character, weight or slant are looked up apart.
pub proof fn lemma_glyph_keys_distinct(
    ch1: char,
    bold1: bool,
    italic1: bool,
    ch2: char,
    bold2: bool,
    italic2: bool,
)
    requires
        glyph_key_spec(ch1, bold1, italic1) == glyph_key_spec(ch2, bold2, italic2),
    ensures
        ch1 == ch2,
        bold1 == bold2,
        italic1 == italic2,
{
}

/// Whether a character is drawn from the edges of its cell rather than from a
/// font: box drawing, block elements and braille.
pub open spec fn is_box_char(cp: u32) -> bool {
    0x2500 <= cp <= 0x25A0 || 0x2800 <= cp <= 0x28FF
}

/// A colour of three channels.
pub open spec fn color_of(rgb: (u8, u8, u8)) -> Color {
    Color { r: rgb.0, g: rgb.1, b: rgb.2 }
}

/// How many columns a cell takes.
pub open spec fn column_count(cell: TerminalCell) -> nat {
    if cell.wide {
        2
    } else {
        1
    }
}

impl TerminalRenderer {
    /// The sizes are numbers of moderate size.
    pub open spec fn wf(self) -> bool {
        &&& self.config.font_size.is_font_size()
        &&& self.cell_width.wf()
        &&& -500 <= self.cell_width.exponent <= 500
        &&& self.cell_height.wf()
        &&& -500 <= self.cell_height.exponent <= 500
    }

    /// The renderer has drawn nothing and looked for nothing yet.  A cell is as
    /// wide as the glyph that was measured, or else three fifths of the font
    /// size; it is as high as a line of text.
    pub open spec fn is_fresh(
        self,
        config: RendererConfig,
        measured: Option<Single>,
        has_emoji_font: bool,
    ) -> bool {
        &&& self.config == config
        &&& self.cell_width == match measured {
            Some(width) => width,
            None => config.font_size.product(three_fifths()),
        }
        &&& self.cell_height == line_height(config.font_size)
        &&& self.glyph_cache@ == Map::<u64, Option<GlyphBitmap>>::empty()
        &&& self.emoji_cache@ == Map::<u32, Option<EmojiImage>>::empty()
        &&& self.has_emoji_font == has_emoji_font
        &&& self.prev_cells@ == Seq::<TerminalCell>::empty()
    }

    /// The rectangle of `count` columns of a row, starting at `col`: from the
    /// edge of the first to the edge of the first beyond.
    pub open spec fn rect(self, col: nat, row: nat, count: nat) -> CellRect {
        let x = self.cell_width.edge(col);
        let y = self.cell_height.edge(row);
        CellRect {
            x: x as usize,
            y: y as usize,
            w: (self.cell_width.edge(col + count) - x) as usize,
            h: (self.cell_height.edge(row + 1) - y) as usize,
        }
    }

    /// The distance from a cell's top to the baseline.
    pub open spec fn baseline(self) -> nat {
        self.config.font_size.whole(i32::MAX as nat)
    }

    /// The height that emoji are scaled to.
    pub open spec fn emoji_height(self) -> nat {
        self.cell_height.whole(u32::MAX as nat)
    }

    /// The width that emoji are scaled to: two columns, or a square.
    pub open spec fn emoji_width(self, wide: bool) -> nat {
        if wide {
            at_most(
                scaled(self.cell_width.significand as nat, self.cell_width.exponent + 1),
                u32::MAX as nat,
            )
        } else {
            self.emoji_height()
        }
    }

    /// The glyph that was found for a key.
    pub open spec fn glyph(self, key: u64) -> Option<GlyphBitmap> {
        if self.glyph_cache@.contains_key(key) {
            self.glyph_cache@[key]
        } else {
            None
        }
    }

    /// The picture that was found for an emoji.
    pub open spec fn emoji(self, ch: char) -> Option<EmojiImage> {
        if self.has_emoji_font && self.emoji_cache@.contains_key(ch as u32) {
            self.emoji_cache@[ch as u32]
        } else {
            None
        }
    }

    /// What a box-drawing character makes of a pixel: its colour or nothing, by
    /// the character and its cell alone.
    pub open spec fn box_over(
        self,
        ch: char,
        col: nat,
        row: nat,
        fg: Color,
        px: int,
        py: int,
        under: Color,
    ) -> Color {
        match shape_of(ch as u32) {
            Some(shape) => if shape.covers(self.rect(col, row, 1), px, py) {
                fg
            } else {
                under
            },
            None => under,
        }
    }

    /// What an emoji's picture makes of a pixel: the picture starts at the
    /// cell's corner and is never enlarged.
    pub open spec fn emoji_over(
        self,
        image: EmojiImage,
        wide: bool,
        col: nat,
        row: nat,
        px: int,
        py: int,
        under: Color,
    ) -> Color {
        let ix = px - self.cell_width.edge(col);
        let iy = py - self.cell_height.edge(row);
        let target_w = self.emoji_width(wide) as int;
        let target_h = self.emoji_height() as int;
        if 0 <= ix < target_w && ix < image.width && 0 <= iy < target_h && iy < image.height {
            let ink = emoji_ink(
                image.rgba@,
                image.width as int,
                image.height as int,
                target_w,
                target_h,
                ix,
                iy,
            );
            laid_over(ink.0, ink.1, under)
        } else {
            under
        }
    }

    /// What a glyph makes of a pixel: nothing outside its cell.
    pub open spec fn bitmap_over(
        self,
        bitmap: GlyphBitmap,
        cell: TerminalCell,
        col: nat,
        row: nat,
        px: int,
        py: int,
        under: Color,
    ) -> Color {
        let clip = self.rect(col, row, column_count(cell));
        if clip.contains(px, py) {
            let ink = bitmap_ink(
                bitmap.data@,
                bitmap.width as int,
                bitmap.is_color,
                color_of(cell.fg_color),
                px - (clip.x + bitmap.left),
                py - (clip.y + self.baseline() - bitmap.top),
            );
            laid_over(ink.0, ink.1, under)
        } else {
            under
        }
    }

    /// What a cell's character makes of a pixel.
    pub open spec fn glyph_over(
        self,
        cell: TerminalCell,
        col: nat,
        row: nat,
        px: int,
        py: int,
        under: Color,
    ) -> Color {
        let cp = cell.ch as u32;
        if cell.ch == ' ' || cell.ch == '\0' {
            under
        } else if is_box_char(cp) {
            self.box_over(cell.ch, col, row, color_of(cell.fg_color), px, py, under)
        } else if cp > 0xFF && self.emoji(cell.ch) is Some {
            self.emoji_over(self.emoji(cell.ch)->0, cell.wide, col, row, px, py, under)
        } else {
            match self.glyph(glyph_key_spec(cell.ch, cell.bold, cell.italic)) {
                Some(bitmap) => self.bitmap_over(bitmap, cell, col, row, px, py, under),
                None => under,
            }
        }
    }

    /// What drawing a cell makes of a pixel: background first, then character.
    /// Behind a wide cell the background is already there.
    pub open spec fn cell_over(
        self,
        cell: TerminalCell,
        behind_wide: bool,
        col: nat,
        row: nat,
        px: int,
        py: int,
        under: Color,
    ) -> Color {
        let ground = if !behind_wide && self.rect(col, row, column_count(cell)).contains(px, py) {
            color_of(cell.bg_color)
        } else {
            under
        };
        self.glyph_over(cell, col, row, px, py, ground)
    }

    /// The next screen has another number of cells than the last one.
    pub open spec fn starts_over(self, screen: TerminalScreen) -> bool {
        self.prev_cells@.len() != screen.rows * screen.cols
    }

    /// Whether cell `i` of the screen is drawn: it is there, and it is not as
    /// it was last drawn.
    pub open spec fn is_drawn(self, screen: TerminalScreen, i: int) -> bool {
        &&& 0 <= i < screen.cells@.len()
        &&& self.starts_over(screen) || i >= self.prev_cells@.len() || self.prev_cells@[i]
            != screen.cells@[i]
    }

    /// A pixel after the first `n` cells of the screen.
    pub open spec fn drawn(
        self,
        screen: TerminalScreen,
        n: nat,
        px: int,
        py: int,
        start: Color,
    ) -> Color
        decreases n,
    {
        if n == 0 {
            start
        } else {
            let i = n - 1;
            let under = self.drawn(screen, i as nat, px, py, start);
            if self.is_drawn(screen, i) {
                let col = i % (screen.cols as int);
                let row = i / (screen.cols as int);
                self.cell_over(
                    screen.cells@[i],
                    col > 0 && screen.cells@[i - 1].wide,
                    col as nat,
                    row as nat,
                    px,
                    py,
                    under,
                )
            } else {
                under
            }
        }
    }

    /// A pixel after the whole screen: a screen of another size is drawn on
    /// black, any other on what is there.
    pub open spec fn rendered(self, screen: TerminalScreen, px: int, py: int, before: Color) -> Color {
        let start = if self.starts_over(screen) {
            Color { r: 0, g: 0, b: 0 }
        } else {
            before
        };
        self.drawn(screen, (screen.rows * screen.cols) as nat, px, py, start)
    }

    /// The cells to remember once a screen is drawn.
    pub open spec fn remembered(screen: TerminalScreen) -> Seq<TerminalCell> {
        let total = screen.rows * screen.cols;
        let missing = if screen.cells@.len() < total {
            total - screen.cells@.len()
        } else {
            0
        };
        screen.cells@ + Seq::new(missing as nat, |i: int| blank_cell())
    }

    /// A renderer that has drawn nothing yet.
    pub fn new(config: RendererConfig, measured: Option<Single>, has_emoji_font: bool) -> (r: Result<
        Self,
        TerminalError,
    >)
        requires
            config.font_size.is_font_size(),
            measured matches Some(width) ==> width.is_binary32(),
        ensures
            r matches Ok(renderer) && renderer.wf() && renderer.is_fresh(
                config,
                measured,
                has_emoji_font,
            ),
    {
        let cell_width: Single = match measured {
            Some(width) => width,
            None => config.font_size.mul(&Single { significand: 10_066_330, exponent: -24 }),
        };
        let cell_height: Single = config.font_size.mul(
            &Single { significand: 10_066_330, exponent: -23 },
        );
        Ok(
            TerminalRenderer {
                config,
                cell_width,
                cell_height,
                glyph_cache: HashMap::with_capacity(512),
                emoji_cache: HashMap::new(),
                has_emoji_font,
                prev_cells: Vec::new(),
            },
        )
    }

    /// The rectangle of `count` columns of a row.
    pub fn cell_rect(&self, col: usize, row: usize, count: usize) -> (r: CellRect)
        requires
            self.wf(),
            col + count <= usize::MAX,
            row < usize::MAX,
        ensures
            r == self.rect(col as nat, row as nat, count as nat),
            r.wf(),
            r.x == self.cell_width.edge(col as nat),
            r.y == self.cell_height.edge(row as nat),
            r.x + r.w == self.cell_width.edge((col + count) as nat),
            r.y + r.h == self.cell_height.edge((row + 1) as nat),
    {
        let x: usize = self.cell_width.cell_edge(col);
        let y: usize = self.cell_height.cell_edge(row);
        let right: usize = self.cell_width.cell_edge(col + count);
        let bottom: usize = self.cell_height.cell_edge(row + 1);
        proof {
            lemma_edge_monotone(self.cell_width, col as nat, (col + count) as nat);
            lemma_edge_monotone(self.cell_height, row as nat, (row + 1) as nat);
        }
        CellRect { x, y, w: right - x, h: bottom - y }
    }

    /// Draws a box-drawing character in one column of its row.
    pub fn render_box_drawing(
        &self,
        ch: char,
        col: usize,
        row: usize,
        fg: Color,
        fb: &mut Framebuffer,
    )
        requires
            self.wf(),
            old(fb).wf(),
            col < usize::MAX,
            row < usize::MAX,
        ensures
            final(fb).wf(),
            final(fb).same_size(*old(fb)),
            forall|px: int, py: int|
                old(fb).has(px, py) ==> #[trigger] final(fb).at(px, py) == self.box_over(
                    ch,
                    col as nat,
                    row as nat,
                    fg,
                    px,
                    py,
                    old(fb).at(px, py),
                ),
    {
        let cell: CellRect = self.cell_rect(col, row, 1);
        if let Some(shape) = box_shape(ch as u32) {
            draw_shape(fb, shape, cell, fg);
        }
    }

    /// Draws an emoji from its picture.  The result is `None` without a font
    /// that has pictures; otherwise it says whether the character has one.
    pub fn try_render_emoji(
        &self,
        ch: char,
        col: usize,
        row: usize,
        wide: bool,
        fb: &mut Framebuffer,
    ) -> (r: Option<bool>)
        requires
            self.wf(),
            old(fb).wf(),
        ensures
            final(fb).wf(),
            final(fb).same_size(*old(fb)),
            r == if self.has_emoji_font {
                Some(self.emoji(ch) is Some)
            } else {
                None
            },
            forall|px: int, py: int|
                old(fb).has(px, py) ==> #[trigger] final(fb).at(px, py) == match self.emoji(ch) {
                    Some(image) => self.emoji_over(
                        image,
                        wide,
                        col as nat,
                        row as nat,
                        px,
                        py,
                        old(fb).at(px, py),
                    ),
                    None => old(fb).at(px, py),
                },
    {
        if !self.has_emoji_font {
            return None;
        }
        let cp: u32 = ch as u32;
        match self.emoji_cache.get(&cp) {
            Some(Some(image)) => {
                let x: usize = self.cell_width.cell_edge(col);
                let y: usize = self.cell_height.cell_edge(row);
                let target_h: u32 = self.cell_height.floor(u32::MAX as u64) as u32;
                let target_w: u32 = if wide {
                    self.cell_width.floor_doubled(u32::MAX as u64) as u32
                } else {
                    target_h
                };
                let w: u32 = if target_w < image.width {
                    target_w
                } else {
                    image.width
                };
                let h: u32 = if target_h < image.height {
                    target_h
                } else {
                    image.height
                };
                let x1: usize = if w as u64 <= (usize::MAX - x) as u64 {
                    x + w as usize
                } else {
                    usize::MAX
                };
                let y1: usize = if h as u64 <= (usize::MAX - y) as u64 {
                    y + h as usize
                } else {
                    usize::MAX
                };
                let ink = PlacedEmoji { image, x, y, target_w, target_h };
                lay_ink(fb, x, y, x1, y1, &ink);
                Some(true)
            },
            _ => Some(false),
        }
    }

    /// Draws a cell's character.
    pub fn render_glyph(&self, cell: &TerminalCell, col: usize, row: usize, fb: &mut Framebuffer)
        requires
            self.wf(),
            old(fb).wf(),
            col + 2 <= usize::MAX,
            row < usize::MAX,
        ensures
            final(fb).wf(),
            final(fb).same_size(*old(fb)),
            forall|px: int, py: int|
                old(fb).has(px, py) ==> #[trigger] final(fb).at(px, py) == self.glyph_over(
                    *cell,
                    col as nat,
                    row as nat,
                    px,
                    py,
                    old(fb).at(px, py),
                ),
    {
        let ch: char = cell.ch;
        if ch == ' ' || ch == '\0' {
            return ;
        }
        let cp: u32 = ch as u32;
        let fg = Color::new(cell.fg_color.0, cell.fg_color.1, cell.fg_color.2);
        if (0x2500 <= cp && cp <= 0x25A0) || (0x2800 <= cp && cp <= 0x28FF) {
            self.render_box_drawing(ch, col, row, fg, fb);
            return ;
        }
        if cp > 0xFF {
            if let Some(true) = self.try_render_emoji(ch, col, row, cell.wide, fb) {
                return ;
            }
        }
        let key: u64 = glyph_key(ch, cell.bold, cell.italic);
        if let Some(Some(bitmap)) = self.glyph_cache.get(&key) {
            let count: usize = if cell.wide {
                2
            } else {
                1
            };
            let clip: CellRect = self.cell_rect(col, row, count);
            let baseline: u64 = self.config.font_size.floor(i32::MAX as u64);
            let ink = PlacedBitmap {
                data: &bitmap.data,
                width: bitmap.width,
                in_color: bitmap.is_color,
                fg,
                base_x: clip.x,
                dx: bitmap.left as i64,
                base_y: clip.y,
                dy: baseline as i64 - bitmap.top as i64,
            };
            lay_ink(fb, clip.x, clip.y, clip.x + clip.w, clip.y + clip.h, &ink);
        }
    }

    /// Draws a cell: its background, unless a wide cell before it has covered
    /// that, and its character.
    fn render_cell(
        &self,
        cell: &TerminalCell,
        behind_wide: bool,
        col: usize,
        row: usize,
        fb: &mut Framebuffer,
    )
        requires
            self.wf(),
            old(fb).wf(),
            col + 2 <= usize::MAX,
            row < usize::MAX,
        ensures
            final(fb).wf(),
            final(fb).same_size(*old(fb)),
            forall|px: int, py: int|
                old(fb).has(px, py) ==> #[trigger] final(fb).at(px, py) == self.cell_over(
                    *cell,
                    behind_wide,
                    col as nat,
                    row as nat,
                    px,
                    py,
                    old(fb).at(px, py),
                ),
    {
        if !behind_wide {
            let count: usize = if cell.wide {
                2
            } else {
                1
            };
            let r: CellRect = self.cell_rect(col, row, count);
            let bg = Color::new(cell.bg_color.0, cell.bg_color.1, cell.bg_color.2);
            fb.fill_rect(r.x, r.y, r.w, r.h, bg);
        }
        self.render_glyph(cell, col, row, fb);
    }

    /// Draws the screen: the cells that changed since the last one, or all of
    /// them where its size did.
    pub fn render(&mut self, screen: &TerminalScreen, framebuffer: &mut Framebuffer) -> (r: Result<
        (),
        TerminalError,
    >)
        requires
            old(self).wf(),
            old(framebuffer).wf(),
            screen.rows * screen.cols <= usize::MAX,
            screen.cols + 2 <= usize::MAX,
            screen.rows < usize::MAX,
        ensures
            r is Ok,
            final(framebuffer).wf(),
            final(framebuffer).same_size(*old(framebuffer)),
            forall|px: int, py: int|
                old(framebuffer).has(px, py) ==> #[trigger] final(framebuffer).at(px, py) == old(
                    self,
                ).rendered(*screen, px, py, old(framebuffer).at(px, py)),
            final(self).prev_cells@ == TerminalRenderer::remembered(*screen),
            final(self).config == old(self).config,
            final(self).cell_width == old(self).cell_width,
            final(self).cell_height == old(self).cell_height,
            final(self).glyph_cache == old(self).glyph_cache,
            final(self).emoji_cache == old(self).emoji_cache,
            final(self).has_emoji_font == old(self).has_emoji_font,
    {
        let total: usize = screen.rows * screen.cols;
        let is_full_render: bool = self.prev_cells.len() != total;
        let ghost before = *framebuffer;
        if is_full_render {
            framebuffer.clear(Color::new(0, 0, 0));
        }
        let ghost start = *framebuffer;
        let mut y: usize = 0;
        while y < screen.rows
            invariant
                self.wf(),
                framebuffer.wf(),
                framebuffer.same_size(start),
                screen.rows * screen.cols <= usize::MAX,
                screen.cols + 2 <= usize::MAX,
                screen.rows < usize::MAX,
                total == screen.rows * screen.cols,
                is_full_render == self.starts_over(*screen),
                y <= screen.rows,
                forall|px: int, py: int|
                    start.has(px, py) ==> #[trigger] framebuffer.at(px, py) == self.drawn(
                        *screen,
                        (y * screen.cols) as nat,
                        px,
                        py,
                        start.at(px, py),
                    ),
            decreases screen.rows - y,
        {
            let mut x: usize = 0;
            proof {
                assert(y * screen.cols + screen.cols == (y + 1) * screen.cols) by (nonlinear_arith);
                assert((y + 1) * screen.cols <= screen.rows * screen.cols) by (nonlinear_arith)
                    requires
                        y + 1 <= screen.rows,
                ;
            }
            while x < screen.cols
                invariant
                    self.wf(),
                    framebuffer.wf(),
                    framebuffer.same_size(start),
                    screen.cols + 2 <= usize::MAX,
                    screen.rows < usize::MAX,
                    total == screen.rows * screen.cols,
                    is_full_render == self.starts_over(*screen),
                    y < screen.rows,
                    x <= screen.cols,
                    0 <= y * screen.cols,
                    y * screen.cols + screen.cols <= total <= usize::MAX,
                    forall|px: int, py: int|
                        start.has(px, py) ==> #[trigger] framebuffer.at(px, py) == self.drawn(
                            *screen,
                            (y * screen.cols + x) as nat,
                            px,
                            py,
                            start.at(px, py),
                        ),
                decreases screen.cols - x,
            {
                let idx: usize = y * screen.cols + x;
                proof {
                    vstd::arithmetic::div_mod::lemma_fundamental_div_mod_converse(
                        idx as int,
                        screen.cols as int,
                        y as int,
                        x as int,
                    );
                }
                if idx < screen.cells.len() {
                    let cell: TerminalCell = screen.cells[idx];
                    let unchanged: bool = !is_full_render && idx < self.prev_cells.len()
                        && same_cell(&self.prev_cells[idx], &cell);
                    if !unchanged {
                        let behind_wide: bool = x > 0 && screen.cells[idx - 1].wide;
                        self.render_cell(&cell, behind_wide, x, y, framebuffer);
                    }
                }
                x = x + 1;
            }
            y = y + 1;
        }
        self.remember(screen, total);
        Ok(())
    }

    /// Remembers the cells of a screen that was drawn.
    fn remember(&mut self, screen: &TerminalScreen, total: usize)
        requires
            total == screen.rows * screen.cols,
        ensures
            final(self).prev_cells@ == TerminalRenderer::remembered(*screen),
            final(self).config == old(self).config,
            final(self).cell_width == old(self).cell_width,
            final(self).cell_height == old(self).cell_height,
            final(self).glyph_cache == old(self).glyph_cache,
            final(self).emoji_cache == old(self).emoji_cache,
            final(self).has_emoji_font == old(self).has_emoji_font,
    {
        let mut cells: Vec<TerminalCell> = Vec::new();
        let mut i: usize = 0;
        while i < screen.cells.len()
            invariant
                i <= screen.cells@.len(),
                cells@ == screen.cells@.subrange(0, i as int),
            decreases screen.cells@.len() - i,
        {
            cells.push(screen.cells[i]);
            i = i + 1;
        }
        while cells.len() < total
            invariant
                screen.cells@.len() <= cells@.len(),
                screen.cells@.len() < total ==> cells@.len() <= total,
                screen.cells@.len() >= total ==> cells@.len() == screen.cells@.len(),
                forall|j: int|
                    0 <= j < cells@.len() ==> #[trigger] cells@[j] == if j < screen.cells@.len() {
                        screen.cells@[j]
                    } else {
                        blank_cell()
                    },
            decreases total - cells.len(),
        {
            cells.push(TerminalCell::default());
        }
        self.prev_cells = cells;
    }
}

/// Whether two cells look the same.
pub fn same_cell(a: &TerminalCell, b: &TerminalCell) -> (r: bool)
    ensures
        r == (*a == *b),
{
    a.ch == b.ch && a.fg_color.0 == b.fg_color.0 && a.fg_color.1 == b.fg_color.1 && a.fg_color.2
        == b.fg_color.2 && a.bg_color.0 == b.bg_color.0 && a.bg_color.1 == b.bg_color.1
        && a.bg_color.2 == b.bg_color.2 && a.bold == b.bold && a.italic == b.italic && a.wide
        == b.wide
}

} // verus!
