use rdpterm::framebuffer::Color;
use rdpterm::framebuffer::Framebuffer;
use rdpterm::single::Single;
use rdpterm::terminal::emulator::TerminalCell;
use rdpterm::terminal::emulator::TerminalScreen;
use rdpterm::terminal::ink::EmojiImage;
use rdpterm::terminal::ink::GlyphBitmap;
use rdpterm::terminal::renderer::glyph_key;
use rdpterm::terminal::renderer::same_cell;
use rdpterm::terminal::renderer::RendererConfig;
use rdpterm::terminal::renderer::TerminalRenderer;
use rdpterm::terminal::requests::GlyphRequest;

const BLACK: Color = Color { r: 0, g: 0, b: 0 };

fn single(v: f32) -> Single {
    Single::from_bits(v.to_bits()).unwrap()
}

fn cell(ch: char, fg: (u8, u8, u8), bg: (u8, u8, u8)) -> TerminalCell {
    TerminalCell { ch, fg_color: fg, bg_color: bg, bold: false, italic: false, wide: false }
}

fn screen_of(cols: usize, rows: usize, cells: Vec<TerminalCell>) -> TerminalScreen {
    TerminalScreen { cells, cols, rows }
}

/// A glyph with all sorts of opacities.
fn glyph(ch: char) -> GlyphBitmap {
    let seed = ch as usize;
    let width = 3 + seed % 9;
    let height = 5 + seed % 17;
    let is_color = seed % 5 == 0;
    let bytes = width * height * if is_color { 4 } else { 1 };
    GlyphBitmap {
        width,
        left: (seed % 7) as i32 - 3,
        top: 8 + (seed % 11) as i32,
        data: (0..bytes).map(|i| ((i * 37 + seed * 11) % 256) as u8).collect(),
        is_color,
    }
}

/// A picture with all sorts of colours and opacities.
fn picture(ch: char) -> EmojiImage {
    let seed = ch as u32;
    let (width, height) = (10 + seed % 30, 12 + seed % 20);
    EmojiImage {
        rgba: (0..width * height * 4).map(|i| ((i * 29 + seed * 7) % 256) as u8).collect(),
        width,
        height,
    }
}

fn has_picture(ch: char) -> bool {
    ch as u32 > 0x2600
}

/// Gives the renderer whatever it asks for.
fn supply(renderer: &mut TerminalRenderer, screen: &TerminalScreen) -> usize {
    let mut answers = 0;
    while let Some(request) = renderer.next_request(screen) {
        match request {
            GlyphRequest::Emoji(ch, _) => {
                let image = if has_picture(ch) { Some(picture(ch)) } else { None };
                renderer.supply_emoji(ch, image);
            }
            GlyphRequest::Text(ch, bold, italic) => {
                renderer.supply_glyph(ch, bold, italic, Some(glyph(ch)));
            }
        }
        answers += 1;
    }
    answers
}

fn blend(over: u8, alpha: u8, under: u8) -> u8 {
    let a = alpha as f32 / 255.0;
    let inv = 1.0 - a;
    (over as f32 * a + under as f32 * inv) as u8
}

fn lay(picture: &mut [Vec<Color>], x: i64, y: i64, c: (u8, u8, u8), alpha: u8) {
    if y < 0 || x < 0 || y as usize >= picture.len() || x as usize >= picture[0].len() || alpha == 0 {
        return;
    }
    let p = &mut picture[y as usize][x as usize];
    *p = if alpha == 255 {
        Color { r: c.0, g: c.1, b: c.2 }
    } else {
        Color {
            r: blend(c.0, alpha, p.r),
            g: blend(c.1, alpha, p.g),
            b: blend(c.2, alpha, p.b),
        }
    };
}

/// The sizes of a cell and of the font.
#[derive(Clone, Copy)]
struct Sizes {
    cw: f32,
    ch: f32,
    font: f32,
}

/// Draws a screen of text and pictures pixel by pixel.
fn naive(sizes: Sizes, pictures: bool, prev: &[TerminalCell], screen: &TerminalScreen, out: &mut [Vec<Color>]) {
    let full = prev.len() != screen.rows * screen.cols;
    if full {
        for row in out.iter_mut() {
            for p in row.iter_mut() {
                *p = BLACK;
            }
        }
    }
    for row in 0..screen.rows {
        for col in 0..screen.cols {
            let i = row * screen.cols + col;
            if i >= screen.cells.len() {
                continue;
            }
            let c = screen.cells[i];
            if !full && same_cell(&prev[i], &c) {
                continue;
            }
            let count = if c.wide { 2 } else { 1 };
            let left = (col as f32 * sizes.cw).floor() as i64;
            let top = (row as f32 * sizes.ch).floor() as i64;
            let right = ((col + count) as f32 * sizes.cw).floor() as i64;
            let bottom = ((row + 1) as f32 * sizes.ch).floor() as i64;
            if !(col > 0 && screen.cells[i - 1].wide) {
                for y in top..bottom {
                    for x in left..right {
                        lay(out, x, y, c.bg_color, 255);
                    }
                }
            }
            if c.ch == ' ' || c.ch == '\0' {
                continue;
            }
            if pictures && c.ch as u32 > 0xFF && has_picture(c.ch) {
                let image = picture(c.ch);
                let target_h = sizes.ch as u32;
                let target_w = if c.wide { (sizes.cw * 2.0) as u32 } else { target_h };
                for py in 0..target_h.min(image.height) {
                    for px in 0..target_w.min(image.width) {
                        let sx = px as usize * image.width as usize / target_w as usize;
                        let sy = py as usize * image.height as usize / target_h as usize;
                        let off = (sy * image.width as usize + sx) * 4;
                        if off + 3 < image.rgba.len() {
                            let d = &image.rgba[off..off + 4];
                            lay(out, left + px as i64, top + py as i64, (d[0], d[1], d[2]), d[3]);
                        }
                    }
                }
                continue;
            }
            let bitmap = glyph(c.ch);
            let x0 = left + bitmap.left as i64;
            let y0 = top + sizes.font as i64 - bitmap.top as i64;
            let per_pixel = if bitmap.is_color { 4 } else { 1 };
            for (iy, line) in bitmap.data.chunks_exact(bitmap.width * per_pixel).enumerate() {
                for ix in 0..bitmap.width {
                    let (x, y) = (x0 + ix as i64, y0 + iy as i64);
                    if x < left || x >= right || y < top || y >= bottom {
                        continue;
                    }
                    if bitmap.is_color {
                        let d = &line[ix * 4..ix * 4 + 4];
                        lay(out, x, y, (d[0], d[1], d[2]), d[3]);
                    } else {
                        lay(out, x, y, c.fg_color, line[ix]);
                    }
                }
            }
        }
    }
}

fn renderer(sizes: Sizes, has_emoji_font: bool) -> TerminalRenderer {
    let config = RendererConfig { font_size: single(sizes.font) };
    TerminalRenderer::new(config, Some(single(sizes.cw)), has_emoji_font).unwrap()
}

fn assert_same(fb: &Framebuffer, expected: &[Vec<Color>]) {
    for (y, row) in expected.iter().enumerate() {
        for (x, p) in row.iter().enumerate() {
            assert_eq!(fb.get_pixel(x, y), Some(*p), "at {},{}", x, y);
        }
    }
}

fn varied(cols: usize, rows: usize, seed: usize) -> TerminalScreen {
    let alphabet = ['a', 'Q', ' ', '~', 'é', 'Ж', '世', '☃', '😀', '\0', '\u{E0A0}'];
    let mut cells: Vec<TerminalCell> = Vec::new();
    for i in 0..cols * rows {
        let n = (i * 7 + seed * 13) % 101;
        let ch = alphabet[n % alphabet.len()];
        let fg = ((n * 3) as u8, (n * 7) as u8, (n * 11) as u8);
        let bg = ((n * 5) as u8, (n * 2) as u8, n as u8);
        let mut c = cell(ch, fg, bg);
        c.bold = n % 3 == 0;
        c.italic = n % 4 == 0;
        let behind_wide = i % cols > 0 && cells[i - 1].wide;
        if behind_wide {
            c.ch = ' ';
        }
        c.wide = (ch == '世' || ch == '😀') && i % cols + 1 < cols && !behind_wide;
        cells.push(c);
    }
    screen_of(cols, rows, cells)
}

#[test]
fn sizes_follow_from_the_font_size() {
    for font_size in [16.0f32, 12.0, 13.3, 24.5] {
        let config = RendererConfig { font_size: single(font_size) };
        let r = TerminalRenderer::new(config, None, false).unwrap();
        assert_eq!(r.cell_width, single(font_size * 0.6));
        assert_eq!(r.cell_height, single(font_size * 1.2));
        assert!(r.glyph_cache.is_empty() && r.emoji_cache.is_empty() && r.prev_cells.is_empty());
        let config = RendererConfig { font_size: single(font_size) };
        let r = TerminalRenderer::new(config, Some(single(9.601_563)), true).unwrap();
        assert_eq!(r.cell_width, single(9.601_563));
        assert!(r.has_emoji_font);
    }
}

#[test]
fn screens_are_drawn_pixel_by_pixel() {
    for (sizes, pictures) in [
        (Sizes { cw: 9.601_563, ch: 19.2, font: 16.0 }, true),
        (Sizes { cw: 9.6, ch: 19.2, font: 16.0 }, false),
        (Sizes { cw: 7.77, ch: 15.6, font: 13.0 }, true),
    ] {
        let mut r = renderer(sizes, pictures);
        assert_eq!(r.cell_height, single(sizes.font * 1.2));
        let mut fb = Framebuffer::new(100, 70, Color::new(1, 2, 3));
        let mut expected = vec![vec![Color::new(1, 2, 3); 100]; 70];
        let mut prev: Vec<TerminalCell> = Vec::new();
        for seed in 0..6 {
            let screen = varied(9, 4, seed / 2);
            supply(&mut r, &screen);
            r.render(&screen, &mut fb).unwrap();
            let exact = Sizes { ch: sizes.font * 1.2, ..sizes };
            naive(exact, pictures, &prev, &screen, &mut expected);
            assert_same(&fb, &expected);
            prev = screen.cells.clone();
        }
        // Another size is drawn from scratch.
        let screen = varied(12, 5, 3);
        supply(&mut r, &screen);
        r.render(&screen, &mut fb).unwrap();
        let exact = Sizes { ch: sizes.font * 1.2, ..sizes };
        naive(exact, pictures, &prev, &screen, &mut expected);
        assert_same(&fb, &expected);
    }
}

#[test]
fn boxes_are_drawn_in_their_cells() {
    let sizes = Sizes { cw: 9.6, ch: 19.2, font: 16.0 };
    let mut r = renderer(sizes, true);
    let fg = (255, 0, 0);
    let cells = vec![
        cell('█', fg, (0, 0, 9)),
        cell('─', fg, (0, 0, 9)),
        cell('┄', fg, (0, 0, 9)),
        cell('⣿', fg, (0, 0, 9)),
    ];
    let screen = screen_of(4, 1, cells);
    assert_eq!(r.next_request(&screen), None);
    let mut fb = Framebuffer::new(40, 20, Color::new(7, 7, 7));
    r.render(&screen, &mut fb).unwrap();
    let red = Some(Color::new(255, 0, 0));
    let ground = Some(Color::new(0, 0, 9));
    // The block fills columns 0 to 8.
    assert_eq!(fb.get_pixel(0, 0), red);
    assert_eq!(fb.get_pixel(8, 18), red);
    // The line runs through columns 9 to 18 in row 9.
    assert_eq!(fb.get_pixel(9, 9), red);
    assert_eq!(fb.get_pixel(18, 9), red);
    assert_eq!(fb.get_pixel(9, 8), ground);
    // The dashes begin at the left edge of columns 19 to 27.
    for x in 19..28 {
        let expected = if (x - 19) % 4 < 2 { red } else { ground };
        assert_eq!(fb.get_pixel(x, 9), expected);
        assert_eq!(fb.get_pixel(x, 8), ground);
    }
    // Outside the grid it is black.
    assert_eq!(fb.get_pixel(38, 0), Some(BLACK));
    assert_eq!(fb.get_pixel(0, 19), Some(BLACK));
}

#[test]
fn glyphs_are_kept_apart() {
    let mut keys = Vec::new();
    for ch in ['a', 'b', '\u{10FFFF}'] {
        for bold in [false, true] {
            for italic in [false, true] {
                let key = glyph_key(ch, bold, italic);
                assert!(!keys.contains(&key));
                keys.push(key);
            }
        }
    }
    assert_eq!(glyph_key('a', true, false), 97 * 4 + 2);
}

#[test]
fn a_renderer_asks_for_what_it_lacks() {
    let sizes = Sizes { cw: 9.6, ch: 19.2, font: 16.0 };
    let mut r = renderer(sizes, true);
    let white = (255, 255, 255);
    let mut bold = cell('a', white, (0, 0, 0));
    bold.bold = true;
    let cells = vec![
        cell(' ', white, (0, 0, 0)),
        cell('a', white, (0, 0, 0)),
        bold,
        cell('a', (1, 2, 3), (0, 0, 0)),
        cell('Ж', white, (0, 0, 0)),
        cell('█', white, (0, 0, 0)),
    ];
    let screen = screen_of(6, 1, cells);
    assert_eq!(r.next_request(&screen), Some(GlyphRequest::Text('a', false, false)));
    r.supply_glyph('a', false, false, None);
    assert_eq!(r.next_request(&screen), Some(GlyphRequest::Text('a', true, false)));
    r.supply_glyph('a', true, false, Some(glyph('a')));
    assert_eq!(r.next_request(&screen), Some(GlyphRequest::Emoji('Ж', 19)));
    r.supply_emoji('Ж', None);
    assert_eq!(r.next_request(&screen), Some(GlyphRequest::Text('Ж', false, false)));
    r.supply_emoji('Ж', Some(picture('Ж')));
    assert_eq!(r.next_request(&screen), None);
    // Without a font of pictures none is asked for.
    let mut plain = renderer(sizes, false);
    let screen = screen_of(1, 1, vec![cell('Ж', white, (0, 0, 0))]);
    assert_eq!(plain.next_request(&screen), Some(GlyphRequest::Text('Ж', false, false)));
    assert_eq!(supply(&mut plain, &screen), 1);
    // Cells that are not drawn ask for nothing.
    let mut fb = Framebuffer::new(10, 20, BLACK);
    plain.render(&screen, &mut fb).unwrap();
    plain.glyph_cache.clear();
    assert_eq!(plain.next_request(&screen), None);
}

#[test]
fn every_request_is_answered_at_most_twice_a_cell() {
    let sizes = Sizes { cw: 9.6, ch: 19.2, font: 16.0 };
    let mut r = renderer(sizes, true);
    let screen = varied(20, 10, 1);
    assert!(supply(&mut r, &screen) <= 2 * 200);
    assert_eq!(r.next_request(&screen), None);
}

#[test]
fn drawing_the_same_screen_again_changes_nothing() {
    let sizes = Sizes { cw: 9.6, ch: 19.2, font: 16.0 };
    let mut r = renderer(sizes, false);
    let screen = varied(9, 4, 2);
    supply(&mut r, &screen);
    let mut fb = Framebuffer::new(90, 80, BLACK);
    r.render(&screen, &mut fb).unwrap();
    let mut marked = Framebuffer::new(90, 80, Color::new(9, 9, 9));
    r.render(&screen, &mut marked).unwrap();
    for y in 0..80 {
        for x in 0..90 {
            assert_eq!(marked.get_pixel(x, y), Some(Color::new(9, 9, 9)));
        }
    }
}

#[test]
fn redrawing_is_as_good_as_drawing_everything() {
    let sizes = Sizes { cw: 9.6, ch: 19.2, font: 16.0 };
    let first = varied(9, 4, 1);
    let mut second = varied(9, 4, 1);
    for i in [0, 5, 17, 35] {
        if !second.cells[i].wide && !(i % 9 > 0 && second.cells[i - 1].wide) {
            second.cells[i] = cell('x', (1, 200, 30), (90, 90, i as u8));
        }
    }
    let mut r = renderer(sizes, false);
    let mut fb = Framebuffer::new(90, 80, Color::new(3, 3, 3));
    for screen in [&first, &second] {
        supply(&mut r, screen);
        r.render(screen, &mut fb).unwrap();
    }
    let mut fresh = renderer(sizes, false);
    let mut all = Framebuffer::new(90, 80, Color::new(5, 5, 5));
    supply(&mut fresh, &second);
    fresh.render(&second, &mut all).unwrap();
    for y in 0..80 {
        for x in 0..90 {
            assert_eq!(fb.get_pixel(x, y), all.get_pixel(x, y));
        }
    }
}

#[test]
fn what_else_was_looked_for_does_not_matter() {
    let sizes = Sizes { cw: 9.6, ch: 19.2, font: 16.0 };
    let screen = varied(9, 4, 3);
    let mut a = renderer(sizes, true);
    let mut b = renderer(sizes, true);
    supply(&mut a, &varied(9, 4, 5));
    supply(&mut a, &screen);
    supply(&mut b, &screen);
    let mut fa = Framebuffer::new(90, 80, BLACK);
    let mut fb = Framebuffer::new(90, 80, BLACK);
    a.render(&screen, &mut fa).unwrap();
    b.render(&screen, &mut fb).unwrap();
    for y in 0..80 {
        for x in 0..90 {
            assert_eq!(fa.get_pixel(x, y), fb.get_pixel(x, y));
        }
    }
}

#[test]
fn missing_cells_are_remembered_as_blanks() {
    let sizes = Sizes { cw: 9.6, ch: 19.2, font: 16.0 };
    let mut r = renderer(sizes, false);
    let screen = screen_of(3, 2, vec![cell(' ', (1, 1, 1), (5, 5, 5)); 2]);
    let mut fb = Framebuffer::new(30, 40, Color::new(3, 3, 3));
    r.render(&screen, &mut fb).unwrap();
    assert_eq!(r.prev_cells.len(), 6);
    assert!(same_cell(&r.prev_cells[2], &TerminalCell::default()));
    assert!(same_cell(&r.prev_cells[1], &screen.cells[1]));
    assert_eq!(fb.get_pixel(18, 0), Some(Color::new(5, 5, 5)));
    assert_eq!(fb.get_pixel(19, 0), Some(BLACK));
}

#[test]
fn neighbours_share_their_edges() {
    let sizes = Sizes { cw: 9.601_563, ch: 19.2, font: 16.0 };
    let r = renderer(sizes, false);
    for col in 0..300 {
        let here = r.cell_rect(col, col, 1);
        let beside = r.cell_rect(col + 1, col, 1);
        let below = r.cell_rect(col, col + 1, 1);
        let both = r.cell_rect(col, col, 2);
        assert_eq!(here.x + here.w, beside.x);
        assert_eq!(here.y + here.h, below.y);
        assert_eq!(both.w, here.w + beside.w);
    }
    let rect = r.cell_rect(10, 3, 1);
    assert_eq!((rect.x, rect.y, rect.w, rect.h), (96, 57, 9, 19));
}

#[test]
fn emoji_say_whether_they_were_drawn() {
    let sizes = Sizes { cw: 9.6, ch: 19.2, font: 16.0 };
    let mut fb = Framebuffer::new(40, 40, BLACK);
    let r = renderer(sizes, false);
    assert_eq!(r.try_render_emoji('😀', 0, 0, true, &mut fb), None);
    let mut r = renderer(sizes, true);
    r.supply_emoji('a', None);
    assert_eq!(r.try_render_emoji('a', 0, 0, false, &mut fb), Some(false));
    assert_eq!(fb.get_pixel(0, 0), Some(BLACK));
    let image = EmojiImage { rgba: vec![9, 8, 7, 255], width: 1, height: 1 };
    r.supply_emoji('😀', Some(image));
    assert_eq!(r.try_render_emoji('😀', 1, 1, true, &mut fb), Some(true));
    assert_eq!(fb.get_pixel(9, 19), Some(Color::new(9, 8, 7)));
    assert_eq!(fb.get_pixel(10, 19), Some(BLACK));
}
