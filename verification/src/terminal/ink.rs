//! Bitmaps laid over the picture.

use crate::framebuffer::laid_over;
use crate::framebuffer::Color;
use crate::framebuffer::Framebuffer;
use vstd::prelude::*;

verus! {

/// Something that lays a colour of some opacity over each pixel.
pub trait Ink {
    /// The colour and opacity at a pixel.
    spec fn ink(&self, px: int, py: int) -> (Color, u8);

    /// The colour and opacity at a pixel.
    fn ink_at(&self, px: usize, py: usize) -> (r: (Color, u8))
        ensures
            r == self.ink(px as int, py as int),
    ;
}

/// Lays the ink over a rectangle of the picture: columns `x0` to `x1` and rows
/// `y0` to `y1`, both without the last.
pub fn lay_ink<I: Ink>(fb: &mut Framebuffer, x0: usize, y0: usize, x1: usize, y1: usize, ink: &I)
    requires
        old(fb).wf(),
    ensures
        final(fb).wf(),
        final(fb).same_size(*old(fb)),
        forall|px: int, py: int|
            old(fb).has(px, py) ==> #[trigger] final(fb).at(px, py) == if x0 <= px < x1 && y0 <= py
                < y1 {
                laid_over(ink.ink(px, py).0, ink.ink(px, py).1, old(fb).at(px, py))
            } else {
                old(fb).at(px, py)
            },
{
    let x_end: usize = if x1 < fb.width {
        x1
    } else {
        fb.width
    };
    let y_end: usize = if y1 < fb.height {
        y1
    } else {
        fb.height
    };
    let ghost before = *fb;
    let mut y: usize = y0;
    while y < y_end
        invariant
            before.wf(),
            fb.wf(),
            fb.same_size(before),
            y1 < fb.height ==> y_end == y1,
            y1 >= fb.height ==> y_end == fb.height,
            x1 < fb.width ==> x_end == x1,
            x1 >= fb.width ==> x_end == fb.width,
            y0 <= y,
            y0 <= y_end ==> y <= y_end,
            y0 > y_end ==> y == y0,
            forall|px: int, py: int|
                before.has(px, py) ==> #[trigger] fb.at(px, py) == if x0 <= px < x1 && y0 <= py < y {
                    laid_over(ink.ink(px, py).0, ink.ink(px, py).1, before.at(px, py))
                } else {
                    before.at(px, py)
                },
        decreases y_end - y,
    {
        let mut x: usize = x0;
        while x < x_end
            invariant
                before.wf(),
                fb.wf(),
                fb.same_size(before),
                y < y_end <= fb.height,
                x_end <= fb.width,
                x0 <= x,
                y0 <= y,
                x1 < fb.width ==> x_end == x1,
                x1 >= fb.width ==> x_end == fb.width,
                forall|px: int, py: int|
                    before.has(px, py) ==> #[trigger] fb.at(px, py) == if x0 <= px < x1 && (y0 <= py
                        < y || (py == y && px < x)) {
                        laid_over(ink.ink(px, py).0, ink.ink(px, py).1, before.at(px, py))
                    } else {
                        before.at(px, py)
                    },
            decreases x_end - x,
        {
            let (color, alpha): (Color, u8) = ink.ink_at(x, y);
            fb.blend_pixel(x, y, color, alpha);
            x = x + 1;
        }
        y = y + 1;
    }
}

/// A rasterised glyph: opacities, or colours with opacities where `is_color`,
/// in rows of `width` from the top.
pub struct GlyphBitmap {
    pub width: usize,
    pub left: i32,
    pub top: i32,
    pub data: Vec<u8>,
    pub is_color: bool,
}

/// The number of bytes in a row of a bitmap.
pub open spec fn row_bytes(width: int, in_color: bool) -> int {
    if in_color {
        width * 4
    } else {
        width
    }
}

/// The ink of a bitmap, column `ix` and row `iy`: the bitmap's own colour, or
/// `fg` where it holds opacities only.  Nothing beside it or below its last
/// full row.
pub open spec fn bitmap_ink(
    data: Seq<u8>,
    width: int,
    in_color: bool,
    fg: Color,
    ix: int,
    iy: int,
) -> (Color, u8) {
    let pitch = row_bytes(width, in_color);
    if ix < 0 || ix >= width || iy < 0 || (iy + 1) * pitch > data.len() {
        (fg, 0)
    } else if in_color {
        let off = iy * pitch + ix * 4;
        (Color { r: data[off], g: data[off + 1], b: data[off + 2] }, data[off + 3])
    } else {
        (fg, data[iy * pitch + ix])
    }
}

/// A bitmap placed in the picture: its first column at `base_x + dx`, its
/// first row at `base_y + dy`.
pub struct PlacedBitmap<'a> {
    pub data: &'a Vec<u8>,
    pub width: usize,
    pub in_color: bool,
    pub fg: Color,
    pub base_x: usize,
    pub dx: i64,
    pub base_y: usize,
    pub dy: i64,
}

impl<'a> Ink for PlacedBitmap<'a> {
    open spec fn ink(&self, px: int, py: int) -> (Color, u8) {
        bitmap_ink(
            self.data@,
            self.width as int,
            self.in_color,
            self.fg,
            px - (self.base_x + self.dx),
            py - (self.base_y + self.dy),
        )
    }

    fn ink_at(&self, px: usize, py: usize) -> (r: (Color, u8)) {
        let ix: i128 = px as i128 - (self.base_x as i128 + self.dx as i128);
        let iy: i128 = py as i128 - (self.base_y as i128 + self.dy as i128);
        let len: i128 = self.data.len() as i128;
        let pitch: i128 = if self.in_color {
            self.width as i128 * 4
        } else {
            self.width as i128
        };
        if ix < 0 || ix >= self.width as i128 || iy < 0 {
            return (self.fg, 0);
        }
        proof {
            if iy >= len {
                assert((iy + 1) * pitch > len) by (nonlinear_arith)
                    requires
                        iy >= len,
                        pitch >= 1,
                        len >= 0,
                ;
            }
            if pitch > len {
                assert((iy + 1) * pitch > len) by (nonlinear_arith)
                    requires
                        iy >= 0,
                        pitch > len,
                        len >= 0,
                ;
            }
        }
        if iy >= len || pitch > len {
            return (self.fg, 0);
        }
        proof {
            assert((iy + 1) * pitch == iy * pitch + pitch) by (nonlinear_arith);
            assert(0 <= iy * pitch) by (nonlinear_arith)
                requires
                    iy >= 0,
                    pitch >= 0,
            ;
        }
        if iy > (len - pitch) / pitch {
            proof {
                let q = (len - pitch) / pitch as int;
                vstd::arithmetic::div_mod::lemma_fundamental_div_mod(len - pitch, pitch as int);
                assert(iy * pitch > len - pitch) by (nonlinear_arith)
                    requires
                        iy >= q + 1,
                        len - pitch == pitch * q + (len - pitch) % (pitch as int),
                        (len - pitch) % (pitch as int) < pitch,
                        pitch >= 1,
                ;
            }
            return (self.fg, 0);
        }
        proof {
            let q = (len - pitch) / pitch as int;
            vstd::arithmetic::div_mod::lemma_fundamental_div_mod(len - pitch, pitch as int);
            assert(iy * pitch <= len - pitch) by (nonlinear_arith)
                requires
                    iy <= q,
                    len - pitch == pitch * q + (len - pitch) % (pitch as int),
                    0 <= (len - pitch) % (pitch as int),
                    pitch >= 1,
            ;
        }
        if self.in_color {
            let off: usize = (iy * pitch + ix * 4) as usize;
            (
                Color { r: self.data[off], g: self.data[off + 1], b: self.data[off + 2] },
                self.data[off + 3],
            )
        } else {
            let off: usize = (iy * pitch + ix) as usize;
            (self.fg, self.data[off])
        }
    }
}

/// A colour picture of an emoji, four bytes a pixel, in rows from the top.
pub struct EmojiImage {
    pub rgba: Vec<u8>,
    pub width: u32,
    pub height: u32,
}

/// The ink of an emoji scaled to `target_w` by `target_h` pixels, column `ix`
/// and row `iy`: that of the nearest pixel of the picture, nothing where the
/// picture's bytes end before it.
pub open spec fn emoji_ink(
    rgba: Seq<u8>,
    width: int,
    height: int,
    target_w: int,
    target_h: int,
    ix: int,
    iy: int,
) -> (Color, u8) {
    let off = ((iy * height / target_h) * width + ix * width / target_w) * 4;
    if off + 3 >= rgba.len() {
        (Color { r: 0, g: 0, b: 0 }, 0)
    } else {
        (Color { r: rgba[off], g: rgba[off + 1], b: rgba[off + 2] }, rgba[off + 3])
    }
}

/// An emoji with its top left corner at `x`, `y`, to be scaled to `target_w` by
/// `target_h` pixels.
pub struct PlacedEmoji<'a> {
    pub image: &'a EmojiImage,
    pub x: usize,
    pub y: usize,
    pub target_w: u32,
    pub target_h: u32,
}

impl<'a> Ink for PlacedEmoji<'a> {
    open spec fn ink(&self, px: int, py: int) -> (Color, u8) {
        let ix = px - self.x;
        let iy = py - self.y;
        if 0 <= ix < self.target_w && 0 <= iy < self.target_h {
            emoji_ink(
                self.image.rgba@,
                self.image.width as int,
                self.image.height as int,
                self.target_w as int,
                self.target_h as int,
                ix,
                iy,
            )
        } else {
            (Color { r: 0, g: 0, b: 0 }, 0)
        }
    }

    fn ink_at(&self, px: usize, py: usize) -> (r: (Color, u8)) {
        let none: (Color, u8) = (Color { r: 0, g: 0, b: 0 }, 0);
        if px < self.x || py < self.y {
            return none;
        }
        let ix: u128 = (px - self.x) as u128;
        let iy: u128 = (py - self.y) as u128;
        if ix >= self.target_w as u128 || iy >= self.target_h as u128 {
            return none;
        }
        let width: u128 = self.image.width as u128;
        let height: u128 = self.image.height as u128;
        proof {
            assert(0 <= ix * width <= 0xffff_ffff * 0xffff_ffff) by (nonlinear_arith)
                requires
                    0 <= ix <= 0xffff_ffff,
                    0 <= width <= 0xffff_ffff,
            ;
            assert(0 <= iy * height <= 0xffff_ffff * 0xffff_ffff) by (nonlinear_arith)
                requires
                    0 <= iy <= 0xffff_ffff,
                    0 <= height <= 0xffff_ffff,
            ;
            vstd::arithmetic::div_mod::lemma_div_nonincreasing(iy * height, self.target_h as int);
            vstd::arithmetic::div_mod::lemma_div_nonincreasing(ix * width, self.target_w as int);
            vstd::arithmetic::div_mod::lemma_div_pos_is_pos(iy * height, self.target_h as int);
            vstd::arithmetic::div_mod::lemma_div_pos_is_pos(ix * width, self.target_w as int);
        }
        let src_x: u128 = ix * width / self.target_w as u128;
        let src_y: u128 = iy * height / self.target_h as u128;
        proof {
            assert(0 <= src_y * width <= 0xffff_ffff_ffff_ffff * 0xffff_ffff) by (nonlinear_arith)
                requires
                    0 <= src_y <= 0xffff_ffff_ffff_ffff,
                    0 <= width <= 0xffff_ffff,
            ;
        }
        let off: u128 = (src_y * width + src_x) * 4;
        if off + 3 >= self.image.rgba.len() as u128 {
            return none;
        }
        let i: usize = off as usize;
        (
            Color { r: self.image.rgba[i], g: self.image.rgba[i + 1], b: self.image.rgba[i + 2] },
            self.image.rgba[i + 3],
        )
    }
}

/// A bitmap's ink is read row by row from the top: each row has `width` pixels
/// of one byte, the opacity of the text colour, or of four, a colour and its
/// opacity.  Beside the bitmap, and below its last full row, there is none.
pub proof fn lemma_bitmap_rows(data: Seq<u8>, width: int, fg: Color, ix: int, iy: int)
    requires
        width > 0,
    ensures
        ({
            let (color, alpha) = bitmap_ink(data, width, false, fg, ix, iy);
            let at = iy * width + ix;
            &&& 0 <= ix < width && 0 <= iy && at - ix + width <= data.len() ==> color == fg && alpha
                == data[at]
            &&& ix < 0 || ix >= width || iy < 0 || at - ix + width > data.len() ==> alpha == 0
        }),
        ({
            let (color, alpha) = bitmap_ink(data, width, true, fg, ix, iy);
            let at = 4 * (iy * width + ix);
            &&& 0 <= ix < width && 0 <= iy && at - 4 * ix + 4 * width <= data.len() ==> color.r
                == data[at] && color.g == data[at + 1] && color.b == data[at + 2] && alpha
                == data[at + 3]
            &&& ix < 0 || ix >= width || iy < 0 || at - 4 * ix + 4 * width > data.len() ==> alpha == 0
        }),
{
    assert((iy + 1) * width == iy * width + width) by (nonlinear_arith);
    assert((iy + 1) * (width * 4) == 4 * (iy * width) + 4 * width) by (nonlinear_arith);
    assert(iy * (width * 4) == 4 * (iy * width)) by (nonlinear_arith);
}

/// A scaled picture takes each pixel from the place in the picture that lies
/// there in proportion: column `ix` of `target_w` from the column `sx` of
/// `width` for which `sx / width <= ix / target_w < (sx + 1) / width`, and rows
/// likewise.  That is a place in the picture, and the same one where the
/// picture keeps its size.  Where the picture's bytes end before it, nothing is
/// laid there.
pub proof fn lemma_picture_in_proportion(
    rgba: Seq<u8>,
    width: int,
    height: int,
    target_w: int,
    target_h: int,
    ix: int,
    iy: int,
    sx: int,
    sy: int,
)
    requires
        0 < width,
        0 < height,
        0 <= ix < target_w,
        0 <= iy < target_h,
        sx * target_w <= ix * width < (sx + 1) * target_w,
        sy * target_h <= iy * height < (sy + 1) * target_h,
    ensures
        ({
            let (color, alpha) = emoji_ink(rgba, width, height, target_w, target_h, ix, iy);
            let at = 4 * (sy * width + sx);
            &&& 0 <= sx < width && 0 <= sy < height
            &&& 0 <= at && at + 4 <= 4 * (width * height)
            &&& at + 4 <= rgba.len() ==> color.r == rgba[at] && color.g == rgba[at + 1] && color.b
                == rgba[at + 2] && alpha == rgba[at + 3]
            &&& at + 4 > rgba.len() ==> alpha == 0
            &&& width == target_w ==> sx == ix
            &&& height == target_h ==> sy == iy
        }),
{
    lemma_proportion(width, target_w, ix, sx);
    lemma_proportion(height, target_h, iy, sy);
    assert(0 <= sy * width && sy * width + sx + 1 <= width * height) by (nonlinear_arith)
        requires
            0 <= sx < width,
            0 <= sy,
            sy + 1 <= height,
    ;
}

/// The quotient is the one number that lies in proportion.
proof fn lemma_proportion(len: int, target: int, i: int, s: int)
    requires
        0 < len,
        0 <= i < target,
        s * target <= i * len < (s + 1) * target,
    ensures
        i * len / target == s,
        0 <= s < len,
        len == target ==> s == i,
{
    assert((s + 1) * target == s * target + target) by (nonlinear_arith);
    vstd::arithmetic::div_mod::lemma_fundamental_div_mod_converse(
        i * len,
        target,
        s,
        i * len - s * target,
    );
    assert(0 <= s < len && (len == target ==> s == i)) by (nonlinear_arith)
        requires
            0 < len,
            0 <= i < target,
            s * target <= i * len < (s + 1) * target,
    ;
}

} // verus!
