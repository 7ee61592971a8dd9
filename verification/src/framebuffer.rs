//! The picture that a terminal is drawn into.

use crate::single::at_most;
use crate::single::excess_bits;
use crate::single::lemma_multiple_unchanged;
use crate::single::lemma_round24_error;
use crate::single::lemma_round24_is_nearest;
use crate::single::lemma_round24_monotone;
use crate::single::round24;
use crate::single::round_to_24;
use vstd::arithmetic::power2::pow2;
use vstd::prelude::*;

verus! {

/// A pixel's colour.
#[derive(Clone, Copy, Debug, PartialEq, Eq, Structural)]
pub struct Color {
    pub r: u8,
    pub g: u8,
    pub b: u8,
}

impl Color {
    /// The colour of the three channels.
    pub fn new(r: u8, g: u8, b: u8) -> (c: Color)
        ensures
            c == (Color { r, g, b }),
    {
        Color { r, g, b }
    }
}

/// Which pixels of a rectangle are filled.
#[derive(Clone, Copy, Debug, PartialEq, Eq, Structural)]
pub enum Pattern {
    /// All of them.
    Solid,
    /// One in four, in diagonals.
    Quarter,
    /// One in two, as a chequerboard.
    Half,
    /// Three in four, the complement of `Quarter`.
    ThreeQuarters,
    /// Columns in pairs, two filled and two not, counted from `origin`.
    DashedAcross { origin: usize },
    /// Rows in pairs, two filled and two not, counted from `origin`.
    DashedDown { origin: usize },
}

impl Pattern {
    /// Whether the pattern fills the pixel.
    pub open spec fn fills(self, px: int, py: int) -> bool {
        match self {
            Pattern::Solid => true,
            Pattern::Quarter => (px + py) % 4 == 0,
            Pattern::Half => (px + py) % 2 == 0,
            Pattern::ThreeQuarters => (px + py) % 4 != 0,
            Pattern::DashedAcross { origin } => (px - origin) % 4 < 2,
            Pattern::DashedDown { origin } => (py - origin) % 4 < 2,
        }
    }

    /// Whether the pattern fills the pixel.
    fn fills_at(&self, px: usize, py: usize) -> (r: bool)
        ensures
            r == self.fills(px as int, py as int),
    {
        match *self {
            Pattern::Solid => true,
            Pattern::Quarter => (px as u128 + py as u128) % 4 == 0,
            Pattern::Half => (px as u128 + py as u128) % 2 == 0,
            Pattern::ThreeQuarters => (px as u128 + py as u128) % 4 != 0,
            Pattern::DashedAcross { origin } => (px as u128 + 4 - (origin % 4) as u128) % 4 < 2,
            Pattern::DashedDown { origin } => (py as u128 + 4 - (origin % 4) as u128) % 4 < 2,
        }
    }
}

/// The share of an overlay of opacity `alpha`, in units of 2^-41: the quotient
/// `alpha / 255` rounded to 24 significant bits.
pub open spec fn overlay_share(alpha: u8) -> nat {
    let n = (alpha * 0x100_0000_0000) as nat;
    round24(2 * (n / 255) + (if n % 255 == 0 {
        0nat
    } else {
        1nat
    }))
}

/// The share left to what lies below, in units of 2^-41, rounded.
pub open spec fn underlay_share(alpha: u8) -> nat {
    round24((0x200_0000_0000 - overlay_share(alpha)) as nat)
}

/// One channel of a blend: the two products and their sum are each rounded to
/// 24 significant bits, and the fraction is dropped.
pub open spec fn blended(over: u8, under: u8, alpha: u8) -> u8 {
    let sum = round24(
        round24(over as nat * overlay_share(alpha)) + round24(under as nat * underlay_share(alpha)),
    );
    at_most(sum / 0x200_0000_0000, 255) as u8
}

/// What a pixel of colour `under` becomes beneath `over` with opacity `alpha`.
pub open spec fn laid_over(over: Color, alpha: u8, under: Color) -> Color {
    if alpha == 0 {
        under
    } else if alpha == 255 {
        over
    } else {
        Color {
            r: blended(over.r, under.r, alpha),
            g: blended(over.g, under.g, alpha),
            b: blended(over.b, under.b, alpha),
        }
    }
}

/// Both shares are at most a little above one.
proof fn lemma_shares(alpha: u8)
    ensures
        overlay_share(alpha) <= 0x200_0000_0000,
        underlay_share(alpha) <= 0x200_0000_0000,
        255 * overlay_share(alpha) - alpha * 0x200_0000_0000 <= 255 * 0x2_0001,
        alpha * 0x200_0000_0000 - 255 * overlay_share(alpha) <= 255 * 0x2_0001,
        underlay_share(alpha) + overlay_share(alpha) - 0x200_0000_0000 <= 0x2_0000,
        0x200_0000_0000 - underlay_share(alpha) - overlay_share(alpha) <= 0x2_0000,
{
    let n = (alpha * 0x100_0000_0000) as nat;
    let v = 2 * (n / 255) + (if n % 255 == 0 {
        0nat
    } else {
        1nat
    });
    assert(round24(0x200_0000_0000) == 0x200_0000_0000) by {
        vstd::arithmetic::power2::lemma2_to64();
        reveal_with_fuel(excess_bits, 20);
        assert(excess_bits(0x200_0000_0000) == 18);
        assert(vstd::arithmetic::power2::pow2(18) == 0x4_0000);
        assert(0x200_0000_0000nat % 0x4_0000 == 0) by (nonlinear_arith);
        lemma_multiple_unchanged(0x200_0000_0000, 0x4_0000);
    }
    lemma_round24_monotone(v, 0x200_0000_0000);
    lemma_round24_error(v);
    let rest = (0x200_0000_0000 - overlay_share(alpha)) as nat;
    lemma_round24_monotone(rest, 0x200_0000_0000);
    lemma_round24_error(rest);
}

/// A blend is the weighted mean with the fraction dropped, or one less where
/// the mean is a whole number.
pub proof fn lemma_blend_near_mean(over: u8, under: u8, alpha: u8)
    ensures
        ({
            let mean = over * alpha + under * (255 - alpha);
            let b = blended(over, under, alpha);
            b == mean / 255 || (mean % 255 == 0 && b == mean / 255 - 1)
        }),
{
    lemma_shares(alpha);
    let w = overlay_share(alpha);
    let v = underlay_share(alpha);
    let one = 0x200_0000_0000int;
    let p = (over * w) as nat;
    let q = (under * v) as nat;
    assert(p <= 255 * one && q <= 255 * one) by (nonlinear_arith)
        requires
            p == over * w,
            q == under * v,
            w <= one,
            v <= one,
            over <= 255,
            under <= 255,
    ;
    lemma_round24_error(p);
    lemma_round24_error(q);
    let t = round24(p) + round24(q);
    lemma_round24_error(t);
    let sum = round24(t);
    let mean = over * alpha + under * (255 - alpha);
    // The sum is within 3 * 2^26 of the exact one.
    let dw = 255 * w - alpha * one;
    let dv = 255 * v - (255 - alpha) * one;
    assert(-0x600_0800 <= dw <= 0x600_0800 && -0x600_0800 <= dv <= 0x600_0800);
    assert(255 * p == over * (alpha * one) + over * dw) by (nonlinear_arith)
        requires
            p == over * w,
            dw == 255 * w - alpha * one,
    ;
    assert(255 * q == under * ((255 - alpha) * one) + under * dv) by (nonlinear_arith)
        requires
            q == under * v,
            dv == 255 * v - (255 - alpha) * one,
    ;
    assert(over * (alpha * one) + under * ((255 - alpha) * one) == mean * one) by (nonlinear_arith)
        requires
            mean == over * alpha + under * (255 - alpha),
    ;
    assert(-255 * 0x600_0800 <= over * dw <= 255 * 0x600_0800) by (nonlinear_arith)
        requires
            -0x600_0800 <= dw <= 0x600_0800,
            0 <= over <= 255,
    ;
    assert(-255 * 0x600_0800 <= under * dv <= 255 * 0x600_0800) by (nonlinear_arith)
        requires
            -0x600_0800 <= dv <= 0x600_0800,
            0 <= under <= 255,
    ;
    assert(0 <= mean <= 255 * 255) by (nonlinear_arith)
        requires
            mean == over * alpha + under * (255 - alpha),
            0 <= over <= 255,
            0 <= under <= 255,
            0 <= alpha <= 255,
    ;
    let drift = 255 * sum - mean * one;
    assert(-0x1_0000_0000_0 < drift < 0x1_0000_0000_0);
    let m = mean / 255;
    let k = mean % 255;
    assert(mean == 255 * m + k);
}

/// One channel of a blend, from the two shares.
fn blend_channel(over: u8, under: u8, alpha: u8, over_share: u128, under_share: u128) -> (r: u8)
    requires
        over_share == overlay_share(alpha),
        under_share == underlay_share(alpha),
    ensures
        r == blended(over, under, alpha),
{
    proof {
        lemma_shares(alpha);
        assert(over * over_share <= 255 * 0x200_0000_0000 && under * under_share <= 255
            * 0x200_0000_0000) by (nonlinear_arith)
            requires
                over <= 255,
                under <= 255,
                over_share <= 0x200_0000_0000,
                under_share <= 0x200_0000_0000,
        ;
    }
    let p: u128 = round_to_24(over as u128 * over_share);
    let q: u128 = round_to_24(under as u128 * under_share);
    let whole: u128 = round_to_24(p + q) / 0x200_0000_0000;
    if whole <= 255 {
        whole as u8
    } else {
        255
    }
}

/// The colour of a pixel beneath an overlay of opacity `alpha`.
pub fn overlay(over: Color, alpha: u8, under: Color) -> (r: Color)
    ensures
        r == laid_over(over, alpha, under),
{
    if alpha == 0 {
        under
    } else if alpha == 255 {
        over
    } else {
        let n: u128 = alpha as u128 * 0x100_0000_0000;
        let rest: u128 = if n % 255 == 0 {
            0
        } else {
            1
        };
        let over_share: u128 = round_to_24(2 * (n / 255) + rest);
        proof {
            lemma_shares(alpha);
        }
        let under_share: u128 = round_to_24(0x200_0000_0000 - over_share);
        Color {
            r: blend_channel(over.r, under.r, alpha, over_share, under_share),
            g: blend_channel(over.g, under.g, alpha, over_share, under_share),
            b: blend_channel(over.b, under.b, alpha, over_share, under_share),
        }
    }
}

/// A picture, row by row from the top.
pub struct Framebuffer {
    pub width: usize,
    pub height: usize,
    pub rows: Vec<Vec<Color>>,
}

impl Framebuffer {
    /// Every row has the picture's width.
    pub open spec fn wf(self) -> bool {
        &&& self.rows@.len() == self.height
        &&& forall|y: int| 0 <= y < self.height ==> (#[trigger] self.rows@[y])@.len() == self.width
    }

    /// Whether the pixel lies in the picture.
    pub open spec fn has(self, x: int, y: int) -> bool {
        0 <= x < self.width && 0 <= y < self.height
    }

    /// The colour of a pixel of the picture.
    pub open spec fn at(self, x: int, y: int) -> Color {
        self.rows@[y]@[x]
    }

    /// The two pictures have the same size.
    pub open spec fn same_size(self, other: Framebuffer) -> bool {
        self.width == other.width && self.height == other.height
    }

    /// A picture of one colour.
    pub fn new(width: usize, height: usize, color: Color) -> (r: Framebuffer)
        ensures
            r.wf(),
            r.width == width,
            r.height == height,
            forall|x: int, y: int| r.has(x, y) ==> #[trigger] r.at(x, y) == color,
    {
        let mut rows: Vec<Vec<Color>> = Vec::new();
        let mut y: usize = 0;
        while y < height
            invariant
                y <= height,
                rows@.len() == y,
                forall|j: int| 0 <= j < y ==> (#[trigger] rows@[j])@.len() == width,
                forall|i: int, j: int|
                    0 <= i < width && 0 <= j < y ==> #[trigger] rows@[j]@[i] == color,
            decreases height - y,
        {
            let mut row: Vec<Color> = Vec::new();
            let mut x: usize = 0;
            while x < width
                invariant
                    x <= width,
                    row@.len() == x,
                    forall|i: int| 0 <= i < x ==> #[trigger] row@[i] == color,
                decreases width - x,
            {
                row.push(color);
                x = x + 1;
            }
            rows.push(row);
            y = y + 1;
        }
        Framebuffer { width, height, rows }
    }

    /// The number of columns.
    pub fn width(&self) -> (r: usize)
        ensures
            r == self.width,
    {
        self.width
    }

    /// The number of rows.
    pub fn height(&self) -> (r: usize)
        ensures
            r == self.height,
    {
        self.height
    }

    /// The colour of a pixel, if it lies in the picture.
    pub fn get_pixel(&self, x: usize, y: usize) -> (r: Option<Color>)
        requires
            self.wf(),
        ensures
            r == if self.has(x as int, y as int) {
                Some(self.at(x as int, y as int))
            } else {
                None
            },
    {
        if x < self.width && y < self.height {
            Some(self.rows[y][x])
        } else {
            None
        }
    }

    /// Colours a pixel, if it lies in the picture.
    pub fn set_pixel(&mut self, x: usize, y: usize, color: Color)
        requires
            old(self).wf(),
        ensures
            final(self).wf(),
            final(self).same_size(*old(self)),
            forall|px: int, py: int|
                old(self).has(px, py) ==> #[trigger] final(self).at(px, py) == if px == x && py == y {
                    color
                } else {
                    old(self).at(px, py)
                },
    {
        if x < self.width && y < self.height {
            self.rows[y][x] = color;
        }
    }

    /// Lays a colour of opacity `alpha` over a pixel, if it lies in the picture.
    pub fn blend_pixel(&mut self, x: usize, y: usize, color: Color, alpha: u8)
        requires
            old(self).wf(),
        ensures
            final(self).wf(),
            final(self).same_size(*old(self)),
            forall|px: int, py: int|
                old(self).has(px, py) ==> #[trigger] final(self).at(px, py) == if px == x && py == y {
                    laid_over(color, alpha, old(self).at(px, py))
                } else {
                    old(self).at(px, py)
                },
    {
        if let Some(under) = self.get_pixel(x, y) {
            self.set_pixel(x, y, overlay(color, alpha, under));
        }
    }

    /// Fills, as far as it lies in the picture, the part of a rectangle that
    /// the pattern picks: columns `x0` to `x1` and rows `y0` to `y1`, both
    /// without the last.
    pub fn fill_pattern(
        &mut self,
        x0: usize,
        y0: usize,
        x1: usize,
        y1: usize,
        pattern: Pattern,
        color: Color,
    )
        requires
            old(self).wf(),
        ensures
            final(self).wf(),
            final(self).same_size(*old(self)),
            forall|px: int, py: int|
                old(self).has(px, py) ==> #[trigger] final(self).at(px, py) == if x0 <= px < x1 && y0
                    <= py < y1 && pattern.fills(px, py) {
                    color
                } else {
                    old(self).at(px, py)
                },
    {
        let x_end: usize = if x1 < self.width {
            x1
        } else {
            self.width
        };
        let y_end: usize = if y1 < self.height {
            y1
        } else {
            self.height
        };
        let ghost before = *self;
        let mut y: usize = y0;
        while y < y_end
            invariant
                before.wf(),
                self.wf(),
                self.same_size(before),
                y_end <= self.height,
                x_end <= self.width,
                x_end <= x1,
                x1 < self.width ==> x_end == x1,
                x1 >= self.width ==> x_end == self.width,
                y_end <= y1,
                y1 < self.height ==> y_end == y1,
                y1 >= self.height ==> y_end == self.height,
                y0 <= y,
                y0 <= y_end ==> y <= y_end,
                y0 > y_end ==> y == y0,
                forall|px: int, py: int|
                    before.has(px, py) ==> #[trigger] self.at(px, py) == if x0 <= px < x1 && y0 <= py
                        < y && pattern.fills(px, py) {
                        color
                    } else {
                        before.at(px, py)
                    },
            decreases y_end - y,
        {
            let mut x: usize = x0;
            while x < x_end
                invariant
                    before.wf(),
                    self.wf(),
                    self.same_size(before),
                    y < y_end <= self.height,
                    x_end <= self.width,
                    x0 <= x,
                    x_end <= x1,
                    y0 <= y,
                    x1 < self.width ==> x_end == x1,
                    x1 >= self.width ==> x_end == self.width,
                    forall|px: int, py: int|
                        before.has(px, py) ==> #[trigger] self.at(px, py) == if x0 <= px < x1 && (y0
                            <= py < y || (py == y && px < x)) && pattern.fills(px, py) {
                            color
                        } else {
                            before.at(px, py)
                        },
                decreases x_end - x,
            {
                if pattern.fills_at(x, y) {
                    self.set_pixel(x, y, color);
                }
                x = x + 1;
            }
            y = y + 1;
        }
    }

    /// Fills a rectangle as far as it lies in the picture.
    pub fn fill_rect(&mut self, x: usize, y: usize, w: usize, h: usize, color: Color)
        requires
            old(self).wf(),
        ensures
            final(self).wf(),
            final(self).same_size(*old(self)),
            forall|px: int, py: int|
                old(self).has(px, py) ==> #[trigger] final(self).at(px, py) == if x <= px < x + w && y
                    <= py < y + h {
                    color
                } else {
                    old(self).at(px, py)
                },
    {
        let x1: usize = if w <= usize::MAX - x {
            x + w
        } else {
            usize::MAX
        };
        let y1: usize = if h <= usize::MAX - y {
            y + h
        } else {
            usize::MAX
        };
        self.fill_pattern(x, y, x1, y1, Pattern::Solid, color);
    }

    /// Fills the whole picture.
    pub fn clear(&mut self, color: Color)
        requires
            old(self).wf(),
        ensures
            final(self).wf(),
            final(self).same_size(*old(self)),
            forall|px: int, py: int|
                old(self).has(px, py) ==> #[trigger] final(self).at(px, py) == color,
    {
        let w: usize = self.width;
        let h: usize = self.height;
        self.fill_rect(0, 0, w, h, color);
    }
}

/// Laying a colour over another mixes each channel with its own, in the shares
/// that the opacity says: the mean with its fraction dropped, or one less where
/// the mean is a whole number.  Nothing shows of what is transparent, and
/// nothing through what is opaque.
pub proof fn lemma_overlay_mixes(over: Color, alpha: u8, under: Color)
    ensures
        ({
            let c = laid_over(over, alpha, under);
            let rest = 255 - alpha;
            let r = over.r * alpha + under.r * rest;
            let g = over.g * alpha + under.g * rest;
            let b = over.b * alpha + under.b * rest;
            &&& c.r == r / 255 || (r % 255 == 0 && c.r == r / 255 - 1)
            &&& c.g == g / 255 || (g % 255 == 0 && c.g == g / 255 - 1)
            &&& c.b == b / 255 || (b % 255 == 0 && c.b == b / 255 - 1)
            &&& alpha == 0 ==> c.r == under.r && c.g == under.g && c.b == under.b
            &&& alpha == 255 ==> c.r == over.r && c.g == over.g && c.b == over.b
        }),
{
    lemma_blend_near_mean(over.r, under.r, alpha);
    lemma_blend_near_mean(over.g, under.g, alpha);
    lemma_blend_near_mean(over.b, under.b, alpha);
    if alpha == 0 || alpha == 255 {
        let rest = 255 - alpha;
        assert(over.r * alpha + under.r * rest == 255 * (if alpha == 0 {
            under.r
        } else {
            over.r
        })) by (nonlinear_arith)
            requires
                alpha == 0 || alpha == 255,
                rest == 255 - alpha,
        ;
        assert(over.g * alpha + under.g * rest == 255 * (if alpha == 0 {
            under.g
        } else {
            over.g
        })) by (nonlinear_arith)
            requires
                alpha == 0 || alpha == 255,
                rest == 255 - alpha,
        ;
        assert(over.b * alpha + under.b * rest == 255 * (if alpha == 0 {
            under.b
        } else {
            over.b
        })) by (nonlinear_arith)
            requires
                alpha == 0 || alpha == 255,
                rest == 255 - alpha,
        ;
    }
}

/// How dense the shades are: of four pixels in a row they fill one, two and
/// three, in the same diagonals everywhere, and the lightest and the darkest
/// fill none in common.
pub proof fn lemma_shade_density(px: int, py: int)
    ensures
        Pattern::Solid.fills(px, py),
        Pattern::Quarter.fills(px, py) != Pattern::ThreeQuarters.fills(px, py),
        Pattern::Half.fills(px, py) != Pattern::Half.fills(px + 1, py),
        Pattern::Half.fills(px, py) != Pattern::Half.fills(px, py + 1),
        Pattern::Half.fills(0, 0) && Pattern::Quarter.fills(0, 0),
        Pattern::Quarter.fills(px, py) ==> Pattern::Half.fills(px, py),
        Pattern::Quarter.fills(px, py) == Pattern::Quarter.fills(px + 4, py),
        Pattern::Quarter.fills(px, py) == Pattern::Quarter.fills(px - 1, py + 1),
        Pattern::Quarter.fills(px, py) ==> !Pattern::Quarter.fills(px + 1, py)
            && !Pattern::Quarter.fills(px + 2, py) && !Pattern::Quarter.fills(px + 3, py),
        Pattern::Quarter.fills(px, py) || Pattern::Quarter.fills(px + 1, py)
            || Pattern::Quarter.fills(px + 2, py) || Pattern::Quarter.fills(px + 3, py),
{
    lemma_next_of_four(px + py);
    assert((px + 1) + py == (px + py) + 1 && px + (py + 1) == (px + py) + 1);
    assert((px + 2) + py == (px + py) + 2 && (px + 3) + py == (px + py) + 3);
    assert((px + 4) + py == (px + py) + 4 && (px - 1) + (py + 1) == px + py);
}

/// Dashes fill the first two of four pixels from their origin on, and whole
/// columns or rows.
pub proof fn lemma_dash_density(px: int, py: int, origin: usize)
    ensures
        ({
            let dashes = Pattern::DashedAcross { origin };
            let o = origin as int;
            &&& dashes.fills(o, py) && dashes.fills(o + 1, py) && !dashes.fills(o + 2, py)
                && !dashes.fills(o + 3, py)
            &&& dashes.fills(px, py) == dashes.fills(px + 4, py)
            &&& dashes.fills(px, py) == dashes.fills(px, py + 1)
        }),
        ({
            let dashes = Pattern::DashedDown { origin };
            let o = origin as int;
            &&& dashes.fills(px, o) && dashes.fills(px, o + 1) && !dashes.fills(px, o + 2)
                && !dashes.fills(px, o + 3)
            &&& dashes.fills(px, py) == dashes.fills(px, py + 4)
            &&& dashes.fills(px, py) == dashes.fills(px + 1, py)
        }),
{
    let o = origin as int;
    lemma_next_of_four(px - o);
    lemma_next_of_four(py - o);
    assert((px + 4) - o == (px - o) + 4 && (py + 4) - o == (py - o) + 4);
}

/// Remainders repeat after four.
proof fn lemma_next_of_four(s: int)
    ensures
        (s + 4) % 4 == s % 4,
        (s + 1) % 4 == if s % 4 == 3 {
            0
        } else {
            s % 4 + 1
        },
        (s + 2) % 4 == if s % 4 >= 2 {
            s % 4 - 2
        } else {
            s % 4 + 2
        },
        (s + 3) % 4 == if s % 4 == 0 {
            3
        } else {
            s % 4 - 1
        },
        (s + 1) % 2 != s % 2,
        s % 4 == 0 ==> s % 2 == 0,
{
}

/// Where a pixel is kept: in the row of its height, at its distance from the
/// left.
pub proof fn lemma_where_pixels_are(picture: Framebuffer, other: Framebuffer, x: int, y: int)
    requires
        picture.wf(),
    ensures
        picture.rows@.len() == picture.height,
        picture.has(x, y) <==> 0 <= x < picture.width && 0 <= y < picture.height,
        picture.has(x, y) ==> picture.rows@[y]@.len() == picture.width && picture.at(x, y)
            == picture.rows@[y]@[x],
        picture.same_size(other) <==> picture.width == other.width && picture.height
            == other.height,
{
}

/// Colours are mixed in numbers of 24 bits.  The overlay's share is the nearest
/// one to `alpha / 255`, and the other share the nearest to what it leaves of
/// one; both are counted in units of 2^-41.  Each product and their sum are
/// rounded once more before the fraction is dropped.
pub proof fn lemma_mixed_in_24_bits(over: u8, under: u8, alpha: u8, t: nat)
    requires
        10 <= t <= 17,
        0x80_0000 * pow2(t) * 255 <= alpha * 0x200_0000_0000 < 0x100_0000 * pow2(t) * 255,
    ensures
        ({
            let share = overlay_share(alpha);
            let left = underlay_share(alpha);
            let u = pow2(t);
            let sum = round24(over as nat * share) + round24(under as nat * left);
            &&& share % u == 0
            &&& -(255 * u) <= 2 * (255 * share - alpha * 0x200_0000_0000) <= 255 * u
            &&& left == round24((0x200_0000_0000 - share) as nat)
            &&& blended(over, under, alpha) * 0x200_0000_0000 <= round24(sum)
            &&& blended(over, under, alpha) < 255 ==> round24(sum) < (blended(over, under, alpha)
                + 1) * 0x200_0000_0000
        }),
{
    let u = pow2(t);
    let n = (alpha * 0x100_0000_0000) as nat;
    let w = n / 255;
    let rest: nat = if n % 255 == 0 {
        0
    } else {
        1
    };
    let v = 2 * w + rest;
    vstd::arithmetic::power2::lemma2_to64();
    vstd::arithmetic::power2::lemma_pow2_adds((t - 2) as nat, 2);
    assert(u == pow2((t - 2) as nat) * 4);
    lemma_round24_is_nearest(v, t);
    let r = round24(v);
    vstd::arithmetic::div_mod::lemma_fundamental_div_mod(r as int, u as int);
    let k = (r / u) * pow2((t - 2) as nat);
    assert(r == 4 * k) by (nonlinear_arith)
        requires
            r == u * (r / u),
            u == pow2((t - 2) as nat) * 4,
            k == (r / u) * pow2((t - 2) as nat),
    ;
}

} // verus!
