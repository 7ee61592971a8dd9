//! Box-drawing characters, block elements and braille patterns.
//!
//! These are drawn from the edges of their cell rather than from a font, so
//! that lines and blocks of neighbouring cells meet without a gap.

use crate::framebuffer::Color;
use crate::framebuffer::Framebuffer;
use crate::framebuffer::Pattern;
use crate::single::lemma_edge_is_floor;
use crate::single::lemma_round24_error;
use crate::single::round24;
use crate::single::Single;
use vstd::arithmetic::power2::lemma2_to64;
use vstd::arithmetic::power2::pow2;
use vstd::prelude::*;

verus! {

/// A cell's rectangle in the picture.
#[derive(Clone, Copy, Debug, PartialEq, Eq, Structural)]
pub struct CellRect {
    pub x: usize,
    pub y: usize,
    pub w: usize,
    pub h: usize,
}

impl CellRect {
    /// The far edges are representable.
    pub open spec fn wf(self) -> bool {
        &&& self.x + self.w <= usize::MAX
        &&& self.y + self.h <= usize::MAX
    }

    /// Whether the pixel lies in the rectangle.
    pub open spec fn contains(self, px: int, py: int) -> bool {
        &&& self.x <= px < self.x + self.w
        &&& self.y <= py < self.y + self.h
    }

    /// The middle column.
    pub open spec fn mid_x(self) -> int {
        self.x + self.w as int / 2
    }

    /// The middle row.
    pub open spec fn mid_y(self) -> int {
        self.y + self.h as int / 2
    }
}

/// Which part of the middle row is drawn.
#[derive(Clone, Copy, Debug, PartialEq, Eq, Structural)]
pub enum Across {
    Nothing,
    /// From the left edge to the middle, both included.
    Left,
    /// From the middle to the right edge.
    Right,
    Full,
}

/// Which part of the middle column is drawn.
#[derive(Clone, Copy, Debug, PartialEq, Eq, Structural)]
pub enum Upright {
    Nothing,
    /// From the top edge to the middle, both included.
    Upper,
    /// From the middle to the bottom edge.
    Lower,
    Full,
}

/// How thick a half line is: one pixel, or three.
#[derive(Clone, Copy, Debug, PartialEq, Eq, Structural)]
pub enum Weight {
    Nothing,
    Light,
    Heavy,
}

impl Weight {
    /// Whether the line reaches this far from its middle.
    pub open spec fn reaches(self, d: int) -> bool {
        match self {
            Weight::Nothing => false,
            Weight::Light => d == 0,
            Weight::Heavy => -1 <= d <= 1,
        }
    }
}

/// What a character looks like in its cell.
#[derive(Clone, Copy, Debug, PartialEq, Eq, Structural)]
pub enum BoxShape {
    /// Strokes one pixel wide through the middle.
    Strokes { across: Across, upright: Upright },
    /// A line three pixels thick across the middle.
    ThickAcross,
    /// A line three pixels thick down the middle.
    ThickUpright,
    DashedAcross,
    DashedUpright,
    /// Two lines, one pixel above and one below the middle.
    DoubleAcross,
    /// Two lines, one pixel left and one right of the middle.
    DoubleUpright,
    UpperHalf,
    LowerHalf,
    LeftHalf,
    RightHalf,
    /// The whole cell, as far as the pattern fills it.
    Filled { pattern: Pattern },
    LowerEighths { eighths: u8 },
    LeftEighths { eighths: u8 },
    /// An eighth at the top, one row at least.
    UpperEighth,
    /// An eighth at the right, one column at least.
    RightEighth,
    Diagonals { rising: bool, falling: bool },
    /// Half lines across, each from its edge to the middle.
    HalvesAcross { left: Weight, right: Weight },
    /// Half lines down, each from its edge to the middle.
    HalvesUpright { upper: Weight, lower: Weight },
    /// Quarters of the cell.
    Quadrants { upper_left: bool, upper_right: bool, lower_left: bool, lower_right: bool },
    /// Two columns of four dots.
    Braille { dots: u8 },
}

/// The half lines: light and heavy ones to each side, then those that change
/// their weight in the middle.
pub open spec fn half_lines(cp: u32) -> BoxShape {
    let none = Weight::Nothing;
    let light = Weight::Light;
    let heavy = Weight::Heavy;
    if cp == 0x2574 {
        BoxShape::HalvesAcross { left: light, right: none }
    } else if cp == 0x2575 {
        BoxShape::HalvesUpright { upper: light, lower: none }
    } else if cp == 0x2576 {
        BoxShape::HalvesAcross { left: none, right: light }
    } else if cp == 0x2577 {
        BoxShape::HalvesUpright { upper: none, lower: light }
    } else if cp == 0x2578 {
        BoxShape::HalvesAcross { left: heavy, right: none }
    } else if cp == 0x2579 {
        BoxShape::HalvesUpright { upper: heavy, lower: none }
    } else if cp == 0x257A {
        BoxShape::HalvesAcross { left: none, right: heavy }
    } else if cp == 0x257B {
        BoxShape::HalvesUpright { upper: none, lower: heavy }
    } else if cp == 0x257C {
        BoxShape::HalvesAcross { left: light, right: heavy }
    } else if cp == 0x257D {
        BoxShape::HalvesUpright { upper: light, lower: heavy }
    } else if cp == 0x257E {
        BoxShape::HalvesAcross { left: heavy, right: light }
    } else {
        BoxShape::HalvesUpright { upper: heavy, lower: light }
    }
}

/// The quadrants of a block element.
pub open spec fn quadrants(cp: u32) -> BoxShape {
    BoxShape::Quadrants {
        upper_left: 0x2598 <= cp <= 0x259C,
        upper_right: 0x259B <= cp <= 0x259F,
        lower_left: cp == 0x2596 || cp == 0x2599 || cp == 0x259B || 0x259E <= cp,
        lower_right: cp == 0x2597 || cp == 0x2599 || cp == 0x259A || cp == 0x259C || cp == 0x259F,
    }
}

/// The shape of a character of the box-drawing, block and braille ranges; none
/// for other characters.
pub open spec fn shape_of(cp: u32) -> Option<BoxShape> {
    if cp == 0x2500 {
        Some(BoxShape::Strokes { across: Across::Full, upright: Upright::Nothing })
    } else if cp == 0x2501 {
        Some(BoxShape::ThickAcross)
    } else if cp == 0x2502 {
        Some(BoxShape::Strokes { across: Across::Nothing, upright: Upright::Full })
    } else if cp == 0x2503 {
        Some(BoxShape::ThickUpright)
    } else if 0x250C <= cp <= 0x250F || 0x2552 <= cp <= 0x2554 || cp == 0x256D {
        Some(BoxShape::Strokes { across: Across::Right, upright: Upright::Lower })
    } else if 0x2510 <= cp <= 0x2513 || 0x2555 <= cp <= 0x2557 || cp == 0x256E {
        Some(BoxShape::Strokes { across: Across::Left, upright: Upright::Lower })
    } else if 0x2514 <= cp <= 0x2517 || 0x2558 <= cp <= 0x255A || cp == 0x2570 {
        Some(BoxShape::Strokes { across: Across::Right, upright: Upright::Upper })
    } else if 0x2518 <= cp <= 0x251B || 0x255B <= cp <= 0x255D || cp == 0x256F {
        Some(BoxShape::Strokes { across: Across::Left, upright: Upright::Upper })
    } else if 0x251C <= cp <= 0x2523 || 0x255E <= cp <= 0x2560 {
        Some(BoxShape::Strokes { across: Across::Right, upright: Upright::Full })
    } else if 0x2524 <= cp <= 0x252B || 0x2561 <= cp <= 0x2563 {
        Some(BoxShape::Strokes { across: Across::Left, upright: Upright::Full })
    } else if 0x252C <= cp <= 0x2533 || 0x2564 <= cp <= 0x2566 {
        Some(BoxShape::Strokes { across: Across::Full, upright: Upright::Lower })
    } else if 0x2534 <= cp <= 0x253B || 0x2567 <= cp <= 0x2569 {
        Some(BoxShape::Strokes { across: Across::Full, upright: Upright::Upper })
    } else if 0x253C <= cp <= 0x254B || 0x256A <= cp <= 0x256C {
        Some(BoxShape::Strokes { across: Across::Full, upright: Upright::Full })
    } else if cp == 0x2504 || cp == 0x2505 || cp == 0x2508 || cp == 0x2509 || cp == 0x254C || cp
        == 0x254D {
        Some(BoxShape::DashedAcross)
    } else if cp == 0x2506 || cp == 0x2507 || cp == 0x250A || cp == 0x250B || cp == 0x254E || cp
        == 0x254F {
        Some(BoxShape::DashedUpright)
    } else if cp == 0x2550 {
        Some(BoxShape::DoubleAcross)
    } else if cp == 0x2551 {
        Some(BoxShape::DoubleUpright)
    } else if 0x2571 <= cp <= 0x2573 {
        Some(BoxShape::Diagonals { rising: cp != 0x2572, falling: cp != 0x2571 })
    } else if 0x2574 <= cp <= 0x257F {
        Some(half_lines(cp))
    } else if 0x2596 <= cp <= 0x259F {
        Some(quadrants(cp))
    } else if cp == 0x2580 {
        Some(BoxShape::UpperHalf)
    } else if cp == 0x2584 {
        Some(BoxShape::LowerHalf)
    } else if 0x2581 <= cp <= 0x2587 {
        Some(BoxShape::LowerEighths { eighths: (cp - 0x2580) as u8 })
    } else if cp == 0x2588 || cp == 0x25A0 {
        Some(BoxShape::Filled { pattern: Pattern::Solid })
    } else if cp == 0x258C {
        Some(BoxShape::LeftHalf)
    } else if 0x2589 <= cp <= 0x258F {
        Some(BoxShape::LeftEighths { eighths: (0x2590 - cp) as u8 })
    } else if cp == 0x2590 {
        Some(BoxShape::RightHalf)
    } else if cp == 0x2591 {
        Some(BoxShape::Filled { pattern: Pattern::Quarter })
    } else if cp == 0x2592 {
        Some(BoxShape::Filled { pattern: Pattern::Half })
    } else if cp == 0x2593 {
        Some(BoxShape::Filled { pattern: Pattern::ThreeQuarters })
    } else if cp == 0x2594 {
        Some(BoxShape::UpperEighth)
    } else if cp == 0x2595 {
        Some(BoxShape::RightEighth)
    } else if 0x2800 <= cp <= 0x28FF {
        Some(BoxShape::Braille { dots: (cp - 0x2800) as u8 })
    } else {
        None
    }
}

/// The shape of one of the half lines.
fn half_line_shape(cp: u32) -> (r: BoxShape)
    requires
        0x2574 <= cp <= 0x257F,
    ensures
        r == half_lines(cp),
{
    match cp {
        0x2574 => BoxShape::HalvesAcross { left: Weight::Light, right: Weight::Nothing },
        0x2575 => BoxShape::HalvesUpright { upper: Weight::Light, lower: Weight::Nothing },
        0x2576 => BoxShape::HalvesAcross { left: Weight::Nothing, right: Weight::Light },
        0x2577 => BoxShape::HalvesUpright { upper: Weight::Nothing, lower: Weight::Light },
        0x2578 => BoxShape::HalvesAcross { left: Weight::Heavy, right: Weight::Nothing },
        0x2579 => BoxShape::HalvesUpright { upper: Weight::Heavy, lower: Weight::Nothing },
        0x257A => BoxShape::HalvesAcross { left: Weight::Nothing, right: Weight::Heavy },
        0x257B => BoxShape::HalvesUpright { upper: Weight::Nothing, lower: Weight::Heavy },
        0x257C => BoxShape::HalvesAcross { left: Weight::Light, right: Weight::Heavy },
        0x257D => BoxShape::HalvesUpright { upper: Weight::Light, lower: Weight::Heavy },
        0x257E => BoxShape::HalvesAcross { left: Weight::Heavy, right: Weight::Light },
        _ => BoxShape::HalvesUpright { upper: Weight::Heavy, lower: Weight::Light },
    }
}

/// The shape of a character of the box-drawing, block and braille ranges; none
/// for other characters.
pub fn box_shape(cp: u32) -> (r: Option<BoxShape>)
    ensures
        r == shape_of(cp),
{
    match cp {
        0x2500 => Some(BoxShape::Strokes { across: Across::Full, upright: Upright::Nothing }),
        0x2501 => Some(BoxShape::ThickAcross),
        0x2502 => Some(BoxShape::Strokes { across: Across::Nothing, upright: Upright::Full }),
        0x2503 => Some(BoxShape::ThickUpright),
        0x250C..=0x250F => Some(BoxShape::Strokes { across: Across::Right, upright: Upright::Lower }),
        0x2510..=0x2513 => Some(BoxShape::Strokes { across: Across::Left, upright: Upright::Lower }),
        0x2514..=0x2517 => Some(BoxShape::Strokes { across: Across::Right, upright: Upright::Upper }),
        0x2518..=0x251B => Some(BoxShape::Strokes { across: Across::Left, upright: Upright::Upper }),
        0x251C..=0x2523 => Some(BoxShape::Strokes { across: Across::Right, upright: Upright::Full }),
        0x2524..=0x252B => Some(BoxShape::Strokes { across: Across::Left, upright: Upright::Full }),
        0x252C..=0x2533 => Some(BoxShape::Strokes { across: Across::Full, upright: Upright::Lower }),
        0x2534..=0x253B => Some(BoxShape::Strokes { across: Across::Full, upright: Upright::Upper }),
        0x253C..=0x254B => Some(BoxShape::Strokes { across: Across::Full, upright: Upright::Full }),
        0x2504 | 0x2505 | 0x2508 | 0x2509 | 0x254C | 0x254D => Some(BoxShape::DashedAcross),
        0x2506 | 0x2507 | 0x250A | 0x250B | 0x254E | 0x254F => Some(BoxShape::DashedUpright),
        0x2550 => Some(BoxShape::DoubleAcross),
        0x2551 => Some(BoxShape::DoubleUpright),
        // Double-line corners and tees look like the single-line ones.
        0x2552..=0x2554 => Some(BoxShape::Strokes { across: Across::Right, upright: Upright::Lower }),
        0x2555..=0x2557 => Some(BoxShape::Strokes { across: Across::Left, upright: Upright::Lower }),
        0x2558..=0x255A => Some(BoxShape::Strokes { across: Across::Right, upright: Upright::Upper }),
        0x255B..=0x255D => Some(BoxShape::Strokes { across: Across::Left, upright: Upright::Upper }),
        0x255E..=0x2560 => Some(BoxShape::Strokes { across: Across::Right, upright: Upright::Full }),
        0x2561..=0x2563 => Some(BoxShape::Strokes { across: Across::Left, upright: Upright::Full }),
        0x2564..=0x2566 => Some(BoxShape::Strokes { across: Across::Full, upright: Upright::Lower }),
        0x2567..=0x2569 => Some(BoxShape::Strokes { across: Across::Full, upright: Upright::Upper }),
        0x256A..=0x256C => Some(BoxShape::Strokes { across: Across::Full, upright: Upright::Full }),
        // So do the rounded corners.
        0x256D => Some(BoxShape::Strokes { across: Across::Right, upright: Upright::Lower }),
        0x256E => Some(BoxShape::Strokes { across: Across::Left, upright: Upright::Lower }),
        0x256F => Some(BoxShape::Strokes { across: Across::Left, upright: Upright::Upper }),
        0x2570 => Some(BoxShape::Strokes { across: Across::Right, upright: Upright::Upper }),
        0x2571 => Some(BoxShape::Diagonals { rising: true, falling: false }),
        0x2572 => Some(BoxShape::Diagonals { rising: false, falling: true }),
        0x2573 => Some(BoxShape::Diagonals { rising: true, falling: true }),
        0x2574..=0x257F => Some(half_line_shape(cp)),
        0x2596..=0x259F => Some(
            BoxShape::Quadrants {
                upper_left: 0x2598 <= cp && cp <= 0x259C,
                upper_right: 0x259B <= cp,
                lower_left: cp == 0x2596 || cp == 0x2599 || cp == 0x259B || 0x259E <= cp,
                lower_right: cp == 0x2597 || cp == 0x2599 || cp == 0x259A || cp == 0x259C || cp
                    == 0x259F,
            },
        ),
        0x2580 => Some(BoxShape::UpperHalf),
        0x2584 => Some(BoxShape::LowerHalf),
        0x2588 | 0x25A0 => Some(BoxShape::Filled { pattern: Pattern::Solid }),
        0x258C => Some(BoxShape::LeftHalf),
        0x2590 => Some(BoxShape::RightHalf),
        0x2591 => Some(BoxShape::Filled { pattern: Pattern::Quarter }),
        0x2592 => Some(BoxShape::Filled { pattern: Pattern::Half }),
        0x2593 => Some(BoxShape::Filled { pattern: Pattern::ThreeQuarters }),
        0x2581..=0x2587 => Some(BoxShape::LowerEighths { eighths: (cp - 0x2580) as u8 }),
        0x2589..=0x258F => Some(BoxShape::LeftEighths { eighths: (8 - (cp - 0x2588)) as u8 }),
        0x2594 => Some(BoxShape::UpperEighth),
        0x2595 => Some(BoxShape::RightEighth),
        0x2800..=0x28FF => Some(BoxShape::Braille { dots: (cp - 0x2800) as u8 }),
        _ => None,
    }
}

/// The factor by which a braille dot is smaller than its share of the cell:
/// the binary32 number nearest to 0.7.
pub open spec fn seven_tenths_spec() -> Single {
    Single { significand: 11_744_051, exponent: (-24) as i32 }
}

/// The factor by which a braille dot is smaller than its share of the cell.
fn seven_tenths() -> (r: Single)
    ensures
        r == seven_tenths_spec(),
{
    Single { significand: 11_744_051, exponent: -24 }
}

/// The extent of a braille dot whose share of the cell has extent `n`.
pub open spec fn dot_extent(n: nat) -> nat {
    let e = seven_tenths_spec().edge(n);
    if e < 2 {
        2
    } else {
        e
    }
}

/// The column of braille dot `k`.
pub open spec fn dot_column(k: int) -> int {
    if k == 3 || k == 4 || k == 5 || k == 7 {
        1
    } else {
        0
    }
}

/// The row of braille dot `k`.
pub open spec fn dot_row(k: int) -> int {
    if k < 3 {
        k
    } else if k < 6 {
        k - 3
    } else {
        3
    }
}

/// The bit of braille dot `k` in a pattern.
pub open spec fn dot_bit(k: int) -> u8 {
    if k == 0 {
        0x01
    } else if k == 1 {
        0x02
    } else if k == 2 {
        0x04
    } else if k == 3 {
        0x08
    } else if k == 4 {
        0x10
    } else if k == 5 {
        0x20
    } else if k == 6 {
        0x40
    } else {
        0x80
    }
}

/// Whether the pixel lies in braille dot `k`: a rectangle in the middle of the
/// dot's share of the cell.  A share too small for a dot holds none.
pub open spec fn in_dot(cell: CellRect, k: int, px: int, py: int) -> bool {
    let share_w = cell.w as int / 2;
    let share_h = cell.h as int / 4;
    let w = dot_extent(share_w as nat);
    let h = dot_extent(share_h as nat);
    let left = cell.x + dot_column(k) * share_w + (share_w - w) / 2;
    let top = cell.y + dot_row(k) * share_h + (share_h - h) / 2;
    &&& w <= share_w
    &&& h <= share_h
    &&& left <= px < left + w
    &&& top <= py < top + h
}

/// Whether the pixel lies in a dot that the pattern raises.
pub open spec fn dot_lit(cell: CellRect, dots: u8, k: int, px: int, py: int) -> bool {
    dots & dot_bit(k) != 0 && in_dot(cell, k, px, py)
}

/// Whether one of the first `n` dots that the pattern raises holds the pixel.
pub open spec fn dots_cover(cell: CellRect, dots: u8, n: int, px: int, py: int) -> bool {
    exists|k: int| 0 <= k < n && #[trigger] dot_lit(cell, dots, k, px, py)
}

/// The larger of the two.
pub open spec fn at_least(v: int, least: int) -> int {
    if v < least {
        least
    } else {
        v
    }
}

impl BoxShape {
    /// Whether the shape covers the pixel in the given cell.
    pub open spec fn covers(self, cell: CellRect, px: int, py: int) -> bool {
        let x = cell.x as int;
        let y = cell.y as int;
        let w = cell.w as int;
        let h = cell.h as int;
        let mx = cell.mid_x();
        let my = cell.mid_y();
        match self {
            BoxShape::Strokes { across, upright } => {
                ||| py == my && match across {
                    Across::Nothing => false,
                    Across::Left => x <= px <= mx,
                    Across::Right => mx <= px < x + w,
                    Across::Full => x <= px < x + w,
                }
                ||| px == mx && match upright {
                    Upright::Nothing => false,
                    Upright::Upper => y <= py <= my,
                    Upright::Lower => my <= py < y + h,
                    Upright::Full => y <= py < y + h,
                }
            },
            BoxShape::ThickAcross => my - 1 <= py <= my + 1 && x <= px < x + w,
            BoxShape::ThickUpright => mx - 1 <= px <= mx + 1 && y <= py < y + h,
            BoxShape::DashedAcross => py == my && x <= px < x + w && (px - x) % 4 < 2,
            BoxShape::DashedUpright => px == mx && y <= py < y + h && (py - y) % 4 < 2,
            BoxShape::DoubleAcross => (py == my - 1 || py == my + 1) && x <= px < x + w,
            BoxShape::DoubleUpright => (px == mx - 1 || px == mx + 1) && y <= py < y + h,
            BoxShape::UpperHalf => cell.contains(px, py) && py < my,
            BoxShape::LowerHalf => cell.contains(px, py) && py >= my,
            BoxShape::LeftHalf => cell.contains(px, py) && px < mx,
            BoxShape::RightHalf => cell.contains(px, py) && px >= mx,
            BoxShape::Filled { pattern } => cell.contains(px, py) && pattern.fills(px, py),
            BoxShape::LowerEighths { eighths } => cell.contains(px, py) && py >= y + h - h
                * eighths / 8,
            BoxShape::LeftEighths { eighths } => cell.contains(px, py) && px < x + w * eighths / 8,
            BoxShape::UpperEighth => x <= px < x + w && y <= py < y + at_least(h / 8, 1),
            BoxShape::RightEighth => y <= py < y + h && x + w - at_least(w / 8, 1) <= px < x + w,
            BoxShape::Diagonals { rising, falling } => {
                &&& 0 <= py - y < h
                &&& py - y < w
                &&& {
                    ||| rising && px == x + w - 1 - (py - y) * w / h
                    ||| falling && px == x + (py - y) * w / h
                }
            },
            BoxShape::HalvesAcross { left, right } => {
                ||| left.reaches(py - my) && x <= px <= mx
                ||| right.reaches(py - my) && mx <= px < x + w
            },
            BoxShape::HalvesUpright { upper, lower } => {
                ||| upper.reaches(px - mx) && y <= py <= my
                ||| lower.reaches(px - mx) && my <= py < y + h
            },
            BoxShape::Quadrants { upper_left, upper_right, lower_left, lower_right } => {
                cell.contains(px, py) && if py < my {
                    if px < mx {
                        upper_left
                    } else {
                        upper_right
                    }
                } else if px < mx {
                    lower_left
                } else {
                    lower_right
                }
            },
            BoxShape::Braille { dots } => dots_cover(cell, dots, 8, px, py),
        }
    }
}

/// A row of a diagonal stays within the cell's width.
proof fn lemma_diagonal_step(i: int, w: int, h: int)
    by (nonlinear_arith)
    requires
        0 <= i < h,
        0 < w,
    ensures
        0 <= i * w / h < w,
{
}

/// Draws one of the diagonals: rising to the right, or falling.
fn draw_diagonal(fb: &mut Framebuffer, cell: CellRect, rising: bool, color: Color)
    requires
        old(fb).wf(),
        cell.wf(),
    ensures
        final(fb).wf(),
        final(fb).same_size(*old(fb)),
        forall|px: int, py: int|
            old(fb).has(px, py) ==> #[trigger] final(fb).at(px, py) == if (BoxShape::Diagonals {
                rising,
                falling: !rising,
            }).covers(cell, px, py) {
                color
            } else {
                old(fb).at(px, py)
            },
{
    let shorter: usize = if cell.h < cell.w {
        cell.h
    } else {
        cell.w
    };
    let shape = Ghost(BoxShape::Diagonals { rising, falling: !rising });
    let ghost before = *fb;
    let mut i: usize = 0;
    while i < shorter
        invariant
            before.wf(),
            fb.wf(),
            fb.same_size(before),
            cell.wf(),
            i <= shorter,
            shorter <= cell.h,
            shorter <= cell.w,
            shape@ == (BoxShape::Diagonals { rising, falling: !rising }),
            forall|px: int, py: int|
                before.has(px, py) ==> #[trigger] fb.at(px, py) == if shape@.covers(cell, px, py)
                    && py - cell.y < i {
                    color
                } else {
                    before.at(px, py)
                },
        decreases shorter - i,
    {
        proof {
            lemma_diagonal_step(i as int, cell.w as int, cell.h as int);
            assert(i * cell.w <= 0xffff_ffff_ffff_ffff * 0xffff_ffff_ffff_ffff) by (nonlinear_arith)
                requires
                    i <= 0xffff_ffff_ffff_ffff,
                    cell.w <= 0xffff_ffff_ffff_ffff,
            ;
        }
        let step: usize = (i as u128 * cell.w as u128 / cell.h as u128) as usize;
        let px: usize = if rising {
            cell.x + cell.w - 1 - step
        } else {
            cell.x + step
        };
        fb.set_pixel(px, cell.y + i, color);
        i = i + 1;
    }
}

/// The extent of a braille dot whose share of the cell has extent `n`.
fn braille_extent(n: usize) -> (r: usize)
    ensures
        r == dot_extent(n as nat),
{
    let e: usize = seven_tenths().cell_edge(n);
    if e < 2 {
        2
    } else {
        e
    }
}

/// Draws the raised dots of a braille pattern.
fn draw_braille(fb: &mut Framebuffer, cell: CellRect, dots: u8, color: Color)
    requires
        old(fb).wf(),
        cell.wf(),
    ensures
        final(fb).wf(),
        final(fb).same_size(*old(fb)),
        forall|px: int, py: int|
            old(fb).has(px, py) ==> #[trigger] final(fb).at(px, py) == if (BoxShape::Braille {
                dots,
            }).covers(cell, px, py) {
                color
            } else {
                old(fb).at(px, py)
            },
{
    let share_w: usize = cell.w / 2;
    let share_h: usize = cell.h / 4;
    let w: usize = braille_extent(share_w);
    let h: usize = braille_extent(share_h);
    if w > share_w || h > share_h {
        return ;
    }
    let ghost before = *fb;
    let mut k: usize = 0;
    while k < 8
        invariant
            before.wf(),
            fb.wf(),
            fb.same_size(before),
            cell.wf(),
            k <= 8,
            share_w == cell.w as int / 2,
            share_h == cell.h as int / 4,
            w == dot_extent(share_w as nat),
            h == dot_extent(share_h as nat),
            w <= share_w,
            h <= share_h,
            forall|px: int, py: int|
                before.has(px, py) ==> #[trigger] fb.at(px, py) == if dots_cover(
                    cell,
                    dots,
                    k as int,
                    px,
                    py,
                ) {
                    color
                } else {
                    before.at(px, py)
                },
        decreases 8 - k,
    {
        let bit: u8 = match k {
            0 => 0x01,
            1 => 0x02,
            2 => 0x04,
            3 => 0x08,
            4 => 0x10,
            5 => 0x20,
            6 => 0x40,
            _ => 0x80,
        };
        let column: usize = if k == 3 || k == 4 || k == 5 || k == 7 {
            1
        } else {
            0
        };
        let row: usize = if k < 3 {
            k
        } else if k < 6 {
            k - 3
        } else {
            3
        };
        let ghost mid = *fb;
        proof {
            assert(bit == dot_bit(k as int));
            assert(column == dot_column(k as int));
            assert(row == dot_row(k as int));
            assert(column * share_w <= share_w) by (nonlinear_arith)
                requires
                    0 <= column <= 1,
            ;
            assert(row * share_h <= 3 * share_h) by (nonlinear_arith)
                requires
                    0 <= row <= 3,
            ;
        }
        if dots & bit != 0 {
            let left: usize = cell.x + column * share_w + (share_w - w) / 2;
            let top: usize = cell.y + row * share_h + (share_h - h) / 2;
            fb.fill_rect(left, top, w, h, color);
        }
        proof {
            assert forall|px: int, py: int| before.has(px, py) implies #[trigger] fb.at(px, py) == (
            if dots_cover(cell, dots, k + 1, px, py) {
                color
            } else {
                before.at(px, py)
            }) by {
                assert(mid.has(px, py));
                let seen = mid.at(px, py);
                if dot_lit(cell, dots, k as int, px, py) {
                    assert(fb.at(px, py) == color);
                } else {
                    assert(fb.at(px, py) == seen);
                    assert(dots_cover(cell, dots, k + 1, px, py) ==> dots_cover(
                        cell,
                        dots,
                        k as int,
                        px,
                        py,
                    ));
                }
            }
        }
        k = k + 1;
    }
}

/// Fills `len` columns from `x` on, as many rows around `middle` as the weight
/// reaches.
fn fill_band_across(
    fb: &mut Framebuffer,
    x: usize,
    len: usize,
    middle: usize,
    weight: Weight,
    color: Color,
)
    requires
        old(fb).wf(),
    ensures
        final(fb).wf(),
        final(fb).same_size(*old(fb)),
        forall|px: int, py: int|
            old(fb).has(px, py) ==> #[trigger] final(fb).at(px, py) == if weight.reaches(
                py - middle,
            ) && x <= px < x + len {
                color
            } else {
                old(fb).at(px, py)
            },
{
    match weight {
        Weight::Nothing => {},
        Weight::Light => fb.fill_rect(x, middle, len, 1, color),
        Weight::Heavy => {
            if middle == 0 {
                fb.fill_rect(x, 0, len, 2, color);
            } else {
                fb.fill_rect(x, middle - 1, len, 3, color);
            }
        },
    }
}

/// Fills `len` rows from `y` on, as many columns around `middle` as the weight
/// reaches.
fn fill_band_upright(
    fb: &mut Framebuffer,
    y: usize,
    len: usize,
    middle: usize,
    weight: Weight,
    color: Color,
)
    requires
        old(fb).wf(),
    ensures
        final(fb).wf(),
        final(fb).same_size(*old(fb)),
        forall|px: int, py: int|
            old(fb).has(px, py) ==> #[trigger] final(fb).at(px, py) == if weight.reaches(
                px - middle,
            ) && y <= py < y + len {
                color
            } else {
                old(fb).at(px, py)
            },
{
    match weight {
        Weight::Nothing => {},
        Weight::Light => fb.fill_rect(middle, y, 1, len, color),
        Weight::Heavy => {
            if middle == 0 {
                fb.fill_rect(0, y, 2, len, color);
            } else {
                fb.fill_rect(middle - 1, y, 3, len, color);
            }
        },
    }
}

/// The picture is as before but for the shape in its cell.
pub open spec fn is_laid(
    before: Framebuffer,
    after: Framebuffer,
    shape: BoxShape,
    cell: CellRect,
    color: Color,
) -> bool {
    &&& after.wf()
    &&& after.same_size(before)
    &&& forall|px: int, py: int|
        before.has(px, py) ==> #[trigger] after.at(px, py) == if shape.covers(cell, px, py) {
            color
        } else {
            before.at(px, py)
        }
}

/// Draws strokes through the middle of a cell.
fn draw_strokes(fb: &mut Framebuffer, across: Across, upright: Upright, cell: CellRect, color: Color)
    requires
        old(fb).wf(),
        cell.wf(),
    ensures
        is_laid(*old(fb), *final(fb), (BoxShape::Strokes { across, upright }), cell, color),
{
    let x: usize = cell.x;
    let y: usize = cell.y;
    let w: usize = cell.w;
    let h: usize = cell.h;
    let mx: usize = x + w / 2;
    let my: usize = y + h / 2;
    match across {
        Across::Nothing => {},
        Across::Left => fb.fill_rect(x, my, w / 2, 1, color),
        Across::Right => fb.fill_rect(mx, my, x + w - mx, 1, color),
        Across::Full => fb.fill_rect(x, my, w, 1, color),
    }
    if let Across::Left = across {
        fb.fill_rect(mx, my, 1, 1, color);
    }
    match upright {
        Upright::Nothing => {},
        Upright::Upper => fb.fill_rect(mx, y, 1, h / 2, color),
        Upright::Lower => fb.fill_rect(mx, my, 1, y + h - my, color),
        Upright::Full => fb.fill_rect(mx, y, 1, h, color),
    }
    if let Upright::Upper = upright {
        fb.fill_rect(mx, my, 1, 1, color);
    }
}

/// Draws lines of other kinds.
fn draw_lines(fb: &mut Framebuffer, shape: BoxShape, cell: CellRect, color: Color)
    requires
        old(fb).wf(),
        cell.wf(),
        shape is ThickAcross || shape is ThickUpright || shape is DashedAcross
            || shape is DashedUpright || shape is DoubleAcross || shape is DoubleUpright
            || shape is HalvesAcross || shape is HalvesUpright,
    ensures
        is_laid(*old(fb), *final(fb), shape, cell, color),
{
    let x: usize = cell.x;
    let y: usize = cell.y;
    let w: usize = cell.w;
    let h: usize = cell.h;
    let mx: usize = x + w / 2;
    let my: usize = y + h / 2;
    match shape {
        BoxShape::ThickAcross => {
            if my == 0 {
                fb.fill_rect(x, 0, w, 2, color);
            } else {
                fb.fill_rect(x, my - 1, w, 3, color);
            }
        },
        BoxShape::ThickUpright => {
            if mx == 0 {
                fb.fill_rect(0, y, 2, h, color);
            } else {
                fb.fill_rect(mx - 1, y, 3, h, color);
            }
        },
        BoxShape::DashedAcross => {
            if my < usize::MAX {
                fb.fill_pattern(x, my, x + w, my + 1, Pattern::DashedAcross { origin: x }, color);
            }
        },
        BoxShape::DashedUpright => {
            if mx < usize::MAX {
                fb.fill_pattern(mx, y, mx + 1, y + h, Pattern::DashedDown { origin: y }, color);
            }
        },
        BoxShape::DoubleAcross => {
            if my > 0 {
                fb.fill_rect(x, my - 1, w, 1, color);
            }
            if my < usize::MAX {
                fb.fill_rect(x, my + 1, w, 1, color);
            }
        },
        BoxShape::DoubleUpright => {
            if mx > 0 {
                fb.fill_rect(mx - 1, y, 1, h, color);
            }
            if mx < usize::MAX {
                fb.fill_rect(mx + 1, y, 1, h, color);
            }
        },
        BoxShape::HalvesAcross { left, right } => {
            fill_band_across(fb, x, w / 2 + 1, my, left, color);
            fill_band_across(fb, mx, x + w - mx, my, right, color);
        },
        BoxShape::HalvesUpright { upper, lower } => {
            fill_band_upright(fb, y, h / 2 + 1, mx, upper, color);
            fill_band_upright(fb, my, y + h - my, mx, lower, color);
        },
        _ => {},
    }
}

/// Fills a part of a cell.
fn draw_block(fb: &mut Framebuffer, shape: BoxShape, cell: CellRect, color: Color)
    requires
        old(fb).wf(),
        cell.wf(),
        shape is UpperHalf || shape is LowerHalf || shape is LeftHalf || shape is RightHalf
            || shape is Filled || shape is LowerEighths || shape is LeftEighths
            || shape is UpperEighth || shape is RightEighth || shape is Quadrants,
    ensures
        is_laid(*old(fb), *final(fb), shape, cell, color),
{
    let x: usize = cell.x;
    let y: usize = cell.y;
    let w: usize = cell.w;
    let h: usize = cell.h;
    let mx: usize = x + w / 2;
    let my: usize = y + h / 2;
    match shape {
        BoxShape::UpperHalf => fb.fill_rect(x, y, w, h / 2, color),
        BoxShape::LowerHalf => fb.fill_rect(x, my, w, y + h - my, color),
        BoxShape::LeftHalf => fb.fill_rect(x, y, w / 2, h, color),
        BoxShape::RightHalf => fb.fill_rect(mx, y, x + w - mx, h, color),
        BoxShape::Filled { pattern } => fb.fill_pattern(x, y, x + w, y + h, pattern, color),
        BoxShape::LowerEighths { eighths } => {
            proof {
                assert(0 <= h * eighths <= h * 255) by (nonlinear_arith)
                    requires
                        0 <= eighths <= 255,
                ;
            }
            let rows: u128 = h as u128 * eighths as u128 / 8;
            if rows < h as u128 {
                fb.fill_rect(x, y + h - rows as usize, w, rows as usize, color);
            } else {
                fb.fill_rect(x, y, w, h, color);
            }
        },
        BoxShape::LeftEighths { eighths } => {
            proof {
                assert(0 <= w * eighths <= w * 255) by (nonlinear_arith)
                    requires
                        0 <= eighths <= 255,
                ;
            }
            let columns: u128 = w as u128 * eighths as u128 / 8;
            if columns < w as u128 {
                fb.fill_rect(x, y, columns as usize, h, color);
            } else {
                fb.fill_rect(x, y, w, h, color);
            }
        },
        BoxShape::UpperEighth => {
            let rows: usize = if h / 8 < 1 {
                1
            } else {
                h / 8
            };
            fb.fill_rect(x, y, w, rows, color);
        },
        BoxShape::RightEighth => {
            let columns: usize = if w / 8 < 1 {
                1
            } else {
                w / 8
            };
            if x + w >= columns {
                fb.fill_rect(x + w - columns, y, columns, h, color);
            }
        },
        BoxShape::Quadrants { upper_left, upper_right, lower_left, lower_right } => {
            if upper_left {
                fb.fill_rect(x, y, w / 2, h / 2, color);
            }
            if upper_right {
                fb.fill_rect(mx, y, x + w - mx, h / 2, color);
            }
            if lower_left {
                fb.fill_rect(x, my, w / 2, y + h - my, color);
            }
            if lower_right {
                fb.fill_rect(mx, my, x + w - mx, y + h - my, color);
            }
        },
        _ => {},
    }
}

/// Draws a shape in its cell.
pub fn draw_shape(fb: &mut Framebuffer, shape: BoxShape, cell: CellRect, color: Color)
    requires
        old(fb).wf(),
        cell.wf(),
    ensures
        is_laid(*old(fb), *final(fb), shape, cell, color),
{
    match shape {
        BoxShape::Strokes { across, upright } => draw_strokes(fb, across, upright, cell, color),
        BoxShape::Diagonals { rising, falling } => {
            if rising {
                draw_diagonal(fb, cell, true, color);
            }
            if falling {
                draw_diagonal(fb, cell, false, color);
            }
        },
        BoxShape::Braille { dots } => draw_braille(fb, cell, dots, color),
        BoxShape::ThickAcross
        | BoxShape::ThickUpright
        | BoxShape::DashedAcross
        | BoxShape::DashedUpright
        | BoxShape::DoubleAcross
        | BoxShape::DoubleUpright
        | BoxShape::HalvesAcross { .. }
        | BoxShape::HalvesUpright { .. } => draw_lines(fb, shape, cell, color),
        _ => draw_block(fb, shape, cell, color),
    }
}

/// A braille dot lies in its cell.
proof fn lemma_dot_in_cell(cell: CellRect, k: int, px: int, py: int)
    requires
        0 <= k < 8,
        in_dot(cell, k, px, py),
    ensures
        cell.contains(px, py),
{
    let share_w = cell.w as int / 2;
    let share_h = cell.h as int / 4;
    assert(0 <= dot_column(k) * share_w <= share_w) by (nonlinear_arith)
        requires
            0 <= dot_column(k) <= 1,
            0 <= share_w,
    ;
    assert(0 <= dot_row(k) * share_h <= 3 * share_h) by (nonlinear_arith)
        requires
            0 <= dot_row(k) <= 3,
            0 <= share_h,
    ;
}

/// In a cell of at least three by three pixels, no shape reaches beyond the
/// cell: redrawing the cell's background removes all of it.
pub proof fn lemma_shape_stays_in_cell(shape: BoxShape, cell: CellRect, px: int, py: int)
    requires
        cell.w >= 3,
        cell.h >= 3,
        shape.covers(cell, px, py),
    ensures
        cell.contains(px, py),
{
    match shape {
        BoxShape::Diagonals { .. } => {
            lemma_diagonal_step(py - cell.y, cell.w as int, cell.h as int);
        },
        BoxShape::Braille { dots } => {
            let k = choose|k: int| 0 <= k < 8 && #[trigger] dot_lit(cell, dots, k, px, py);
            lemma_dot_in_cell(cell, k, px, py);
        },
        _ => {},
    }
}

/// Lines across two cells that share an edge meet: every pixel of their
/// middle row between the outer edges is covered by one of them.
pub proof fn lemma_lines_across_meet(left: CellRect, right: CellRect, px: int)
    requires
        left.x + left.w == right.x,
        left.y == right.y,
        left.h == right.h,
        left.x <= px < right.x + right.w,
    ensures
        shape_of(0x2500)->0.covers(left, px, left.mid_y()) || shape_of(0x2500)->0.covers(
            right,
            px,
            left.mid_y(),
        ),
{
}

/// Lines down two cells that share an edge meet in the same way.
pub proof fn lemma_lines_upright_meet(upper: CellRect, lower: CellRect, py: int)
    requires
        upper.y + upper.h == lower.y,
        upper.x == lower.x,
        upper.w == lower.w,
        upper.y <= py < lower.y + lower.h,
    ensures
        shape_of(0x2502)->0.covers(upper, upper.mid_x(), py) || shape_of(0x2502)->0.covers(
            lower,
            upper.mid_x(),
            py,
        ),
{
}

/// The corners and tees drawn with double lines, and the rounded corners, look
/// like the single-line ones.
pub proof fn lemma_double_like_single(cp: u32)
    requires
        0x2552 <= cp <= 0x2570,
    ensures
        shape_of(cp) == shape_of(
            if cp <= 0x2554 || cp == 0x256D {
                0x250C
            } else if cp <= 0x2557 || cp == 0x256E {
                0x2510
            } else if cp <= 0x255A || cp == 0x2570 {
                0x2514
            } else if cp <= 0x255D || cp == 0x256F {
                0x2518
            } else if cp <= 0x2560 {
                0x251C
            } else if cp <= 0x2563 {
                0x2524
            } else if cp <= 0x2566 {
                0x252C
            } else if cp <= 0x2569 {
                0x2534
            } else {
                0x253C
            },
        ),
{
}

/// An upper and a lower half block fill the cell between them, without a
/// common pixel; so do a left and a right one, and a quarter shade and the
/// three-quarter shade.
pub proof fn lemma_halves_partition(cell: CellRect, px: int, py: int)
    requires
        cell.contains(px, py),
    ensures
        shape_of(0x2580)->0.covers(cell, px, py) != shape_of(0x2584)->0.covers(cell, px, py),
        shape_of(0x258C)->0.covers(cell, px, py) != shape_of(0x2590)->0.covers(cell, px, py),
        shape_of(0x2591)->0.covers(cell, px, py) != shape_of(0x2593)->0.covers(cell, px, py),
        shape_of(0x2588)->0.covers(cell, px, py),
{
}

/// Every character of the box-drawing and block ranges, the black square and
/// every braille pattern has a shape, and no other character has one.
pub proof fn lemma_which_have_shapes(cp: u32)
    ensures
        shape_of(cp) is Some <==> 0x2500 <= cp <= 0x25A0 || 0x2800 <= cp <= 0x28FF,
{
}

/// Lines, corners, tees and crosses are made of arms, one pixel wide, from the
/// middle of the cell to its edges; two opposite arms reach from edge to edge.
/// Which arms a character has is what its
/// name in the standard says, whether it is light, heavy, double or rounded.
pub proof fn lemma_arms(cp: u32, cell: CellRect, px: int, py: int)
    requires
        cp == 0x2500 || cp == 0x2502 || 0x250C <= cp <= 0x254B || 0x2552 <= cp <= 0x2570,
    ensures
        ({
            let right_down = 0x250C <= cp <= 0x250F || 0x2552 <= cp <= 0x2554 || cp == 0x256D;
            let left_down = 0x2510 <= cp <= 0x2513 || 0x2555 <= cp <= 0x2557 || cp == 0x256E;
            let right_up = 0x2514 <= cp <= 0x2517 || 0x2558 <= cp <= 0x255A || cp == 0x2570;
            let left_up = 0x2518 <= cp <= 0x251B || 0x255B <= cp <= 0x255D || cp == 0x256F;
            let tee_right = 0x251C <= cp <= 0x2523 || 0x255E <= cp <= 0x2560;
            let tee_left = 0x2524 <= cp <= 0x252B || 0x2561 <= cp <= 0x2563;
            let tee_down = 0x252C <= cp <= 0x2533 || 0x2564 <= cp <= 0x2566;
            let tee_up = 0x2534 <= cp <= 0x253B || 0x2567 <= cp <= 0x2569;
            let cross = 0x253C <= cp <= 0x254B || 0x256A <= cp <= 0x256C;
            let left = cp == 0x2500 || left_down || left_up || tee_left || tee_down || tee_up
                || cross;
            let right = cp == 0x2500 || right_down || right_up || tee_right || tee_down || tee_up
                || cross;
            let up = cp == 0x2502 || right_up || left_up || tee_right || tee_left || tee_up
                || cross;
            let down = cp == 0x2502 || right_down || left_down || tee_right || tee_left || tee_down
                || cross;
            let mx = cell.x + cell.w as int / 2;
            let my = cell.y + cell.h as int / 2;
            shape_of(cp)->0.covers(cell, px, py) <==> {
                ||| left && !right && py == my && cell.x <= px <= mx
                ||| right && !left && py == my && mx <= px < cell.x + cell.w
                ||| left && right && py == my && cell.x <= px < cell.x + cell.w
                ||| up && !down && px == mx && cell.y <= py <= my
                ||| down && !up && px == mx && my <= py < cell.y + cell.h
                ||| up && down && px == mx && cell.y <= py < cell.y + cell.h
            }
        }),
{
}

/// Thick lines take a pixel more on either side, double lines only these, and
/// dashed lines two pixels of every four from the edge on.
pub proof fn lemma_thick_double_dashed(cp: u32, cell: CellRect, px: int, py: int)
    ensures
        ({
            let mx = cell.x + cell.w as int / 2;
            let my = cell.y + cell.h as int / 2;
            let broad = cell.x <= px < cell.x + cell.w;
            let tall = cell.y <= py < cell.y + cell.h;
            let covered = shape_of(cp)->0.covers(cell, px, py);
            &&& cp == 0x2501 ==> (covered <==> broad && my - 1 <= py <= my + 1)
            &&& cp == 0x2503 ==> (covered <==> tall && mx - 1 <= px <= mx + 1)
            &&& cp == 0x2550 ==> (covered <==> broad && (py == my - 1 || py == my + 1))
            &&& cp == 0x2551 ==> (covered <==> tall && (px == mx - 1 || px == mx + 1))
            &&& (cp == 0x2504 || cp == 0x2505 || cp == 0x2508 || cp == 0x2509 || cp == 0x254C || cp
                == 0x254D) ==> (covered <==> broad && py == my && (px - cell.x) % 4 < 2)
            &&& (cp == 0x2506 || cp == 0x2507 || cp == 0x250A || cp == 0x250B || cp == 0x254E || cp
                == 0x254F) ==> (covered <==> tall && px == mx && (py - cell.y) % 4 < 2)
        }),
{
}

/// Half lines reach from one edge to the middle, light ones one pixel wide and
/// heavy ones three; some change their weight in the middle.
pub proof fn lemma_half_lines(cp: u32, cell: CellRect, px: int, py: int)
    requires
        0x2574 <= cp <= 0x257F,
    ensures
        ({
            let mx = cell.x + cell.w as int / 2;
            let my = cell.y + cell.h as int / 2;
            let left = cell.x <= px <= mx;
            let right = mx <= px < cell.x + cell.w;
            let up = cell.y <= py <= my;
            let down = my <= py < cell.y + cell.h;
            let light_row = py == my;
            let heavy_row = my - 1 <= py <= my + 1;
            let light_column = px == mx;
            let heavy_column = mx - 1 <= px <= mx + 1;
            shape_of(cp)->0.covers(cell, px, py) <==> {
                ||| (cp == 0x2574 || cp == 0x257C) && left && light_row
                ||| (cp == 0x2576 || cp == 0x257E) && right && light_row
                ||| (cp == 0x2578 || cp == 0x257E) && left && heavy_row
                ||| (cp == 0x257A || cp == 0x257C) && right && heavy_row
                ||| (cp == 0x2575 || cp == 0x257D) && up && light_column
                ||| (cp == 0x2577 || cp == 0x257F) && down && light_column
                ||| (cp == 0x2579 || cp == 0x257F) && up && heavy_column
                ||| (cp == 0x257B || cp == 0x257D) && down && heavy_column
            }
        }),
{
}

/// Diagonals have one pixel in each of their rows, at the column that lies
/// there in proportion: counted from the left where they fall, from the right
/// where they rise.  They have as many rows as the cell's shorter side.
pub proof fn lemma_diagonals(cp: u32, cell: CellRect, px: int, py: int)
    requires
        0x2571 <= cp <= 0x2573,
    ensures
        ({
            let w = cell.w as int;
            let h = cell.h as int;
            let i = py - cell.y;
            let from_left = px - cell.x;
            let from_right = cell.x + w - 1 - px;
            let row = 0 <= i < w && i < h;
            let falls = from_left * h <= i * w < (from_left + 1) * h;
            let rises = from_right * h <= i * w < (from_right + 1) * h;
            shape_of(cp)->0.covers(cell, px, py) <==> row && {
                ||| cp != 0x2571 && falls
                ||| cp != 0x2572 && rises
            }
        }),
{
    let w = cell.w as int;
    let h = cell.h as int;
    let i = py - cell.y;
    if h > 0 {
        lemma_in_proportion(i * w, h, px - cell.x);
        lemma_in_proportion(i * w, h, cell.x + w - 1 - px);
    }
}

/// A quotient is the one number that lies in proportion.
proof fn lemma_in_proportion(n: int, d: int, q: int)
    requires
        d > 0,
    ensures
        n / d == q <==> q * d <= n < (q + 1) * d,
{
    vstd::arithmetic::div_mod::lemma_fundamental_div_mod(n, d);
    let k = n / d;
    assert(d * k == k * d && (k + 1) * d == k * d + d) by (nonlinear_arith);
    if q * d <= n < (q + 1) * d {
        assert(q == k) by (nonlinear_arith)
            requires
                q * d <= n < (q + 1) * d,
                k * d <= n < (k + 1) * d,
                d > 0,
        ;
    }
}

/// Blocks fill a part of their cell and nothing else, but for the thin ones at
/// the top and at the right, which have a row or a column in any case.  The upper and the left
/// half have the smaller part of an odd extent, the lower and the right half
/// the rest.  Eighths fill as many rows from below, or columns from the left, as
/// have room in that many eighths of the cell.
pub proof fn lemma_blocks(cp: u32, cell: CellRect, px: int, py: int)
    requires
        0x2580 <= cp <= 0x25A0,
    ensures
        ({
            let x = px - cell.x;
            let y = py - cell.y;
            let w = cell.w as int;
            let h = cell.h as int;
            let inside = 0 <= x < w && 0 <= y < h;
            let upper = 2 * (y + 1) <= h;
            let left = 2 * (x + 1) <= w;
            let rising = cp - 0x2580;
            let shrinking = 0x2590 - cp;
            let covered = shape_of(cp)->0.covers(cell, px, py);
            &&& covered && cp != 0x2594 && cp != 0x2595 ==> inside
            &&& cp == 0x2594 ==> (covered <==> 0 <= x < w && (y == 0 || 0 <= y && 8 * (y + 1) <= h))
            &&& cp == 0x2595 ==> (covered <==> 0 <= y < h && (x == w - 1 || x < w && 8 * (w - x)
                <= w))
            &&& inside ==> {
                &&& cp == 0x2580 ==> covered == upper
                &&& cp == 0x2584 ==> covered == !upper
                &&& cp == 0x258C ==> covered == left
                &&& cp == 0x2590 ==> covered == !left
                &&& 0x2581 <= cp <= 0x2587 && cp != 0x2584 ==> covered == (8 * (h - y) <= h * rising)
                &&& 0x2589 <= cp <= 0x258F && cp != 0x258C ==> covered == (8 * (x + 1) <= w
                    * shrinking)
                &&& (cp == 0x2588 || cp == 0x25A0) ==> covered
                &&& cp == 0x2591 ==> covered == ((px + py) % 4 == 0)
                &&& cp == 0x2592 ==> covered == ((px + py) % 2 == 0)
                &&& cp == 0x2593 ==> covered == ((px + py) % 4 != 0)
                &&& (cp == 0x2596 || cp == 0x2599 || cp == 0x259B || cp == 0x259E || cp == 0x259F)
                    ==> (!upper && left ==> covered)
                &&& (cp == 0x2597 || cp == 0x2599 || cp == 0x259A || cp == 0x259C || cp == 0x259F)
                    ==> (!upper && !left ==> covered)
                &&& (cp == 0x2598 || cp == 0x2599 || cp == 0x259A || cp == 0x259B || cp == 0x259C)
                    ==> (upper && left ==> covered)
                &&& (cp == 0x259B || cp == 0x259C || cp == 0x259D || cp == 0x259E || cp == 0x259F)
                    ==> (upper && !left ==> covered)
                &&& (cp == 0x2597 || cp == 0x2598 || cp == 0x259A || cp == 0x259C || cp == 0x259D)
                    ==> (!upper && left ==> !covered)
                &&& (cp == 0x2596 || cp == 0x2598 || cp == 0x259B || cp == 0x259D || cp == 0x259E)
                    ==> (!upper && !left ==> !covered)
                &&& (cp == 0x2596 || cp == 0x2597 || cp == 0x259D || cp == 0x259E || cp == 0x259F)
                    ==> (upper && left ==> !covered)
                &&& (cp == 0x2596 || cp == 0x2597 || cp == 0x2598 || cp == 0x2599 || cp == 0x259A)
                    ==> (upper && !left ==> !covered)
            }
        }),
{
    let w = cell.w as int;
    let h = cell.h as int;
    if 0x2581 <= cp <= 0x2587 {
        let k = (cp - 0x2580) as int;
        assert(0 <= h * k <= 8 * h) by (nonlinear_arith)
            requires
                0 <= k <= 8,
                h >= 0,
        ;
    }
    if 0x2589 <= cp <= 0x258F {
        let k = (0x2590 - cp) as int;
        assert(0 <= w * k <= 8 * w) by (nonlinear_arith)
            requires
                0 <= k <= 8,
                w >= 0,
        ;
    }
}

/// Braille patterns have two columns of four dots.  The low six bits of the
/// character raise the upper three dots of the left and of the right column,
/// and the next two bits the lowest ones.  A dot lies in the middle of its share
/// of the cell, and a share that is too small for a dot shows none.
pub proof fn lemma_braille_dots(cp: u32, cell: CellRect, px: int, py: int)
    requires
        0x2800 <= cp <= 0x28FF,
    ensures
        ({
            let bits = (cp - 0x2800) as u8;
            let share_w = cell.w as int / 2;
            let share_h = cell.h as int / 4;
            let w = dot_extent(share_w as nat) as int;
            let h = dot_extent(share_h as nat) as int;
            let dot = |col: int, row: int|
                {
                    let x = px - (cell.x + col * share_w + (share_w - w) / 2);
                    let y = py - (cell.y + row * share_h + (share_h - h) / 2);
                    w <= share_w && h <= share_h && 0 <= x < w && 0 <= y < h
                };
            shape_of(cp)->0.covers(cell, px, py) <==> {
                ||| bits & 1u8 != 0 && dot(0, 0)
                ||| bits & 2u8 != 0 && dot(0, 1)
                ||| bits & 4u8 != 0 && dot(0, 2)
                ||| bits & 8u8 != 0 && dot(1, 0)
                ||| bits & 16u8 != 0 && dot(1, 1)
                ||| bits & 32u8 != 0 && dot(1, 2)
                ||| bits & 64u8 != 0 && dot(0, 3)
                ||| bits & 128u8 != 0 && dot(1, 3)
            }
        }),
{
    let bits = (cp - 0x2800) as u8;
    assert(shape_of(cp) == Some(BoxShape::Braille { dots: bits }));
    if bits & 1u8 != 0 {
        assert(dot_lit(cell, bits, 0, px, py) == in_dot(cell, 0, px, py));
    }
    if bits & 2u8 != 0 {
        assert(dot_lit(cell, bits, 1, px, py) == in_dot(cell, 1, px, py));
    }
    if bits & 4u8 != 0 {
        assert(dot_lit(cell, bits, 2, px, py) == in_dot(cell, 2, px, py));
    }
    if bits & 8u8 != 0 {
        assert(dot_lit(cell, bits, 3, px, py) == in_dot(cell, 3, px, py));
    }
    if bits & 16u8 != 0 {
        assert(dot_lit(cell, bits, 4, px, py) == in_dot(cell, 4, px, py));
    }
    if bits & 32u8 != 0 {
        assert(dot_lit(cell, bits, 5, px, py) == in_dot(cell, 5, px, py));
    }
    if bits & 64u8 != 0 {
        assert(dot_lit(cell, bits, 6, px, py) == in_dot(cell, 6, px, py));
    }
    if bits & 128u8 != 0 {
        assert(dot_lit(cell, bits, 7, px, py) == in_dot(cell, 7, px, py));
    }
    if dots_cover(cell, bits, 8, px, py) {
        let k = choose|k: int| 0 <= k < 8 && #[trigger] dot_lit(cell, bits, k, px, py);
        assert(k == 0 || k == 1 || k == 2 || k == 3 || k == 4 || k == 5 || k == 6 || k == 7);
    }
}

/// A braille dot has seven tenths of its share, and two pixels at least: seven
/// tenths as the nearest number of 24 bits, the product rounded to 24 bits and
/// its fraction dropped.
pub proof fn lemma_dot_extent(n: nat)
    requires
        n <= 0x100_0000,
    ensures
        ({
            let e = dot_extent(n);
            let seven_tenths = 11_744_051nat;
            let exact = round24(n * seven_tenths);
            &&& -5 <= 10 * seven_tenths - 7 * 0x100_0000 <= 5
            &&& e >= 2
            &&& e > 2 ==> e * 0x100_0000 <= exact < (e + 1) * 0x100_0000
            &&& e == 2 ==> exact < 3 * 0x100_0000
        }),
{
    let size = seven_tenths_spec();
    lemma_edge_is_floor(size, n);
    lemma2_to64();
    assert(pow2(24) == 0x100_0000);
    let m = 11_744_051nat;
    assert(n * m <= 0x100_0000 * m) by (nonlinear_arith)
        requires
            n <= 0x100_0000,
    ;
    lemma_round24_error(n * m);
}

} // verus!
