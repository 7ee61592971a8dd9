use rdpterm::framebuffer::Color;
use rdpterm::framebuffer::Framebuffer;
use rdpterm::framebuffer::Pattern;
use rdpterm::terminal::boxes::box_shape;
use rdpterm::terminal::boxes::draw_shape;
use rdpterm::terminal::boxes::Across;
use rdpterm::terminal::boxes::BoxShape;
use rdpterm::terminal::boxes::CellRect;
use rdpterm::terminal::boxes::Upright;
use rdpterm::terminal::boxes::Weight;

const BLACK: Color = Color { r: 0, g: 0, b: 0 };
const INK: Color = Color { r: 200, g: 100, b: 50 };

fn shape(cp: u32) -> BoxShape {
    box_shape(cp).unwrap()
}

fn drawn(cp: u32, cell: CellRect, width: usize, height: usize) -> Vec<Vec<bool>> {
    let mut fb = Framebuffer::new(width, height, BLACK);
    draw_shape(&mut fb, shape(cp), cell, INK);
    (0..height)
        .map(|y| {
            (0..width)
                .map(|x| fb.get_pixel(x, y).unwrap() == INK)
                .collect()
        })
        .collect()
}

/// Whether the character's shape has the pixel at `dx`, `dy` from the corner of
/// a cell of `w` by `h` pixels that stands at an even diagonal.
fn naive(cp: u32, x: usize, y: usize, w: usize, h: usize, dx: i64, dy: i64) -> bool {
    let (cw, ch) = (w as i64, h as i64);
    let (mx, my) = (cw / 2, ch / 2);
    let inside = dx >= 0 && dx < cw && dy >= 0 && dy < ch;
    let right = dy == my && dx >= mx && dx < cw;
    let left = dy == my && dx >= 0 && dx <= mx;
    let across = dy == my && dx >= 0 && dx < cw;
    let lower = dx == mx && dy >= my && dy < ch;
    let upper = dx == mx && dy >= 0 && dy <= my;
    let upright = dx == mx && dy >= 0 && dy < ch;
    let heavy_right = (dy - my).abs() <= 1 && dx >= mx && dx < cw;
    let heavy_left = (dy - my).abs() <= 1 && dx >= 0 && dx <= mx;
    let heavy_lower = (dx - mx).abs() <= 1 && dy >= my && dy < ch;
    let heavy_upper = (dx - mx).abs() <= 1 && dy >= 0 && dy <= my;
    let diagonal = x as i64 + dx + y as i64 + dy;
    match cp {
        0x2500 => across,
        0x2501 => dx >= 0 && dx < cw && (dy - my).abs() <= 1,
        0x2502 => upright,
        0x2503 => dy >= 0 && dy < ch && (dx - mx).abs() <= 1,
        0x250C..=0x250F | 0x2552..=0x2554 | 0x256D => right || lower,
        0x2510..=0x2513 | 0x2555..=0x2557 | 0x256E => left || lower,
        0x2514..=0x2517 | 0x2558..=0x255A | 0x2570 => right || upper,
        0x2518..=0x251B | 0x255B..=0x255D | 0x256F => left || upper,
        0x251C..=0x2523 | 0x255E..=0x2560 => upright || right,
        0x2524..=0x252B | 0x2561..=0x2563 => upright || left,
        0x252C..=0x2533 | 0x2564..=0x2566 => across || lower,
        0x2534..=0x253B | 0x2567..=0x2569 => across || upper,
        0x253C..=0x254B | 0x256A..=0x256C => across || upright,
        0x2504 | 0x2505 | 0x2508 | 0x2509 | 0x254C | 0x254D => across && dx % 4 < 2,
        0x2506 | 0x2507 | 0x250A | 0x250B | 0x254E | 0x254F => upright && dy % 4 < 2,
        0x2550 => dx >= 0 && dx < cw && (dy - my).abs() == 1,
        0x2551 => dy >= 0 && dy < ch && (dx - mx).abs() == 1,
        0x2571 => (0..cw.min(ch)).any(|i| dx == cw - 1 - i * cw / ch && dy == i),
        0x2572 => (0..cw.min(ch)).any(|i| dx == i * cw / ch && dy == i),
        0x2573 => naive(0x2571, x, y, w, h, dx, dy) || naive(0x2572, x, y, w, h, dx, dy),
        0x2574 => left,
        0x2575 => upper,
        0x2576 => right,
        0x2577 => lower,
        0x2578 => heavy_left,
        0x2579 => heavy_upper,
        0x257A => heavy_right,
        0x257B => heavy_lower,
        0x257C => left || heavy_right,
        0x257D => upper || heavy_lower,
        0x257E => heavy_left || right,
        0x257F => heavy_upper || lower,
        0x2596..=0x259F => {
            let quarter = if dy < my { 0 } else { 2 } + if dx < mx { 0 } else { 1 };
            let quarters: [&[usize]; 10] = [
                &[2],
                &[3],
                &[0],
                &[0, 2, 3],
                &[0, 3],
                &[0, 1, 2],
                &[0, 1, 3],
                &[1],
                &[1, 2],
                &[1, 2, 3],
            ];
            inside && quarters[cp as usize - 0x2596].contains(&quarter)
        }
        0x2580 => inside && dy < ch / 2,
        0x2584 => inside && dy >= ch / 2,
        0x2588 | 0x25A0 => inside,
        0x258C => inside && dx < cw / 2,
        0x2590 => inside && dx >= cw / 2,
        0x2591 => inside && diagonal % 4 == 0,
        0x2592 => inside && diagonal % 2 == 0,
        0x2593 => inside && diagonal % 4 != 0,
        0x2581..=0x2587 => inside && dy >= ch - ch * (cp as i64 - 0x2580) / 8,
        0x2589..=0x258F => inside && dx < cw * (8 - (cp as i64 - 0x2588)) / 8,
        0x2594 => inside && dy < (ch / 8).max(1),
        0x2595 => inside && dx >= cw - (cw / 8).max(1),
        0x2800..=0x28FF => {
            let bits = cp - 0x2800;
            let (dot_w, dot_h) = (w / 2, h / 4);
            let dots = [
                (0x01, 0, 0),
                (0x02, 0, 1),
                (0x04, 0, 2),
                (0x08, 1, 0),
                (0x10, 1, 1),
                (0x20, 1, 2),
                (0x40, 0, 3),
                (0x80, 1, 3),
            ];
            let dw = ((dot_w as f32 * 0.7) as usize).max(2);
            let dh = ((dot_h as f32 * 0.7) as usize).max(2);
            inside
                && dots.iter().any(|(bit, col, row)| {
                    let ox = (col * dot_w + (dot_w - dw) / 2) as i64;
                    let oy = (row * dot_h + (dot_h - dh) / 2) as i64;
                    bits & bit != 0
                        && dx >= ox
                        && dx < ox + dw as i64
                        && dy >= oy
                        && dy < oy + dh as i64
                })
        }
        _ => false,
    }
}

#[test]
fn every_shape_is_drawn_as_described() {
    let sizes = [(4, 8), (5, 9), (8, 16), (9, 19), (10, 19), (11, 23), (20, 41)];
    let (x, y) = (5, 7);
    for cp in (0x2500..=0x25A0).chain(0x2800..=0x28FF) {
        for (w, h) in sizes {
            let cell = CellRect { x, y, w, h };
            let picture = drawn(cp, cell, 30, 52);
            for (py, row) in picture.iter().enumerate() {
                for (px, lit) in row.iter().enumerate() {
                    let expected = naive(cp, x, y, w, h, px as i64 - 5, py as i64 - 7);
                    assert_eq!(*lit, expected, "U+{:04X} {}x{} at {},{}", cp, w, h, px, py);
                }
            }
        }
    }
}

#[test]
fn large_braille_dots_are_seven_tenths_of_their_share() {
    for (w, h) in [(64, 128), (101, 203), (333, 777)] {
        let picture = drawn(0x2801, CellRect { x: 0, y: 0, w, h }, w, h);
        let lit = picture.iter().flatten().filter(|p| **p).count();
        let dw = ((w / 2) as f32 * 0.7) as usize;
        let dh = ((h / 4) as f32 * 0.7) as usize;
        assert_eq!(lit, dw * dh);
    }
}

#[test]
fn shapes_have_names() {
    assert_eq!(
        shape(0x2500),
        BoxShape::Strokes { across: Across::Full, upright: Upright::Nothing }
    );
    assert_eq!(
        shape(0x256D),
        BoxShape::Strokes { across: Across::Right, upright: Upright::Lower }
    );
    assert_eq!(shape(0x2588), BoxShape::Filled { pattern: Pattern::Solid });
    assert_eq!(shape(0x25A0), BoxShape::Filled { pattern: Pattern::Solid });
    assert_eq!(shape(0x2593), BoxShape::Filled { pattern: Pattern::ThreeQuarters });
    assert_eq!(shape(0x2583), BoxShape::LowerEighths { eighths: 3 });
    assert_eq!(shape(0x258F), BoxShape::LeftEighths { eighths: 1 });
    assert_eq!(shape(0x2504), BoxShape::DashedAcross);
    assert_eq!(shape(0x250B), BoxShape::DashedUpright);
    assert_eq!(
        shape(0x2574),
        BoxShape::HalvesAcross { left: Weight::Light, right: Weight::Nothing }
    );
    assert_eq!(
        shape(0x257D),
        BoxShape::HalvesUpright { upper: Weight::Light, lower: Weight::Heavy }
    );
    assert_eq!(
        shape(0x259A),
        BoxShape::Quadrants {
            upper_left: true,
            upper_right: false,
            lower_left: false,
            lower_right: true
        }
    );
    assert_eq!(shape(0x28FF), BoxShape::Braille { dots: 255 });
}

#[test]
fn the_drawn_ranges_have_shapes_throughout() {
    for cp in 0..=0x10FFFF {
        let has_shape = (0x2500..=0x25A0).contains(&cp) || (0x2800..=0x28FF).contains(&cp);
        assert_eq!(box_shape(cp).is_some(), has_shape);
    }
}

#[test]
fn double_corners_look_like_single_ones() {
    let pairs = [
        (0x2554, 0x250C),
        (0x2557, 0x2510),
        (0x255A, 0x2514),
        (0x255D, 0x2518),
        (0x2560, 0x251C),
        (0x2563, 0x2524),
        (0x2566, 0x252C),
        (0x2569, 0x2534),
        (0x256C, 0x253C),
        (0x256D, 0x250C),
        (0x256E, 0x2510),
        (0x256F, 0x2518),
        (0x2570, 0x2514),
    ];
    for (double, single) in pairs {
        assert_eq!(box_shape(double), box_shape(single));
    }
}

#[test]
fn lines_meet_across_cells() {
    let mut fb = Framebuffer::new(20, 10, BLACK);
    draw_shape(&mut fb, shape(0x2500), CellRect { x: 0, y: 0, w: 9, h: 10 }, INK);
    draw_shape(&mut fb, shape(0x2500), CellRect { x: 9, y: 0, w: 10, h: 10 }, INK);
    for x in 0..19 {
        assert_eq!(fb.get_pixel(x, 5), Some(INK));
    }
    assert_eq!(fb.get_pixel(19, 5), Some(BLACK));
}

#[test]
fn halves_make_a_whole() {
    let cell = CellRect { x: 2, y: 3, w: 9, h: 15 };
    let upper = drawn(0x2580, cell, 20, 20);
    let lower = drawn(0x2584, cell, 20, 20);
    let whole = drawn(0x2588, cell, 20, 20);
    for y in 0..20 {
        for x in 0..20 {
            assert!(!(upper[y][x] && lower[y][x]));
            assert_eq!(upper[y][x] || lower[y][x], whole[y][x]);
        }
    }
}

#[test]
fn cells_too_small_for_a_shape_are_drawn_as_far_as_they_go() {
    let mut fb = Framebuffer::new(4, 4, BLACK);
    // The upper of two lines lies above the picture.
    draw_shape(&mut fb, shape(0x2550), CellRect { x: 0, y: 0, w: 2, h: 1 }, INK);
    assert_eq!(fb.get_pixel(0, 0), Some(BLACK));
    assert_eq!(fb.get_pixel(0, 1), Some(INK));
    // No room for a dot of two pixels.
    let mut fb = Framebuffer::new(4, 4, BLACK);
    draw_shape(&mut fb, shape(0x28FF), CellRect { x: 0, y: 0, w: 3, h: 3 }, INK);
    for y in 0..4 {
        for x in 0..4 {
            assert_eq!(fb.get_pixel(x, y), Some(BLACK));
        }
    }
    // An empty cell.
    draw_shape(&mut fb, shape(0x2588), CellRect { x: 1, y: 1, w: 0, h: 0 }, INK);
    assert_eq!(fb.get_pixel(1, 1), Some(BLACK));
}

#[test]
fn shapes_are_cut_off_at_the_edge_of_the_picture() {
    let picture = drawn(0x2588, CellRect { x: 6, y: 6, w: 9, h: 19 }, 8, 8);
    assert!(picture[7][7] && picture[6][6] && !picture[5][6]);
}
