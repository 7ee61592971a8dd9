use rdpterm::framebuffer::overlay;
use rdpterm::framebuffer::Color;
use rdpterm::framebuffer::Framebuffer;
use rdpterm::framebuffer::Pattern;

fn channel(over: u8, alpha: u8, under: u8) -> u8 {
    let a = alpha as f32 / 255.0;
    let inv = 1.0 - a;
    (over as f32 * a + under as f32 * inv) as u8
}

#[test]
fn blending_is_that_of_binary32() {
    for alpha in 1..255u8 {
        for over in 0..=255u8 {
            for under in (0..=255u8).step_by(3) {
                let c = overlay(
                    Color::new(over, under, 7),
                    alpha,
                    Color::new(under, over, 99),
                );
                assert_eq!(c.r, channel(over, alpha, under));
                assert_eq!(c.g, channel(under, alpha, over));
                assert_eq!(c.b, channel(7, alpha, 99));
            }
        }
    }
}

#[test]
fn clear_and_opaque_ink_are_exact() {
    let over = Color::new(10, 20, 30);
    let under = Color::new(200, 210, 220);
    assert_eq!(overlay(over, 0, under), under);
    assert_eq!(overlay(over, 255, under), over);
    assert_eq!(overlay(over, 128, under), Color::new(104, 114, 124));
}

#[test]
fn blending_stays_near_the_mean() {
    for alpha in 0..=255u8 {
        for (over, under) in [(0u8, 255u8), (255, 0), (77, 78), (255, 255), (3, 250)] {
            let mean = (over as f64 * alpha as f64 + under as f64 * (255 - alpha) as f64) / 255.0;
            let c = overlay(Color::new(over, 0, 0), alpha, Color::new(under, 0, 0));
            assert!((c.r as f64) < mean + 1.0 && c.r as f64 > mean - 1.001);
        }
    }
}

#[test]
fn pixels_are_read_back() {
    let mut fb = Framebuffer::new(3, 2, Color::new(1, 2, 3));
    assert_eq!((fb.width(), fb.height()), (3, 2));
    fb.set_pixel(2, 1, Color::new(9, 8, 7));
    assert_eq!(fb.get_pixel(2, 1), Some(Color::new(9, 8, 7)));
    assert_eq!(fb.get_pixel(1, 1), Some(Color::new(1, 2, 3)));
    assert_eq!(fb.get_pixel(3, 1), None);
    assert_eq!(fb.get_pixel(2, 2), None);
    fb.set_pixel(3, 0, Color::new(0, 0, 0));
    fb.set_pixel(0, 2, Color::new(0, 0, 0));
    assert_eq!(fb.get_pixel(0, 1), Some(Color::new(1, 2, 3)));
    fb.blend_pixel(0, 0, Color::new(255, 255, 255), 128);
    assert_eq!(fb.get_pixel(0, 0), Some(Color::new(128, 128, 129)));
    fb.clear(Color::new(4, 4, 4));
    for y in 0..2 {
        for x in 0..3 {
            assert_eq!(fb.get_pixel(x, y), Some(Color::new(4, 4, 4)));
        }
    }
}

#[test]
fn rectangles_are_cut_off_at_the_edges() {
    let black = Color::new(0, 0, 0);
    let ink = Color::new(5, 6, 7);
    let mut fb = Framebuffer::new(6, 5, black);
    fb.fill_rect(4, 3, 10, 10, ink);
    fb.fill_rect(1, 1, 2, 1, ink);
    fb.fill_rect(usize::MAX, 0, usize::MAX, usize::MAX, ink);
    for y in 0..5 {
        for x in 0..6 {
            let inside = (x >= 4 && y >= 3) || (y == 1 && (x == 1 || x == 2));
            assert_eq!(fb.get_pixel(x, y), Some(if inside { ink } else { black }));
        }
    }
}

#[test]
fn quarters_and_three_quarters_are_complements() {
    let black = Color::new(0, 0, 0);
    let ink = Color::new(5, 6, 7);
    let mut a = Framebuffer::new(9, 9, black);
    let mut b = Framebuffer::new(9, 9, black);
    a.fill_pattern(0, 0, 9, 9, Pattern::Quarter, ink);
    b.fill_pattern(0, 0, 9, 9, Pattern::ThreeQuarters, ink);
    for y in 0..9 {
        for x in 0..9 {
            assert_eq!(a.get_pixel(x, y) == Some(ink), (x + y) % 4 == 0);
            assert_ne!(a.get_pixel(x, y), b.get_pixel(x, y));
        }
    }
}
