use rdpterm::single::Single;
use rdpterm::terminal::glyphs::EmbeddedFont;
use rdpterm::terminal::glyphs::FontFamily;
use rdpterm::terminal::glyphs::GlyphImage;
use rdpterm::terminal::glyphs::GlyphSearch;
use rdpterm::terminal::glyphs::ImageContent;
use rdpterm::terminal::glyphs::SearchStep;
use rdpterm::terminal::glyphs::ShapedGlyph;

fn size(v: f32) -> Single {
    Single::from_bits(v.to_bits()).unwrap()
}

fn image(width: u32, height: u32, content: ImageContent) -> GlyphImage {
    GlyphImage {
        width,
        height,
        left: 1,
        top: 12,
        content,
        data: vec![200; (width * height) as usize],
    }
}

fn shaped(glyph_id: u16, width: u32, height: u32) -> Option<ShapedGlyph> {
    Some(ShapedGlyph {
        glyph_id,
        image: Some(image(width, height, ImageContent::Mask)),
    })
}

#[test]
fn a_letter_is_shaped_once() {
    let search = GlyphSearch::for_text('a', size(16.0));
    assert_eq!(search.step(), SearchStep::Shape(FontFamily::Monospace));
    let search = search.on_shaped(shaped(5, 8, 10));
    assert_eq!(search.step(), SearchStep::Done);
    let found = search.into_found().unwrap();
    assert_eq!((found.width, found.left, found.top), (8, 1, 12));
    assert_eq!(found.data.len(), 80);
    assert!(!found.is_color);
}

#[test]
fn colour_and_subpixel_images_are_in_colour() {
    for (content, is_color) in [
        (ImageContent::Mask, false),
        (ImageContent::Color, true),
        (ImageContent::SubpixelMask, true),
    ] {
        let glyph = ShapedGlyph { glyph_id: 1, image: Some(image(2, 2, content)) };
        let search = GlyphSearch::for_text('a', size(16.0)).on_shaped(Some(glyph));
        assert_eq!(search.into_found().unwrap().is_color, is_color);
    }
}

#[test]
fn ascii_that_is_missing_stays_missing() {
    for answer in [None, shaped(0, 8, 8), shaped(3, 0, 8), shaped(3, 8, 0)] {
        let search = GlyphSearch::for_text('~', size(16.0)).on_shaped(answer);
        assert_eq!(search.step(), SearchStep::Done);
        assert!(search.into_found().is_none());
    }
    let no_image = ShapedGlyph { glyph_id: 3, image: None };
    let search = GlyphSearch::for_text('\u{7f}', size(16.0)).on_shaped(Some(no_image));
    assert!(search.into_found().is_none());
}

#[test]
fn other_characters_are_looked_for_in_the_font_files() {
    let search = GlyphSearch::for_text('\u{80}', size(16.0)).on_shaped(None);
    assert_eq!(search.step(), SearchStep::Outline(EmbeddedFont::Regular, size(16.0)));
    let search = search.on_outline(None);
    assert_eq!(search.step(), SearchStep::Outline(EmbeddedFont::Symbols, size(16.0)));
    let search = search.on_outline(None);
    assert_eq!(search.step(), SearchStep::Done);
    assert!(search.into_found().is_none());
}

#[test]
fn icons_try_three_families() {
    for ch in ['\u{E000}', '\u{F8FF}', '\u{F0000}', '\u{FFFFF}'] {
        let search = GlyphSearch::for_text(ch, size(16.0));
        assert_eq!(search.step(), SearchStep::Shape(FontFamily::Symbols));
        let search = search.on_shaped(shaped(0, 4, 4));
        assert_eq!(search.step(), SearchStep::Shape(FontFamily::JetBrains));
        let search = search.on_shaped(None);
        assert_eq!(search.step(), SearchStep::Shape(FontFamily::Monospace));
        let search = search.on_shaped(None);
        assert_eq!(search.step(), SearchStep::Outline(EmbeddedFont::Regular, size(16.0)));
        assert!(search.into_found().is_none());
    }
    for ch in ['\u{D7FF}', '\u{F900}', '\u{EFFFF}', '\u{100000}'] {
        let search = GlyphSearch::for_text(ch, size(16.0));
        assert_eq!(search.step(), SearchStep::Shape(FontFamily::Monospace));
    }
}

#[test]
fn families_have_names() {
    assert_eq!(FontFamily::Symbols.name().unwrap(), "Symbols Nerd Font Mono");
    assert_eq!(FontFamily::JetBrains.name().unwrap(), "JetBrainsMonoNL Nerd Font Mono");
    assert!(FontFamily::Monospace.name().is_none());
}

#[test]
fn a_small_outline_is_rendered_again() {
    for font_size in [16.0f32, 12.0, 13.5, 20.0, 33.3, 72.0] {
        let cell_h = font_size * 1.2;
        let limit = (cell_h * 0.6) as usize;
        for rows in 1..=limit + 2 {
            let search = GlyphSearch::for_outline('\u{2574}', size(font_size));
            assert_eq!(search.step(), SearchStep::Outline(EmbeddedFont::Regular, size(font_size)));
            let search = search.on_outline(Some(image(3, rows as u32, ImageContent::Mask)));
            if rows < limit {
                let scale = cell_h / rows as f32;
                let larger = font_size * scale * 0.85;
                assert_eq!(
                    search.step(),
                    SearchStep::Outline(EmbeddedFont::Regular, size(larger))
                );
                let kept = search.on_outline(None);
                assert_eq!(kept.into_found().unwrap().data.len(), 3 * rows);
            } else {
                assert_eq!(search.step(), SearchStep::Done);
                assert_eq!(search.into_found().unwrap().data.len(), 3 * rows);
            }
        }
    }
}

#[test]
fn the_larger_outline_is_kept_whatever_its_size() {
    let search = GlyphSearch::for_outline('\u{2574}', size(16.0))
        .on_outline(None)
        .on_outline(Some(image(3, 2, ImageContent::Color)));
    match search.step() {
        SearchStep::Outline(font, larger) => {
            assert_eq!(font, EmbeddedFont::Symbols);
            assert_eq!(larger, size(16.0 * (16.0f32 * 1.2 / 2.0) * 0.85));
        }
        _ => panic!("the outline is too small"),
    }
    let search = search.on_outline(Some(image(1, 1, ImageContent::Mask)));
    assert_eq!(search.step(), SearchStep::Done);
    let found = search.into_found().unwrap();
    assert_eq!((found.width, found.data.len(), found.is_color), (1, 1, false));
}

#[test]
fn an_empty_larger_outline_does_not_count() {
    let search = GlyphSearch::for_outline('\u{2574}', size(16.0))
        .on_outline(Some(image(3, 2, ImageContent::Mask)))
        .on_outline(Some(image(0, 5, ImageContent::Mask)));
    assert_eq!(search.into_found().unwrap().data.len(), 6);
}

#[test]
fn sizes_at_the_ends_grow_as_in_between() {
    for font_size in [2.8f32, 1.0e9, 9.2e18] {
        let search = GlyphSearch::for_outline('x', size(font_size))
            .on_outline(Some(image(3, 1, ImageContent::Mask)));
        let larger = font_size * (font_size * 1.2 / 1.0) * 0.85;
        assert!(larger.is_finite());
        assert_eq!(search.step(), SearchStep::Outline(EmbeddedFont::Regular, size(larger)));
    }
    // A glyph of one row is not below the limit of one.
    let search = GlyphSearch::for_outline('x', size(2.7))
        .on_outline(Some(image(3, 1, ImageContent::Mask)));
    assert_eq!(search.step(), SearchStep::Done);
}
