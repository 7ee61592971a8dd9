use rdpterm::terminal::color::default_named_color;
use rdpterm::terminal::color::palette_index_to_rgb;
use rdpterm::terminal::color::resolve_color;
use rdpterm::terminal::color::CellColor;
use rdpterm::terminal::color::NamedColor;
use rdpterm::terminal::color::COLOR_TABLE_LEN;
use rdpterm::terminal::emulator::TerminalCell;

#[test]
fn test_terminal_cell_default() {
    let cell = TerminalCell::default();
    assert_eq!(cell.ch, ' ');
    assert_eq!(cell.fg_color, (255, 255, 255));
    assert_eq!(cell.bg_color, (0, 0, 0));
    assert!(!cell.bold);
    assert!(!cell.italic);
    assert!(!cell.wide);
}

#[test]
fn test_palette_index_to_rgb_standard_colors() {
    // Black
    assert_eq!(palette_index_to_rgb(0), (0, 0, 0));
    // Red
    assert_eq!(palette_index_to_rgb(1), (205, 0, 0));
    // Green
    assert_eq!(palette_index_to_rgb(2), (0, 205, 0));
    // White
    assert_eq!(palette_index_to_rgb(7), (229, 229, 229));
    // Bright red
    assert_eq!(palette_index_to_rgb(9), (255, 0, 0));
    // Bright white
    assert_eq!(palette_index_to_rgb(15), (255, 255, 255));
}

#[test]
fn test_palette_index_to_rgb_6x6x6_cube() {
    // Index 16 = (0,0,0) in the cube
    assert_eq!(palette_index_to_rgb(16), (0, 0, 0));
    // Index 21 = (0,0,5*51) = (0, 0, 255)
    assert_eq!(palette_index_to_rgb(21), (0, 0, 255));
    // Index 196 = (5*51, 0, 0) = (255, 0, 0)
    assert_eq!(palette_index_to_rgb(196), (255, 0, 0));
    // Index 231 = (5*51, 5*51, 5*51) = (255, 255, 255)
    assert_eq!(palette_index_to_rgb(231), (255, 255, 255));
}

#[test]
fn test_palette_index_to_rgb_greyscale() {
    // Index 232 = 8 + 0*10 = 8
    assert_eq!(palette_index_to_rgb(232), (8, 8, 8));
    // Index 255 = 8 + 23*10 = 238
    assert_eq!(palette_index_to_rgb(255), (238, 238, 238));
    // Index 244 = 8 + 12*10 = 128
    assert_eq!(palette_index_to_rgb(244), (128, 128, 128));
}

#[test]
fn test_default_named_color_fg() {
    assert_eq!(default_named_color(NamedColor::Black, true), (0, 0, 0));
    assert_eq!(default_named_color(NamedColor::Red, true), (205, 0, 0));
    assert_eq!(
        default_named_color(NamedColor::BrightWhite, true),
        (255, 255, 255)
    );
    // Foreground as fg
    assert_eq!(
        default_named_color(NamedColor::Foreground, true),
        (255, 255, 255)
    );
    // Background as fg
    assert_eq!(
        default_named_color(NamedColor::Background, true),
        (255, 255, 255)
    );
}

#[test]
fn test_default_named_color_bg() {
    // Foreground as bg
    assert_eq!(
        default_named_color(NamedColor::Foreground, false),
        (0, 0, 0)
    );
    // Background as bg
    assert_eq!(
        default_named_color(NamedColor::Background, false),
        (0, 0, 0)
    );
    // Dim colours as bg
    assert_eq!(default_named_color(NamedColor::DimRed, false), (0, 0, 0));
}

#[test]
fn dim_colours_are_grey_text() {
    assert_eq!(default_named_color(NamedColor::DimRed, true), (200, 200, 200));
    assert_eq!(default_named_color(NamedColor::Cursor, true), (200, 200, 200));
    assert_eq!(default_named_color(NamedColor::Cursor, false), (0, 0, 0));
    assert_eq!(default_named_color(NamedColor::BrightBlue, false), (92, 92, 255));
}

#[test]
fn the_first_palette_entries_are_the_named_colours() {
    for place in 0..16usize {
        let named = NamedColor::from_place(place);
        assert_eq!(palette_index_to_rgb(place as u8), default_named_color(named, true));
        assert_eq!(palette_index_to_rgb(place as u8), default_named_color(named, false));
    }
}

#[test]
fn cube_colours_are_distinct() {
    let mut seen = Vec::new();
    for idx in 16..=231u8 {
        let rgb = palette_index_to_rgb(idx);
        assert!(!seen.contains(&rgb));
        seen.push(rgb);
    }
    assert_eq!(palette_index_to_rgb(110), (102, 153, 204));
}

#[test]
fn the_colour_table_comes_before_the_defaults() {
    let mut table: Vec<Option<(u8, u8, u8)>> = vec![None; COLOR_TABLE_LEN];
    assert_eq!(resolve_color(&CellColor::Named(256), &table, true), (255, 255, 255));
    assert_eq!(resolve_color(&CellColor::Named(257), &table, false), (0, 0, 0));
    assert_eq!(resolve_color(&CellColor::Named(2), &table, true), (0, 205, 0));
    assert_eq!(resolve_color(&CellColor::Indexed(2), &table, true), (0, 205, 0));
    assert_eq!(resolve_color(&CellColor::Spec(2, 3, 4), &table, true), (2, 3, 4));
    table[2] = Some((9, 9, 9));
    table[256] = Some((7, 7, 7));
    assert_eq!(resolve_color(&CellColor::Named(2), &table, true), (9, 9, 9));
    assert_eq!(resolve_color(&CellColor::Indexed(2), &table, false), (9, 9, 9));
    assert_eq!(resolve_color(&CellColor::Named(256), &table, true), (7, 7, 7));
    assert_eq!(resolve_color(&CellColor::Spec(2, 3, 4), &table, true), (2, 3, 4));
}
