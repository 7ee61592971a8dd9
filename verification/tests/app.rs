use rdpterm::app::Rendering;
use rdpterm::app::TerminalApp;
use rdpterm::app::TerminalAppFactory;
use rdpterm::framebuffer::Color;
use rdpterm::framebuffer::Framebuffer;
use rdpterm::input::InputEvent;
use rdpterm::input::KeyEvent;
use rdpterm::input::Modifiers;
use rdpterm::single::Single;
use rdpterm::terminal::emulator::TerminalCell;
use rdpterm::terminal::ink::GlyphBitmap;
use rdpterm::terminal::renderer::same_cell;
use rdpterm::terminal::requests::GlyphRequest;

fn single(v: f32) -> Single {
    Single::from_bits(v.to_bits()).unwrap()
}

fn app() -> TerminalApp {
    TerminalApp::new(Some("/bin/zsh".to_string()), single(16.0), None, false).unwrap()
}

fn key(scancode: u16, released: bool, ch: Option<char>) -> InputEvent {
    InputEvent::Key(KeyEvent { released, extended: false, scancode, plain: ch, shifted: ch })
}

#[test]
fn a_session_is_as_large_as_the_picture() {
    let session = app().session(800, 600);
    assert_eq!(session.cols, (800.0f32 / (16.0f32 * 0.6)) as u16);
    assert_eq!(session.rows, (600.0f32 / (16.0f32 * 1.2)) as u16);
    assert_eq!((session.cols, session.rows), (83, 31));
    assert_eq!(session.shell, Some("/bin/zsh".to_string()));
    assert_eq!(session.term, "xterm-256color");
    let session = app().session(0, 19);
    assert_eq!((session.cols, session.rows), (0, 0));
    let session = app().session(u16::MAX, u16::MAX);
    assert_eq!((session.cols, session.rows), (6826, 3413));
}

#[test]
fn a_new_session_has_no_terminal() {
    let mut app = app();
    assert!(app.emulator.is_none());
    assert_eq!(app.modifiers, Modifiers::none());
    assert!(app.take_output(&Vec::new()).unwrap().is_none());
    let session = app.session(96, 39);
    app.on_connect(&session).unwrap();
    let screen = app.emulator.as_ref().unwrap().get_screen().unwrap();
    assert_eq!((screen.cols, screen.rows), (10, 2));
    assert!(screen.cells.iter().all(|c| same_cell(c, &TerminalCell::default())));
}

#[test]
fn keys_reach_the_program_and_the_mouse_does_not() {
    let mut app = app();
    assert!(app.on_input(&InputEvent::Mouse).is_empty());
    assert_eq!(app.on_input(&key(0x1E, false, Some('a'))), b"a");
    assert!(app.on_input(&key(0x1E, true, Some('a'))).is_empty());
    assert!(app.on_input(&key(0x1D, false, None)).is_empty());
    assert!(app.modifiers.ctrl);
    assert!(app.on_input(&InputEvent::Mouse).is_empty());
    assert!(app.modifiers.ctrl);
    assert_eq!(app.on_input(&key(0x2E, false, Some('c'))), vec![3]);
}

fn same_picture(a: &Framebuffer, b: &Framebuffer) -> bool {
    a.width() == b.width()
        && a.height() == b.height()
        && (0..a.height()).all(|y| (0..a.width()).all(|x| a.get_pixel(x, y) == b.get_pixel(x, y)))
}

#[test]
fn output_is_drawn_and_silence_is_not() {
    let mut app = app();
    let session = app.session(96, 39);
    app.on_connect(&session).unwrap();
    let mut fb = Framebuffer::new(96, 39, Color::new(9, 9, 9));
    let blank = Framebuffer::new(96, 39, Color::new(9, 9, 9));
    assert!(matches!(app.render(&Vec::new(), &mut fb), Ok(Rendering::Idle)));
    assert!(same_picture(&fb, &blank));
    let pieces = vec![b"\x1b[4".to_vec(), b"1mA".to_vec()];
    assert!(app.accepts_pending(&pieces));
    let (screen, request) = match app.render(&pieces, &mut fb).unwrap() {
        Rendering::Missing(screen, request) => (screen, request),
        _ => panic!("the glyph was not looked for"),
    };
    assert_eq!(request, GlyphRequest::Text('A', false, false));
    assert!(same_picture(&fb, &blank));
    assert_eq!(screen.cells[0].ch, 'A');
    assert_eq!(screen.cells[0].bg_color, (205, 0, 0));
    let bitmap = GlyphBitmap { width: 1, left: 2, top: 10, data: vec![255], is_color: false };
    app.renderer.supply_glyph('A', false, false, Some(bitmap));
    assert!(matches!(app.resume(screen, &mut fb), Ok(Rendering::Drawn)));
    assert_eq!(fb.get_pixel(0, 0), Some(Color::new(205, 0, 0)));
    assert_eq!(fb.get_pixel(2, 6), Some(Color::new(255, 255, 255)));
    assert_eq!(fb.get_pixel(3, 6), Some(Color::new(205, 0, 0)));
    assert_eq!(fb.get_pixel(9, 0), Some(Color::new(0, 0, 0)));
    assert!(matches!(app.render(&Vec::new(), &mut fb), Ok(Rendering::Idle)));
    // Everything is known now.
    assert!(matches!(app.render(&vec![b"A".to_vec()], &mut fb), Ok(Rendering::Drawn)));
    assert_eq!(fb.get_pixel(11, 6), Some(Color::new(255, 255, 255)));
}

#[test]
fn a_screen_that_was_drawn_lacks_nothing() {
    let mut app = app();
    let session = app.session(96, 39);
    app.on_connect(&session).unwrap();
    let mut fb = Framebuffer::new(96, 39, Color::new(9, 9, 9));
    app.renderer.supply_glyph('x', false, false, None);
    assert!(matches!(app.render(&vec![b"\x1b[42mx".to_vec()], &mut fb), Ok(Rendering::Drawn)));
    app.renderer.glyph_cache.clear();
    let mut again = Framebuffer::new(96, 39, Color::new(3, 3, 3));
    let screen = app.emulator.as_ref().unwrap().get_screen().unwrap();
    assert!(matches!(app.resume(screen, &mut again), Ok(Rendering::Drawn)));
    assert!(same_picture(&again, &Framebuffer::new(96, 39, Color::new(3, 3, 3))));
    // Pieces that print nothing lead to a drawing of the same screen.
    assert!(matches!(app.render(&vec![Vec::new()], &mut again), Ok(Rendering::Drawn)));
    assert!(same_picture(&again, &Framebuffer::new(96, 39, Color::new(3, 3, 3))));
}

#[test]
fn output_needs_a_terminal_with_room() {
    let mut app = app();
    let output = vec![b"a".to_vec()];
    assert!(app.accepts_pending(&Vec::new()));
    assert!(!app.accepts_pending(&output));
    let session = app.session(10, 39);
    assert_eq!((session.cols, session.rows), (1, 2));
    app.on_connect(&session).unwrap();
    assert!(app.accepts_pending(&output));
    assert!(app.accepts_pending(&vec!["\u{2500}".as_bytes().to_vec()]));
    assert!(!app.accepts_pending(&vec![b"a".to_vec(), "世".as_bytes().to_vec()]));
}

#[test]
fn factories_make_sessions_that_are_set_up_alike() {
    let factory = TerminalAppFactory { shell: Some("/bin/sh".to_string()), font_size: single(20.0) };
    for _ in 0..2 {
        let app = factory.create(Some(single(12.5)), true).unwrap();
        assert_eq!(app.shell, Some("/bin/sh".to_string()));
        assert_eq!(app.renderer.config.font_size, single(20.0));
        assert_eq!(app.renderer.cell_width, single(12.5));
        assert_eq!(app.renderer.cell_height, single(20.0 * 1.2));
        assert!(app.renderer.has_emoji_font);
        assert!(app.emulator.is_none());
    }
    let factory = TerminalAppFactory { shell: None, font_size: single(20.0) };
    let app = factory.create(None, false).unwrap();
    assert_eq!(app.shell, None);
    assert_eq!(app.renderer.cell_width, single(20.0 * 0.6));
    assert_eq!(app.session(100, 100).shell, None);
}
