use rdpterm::terminal::emulator::TerminalCell;
use rdpterm::terminal::emulator::TerminalEmulator;
use rdpterm::terminal::emulator::TerminalScreen;
use rdpterm::terminal::renderer::same_cell;

fn text_of(screen: &TerminalScreen, row: usize) -> String {
    let start = row * screen.cols;
    let line: String = screen.cells[start..start + screen.cols]
        .iter()
        .map(|c| c.ch)
        .collect();
    line.trim_end().to_string()
}

fn same_screen(a: &TerminalScreen, b: &TerminalScreen) -> bool {
    a.cols == b.cols
        && a.rows == b.rows
        && a.cells.len() == b.cells.len()
        && a.cells.iter().zip(&b.cells).all(|(x, y)| same_cell(x, y))
}

#[test]
fn test_new_creates_correct_dimensions() {
    let emu = TerminalEmulator::new(80, 24).unwrap();
    let screen = emu.get_screen().unwrap();
    assert_eq!(screen.cols, 80);
    assert_eq!(screen.rows, 24);
    assert_eq!(screen.cells.len(), 80 * 24);
}

#[test]
fn test_process_output_plain_ascii() {
    let mut emu = TerminalEmulator::new(80, 24).unwrap();
    emu.process_output(b"Hello").unwrap();
    let screen = emu.get_screen().unwrap();
    assert_eq!(screen.cells[0].ch, 'H');
    assert_eq!(screen.cells[1].ch, 'e');
    assert_eq!(screen.cells[2].ch, 'l');
    assert_eq!(screen.cells[3].ch, 'l');
    assert_eq!(screen.cells[4].ch, 'o');
    // Rest should be spaces
    assert_eq!(screen.cells[5].ch, ' ');
}

#[test]
fn test_ansi_fg_color() {
    let mut emu = TerminalEmulator::new(80, 24).unwrap();
    // ESC[31m = red foreground, then 'X'
    emu.process_output(b"\x1b[31mX").unwrap();
    let screen = emu.get_screen().unwrap();
    assert_eq!(screen.cells[0].ch, 'X');
    // Red foreground: should be (205, 0, 0) or similar non-white
    assert_ne!(screen.cells[0].fg_color, (255, 255, 255));
    assert_eq!(screen.cells[0].fg_color, (205, 0, 0));
}

#[test]
fn test_ansi_bg_color() {
    let mut emu = TerminalEmulator::new(80, 24).unwrap();
    // ESC[42m = green background, then 'X'
    emu.process_output(b"\x1b[42mX").unwrap();
    let screen = emu.get_screen().unwrap();
    assert_eq!(screen.cells[0].ch, 'X');
    // Green background: should be non-black
    assert_ne!(screen.cells[0].bg_color, (0, 0, 0));
    assert_eq!(screen.cells[0].bg_color, (0, 205, 0));
}

#[test]
fn test_ansi_bold_flag() {
    let mut emu = TerminalEmulator::new(80, 24).unwrap();
    // ESC[1m = bold
    emu.process_output(b"\x1b[1mB").unwrap();
    let screen = emu.get_screen().unwrap();
    assert_eq!(screen.cells[0].ch, 'B');
    assert!(screen.cells[0].bold);
}

#[test]
fn test_ansi_italic_flag() {
    let mut emu = TerminalEmulator::new(80, 24).unwrap();
    // ESC[3m = italic
    emu.process_output(b"\x1b[3mI").unwrap();
    let screen = emu.get_screen().unwrap();
    assert_eq!(screen.cells[0].ch, 'I');
    assert!(screen.cells[0].italic);
}

#[test]
fn test_wide_character() {
    let mut emu = TerminalEmulator::new(80, 24).unwrap();
    // CJK character (U+4E16 = '世')
    emu.process_output("世".as_bytes()).unwrap();
    let screen = emu.get_screen().unwrap();
    assert_eq!(screen.cells[0].ch, '世');
    assert!(screen.cells[0].wide);
    // The next cell should be a spacer (rendered as space)
    assert_eq!(screen.cells[1].ch, ' ');
}

#[test]
fn a_fresh_terminal_is_blank() {
    let emu = TerminalEmulator::new(7, 3).unwrap();
    let screen = emu.get_screen().unwrap();
    assert_eq!(screen.cells.len(), 21);
    for cell in &screen.cells {
        assert!(same_cell(cell, &TerminalCell::default()));
    }
}

#[test]
fn sizes_without_room_are_taken_as_they_are() {
    let screen = TerminalEmulator::new(0, 0).unwrap().get_screen().unwrap();
    assert_eq!((screen.cols, screen.rows, screen.cells.len()), (0, 0, 0));
    let screen = TerminalEmulator::new(5, 0).unwrap().get_screen().unwrap();
    assert_eq!((screen.cols, screen.rows, screen.cells.len()), (5, 0, 0));
    let emu = TerminalEmulator::new(1, 1).unwrap();
    assert_eq!(emu.get_screen().unwrap().cells.len(), 1);
}

#[test]
fn one_column_has_room_for_narrow_text_only() {
    let mut emu = TerminalEmulator::new(1, 4).unwrap();
    assert!(emu.accepts_output("ab\u{e9}".as_bytes()));
    assert!(emu.accepts_output("\u{2500}\u{2026}\u{fb01}".as_bytes()));
    assert!(!emu.accepts_output("世".as_bytes()));
    emu.process_output("ab\u{e9}\u{2500}".as_bytes()).unwrap();
    let screen = emu.get_screen().unwrap();
    let column: Vec<char> = screen.cells.iter().map(|c| c.ch).collect();
    assert_eq!(column, vec!['a', 'b', '\u{e9}', '\u{2500}']);
    emu.process_output(b"\x1b[2J\x1b[H\tx\x1b[5P\x1b[5@\x1b[1K\r\n").unwrap();
    // A character may come in two pieces.
    let (lead, rest) = "世".as_bytes().split_at(1);
    assert!(emu.accepts_output(lead));
    assert!(!emu.accepts_pieces(&vec![lead.to_vec(), rest.to_vec()]));
    emu.process_output(lead).unwrap();
    assert!(!emu.accepts_output(rest));
    assert!(!TerminalEmulator::new(5, 0).unwrap().accepts_output(b"a"));
    assert!(TerminalEmulator::new(5, 0).unwrap().accepts_output(b""));
    assert!(TerminalEmulator::new(2, 1).unwrap().accepts_output("世".as_bytes()));
}

#[test]
fn one_column_refuses_what_may_be_wide_and_no_more() {
    let narrow = TerminalEmulator::new(1, 1).unwrap();
    let mut page = TerminalEmulator::new(64, 300).unwrap();
    let mut wrong: Vec<String> = Vec::new();
    // Whether some character of the block that two bytes begin is wide.
    for lead in 0xC2..=0xF4u32 {
        for second in 0x80..=0xBFu32 {
            let (first, last) = if lead < 0xE0 {
                let cp = (lead - 0xC0) << 6 | (second - 0x80);
                (cp, cp)
            } else if lead < 0xF0 {
                let start = (lead - 0xE0) << 12 | (second - 0x80) << 6;
                (start, start + 0x3F)
            } else {
                let start = (lead - 0xF0) << 18 | (second - 0x80) << 12;
                (start, start + 0xFFF)
            };
            let shortest = match lead {
                0xC2..=0xDF => 0xA0,
                0xE0..=0xEF => 0x800,
                _ => 0x1_0000,
            };
            let line: String = (first..=last)
                .filter(|cp| *cp >= shortest)
                .filter_map(char::from_u32)
                .collect();
            if line.is_empty() {
                continue;
            }
            page.process_output(b"\x1b[H\x1b[2J").unwrap();
            page.process_output(line.as_bytes()).unwrap();
            let screen = page.get_screen().unwrap();
            let wide = screen.cells.iter().any(|cell| cell.wide);
            if narrow.accepts_output(line.as_bytes()) == wide {
                wrong.push(format!("{:X} {:X}", lead, second));
            }
        }
    }
    assert!(wrong.is_empty(), "{:?}", wrong);
}

#[test]
fn colours_of_too_many_digits_are_refused() {
    let emu = TerminalEmulator::new(4, 2).unwrap();
    for number in ["4;1", "4;7;rgb:1/2/3;9", "10", "11", "12"] {
        for end in ["\x07", "\x1b\\", ";", "\x18"] {
            for len in 0..120 {
                let output = format!("\x1b]{};#{}{}", number, "0".repeat(len), end);
                let channel = len - 2 * (len / 3);
                let short = channel <= usize::BITS as usize / 4;
                assert_eq!(emu.accepts_output(output.as_bytes()), short, "{} {}", number, len);
                if short {
                    let mut fresh = TerminalEmulator::new(4, 2).unwrap();
                    fresh.process_output(output.as_bytes()).unwrap();
                    assert_eq!(fresh.get_screen().unwrap().cells.len(), 8);
                }
            }
        }
    }
    let long = "0".repeat(3 * usize::BITS as usize);
    // Digits up to the end of the first channel are enough.
    let broken = format!("\x1b]4;1;#{}xyzxyzxyz\x07", "+0".repeat(usize::BITS as usize));
    assert!(!emu.accepts_output(broken.as_bytes()));
    let broken = format!("\x1b]4;1;#ffx{}\x07", long);
    assert!(emu.accepts_output(broken.as_bytes()));
    // A number that does not fit a word is no colour.
    let digits = "f".repeat(3 * usize::BITS as usize);
    let large = format!("\x1b]4;1;#{}\x07\x1b[31mA", digits);
    assert_eq!(shown(4, 2, &[large.into_bytes()]).cells[0].fg_color, (205, 0, 0));
    // Bytes that a command leaves out do not part the digits.
    let parted = format!("\x1b\t]1\n1;#{}\r{}\x07", "0".repeat(40), long);
    assert!(!emu.accepts_output(parted.as_bytes()));
    // Text, titles and other forms of colours are no such colours.
    for output in ["#", "\x1b]0;#", "\x1b]44;#", "\x1b]4;#1;rgb:", "\x1b]13;#", "\x1bP#", "\x1b[#"] {
        let output = format!("{}{}\x07", output, long);
        let mut fresh = TerminalEmulator::new(4, 2).unwrap();
        assert!(fresh.accepts_output(output.as_bytes()), "{}", output);
        fresh.process_output(output.as_bytes()).unwrap();
    }
}

#[test]
fn a_long_colour_in_pieces_is_refused_where_it_ends() {
    let mut emu = TerminalEmulator::new(4, 2).unwrap();
    let pieces = vec![b"\x1b]4;1;#000000".to_vec(), vec![b'0'; 300], b"\x1b\\".to_vec()];
    assert!(!emu.accepts_pieces(&pieces));
    assert!(emu.accepts_pieces(&pieces[..2].to_vec()));
    assert!(emu.accepts_pieces(&Vec::new()));
    emu.process_output(&pieces[0]).unwrap();
    emu.process_output(&pieces[1]).unwrap();
    assert!(!emu.accepts_output(&pieces[2]));
    assert!(!emu.accepts_output(b"\x07"));
    assert!(emu.accepts_output(b"0"));
}

#[test]
fn colours_of_short_digits_are_set() {
    for digits in ["123456", "123400005678000089ab", "120000034000005600000"] {
        let mut emu = TerminalEmulator::new(4, 2).unwrap();
        let output = format!("\x1b]4;1;#{}\x07\x1b[31mA", digits);
        assert!(emu.accepts_output(output.as_bytes()));
        emu.process_output(output.as_bytes()).unwrap();
        assert_ne!(emu.get_screen().unwrap().cells[0].fg_color, (205, 0, 0));
    }
    let mut emu = TerminalEmulator::new(4, 2).unwrap();
    emu.process_output(b"\x1b]4;1;#123456\x07\x1b[31mA").unwrap();
    assert_eq!(emu.get_screen().unwrap().cells[0].fg_color, (0x12, 0x34, 0x56));
}

#[test]
fn sizes_of_terminals_are_told_apart() {
    for (cols, rows) in [(0, 0), (5, 0), (1, 1), (80, 24), (65_535, 65_535)] {
        assert!(TerminalEmulator::fits(cols, rows));
    }
    assert!(!TerminalEmulator::fits(0, 1));
    assert!(!TerminalEmulator::fits(1, usize::MAX));
    assert!(!TerminalEmulator::fits(usize::MAX, 0));
    assert!(!TerminalEmulator::fits(1, isize::MAX as usize / 32 + 1));
    assert!(!TerminalEmulator::fits(usize::MAX / 64, 2));
}

#[test]
fn it_does_not_matter_where_the_output_is_cut() {
    let output = "\x1b[1;32mok\x1b[0m \u{e9}\u{1F600}\r\n\x1b]4;1;rgb:1/2/3\x1b\\\x1b[31mx\x1b[2;5Hy";
    let output = output.as_bytes();
    let mut whole = TerminalEmulator::new(9, 3).unwrap();
    whole.process_output(output).unwrap();
    let expected = whole.get_screen().unwrap();
    for cut in 0..=output.len() {
        let mut emu = TerminalEmulator::new(9, 3).unwrap();
        emu.process_output(&output[..cut]).unwrap();
        emu.process_output(b"").unwrap();
        emu.process_output(&output[cut..]).unwrap();
        assert!(same_screen(&emu.get_screen().unwrap(), &expected), "cut at {}", cut);
    }
    let mut emu = TerminalEmulator::new(9, 3).unwrap();
    for byte in output {
        emu.process_output(&[*byte]).unwrap();
    }
    assert!(same_screen(&emu.get_screen().unwrap(), &expected));
}

fn shown(cols: usize, rows: usize, pieces: &[Vec<u8>]) -> TerminalScreen {
    let mut emu = TerminalEmulator::new(cols, rows).unwrap();
    for piece in pieces {
        assert!(emu.accepts_output(piece));
        emu.process_output(piece).unwrap();
    }
    emu.get_screen().unwrap()
}

#[test]
fn a_cut_that_loses_a_byte_is_told_from_others() {
    for (text, lossy, rest) in [
        ("\u{e9} \u{e0}", 1, "\u{e9}\u{e0}"),
        ("\u{438} \u{432}", 1, "\u{438}\u{432}"),
        ("\u{e9}A世", 1, "\u{e9}世"),
        ("a\u{e9}-\u{e9}b", 2, "a\u{e9}\u{e9}b"),
    ] {
        let bytes = text.as_bytes();
        let whole = shown(8, 1, &[bytes.to_vec()]);
        assert!(!text_of(&whole, 0).is_empty());
        for cut in 0..=bytes.len() {
            let cut_up = shown(8, 1, &[bytes[..cut].to_vec(), bytes[cut..].to_vec()]);
            assert_eq!(same_screen(&cut_up, &whole), cut != lossy, "{} at {}", text, cut);
            if cut == lossy {
                assert!(same_screen(&cut_up, &shown(8, 1, &[rest.as_bytes().to_vec()])));
            }
        }
        // Pieces of one and two bytes lose nothing.
        for size in 1..=2 {
            let pieces: Vec<Vec<u8>> = bytes.chunks(size).map(|piece| piece.to_vec()).collect();
            assert!(same_screen(&shown(8, 1, &pieces), &whole));
        }
    }
    // Neither does the end of a character before ASCII, or before another.
    for text in ["\u{e9}ab", "\u{e9}\u{e0}\u{e9}", "世 界", "\u{e9} "] {
        let bytes = text.as_bytes();
        let whole = shown(8, 1, &[bytes.to_vec()]);
        for cut in 0..=bytes.len() {
            let cut_up = shown(8, 1, &[bytes[..cut].to_vec(), bytes[cut..].to_vec()]);
            assert!(same_screen(&cut_up, &whole), "{} at {}", text, cut);
        }
    }
}

#[test]
fn a_lost_escape_loses_its_command() {
    let output = b"\xc3\xa9\x1b\xe4]4;1;#123456\x07\x1b[31mx";
    let whole = shown(20, 1, &[output.to_vec()]);
    let cut_up = shown(20, 1, &[output[..1].to_vec(), output[1..].to_vec()]);
    assert_eq!(whole.cells[1].ch, 'x');
    assert_eq!(whole.cells[1].fg_color, (0x12, 0x34, 0x56));
    assert_ne!(cut_up.cells[1].ch, 'x');
    assert!(cut_up.cells.iter().any(|c| c.ch == 'x' && c.fg_color == (205, 0, 0)));
}

#[test]
fn a_control_character_that_is_cut_can_be_repeated() {
    // Without a repetition the cut makes no difference.
    let whole = shown(8, 1, &["ab\u{85}c".as_bytes().to_vec()]);
    assert!(same_screen(&shown(8, 1, &[b"ab\xc2".to_vec(), b"\x85c".to_vec()]), &whole));
    let whole = shown(8, 1, &["ab\u{85}\x1b[2b".as_bytes().to_vec()]);
    let cut_up = shown(8, 1, &[b"ab\xc2".to_vec(), b"\x85\x1b[2b".to_vec()]);
    assert_eq!(text_of(&whole, 0), "abbb");
    assert_eq!(text_of(&cut_up, 0), "ab");
}

#[test]
fn text_about_synchronized_updates_may_be_cut() {
    for output in [
        "what? 2026!",
        "?2026h",
        "\x1b[2026hx",
        "\x1b[?2026lx",
        "\x1b[?20261hx",
        "\x1b[?12026hx",
        "\x1b[?1:2026hx",
        "\x1b[?2026 hx",
        "\x1b]0;?2026h\x07x",
    ] {
        let bytes = output.as_bytes();
        let whole = shown(16, 2, &[bytes.to_vec()]);
        assert!(whole.cells.iter().any(|c| c.ch != ' '), "{:?}", output);
        for cut in 0..=bytes.len() {
            let cut_up = shown(16, 2, &[bytes[..cut].to_vec(), bytes[cut..].to_vec()]);
            assert!(same_screen(&cut_up, &whole), "{:?} at {}", output, cut);
        }
    }
    // These hold the text back.
    for output in ["\x1b[?2026hx", "\x1b[?25;02026hx", "\x1b[?2026:1hx", "\x1b\x01[?20\x7f26hx"] {
        let whole = shown(16, 2, &[output.as_bytes().to_vec()]);
        assert!(whole.cells.iter().all(|c| c.ch == ' '), "{:?}", output);
    }
}

fn loses_byte(before: &[u8], next: &[u8]) -> bool {
    before.last().is_some_and(|b| (0xC2..=0xDF).contains(b))
        && next.len() >= 3
        && (0x80..=0xBF).contains(&next[0])
        && next[1] < 0x80
        && next[2] >= 0x80
}

/// The same bytes, cut only where a byte is lost.
fn mended(pieces: &[Vec<u8>]) -> Vec<Vec<u8>> {
    let mut before: Vec<u8> = Vec::new();
    let mut mended: Vec<Vec<u8>> = Vec::new();
    for piece in pieces.iter().filter(|piece| !piece.is_empty()) {
        if mended.is_empty() || loses_byte(&before, piece) {
            mended.push(piece.clone());
        } else {
            mended.last_mut().unwrap().extend_from_slice(piece);
        }
        before.extend_from_slice(piece);
    }
    mended
}

#[test]
fn only_cuts_that_lose_a_byte_have_to_be_kept() {
    // No repetitions and no synchronized updates among these.
    let parts: [&[u8]; 26] = [
        b"a", b"Z", b" ", b"\t", b"\r", b"\x1b", b"\x1b[", b"\x1b]", b"\x1bP", b"\x1b_", b"7",
        b";", b"?", b"m", b"\x07", b"\x18", b"\xc2", b"\xc3", b"\xdf", b"\xa9", b"\x85", b"\x9c",
        b"\xe4", b"\xb8", b"\xf0", b"\x9f",
    ];
    let mut state: u64 = 7;
    let mut random = move |below: usize| {
        state = state.wrapping_mul(6_364_136_223_846_793_005).wrapping_add(1_442_695_040_888_963_407);
        (state >> 33) as usize % below
    };
    let mut kept = 0;
    for _ in 0..4_000 {
        let mut pieces: Vec<Vec<u8>> = vec![Vec::new()];
        for _ in 0..14 {
            let part = if random(2) == 0 { 16 + random(10) } else { random(26) };
            for byte in parts[part] {
                if random(3) == 0 {
                    pieces.push(Vec::new());
                }
                pieces.last_mut().unwrap().push(*byte);
            }
        }
        let together = mended(&pieces);
        kept += together.len() - 1;
        assert_eq!(together.concat(), pieces.concat());
        let (a, b) = (shown(9, 3, &pieces), shown(9, 3, &together));
        assert!(same_screen(&a, &b), "{:X?}", pieces);
    }
    assert!(kept > 20);
}

#[test]
fn a_cut_behind_a_lost_byte_changes_nothing_more() {
    // The blank is lost in all of these.
    let expected = shown(8, 1, &["\u{e9}\u{e0}bc".as_bytes().to_vec()]);
    let rest = " \u{e0}bc".as_bytes();
    for cut in 2..=rest.len() {
        let mut next = vec![0xA9];
        next.extend_from_slice(&rest[..cut]);
        let pieces = vec![vec![0xC3], next, rest[cut..].to_vec()];
        assert!(same_screen(&shown(8, 1, &pieces), &expected), "at {}", cut);
    }
    // Here it is not: the piece behind the cut is too short.
    let pieces = vec![vec![0xC3], vec![0xA9, b' '], rest[1..].to_vec()];
    assert_eq!(text_of(&shown(8, 1, &pieces), 0), "\u{e9} \u{e0}bc");
}

#[test]
fn printing_nothing_changes_nothing() {
    let mut emu = TerminalEmulator::new(5, 0).unwrap();
    emu.process_output(b"").unwrap();
    let mut emu = TerminalEmulator::new(4, 2).unwrap();
    emu.process_output(b"ab\x1b[3").unwrap();
    let before = emu.get_screen().unwrap();
    emu.process_output(b"").unwrap();
    assert!(same_screen(&emu.get_screen().unwrap(), &before));
    emu.process_output(b"1mc").unwrap();
    assert_eq!(emu.get_screen().unwrap().cells[2].fg_color, (205, 0, 0));
}

#[test]
fn lines_wrap_and_scroll() {
    let mut emu = TerminalEmulator::new(4, 2).unwrap();
    emu.process_output(b"abcdef\r\nghi").unwrap();
    let screen = emu.get_screen().unwrap();
    assert_eq!(text_of(&screen, 0), "ef");
    assert_eq!(text_of(&screen, 1), "ghi");
}

#[test]
fn a_wide_character_that_does_not_fit_leaves_a_blank() {
    let mut emu = TerminalEmulator::new(3, 2).unwrap();
    emu.process_output("ab世".as_bytes()).unwrap();
    let screen = emu.get_screen().unwrap();
    assert_eq!(screen.cells[2].ch, ' ');
    assert!(!screen.cells[2].wide);
    assert_eq!(screen.cells[3].ch, '世');
    assert!(screen.cells[3].wide);
    assert_eq!(screen.cells[4].ch, ' ');
    assert!(!screen.cells[4].wide);
}

#[test]
fn colours_of_every_kind_are_resolved() {
    let mut emu = TerminalEmulator::new(10, 2).unwrap();
    emu.process_output(b"\x1b[38;5;196;48;5;232mA\x1b[38;2;1;2;3;48;2;4;5;6mB\x1b[0mC\x1b[97;100mD")
        .unwrap();
    let screen = emu.get_screen().unwrap();
    assert_eq!(screen.cells[0].fg_color, (255, 0, 0));
    assert_eq!(screen.cells[0].bg_color, (8, 8, 8));
    assert_eq!(screen.cells[1].fg_color, (1, 2, 3));
    assert_eq!(screen.cells[1].bg_color, (4, 5, 6));
    assert_eq!(screen.cells[2].fg_color, (255, 255, 255));
    assert_eq!(screen.cells[2].bg_color, (0, 0, 0));
    assert_eq!(screen.cells[3].fg_color, (255, 255, 255));
    assert_eq!(screen.cells[3].bg_color, (127, 127, 127));
}

#[test]
fn a_colour_that_was_redefined_shows_as_defined() {
    let mut emu = TerminalEmulator::new(10, 2).unwrap();
    emu.process_output(b"\x1b]4;1;rgb:12/34/56\x1b\\\x1b[31mA\x1b[38;5;1mB").unwrap();
    let screen = emu.get_screen().unwrap();
    assert_eq!(screen.cells[0].fg_color, (0x12, 0x34, 0x56));
    assert_eq!(screen.cells[1].fg_color, (0x12, 0x34, 0x56));
}

#[test]
fn the_same_output_gives_the_same_screen() {
    let output: [&[u8]; 3] = [b"\x1b[1;32mok\x1b[", b"0m plain\r\n", "\u{1F600} end".as_bytes()];
    let mut first = TerminalEmulator::new(12, 3).unwrap();
    let mut second = TerminalEmulator::new(12, 3).unwrap();
    for piece in output {
        first.process_output(piece).unwrap();
        second.process_output(piece).unwrap();
    }
    let a = first.get_screen().unwrap();
    assert!(same_screen(&a, &second.get_screen().unwrap()));
    assert!(same_screen(&a, &first.get_screen().unwrap()));
    assert_eq!(text_of(&a, 0), "ok plain");
    assert!(a.cells[0].bold && !a.cells[3].bold);
    assert_eq!(a.cells[12].ch, '\u{1F600}');
    assert!(a.cells[12].wide);
}

#[test]
fn plain_text_shows_as_it_was_printed() {
    let mut emu = TerminalEmulator::new(4, 3).unwrap();
    let text = b"The quick ~!";
    for piece in text.chunks(5) {
        emu.process_output(piece).unwrap();
        let screen = emu.get_screen().unwrap();
        assert_eq!(screen.cells.len(), 12);
    }
    let screen = emu.get_screen().unwrap();
    for (i, cell) in screen.cells.iter().enumerate() {
        let expected = TerminalCell { ch: text[i] as char, ..TerminalCell::default() };
        assert!(same_cell(cell, &expected));
    }
}
