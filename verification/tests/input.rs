use rdpterm::input::utf8_bytes;
use rdpterm::input::KeyEvent;
use rdpterm::input::Modifiers;

const RELEASE: u16 = 0x8000;
const EXTENDED: u16 = 0x0100;

fn press(scancode: u16) -> KeyEvent {
    KeyEvent::from_flags(0, RELEASE, EXTENDED, scancode, None, None)
}

fn release(scancode: u16) -> KeyEvent {
    KeyEvent::from_flags(RELEASE, RELEASE, EXTENDED, scancode, None, None)
}

fn letter(scancode: u16, plain: char, shifted: char) -> KeyEvent {
    KeyEvent::from_flags(0, RELEASE, EXTENDED, scancode, Some(plain), Some(shifted))
}

fn extended(scancode: u16) -> KeyEvent {
    KeyEvent::from_flags(EXTENDED, RELEASE, EXTENDED, scancode, None, None)
}

#[test]
fn flags_are_told_apart() {
    let key = KeyEvent::from_flags(RELEASE | EXTENDED | 1, RELEASE, EXTENDED, 0x48, None, None);
    assert!(key.released && key.extended);
    let key = KeyEvent::from_flags(1, RELEASE, EXTENDED, 0x48, None, None);
    assert!(!key.released && !key.extended);
    let key = KeyEvent::from_flags(0x0100, 0x0100, 0x8000, 0x48, None, None);
    assert!(key.released && !key.extended);
}

#[test]
fn letters_go_with_shift() {
    let mut mods = Modifiers::none();
    let a = letter(0x1E, 'a', 'A');
    assert_eq!(mods.key(&a), b"a");
    for shift in [0x2A, 0x36] {
        assert!(mods.key(&press(shift)).is_empty());
        assert!(mods.shift);
        assert_eq!(mods.key(&a), b"A");
        assert!(mods.key(&release(shift)).is_empty());
        assert!(!mods.shift);
        assert_eq!(mods.key(&a), b"a");
    }
}

#[test]
fn control_makes_the_first_codes() {
    let mut mods = Modifiers::none();
    mods.key(&press(0x1D));
    assert!(mods.ctrl);
    for (i, c) in ('a'..='z').enumerate() {
        assert_eq!(mods.key(&letter(0x10, c, '?')), vec![i as u8 + 1]);
    }
    assert!(mods.key(&letter(0x02, '1', '!')).is_empty());
    assert!(mods.key(&letter(0x10, '`', '~')).is_empty());
    assert!(mods.key(&letter(0x10, '{', '{')).is_empty());
    // The low eight bits of U+0161 are those of a small a.
    assert_eq!(mods.key(&letter(0x10, '\u{161}', '\u{160}')), vec![1]);
    // Other keys send nothing while control is down.
    assert!(mods.key(&extended(0x48)).is_empty());
    assert!(mods.key(&press(0x1C)).is_empty());
    mods.key(&release(0x1D));
    assert_eq!(mods.key(&press(0x1C)), b"\r");
}

#[test]
fn alt_is_noted_and_changes_nothing() {
    let mut mods = Modifiers::none();
    assert!(mods.key(&press(0x38)).is_empty());
    assert!(mods.alt);
    assert_eq!(mods.key(&letter(0x1E, 'a', 'A')), b"a");
    assert!(mods.key(&release(0x38)).is_empty());
    assert_eq!(mods, Modifiers::none());
}

#[test]
fn extended_keys_send_sequences() {
    let expected: [(u16, &[u8]); 10] = [
        (0x48, b"\x1b[A"),
        (0x50, b"\x1b[B"),
        (0x4D, b"\x1b[C"),
        (0x4B, b"\x1b[D"),
        (0x47, b"\x1b[H"),
        (0x4F, b"\x1b[F"),
        (0x49, b"\x1b[5~"),
        (0x51, b"\x1b[6~"),
        (0x52, b"\x1b[2~"),
        (0x53, b"\x1b[3~"),
    ];
    let mut mods = Modifiers::none();
    for (scancode, bytes) in expected {
        assert_eq!(mods.key(&extended(scancode)), bytes);
    }
    assert!(mods.key(&extended(0x1C)).is_empty());
    assert!(mods.key(&extended(0x5B)).is_empty());
}

#[test]
fn special_keys_send_sequences() {
    let expected: [(u16, &[u8]); 14] = [
        (0x01, b"\x1b"),
        (0x0E, b"\x7f"),
        (0x0F, b"\t"),
        (0x1C, b"\r"),
        (0x3B, b"\x1bOP"),
        (0x3C, b"\x1bOQ"),
        (0x3D, b"\x1bOR"),
        (0x3E, b"\x1bOS"),
        (0x3F, b"\x1b[15~"),
        (0x40, b"\x1b[17~"),
        (0x41, b"\x1b[18~"),
        (0x42, b"\x1b[19~"),
        (0x43, b"\x1b[20~"),
        (0x44, b"\x1b[21~"),
    ];
    let mut mods = Modifiers::none();
    for (scancode, bytes) in expected {
        assert_eq!(mods.key(&press(scancode)), bytes);
        assert!(mods.key(&release(scancode)).is_empty());
    }
    // A key without a character sends nothing.
    assert!(mods.key(&press(0x57)).is_empty());
}

#[test]
fn releasing_sends_nothing() {
    let mut mods = Modifiers::none();
    for scancode in 0..0x100 {
        let mut key = letter(scancode, 'x', 'X');
        key.released = true;
        assert!(mods.key(&key).is_empty());
    }
    assert_eq!(mods, Modifiers::none());
}

#[test]
fn characters_are_sent_as_utf8() {
    for c in ['a', '\u{7f}', '\u{80}', 'é', '\u{7ff}', '\u{800}', '世', '\u{ffff}', '\u{10000}', '😀'] {
        assert_eq!(utf8_bytes(c), c.to_string().as_bytes());
        let mut mods = Modifiers::none();
        assert_eq!(mods.key(&letter(0x10, c, 'x')), c.to_string().as_bytes());
    }
    for v in (0..0x110000u32).step_by(97) {
        if let Some(c) = char::from_u32(v) {
            assert_eq!(utf8_bytes(c), c.to_string().as_bytes());
        }
    }
}
