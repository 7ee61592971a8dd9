//! From keys to the bytes that a terminal program reads.

use vstd::prelude::*;
use vstd::utf8::decode_utf8;
use vstd::utf8::encode_scalar;
use vstd::utf8::encode_utf8;
use vstd::utf8::valid_utf8;

verus! {

/// A key going down or up.
#[derive(Clone, Copy, Debug, PartialEq, Eq, Structural)]
pub struct KeyEvent {
    /// The key went up.
    pub released: bool,
    /// The key is one of the extended keys, such as the arrows.
    pub extended: bool,
    pub scancode: u16,
    /// The character on the key, if it has one.
    pub plain: Option<char>,
    /// The character on the key with shift, if it has one.
    pub shifted: Option<char>,
}

/// What the client sends.
#[derive(Clone, Copy, Debug, PartialEq, Eq, Structural)]
pub enum InputEvent {
    Mouse,
    Key(KeyEvent),
}

/// The modifier keys that are down.
#[derive(Clone, Copy, Debug, PartialEq, Eq, Structural)]
pub struct Modifiers {
    pub shift: bool,
    pub ctrl: bool,
    pub alt: bool,
}

impl KeyEvent {
    /// A key event from its flags: the bits of `release_flag` and
    /// `extended_flag` say what they say, whichever of them is set.
    pub fn from_flags(
        flags: u16,
        release_flag: u16,
        extended_flag: u16,
        scancode: u16,
        plain: Option<char>,
        shifted: Option<char>,
    ) -> (r: KeyEvent)
        ensures
            r == (KeyEvent {
                released: flags & release_flag != 0,
                extended: flags & extended_flag != 0,
                scancode,
                plain,
                shifted,
            }),
            r.released <==> flags & release_flag != 0,
            r.extended <==> flags & extended_flag != 0,
            r.scancode == scancode && r.plain == plain && r.shifted == shifted,
    {
        KeyEvent {
            released: flags & release_flag != 0,
            extended: flags & extended_flag != 0,
            scancode,
            plain,
            shifted,
        }
    }
}

/// The key is shift, on either side.
pub open spec fn is_shift(scancode: u16) -> bool {
    scancode == 0x2A || scancode == 0x36
}

/// The key is a modifier.
pub open spec fn is_modifier(scancode: u16) -> bool {
    is_shift(scancode) || scancode == 0x1D || scancode == 0x38
}

/// The modifiers after a key event.
pub open spec fn modifiers_after(mods: Modifiers, key: KeyEvent) -> Modifiers {
    if is_shift(key.scancode) {
        Modifiers { shift: !key.released, ..mods }
    } else if key.scancode == 0x1D {
        Modifiers { ctrl: !key.released, ..mods }
    } else if key.scancode == 0x38 {
        Modifiers { alt: !key.released, ..mods }
    } else {
        mods
    }
}

/// What the control key makes of a character: `a` to `z` become 1 to 26.  Only
/// the low eight bits of the character count.
pub open spec fn control_bytes(ch: Option<char>) -> Seq<u8> {
    match ch {
        Some(c) => {
            let low = c as u32 as int % 256;
            if 97 <= low <= 122 {
                seq![(low - 96) as u8]
            } else {
                Seq::empty()
            }
        },
        None => Seq::empty(),
    }
}

/// A sequence of the form `ESC [ c`.
pub open spec fn csi(c: u8) -> Seq<u8> {
    seq![0x1B, 0x5B, c]
}

/// A sequence of the form `ESC O c`.
pub open spec fn ss3(c: u8) -> Seq<u8> {
    seq![0x1B, 0x4F, c]
}

/// A sequence of the form `ESC [ d ~`.
pub open spec fn csi_tilde(d: u8) -> Seq<u8> {
    seq![0x1B, 0x5B, d, 0x7E]
}

/// A sequence of the form `ESC [ d e ~`.
pub open spec fn csi_tilde2(d: u8, e: u8) -> Seq<u8> {
    seq![0x1B, 0x5B, d, e, 0x7E]
}

/// What the extended keys send: arrows, home, end, page up, page down, insert
/// and delete.
pub open spec fn extended_bytes(scancode: u16) -> Seq<u8> {
    if scancode == 0x48 {
        csi(0x41)
    } else if scancode == 0x50 {
        csi(0x42)
    } else if scancode == 0x4D {
        csi(0x43)
    } else if scancode == 0x4B {
        csi(0x44)
    } else if scancode == 0x47 {
        csi(0x48)
    } else if scancode == 0x4F {
        csi(0x46)
    } else if scancode == 0x49 {
        csi_tilde(0x35)
    } else if scancode == 0x51 {
        csi_tilde(0x36)
    } else if scancode == 0x52 {
        csi_tilde(0x32)
    } else if scancode == 0x53 {
        csi_tilde(0x33)
    } else {
        Seq::empty()
    }
}

/// What the other keys without a character send: escape, backspace, tab, enter
/// and the function keys.
pub open spec fn special_bytes(scancode: u16) -> Option<Seq<u8>> {
    if scancode == 0x01 {
        Some(seq![0x1Bu8])
    } else if scancode == 0x0E {
        Some(seq![0x7Fu8])
    } else if scancode == 0x0F {
        Some(seq![0x09u8])
    } else if scancode == 0x1C {
        Some(seq![0x0Du8])
    } else if scancode == 0x3B {
        Some(ss3(0x50))
    } else if scancode == 0x3C {
        Some(ss3(0x51))
    } else if scancode == 0x3D {
        Some(ss3(0x52))
    } else if scancode == 0x3E {
        Some(ss3(0x53))
    } else if scancode == 0x3F {
        Some(csi_tilde2(0x31, 0x35))
    } else if scancode == 0x40 {
        Some(csi_tilde2(0x31, 0x37))
    } else if scancode == 0x41 {
        Some(csi_tilde2(0x31, 0x38))
    } else if scancode == 0x42 {
        Some(csi_tilde2(0x31, 0x39))
    } else if scancode == 0x43 {
        Some(csi_tilde2(0x32, 0x30))
    } else if scancode == 0x44 {
        Some(csi_tilde2(0x32, 0x31))
    } else {
        None
    }
}

/// What a key event sends, given the modifiers that were down before it.
pub open spec fn key_bytes(mods: Modifiers, key: KeyEvent) -> Seq<u8> {
    if is_modifier(key.scancode) || key.released {
        Seq::empty()
    } else if mods.ctrl {
        control_bytes(key.plain)
    } else if key.extended {
        extended_bytes(key.scancode)
    } else {
        match special_bytes(key.scancode) {
            Some(bytes) => bytes,
            None => match if mods.shift {
                key.shifted
            } else {
                key.plain
            } {
                Some(c) => encode_scalar(c as u32),
                None => Seq::empty(),
            },
        }
    }
}

/// A character in UTF-8.
pub fn utf8_bytes(c: char) -> (r: Vec<u8>)
    ensures
        r@ == encode_scalar(c as u32),
{
    let v: u32 = c as u32;
    if v <= 0x7F {
        vec![(v & 0x7F) as u8]
    } else if v <= 0x7FF {
        vec![0xC0 | ((v >> 6) & 0x1F) as u8, 0x80 | (v & 0x3F) as u8]
    } else if v <= 0xFFFF {
        vec![
            0xE0 | ((v >> 12) & 0x0F) as u8,
            0x80 | ((v >> 6) & 0x3F) as u8,
            0x80 | (v & 0x3F) as u8,
        ]
    } else {
        vec![
            0xF0 | ((v >> 18) & 0x7) as u8,
            0x80 | ((v >> 12) & 0x3F) as u8,
            0x80 | ((v >> 6) & 0x3F) as u8,
            0x80 | (v & 0x3F) as u8,
        ]
    }
}

impl Modifiers {
    /// No modifier is down.
    pub fn none() -> (r: Modifiers)
        ensures
            r == (Modifiers { shift: false, ctrl: false, alt: false }),
    {
        Modifiers { shift: false, ctrl: false, alt: false }
    }

    /// Takes note of a key event and returns the bytes it sends to the program.
    pub fn key(&mut self, key: &KeyEvent) -> (r: Vec<u8>)
        ensures
            *final(self) == modifiers_after(*old(self), *key),
            r@ == key_bytes(*old(self), *key),
    {
        match key.scancode {
            0x2A | 0x36 => {
                self.shift = !key.released;
                return Vec::new();
            },
            0x1D => {
                self.ctrl = !key.released;
                return Vec::new();
            },
            0x38 => {
                self.alt = !key.released;
                return Vec::new();
            },
            _ => {},
        }
        if key.released {
            return Vec::new();
        }
        if self.ctrl {
            if let Some(c) = key.plain {
                let low: u32 = (c as u32) % 256;
                if 97 <= low && low <= 122 {
                    return vec![(low - 96) as u8];
                }
            }
            return Vec::new();
        }
        if key.extended {
            return match key.scancode {
                0x48 => vec![0x1B, 0x5B, 0x41],
                0x50 => vec![0x1B, 0x5B, 0x42],
                0x4D => vec![0x1B, 0x5B, 0x43],
                0x4B => vec![0x1B, 0x5B, 0x44],
                0x47 => vec![0x1B, 0x5B, 0x48],
                0x4F => vec![0x1B, 0x5B, 0x46],
                0x49 => vec![0x1B, 0x5B, 0x35, 0x7E],
                0x51 => vec![0x1B, 0x5B, 0x36, 0x7E],
                0x52 => vec![0x1B, 0x5B, 0x32, 0x7E],
                0x53 => vec![0x1B, 0x5B, 0x33, 0x7E],
                _ => Vec::new(),
            };
        }
        match key.scancode {
            0x01 => vec![0x1B],
            0x0E => vec![0x7F],
            0x0F => vec![0x09],
            0x1C => vec![0x0D],
            0x3B => vec![0x1B, 0x4F, 0x50],
            0x3C => vec![0x1B, 0x4F, 0x51],
            0x3D => vec![0x1B, 0x4F, 0x52],
            0x3E => vec![0x1B, 0x4F, 0x53],
            0x3F => vec![0x1B, 0x5B, 0x31, 0x35, 0x7E],
            0x40 => vec![0x1B, 0x5B, 0x31, 0x37, 0x7E],
            0x41 => vec![0x1B, 0x5B, 0x31, 0x38, 0x7E],
            0x42 => vec![0x1B, 0x5B, 0x31, 0x39, 0x7E],
            0x43 => vec![0x1B, 0x5B, 0x32, 0x30, 0x7E],
            0x44 => vec![0x1B, 0x5B, 0x32, 0x31, 0x7E],
            _ => {
                let ch: Option<char> = if self.shift {
                    key.shifted
                } else {
                    key.plain
                };
                match ch {
                    Some(c) => utf8_bytes(c),
                    None => Vec::new(),
                }
            },
        }
    }
}

/// Releasing a key sends nothing, and neither does a modifier.
pub proof fn lemma_only_presses_send(mods: Modifiers, key: KeyEvent)
    requires
        key.released || is_modifier(key.scancode),
    ensures
        key_bytes(mods, key).len() == 0,
{
}

/// Only the modifier keys change the modifiers.
pub proof fn lemma_other_keys_keep_modifiers(mods: Modifiers, key: KeyEvent)
    requires
        !is_modifier(key.scancode),
    ensures
        modifiers_after(mods, key) == mods,
{
}

/// A modifier that goes down and up again is up, and the others are as before.
pub proof fn lemma_modifier_press_release(mods: Modifiers, down: KeyEvent, up: KeyEvent)
    requires
        is_modifier(down.scancode),
        down.scancode == up.scancode,
        !down.released,
        up.released,
    ensures
        ({
            let after = modifiers_after(modifiers_after(mods, down), up);
            &&& after.shift == (mods.shift && !is_shift(down.scancode))
            &&& after.ctrl == (mods.ctrl && down.scancode != 0x1D)
            &&& after.alt == (mods.alt && down.scancode != 0x38)
        }),
{
}

/// With control down, a key sends one control code from 1 to 26, or nothing,
/// and shift makes no difference.
pub proof fn lemma_control_codes(mods: Modifiers, key: KeyEvent)
    requires
        mods.ctrl,
        !key.released,
        !is_modifier(key.scancode),
    ensures
        key_bytes(mods, key).len() <= 1,
        key_bytes(mods, key).len() == 1 ==> 1 <= key_bytes(mods, key)[0] <= 26,
        key_bytes(mods, key) == key_bytes(Modifiers { shift: !mods.shift, ..mods }, key),
{
}

/// Alt makes no difference to what is sent.
pub proof fn lemma_alt_is_idle(mods: Modifiers, key: KeyEvent)
    ensures
        key_bytes(mods, key) == key_bytes(Modifiers { alt: !mods.alt, ..mods }, key),
{
}

/// An ASCII character is sent as itself.
pub proof fn lemma_ascii_sends_itself(mods: Modifiers, key: KeyEvent)
    requires
        !mods.ctrl,
        !key.released,
        !key.extended,
        !is_modifier(key.scancode),
        special_bytes(key.scancode) is None,
    ensures
        ({
            let ch = if mods.shift {
                key.shifted
            } else {
                key.plain
            };
            ch matches Some(c) ==> (c as u32) <= 0x7F ==> key_bytes(mods, key) == seq![c as u32 as u8]
        }),
{
    let ch = if mods.shift {
        key.shifted
    } else {
        key.plain
    };
    if let Some(c) = ch {
        let v = c as u32;
        assert(v <= 0x7F ==> (v & 0x7F) as u8 == v as u8) by (bit_vector);
    }
}

/// Each modifier is down from its own key's press to its release, and no other
/// key moves it: shift has the keys 0x2A and 0x36, control 0x1D and alt 0x38.
pub proof fn lemma_modifier_keys(mods: Modifiers, key: KeyEvent)
    ensures
        ({
            let after = modifiers_after(mods, key);
            let s = key.scancode;
            &&& (s == 0x2A || s == 0x36) ==> after.shift != key.released
            &&& s != 0x2A && s != 0x36 ==> after.shift == mods.shift
            &&& s == 0x1D ==> after.ctrl != key.released
            &&& s != 0x1D ==> after.ctrl == mods.ctrl
            &&& s == 0x38 ==> after.alt != key.released
            &&& s != 0x38 ==> after.alt == mods.alt
        }),
{
}

/// The four modifier keys send nothing, and no key sends anything on its
/// release.
pub proof fn lemma_silent_keys(mods: Modifiers, key: KeyEvent)
    ensures
        key.released ==> key_bytes(mods, key).len() == 0,
        key.scancode == 0x2A || key.scancode == 0x36 || key.scancode == 0x1D || key.scancode == 0x38
            ==> key_bytes(mods, key).len() == 0,
{
}

/// With control down, the press of any key that is no modifier sends the place
/// of its plain character in the alphabet, whatever its scancode: one byte, 96
/// less than the character, for a letter from `a` to `z`.  Beyond Latin-1 the
/// low eight bits of the character count.  Without such a letter nothing is
/// sent.
pub proof fn lemma_control_letters(mods: Modifiers, key: KeyEvent)
    requires
        mods.ctrl,
        !key.released,
        key.scancode != 0x2A,
        key.scancode != 0x36,
        key.scancode != 0x1D,
        key.scancode != 0x38,
    ensures
        key.plain matches Some(c) ==> 'a' <= c <= 'z' ==> key_bytes(mods, key).len() == 1
            && key_bytes(mods, key)[0] + 96 == c as u32,
        key.plain matches Some(c) ==> 97 <= c as u32 % 256 <= 122 ==> key_bytes(mods, key).len()
            == 1 && key_bytes(mods, key)[0] + 96 == c as u32 % 256,
        key.plain matches Some(c) ==> !(97 <= c as u32 % 256 <= 122) ==> key_bytes(mods, key).len()
            == 0,
        key.plain is None ==> key_bytes(mods, key).len() == 0,
{
}

/// Control is held for the keys between its press and its release: the same
/// key sends its control code in between and its character afterwards.
pub proof fn lemma_control_chord(mods: Modifiers, down: KeyEvent, key: KeyEvent, up: KeyEvent)
    requires
        down.scancode == 0x1D,
        !down.released,
        up.scancode == 0x1D,
        up.released,
        !key.released,
        !key.extended,
        0x10 <= key.scancode <= 0x35,
        key.scancode != 0x1C,
        key.scancode != 0x1D,
        key.scancode != 0x2A,
        key.plain matches Some(c) && 'a' <= c <= 'z',
    ensures
        ({
            let held = modifiers_after(mods, down);
            let after = modifiers_after(modifiers_after(held, key), up);
            let c = key.plain->0;
            &&& key_bytes(mods, down).len() == 0
            &&& key_bytes(held, key) =~= seq![(c as u32 - 96) as u8]
            &&& key_bytes(held, up).len() == 0
            &&& !after.ctrl && after.shift == mods.shift && after.alt == mods.alt
            &&& !after.shift ==> key_bytes(after, key) =~= seq![c as u32 as u8]
        }),
{
    let v = key.plain->0 as u32;
    assert(v <= 0x7F ==> (v & 0x7F) as u8 == v as u8) by (bit_vector);
}

/// The arrows and the keys around them send their sequences, whatever the
/// other modifiers and the characters on the key are.  Up, down, right, left,
/// home and end send `ESC [` and a letter; insert, delete, page up and page
/// down send `ESC [`, a digit and `~`.  Other extended keys send nothing.
pub proof fn lemma_extended_keys(mods: Modifiers, key: KeyEvent)
    requires
        !mods.ctrl,
        !key.released,
        key.extended,
        key.scancode != 0x2A,
        key.scancode != 0x36,
        key.scancode != 0x1D,
        key.scancode != 0x38,
    ensures
        ({
            let s = key.scancode;
            let bytes = key_bytes(mods, key);
            let lettered = s == 0x48 || s == 0x50 || s == 0x4D || s == 0x4B || s == 0x47 || s
                == 0x4F;
            let numbered = s == 0x52 || s == 0x53 || s == 0x49 || s == 0x51;
            &&& lettered ==> bytes.len() == 3
            &&& numbered ==> bytes.len() == 4 && bytes[3] == 0x7E
            &&& lettered || numbered ==> bytes[0] == 0x1B && bytes[1] == 0x5B
            &&& !lettered && !numbered ==> bytes.len() == 0
            &&& s == 0x48 ==> bytes[2] == 'A' as u32
            &&& s == 0x50 ==> bytes[2] == 'B' as u32
            &&& s == 0x4D ==> bytes[2] == 'C' as u32
            &&& s == 0x4B ==> bytes[2] == 'D' as u32
            &&& s == 0x47 ==> bytes[2] == 'H' as u32
            &&& s == 0x4F ==> bytes[2] == 'F' as u32
            &&& s == 0x52 ==> bytes[2] == '2' as u32
            &&& s == 0x53 ==> bytes[2] == '3' as u32
            &&& s == 0x49 ==> bytes[2] == '5' as u32
            &&& s == 0x51 ==> bytes[2] == '6' as u32
        }),
{
}

/// Escape, backspace, tab and enter send one byte.  The first four function
/// keys send `ESC O` and the letters from `P` on; the next six send `ESC [`, a
/// number and `~`, where the numbers are 15 and those from 17 on.  Shift and alt
/// make no difference to any of them.
pub proof fn lemma_special_keys(mods: Modifiers, key: KeyEvent)
    requires
        !mods.ctrl,
        !key.released,
        !key.extended,
    ensures
        ({
            let s = key.scancode;
            let bytes = key_bytes(mods, key);
            &&& s == 0x01 ==> bytes =~= seq![27u8]
            &&& s == 0x0E ==> bytes =~= seq![127u8]
            &&& s == 0x0F ==> bytes =~= seq![9u8]
            &&& s == 0x1C ==> bytes =~= seq![13u8]
            &&& 0x3B <= s <= 0x3E ==> bytes.len() == 3 && bytes[0] == 27 && bytes[1] == 'O' as u32
                && bytes[2] - 'P' as u32 == s - 0x3B
            &&& 0x3F <= s <= 0x44 ==> bytes.len() == 5 && bytes[0] == 27 && bytes[1] == '[' as u32
                && bytes[4] == '~' as u32 && 48 <= bytes[2] <= 57 && 48 <= bytes[3] <= 57
            &&& s == 0x3F ==> 10 * (bytes[2] - 48) + (bytes[3] - 48) == 15
            &&& 0x40 <= s <= 0x44 ==> 10 * (bytes[2] - 48) + (bytes[3] - 48) == s - 0x40 + 17
        }),
{
}

/// Every other key sends its character in UTF-8, the one with shift where shift
/// is down: what is sent reads back as that character.  A key without one sends
/// nothing.
pub proof fn lemma_character_keys(mods: Modifiers, key: KeyEvent)
    requires
        !mods.ctrl,
        !key.released,
        !key.extended,
        key.scancode != 0x01,
        key.scancode != 0x0E,
        key.scancode != 0x0F,
        key.scancode != 0x1C,
        key.scancode != 0x1D,
        key.scancode != 0x2A,
        key.scancode != 0x36,
        key.scancode != 0x38,
        !(0x3B <= key.scancode <= 0x44),
    ensures
        ({
            let bytes = key_bytes(mods, key);
            let read_back = valid_utf8(bytes) && bytes.len() > 0;
            &&& !mods.shift ==> (key.plain matches Some(c) ==> read_back && decode_utf8(bytes)
                == seq![c])
            &&& mods.shift ==> (key.shifted matches Some(c) ==> read_back && decode_utf8(bytes)
                == seq![c])
            &&& !mods.shift && key.plain is None ==> bytes.len() == 0
            &&& mods.shift && key.shifted is None ==> bytes.len() == 0
        }),
{
    let ch = if mods.shift {
        key.shifted
    } else {
        key.plain
    };
    if let Some(c) = ch {
        let text = seq![c];
        assert(text.drop_first() =~= Seq::<char>::empty());
        assert(encode_utf8(text.drop_first()) =~= Seq::<u8>::empty());
        assert(encode_utf8(text) =~= encode_scalar(c as u32));
        vstd::utf8::encode_utf8_decode_utf8(text);
        vstd::utf8::encode_utf8_valid_utf8(text);
    }
}

} // verus!
