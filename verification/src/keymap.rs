//! Keys: the codes that clients send, the codes of macOS and what is written on them.

use vstd::prelude::*;

verus! {

/// The key of macOS that a scan code of set 1 stands for. A code that is not in the table stands for
/// itself.
pub open spec fn mac_key(code: u8, extended: bool) -> u16 {
    if extended {
        match code {
            0x48 => 0x7E,  // Up Arrow
            0x50 => 0x7D,  // Down Arrow
            0x4B => 0x7B,  // Left Arrow
            0x4D => 0x7C,  // Right Arrow
            0x52 => 0x72,  // Insert / Help
            0x53 => 0x75,  // Forward Delete
            0x47 => 0x73,  // Home
            0x4F => 0x77,  // End
            0x49 => 0x74,  // Page Up
            0x51 => 0x79,  // Page Down
            0x5B => 0x37,  // Left Command (Win)
            0x5C => 0x36,  // Right Command (Win)
            0x5D => 0x6E,  // Menu / App
            0x1D => 0x3E,  // Right Ctrl
            0x38 => 0x3D,  // Right Option/Alt
            0x1C => 0x4C,  // Numpad Enter
            0x35 => 0x4B,  // Numpad /
            0x37 => 0x69,  // PrintScreen
            0x46 => 0x71,  // Pause/Break
            _ => code as u16,
        }
    } else {
        match code {
            0x01 => 0x35,  // Escape
            0x02 => 0x12,  // 1
            0x03 => 0x13,  // 2
            0x04 => 0x14,  // 3
            0x05 => 0x15,  // 4
            0x06 => 0x17,  // 5
            0x07 => 0x16,  // 6
            0x08 => 0x1A,  // 7
            0x09 => 0x1C,  // 8
            0x0A => 0x19,  // 9
            0x0B => 0x1D,  // 0
            0x0C => 0x1B,  // -
            0x0D => 0x18,  // =
            0x0E => 0x33,  // Backspace
            0x0F => 0x30,  // Tab
            0x10 => 0x0C,  // Q
            0x11 => 0x0D,  // W
            0x12 => 0x0E,  // E
            0x13 => 0x0F,  // R
            0x14 => 0x11,  // T
            0x15 => 0x10,  // Y
            0x16 => 0x20,  // U
            0x17 => 0x22,  // I
            0x18 => 0x1F,  // O
            0x19 => 0x23,  // P
            0x1A => 0x21,  // [
            0x1B => 0x1E,  // ]
            0x1C => 0x24,  // Enter
            0x1D => 0x3B,  // Left Ctrl
            0x1E => 0x00,  // A
            0x1F => 0x01,  // S
            0x20 => 0x02,  // D
            0x21 => 0x03,  // F
            0x22 => 0x05,  // G
            0x23 => 0x04,  // H
            0x24 => 0x26,  // J
            0x25 => 0x28,  // K
            0x26 => 0x25,  // L
            0x27 => 0x29,  // ;
            0x28 => 0x27,  // '
            0x29 => 0x32,  // `
            0x2A => 0x38,  // Left Shift
            0x2B => 0x2A,  // \
            0x2C => 0x06,  // Z
            0x2D => 0x07,  // X
            0x2E => 0x08,  // C
            0x2F => 0x09,  // V
            0x30 => 0x0B,  // B
            0x31 => 0x2D,  // N
            0x32 => 0x2E,  // M
            0x33 => 0x2B,  // ,
            0x34 => 0x2F,  // .
            0x35 => 0x2C,  // /
            0x36 => 0x3C,  // Right Shift
            0x37 => 0x43,  // Numpad *
            0x38 => 0x3A,  // Left Option / Alt
            0x39 => 0x31,  // Space
            0x3A => 0x39,  // CapsLock
            0x3B => 0x7A,  // F1
            0x3C => 0x78,  // F2
            0x3D => 0x63,  // F3
            0x3E => 0x76,  // F4
            0x3F => 0x60,  // F5
            0x40 => 0x61,  // F6
            0x41 => 0x62,  // F7
            0x42 => 0x64,  // F8
            0x43 => 0x65,  // F9
            0x44 => 0x6D,  // F10
            0x45 => 0x47,  // NumLock
            0x46 => 0x6B,  // ScrollLock
            0x47 => 0x59,  // Numpad 7
            0x48 => 0x5B,  // Numpad 8
            0x49 => 0x5C,  // Numpad 9
            0x4A => 0x4E,  // Numpad -
            0x4B => 0x56,  // Numpad 4
            0x4C => 0x57,  // Numpad 5
            0x4D => 0x58,  // Numpad 6
            0x4E => 0x45,  // Numpad +
            0x4F => 0x53,  // Numpad 1
            0x50 => 0x54,  // Numpad 2
            0x51 => 0x55,  // Numpad 3
            0x52 => 0x52,  // Numpad 0
            0x53 => 0x41,  // Numpad .
            0x57 => 0x67,  // F11
            0x58 => 0x6F,  // F12
            _ => code as u16,
        }
    }
}

/// The key of macOS that a scan code of set 1 stands for.
pub fn rdp_scancode_to_mac(code: u8, extended: bool) -> (r: u16)
    ensures
        r == mac_key(code, extended),
{
    if extended {
        match code {
            0x48 => 0x7E,
            0x50 => 0x7D,
            0x4B => 0x7B,
            0x4D => 0x7C,
            0x52 => 0x72,
            0x53 => 0x75,
            0x47 => 0x73,
            0x4F => 0x77,
            0x49 => 0x74,
            0x51 => 0x79,
            0x5B => 0x37,
            0x5C => 0x36,
            0x5D => 0x6E,
            0x1D => 0x3E,
            0x38 => 0x3D,
            0x1C => 0x4C,
            0x35 => 0x4B,
            0x37 => 0x69,
            0x46 => 0x71,
            _ => code as u16,
        }
    } else {
        match code {
            0x01 => 0x35,
            0x02 => 0x12,
            0x03 => 0x13,
            0x04 => 0x14,
            0x05 => 0x15,
            0x06 => 0x17,
            0x07 => 0x16,
            0x08 => 0x1A,
            0x09 => 0x1C,
            0x0A => 0x19,
            0x0B => 0x1D,
            0x0C => 0x1B,
            0x0D => 0x18,
            0x0E => 0x33,
            0x0F => 0x30,
            0x10 => 0x0C,
            0x11 => 0x0D,
            0x12 => 0x0E,
            0x13 => 0x0F,
            0x14 => 0x11,
            0x15 => 0x10,
            0x16 => 0x20,
            0x17 => 0x22,
            0x18 => 0x1F,
            0x19 => 0x23,
            0x1A => 0x21,
            0x1B => 0x1E,
            0x1C => 0x24,
            0x1D => 0x3B,
            0x1E => 0x00,
            0x1F => 0x01,
            0x20 => 0x02,
            0x21 => 0x03,
            0x22 => 0x05,
            0x23 => 0x04,
            0x24 => 0x26,
            0x25 => 0x28,
            0x26 => 0x25,
            0x27 => 0x29,
            0x28 => 0x27,
            0x29 => 0x32,
            0x2A => 0x38,
            0x2B => 0x2A,
            0x2C => 0x06,
            0x2D => 0x07,
            0x2E => 0x08,
            0x2F => 0x09,
            0x30 => 0x0B,
            0x31 => 0x2D,
            0x32 => 0x2E,
            0x33 => 0x2B,
            0x34 => 0x2F,
            0x35 => 0x2C,
            0x36 => 0x3C,
            0x37 => 0x43,
            0x38 => 0x3A,
            0x39 => 0x31,
            0x3A => 0x39,
            0x3B => 0x7A,
            0x3C => 0x78,
            0x3D => 0x63,
            0x3E => 0x76,
            0x3F => 0x60,
            0x40 => 0x61,
            0x41 => 0x62,
            0x42 => 0x64,
            0x43 => 0x65,
            0x44 => 0x6D,
            0x45 => 0x47,
            0x46 => 0x6B,
            0x47 => 0x59,
            0x48 => 0x5B,
            0x49 => 0x5C,
            0x4A => 0x4E,
            0x4B => 0x56,
            0x4C => 0x57,
            0x4D => 0x58,
            0x4E => 0x45,
            0x4F => 0x53,
            0x50 => 0x54,
            0x51 => 0x55,
            0x52 => 0x52,
            0x53 => 0x41,
            0x57 => 0x67,
            0x58 => 0x6F,
            _ => code as u16,
        }
    }
}

/// The scan code in the table for a key of macOS.
pub open spec fn scancode(key: u16) -> Option<(u8, bool)> {
    match key {
        0x7E => Some((0x48, true)),
        0x7D => Some((0x50, true)),
        0x7B => Some((0x4B, true)),
        0x7C => Some((0x4D, true)),
        0x72 => Some((0x52, true)),
        0x75 => Some((0x53, true)),
        0x73 => Some((0x47, true)),
        0x77 => Some((0x4F, true)),
        0x74 => Some((0x49, true)),
        0x79 => Some((0x51, true)),
        0x37 => Some((0x5B, true)),
        0x36 => Some((0x5C, true)),
        0x6E => Some((0x5D, true)),
        0x3E => Some((0x1D, true)),
        0x3D => Some((0x38, true)),
        0x4C => Some((0x1C, true)),
        0x4B => Some((0x35, true)),
        0x69 => Some((0x37, true)),
        0x71 => Some((0x46, true)),
        0x35 => Some((0x01, false)),
        0x12 => Some((0x02, false)),
        0x13 => Some((0x03, false)),
        0x14 => Some((0x04, false)),
        0x15 => Some((0x05, false)),
        0x17 => Some((0x06, false)),
        0x16 => Some((0x07, false)),
        0x1A => Some((0x08, false)),
        0x1C => Some((0x09, false)),
        0x19 => Some((0x0A, false)),
        0x1D => Some((0x0B, false)),
        0x1B => Some((0x0C, false)),
        0x18 => Some((0x0D, false)),
        0x33 => Some((0x0E, false)),
        0x30 => Some((0x0F, false)),
        0x0C => Some((0x10, false)),
        0x0D => Some((0x11, false)),
        0x0E => Some((0x12, false)),
        0x0F => Some((0x13, false)),
        0x11 => Some((0x14, false)),
        0x10 => Some((0x15, false)),
        0x20 => Some((0x16, false)),
        0x22 => Some((0x17, false)),
        0x1F => Some((0x18, false)),
        0x23 => Some((0x19, false)),
        0x21 => Some((0x1A, false)),
        0x1E => Some((0x1B, false)),
        0x24 => Some((0x1C, false)),
        0x3B => Some((0x1D, false)),
        0x00 => Some((0x1E, false)),
        0x01 => Some((0x1F, false)),
        0x02 => Some((0x20, false)),
        0x03 => Some((0x21, false)),
        0x05 => Some((0x22, false)),
        0x04 => Some((0x23, false)),
        0x26 => Some((0x24, false)),
        0x28 => Some((0x25, false)),
        0x25 => Some((0x26, false)),
        0x29 => Some((0x27, false)),
        0x27 => Some((0x28, false)),
        0x32 => Some((0x29, false)),
        0x38 => Some((0x2A, false)),
        0x2A => Some((0x2B, false)),
        0x06 => Some((0x2C, false)),
        0x07 => Some((0x2D, false)),
        0x08 => Some((0x2E, false)),
        0x09 => Some((0x2F, false)),
        0x0B => Some((0x30, false)),
        0x2D => Some((0x31, false)),
        0x2E => Some((0x32, false)),
        0x2B => Some((0x33, false)),
        0x2F => Some((0x34, false)),
        0x2C => Some((0x35, false)),
        0x3C => Some((0x36, false)),
        0x43 => Some((0x37, false)),
        0x3A => Some((0x38, false)),
        0x31 => Some((0x39, false)),
        0x39 => Some((0x3A, false)),
        0x7A => Some((0x3B, false)),
        0x78 => Some((0x3C, false)),
        0x63 => Some((0x3D, false)),
        0x76 => Some((0x3E, false)),
        0x60 => Some((0x3F, false)),
        0x61 => Some((0x40, false)),
        0x62 => Some((0x41, false)),
        0x64 => Some((0x42, false)),
        0x65 => Some((0x43, false)),
        0x6D => Some((0x44, false)),
        0x47 => Some((0x45, false)),
        0x6B => Some((0x46, false)),
        0x59 => Some((0x47, false)),
        0x5B => Some((0x48, false)),
        0x5C => Some((0x49, false)),
        0x4E => Some((0x4A, false)),
        0x56 => Some((0x4B, false)),
        0x57 => Some((0x4C, false)),
        0x58 => Some((0x4D, false)),
        0x45 => Some((0x4E, false)),
        0x53 => Some((0x4F, false)),
        0x54 => Some((0x50, false)),
        0x55 => Some((0x51, false)),
        0x52 => Some((0x52, false)),
        0x41 => Some((0x53, false)),
        0x67 => Some((0x57, false)),
        0x6F => Some((0x58, false)),
        _ => None,
    }
}

/// Whether a scan code is in the table.
pub open spec fn in_table(code: u8, extended: bool) -> bool {
    if extended {
        ||| 0x1C <= code <= 0x1D
        ||| code == 0x35
        ||| 0x37 <= code <= 0x38
        ||| 0x46 <= code <= 0x49
        ||| code == 0x4B
        ||| code == 0x4D
        ||| 0x4F <= code <= 0x53
        ||| 0x5B <= code <= 0x5D
    } else {
        ||| 0x01 <= code <= 0x53
        ||| 0x57 <= code <= 0x58
    }
}

/// No two scan codes of the table stand for the same key.
pub proof fn lemma_keys_distinct(code: u8, extended: bool, other: u8, other_extended: bool)
    requires
        in_table(code, extended),
        in_table(other, other_extended),
        mac_key(code, extended) == mac_key(other, other_extended),
    ensures
        code == other,
        extended == other_extended,
{
    lemma_scancode_back(code, extended);
    lemma_scancode_back(other, other_extended);
}

proof fn lemma_scancode_back(code: u8, extended: bool)
    requires
        in_table(code, extended),
    ensures
        scancode(mac_key(code, extended)) == Some((code, extended)),
{
}

/// Whether a key belongs to the numeric pad.
pub open spec fn numpad(key: u16) -> bool {
    ||| key == 0x41
    ||| key == 0x43
    ||| key == 0x45
    ||| key == 0x47
    ||| 0x4B <= key <= 0x4C
    ||| key == 0x4E
    ||| 0x51 <= key <= 0x59
    ||| 0x5B <= key <= 0x5C
}

/// Whether a key belongs to the numeric pad.
pub fn is_numpad_key(mac_key: u16) -> (r: bool)
    ensures
        r == numpad(mac_key),
{
    matches!(
        mac_key,
        0x41 | 0x43 | 0x45 | 0x47 | 0x4B | 0x4C | 0x4E | 0x51 | 0x52 | 0x53 | 0x54 | 0x55 | 0x56 | 0x57 | 0x58 | 0x59 | 0x5B | 0x5C
    )
}

/// Whether a key changes what others do: command, control, shift, option, caps lock or fn.
pub open spec fn modifier(key: u16) -> bool {
    0x36 <= key <= 0x3F
}

/// Whether a key changes what others do.
pub fn is_mac_modifier(mac_key: u16) -> (r: bool)
    ensures
        r == modifier(mac_key),
{
    matches!(mac_key, 0x37 | 0x36 | 0x3B | 0x3E | 0x38 | 0x3C | 0x3A | 0x3D | 0x39 | 0x3F)
}

/// The character that goes with a punctuation key, so that it does not depend on the layout of the
/// keyboard. None goes with it while a modifier other than shift is held, so that shortcuts work.
pub open spec fn punctuation(key: u16, shift: bool, has_modifiers: bool) -> Option<char> {
    if has_modifiers {
        None
    } else {
        match (key, shift) {
            (0x2F, false) => Some('.'),
            (0x2F, true) => Some('>'),
            (0x41, _) => Some('.'),
            (0x2B, false) => Some(','),
            (0x2B, true) => Some('<'),
            (0x2C, false) => Some('/'),
            (0x2C, true) => Some('?'),
            (0x29, false) => Some(';'),
            (0x29, true) => Some(':'),
            (0x27, false) => Some('\''),
            (0x27, true) => Some('"'),
            (0x21, false) => Some('['),
            (0x21, true) => Some('{'),
            (0x1E, false) => Some(']'),
            (0x1E, true) => Some('}'),
            (0x2A, false) => Some('\\'),
            (0x2A, true) => Some('|'),
            (0x1B, false) => Some('-'),
            (0x1B, true) => Some('_'),
            (0x18, false) => Some('='),
            (0x18, true) => Some('+'),
            (0x32, false) => Some('`'),
            (0x32, true) => Some('~'),
            _ => None,
        }
    }
}

/// The character that goes with a punctuation key.
pub fn get_unicode_override(mac_key: u16, shift: bool, has_modifiers: bool) -> (r: Option<u16>)
    ensures
        r == match punctuation(mac_key, shift, has_modifiers) {
            Some(c) => Some(c as u16),
            None => None,
        },
{
    if has_modifiers {
        return None;
    }
    let ch: char = match (mac_key, shift) {
        (0x2F, false) => '.',
        (0x2F, true) => '>',
        (0x41, _) => '.',
        (0x2B, false) => ',',
        (0x2B, true) => '<',
        (0x2C, false) => '/',
        (0x2C, true) => '?',
        (0x29, false) => ';',
        (0x29, true) => ':',
        (0x27, false) => '\'',
        (0x27, true) => '"',
        (0x21, false) => '[',
        (0x21, true) => '{',
        (0x1E, false) => ']',
        (0x1E, true) => '}',
        (0x2A, false) => '\\',
        (0x2A, true) => '|',
        (0x1B, false) => '-',
        (0x1B, true) => '_',
        (0x18, false) => '=',
        (0x18, true) => '+',
        (0x32, false) => '`',
        (0x32, true) => '~',
        _ => {
            return None;
        },
    };
    Some(ch as u16)
}

/// What a key is called.
pub open spec fn key_name(key: u16) -> Seq<char> {
    match key {
        0x00 => "A"@,
        0x01 => "S"@,
        0x02 => "D"@,
        0x03 => "F"@,
        0x04 => "H"@,
        0x05 => "G"@,
        0x06 => "Z"@,
        0x07 => "X"@,
        0x08 => "C"@,
        0x09 => "V"@,
        0x0B => "B"@,
        0x0C => "Q"@,
        0x0D => "W"@,
        0x0E => "E"@,
        0x0F => "R"@,
        0x10 => "Y"@,
        0x11 => "T"@,
        0x12 => "1"@,
        0x13 => "2"@,
        0x14 => "3"@,
        0x15 => "4"@,
        0x16 => "6"@,
        0x17 => "5"@,
        0x18 => "="@,
        0x19 => "9"@,
        0x1A => "7"@,
        0x1B => "-"@,
        0x1C => "8"@,
        0x1D => "0"@,
        0x1E => "]"@,
        0x1F => "O"@,
        0x20 => "U"@,
        0x21 => "["@,
        0x22 => "I"@,
        0x23 => "P"@,
        0x24 => "Enter"@,
        0x25 => "L"@,
        0x26 => "J"@,
        0x27 => "'"@,
        0x28 => "K"@,
        0x29 => ";"@,
        0x2A => "\\"@,
        0x2B => ","@,
        0x2C => "/"@,
        0x2D => "N"@,
        0x2E => "M"@,
        0x2F => "."@,
        0x30 => "Tab"@,
        0x31 => "Space"@,
        0x32 => "`"@,
        0x33 => "Backspace"@,
        0x35 => "Escape"@,
        0x36 => "Right Cmd"@,
        0x37 => "Left Cmd"@,
        0x38 => "Left Shift"@,
        0x39 => "Caps Lock"@,
        0x3A => "Left Option/Alt"@,
        0x3B => "Left Ctrl"@,
        0x3C => "Right Shift"@,
        0x3D => "Right Option/Alt"@,
        0x3E => "Right Ctrl"@,
        0x3F => "Fn"@,
        0x41 => "Numpad ."@,
        0x43 => "Numpad *"@,
        0x45 => "Numpad +"@,
        0x47 => "NumLock/Clear"@,
        0x4B => "Numpad /"@,
        0x4C => "Numpad Enter"@,
        0x4E => "Numpad -"@,
        0x52 => "Numpad 0"@,
        0x53 => "Numpad 1"@,
        0x54 => "Numpad 2"@,
        0x55 => "Numpad 3"@,
        0x56 => "Numpad 4"@,
        0x57 => "Numpad 5"@,
        0x58 => "Numpad 6"@,
        0x59 => "Numpad 7"@,
        0x5B => "Numpad 8"@,
        0x5C => "Numpad 9"@,
        0x60 => "F5"@,
        0x61 => "F6"@,
        0x62 => "F7"@,
        0x63 => "F3"@,
        0x64 => "F8"@,
        0x65 => "F9"@,
        0x67 => "F11"@,
        0x69 => "PrintScreen"@,
        0x6B => "ScrollLock"@,
        0x6D => "F10"@,
        0x6E => "Menu"@,
        0x6F => "F12"@,
        0x71 => "Pause"@,
        0x72 => "Insert/Help"@,
        0x73 => "Home"@,
        0x74 => "Page Up"@,
        0x75 => "Delete"@,
        0x76 => "F4"@,
        0x77 => "End"@,
        0x78 => "F2"@,
        0x79 => "Page Down"@,
        0x7A => "F1"@,
        0x7B => "Left Arrow"@,
        0x7C => "Right Arrow"@,
        0x7D => "Down Arrow"@,
        0x7E => "Up Arrow"@,
        _ => "Other/Unknown"@,
    }
}

/// What a key is called.
pub fn mac_key_name(keycode: u16) -> (r: &'static str)
    ensures
        r@ == key_name(keycode),
{
    match keycode {
        0x00 => "A",
        0x01 => "S",
        0x02 => "D",
        0x03 => "F",
        0x04 => "H",
        0x05 => "G",
        0x06 => "Z",
        0x07 => "X",
        0x08 => "C",
        0x09 => "V",
        0x0B => "B",
        0x0C => "Q",
        0x0D => "W",
        0x0E => "E",
        0x0F => "R",
        0x10 => "Y",
        0x11 => "T",
        0x12 => "1",
        0x13 => "2",
        0x14 => "3",
        0x15 => "4",
        0x16 => "6",
        0x17 => "5",
        0x18 => "=",
        0x19 => "9",
        0x1A => "7",
        0x1B => "-",
        0x1C => "8",
        0x1D => "0",
        0x1E => "]",
        0x1F => "O",
        0x20 => "U",
        0x21 => "[",
        0x22 => "I",
        0x23 => "P",
        0x24 => "Enter",
        0x25 => "L",
        0x26 => "J",
        0x27 => "'",
        0x28 => "K",
        0x29 => ";",
        0x2A => "\\",
        0x2B => ",",
        0x2C => "/",
        0x2D => "N",
        0x2E => "M",
        0x2F => ".",
        0x30 => "Tab",
        0x31 => "Space",
        0x32 => "`",
        0x33 => "Backspace",
        0x35 => "Escape",
        0x36 => "Right Cmd",
        0x37 => "Left Cmd",
        0x38 => "Left Shift",
        0x39 => "Caps Lock",
        0x3A => "Left Option/Alt",
        0x3B => "Left Ctrl",
        0x3C => "Right Shift",
        0x3D => "Right Option/Alt",
        0x3E => "Right Ctrl",
        0x3F => "Fn",
        0x41 => "Numpad .",
        0x43 => "Numpad *",
        0x45 => "Numpad +",
        0x47 => "NumLock/Clear",
        0x4B => "Numpad /",
        0x4C => "Numpad Enter",
        0x4E => "Numpad -",
        0x52 => "Numpad 0",
        0x53 => "Numpad 1",
        0x54 => "Numpad 2",
        0x55 => "Numpad 3",
        0x56 => "Numpad 4",
        0x57 => "Numpad 5",
        0x58 => "Numpad 6",
        0x59 => "Numpad 7",
        0x5B => "Numpad 8",
        0x5C => "Numpad 9",
        0x60 => "F5",
        0x61 => "F6",
        0x62 => "F7",
        0x63 => "F3",
        0x64 => "F8",
        0x65 => "F9",
        0x67 => "F11",
        0x69 => "PrintScreen",
        0x6B => "ScrollLock",
        0x6D => "F10",
        0x6E => "Menu",
        0x6F => "F12",
        0x71 => "Pause",
        0x72 => "Insert/Help",
        0x73 => "Home",
        0x74 => "Page Up",
        0x75 => "Delete",
        0x76 => "F4",
        0x77 => "End",
        0x78 => "F2",
        0x79 => "Page Down",
        0x7A => "F1",
        0x7B => "Left Arrow",
        0x7C => "Right Arrow",
        0x7D => "Down Arrow",
        0x7E => "Up Arrow",
        _ => "Other/Unknown",
    }
}

/// The keys of a keyboard lie in rows, and their scan codes follow each other along a row. The codes of
/// macOS for the digits, the three rows of letters, the function keys and the numeric pad.
pub proof fn lemma_rows_of_keys(i: int)
    ensures
        ({
            let digits = seq![0x12u16, 0x13, 0x14, 0x15, 0x17, 0x16, 0x1A, 0x1C, 0x19, 0x1D, 0x1B, 0x18];
            0 <= i < 12 ==> mac_key((0x02 + i) as u8, false) == digits[i]
        }),
        ({
            let upper = seq![0x0Cu16, 0x0D, 0x0E, 0x0F, 0x11, 0x10, 0x20, 0x22, 0x1F, 0x23, 0x21, 0x1E];
            0 <= i < 12 ==> mac_key((0x10 + i) as u8, false) == upper[i]
        }),
        ({
            let home = seq![0x00u16, 0x01, 0x02, 0x03, 0x05, 0x04, 0x26, 0x28, 0x25, 0x29, 0x27, 0x32];
            0 <= i < 12 ==> mac_key((0x1E + i) as u8, false) == home[i]
        }),
        ({
            let lower = seq![0x06u16, 0x07, 0x08, 0x09, 0x0B, 0x2D, 0x2E, 0x2B, 0x2F, 0x2C];
            0 <= i < 10 ==> mac_key((0x2C + i) as u8, false) == lower[i]
        }),
        ({
            let functions = seq![0x7Au16, 0x78, 0x63, 0x76, 0x60, 0x61, 0x62, 0x64, 0x65, 0x6D];
            0 <= i < 10 ==> mac_key((0x3B + i) as u8, false) == functions[i]
        }),
        ({
            let pad = seq![
                0x59u16,
                0x5B,
                0x5C,
                0x4E,
                0x56,
                0x57,
                0x58,
                0x45,
                0x53,
                0x54,
                0x55,
                0x52,
                0x41,
            ];
            0 <= i < 13 ==> mac_key((0x47 + i) as u8, false) == pad[i] && numpad(pad[i])
        }),
{
}

/// Keys with an effect of their own: those that edit and move, on the pad between the letters and the
/// numbers too, and the modifiers on both sides.
pub proof fn lemma_keys_of_their_own()
    ensures
        mac_key(0x01, false) == 0x35,
        mac_key(0x0E, false) == 0x33,
        mac_key(0x0F, false) == 0x30,
        mac_key(0x1C, false) == 0x24,
        mac_key(0x39, false) == 0x31,
        mac_key(0x2B, false) == 0x2A,
        mac_key(0x57, false) == 0x67,
        mac_key(0x58, false) == 0x6F,
        mac_key(0x1D, false) == 0x3B,
        mac_key(0x1D, true) == 0x3E,
        mac_key(0x2A, false) == 0x38,
        mac_key(0x36, false) == 0x3C,
        mac_key(0x38, false) == 0x3A,
        mac_key(0x38, true) == 0x3D,
        mac_key(0x5B, true) == 0x37,
        mac_key(0x5C, true) == 0x36,
        mac_key(0x3A, false) == 0x39,
        mac_key(0x4B, true) == 0x7B,
        mac_key(0x4D, true) == 0x7C,
        mac_key(0x50, true) == 0x7D,
        mac_key(0x48, true) == 0x7E,
        mac_key(0x47, true) == 0x73,
        mac_key(0x4F, true) == 0x77,
        mac_key(0x49, true) == 0x74,
        mac_key(0x51, true) == 0x79,
        mac_key(0x53, true) == 0x75,
        mac_key(0x52, true) == 0x72,
        mac_key(0x1C, true) == 0x4C,
        mac_key(0x35, true) == 0x4B,
        mac_key(0x37, false) == 0x43,
        mac_key(0x45, false) == 0x47,
        mac_key(0x46, false) == 0x6B,
        mac_key(0x37, true) == 0x69,
        mac_key(0x46, true) == 0x71,
        mac_key(0x5D, true) == 0x6E,
{
}

/// A code that is not in the table stands for itself, and an extended code for another key than the same code
/// that is not.
pub proof fn lemma_other_codes(code: u8, extended: bool)
    ensures
        !in_table(code, extended) ==> mac_key(code, extended) == code,
        in_table(code, true) && in_table(code, false) ==> mac_key(code, true) != mac_key(code, false),
{
}

/// The keys of the numeric pad are those that its scan codes stand for, with the two on it whose codes are
/// extended, and one more that no client has.
pub proof fn lemma_numpad_keys(key: u16)
    ensures
        numpad(key) <==> key == 0x51 || exists|code: u8, extended: bool| #[trigger]
            mac_key(code, extended) == key && in_table(code, extended) && (!extended && (code == 0x37
                || 0x45 == code || 0x47 <= code <= 0x53) || extended && (code == 0x1C || code == 0x35)),
{
    if numpad(key) && key != 0x51 {
        let (code, extended) = scancode(key)->0;
        assert(mac_key(code, extended) == key);
    }
}

/// What is written on the keys of punctuation, below and above: where a key has a character of its own
/// without shift, it has the one above it with shift. While another modifier is down it has none.
pub proof fn lemma_punctuation(key: u16, shift: bool)
    ensures
        punctuation(key, shift, true) is None,
        punctuation(key, false, false) is Some <==> punctuation(key, true, false) is Some,
        key != 0x41 ==> {
            &&& punctuation(key, false, false) == Some('.') <==> punctuation(key, true, false) == Some('>')
            &&& punctuation(key, false, false) == Some(',') <==> punctuation(key, true, false) == Some('<')
            &&& punctuation(key, false, false) == Some('/') <==> punctuation(key, true, false) == Some('?')
            &&& punctuation(key, false, false) == Some(';') <==> punctuation(key, true, false) == Some(':')
            &&& punctuation(key, false, false) == Some('\'') <==> punctuation(key, true, false)
                == Some('"')
            &&& punctuation(key, false, false) == Some('[') <==> punctuation(key, true, false) == Some('{')
            &&& punctuation(key, false, false) == Some(']') <==> punctuation(key, true, false) == Some('}')
            &&& punctuation(key, false, false) == Some('\\') <==> punctuation(key, true, false)
                == Some('|')
            &&& punctuation(key, false, false) == Some('-') <==> punctuation(key, true, false) == Some('_')
            &&& punctuation(key, false, false) == Some('=') <==> punctuation(key, true, false) == Some('+')
            &&& punctuation(key, false, false) == Some('`') <==> punctuation(key, true, false) == Some('~')
        },
        punctuation(0x41, shift, false) == Some('.'),
{
}

/// The character of a key of punctuation is the one that the key is called by.
pub proof fn lemma_called_by_character(key: u16)
    requires
        key != 0x41,
        punctuation(key, false, false) is Some,
    ensures
        key_name(key) == seq![punctuation(key, false, false)->0],
{
    reveal_strlit(".");
    reveal_strlit(",");
    reveal_strlit("/");
    reveal_strlit(";");
    reveal_strlit("'");
    reveal_strlit("[");
    reveal_strlit("]");
    reveal_strlit("\\");
    reveal_strlit("-");
    reveal_strlit("=");
    reveal_strlit("`");
    assert(key_name(key) =~= seq![punctuation(key, false, false)->0]);
}

/// The digits and what follows them: along the row a scan code stands for the key that is called by what is written there.
pub proof fn lemma_digits_row(i: int)
    requires
        0 <= i < 12,
    ensures
        key_name(mac_key((0x2 + i) as u8, false)) == seq!["1234567890-="@[i]],
{
    reveal_strlit("1234567890-=");
    reveal_strlit("1");
    reveal_strlit("2");
    reveal_strlit("3");
    reveal_strlit("4");
    reveal_strlit("5");
    reveal_strlit("6");
    reveal_strlit("7");
    reveal_strlit("8");
    reveal_strlit("9");
    reveal_strlit("0");
    reveal_strlit("-");
    reveal_strlit("=");
    assert(key_name(mac_key((0x2 + i) as u8, false)) =~= seq!["1234567890-="@[i]]);
}

/// The upper row of letters: along the row a scan code stands for the key that is called by what is written there.
pub proof fn lemma_upper_row(i: int)
    requires
        0 <= i < 12,
    ensures
        key_name(mac_key((0x10 + i) as u8, false)) == seq!["QWERTYUIOP[]"@[i]],
{
    reveal_strlit("QWERTYUIOP[]");
    reveal_strlit("Q");
    reveal_strlit("W");
    reveal_strlit("E");
    reveal_strlit("R");
    reveal_strlit("T");
    reveal_strlit("Y");
    reveal_strlit("U");
    reveal_strlit("I");
    reveal_strlit("O");
    reveal_strlit("P");
    reveal_strlit("[");
    reveal_strlit("]");
    assert(key_name(mac_key((0x10 + i) as u8, false)) =~= seq!["QWERTYUIOP[]"@[i]]);
}

/// The row of letters between them: along the row a scan code stands for the key that is called by what is written there.
pub proof fn lemma_home_row(i: int)
    requires
        0 <= i < 12,
    ensures
        key_name(mac_key((0x1e + i) as u8, false)) == seq!["ASDFGHJKL;'`"@[i]],
{
    reveal_strlit("ASDFGHJKL;'`");
    reveal_strlit("A");
    reveal_strlit("S");
    reveal_strlit("D");
    reveal_strlit("F");
    reveal_strlit("G");
    reveal_strlit("H");
    reveal_strlit("J");
    reveal_strlit("K");
    reveal_strlit("L");
    reveal_strlit(";");
    reveal_strlit("'");
    reveal_strlit("`");
    assert(key_name(mac_key((0x1e + i) as u8, false)) =~= seq!["ASDFGHJKL;'`"@[i]]);
}

/// The lower row of letters: along the row a scan code stands for the key that is called by what is written there.
pub proof fn lemma_lower_row(i: int)
    requires
        0 <= i < 10,
    ensures
        key_name(mac_key((0x2c + i) as u8, false)) == seq!["ZXCVBNM,./"@[i]],
{
    reveal_strlit("ZXCVBNM,./");
    reveal_strlit("Z");
    reveal_strlit("X");
    reveal_strlit("C");
    reveal_strlit("V");
    reveal_strlit("B");
    reveal_strlit("N");
    reveal_strlit("M");
    reveal_strlit(",");
    reveal_strlit(".");
    reveal_strlit("/");
    assert(key_name(mac_key((0x2c + i) as u8, false)) =~= seq!["ZXCVBNM,./"@[i]]);
}

} // verus!
