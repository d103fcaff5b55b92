//! What a client's input units mean.

use vstd::prelude::*;

use crate::mac_input::KeyboardEvent;

verus! {

/// Bit of a fast-path key that is released.
pub const FAST_PATH_RELEASE: u8 = 0x01;

/// Bit of a fast-path key with an extended code.
pub const FAST_PATH_EXTENDED: u8 = 0x02;

/// Bit of a key that is released.
pub const KEY_RELEASE: u16 = 0x8000;

/// Bit of a key with an extended code.
pub const KEY_EXTENDED: u16 = 0x0100;

/// Bit of a turn of the wheel.
pub const POINTER_WHEEL: u16 = 0x0200;

/// Bit of the left button.
pub const POINTER_LEFT: u16 = 0x1000;

/// Bit of the right button.
pub const POINTER_RIGHT: u16 = 0x2000;

/// Bit of the middle button.
pub const POINTER_MIDDLE: u16 = 0x4000;

/// Bit of a button that is pressed.
pub const POINTER_DOWN: u16 = 0x8000;

/// Bit of an advanced pointer that turns its wheel.
pub const ADVANCED_WHEEL: u64 = 0x0001;

/// Bit of an advanced pointer whose place is relative.
pub const ADVANCED_RELATIVE: u64 = 0x0010;

/// Bit of a button of an advanced pointer that is pressed.
pub const ADVANCED_DOWN: u64 = 0x0008;

/// Bit of the left button of an advanced pointer.
pub const ADVANCED_LEFT: u64 = 0x1000;

/// Bit of the right button of an advanced pointer.
pub const ADVANCED_RIGHT: u64 = 0x2000;

/// Bit of the middle button of an advanced pointer.
pub const ADVANCED_MIDDLE: u64 = 0x4000;

/// A unit of input.
#[derive(Debug, Clone, Copy, PartialEq, Eq, Structural)]
pub enum InputPdu {
    FastPathKey { flags: u8, code: u8 },
    FastPathUnicode { flags: u8, ch: u16 },
    ScanCode { flags: u16, code: u16 },
    Unicode { flags: u16, ch: u16 },
    Sync,
    Pointer { flags: u16, wheel: i16, x: u16, y: u16 },
    /// From the channel for advanced input.
    Advanced { flags: u64, x: i32, y: i32 },
    /// Anything that neither a key nor the mouse does.
    Other,
}

/// What the mouse does, in the coordinates of the client.
#[derive(Debug, Clone, Copy, PartialEq, Eq, Structural)]
pub enum PointerEvent {
    Move { x: u16, y: u16 },
    LeftPressed,
    LeftReleased,
    RightPressed,
    RightReleased,
    MiddlePressed,
    MiddleReleased,
    VerticalScroll { value: i16 },
}

/// What a unit of input means.
#[derive(Debug, Clone, Copy, PartialEq, Eq, Structural)]
pub enum InputAction {
    Keyboard(KeyboardEvent),
    Mouse(PointerEvent),
    Nothing,
}

/// A key that is pressed or released.
pub open spec fn key_action(code: u8, extended: bool, released: bool) -> InputAction {
    InputAction::Keyboard(
        if released {
            KeyboardEvent::Released { code, extended }
        } else {
            KeyboardEvent::Pressed { code, extended }
        },
    )
}

/// A character that is pressed or released.
pub open spec fn unicode_action(ch: u16, released: bool) -> InputAction {
    InputAction::Keyboard(
        if released {
            KeyboardEvent::UnicodeReleased(ch)
        } else {
            KeyboardEvent::UnicodePressed(ch)
        },
    )
}

/// What the mouse does. Of several buttons the left one comes first, then the right and the middle
/// one.
pub open spec fn pointer_action(flags: u16, wheel: i16, x: u16, y: u16) -> PointerEvent {
    let down = flags & POINTER_DOWN != 0;
    if flags & POINTER_LEFT != 0 {
        if down {
            PointerEvent::LeftPressed
        } else {
            PointerEvent::LeftReleased
        }
    } else if flags & POINTER_RIGHT != 0 {
        if down {
            PointerEvent::RightPressed
        } else {
            PointerEvent::RightReleased
        }
    } else if flags & POINTER_MIDDLE != 0 {
        if down {
            PointerEvent::MiddlePressed
        } else {
            PointerEvent::MiddleReleased
        }
    } else if flags & POINTER_WHEEL != 0 {
        PointerEvent::VerticalScroll { value: wheel }
    } else {
        PointerEvent::Move { x, y }
    }
}

/// What an advanced pointer does: its buttons as those of any other, and where it moves. Its wheel and
/// places that are relative or not on any desktop mean nothing.
pub open spec fn advanced_action(flags: u64, x: i32, y: i32) -> InputAction {
    let down = flags & ADVANCED_DOWN != 0;
    if flags & ADVANCED_LEFT != 0 {
        InputAction::Mouse(
            if down {
                PointerEvent::LeftPressed
            } else {
                PointerEvent::LeftReleased
            },
        )
    } else if flags & ADVANCED_RIGHT != 0 {
        InputAction::Mouse(
            if down {
                PointerEvent::RightPressed
            } else {
                PointerEvent::RightReleased
            },
        )
    } else if flags & ADVANCED_MIDDLE != 0 {
        InputAction::Mouse(
            if down {
                PointerEvent::MiddlePressed
            } else {
                PointerEvent::MiddleReleased
            },
        )
    } else if flags & ADVANCED_WHEEL != 0 || flags & ADVANCED_RELATIVE != 0 {
        InputAction::Nothing
    } else if 0 <= x <= u16::MAX && 0 <= y <= u16::MAX {
        InputAction::Mouse(PointerEvent::Move { x: x as u16, y: y as u16 })
    } else {
        InputAction::Nothing
    }
}

/// What a unit of input means.
pub open spec fn meaning(pdu: InputPdu) -> InputAction {
    match pdu {
        InputPdu::FastPathKey { flags, code } => key_action(
            code,
            flags & FAST_PATH_EXTENDED != 0,
            flags & FAST_PATH_RELEASE != 0,
        ),
        InputPdu::FastPathUnicode { flags, ch } => unicode_action(ch, flags & FAST_PATH_RELEASE != 0),
        InputPdu::ScanCode { flags, code } => key_action(
            (code % 256) as u8,
            flags & KEY_EXTENDED != 0,
            flags & KEY_RELEASE != 0,
        ),
        InputPdu::Unicode { flags, ch } => unicode_action(ch, flags & KEY_RELEASE != 0),
        InputPdu::Sync => InputAction::Keyboard(KeyboardEvent::Synchronize),
        InputPdu::Pointer { flags, wheel, x, y } => InputAction::Mouse(
            pointer_action(flags, wheel, x, y),
        ),
        InputPdu::Advanced { flags, x, y } => advanced_action(flags, x, y),
        InputPdu::Other => InputAction::Nothing,
    }
}

/// A key that is pressed or released.
fn key_event(code: u8, extended: bool, released: bool) -> (r: InputAction)
    ensures
        r == key_action(code, extended, released),
{
    if released {
        InputAction::Keyboard(KeyboardEvent::Released { code, extended })
    } else {
        InputAction::Keyboard(KeyboardEvent::Pressed { code, extended })
    }
}

/// A character that is pressed or released.
fn unicode_event(ch: u16, released: bool) -> (r: InputAction)
    ensures
        r == unicode_action(ch, released),
{
    if released {
        InputAction::Keyboard(KeyboardEvent::UnicodeReleased(ch))
    } else {
        InputAction::Keyboard(KeyboardEvent::UnicodePressed(ch))
    }
}

/// What the mouse does.
fn pointer_event(flags: u16, wheel: i16, x: u16, y: u16) -> (r: PointerEvent)
    ensures
        r == pointer_action(flags, wheel, x, y),
{
    let down = flags & POINTER_DOWN != 0;
    if flags & POINTER_LEFT != 0 {
        if down {
            PointerEvent::LeftPressed
        } else {
            PointerEvent::LeftReleased
        }
    } else if flags & POINTER_RIGHT != 0 {
        if down {
            PointerEvent::RightPressed
        } else {
            PointerEvent::RightReleased
        }
    } else if flags & POINTER_MIDDLE != 0 {
        if down {
            PointerEvent::MiddlePressed
        } else {
            PointerEvent::MiddleReleased
        }
    } else if flags & POINTER_WHEEL != 0 {
        PointerEvent::VerticalScroll { value: wheel }
    } else {
        PointerEvent::Move { x, y }
    }
}

/// What an advanced pointer does.
fn advanced_event(flags: u64, x: i32, y: i32) -> (r: InputAction)
    ensures
        r == advanced_action(flags, x, y),
{
    let down = flags & ADVANCED_DOWN != 0;
    if flags & ADVANCED_LEFT != 0 {
        if down {
            InputAction::Mouse(PointerEvent::LeftPressed)
        } else {
            InputAction::Mouse(PointerEvent::LeftReleased)
        }
    } else if flags & ADVANCED_RIGHT != 0 {
        if down {
            InputAction::Mouse(PointerEvent::RightPressed)
        } else {
            InputAction::Mouse(PointerEvent::RightReleased)
        }
    } else if flags & ADVANCED_MIDDLE != 0 {
        if down {
            InputAction::Mouse(PointerEvent::MiddlePressed)
        } else {
            InputAction::Mouse(PointerEvent::MiddleReleased)
        }
    } else if flags & ADVANCED_WHEEL != 0 || flags & ADVANCED_RELATIVE != 0 {
        InputAction::Nothing
    } else if 0 <= x && x <= 65535 && 0 <= y && y <= 65535 {
        InputAction::Mouse(PointerEvent::Move { x: x as u16, y: y as u16 })
    } else {
        InputAction::Nothing
    }
}

/// What a unit of input means.
pub fn input_action(pdu: InputPdu) -> (r: InputAction)
    ensures
        r == meaning(pdu),
{
    match pdu {
        InputPdu::FastPathKey { flags, code } => key_event(
            code,
            flags & FAST_PATH_EXTENDED != 0,
            flags & FAST_PATH_RELEASE != 0,
        ),
        InputPdu::FastPathUnicode { flags, ch } => unicode_event(ch, flags & FAST_PATH_RELEASE != 0),
        InputPdu::ScanCode { flags, code } => key_event(
            (code % 256) as u8,
            flags & KEY_EXTENDED != 0,
            flags & KEY_RELEASE != 0,
        ),
        InputPdu::Unicode { flags, ch } => unicode_event(ch, flags & KEY_RELEASE != 0),
        InputPdu::Sync => InputAction::Keyboard(KeyboardEvent::Synchronize),
        InputPdu::Pointer { flags, wheel, x, y } => InputAction::Mouse(
            pointer_event(flags, wheel, x, y),
        ),
        InputPdu::Advanced { flags, x, y } => advanced_event(flags, x, y),
        InputPdu::Other => InputAction::Nothing,
    }
}

/// What units of input mean, in their order.
pub open spec fn meanings(pdus: Seq<InputPdu>) -> Seq<InputAction> {
    Seq::new(pdus.len(), |i: int| meaning(pdus[i]))
}

/// What units of input mean, in their order.
pub fn handle_input(pdus: &Vec<InputPdu>) -> (r: Vec<InputAction>)
    ensures
        r@ == meanings(pdus@),
{
    let mut out: Vec<InputAction> = Vec::new();
    let mut i: usize = 0;
    while i < pdus.len()
        invariant
            i <= pdus@.len(),
            out@.len() == i,
            forall|k: int| 0 <= k < i ==> #[trigger] out@[k] == meaning(pdus@[k]),
        decreases pdus@.len() - i,
    {
        out.push(input_action(pdus[i]));
        i = i + 1;
    }
    assert(out@ =~= meanings(pdus@));
    out
}

/// Keys mean the same on both ways in: on the fast path bit 0 says that a key is released and bit 1 that its
/// code is extended, on the other way bits 15 and 8 do.
pub proof fn lemma_keys_meant(flags: u8, code: u8, slow_flags: u16, slow_code: u16)
    ensures
        meaning(InputPdu::FastPathKey { flags, code }) == InputAction::Keyboard(
            if flags & 0x01 != 0 {
                KeyboardEvent::Released { code, extended: flags & 0x02 != 0 }
            } else {
                KeyboardEvent::Pressed { code, extended: flags & 0x02 != 0 }
            },
        ),
        slow_code < 256 && (slow_flags & 0x8000 != 0) == (flags & 0x01 != 0) && (slow_flags & 0x0100
            != 0) == (flags & 0x02 != 0) && slow_code == code ==> meaning(
            InputPdu::ScanCode { flags: slow_flags, code: slow_code },
        ) == meaning(InputPdu::FastPathKey { flags, code }),
{
}

/// Characters mean the same on both ways in, and each is pressed unless its bit of release is set.
pub proof fn lemma_characters_meant(flags: u8, slow_flags: u16, ch: u16)
    ensures
        meaning(InputPdu::FastPathUnicode { flags, ch }) == InputAction::Keyboard(
            if flags & 0x01 != 0 {
                KeyboardEvent::UnicodeReleased(ch)
            } else {
                KeyboardEvent::UnicodePressed(ch)
            },
        ),
        (slow_flags & 0x8000 != 0) == (flags & 0x01 != 0) ==> meaning(
            InputPdu::Unicode { flags: slow_flags, ch },
        ) == meaning(InputPdu::FastPathUnicode { flags, ch }),
{
}

/// What a mouse does goes by the bits of its flags: 12 for the left button, 13 for the right one and 14 for
/// the middle one, of which bit 15 says whether it is pressed; 9 for the wheel. Without any of them the mouse
/// has moved to where the unit says, wherever that is.
pub proof fn lemma_mouse_meant(flags: u16, wheel: i16, x: u16, y: u16)
    ensures
        ({
            let event = pointer_action(flags, wheel, x, y);
            let down = flags & 0x8000 != 0;
            &&& meaning(InputPdu::Pointer { flags, wheel, x, y }) == InputAction::Mouse(event)
            &&& flags & 0x1000 != 0 ==> event == if down {
                PointerEvent::LeftPressed
            } else {
                PointerEvent::LeftReleased
            }
            &&& flags & 0x7000 == 0x2000 ==> event == if down {
                PointerEvent::RightPressed
            } else {
                PointerEvent::RightReleased
            }
            &&& flags & 0x7000 == 0x4000 ==> event == if down {
                PointerEvent::MiddlePressed
            } else {
                PointerEvent::MiddleReleased
            }
            &&& flags & 0x7000 == 0 && flags & 0x0200 != 0 ==> event == (PointerEvent::VerticalScroll {
                value: wheel,
            })
            &&& flags & 0x7200 == 0 ==> event == (PointerEvent::Move { x, y })
        }),
{
    assert(flags & 0x7000 == 0x2000 ==> flags & 0x1000 == 0 && flags & 0x2000 != 0) by (bit_vector);
    assert(flags & 0x7000 == 0x4000 ==> flags & 0x1000 == 0 && flags & 0x2000 == 0 && flags & 0x4000
        != 0) by (bit_vector);
    assert(flags & 0x7000 == 0 ==> flags & 0x1000 == 0 && flags & 0x2000 == 0 && flags & 0x4000 == 0)
        by (bit_vector);
    assert(flags & 0x7200 == 0 ==> flags & 0x7000 == 0 && flags & 0x0200 == 0) by (bit_vector);
}

/// An advanced pointer has the same buttons, of which bit 3 says whether one is pressed, and moves to any
/// place of a desktop that is not relative to another.
pub proof fn lemma_advanced_meant(flags: u64, x: i32, y: i32)
    ensures
        ({
            let action = meaning(InputPdu::Advanced { flags, x, y });
            let down = flags & 0x8 != 0;
            &&& flags & 0x1000 != 0 ==> action == InputAction::Mouse(
                if down {
                    PointerEvent::LeftPressed
                } else {
                    PointerEvent::LeftReleased
                },
            )
            &&& flags & 0x7000 == 0x2000 ==> action == InputAction::Mouse(
                if down {
                    PointerEvent::RightPressed
                } else {
                    PointerEvent::RightReleased
                },
            )
            &&& flags & 0x7000 == 0x4000 ==> action == InputAction::Mouse(
                if down {
                    PointerEvent::MiddlePressed
                } else {
                    PointerEvent::MiddleReleased
                },
            )
            &&& flags & 0x7011 == 0 && 0 <= x <= 65535 && 0 <= y <= 65535 ==> action
                == InputAction::Mouse(PointerEvent::Move { x: x as u16, y: y as u16 })
            &&& flags & 0x7000 == 0 && (flags & 0x11 != 0 || x < 0 || x > 65535 || y < 0 || y > 65535)
                ==> action == InputAction::Nothing
        }),
{
    assert(flags & 0x7000 == 0x2000 ==> flags & 0x1000 == 0 && flags & 0x2000 != 0) by (bit_vector);
    assert(flags & 0x7000 == 0x4000 ==> flags & 0x1000 == 0 && flags & 0x2000 == 0 && flags & 0x4000
        != 0) by (bit_vector);
    assert(flags & 0x7000 == 0 ==> flags & 0x1000 == 0 && flags & 0x2000 == 0 && flags & 0x4000 == 0)
        by (bit_vector);
    assert(flags & 0x7011 == 0 ==> flags & 0x7000 == 0 && flags & 0x01 == 0 && flags & 0x10 == 0)
        by (bit_vector);
    assert(flags & 0x11 != 0 <==> flags & 0x01 != 0 || flags & 0x10 != 0) by (bit_vector);
}

} // verus!
