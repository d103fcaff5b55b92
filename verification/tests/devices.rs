//! The display, the keyboard and the mouse.

use std::collections::hash_map::DefaultHasher;
use std::hash::{Hash, Hasher};

use mac_rdp_server::encoder::DisplayUpdate;
use mac_rdp_server::frame::DesktopSize;
use mac_rdp_server::input::{handle_input, input_action, InputAction, InputPdu, PointerEvent};
use mac_rdp_server::keymap::{
    get_unicode_override, is_mac_modifier, is_numpad_key, mac_key_name, rdp_scancode_to_mac,
};
use mac_rdp_server::mac_display::{
    clamp_hot_spot, cursor_hash, cursor_size_ok, flip_rows, process_frame, CaptureError, CapturedFrame,
    DisplayEnv, MacCursorRaw, MacCursorTracker, MacDisplay, MacDisplayUpdates, Upcoming,
};
use mac_rdp_server::mac_input::{
    KeyboardEvent, MacInputHandler, MouseEvent, Position, Posted, K_CG_EVENT_FLAG_MASK_ALPHA_SHIFT,
    K_CG_EVENT_FLAG_MASK_COMMAND, K_CG_EVENT_FLAG_MASK_NUMERIC_PAD, K_CG_EVENT_FLAG_MASK_SHIFT,
};

const SECOND: u64 = 1_000_000_000;

fn cursor(hash: u64) -> MacCursorRaw {
    MacCursorRaw { width: 1, height: 1, hot_x: 0, hot_y: 0, bgra_bottom_up: vec![1, 2, 3, 4], hash }
}

fn env(fps: Option<&str>, res: Option<&str>) -> DisplayEnv {
    DisplayEnv { fps: fps.map(|s| s.to_string()), res: res.map(|s| s.to_string()) }
}

fn press(code: u8) -> KeyboardEvent {
    KeyboardEvent::Pressed { code, extended: false }
}

fn release(code: u8) -> KeyboardEvent {
    KeyboardEvent::Released { code, extended: false }
}

fn key(keycode: u16, down: bool, flags: u64, unicode: Option<char>) -> Posted {
    Posted::Key { keycode, down, flags, unicode: unicode.map(|c| c as u16) }
}

#[test]
fn pointers_are_sent_once_and_cached() {
    let mut tracker = MacCursorTracker::new();
    assert!(tracker.check_cursor(None).is_none());
    match tracker.check_cursor(Some(cursor(7))) {
        Some(DisplayUpdate::RGBAPointer(p)) => {
            assert_eq!((p.cache_index, p.width, p.height, p.data), (0, 1, 1, vec![1, 2, 3, 4]))
        }
        other => panic!("{other:?}"),
    }
    assert!(tracker.check_cursor(Some(cursor(7))).is_none());
    match tracker.check_cursor(Some(cursor(8))) {
        Some(DisplayUpdate::RGBAPointer(p)) => assert_eq!(p.cache_index, 1),
        other => panic!("{other:?}"),
    }
    assert!(matches!(tracker.check_cursor(Some(cursor(7))), Some(DisplayUpdate::CachedPointer(0))));
    assert!(matches!(tracker.check_cursor(Some(cursor(8))), Some(DisplayUpdate::CachedPointer(1))));
}

#[test]
fn pointers_are_told_apart_by_their_hash() {
    let pixels: Vec<u8> = (0..2 * 3 * 4).collect();
    let mut hasher = DefaultHasher::new();
    2usize.hash(&mut hasher);
    3usize.hash(&mut hasher);
    1u16.hash(&mut hasher);
    300u16.hash(&mut hasher);
    pixels.hash(&mut hasher);
    let hash = cursor_hash(2, 3, 1, 300, &pixels);
    assert_eq!(hash, hasher.finish());
    assert_ne!(hash, cursor_hash(3, 2, 1, 300, &pixels));
    assert_ne!(hash, cursor_hash(2, 3, 300, 1, &pixels));
    assert_ne!(hash, cursor_hash(2, 3, 1, 300, &vec![0; 24]));
}

#[test]
fn the_cache_of_pointers_wraps_around() {
    let mut tracker = MacCursorTracker::new();
    let mut places = Vec::new();
    for hash in 0..513u64 {
        match tracker.check_cursor(Some(cursor(hash))) {
            Some(DisplayUpdate::RGBAPointer(p)) => places.push(p.cache_index),
            other => panic!("{other:?}"),
        }
    }
    let expected: Vec<u16> = (0..512).chain(0..1).collect();
    assert_eq!(places, expected);
}

#[test]
fn pointers_have_their_limits() {
    assert!(cursor_size_ok(1, 96));
    assert!(!cursor_size_ok(0, 5));
    assert!(!cursor_size_ok(97, 5));
    assert_eq!(clamp_hot_spot(5, 4), 3);
    assert_eq!(clamp_hot_spot(2, 4), 2);
    assert_eq!(clamp_hot_spot(2, 0), 0);
    assert_eq!(flip_rows(&vec![1, 2, 3, 4, 5, 6], 2, 3), vec![5, 6, 3, 4, 1, 2]);
}

#[test]
fn a_frame_of_the_right_size_is_taken_as_it_is() {
    let frame = CapturedFrame { width: 2, height: 2, bytes_per_row: 8, data: (0..20).collect() };
    assert_eq!(process_frame(&frame, 2, 2), (0..16).collect::<Vec<u8>>());
    let short = CapturedFrame { width: 2, height: 2, bytes_per_row: 8, data: (0..10).collect() };
    assert_eq!(process_frame(&short, 2, 2), (0..10).collect::<Vec<u8>>());
}

#[test]
fn a_frame_of_twice_the_size_loses_every_second_pixel() {
    let data: Vec<u8> = (0..16u8).flat_map(|i| vec![i; 4]).collect();
    let frame = CapturedFrame { width: 4, height: 4, bytes_per_row: 16, data };
    let expected: Vec<u8> = [0u8, 2, 8, 10].iter().flat_map(|&i| vec![i; 4]).collect();
    assert_eq!(process_frame(&frame, 2, 2), expected);
}

#[test]
fn other_frames_are_scaled_to_the_nearest_pixel() {
    let data: Vec<u8> = (0..12u8).flat_map(|i| vec![i; 4]).collect();
    // Three pixels in a row of four.
    let frame = CapturedFrame { width: 3, height: 3, bytes_per_row: 16, data };
    let expected: Vec<u8> = [0u8, 1, 4, 5].iter().flat_map(|&i| vec![i; 4]).collect();
    assert_eq!(process_frame(&frame, 2, 2), expected);
    let larger: Vec<u8> = [0u8, 0, 1, 2, 0, 0, 1, 2].iter().flat_map(|&i| vec![i; 4]).collect();
    assert_eq!(process_frame(&frame, 4, 2)[..16], larger[..16]);
}

#[test]
fn the_display_has_the_size_that_is_asked_for() {
    let d = MacDisplay::new(1511, 983, &env(None, None));
    assert_eq!((d.rdp_width, d.rdp_height, d.fps), (1508, 980, 30));
    assert_eq!((d.mac_logical_width, d.mac_logical_height), (1511, 983));
    let d = MacDisplay::new(1511, 983, &env(Some("500"), Some("720P")));
    assert_eq!((d.rdp_width, d.rdp_height, d.fps), (1280, 720, 120));
    let d = MacDisplay::new(1511, 983, &env(Some("0"), Some("fhd")));
    assert_eq!((d.rdp_width, d.rdp_height, d.fps), (1920, 1080, 1));
    let d = MacDisplay::new(1511, 983, &env(Some("x"), Some("qhd")));
    assert_eq!((d.rdp_width, d.rdp_height, d.fps), (960, 540, 30));
    let d = MacDisplay::new(640, 480, &env(None, Some("native")));
    assert_eq!(d.size(), DesktopSize { width: 640, height: 480 });
}

#[test]
fn a_client_of_another_size_is_taken_to_that_of_the_display() {
    let mut d = MacDisplay::new(640, 480, &env(None, None));
    let size = DesktopSize { width: 640, height: 480 };
    assert_eq!(d.request_initial_size(DesktopSize { width: 800, height: 600 }), size);
    let mut updates = d.updates();
    assert!(!d.needs_reactivation_resize);
    match updates.upcoming() {
        Upcoming::Ready(DisplayUpdate::Resize(s)) => assert_eq!(s, size),
        _ => panic!("no change of size"),
    }
    assert!(matches!(updates.upcoming(), Upcoming::Capture(s) if s == size));

    assert_eq!(d.request_initial_size(size), size);
    assert!(matches!(d.updates().upcoming(), Upcoming::Capture(s) if s == size));
}

#[test]
fn the_pointer_comes_before_the_picture() {
    let mut updates = MacDisplayUpdates::new(2, 1, 2, 1, false, 60);
    assert_eq!(updates.interval_ms, 16);
    assert!(matches!(updates.upcoming(), Upcoming::Capture(_)));
    let first = updates.captured(Some(cursor(1)), Some(vec![9; 8])).unwrap();
    assert!(matches!(first, DisplayUpdate::RGBAPointer(_)));
    match updates.upcoming() {
        Upcoming::Ready(DisplayUpdate::Bitmap(b)) => {
            assert_eq!((b.width, b.height, b.stride, b.data), (2, 1, 8, vec![9; 8]))
        }
        _ => panic!("no picture"),
    }
    assert!(matches!(updates.upcoming(), Upcoming::Capture(_)));
    let next = updates.captured(Some(cursor(1)), Some(vec![8; 8])).unwrap();
    assert!(matches!(next, DisplayUpdate::Bitmap(_)));
    assert_eq!(updates.frame_count, 2);
}

#[test]
fn captures_can_fail() {
    let mut updates = MacDisplayUpdates::new(2, 1, 2, 1, false, 500);
    assert_eq!(updates.interval_ms, 8);
    let failed = updates.captured(Some(cursor(1)), None);
    assert_eq!(failed.err(), Some(CaptureError::Failed { first: true }));
    assert!(matches!(updates.upcoming(), Upcoming::Ready(DisplayUpdate::RGBAPointer(_))));
    assert_eq!(updates.captured(None, None).err(), Some(CaptureError::Failed { first: false }));
    assert!(updates.captured(None, Some(vec![0; 8])).is_ok());
    assert_eq!(updates.captured(None, None).err(), Some(CaptureError::Failed { first: true }));
    let mut empty = MacDisplayUpdates::new(0, 1, 0, 1, false, 0);
    assert_eq!(empty.interval_ms, 1000);
    assert_eq!(empty.captured(None, Some(Vec::new())).err(), Some(CaptureError::EmptyScreen));
}

#[test]
fn scan_codes_and_keys() {
    assert_eq!(rdp_scancode_to_mac(0x1E, false), 0x00);
    assert_eq!(rdp_scancode_to_mac(0x48, true), 0x7E);
    assert_eq!(rdp_scancode_to_mac(0x48, false), 0x5B);
    assert_eq!(rdp_scancode_to_mac(0x1D, true), 0x3E);
    assert_eq!(rdp_scancode_to_mac(0x1D, false), 0x3B);
    assert_eq!(rdp_scancode_to_mac(0x7F, false), 0x7F);
    assert_eq!(rdp_scancode_to_mac(0x7F, true), 0x7F);
    assert_eq!(mac_key_name(0x00), "A");
    assert_eq!(mac_key_name(0x2A), "\\");
    assert_eq!(mac_key_name(0x7E), "Up Arrow");
    assert_eq!(mac_key_name(0x0A), "Other/Unknown");
    assert!(is_numpad_key(0x41) && is_numpad_key(0x5C) && !is_numpad_key(0x5A) && !is_numpad_key(0x00));
    assert!(is_mac_modifier(0x38) && is_mac_modifier(0x3F) && !is_mac_modifier(0x35) && !is_mac_modifier(0x40));
    let modifiers = (0..=255u16).filter(|&k| is_mac_modifier(k)).count();
    assert_eq!(modifiers, 10);
    assert_eq!((0..=255u16).filter(|&k| is_numpad_key(k)).count(), 18);
}

#[test]
fn no_two_scan_codes_of_the_table_share_a_key() {
    let mut keys = Vec::new();
    for code in 0x01..=0x53u8 {
        keys.push(rdp_scancode_to_mac(code, false));
    }
    keys.push(rdp_scancode_to_mac(0x57, false));
    keys.push(rdp_scancode_to_mac(0x58, false));
    for code in [
        0x48u8, 0x50, 0x4B, 0x4D, 0x52, 0x53, 0x47, 0x4F, 0x49, 0x51, 0x5B, 0x5C, 0x5D, 0x1D, 0x38, 0x1C,
        0x35, 0x37, 0x46,
    ] {
        keys.push(rdp_scancode_to_mac(code, true));
    }
    let count = keys.len();
    keys.sort();
    keys.dedup();
    assert_eq!(keys.len(), count);
}

#[test]
fn punctuation_comes_with_its_character() {
    assert_eq!(get_unicode_override(0x2F, false, false), Some('.' as u16));
    assert_eq!(get_unicode_override(0x2F, true, false), Some('>' as u16));
    assert_eq!(get_unicode_override(0x41, true, false), Some('.' as u16));
    assert_eq!(get_unicode_override(0x27, true, false), Some('"' as u16));
    assert_eq!(get_unicode_override(0x2F, false, true), None);
    assert_eq!(get_unicode_override(0x00, false, false), None);
}

#[test]
fn keys_go_down_and_up() {
    let mut input = MacInputHandler::new(0);
    assert_eq!(input.keyboard(press(0x1E), 0, 5), vec![key(0x00, true, 0, None)]);
    assert_eq!(input.last_global_input, 5);
    assert_eq!(input.keyboard(release(0x1E), 0, 6), vec![key(0x00, false, 0, None)]);
    // Shift and a full stop.
    let shift = K_CG_EVENT_FLAG_MASK_SHIFT;
    assert_eq!(input.keyboard(press(0x2A), 0, 7), vec![key(0x38, true, shift, None)]);
    assert_eq!(input.current_modifier_flags(), shift);
    assert_eq!(input.keyboard(press(0x34), 0, 8), vec![key(0x2F, true, shift, Some('>'))]);
    assert_eq!(input.keyboard(release(0x2A), 0, 9), vec![key(0x38, false, 0, None)]);
    assert_eq!(input.current_modifier_flags(), 0);
}

#[test]
fn shortcuts_carry_no_character() {
    let mut input = MacInputHandler::new(0);
    let cmd = KeyboardEvent::Pressed { code: 0x5B, extended: true };
    input.keyboard(cmd, 0, 0);
    assert_eq!(
        input.keyboard(press(0x34), 0, 0),
        vec![key(0x2F, true, K_CG_EVENT_FLAG_MASK_COMMAND, None)]
    );
    assert_eq!(
        input.keyboard(press(0x53), 0, 0),
        vec![key(0x41, true, K_CG_EVENT_FLAG_MASK_COMMAND | K_CG_EVENT_FLAG_MASK_NUMERIC_PAD, None)]
    );
}

#[test]
fn caps_lock_turns_with_every_press() {
    let mut input = MacInputHandler::new(0);
    input.keyboard(press(0x3A), 0, 0);
    input.keyboard(release(0x3A), 0, 0);
    assert_eq!(input.current_modifier_flags(), K_CG_EVENT_FLAG_MASK_ALPHA_SHIFT);
    input.keyboard(press(0x3A), 0, 0);
    assert_eq!(input.current_modifier_flags(), 0);
}

#[test]
fn characters_are_pressed_and_released_at_once() {
    let mut input = MacInputHandler::new(0);
    assert_eq!(
        input.keyboard(KeyboardEvent::UnicodePressed('é' as u16), 0, 3),
        vec![key(0, true, 0, Some('é')), key(0, false, 0, Some('é'))]
    );
    assert_eq!(input.last_global_input, 3);
    assert!(input.keyboard(KeyboardEvent::UnicodeReleased('é' as u16), 0, 4).is_empty());
    assert_eq!(input.last_global_input, 3);
}

#[test]
fn bringing_the_keyboard_in_line_leaves_only_modifiers() {
    let mut input = MacInputHandler::new(0);
    input.keyboard(press(0x1E), 0, 0);
    input.keyboard(press(0x2A), 0, 0);
    assert_eq!(input.keyboard(KeyboardEvent::Synchronize, 0, 0), vec![key(0x00, false, 0, None)]);
    let held: Vec<u16> = input.pressed_keys.entries.iter().map(|e| e.key).collect();
    assert_eq!(held, vec![0x38]);
    assert_eq!(input.current_modifier_flags(), K_CG_EVENT_FLAG_MASK_SHIFT);
}

#[test]
fn stuck_keys_are_let_go() {
    let mut input = MacInputHandler::new(0);
    input.keyboard(press(0x1E), 0, 0);
    input.keyboard(press(0x2A), 0, 0);
    assert!(input.watchdog(3 * SECOND / 2, 1500).is_empty());
    assert_eq!(input.watchdog(3 * SECOND / 2 + 1, 1501), vec![key(0x00, false, 0, None)]);
    // A repetition keeps a key from being stuck.
    input.keyboard(press(0x1F), 2 * SECOND, 2000);
    input.keyboard(press(0x1F), 3 * SECOND, 3000);
    assert!(input.watchdog(4 * SECOND, 4000).is_empty());
    // Nothing at all from the client for more than five seconds.
    let gone = input.watchdog(8 * SECOND, 8001);
    assert_eq!(gone, vec![key(0x38, false, 0, None), key(0x01, false, 0, None)]);
    assert_eq!(input.current_modifier_flags(), 0);
    assert!(input.pressed_keys.entries.is_empty());
}

#[test]
fn a_modifier_is_not_held_for_ever() {
    let mut input = MacInputHandler::new(0);
    input.keyboard(press(0x2A), 0, 0);
    input.mouse(MouseEvent::Moved { x: 1, y: 1 }, 15_000);
    assert!(input.watchdog(15 * SECOND, 15_000).is_empty());
    assert_eq!(input.watchdog(15 * SECOND + 1, 15_000), vec![key(0x38, false, 0, None)]);
    assert_eq!(input.current_modifier_flags(), 0);
}

#[test]
fn dragging_goes_by_the_button_that_is_down() {
    let mut input = MacInputHandler::new(0);
    let moved = |event_type, button| {
        Some(Posted::Mouse { event_type, button, position: Position::Moved })
    };
    let at = Position::At { x: 10, y: 20 };
    assert_eq!(input.mouse(MouseEvent::Moved { x: 10, y: 20 }, 1), moved(5, 0));
    assert_eq!(
        input.mouse(MouseEvent::MiddlePressed, 1),
        Some(Posted::Mouse { event_type: 25, button: 2, position: at })
    );
    assert_eq!(input.mouse(MouseEvent::Moved { x: 10, y: 20 }, 1), moved(27, 2));
    assert_eq!(
        input.mouse(MouseEvent::RightPressed, 1),
        Some(Posted::Mouse { event_type: 3, button: 1, position: at })
    );
    assert_eq!(input.mouse(MouseEvent::Moved { x: 10, y: 20 }, 1), moved(7, 1));
    assert_eq!(
        input.mouse(MouseEvent::LeftPressed, 1),
        Some(Posted::Mouse { event_type: 1, button: 0, position: at })
    );
    assert_eq!(input.mouse(MouseEvent::Moved { x: 10, y: 20 }, 1), moved(6, 0));
    assert_eq!(
        input.mouse(MouseEvent::LeftReleased, 1),
        Some(Posted::Mouse { event_type: 2, button: 0, position: at })
    );
    assert_eq!(
        input.mouse(MouseEvent::RightReleased, 1),
        Some(Posted::Mouse { event_type: 4, button: 1, position: at })
    );
    assert_eq!(
        input.mouse(MouseEvent::MiddleReleased, 1),
        Some(Posted::Mouse { event_type: 26, button: 2, position: at })
    );
    assert_eq!(input.mouse(MouseEvent::Other, 9), None);
    assert_eq!(input.last_global_input, 1);
}

#[test]
fn the_wheel_scrolls_three_lines_a_notch() {
    let mut input = MacInputHandler::new(0);
    for (value, lines) in [(120, 3), (-120, -3), (39, 0), (-39, 0), (-41, -1)] {
        assert_eq!(input.mouse(MouseEvent::VerticalScroll { value }, 0), Some(Posted::Scroll { lines }));
    }
}

#[test]
fn the_end_of_a_session_lets_go_of_everything() {
    let mut input = MacInputHandler::new(0);
    input.keyboard(press(0x1E), 0, 0);
    input.keyboard(press(0x2A), 0, 0);
    input.mouse(MouseEvent::Moved { x: 3, y: 4 }, 0);
    input.mouse(MouseEvent::LeftPressed, 0);
    input.mouse(MouseEvent::MiddlePressed, 0);
    let at = Position::At { x: 3, y: 4 };
    assert_eq!(
        input.cleanup(),
        vec![
            key(0x00, false, 0, None),
            key(0x38, false, 0, None),
            Posted::Mouse { event_type: 2, button: 0, position: at },
            Posted::Mouse { event_type: 26, button: 2, position: at },
        ]
    );
    assert!(input.cleanup().is_empty());
    assert!(input.release_all_keys().is_empty());
}

#[test]
fn units_of_input_have_their_meaning() {
    assert_eq!(
        input_action(InputPdu::FastPathKey { flags: 0x03, code: 0x1D }),
        InputAction::Keyboard(KeyboardEvent::Released { code: 0x1D, extended: true })
    );
    assert_eq!(
        input_action(InputPdu::ScanCode { flags: 0x0100, code: 0x1D }),
        InputAction::Keyboard(KeyboardEvent::Pressed { code: 0x1D, extended: true })
    );
    assert_eq!(
        input_action(InputPdu::FastPathUnicode { flags: 0, ch: 65 }),
        InputAction::Keyboard(KeyboardEvent::UnicodePressed(65))
    );
    assert_eq!(
        input_action(InputPdu::Unicode { flags: 0x8000, ch: 65 }),
        InputAction::Keyboard(KeyboardEvent::UnicodeReleased(65))
    );
    let pointer = |flags| InputPdu::Pointer { flags, wheel: -120, x: 7, y: 8 };
    let pdus = vec![
        pointer(0x9000),
        pointer(0x1000),
        pointer(0xA000),
        pointer(0x2000),
        pointer(0xC000),
        pointer(0x4000),
        pointer(0x0200),
        pointer(0x0800),
        InputPdu::Sync,
        InputPdu::Other,
    ];
    assert_eq!(
        handle_input(&pdus),
        vec![
            InputAction::Mouse(PointerEvent::LeftPressed),
            InputAction::Mouse(PointerEvent::LeftReleased),
            InputAction::Mouse(PointerEvent::RightPressed),
            InputAction::Mouse(PointerEvent::RightReleased),
            InputAction::Mouse(PointerEvent::MiddlePressed),
            InputAction::Mouse(PointerEvent::MiddleReleased),
            InputAction::Mouse(PointerEvent::VerticalScroll { value: -120 }),
            InputAction::Mouse(PointerEvent::Move { x: 7, y: 8 }),
            InputAction::Keyboard(KeyboardEvent::Synchronize),
            InputAction::Nothing,
        ]
    );
}

#[test]
fn advanced_pointers_have_their_meaning() {
    let advanced = |flags, x, y| input_action(InputPdu::Advanced { flags, x, y });
    assert_eq!(advanced(0x1008, 1, 1), InputAction::Mouse(PointerEvent::LeftPressed));
    assert_eq!(advanced(0x2000, 1, 1), InputAction::Mouse(PointerEvent::RightReleased));
    assert_eq!(advanced(0x4008, 1, 1), InputAction::Mouse(PointerEvent::MiddlePressed));
    assert_eq!(advanced(0x0004, 3, 4), InputAction::Mouse(PointerEvent::Move { x: 3, y: 4 }));
    assert_eq!(advanced(0x0004, -1, 4), InputAction::Nothing);
    assert_eq!(advanced(0x0001, 3, 4), InputAction::Nothing);
    assert_eq!(advanced(0x0014, 3, 4), InputAction::Nothing);
}

#[test]
fn frames_that_cannot_be_scaled_are_told_apart() {
    let frame = CapturedFrame { width: 4, height: 4, bytes_per_row: 16, data: vec![0; 64] };
    assert!(frame.is_usable(4, 4));
    assert!(frame.is_usable(2, 2));
    assert!(frame.is_usable(3, 3));
    assert!(!frame.is_usable(0, 3));
    let short = CapturedFrame { width: 4, height: 4, bytes_per_row: 16, data: vec![0; 32] };
    assert!(short.is_usable(4, 4));
    assert!(!short.is_usable(3, 3));
}
