//! Frames that clients send and packets that they get.

use ironrdp_ainput::{ClientPdu, MouseEventFlags, MousePdu as AdvancedMousePdu};
use ironrdp_core::{decode_cursor, encode_vec, ReadCursor};
use ironrdp_pdu::fast_path::{FastPathHeader, FastPathUpdatePdu};
use ironrdp_pdu::geometry::InclusiveRectangle;
use ironrdp_pdu::input::fast_path::{FastPathInput, FastPathInputEvent, KeyboardFlags, SynchronizeFlags};
use ironrdp_pdu::input::mouse::{MousePdu, PointerFlags};
use ironrdp_pdu::input::sync::{SyncPdu, SyncToggleFlags};
use ironrdp_pdu::input::{scan_code, unicode, InputEvent, InputEventPdu};
use ironrdp_pdu::mcs::{self, DisconnectProviderUltimatum, SendDataRequest};
use ironrdp_pdu::rdp::autodetect::{AutoDetectResponse, AutoDetectRspPdu};
use ironrdp_pdu::rdp::client_info::CompressionType;
use ironrdp_pdu::rdp::headers::{
    CompressionFlags, ShareControlHeader, ShareControlPdu, ShareDataHeader, ShareDataPdu, StreamPriority,
};
use ironrdp_pdu::rdp::refresh_rectangle::RefreshRectanglePdu;
use ironrdp_pdu::rdp::suppress_output::SuppressOutputPdu;
use ironrdp_pdu::x224::X224;
use mac_rdp_server::bitmap_encoder::BitmapEncoder;
use mac_rdp_server::client::{decode_rectangle, read_rectangles};
use mac_rdp_server::decode::{Answer, ClientMessage, DisconnectReason};
use mac_rdp_server::diagnostics::Diagnostics;
use mac_rdp_server::encoder::encode_tiles;
use mac_rdp_server::fast_path::{UpdateCode, UpdateFragmenter, MAX_FRAGMENT};
use mac_rdp_server::frame::{BitmapUpdate, DesktopSize, PixelFormat, Rect};
use mac_rdp_server::input::{InputAction, PointerEvent};
use mac_rdp_server::mac_input::KeyboardEvent;
use mac_rdp_server::packets::pack_tiles;
use mac_rdp_server::receive::CodedRectangle;
use mac_rdp_server::session::{
    answer_step, handle_advanced_input, handle_fastpath, handle_io_channel_data, handle_message,
    handle_message_channel_data, handle_x224, Channels, MessageStep, Outcome,
};

const IO: u16 = 1003;

fn channels() -> Channels {
    Channels { io_channel_id: IO, message_channel_id: Some(1006), known: vec![1004, 1005], waiting: vec![7] }
}

fn share_data(pdu: ShareDataPdu) -> Vec<u8> {
    encode_vec(&ShareControlHeader {
        share_control_pdu: ShareControlPdu::Data(ShareDataHeader {
            share_data_pdu: pdu,
            stream_priority: StreamPriority::Medium,
            compression_flags: CompressionFlags::empty(),
            compression_type: CompressionType::K8,
        }),
        pdu_source: IO,
        share_id: 1,
    })
    .unwrap()
}

fn on_channel(channel_id: u16, data: Vec<u8>) -> Vec<u8> {
    encode_vec(&X224(SendDataRequest { initiator_id: 1007, channel_id, user_data: data.into() })).unwrap()
}

fn mouse(flags: PointerFlags, wheel: i16, x: u16, y: u16) -> MousePdu {
    MousePdu { flags, number_of_wheel_rotation_units: wheel, x_position: x, y_position: y }
}

fn rectangle() -> InclusiveRectangle {
    InclusiveRectangle { left: 0, top: 0, right: 99, bottom: 49 }
}

#[test]
fn fast_path_input_is_read() {
    let input = FastPathInput::new(vec![
        FastPathInputEvent::KeyboardEvent(KeyboardFlags::EXTENDED, 0x1C),
        FastPathInputEvent::UnicodeKeyboardEvent(KeyboardFlags::RELEASE, 0x20AC),
        FastPathInputEvent::SyncEvent(SynchronizeFlags::CAPS_LOCK),
        FastPathInputEvent::MouseEvent(mouse(PointerFlags::LEFT_BUTTON | PointerFlags::DOWN, 0, 3, 4)),
        FastPathInputEvent::MouseEvent(mouse(PointerFlags::VERTICAL_WHEEL, -120, 0, 0)),
        FastPathInputEvent::MouseEvent(mouse(PointerFlags::MOVE, 0, 30, 40)),
        FastPathInputEvent::QoeEvent(9),
    ])
    .unwrap();
    assert_eq!(
        handle_fastpath(&encode_vec(&input).unwrap()),
        Some(vec![
            InputAction::Keyboard(KeyboardEvent::Pressed { code: 0x1C, extended: true }),
            InputAction::Keyboard(KeyboardEvent::UnicodeReleased(0x20AC)),
            InputAction::Keyboard(KeyboardEvent::Synchronize),
            InputAction::Mouse(PointerEvent::LeftPressed),
            InputAction::Mouse(PointerEvent::VerticalScroll { value: -120 }),
            InputAction::Mouse(PointerEvent::Move { x: 30, y: 40 }),
            InputAction::Nothing,
        ])
    );
}

#[test]
fn frames_that_are_no_input_are_turned_away() {
    assert_eq!(handle_fastpath(&[]), None);
    assert_eq!(handle_fastpath(&[0x04]), None);
    // A length that does not even cover the header.
    assert_eq!(handle_fastpath(&[0x04, 0x01, 0x00, 0x1C]), None);
    assert_eq!(handle_fastpath(&[0x04, 0x80, 0x02, 0x00, 0x1C]), None);
    // One event, and then none at all.
    assert_eq!(
        handle_fastpath(&[0x04, 0x04, 0x00, 0x1C]),
        Some(vec![InputAction::Keyboard(KeyboardEvent::Pressed { code: 0x1C, extended: false })])
    );
    assert_eq!(handle_fastpath(&[0x04, 0x02]), None);
    // The number of events in a byte of its own.
    assert_eq!(
        handle_fastpath(&[0x00, 0x05, 0x01, 0x01, 0x1C]),
        Some(vec![InputAction::Keyboard(KeyboardEvent::Released { code: 0x1C, extended: false })])
    );
}

#[test]
fn the_channel_for_input_and_output_is_read() {
    let list = InputEventPdu(vec![
        InputEvent::ScanCode(scan_code::ScanCodePdu {
            flags: scan_code::KeyboardFlags::RELEASE | scan_code::KeyboardFlags::EXTENDED,
            key_code: 0x1D,
        }),
        InputEvent::Unicode(unicode::UnicodePdu {
            flags: unicode::KeyboardFlags::empty(),
            unicode_code: 0x41,
        }),
        InputEvent::Sync(SyncPdu { flags: SyncToggleFlags::empty() }),
        InputEvent::Mouse(mouse(PointerFlags::RIGHT_BUTTON, 0, 5, 6)),
    ]);
    let frame = on_channel(IO, share_data(ShareDataPdu::Input(list)));
    let mut suppressed = true;
    assert_eq!(
        handle_x224(&mut suppressed, &frame, &channels()),
        Some(Outcome::Input(vec![
            InputAction::Keyboard(KeyboardEvent::Released { code: 0x1D, extended: true }),
            InputAction::Keyboard(KeyboardEvent::UnicodePressed(0x41)),
            InputAction::Keyboard(KeyboardEvent::Synchronize),
            InputAction::Mouse(PointerEvent::RightReleased),
        ]))
    );
    assert!(suppressed);

    let refresh = share_data(ShareDataPdu::RefreshRectangle(RefreshRectanglePdu {
        areas_to_refresh: vec![rectangle()],
    }));
    assert_eq!(handle_io_channel_data(&mut suppressed, &refresh), Some(Outcome::Proceed));
    assert!(!suppressed);
    let minimized = share_data(ShareDataPdu::SuppressOutput(SuppressOutputPdu { desktop_rect: None }));
    assert_eq!(handle_io_channel_data(&mut suppressed, &minimized), Some(Outcome::Proceed));
    assert!(suppressed);
    let restored =
        share_data(ShareDataPdu::SuppressOutput(SuppressOutputPdu { desktop_rect: Some(rectangle()) }));
    assert_eq!(handle_io_channel_data(&mut suppressed, &restored), Some(Outcome::Proceed));
    assert!(!suppressed);
    let shutdown = share_data(ShareDataPdu::ShutdownRequest);
    assert_eq!(handle_io_channel_data(&mut suppressed, &shutdown), Some(Outcome::Disconnect));
    let other = share_data(ShareDataPdu::ShutdownDenied);
    assert_eq!(handle_io_channel_data(&mut suppressed, &other), Some(Outcome::Proceed));
    assert_eq!(handle_io_channel_data(&mut suppressed, &[1, 2, 3]), None);
}

#[test]
fn frames_go_to_their_channels() {
    let mut suppressed = false;
    assert_eq!(
        handle_x224(&mut suppressed, &on_channel(1005, vec![1, 2, 3]), &channels()),
        Some(Outcome::Channel { channel_id: 1005, data: vec![1, 2, 3] })
    );
    assert_eq!(
        handle_x224(&mut suppressed, &on_channel(1009, vec![1]), &channels()),
        Some(Outcome::Unknown { channel_id: 1009 })
    );
    let answer = |sequence_number| {
        encode_vec(&AutoDetectRspPdu::new(AutoDetectResponse::RttResponse { sequence_number })).unwrap()
    };
    assert_eq!(
        handle_x224(&mut suppressed, &on_channel(1006, answer(7)), &channels()),
        Some(Outcome::Message(MessageStep::Measured { sequence_number: 7 }))
    );
    assert_eq!(handle_message_channel_data(&answer(8), &vec![7]), MessageStep::Unmatched);
    assert_eq!(handle_message_channel_data(&[0, 0], &vec![7]), MessageStep::Unhandled);
    assert_eq!(answer_step(Some(Answer::Other { sequence_number: 7 }), &vec![7]), MessageStep::Unmatched);
    assert_eq!(handle_x224(&mut suppressed, &[3, 0, 0, 7], &channels()), None);

    for (reason, expected) in [
        (mcs::DisconnectReason::UserRequested, Outcome::Disconnect),
        (mcs::DisconnectReason::ProviderInitiated, Outcome::Proceed),
        (mcs::DisconnectReason::DomainDisconnected, Outcome::Proceed),
    ] {
        let frame = encode_vec(&X224(DisconnectProviderUltimatum { reason })).unwrap();
        assert_eq!(handle_x224(&mut suppressed, &frame, &channels()), Some(expected));
    }
    assert_eq!(
        handle_message(
            &mut suppressed,
            ClientMessage::Disconnect(DisconnectReason::UserRequested),
            vec![],
            &channels()
        ),
        Some(Outcome::Disconnect)
    );
    assert_eq!(
        handle_message(&mut suppressed, ClientMessage::Other, vec![], &channels()),
        Some(Outcome::Proceed)
    );
    assert!(!suppressed);
}

#[test]
fn the_channel_for_advanced_input_is_read() {
    let message = |flags, x, y| {
        encode_vec(&ClientPdu::Mouse(AdvancedMousePdu { time: 99, flags, x, y })).unwrap()
    };
    assert_eq!(
        handle_advanced_input(&message(MouseEventFlags::BUTTON1 | MouseEventFlags::DOWN, 1, 2)),
        Some(InputAction::Mouse(PointerEvent::LeftPressed))
    );
    assert_eq!(
        handle_advanced_input(&message(MouseEventFlags::MOVE, 300, 400)),
        Some(InputAction::Mouse(PointerEvent::Move { x: 300, y: 400 }))
    );
    assert_eq!(handle_advanced_input(&message(MouseEventFlags::MOVE, -1, 4)), Some(InputAction::Nothing));
    let mut short = message(MouseEventFlags::MOVE, 3, 4);
    short.pop();
    assert_eq!(handle_advanced_input(&short), None);
    assert_eq!(handle_advanced_input(&[9; 30]), None);
}

#[test]
fn packets_are_those_of_the_protocol() {
    for len in [0, 1, 122, 123, 124, 5000, MAX_FRAGMENT, MAX_FRAGMENT + 1, 2 * MAX_FRAGMENT + 5] {
        let data: Vec<u8> = (0..len).map(|i| (i * 7 % 251) as u8).collect();
        let mut read = Vec::new();
        for packet in UpdateFragmenter::new(UpdateCode::NewPointer, data.clone()).packets() {
            let mut cursor = ReadCursor::new(&packet);
            let header = decode_cursor::<FastPathHeader>(&mut cursor).unwrap();
            assert_eq!(header.data_length, packet.len() - cursor.pos());
            let mut expected =
                encode_vec(&FastPathHeader::new(header.flags, header.data_length)).unwrap();
            let update = decode_cursor::<FastPathUpdatePdu<'_>>(&mut cursor).unwrap();
            assert!(cursor.is_empty());
            assert_eq!(update.update_code, ironrdp_pdu::fast_path::UpdateCode::NewPointer);
            expected.extend(encode_vec(&update).unwrap());
            assert_eq!(packet, expected);
            read.extend_from_slice(update.data);
        }
        assert_eq!(read, data);
    }
}

#[test]
fn a_test_client_sees_the_desktop() {
    let data: Vec<u8> = (0..64 * 32 * 4).map(|i| (i % 199 + 1) as u8).collect();
    let bitmap =
        BitmapUpdate { x: 0, y: 0, width: 64, height: 32, format: PixelFormat::BgrA32, data, stride: 256 };
    let tiles = vec![
        Rect { x: 0, y: 0, width: 32, height: 32 },
        Rect { x: 32, y: 0, width: 32, height: 32 },
    ];
    let mut seen = Diagnostics::new();
    for buffer in pack_tiles(&encode_tiles(&bitmap, &tiles, 0xFF).unwrap()) {
        for packet in UpdateFragmenter::new(UpdateCode::Bitmap, buffer).packets() {
            seen.receive(&packet);
        }
    }
    assert_eq!(seen.surface_bits_count, 2);
    assert_eq!(seen.non_zero_pixels, 64 * 32 * 3);
    assert!(seen.fastpath_count >= 1);
    assert!(seen.failed.is_empty());
    assert!(!seen.rich());

    seen.receive(&[3, 0, 0, 7]);
    seen.receive(&[0]);
    let packets = seen.fastpath_count;
    seen.receive(&[0, 3, 0x71]);
    assert_eq!(seen.fastpath_count, packets + 1);
}

#[test]
fn a_client_shows_what_was_sent() {
    let data: Vec<u8> = (0..64 * 32 * 4).map(|i| (i * i % 251) as u8).collect();
    let bitmap = BitmapUpdate {
        x: 0,
        y: 0,
        width: 64,
        height: 32,
        format: PixelFormat::BgrA32,
        data: data.clone(),
        stride: 256,
    };
    let tiles = vec![
        Rect { x: 4, y: 0, width: 20, height: 32 },
        Rect { x: 32, y: 7, width: 32, height: 9 },
    ];
    for mask in [0xFF, 0xFC, 0xF0] {
        let packets = pack_tiles(&encode_tiles(&bitmap, &tiles, mask).unwrap());
        let read: Vec<CodedRectangle> =
            packets.iter().flat_map(|packet| read_rectangles(packet).unwrap()).collect();
        assert_eq!(read.len(), tiles.len());
        for (rectangle, tile) in read.iter().zip(&tiles) {
            let colors = decode_rectangle(rectangle).unwrap();
            assert_eq!(colors.len(), 3 * tile.width * tile.height);
            for row in 0..tile.height {
                for col in 0..tile.width {
                    let at = 3 * ((tile.height - 1 - row) * tile.width + col);
                    let pixel = (tile.y + row) * 256 + (tile.x + col) * 4;
                    assert_eq!(
                        colors[at..at + 3],
                        [data[pixel + 2] & mask, data[pixel + 1] & mask, data[pixel] & mask]
                    );
                }
            }
        }
    }
    assert!(read_rectangles(&[1, 0, 1]).is_none());
    let broken = CodedRectangle { width: 4, height: 4, data: vec![0x30, 0] };
    assert!(decode_rectangle(&broken).is_none());
}

#[test]
fn a_client_shows_a_bitmap_of_several_rectangles() {
    let data: Vec<u8> = (0..1920 * 20 * 4).map(|i| (i / 3 % 256) as u8).collect();
    let bitmap = BitmapUpdate {
        x: 0,
        y: 0,
        width: 1920,
        height: 20,
        format: PixelFormat::RgbA32,
        data: data.clone(),
        stride: 1920 * 4,
    };
    let mut output = vec![0u8; 1024 * 1024];
    let len = BitmapEncoder::new().encode(&bitmap, &mut output).unwrap();
    let read = read_rectangles(&output[..len]).unwrap();
    let heights: Vec<u16> = read.iter().map(|rectangle| rectangle.height).collect();
    assert_eq!(heights, [8, 8, 4]);
    let mut top = 0;
    for rectangle in &read {
        let height = usize::from(rectangle.height);
        let colors = decode_rectangle(rectangle).unwrap();
        for row in 0..height {
            for col in 0..1920 {
                let at = 3 * ((height - 1 - row) * 1920 + col);
                let pixel = ((top + row) * 1920 + col) * 4;
                assert_eq!(colors[at..at + 3], data[pixel..pixel + 3]);
            }
        }
        top += height;
    }
}

#[test]
fn a_test_client_puts_surface_commands_together() {
    // A command that sets 2 by 1 pixels: uncompressed colours behind one byte, and a byte of padding.
    let stream = [0x20, 1, 2, 3, 4, 0, 6, 0];
    let mut command = vec![0x01, 0x00, 0, 0, 0, 0, 2, 0, 1, 0, 32, 0, 0, 0, 2, 0, 1, 0];
    command.extend_from_slice(&(stream.len() as u32).to_le_bytes());
    command.extend_from_slice(&stream);
    let mut commands = command.clone();
    commands.extend_from_slice(&command);
    let mut seen = Diagnostics::new();
    for packet in UpdateFragmenter::new(UpdateCode::SurfaceCommands, commands.clone()).packets() {
        seen.receive(&packet);
    }
    assert_eq!(seen.reassembly, commands);
    assert_eq!((seen.surface_bits_count, seen.non_zero_pixels), (2, 10));

    // Too few bytes for its size.
    let mut broken = command;
    broken[14] = 3;
    for packet in UpdateFragmenter::new(UpdateCode::SurfaceCommands, broken).packets() {
        seen.receive(&packet);
    }
    assert_eq!((seen.surface_bits_count, seen.non_zero_pixels), (3, 10));
    assert_eq!(seen.failed, vec![DesktopSize { width: 3, height: 1 }]);

    // In parts, of which only the last completes the commands.
    let large = vec![0xEE; MAX_FRAGMENT + 1];
    let parts = UpdateFragmenter::new(UpdateCode::SurfaceCommands, large.clone()).packets();
    assert_eq!(parts.len(), 2);
    seen.receive(&parts[0]);
    assert_eq!(seen.reassembly.len(), MAX_FRAGMENT);
    seen.receive(&parts[1]);
    assert_eq!(seen.reassembly, large);
    assert_eq!(seen.surface_bits_count, 3);
}
