//! Frames on their way to the client.

use mac_rdp_server::codecs::UpdateError;
use mac_rdp_server::encoder::{
    BitmapUpdater, ColorPointer, DisplayUpdate, EncoderState, EntropyBits, PointerPositionAttribute,
    RGBAPointer, UpdateEncoder, UpdateEncoderCodecs,
};
use mac_rdp_server::fast_path::{UpdateCode, UpdateFragmenter};
use mac_rdp_server::frame::{BitmapUpdate, DesktopSize, PixelFormat, Rect};
use mac_rdp_server::tile_encoder::NoneHandler;
use mac_rdp_server::tiles::{required_cooldown, tiles_of, CompressionMode};

const SECOND: u64 = 1_000_000_000;
const MILLI: u64 = 1_000_000;

fn mode(tile_w: usize, tile_h: usize) -> CompressionMode {
    CompressionMode { mask: 0xFF, tile_w, tile_h }
}

fn encoder(width: u16, height: u16) -> UpdateEncoder {
    UpdateEncoder::new(DesktopSize { width, height }, 0, UpdateEncoderCodecs::new(), 8 << 20, 0)
}

fn frame(width: u16, height: u16, data: Vec<u8>) -> BitmapUpdate {
    BitmapUpdate {
        x: 0,
        y: 0,
        width,
        height,
        format: PixelFormat::BgrA32,
        data,
        stride: width as usize * 4,
    }
}

fn send(
    encoder: &mut UpdateEncoder,
    update: DisplayUpdate,
    mode: CompressionMode,
    now: u64,
) -> Vec<Result<UpdateFragmenter, UpdateError>> {
    let mut iter = encoder.update(update);
    let mut out = Vec::new();
    while let Some(part) = iter.next(encoder, mode, now) {
        out.push(part);
    }
    out
}

/// Bytes that do not get fewer when they are compressed.
fn noise(len: usize) -> Vec<u8> {
    let mut seed = 1u32;
    (0..len)
        .map(|_| {
            seed = seed.wrapping_mul(1_664_525).wrapping_add(1_013_904_223);
            (seed >> 24) as u8
        })
        .collect()
}

fn pixel(data: &mut [u8], width: usize, x: usize, y: usize, value: u8) {
    let at = (y * width + x) * 4;
    data[at..at + 4].fill(value);
}

#[test]
fn the_first_frame_is_sent_in_full() {
    let mut enc = encoder(64, 64);
    let sent = send(&mut enc, DisplayUpdate::Bitmap(frame(64, 64, vec![0u8; 64 * 64 * 4])), mode(32, 32), 0);
    assert_eq!(sent.len(), 1);
    let packet = sent[0].as_ref().unwrap();
    assert_eq!(packet.code, UpdateCode::Bitmap);
    assert_eq!(&packet.data[..4], &[1, 0, 4, 0]);
    assert_eq!(enc.framebuffer.as_ref().unwrap().data, vec![0u8; 64 * 64 * 4]);
}

#[test]
fn a_static_frame_costs_nothing() {
    let mut enc = encoder(64, 64);
    let data = vec![7u8; 64 * 64 * 4];
    send(&mut enc, DisplayUpdate::Bitmap(frame(64, 64, data.clone())), mode(32, 32), 0);
    let sent = send(&mut enc, DisplayUpdate::Bitmap(frame(64, 64, data)), mode(32, 32), SECOND);
    assert!(sent.is_empty());
    assert_eq!(enc.frame_count, 2);
}

#[test]
fn only_tiles_near_a_change_are_sent() {
    let mut enc = encoder(256, 128);
    let mut data = vec![0u8; 256 * 128 * 4];
    send(&mut enc, DisplayUpdate::Bitmap(frame(256, 128, data.clone())), mode(32, 16), 0);
    pixel(&mut data, 256, 200, 100, 9);
    let tiles = enc.bitmap_diffs(&frame(256, 128, data.clone()), mode(32, 16), 10 * SECOND);
    // The square of 64 pixels that holds the change, in tiles of 32 by 16.
    let expected: Vec<Rect> = (4..8)
        .flat_map(|r| (6..8).map(move |c| Rect { x: c * 32, y: r * 16, width: 32, height: 16 }))
        .collect();
    assert_eq!(tiles, expected);
}

#[test]
fn no_ghosts_stay_behind() {
    let mut enc = encoder(256, 128);
    let mut data = vec![0u8; 256 * 128 * 4];
    send(&mut enc, DisplayUpdate::Bitmap(frame(256, 128, data.clone())), mode(32, 16), 0);
    for step in 1..6usize {
        pixel(&mut data, 256, step * 37, step * 11, step as u8);
        let now = step as u64 * SECOND;
        let sent = send(&mut enc, DisplayUpdate::Bitmap(frame(256, 128, data.clone())), mode(32, 16), now);
        assert!(!sent.is_empty());
        assert_eq!(enc.framebuffer.as_ref().unwrap().data, data);
    }
}

#[test]
fn a_frame_that_comes_too_soon_is_made_up_for() {
    let mut enc = encoder(256, 128);
    let first = vec![0u8; 256 * 128 * 4];
    let second = vec![1u8; 256 * 128 * 4];
    let third = vec![2u8; 256 * 128 * 4];
    let m = mode(32, 16);
    send(&mut enc, DisplayUpdate::Bitmap(frame(256, 128, first.clone())), m, 0);
    assert!(!send(&mut enc, DisplayUpdate::Bitmap(frame(256, 128, second.clone())), m, SECOND).is_empty());
    assert_eq!(enc.last_large_update, SECOND);
    // All of the tiles changed, so half a second has to pass.
    let soon = SECOND + 499 * MILLI;
    assert!(send(&mut enc, DisplayUpdate::Bitmap(frame(256, 128, third.clone())), m, soon).is_empty());
    assert_eq!(enc.framebuffer.as_ref().unwrap().data, second);
    let later = SECOND + 500 * MILLI;
    assert!(!send(&mut enc, DisplayUpdate::Bitmap(frame(256, 128, third.clone())), m, later).is_empty());
    assert_eq!(enc.framebuffer.as_ref().unwrap().data, third);
}

#[test]
fn a_small_change_is_never_held_back() {
    let mut enc = encoder(640, 640);
    let mut data = vec![0u8; 640 * 640 * 4];
    let m = mode(64, 64);
    send(&mut enc, DisplayUpdate::Bitmap(frame(640, 640, data.clone())), m, 0);
    for now in 1..4u64 {
        pixel(&mut data, 640, 5, 5, now as u8);
        let sent = send(&mut enc, DisplayUpdate::Bitmap(frame(640, 640, data.clone())), m, now);
        assert_eq!(sent.len(), 1);
        assert_eq!(&sent[0].as_ref().unwrap().data[..4], &[1, 0, 1, 0]);
    }
    assert_eq!(enc.last_large_update, 0);
}

#[test]
fn pauses_go_by_the_share_of_changes() {
    assert_eq!(required_cooldown(5, 100), 0);
    assert_eq!(required_cooldown(6, 100), 33);
    assert_eq!(required_cooldown(10, 100), 33);
    assert_eq!(required_cooldown(20, 100), 50);
    assert_eq!(required_cooldown(30, 100), 100);
    assert_eq!(required_cooldown(50, 100), 300);
    assert_eq!(required_cooldown(60, 100), 180);
    assert_eq!(required_cooldown(70, 100), 250);
    assert_eq!(required_cooldown(71, 100), 500);
    assert_eq!(required_cooldown(100, 100), 500);
}

#[test]
fn what_does_not_fit_the_desktop_is_dropped() {
    let mut enc = encoder(64, 64);
    let sent = send(&mut enc, DisplayUpdate::Bitmap(frame(65, 64, vec![0u8; 65 * 64 * 4])), mode(32, 32), 0);
    assert!(sent.is_empty());
    assert_eq!(enc.frame_count, 0);
}

#[test]
fn tiles_at_the_edges_are_cut() {
    let diffs = vec![Rect { x: 60, y: 30, width: 10, height: 10 }];
    let tiles = tiles_of(mode(32, 32), 70, 40, &diffs);
    assert_eq!(
        tiles,
        vec![
            Rect { x: 32, y: 0, width: 32, height: 32 },
            Rect { x: 64, y: 0, width: 6, height: 32 },
            Rect { x: 32, y: 32, width: 32, height: 8 },
            Rect { x: 64, y: 32, width: 6, height: 8 },
        ]
    );
    assert!(tiles_of(mode(32, 32), 70, 40, &Vec::new()).is_empty());
    assert!(mode(32, 32).is_valid());
    assert!(!mode(usize::MAX, 32).is_valid());
}

#[test]
fn a_frame_of_noise_takes_several_packets() {
    let mut enc = encoder(640, 64);
    let data = noise(640 * 64 * 4);
    let m = mode(64, 16);
    let mut iter = enc.update(DisplayUpdate::Bitmap(frame(640, 64, data.clone())));
    let mut packets = 0;
    while let Some(part) = iter.next(&mut enc, m, 0) {
        let part = part.unwrap();
        assert!(part.data.len() <= 14_004);
        packets += 1;
        // Nothing is taken for shown before the last packet has been handed out.
        let waiting = matches!(iter.state, EncoderState::ReadyBuffers { .. });
        assert_eq!(enc.framebuffer.is_none(), waiting);
    }
    assert!(packets > 1);
    assert_eq!(enc.framebuffer.as_ref().unwrap().data, data);
}

#[test]
fn tiles_that_are_too_large_fail() {
    let mut enc = encoder(320, 128);
    let data = noise(320 * 128 * 4);
    let sent = send(&mut enc, DisplayUpdate::Bitmap(frame(320, 128, data)), mode(320, 128), 0);
    assert_eq!(sent.len(), 1);
    assert!(matches!(sent[0], Err(UpdateError::Bitmap(_))));
    assert!(enc.framebuffer.is_none());
}

#[test]
fn tiles_of_the_usual_size_never_fail() {
    for (w, h) in [(320usize, 24usize), (320, 32), (240, 24)] {
        let mut enc = encoder(640, 96);
        let sent = send(&mut enc, DisplayUpdate::Bitmap(frame(640, 96, noise(640 * 96 * 4))), mode(w, h), 0);
        assert!(sent.iter().all(|part| part.is_ok()));
        assert!(enc.framebuffer.is_some());
    }
}

#[test]
fn pointers_have_their_bytes() {
    let m = mode(32, 32);
    let mut enc = encoder(64, 64);
    let at = PointerPositionAttribute { x: 0x0102, y: 0x0304 };
    let sent = send(&mut enc, DisplayUpdate::PointerPosition(at), m, 0);
    assert_eq!(sent[0].as_ref().unwrap().data, vec![2, 1, 4, 3]);
    assert_eq!(sent[0].as_ref().unwrap().code, UpdateCode::PositionPointer);
    assert_eq!(sent.len(), 1);

    let sent = send(&mut enc, DisplayUpdate::CachedPointer(0x0203), m, 0);
    assert_eq!(sent[0].as_ref().unwrap().data, vec![3, 2]);
    assert_eq!(sent[0].as_ref().unwrap().code, UpdateCode::CachedPointer);

    let sent = send(&mut enc, DisplayUpdate::HidePointer, m, 0);
    assert_eq!(sent[0].as_ref().unwrap().code, UpdateCode::HiddenPointer);
    assert!(sent[0].as_ref().unwrap().data.is_empty());
    let sent = send(&mut enc, DisplayUpdate::DefaultPointer, m, 0);
    assert_eq!(sent[0].as_ref().unwrap().code, UpdateCode::DefaultPointer);

    let pointer = RGBAPointer { width: 1, height: 2, hot_x: 3, hot_y: 4, cache_index: 5, data: (1..9).collect() };
    let sent = send(&mut enc, DisplayUpdate::RGBAPointer(pointer), m, 0);
    let mut expected = vec![32, 0, 5, 0, 3, 0, 4, 0, 1, 0, 2, 0, 0, 0, 8, 0];
    expected.extend(1..9u8);
    assert_eq!(sent[0].as_ref().unwrap().data, expected);
    assert_eq!(sent[0].as_ref().unwrap().code, UpdateCode::NewPointer);

    let pointer = ColorPointer {
        width: 1,
        height: 1,
        hot_x: 0,
        hot_y: 0,
        cache_index: 6,
        and_mask: vec![0xF0, 0x0F],
        xor_mask: vec![1, 2, 3, 4],
    };
    let sent = send(&mut enc, DisplayUpdate::ColorPointer(pointer), m, 0);
    assert_eq!(
        sent[0].as_ref().unwrap().data,
        vec![6, 0, 0, 0, 0, 0, 1, 0, 1, 0, 2, 0, 4, 0, 1, 2, 3, 4, 0xF0, 0x0F]
    );
}

#[test]
fn pointers_whose_masks_do_not_fit_fail() {
    let flat = RGBAPointer { width: 1, height: 0, hot_x: 0, hot_y: 0, cache_index: 0, data: vec![0; 4] };
    assert_eq!(UpdateEncoder::rgba_pointer(&flat).err(), Some(UpdateError::Pointer));
    let odd = ColorPointer {
        width: 1,
        height: 1,
        hot_x: 0,
        hot_y: 0,
        cache_index: 0,
        and_mask: vec![0],
        xor_mask: vec![0, 0],
    };
    assert_eq!(UpdateEncoder::color_pointer(&odd).err(), Some(UpdateError::Pointer));
}

#[test]
fn a_change_of_size_is_not_sent_as_an_update() {
    let mut enc = encoder(64, 64);
    let size = DesktopSize { width: 32, height: 32 };
    assert!(send(&mut enc, DisplayUpdate::Resize(size), mode(32, 32), 0).is_empty());
    enc.set_desktop_size(size);
    assert_eq!(enc.desktop_size, size);
    assert!(enc.framebuffer.is_none());
}

#[test]
fn only_tiles_can_be_put_together() {
    let update = frame(8, 4, vec![3u8; 128]);
    let mut enc = encoder(64, 64);
    let tile = enc.encode_bitmap_tile(&update, 0xFF).unwrap();
    assert_eq!(tile, NoneHandler.encode_bitmap_tile(&update, 0xFF).unwrap());
    let whole = enc.bitmap(&update, 0xFF).unwrap();
    assert_eq!(&whole.data[4..], &tile[..]);
    enc.bitmap_updater = BitmapUpdater::Qoi(mac_rdp_server::codecs::QoiHandler::new(1));
    assert_eq!(enc.encode_bitmap_tile(&update, 0xFF).err(), Some(UpdateError::Unsupported));
}

#[test]
fn codecs_are_noted() {
    let mut codecs = UpdateEncoderCodecs::new();
    codecs.set_remotefx(Some((EntropyBits::Rlgr3, 1)));
    codecs.set_qoi(Some(2));
    codecs.set_qoiz(Some(3));
    codecs.set_nscodec(Some((4, 5)));
    assert_eq!(
        codecs,
        UpdateEncoderCodecs {
            remotefx: Some((EntropyBits::Rlgr3, 1)),
            qoi: Some(2),
            qoiz: Some(3),
            nscodec: Some((4, 5)),
        }
    );
}

#[test]
fn what_can_be_encoded_is_told_apart() {
    let enc = encoder(64, 64);
    let whole = EncoderState::Start(DisplayUpdate::Bitmap(frame(64, 64, vec![0u8; 64 * 64 * 4])));
    assert!(whole.is_ready(&enc, mode(32, 32)));
    assert!(!whole.is_ready(&enc, mode(0, 32)));
    let short = EncoderState::Start(DisplayUpdate::Bitmap(frame(64, 64, vec![0u8; 64])));
    assert!(!short.is_ready(&enc, mode(32, 32)));
    // What does not fit the desktop is dropped, so nothing is asked of it.
    let wide = EncoderState::Start(DisplayUpdate::Bitmap(frame(65, 64, vec![0u8; 64])));
    assert!(wide.is_ready(&enc, mode(32, 32)));
    assert!(EncoderState::Start(DisplayUpdate::HidePointer).is_ready(&enc, mode(0, 0)));
}
