//! Bitmaps, tiles and the packets that carry them.

use ironrdp_core::{Decode, ReadCursor};
use ironrdp_graphics::rdp6::BitmapStreamDecoder;
use ironrdp_pdu::bitmap::{BitmapData, BitmapUpdateData};
use mac_rdp_server::bitmap_encoder::{BitmapEncodeError, BitmapEncoder};
use mac_rdp_server::codecs::{
    flush_step, flushed_surface, qoi_encode, set_surface, stream_settings, BitmapHandler, CodecId,
    FlushStep, NsCodecHandler, QoiHandler, QoizHandler, RemoteFxHandler, RfxReply, RfxStep, UpdateError,
};
use mac_rdp_server::fast_path::{Fragmentation, UpdateCode, UpdateFragmenter};
use mac_rdp_server::frame::{BitmapUpdate, DesktopSize, Framebuffer, PixelFormat, Rect};
use mac_rdp_server::graphics::{ZstdParameter, ZstdProgress};
use mac_rdp_server::packets::pack_tiles;
use mac_rdp_server::pdu::{BitmapField, EncodeFailure};
use mac_rdp_server::rows::{count_pieces, rows_bottom_up};
use mac_rdp_server::tile_encoder::NoneHandler;

fn bitmap(x: u16, y: u16, width: u16, height: u16, format: PixelFormat, data: Vec<u8>) -> BitmapUpdate {
    BitmapUpdate { x, y, width, height, format, data, stride: width as usize * 4 }
}

/// A picture in which no two neighbouring pixels are alike.
fn picture(width: usize, height: usize) -> Vec<u8> {
    let mut raw = vec![0u8; width * height * 4];
    for (i, px) in raw.chunks_exact_mut(4).enumerate() {
        px[0] = (i % 251) as u8;
        px[1] = ((i * 7) % 253) as u8;
        px[2] = ((i * 13) % 255) as u8;
        px[3] = 255;
    }
    raw
}

/// A picture that does not get smaller when it is compressed.
fn noise(width: usize, height: usize) -> Vec<u8> {
    let mut seed = 1u32;
    (0..width * height * 4)
        .map(|_| {
            seed = seed.wrapping_mul(1_664_525).wrapping_add(1_013_904_223);
            (seed >> 24) as u8
        })
        .collect()
}

/// The picture of a rectangle as red, green and blue bytes, bottom row first.
fn rgb_bottom_up(data: &[u8], width: usize, height: usize, offsets: [usize; 3]) -> Vec<u8> {
    let mut out = Vec::new();
    for row in (0..height).rev() {
        for col in 0..width {
            let at = (row * width + col) * 4;
            for offset in offsets {
                out.push(data[at + offset]);
            }
        }
    }
    out
}

fn decode_rgb(stream: &[u8], width: usize, height: usize) -> Vec<u8> {
    let mut out = Vec::new();
    BitmapStreamDecoder::default()
        .decode_bitmap_stream_to_rgb24(stream, &mut out, width, height)
        .unwrap();
    out
}

#[test]
fn test_bitmap_encoder_decode() {
    let width = 1920u16;
    let height = 64u16;
    let stride = (width as usize) * 4;
    let mut raw = vec![0u8; stride * (height as usize)];
    for (i, px) in raw.chunks_exact_mut(4).enumerate() {
        px[0] = (i % 255) as u8; // B
        px[1] = ((i * 2) % 255) as u8; // G
        px[2] = ((i * 3) % 255) as u8; // R
        px[3] = 255; // A
    }

    let update = BitmapUpdate {
        x: 0,
        y: 0,
        width,
        height,
        stride,
        format: PixelFormat::BgrA32,
        data: raw.clone(),
    };

    let mut encoder = BitmapEncoder::new();
    let mut output = vec![0u8; 1024 * 1024];
    let len = encoder.encode(&update, &mut output).unwrap();
    assert!(len > 0);

    let mut cursor = ReadCursor::new(&output[..len]);
    let update_data = BitmapUpdateData::decode(&mut cursor).unwrap();
    assert_eq!(update_data.rectangles.len(), 8);

    let mut decoder = BitmapStreamDecoder::default();
    let mut row = 0usize;
    for rect in update_data.rectangles {
        let chunk_h = rect.height as usize;
        let chunk_w = rect.width as usize;
        assert_eq!(rect.rectangle.top as usize, row);
        let mut chunk_out = vec![0u8; chunk_w * chunk_h * 4];
        decoder
            .decode_bitmap_stream_to_rgb24(rect.bitmap_data, &mut chunk_out, chunk_w, chunk_h)
            .unwrap();
        let chunk = &raw[row * stride..(row + chunk_h) * stride];
        let picture = &chunk_out[chunk_w * chunk_h * 4..];
        assert_eq!(picture, &rgb_bottom_up(chunk, chunk_w, chunk_h, [2, 1, 0])[..]);
        row += chunk_h;
    }
    assert_eq!(row, 64);
}

#[test]
fn bitmap_encoder_needs_a_width_of_whole_fours() {
    let update = bitmap(0, 0, 6, 2, PixelFormat::BgrA32, picture(6, 2));
    for room in [0, 1, 2, 3, 4, 1024] {
        let mut output = vec![0xAAu8; room];
        assert_eq!(
            BitmapEncoder::new().encode(&update, &mut output),
            Err(BitmapEncodeError::Encode(EncodeFailure::InvalidField(BitmapField::Width)))
        );
        assert!(output.iter().all(|&b| b == 0xAA));
    }
}

#[test]
fn bitmap_encoder_needs_rectangles_that_can_be_counted() {
    let mut update = bitmap(0, 0, 16380, 1, PixelFormat::BgrA32, vec![0u8; 65536]);
    update.stride = 1;
    let mut output = vec![0xAAu8; 64];
    assert_eq!(
        BitmapEncoder::new().encode(&update, &mut output),
        Err(BitmapEncodeError::Encode(EncodeFailure::InvalidField(BitmapField::RectangleCount)))
    );
    assert!(output.iter().all(|&b| b == 0xAA));
}

#[test]
fn refused_fields_have_names_and_reasons() {
    assert_eq!(BitmapField::Width.name(), "bitmap");
    assert_eq!(BitmapField::Width.reason(), "Width must be a multiple of 4");
    assert_eq!(BitmapField::RectangleCount.name(), "chunks length lower bound");
    assert_eq!(BitmapField::RectangleCount.reason(), "out of range integral type conversion");

    let bitmap_data = vec![0u8; 65536];
    let data = BitmapData {
        rectangle: ironrdp_pdu::geometry::InclusiveRectangle { left: 0, top: 0, right: 3, bottom: 3 },
        width: 4,
        height: 4,
        bits_per_pixel: 32,
        compression_flags: ironrdp_pdu::bitmap::Compression::BITMAP_COMPRESSION,
        compressed_data_header: None,
        bitmap_data: &bitmap_data,
    };
    let error = ironrdp_core::encode_vec(&data).unwrap_err();
    match error.kind() {
        ironrdp_core::EncodeErrorKind::InvalidField { field, reason, .. } => {
            assert_eq!(*field, BitmapField::DataLength.name());
            assert_eq!(*reason, BitmapField::DataLength.reason());
        }
        other => panic!("{other:?}"),
    }
}

#[test]
fn bitmaps_of_any_content_are_encoded() {
    for data in [noise(1920, 64), picture(1920, 64), vec![7u8; 1920 * 64 * 4]] {
        let update = bitmap(0, 0, 1920, 64, PixelFormat::BgrA32, data.clone());
        let mut output = vec![0u8; 1024 * 1024];
        let len = BitmapEncoder::new().encode(&update, &mut output).unwrap();
        let decoded = BitmapUpdateData::decode(&mut ReadCursor::new(&output[..len])).unwrap();
        assert_eq!(decoded.rectangles.len(), 8);
        let sent = BitmapHandler::new().handle(&update).unwrap();
        assert_eq!(sent.data, output[..len].to_vec());
    }
}

#[test]
fn bitmap_encoder_says_when_the_room_is_short() {
    let update = bitmap(0, 0, 8, 8, PixelFormat::BgrA32, picture(8, 8));
    let mut none: Vec<u8> = Vec::new();
    assert_eq!(
        BitmapEncoder::new().encode(&update, &mut none),
        Err(BitmapEncodeError::Encode(EncodeFailure::NotEnoughBytes))
    );
    let mut little = vec![0u8; 16];
    assert_eq!(
        BitmapEncoder::new().encode(&update, &mut little),
        Err(BitmapEncodeError::Encode(EncodeFailure::NotEnoughBytes))
    );
}

#[test]
fn bitmap_encoder_leaves_the_rest_of_its_output() {
    let update = bitmap(0, 0, 8, 8, PixelFormat::BgrA32, vec![0u8; 256]);
    let mut output = vec![0xAAu8; 4096];
    let len = BitmapEncoder::new().encode(&update, &mut output).unwrap();
    assert!(output[len..].iter().all(|&b| b == 0xAA));
}

#[test]
fn every_format_keeps_its_colours() {
    let raw = picture(16, 4);
    let formats = [
        (PixelFormat::ARgb32, [1, 2, 3]),
        (PixelFormat::XRgb32, [1, 2, 3]),
        (PixelFormat::RgbA32, [0, 1, 2]),
        (PixelFormat::RgbX32, [0, 1, 2]),
        (PixelFormat::ABgr32, [3, 2, 1]),
        (PixelFormat::XBgr32, [3, 2, 1]),
        (PixelFormat::BgrA32, [2, 1, 0]),
        (PixelFormat::BgrX32, [2, 1, 0]),
    ];
    for (format, offsets) in formats {
        let update = bitmap(0, 0, 16, 4, format, raw.clone());
        let mut output = vec![0u8; 4096];
        let len = BitmapEncoder::new().encode(&update, &mut output).unwrap();
        let mut cursor = ReadCursor::new(&output[..len]);
        let decoded = BitmapUpdateData::decode(&mut cursor).unwrap();
        assert_eq!(decoded.rectangles.len(), 1);
        assert_eq!(
            decode_rgb(decoded.rectangles[0].bitmap_data, 16, 4),
            rgb_bottom_up(&raw, 16, 4, offsets)
        );
    }
}

#[test]
fn a_tile_says_where_it_lies() {
    let raw = picture(8, 4);
    let update = bitmap(10, 20, 8, 4, PixelFormat::BgrA32, raw.clone());
    let bytes = NoneHandler.encode_bitmap_tile(&update, 0xFF).unwrap();
    assert_eq!(&bytes[..16], &[10, 0, 20, 0, 17, 0, 23, 0, 8, 0, 4, 0, 32, 0, 1, 4]);
    let mut cursor = ReadCursor::new(&bytes);
    let tile = BitmapData::decode(&mut cursor).unwrap();
    assert_eq!(decode_rgb(tile.bitmap_data, 8, 4), rgb_bottom_up(&raw, 8, 4, [2, 1, 0]));
}

#[test]
fn a_tile_is_quantized() {
    let raw = picture(8, 4);
    let update = bitmap(0, 0, 8, 4, PixelFormat::BgrA32, raw.clone());
    let bytes = NoneHandler.encode_bitmap_tile(&update, 0xF0).unwrap();
    let mut cursor = ReadCursor::new(&bytes);
    let tile = BitmapData::decode(&mut cursor).unwrap();
    let coarse: Vec<u8> = raw.iter().map(|b| b & 0xF0).collect();
    assert_eq!(decode_rgb(tile.bitmap_data, 8, 4), rgb_bottom_up(&coarse, 8, 4, [2, 1, 0]));

    // Quantizing twice changes nothing.
    let again = bitmap(0, 0, 8, 4, PixelFormat::BgrA32, coarse);
    assert_eq!(NoneHandler.encode_bitmap_tile(&again, 0xF0).unwrap(), bytes);
}

#[test]
fn a_tile_without_all_its_rows_is_refused() {
    let update = bitmap(0, 0, 8, 4, PixelFormat::BgrA32, vec![0u8; 8 * 4]);
    assert_eq!(NoneHandler.encode_bitmap_tile(&update, 0xFF), Err(BitmapEncodeError::Rle));
}

#[test]
fn a_tile_that_is_too_long_for_its_length_is_refused() {
    let update = bitmap(0, 0, 320, 128, PixelFormat::BgrA32, noise(320, 128));
    assert_eq!(
        NoneHandler.encode_bitmap_tile(&update, 0xFF),
        Err(BitmapEncodeError::Encode(EncodeFailure::InvalidField(BitmapField::DataLength)))
    );
}

#[test]
fn one_tile_makes_one_update() {
    let update = bitmap(0, 0, 8, 4, PixelFormat::BgrA32, picture(8, 4));
    let tile = NoneHandler.encode_bitmap_tile(&update, 0xFF).unwrap();
    let whole = NoneHandler.handle(&update, 0xFF).unwrap();
    assert_eq!(whole.code, UpdateCode::Bitmap);
    assert_eq!(&whole.data[..4], &[1, 0, 1, 0]);
    assert_eq!(&whole.data[4..], &tile[..]);
}

#[test]
fn rows_come_bottom_up() {
    let data: Vec<u8> = (0..20).collect();
    assert_eq!(
        rows_bottom_up(&data, 8, 4, 3, 0xFF),
        vec![16, 17, 18, 19, 8, 9, 10, 11, 0, 1, 2, 3]
    );
    assert_eq!(rows_bottom_up(&data, 8, 4, 1, 0x02), vec![0, 0, 2, 2]);
    assert_eq!(count_pieces(20, 8), 3);
    assert_eq!(count_pieces(16, 8), 2);
    assert_eq!(count_pieces(0, 8), 0);
}

#[test]
fn packets_hold_what_they_safely_can() {
    let tiles = vec![vec![1u8; 8000], vec![2u8; 6000], vec![3u8; 1000], vec![4u8; 20_000], vec![5u8; 18]];
    let packets = pack_tiles(&tiles);
    let sizes: Vec<usize> = packets.iter().map(|p| p.len()).collect();
    assert_eq!(sizes, vec![14_004, 1004, 20_004, 22]);
    let counts: Vec<u8> = packets.iter().map(|p| p[2]).collect();
    assert_eq!(counts, vec![2, 1, 1, 1]);
    assert!(packets.iter().all(|p| p[0] == 1 && p[1] == 0 && p[3] == 0));

    // Put together again, the packets carry the tiles.
    let carried: Vec<u8> = packets.iter().flat_map(|p| p[4..].to_vec()).collect();
    let all: Vec<u8> = tiles.concat();
    assert_eq!(carried, all);
    assert!(pack_tiles(&Vec::new()).is_empty());
}

#[test]
fn a_bitmap_handler_finds_the_room_it_needs() {
    // Noise grows when it is compressed, so the first buffer is too small by far.
    let mut raw = vec![0u8; 64];
    for (i, b) in raw.iter_mut().enumerate() {
        *b = ((i * 97 + 13) % 256) as u8;
    }
    let update = bitmap(0, 0, 4, 4, PixelFormat::BgrA32, raw.clone());
    let got = BitmapHandler::new().handle(&update).unwrap();
    let mut output = vec![0u8; 4096];
    let len = BitmapEncoder::new().encode(&update, &mut output).unwrap();
    assert_eq!(got.code, UpdateCode::Bitmap);
    assert_eq!(got.data, output[..len].to_vec());

    let odd = bitmap(0, 0, 3, 4, PixelFormat::BgrA32, vec![0u8; 48]);
    assert_eq!(
        BitmapHandler::new().handle(&odd).err(),
        Some(UpdateError::Bitmap(BitmapEncodeError::Encode(EncodeFailure::InvalidField(BitmapField::Width))))
    );
}

#[test]
fn a_bitmap_handler_grows_its_buffer() {
    let update = bitmap(0, 0, 4, 1, PixelFormat::BgrA32, vec![9, 8, 7, 6, 5, 4, 3, 2, 1, 0, 255, 254, 253, 252, 251, 250]);
    let got = BitmapHandler::new().handle(&update).unwrap();
    // Four bytes of header, eighteen of the rectangle, sixteen of pixels: more than twice the data.
    assert_eq!(got.data.len(), 38);
    assert_eq!(&got.data[..4], &[1, 0, 1, 0]);
}

#[test]
fn a_surface_command_has_its_fields() {
    let update = bitmap(1, 2, 3, 4, PixelFormat::BgrA32, vec![0u8; 48]);
    let got = set_surface(&update, 9, &[0xAA, 0xBB]).unwrap();
    assert_eq!(got.code, UpdateCode::SurfaceCommands);
    assert_eq!(
        got.data,
        vec![1, 0, 1, 0, 2, 0, 4, 0, 6, 0, 32, 0, 0, 9, 3, 0, 4, 0, 2, 0, 0, 0, 0xAA, 0xBB]
    );
}

#[test]
fn qoi_images_are_sent_without_alpha() {
    let update = bitmap(0, 0, 4, 2, PixelFormat::BgrA32, picture(4, 2));
    let bytes = qoi_encode(&update).unwrap();
    assert_eq!(&bytes[..4], b"qoif");
    assert_eq!(bytes[12], 3);
    let (header, pixels) = qoi::decode_to_vec(&bytes).unwrap();
    assert_eq!((header.width, header.height), (4, 2));
    let expected: Vec<u8> = update.data.chunks(4).flat_map(|p| vec![p[2], p[1], p[0]]).collect();
    assert_eq!(pixels, expected);

    let sent = QoiHandler::new(7).handle(&update).unwrap();
    assert_eq!(sent.data[13], 7);
    assert_eq!(&sent.data[22..], &bytes[..]);
}

#[test]
fn qoi_takes_the_colours_of_every_format() {
    let raw = picture(4, 2);
    for (format, offsets) in [
        (PixelFormat::ARgb32, [1usize, 2, 3]),
        (PixelFormat::XRgb32, [1, 2, 3]),
        (PixelFormat::RgbA32, [0, 1, 2]),
        (PixelFormat::RgbX32, [0, 1, 2]),
        (PixelFormat::ABgr32, [3, 2, 1]),
        (PixelFormat::XBgr32, [3, 2, 1]),
        (PixelFormat::BgrA32, [2, 1, 0]),
        (PixelFormat::BgrX32, [2, 1, 0]),
    ] {
        let update = bitmap(0, 0, 4, 2, format, raw.clone());
        let (header, pixels) = qoi::decode_to_vec(qoi_encode(&update).unwrap()).unwrap();
        assert_eq!((header.width, header.height), (4, 2));
        let expected: Vec<u8> = raw.chunks(4).flat_map(|p| offsets.map(|o| p[o])).collect();
        assert_eq!(pixels, expected);
    }
}

#[test]
fn qoi_refuses_data_beyond_the_last_row() {
    let mut update = bitmap(0, 0, 4, 2, PixelFormat::RgbA32, picture(4, 2));
    update.data.push(0);
    assert_eq!(qoi_encode(&update), Err(UpdateError::Qoi));
    assert_eq!(QoiHandler::new(7).handle(&update).err(), Some(UpdateError::Qoi));
    let mut handler = QoizHandler::new(8).unwrap();
    assert_eq!(handler.handle(&update).err(), Some(UpdateError::Qoi));
}

#[test]
fn the_compressor_is_called_until_nothing_is_left() {
    let reply = |pending, written| Some(ZstdProgress { pending, written, taken: 9 });
    assert_eq!(flush_step(64, reply(0, 40)), FlushStep::Send(40));
    assert_eq!(flush_step(64, reply(7, 64)), FlushStep::Grow(71));
    assert_eq!(flush_step(64, reply(usize::MAX, 64)), FlushStep::Fail);
    assert_eq!(flush_step(64, None), FlushStep::Fail);
}

#[test]
fn the_stream_has_its_settings() {
    assert_eq!(stream_settings(), vec![ZstdParameter::Level(3), ZstdParameter::LongDistance(true)]);
}

#[test]
fn what_the_compressor_has_written_goes_out() {
    let update = bitmap(1, 2, 3, 4, PixelFormat::BgrA32, vec![0u8; 48]);
    let progress = ZstdProgress { pending: 0, written: 2, taken: 48 };
    let got = flushed_surface(&update, 9, vec![0xAA, 0xBB, 0, 0], progress).unwrap();
    assert_eq!(got.code, UpdateCode::SurfaceCommands);
    assert_eq!(
        got.data,
        vec![1, 0, 1, 0, 2, 0, 4, 0, 6, 0, 32, 0, 0, 9, 3, 0, 4, 0, 2, 0, 0, 0, 0xAA, 0xBB]
    );
}

#[test]
fn qoiz_images_are_one_stream() {
    let update = bitmap(0, 0, 16, 16, PixelFormat::BgrA32, picture(16, 16));
    let qoi_bytes = qoi_encode(&update).unwrap();
    let mut handler = QoizHandler::new(8).unwrap();
    let first = handler.handle(&update).unwrap();
    let second = handler.handle(&update).unwrap();
    assert_eq!(first.data[13], 8);

    let mut decompressor = zstd_safe::DCtx::create();
    for sent in [first, second] {
        let mut out = vec![0u8; qoi_bytes.len()];
        let mut input = zstd_safe::InBuffer::around(&sent.data[22..]);
        let mut output = zstd_safe::OutBuffer::around(out.as_mut_slice());
        decompressor.decompress_stream(&mut output, &mut input).unwrap();
        assert_eq!(output.as_slice(), &qoi_bytes[..]);
    }
}

#[test]
fn nscodec_frames_are_sent_as_they_are_encoded() {
    let update = bitmap(0, 0, 4, 4, PixelFormat::BgrA32, picture(4, 4));
    let frame = ironrdp_nscodec::encoder::encode(
        &update.data,
        4,
        4,
        16,
        ironrdp_graphics::image_processing::PixelFormat::BgrA32,
        3,
    );
    let sent = NsCodecHandler::new(5, 3).handle(&update).unwrap();
    assert_eq!(sent.data[13], 5);
    assert_eq!(&sent.data[22..], &frame[..]);
    assert_eq!(sent.data[22 + 16], 3);
}

#[test]
fn remotefx_tries_again_with_twice_the_room() {
    let update = bitmap(0, 0, 4, 4, PixelFormat::BgrA32, picture(4, 4));
    let size = DesktopSize { width: 640, height: 480 };
    let mut handler = RemoteFxHandler::new(3, size);
    assert_eq!(handler.first_buffer(&update), 64 + 1024);
    assert_eq!(handler.take_desktop_size(), Some(size));
    assert_eq!(handler.take_desktop_size(), None);
    assert_eq!(handler.step(1088, RfxReply::NotEnoughBytes), RfxStep::Retry(2176));
    assert_eq!(handler.step(2176, RfxReply::Written(1500)), RfxStep::Send(1500));
    assert_eq!(handler.step(2176, RfxReply::Failed), RfxStep::Fail);
    let sent = handler.send(&update, &vec![0xAA, 0xBB, 0, 0], 2).unwrap();
    assert_eq!(sent.code, UpdateCode::SurfaceCommands);
    assert_eq!(sent.data, set_surface(&update, 3, &[0xAA, 0xBB]).unwrap().data);
    handler.set_desktop_size(DesktopSize { width: 1, height: 2 });
    assert_eq!(handler.take_desktop_size(), Some(DesktopSize { width: 1, height: 2 }));
    assert_eq!(CodecId::NoCodec.as_u8(), 0);
}

#[test]
fn parts_of_a_bitmap() {
    let update = bitmap(100, 200, 4, 3, PixelFormat::BgrA32, (0..48).collect());
    let part = update.sub(1, 1, 2, 2).unwrap();
    assert_eq!((part.x, part.y, part.width, part.height, part.stride), (101, 201, 2, 2, 16));
    assert_eq!(part.data, (20..44).collect::<Vec<u8>>());
    assert!(update.sub(3, 0, 2, 1).is_none());
    assert!(update.sub(0, 2, 1, 2).is_none());
}

#[test]
fn a_framebuffer_takes_rectangles_and_no_more() {
    let first = bitmap(0, 0, 4, 3, PixelFormat::BgrA32, vec![0u8; 48]);
    let mut fb = Framebuffer::from_bitmap(first).unwrap();
    let next = bitmap(0, 0, 4, 3, PixelFormat::BgrA32, vec![9u8; 48]);
    fb.update_diffs(&next, &vec![Rect { x: 1, y: 1, width: 2, height: 1 }]);
    let mut expected = vec![0u8; 48];
    expected[20..28].fill(9);
    assert_eq!(fb.data, expected);

    let other = bitmap(0, 0, 4, 3, PixelFormat::RgbA32, vec![7u8; 48]);
    fb.update_diffs(&other, &vec![Rect { x: 0, y: 0, width: 4, height: 3 }]);
    assert_eq!(fb.data, expected);

    let aside = bitmap(1, 0, 4, 3, PixelFormat::BgrA32, vec![0u8; 48]);
    assert!(Framebuffer::from_bitmap(aside).is_none());
    assert_eq!(PixelFormat::XBgr32.bytes_per_pixel(), 4);
}

#[test]
fn updates_fall_into_fragments() {
    let small = UpdateFragmenter::new(UpdateCode::DefaultPointer, Vec::new());
    let parts = small.fragments();
    assert_eq!(parts.len(), 1);
    assert_eq!(parts[0].fragmentation, Fragmentation::Single);

    let data: Vec<u8> = (0..40_000u32).map(|i| (i % 256) as u8).collect();
    let large = UpdateFragmenter::new(UpdateCode::Bitmap, data.clone());
    let parts = large.fragments();
    let kinds: Vec<Fragmentation> = parts.iter().map(|p| p.fragmentation).collect();
    assert_eq!(kinds, vec![Fragmentation::First, Fragmentation::Next, Fragmentation::Last]);
    let joined: Vec<u8> = parts.iter().flat_map(|p| data[p.from..p.to].to_vec()).collect();
    assert_eq!(joined, data);
    assert!(parts.iter().all(|p| p.to - p.from <= 16_374));
}
