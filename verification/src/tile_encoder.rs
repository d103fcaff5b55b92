//! Tiles as rectangles of a bitmap update, and the packets that carry them.

use vstd::prelude::*;

use crate::bitmap_encoder::{BitmapEncodeError, BITS_PER_PIXEL, COMPRESSED_WITHOUT_HEADER};
use crate::fast_path::{UpdateCode, UpdateFragmenter};
use crate::frame::BitmapUpdate;
use crate::graphics::{encode_planes, pixel_stream, stream_limit, ChannelOrder};
use crate::packets::{lemma_joined_one, packet_of, views};
use crate::pdu::{
    bitmap_header_bytes, lemma_record_fields, write_bitmap_data, BitmapField, BitmapRecord,
    EncodeFailure, BITMAP_RECORD_SIZE,
};
use crate::rows::{
    bottom_up, count_pieces, lemma_bottom_up_image, lemma_bottom_up_len, masked, piece_count,
    rows_bottom_up, whole_pixels,
};
use crate::wire::word;

verus! {

/// Room beyond four bytes for every pixel that the compression of a tile may take.
pub const TILE_SLACK: usize = 1024;

/// Room that is left for what precedes the pixels of a tile.
pub const RECORD_SLACK: usize = 128;

/// Rows that `data` holds of an image of the given height.
pub open spec fn rows_of(data: Seq<u8>, stride: int, height: int) -> int {
    let n = piece_count(data.len() as int, stride);
    if n < height {
        n
    } else {
        height
    }
}

/// The quantized pixels of an image, bottom row first.
pub open spec fn quantized(data: Seq<u8>, stride: int, width: int, height: int, mask: u8) -> Seq<u8> {
    masked(bottom_up(data, stride, width * 4, rows_of(data, stride, height)), mask)
}

/// The compressed pixels of an image, if they fit in the room that a tile has.
pub open spec fn tile_stream(data: Seq<u8>, stride: int, width: int, height: int, mask: u8) -> Option<
    Seq<u8>,
> {
    match pixel_stream(
        width as nat,
        height as nat,
        quantized(data, stride, width, height, mask),
        2,
        1,
        0,
    ) {
        Some(s) if s.len() <= width * height * 4 + TILE_SLACK => Some(s),
        _ => None,
    }
}

/// What a tile at the given place says of its pixels.
pub open spec fn tile_record(x: int, y: int, width: int, height: int) -> BitmapRecord {
    BitmapRecord {
        left: x as u16,
        top: y as u16,
        right: (x + width - 1) as u16,
        bottom: (y + height - 1) as u16,
        width: width as u16,
        height: height as u16,
        bits_per_pixel: BITS_PER_PIXEL,
        flags: COMPRESSED_WITHOUT_HEADER,
    }
}

/// A tile on the wire.
pub open spec fn tile_bytes_at(
    x: int,
    y: int,
    width: int,
    height: int,
    stride: int,
    data: Seq<u8>,
    mask: u8,
) -> Result<Seq<u8>, BitmapEncodeError> {
    match tile_stream(data, stride, width, height, mask) {
        None => Err(BitmapEncodeError::Rle),
        Some(s) => if s.len() > u16::MAX {
            Err(BitmapEncodeError::Encode(EncodeFailure::InvalidField(BitmapField::DataLength)))
        } else {
            Ok(tile_record(x, y, width, height).bytes(s))
        },
    }
}

impl BitmapUpdate {
    /// The bitmap as one tile on the wire.
    pub open spec fn tile_bytes(self, mask: u8) -> Result<Seq<u8>, BitmapEncodeError> {
        tile_bytes_at(
            self.x as int,
            self.y as int,
            self.width as int,
            self.height as int,
            self.stride as int,
            self.data@,
            mask,
        )
    }

    /// Whether the bitmap can be compressed as a tile at all: its rows hold whole pixels and its
    /// edges are coordinates.
    pub open spec fn tileable(self) -> bool {
        &&& self.nonzero()
        &&& self.on_desktop()
        &&& self.width * self.height * 4 + TILE_SLACK + RECORD_SLACK <= usize::MAX
        &&& whole_pixels(
            self.data@,
            self.stride as int,
            self.width * 4,
            rows_of(self.data@, self.stride as int, self.height as int),
        )
    }
}

/// Whether tiles of up to this size always fit in the room they have and in their length field.
pub open spec fn safe_tile(width: int, height: int) -> bool {
    &&& stream_limit(width, height) <= width * height * 4 + TILE_SLACK
    &&& stream_limit(width, height) <= u16::MAX
}

/// Whether the outcome is the one the specification gives.
pub open spec fn encodes(r: Result<Vec<u8>, BitmapEncodeError>, bytes: Result<Seq<u8>, BitmapEncodeError>) -> bool {
    match r {
        Ok(v) => bytes == Ok::<Seq<u8>, BitmapEncodeError>(v@),
        Err(e) => bytes == Err::<Seq<u8>, BitmapEncodeError>(e),
    }
}

/// Sends bitmaps as compressed rectangles.
#[derive(Debug, Clone, Copy)]
pub struct NoneHandler;

impl NoneHandler {
    /// Quantizes and compresses a bitmap, and puts what the client has to know before it.
    pub fn encode_bitmap_tile(&self, bitmap: &BitmapUpdate, mask: u8) -> (r: Result<
        Vec<u8>,
        BitmapEncodeError,
    >)
        requires
            bitmap.tileable(),
        ensures
            encodes(r, bitmap.tile_bytes(mask)),
            bitmap.complete() && safe_tile(bitmap.width as int, bitmap.height as int) ==> r is Ok,
            r is Ok ==> BITMAP_RECORD_SIZE <= r->Ok_0@.len() <= BITMAP_RECORD_SIZE + u16::MAX,
    {
        let width: usize = bitmap.width as usize;
        let height: usize = bitmap.height as usize;
        let row_len: usize = width * 4;
        proof {
            assert(0 <= bitmap.width * bitmap.height) by (nonlinear_arith);
        }
        let mut compressed: Vec<u8> = vec![0u8; width * height * 4 + TILE_SLACK];
        let room: usize = compressed.len();
        let pieces: usize = count_pieces(bitmap.data.len(), bitmap.stride);
        let n: usize = if pieces < height {
            pieces
        } else {
            height
        };
        let quantized = rows_bottom_up(bitmap.data.as_slice(), bitmap.stride, row_len, n, mask);
        proof {
            lemma_bottom_up_len(bitmap.data@, bitmap.stride as int, row_len as int, n as int);
            if bitmap.complete() {
                lemma_bottom_up_image(
                    bitmap.data@,
                    bitmap.stride as int,
                    width as int,
                    height as int,
                    height as int,
                );
                assert(height * (width * 4) == width * height * 4) by (nonlinear_arith);
            }
        }
        let len: usize = match encode_planes(
            ChannelOrder::Bgrx,
            width,
            height,
            quantized.as_slice(),
            compressed.as_mut_slice(),
        ) {
            Some(len) => len,
            None => {
                return Err(BitmapEncodeError::Rle);
            },
        };
        let data = vstd::slice::slice_subrange(compressed.as_slice(), 0, len);
        assert(data@ =~= tile_stream(
            bitmap.data@,
            bitmap.stride as int,
            width as int,
            height as int,
            mask,
        )->0);
        let record = BitmapRecord {
            left: bitmap.x,
            top: bitmap.y,
            right: bitmap.x + bitmap.width - 1,
            bottom: bitmap.y + bitmap.height - 1,
            width: bitmap.width,
            height: bitmap.height,
            bits_per_pixel: BITS_PER_PIXEL,
            flags: COMPRESSED_WITHOUT_HEADER,
        };
        let mut out: Vec<u8> = vec![0u8; len + RECORD_SLACK];
        match write_bitmap_data(record, data, out.as_mut_slice()) {
            Ok(written) => {
                out.truncate(written);
                assert(out@ =~= record.bytes(data@));
                Ok(out)
            },
            Err(e) => Err(BitmapEncodeError::Encode(e)),
        }
    }

    /// Encodes a bitmap as an update of one rectangle.
    pub fn handle(&mut self, bitmap: &BitmapUpdate, mask: u8) -> (r: Result<
        UpdateFragmenter,
        BitmapEncodeError,
    >)
        requires
            bitmap.tileable(),
        ensures
            *final(self) == *old(self),
            match r {
                Ok(update) => {
                    &&& bitmap.tile_bytes(mask) is Ok
                    &&& update.is(
                        UpdateCode::Bitmap,
                        bitmap_header_bytes(1) + bitmap.tile_bytes(mask)->Ok_0,
                    )
                },
                Err(e) => bitmap.tile_bytes(mask) == Err::<Seq<u8>, BitmapEncodeError>(e),
            },
            bitmap.complete() && safe_tile(bitmap.width as int, bitmap.height as int) ==> r is Ok,
    {
        let tile = match self.encode_bitmap_tile(bitmap, mask) {
            Ok(tile) => tile,
            Err(e) => {
                return Err(e);
            },
        };
        let len: usize = tile.len();
        let ghost bytes = tile@;
        let mut tiles: Vec<Vec<u8>> = Vec::new();
        tiles.push(tile);
        proof {
            lemma_joined_one(bytes);
            assert(views(tiles@).subrange(0, 1) =~= seq![bytes]);
        }
        let packet = packet_of(&tiles, 0, 1, len);
        Ok(UpdateFragmenter::new(UpdateCode::Bitmap, packet))
    }
}

/// The place on the desktop comes through: the destination that stands in the bytes of a tile is that of
/// its bitmap, from its first column and row to its last, each a 16-bit integer with the low byte first.
/// Its size and its 32 bits per pixel follow.
pub proof fn lemma_tile_place(bitmap: BitmapUpdate, mask: u8)
    requires
        bitmap.nonzero(),
        bitmap.on_desktop(),
        bitmap.tile_bytes(mask) is Ok,
    ensures
        ({
            let bytes = bitmap.tile_bytes(mask)->Ok_0;
            &&& bytes.len() >= 18
            &&& bytes[0] + 256 * bytes[1] == bitmap.x
            &&& bytes[2] + 256 * bytes[3] == bitmap.y
            &&& bytes[4] + 256 * bytes[5] == bitmap.x + bitmap.width - 1
            &&& bytes[6] + 256 * bytes[7] == bitmap.y + bitmap.height - 1
            &&& bytes[8] + 256 * bytes[9] == bitmap.width
            &&& bytes[10] + 256 * bytes[11] == bitmap.height
            &&& bytes[12] + 256 * bytes[13] == 32
            &&& bytes[14] + 256 * bytes[15] == 0x0401
            &&& bytes[16] + 256 * bytes[17] == bytes.len() - 18
        }),
{
    let bytes = bitmap.tile_bytes(mask)->Ok_0;
    let width = bitmap.width as int;
    let height = bitmap.height as int;
    let data = tile_stream(bitmap.data@, bitmap.stride as int, width, height, mask)->0;
    let record = tile_record(bitmap.x as int, bitmap.y as int, width, height);
    lemma_record_fields(record, data);
    assert(word(bytes, 0) == record.left && word(bytes, 2) == record.top);
    assert(word(bytes, 4) == record.right && word(bytes, 6) == record.bottom);
    assert(word(bytes, 8) == record.width && word(bytes, 10) == record.height);
    assert(word(bytes, 12) == record.bits_per_pixel && word(bytes, 14) == record.flags);
    assert(word(bytes, 16) == data.len());
}

} // verus!
