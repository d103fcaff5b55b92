//! Bitmap updates of several rectangles, each of which fits in the sixteen bits of its length.

use vstd::prelude::*;

use crate::frame::{holds_image, BitmapUpdate, PixelFormat};
use crate::graphics::{
    channel_order, encode_planes, pixel_stream, stream_limit, stream_owed, stream_written,
};
use crate::pdu::{
    bitmap_header_bytes, write_bitmap_data, write_bitmap_header, written_over, BitmapField,
    BitmapRecord, EncodeFailure, BITMAP_RECORD_SIZE,
};
use crate::rows::{
    bottom_up, count_pieces, lemma_bottom_up_image, lemma_bottom_up_len, lemma_masked_lossless,
    lemma_piece_bounds, piece, piece_count, rows_bottom_up, whole_pixels,
};

verus! {

/// Bits per pixel of every rectangle.
pub const BITS_PER_PIXEL: u16 = 32;

/// Flags of every rectangle: its pixels are compressed and have no header of their own.
pub const COMPRESSED_WITHOUT_HEADER: u16 = 0x0401;

/// Room for the compressed pixels of one rectangle.
pub const CHUNK_ROOM: usize = 65535;

/// Why a bitmap could not be encoded.
#[derive(Debug, Clone, Copy, PartialEq, Eq, Structural)]
pub enum BitmapEncodeError {
    /// The pixels could not be compressed into the room there is.
    Rle,
    /// A protocol unit could not be written.
    Encode(EncodeFailure),
}

/// The stream of pixels in the given format.
pub open spec fn format_stream(
    format: PixelFormat,
    width: nat,
    height: nat,
    pixels: Seq<u8>,
) -> Option<Seq<u8>> {
    pixel_stream(width, height, pixels, format.red(), format.green(), format.blue())
}

impl BitmapUpdate {
    /// Most rows that one rectangle can hold.
    pub open spec fn chunk_height(self) -> int {
        65535int / (self.width * 4)
    }

    /// Bytes of the data that go into one rectangle.
    pub open spec fn chunk_size(self) -> int {
        self.stride * self.chunk_height()
    }

    /// Number of rectangles.
    pub open spec fn chunk_count(self) -> int {
        piece_count(self.data@.len() as int, self.chunk_size())
    }

    /// The data of a rectangle.
    pub open spec fn chunk(self, i: int) -> Seq<u8> {
        piece(self.data@, self.chunk_size(), i)
    }

    /// The first row of a rectangle.
    pub open spec fn chunk_top(self, i: int) -> int {
        self.y + i * self.chunk_height()
    }

    /// Rows of a rectangle, of which a short last one is none.
    pub open spec fn chunk_rows(self, i: int) -> int {
        self.chunk(i).len() as int / self.stride as int
    }

    /// The pixels of a rectangle, bottom row first.
    pub open spec fn chunk_pixels(self, i: int) -> Seq<u8> {
        bottom_up(
            self.chunk(i),
            self.stride as int,
            self.width * 4,
            piece_count(self.chunk(i).len() as int, self.stride as int),
        )
    }

    /// The compressed pixels of a rectangle, if they come out and leave their length a name.
    pub open spec fn chunk_stream(self, i: int) -> Option<Seq<u8>> {
        match format_stream(
            self.format,
            self.width as nat,
            self.chunk_rows(i) as nat,
            self.chunk_pixels(i),
        ) {
            Some(s) if s.len() <= CHUNK_ROOM => Some(s),
            _ => None,
        }
    }

    /// What a rectangle says of its pixels.
    pub open spec fn chunk_record(self, i: int) -> BitmapRecord {
        BitmapRecord {
            left: self.x,
            top: self.chunk_top(i) as u16,
            right: (self.x + self.width - 1) as u16,
            bottom: (self.chunk_top(i) + self.chunk_rows(i) - 1) as u16,
            width: self.width,
            height: self.chunk_rows(i) as u16,
            bits_per_pixel: BITS_PER_PIXEL,
            flags: COMPRESSED_WITHOUT_HEADER,
        }
    }

    /// Whether the edges of a rectangle are coordinates and its rows hold whole pixels.
    pub open spec fn chunk_fits(self, i: int) -> bool {
        &&& 1 <= self.chunk_top(i) + self.chunk_rows(i) <= u16::MAX
        &&& whole_pixels(
            self.chunk(i),
            self.stride as int,
            self.width * 4,
            piece_count(self.chunk(i).len() as int, self.stride as int),
        )
    }

    /// Whether the bitmap can be cut into rectangles at all.
    pub open spec fn chunkable(self) -> bool {
        &&& self.nonzero()
        &&& self.width % 4 == 0 ==> {
            &&& self.width * 4 <= u16::MAX
            &&& self.chunk_size() <= usize::MAX
            &&& self.x + self.width <= u16::MAX
            &&& self.chunk_count() <= u16::MAX ==> forall|i: int|
                0 <= i < self.chunk_count() ==> #[trigger] self.chunk_fits(i)
        }
    }

    /// Whether an update is certain to come out where there is room for it: the width is a multiple of
    /// four, rows do not overlap, and the rectangles can be counted.
    pub open spec fn chunks_owed(self) -> bool {
        &&& self.width % 4 == 0
        &&& self.stride >= self.width * 4
        &&& self.chunk_count() <= u16::MAX
    }

    /// Whether the data is the rows of an image on the desktop and nothing else, of a width that can
    /// be sent as rectangles.
    pub open spec fn filled(self) -> bool {
        &&& self.nonzero()
        &&& self.width % 4 == 0
        &&& self.width * 4 <= u16::MAX
        &&& self.stride >= self.width * 4
        &&& self.chunk_size() <= usize::MAX
        &&& self.data@.len() == self.height * self.stride
        &&& self.x + self.width <= u16::MAX
        &&& self.y + self.height <= u16::MAX
    }

    /// The rectangles from number `i` on, written to `room` bytes.
    pub open spec fn chunks_from(self, i: int, room: int) -> Result<Seq<u8>, BitmapEncodeError>
        decreases self.chunk_count() - i,
    {
        if i >= self.chunk_count() {
            Ok(Seq::empty())
        } else {
            match self.chunk_stream(i) {
                None => Err(BitmapEncodeError::Rle),
                Some(s) => if BITMAP_RECORD_SIZE + s.len() > room {
                    Err(BitmapEncodeError::Encode(EncodeFailure::NotEnoughBytes))
                } else {
                    prepend(
                        self.chunk_record(i).bytes(s),
                        self.chunks_from(i + 1, room - BITMAP_RECORD_SIZE - s.len()),
                    )
                },
            }
        }
    }

    /// The whole update, written to `room` bytes.
    #[verifier::opaque]
    pub open spec fn chunked(self, room: int) -> Result<Seq<u8>, BitmapEncodeError> {
        if self.width % 4 != 0 {
            Err(BitmapEncodeError::Encode(EncodeFailure::InvalidField(BitmapField::Width)))
        } else if self.chunk_count() > u16::MAX {
            Err(BitmapEncodeError::Encode(EncodeFailure::InvalidField(BitmapField::RectangleCount)))
        } else if room < 2 {
            Err(BitmapEncodeError::Encode(EncodeFailure::NotEnoughBytes))
        } else {
            prepend(bitmap_header_bytes(self.chunk_count()), self.chunks_from(0, room - 4))
        }
    }
}

/// A success with `bytes` before it, or the failure.
pub open spec fn prepend(bytes: Seq<u8>, r: Result<Seq<u8>, BitmapEncodeError>) -> Result<
    Seq<u8>,
    BitmapEncodeError,
> {
    match r {
        Ok(rest) => Ok(bytes + rest),
        Err(e) => Err(e),
    }
}

proof fn lemma_prepend_assoc(a: Seq<u8>, b: Seq<u8>, r: Result<Seq<u8>, BitmapEncodeError>)
    ensures
        prepend(a, prepend(b, r)) == prepend(a + b, r),
{
    if let Ok(rest) = r {
        assert(a + (b + rest) =~= (a + b) + rest);
    }
}

proof fn lemma_chunks_step(bitmap: BitmapUpdate, i: int, room: int, done: Seq<u8>)
    requires
        0 <= i < bitmap.chunk_count(),
        bitmap.chunk_stream(i) is Some,
        BITMAP_RECORD_SIZE + bitmap.chunk_stream(i)->0.len() <= room,
    ensures
        prepend(done, bitmap.chunks_from(i, room)) == prepend(
            done + bitmap.chunk_record(i).bytes(bitmap.chunk_stream(i)->0),
            bitmap.chunks_from(i + 1, room - BITMAP_RECORD_SIZE - bitmap.chunk_stream(i)->0.len()),
        ),
{
    let s = bitmap.chunk_stream(i)->0;
    lemma_prepend_assoc(
        done,
        bitmap.chunk_record(i).bytes(s),
        bitmap.chunks_from(i + 1, room - BITMAP_RECORD_SIZE - s.len()),
    );
}

proof fn lemma_written_between(
    after: Seq<u8>,
    prev: Seq<u8>,
    before: Seq<u8>,
    bytes: Seq<u8>,
    pos: int,
    n: int,
)
    requires
        0 <= pos <= n <= prev.len(),
        prev.len() == before.len(),
        n == pos + bytes.len(),
        after == prev.take(pos) + bytes + prev.skip(n),
        prev.skip(pos) == before.skip(pos),
    ensures
        after.take(n) == prev.take(pos) + bytes,
        after.skip(n) == before.skip(n),
{
    assert(after.take(n) =~= prev.take(pos) + bytes);
    assert forall|k: int| 0 <= k < prev.len() - n implies after.skip(n)[k] == before.skip(n)[k] by {
        assert(prev.skip(n)[k] == prev.skip(pos)[n - pos + k]);
        assert(before.skip(n)[k] == before.skip(pos)[n - pos + k]);
    }
    assert(after.skip(n) =~= before.skip(n));
}

/// Compresses pixels in the given format to the front of `dst`.
pub fn encode_iter(
    format: PixelFormat,
    width: usize,
    height: usize,
    pixels: &[u8],
    dst: &mut [u8],
) -> (r: Option<usize>)
    requires
        width > 0,
        pixels@.len() % 4 == 0,
        old(dst)@.len() > 0,
    ensures
        stream_written(
            r,
            format_stream(format, width as nat, height as nat, pixels@),
            final(dst)@,
            old(dst)@,
        ),
        r is Some ==> r->0 <= stream_limit(width as int, height as int),
        stream_owed(
            width as int,
            height as int,
            (pixels@.len() / 4) as int,
            old(dst)@.len() as int,
        ) ==> r is Some,
{
    encode_planes(channel_order(format), width, height, pixels, dst)
}

/// Encodes bitmaps as updates of several rectangles.
#[derive(Debug, Clone)]
pub struct BitmapEncoder {
    buffer: Vec<u8>,
}

impl BitmapEncoder {
    /// Whether the buffer has room for the pixels of one rectangle.
    pub closed spec fn wf(self) -> bool {
        self.buffer@.len() == CHUNK_ROOM
    }

    /// An encoder with its buffer.
    pub fn new() -> (r: BitmapEncoder)
        ensures
            r.wf(),
    {
        BitmapEncoder { buffer: vec![0u8; CHUNK_ROOM] }
    }

    /// Compresses the rectangle of number `i` into the buffer.
    fn compress_chunk(&mut self, bitmap: &BitmapUpdate, i: usize) -> (r: Option<(BitmapRecord, usize)>)
        requires
            old(self).wf(),
            bitmap.chunkable(),
            bitmap.width % 4 == 0,
            bitmap.chunk_count() <= u16::MAX,
            i < bitmap.chunk_count(),
        ensures
            final(self).wf(),
            match r {
                Some((record, size)) => {
                    &&& record == bitmap.chunk_record(i as int)
                    &&& bitmap.chunk_stream(i as int) == Some(final(self).buffer@.take(size as int))
                    &&& size <= CHUNK_ROOM
                },
                None => bitmap.chunk_stream(i as int) is None,
            },
            bitmap.chunks_owed() ==> r is Some,
    {
        let width: usize = bitmap.width as usize;
        let row_len: usize = width * 4;
        let stride: usize = bitmap.stride;
        let len: usize = bitmap.data.len();
        let chunk_height: usize = 65535 / row_len;
        assert(chunk_height == bitmap.chunk_height());
        assert(bitmap.chunk_fits(i as int));
        proof {
            lemma_chunk_size(*bitmap);
            lemma_piece_bounds(len as int, bitmap.chunk_size(), i as int);
            assert(0 <= i * chunk_height) by (nonlinear_arith)
                requires
                    0 <= i,
                    0 <= chunk_height,
            ;
        }
        let chunk_size: usize = stride * chunk_height;
        let start: usize = i * chunk_size;
        let end: usize = if len - start <= chunk_size {
            len
        } else {
            start + chunk_size
        };
        let chunk = vstd::slice::slice_subrange(bitmap.data.as_slice(), start, end);
        assert(chunk@ == bitmap.chunk(i as int));
        let rows: usize = chunk.len() / stride;
        let top: usize = bitmap.y as usize + i * chunk_height;
        let n: usize = count_pieces(chunk.len(), stride);
        let pixels = rows_bottom_up(chunk, stride, row_len, n, 0xFF);
        proof {
            lemma_masked_lossless(bitmap.chunk_pixels(i as int));
            lemma_bottom_up_len(chunk@, stride as int, row_len as int, n as int);
            if bitmap.chunks_owed() {
                lemma_chunk_pixels(*bitmap, i as int);
                lemma_chunk_limit(*bitmap, i as int);
            }
        }
        let size: usize = match encode_iter(
            bitmap.format,
            width,
            rows,
            pixels.as_slice(),
            self.buffer.as_mut_slice(),
        ) {
            None => {
                return None;
            },
            Some(size) => size,
        };
        let record = BitmapRecord {
            left: bitmap.x,
            top: top as u16,
            right: bitmap.x + bitmap.width - 1,
            bottom: (top + rows - 1) as u16,
            width: bitmap.width,
            height: rows as u16,
            bits_per_pixel: BITS_PER_PIXEL,
            flags: COMPRESSED_WITHOUT_HEADER,
        };
        proof {
            let stream = format_stream(
                bitmap.format,
                width as nat,
                rows as nat,
                bitmap.chunk_pixels(i as int),
            )->0;
            assert(self.buffer@.take(size as int) =~= stream);
        }
        Some((record, size))
    }

    /// Writes the rectangle of number `i` at `pos`.
    fn encode_chunk(&mut self, bitmap: &BitmapUpdate, i: usize, output: &mut [u8], pos: usize) -> (r:
        Result<usize, BitmapEncodeError>)
        requires
            old(self).wf(),
            bitmap.chunkable(),
            bitmap.width % 4 == 0,
            bitmap.chunk_count() <= u16::MAX,
            i < bitmap.chunk_count(),
            pos <= old(output)@.len(),
        ensures
            final(self).wf(),
            final(output)@.len() == old(output)@.len(),
            match r {
                Ok(n) => {
                    &&& bitmap.chunk_stream(i as int) is Some
                    &&& n == pos + BITMAP_RECORD_SIZE + bitmap.chunk_stream(i as int)->0.len()
                    &&& n <= old(output)@.len()
                    &&& final(output)@ == old(output)@.take(pos as int) + bitmap.chunk_record(
                        i as int,
                    ).bytes(bitmap.chunk_stream(i as int)->0) + old(output)@.skip(n as int)
                },
                Err(BitmapEncodeError::Rle) => bitmap.chunk_stream(i as int) is None
                    && !bitmap.chunks_owed(),
                Err(BitmapEncodeError::Encode(EncodeFailure::NotEnoughBytes)) => {
                    &&& bitmap.chunk_stream(i as int) is Some
                    &&& BITMAP_RECORD_SIZE + bitmap.chunk_stream(i as int)->0.len() > old(output)@.len()
                        - pos
                },
                Err(BitmapEncodeError::Encode(EncodeFailure::InvalidField(_))) => false,
            },
    {
        let total: usize = output.len();
        match self.compress_chunk(bitmap, i) {
            None => Err(BitmapEncodeError::Rle),
            Some((record, size)) => {
                let stream = vstd::slice::slice_subrange(self.buffer.as_slice(), 0, size);
                assert(stream@ == self.buffer@.take(size as int));
                let (_, rest) = output.split_at_mut(pos);
                assert(rest@.len() == total - pos);
                match write_bitmap_data(record, stream, rest) {
                    Ok(n) => {
                        assert(output@ =~= old(output)@.take(pos as int) + record.bytes(stream@)
                            + old(output)@.skip(pos + n));
                        Ok(pos + n)
                    },
                    Err(e) => Err(BitmapEncodeError::Encode(e)),
                }
            },
        }
    }

    /// Writes a bitmap to the front of `output` as an update of as many rectangles as it takes, and
    /// says how many bytes that is.
    ///
    /// The width has to be a multiple of four. A bitmap that is refused for its fields leaves
    /// everything as it was; one whose rows do not overlap is refused only for want of room.
    pub fn encode(&mut self, bitmap: &BitmapUpdate, output: &mut [u8]) -> (r: Result<
        usize,
        BitmapEncodeError,
    >)
        requires
            old(self).wf(),
            bitmap.chunkable(),
            bitmap.width % 4 == 0 && bitmap.chunk_count() <= u16::MAX ==> old(output)@.len() < 2 || old(
                output,
            )@.len() >= 4,
        ensures
            final(self).wf(),
            final(output)@.len() == old(output)@.len(),
            bitmap.width % 4 != 0 || bitmap.chunk_count() > u16::MAX || old(output)@.len() < 2 ==> {
                &&& final(output)@ == old(output)@
                &&& *final(self) == *old(self)
            },
            bitmap.chunks_owed() ==> match r {
                Ok(_) => true,
                Err(e) => e == BitmapEncodeError::Encode(EncodeFailure::NotEnoughBytes) && old(
                    output,
                )@.len() < chunked_limit(*bitmap),
            },
            match r {
                Ok(n) => {
                    &&& bitmap.chunked(old(output)@.len() as int) is Ok
                    &&& n == bitmap.chunked(old(output)@.len() as int)->Ok_0.len()
                    &&& written_over(
                        final(output)@,
                        old(output)@,
                        bitmap.chunked(old(output)@.len() as int)->Ok_0,
                    )
                },
                Err(e) => bitmap.chunked(old(output)@.len() as int) == Err::<Seq<u8>, _>(e),
            },
    {
        proof {
            reveal(BitmapUpdate::chunked);
        }
        if bitmap.width % 4 != 0 {
            return Err(
                BitmapEncodeError::Encode(EncodeFailure::InvalidField(BitmapField::Width)),
            );
        }
        let room: usize = output.len();
        let chunk_height: usize = 65535 / (bitmap.width as usize * 4);
        proof {
            lemma_chunk_size(*bitmap);
            lemma_chunk_total(*bitmap);
            if room >= 4 {
                lemma_chunked_room(*bitmap, room as int, room as int);
            }
        }
        let count: usize = count_pieces(bitmap.data.len(), bitmap.stride * chunk_height);
        assert(count == bitmap.chunk_count());
        if count > 65535 {
            return Err(
                BitmapEncodeError::Encode(EncodeFailure::InvalidField(BitmapField::RectangleCount)),
            );
        }
        let ghost before = output@;
        let mut pos: usize = match write_bitmap_header(count as u16, output) {
            None => {
                return Err(BitmapEncodeError::Encode(EncodeFailure::NotEnoughBytes));
            },
            Some(n) => n,
        };
        let mut i: usize = 0;
        assert(output@.take(4) =~= bitmap_header_bytes(count as int));
        assert(output@.skip(4) =~= before.skip(4));
        while i < count
            invariant
                i <= count,
                count == bitmap.chunk_count(),
                count <= u16::MAX,
                self.wf(),
                bitmap.chunkable(),
                bitmap.width % 4 == 0,
                room == output@.len(),
                before == old(output)@,
                room == before.len(),
                4 <= pos <= room,
                bitmap.chunked(room as int) == Err::<Seq<u8>, _>(
                    BitmapEncodeError::Encode(EncodeFailure::NotEnoughBytes),
                ) ==> room < chunked_limit(*bitmap),
                output@.skip(pos as int) == before.skip(pos as int),
                bitmap.chunked(room as int) == prepend(
                    output@.take(pos as int),
                    bitmap.chunks_from(i as int, room - pos),
                ),
            decreases count - i,
        {
            let ghost prev = output@;
            match self.encode_chunk(bitmap, i, output, pos) {
                Ok(n) => {
                    proof {
                        let bytes = bitmap.chunk_record(i as int).bytes(
                            bitmap.chunk_stream(i as int)->0,
                        );
                        lemma_chunks_step(*bitmap, i as int, room - pos, prev.take(pos as int));
                        lemma_written_between(output@, prev, before, bytes, pos as int, n as int);
                    }
                    pos = n;
                },
                Err(e) => {
                    return Err(e);
                },
            }
            i = i + 1;
        }
        proof {
            let done = output@.take(pos as int);
            assert(done + Seq::<u8>::empty() =~= done);
            assert(output@ =~= done + before.skip(pos as int)) by {
                assert forall|k: int| pos <= k < room implies output@[k] == before[k] by {
                    assert(output@.skip(pos as int)[k - pos] == before.skip(pos as int)[k - pos]);
                }
            }
        }
        Ok(pos)
    }
}

/// A rectangle takes some bytes of the data, and no more than there can be.
/// A rectangle holds one row at least.
pub proof fn lemma_chunk_size(bitmap: BitmapUpdate)
    requires
        bitmap.nonzero(),
        bitmap.width * 4 <= u16::MAX,
    ensures
        bitmap.chunk_size() >= bitmap.stride,
        bitmap.chunk_height() >= 1,
        bitmap.chunk_size() == bitmap.chunk_height() * bitmap.stride,
{
    let h = bitmap.chunk_height();
    assert(h >= 1) by (nonlinear_arith)
        requires
            h == 65535int / (bitmap.width * 4),
            0 < bitmap.width * 4 <= 65535,
    ;
    assert(bitmap.stride * h >= bitmap.stride && bitmap.stride * h == h * bitmap.stride) by (nonlinear_arith)
        requires
            h >= 1,
    ;
}

/// The rectangles of a bitmap can be counted, and the limit of its update covers the header.
proof fn lemma_chunk_total(bitmap: BitmapUpdate)
    requires
        bitmap.nonzero(),
        bitmap.width * 4 <= u16::MAX,
    ensures
        bitmap.chunk_count() >= 0,
        chunked_limit(bitmap) >= 4,
{
    lemma_chunk_size(bitmap);
    vstd::arithmetic::div_mod::lemma_div_pos_is_pos(
        bitmap.data@.len() + bitmap.chunk_size() - 1,
        bitmap.chunk_size(),
    );
}

/// A rectangle has no more rows than belong to one, and its compressed pixels always fit in the room
/// for them.
pub proof fn lemma_chunk_limit(bitmap: BitmapUpdate, i: int)
    requires
        bitmap.nonzero(),
        bitmap.width % 4 == 0,
        bitmap.width * 4 <= u16::MAX,
        0 <= i < bitmap.chunk_count(),
    ensures
        0 <= bitmap.chunk_rows(i) <= bitmap.chunk_height(),
        bitmap.width * bitmap.chunk_rows(i) * 4 <= 65535,
        stream_limit(bitmap.width as int, bitmap.chunk_rows(i)) <= CHUNK_ROOM,
{
    let width = bitmap.width as int;
    let stride = bitmap.stride as int;
    let height = bitmap.chunk_height();
    let len = bitmap.chunk(i).len() as int;
    let rows = bitmap.chunk_rows(i);
    lemma_chunk_size(bitmap);
    lemma_piece_bounds(bitmap.data@.len() as int, bitmap.chunk_size(), i);
    vstd::arithmetic::div_mod::lemma_div_pos_is_pos(len, stride);
    vstd::arithmetic::div_mod::lemma_div_is_ordered(len, height * stride, stride);
    vstd::arithmetic::div_mod::lemma_div_multiples_vanish(height, stride);
    assert(stride * height == height * stride) by (nonlinear_arith);
    assert(rows <= height);
    vstd::arithmetic::div_mod::lemma_fundamental_div_mod(65535, width * 4);
    assert(height * width * 4 <= 65535) by (nonlinear_arith)
        requires
            65535 == (width * 4) * height + 65535int % (width * 4),
            65535int % (width * 4) >= 0,
    ;
    assert(rows * width <= height * width) by (nonlinear_arith)
        requires
            rows <= height,
            width >= 0,
    ;
    assert(4 * rows <= rows * width) by (nonlinear_arith)
        requires
            rows >= 0,
            width >= 4,
    ;
    assert(15 * (rows * (width / 15)) <= rows * width) by (nonlinear_arith)
        requires
            rows >= 0,
            width >= 0,
    ;
    assert(rows * (width + width / 15 + 1) == rows * width + rows * (width / 15) + rows)
        by (nonlinear_arith);
}

proof fn lemma_full_rows(data: Seq<u8>, stride: int, row_len: int, n: int, rows: int)
    requires
        0 <= row_len <= stride,
        0 < stride,
        0 <= rows,
        rows * stride <= data.len(),
        rows <= n <= piece_count(data.len() as int, stride),
    ensures
        bottom_up(data, stride, row_len, n).len() >= rows * row_len,
    decreases n,
{
    if n > rows {
        lemma_full_rows(data, stride, row_len, n - 1, rows);
    } else if n > 0 {
        assert((n - 1) * stride + stride == n * stride) by (nonlinear_arith);
        assert((n - 1) * row_len + row_len == n * row_len) by (nonlinear_arith);
        lemma_piece_bounds(data.len() as int, stride, n - 1);
        lemma_full_rows(data, stride, row_len, n - 1, rows - 1);
    } else {
        assert(rows * row_len == 0) by (nonlinear_arith)
            requires
                rows == 0,
        ;
    }
}

/// Every pixel of a rectangle's rows is among those that are compressed.
pub proof fn lemma_chunk_pixels(bitmap: BitmapUpdate, i: int)
    requires
        bitmap.width > 0,
        bitmap.stride >= bitmap.width * 4,
    ensures
        bitmap.chunk_pixels(i).len() as int / 4 >= bitmap.width * bitmap.chunk_rows(i),
{
    let data = bitmap.chunk(i);
    let stride = bitmap.stride as int;
    let rows = bitmap.chunk_rows(i);
    let count = piece_count(data.len() as int, stride);
    let row_len = bitmap.width * 4;
    vstd::arithmetic::div_mod::lemma_fundamental_div_mod(data.len() as int, stride);
    vstd::arithmetic::div_mod::lemma_div_is_ordered(
        data.len() as int,
        data.len() + stride - 1,
        stride,
    );
    vstd::arithmetic::div_mod::lemma_div_pos_is_pos(data.len() as int, stride);
    assert(rows * stride == stride * rows) by (nonlinear_arith);
    lemma_full_rows(data, stride, row_len, count, rows);
    assert(rows * row_len == 4 * (bitmap.width * rows)) by (nonlinear_arith)
        requires
            row_len == bitmap.width * 4,
    ;
}

/// A bitmap with data has rectangles.
pub proof fn lemma_chunk_count(bitmap: BitmapUpdate)
    requires
        bitmap.nonzero(),
        bitmap.width * 4 <= u16::MAX,
        bitmap.data@.len() > 0,
    ensures
        bitmap.chunk_count() >= 1,
{
    lemma_chunk_size(bitmap);
    let s = bitmap.chunk_size();
    let len = bitmap.data@.len() as int;
    assert((len + s - 1) / s >= 1) by (nonlinear_arith)
        requires
            len >= 1,
            s >= 1,
    ;
}

/// A rectangle of a filled bitmap has rows, all of them whole: as many as belong to one, and the last
/// what is left.
pub proof fn lemma_filled_chunk(bitmap: BitmapUpdate, i: int)
    requires
        bitmap.filled(),
        0 <= i < bitmap.chunk_count(),
    ensures
        0 <= i * bitmap.chunk_height() < bitmap.height,
        bitmap.chunk_rows(i) == if (i + 1) * bitmap.chunk_height() <= bitmap.height {
            bitmap.chunk_height()
        } else {
            bitmap.height - i * bitmap.chunk_height()
        },
        bitmap.chunk_rows(i) >= 1,
        bitmap.chunk(i).len() == bitmap.chunk_rows(i) * bitmap.stride,
        piece_count(bitmap.chunk(i).len() as int, bitmap.stride as int) == bitmap.chunk_rows(i),
        holds_image(
            bitmap.chunk(i),
            bitmap.stride as int,
            bitmap.width as int,
            bitmap.chunk_rows(i),
        ),
        i * bitmap.chunk_size() == i * bitmap.chunk_height() * bitmap.stride,
        bitmap.chunk_fits(i),
{
    let stride = bitmap.stride as int;
    let height = bitmap.height as int;
    let h = bitmap.chunk_height();
    let size = bitmap.chunk_size();
    let len = bitmap.data@.len() as int;
    lemma_chunk_size(bitmap);
    lemma_piece_bounds(len, size, i);
    assert(i * size == i * h * stride) by (nonlinear_arith)
        requires
            size == h * stride,
    ;
    assert((i + 1) * size == (i + 1) * h * stride) by (nonlinear_arith)
        requires
            size == h * stride,
    ;
    assert(0 <= i * h < height) by (nonlinear_arith)
        requires
            0 <= i,
            0 < h,
            0 < stride,
            i * h * stride < height * stride,
    ;
    assert((i + 1) * h == i * h + h) by (nonlinear_arith);
    assert((i + 1) * h <= height <==> (i + 1) * h * stride <= height * stride) by (nonlinear_arith)
        requires
            0 < stride,
    ;
    let rows = if (i + 1) * h <= height {
        h
    } else {
        height - i * h
    };
    assert((height - i * h) * stride == height * stride - i * h * stride) by (nonlinear_arith);
    assert(bitmap.chunk(i).len() == rows * stride);
    vstd::arithmetic::div_mod::lemma_fundamental_div_mod_converse(rows * stride, stride, rows, 0);
    vstd::arithmetic::div_mod::lemma_fundamental_div_mod_converse(
        rows * stride + stride - 1,
        stride,
        rows,
        stride - 1,
    );
    assert((rows - 1) * stride + stride == rows * stride) by (nonlinear_arith);
    lemma_bottom_up_image(bitmap.chunk(i), stride, bitmap.width as int, rows, rows);
}

/// A filled bitmap can be cut into rectangles, and its update is certain to come out where there is
/// room for it.
pub proof fn lemma_filled(bitmap: BitmapUpdate)
    requires
        bitmap.filled(),
    ensures
        bitmap.chunkable(),
        bitmap.chunks_owed(),
{
    assert(bitmap.height * bitmap.stride > 0) by (nonlinear_arith)
        requires
            bitmap.height > 0,
            bitmap.stride > 0,
    ;
    lemma_chunk_count(bitmap);
    lemma_chunk_size(bitmap);
    let last = bitmap.chunk_count() - 1;
    lemma_filled_chunk(bitmap, last);
    assert(last <= last * bitmap.chunk_height()) by (nonlinear_arith)
        requires
            0 <= last,
            1 <= bitmap.chunk_height(),
    ;
    assert forall|i: int| 0 <= i < bitmap.chunk_count() implies #[trigger] bitmap.chunk_fits(i) by {
        lemma_filled_chunk(bitmap, i);
    }
}

/// Bytes that an update of the bitmap never exceeds.
pub open spec fn chunked_limit(bitmap: BitmapUpdate) -> int {
    4 + bitmap.chunk_count() * (BITMAP_RECORD_SIZE + CHUNK_ROOM)
}

proof fn lemma_chunks_room(bitmap: BitmapUpdate, i: int, room: int, more: int)
    requires
        0 <= i,
        room <= more,
    ensures
        bitmap.chunks_from(i, room) == Err::<Seq<u8>, _>(
            BitmapEncodeError::Encode(EncodeFailure::NotEnoughBytes),
        ) ==> room < (bitmap.chunk_count() - i) * (BITMAP_RECORD_SIZE + CHUNK_ROOM),
        bitmap.chunks_from(i, room) != Err::<Seq<u8>, _>(
            BitmapEncodeError::Encode(EncodeFailure::NotEnoughBytes),
        ) ==> bitmap.chunks_from(i, more) == bitmap.chunks_from(i, room),
    decreases bitmap.chunk_count() - i,
{
    if i < bitmap.chunk_count() {
        if let Some(s) = bitmap.chunk_stream(i) {
            let size = BITMAP_RECORD_SIZE + s.len();
            assert((bitmap.chunk_count() - i) * 65553 == (bitmap.chunk_count() - i - 1) * 65553 + 65553)
                by (nonlinear_arith);
            if size <= room {
                lemma_chunks_room(bitmap, i + 1, room - size, more - size);
            } else {
                assert((bitmap.chunk_count() - i - 1) * 65553 >= 0) by (nonlinear_arith)
                    requires
                        bitmap.chunk_count() - i >= 1,
                ;
            }
        }
    }
}

/// More room changes nothing but a failure for want of room, and that failure comes only below the
/// limit.
pub proof fn lemma_chunked_room(bitmap: BitmapUpdate, room: int, more: int)
    requires
        4 <= room <= more,
    ensures
        bitmap.chunked(room) == Err::<Seq<u8>, _>(
            BitmapEncodeError::Encode(EncodeFailure::NotEnoughBytes),
        ) ==> room < chunked_limit(bitmap),
        bitmap.chunked(room) != Err::<Seq<u8>, _>(
            BitmapEncodeError::Encode(EncodeFailure::NotEnoughBytes),
        ) ==> bitmap.chunked(more) == bitmap.chunked(room),
{
    reveal(BitmapUpdate::chunked);
    lemma_chunks_room(bitmap, 0, room - 4, more - 4);
}

} // verus!
