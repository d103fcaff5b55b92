//! What a client makes of the bitmaps that it gets.

use vstd::prelude::*;

use crate::bitmap_encoder::{
    lemma_chunk_count, lemma_chunk_limit, lemma_chunk_pixels, lemma_chunk_size, lemma_filled_chunk,
    BitmapEncodeError, COMPRESSED_WITHOUT_HEADER,
};
use crate::encoder::{region, regions_bytes};
use crate::frame::{cell, holds_image, BitmapUpdate, PixelFormat, Rect};
use crate::graphics::plane;
use crate::packets;
use crate::pdu::{BitmapRecord, BITMAP_RECORD_SIZE};
use crate::receive::{
    coded_of, coded_rectangles, decode_rectangles, decode_stream, holds_records, interleaved, models,
    placed_models, record_model, records, rgb24, streams, CodedModel, CodedRectangle, PlacedModel,
    PlacedRectangle,
};
use crate::rows::{lemma_bottom_up_cell, lemma_bottom_up_image, lemma_piece_bounds};
use crate::tile_encoder::{quantized, tile_bytes_at, tile_record, tile_stream};

verus! {

/// A picture: rows of pixels of four bytes, whose starts are `stride` bytes apart, at a place of the
/// desktop.
pub struct Picture {
    pub x: int,
    pub y: int,
    pub width: int,
    pub height: int,
    pub stride: int,
    pub data: Seq<u8>,
}

impl Picture {
    /// Whether all of its pixels are there, and a machine can count their bytes.
    pub open spec fn complete(self) -> bool {
        &&& holds_image(self.data, self.stride, self.width, self.height)
        &&& self.width <= u16::MAX
        &&& self.height <= u16::MAX
        &&& self.width * self.height * 4 <= usize::MAX
    }

    /// The picture as a tile on the wire.
    pub open spec fn tile_bytes(self, mask: u8) -> Result<Seq<u8>, BitmapEncodeError> {
        tile_bytes_at(self.x, self.y, self.width, self.height, self.stride, self.data, mask)
    }

    /// Its pixels as they are sent.
    pub open spec fn stream(self, mask: u8) -> Option<Seq<u8>> {
        tile_stream(self.data, self.stride, self.width, self.height, mask)
    }

    /// The picture as a tile, where it can be one.
    pub open spec fn tile(self, mask: u8) -> Seq<u8> {
        match self.tile_bytes(mask) {
            Ok(bytes) => bytes,
            Err(_) => Seq::empty(),
        }
    }

    /// Whether the rectangle is this picture, sent as a tile.
    pub open spec fn sent_as(self, mask: u8, rectangle: CodedModel) -> bool {
        &&& self.complete()
        &&& rectangle.width == self.width
        &&& rectangle.height == self.height
        &&& self.stream(mask) == Some(rectangle.data)
    }

    /// Whether the picture lies on the desktop.
    pub open spec fn on_desktop(self) -> bool {
        &&& 0 <= self.x
        &&& 0 <= self.y
        &&& self.x + self.width <= u16::MAX
        &&& self.y + self.height <= u16::MAX
    }

    /// Whether the rectangle is this picture, sent as a tile to where the picture lies.
    pub open spec fn placed_as(self, mask: u8, rectangle: PlacedModel) -> bool {
        &&& self.sent_as(mask, rectangle.coded)
        &&& self.on_desktop() ==> {
            &&& rectangle.left == self.x
            &&& rectangle.top == self.y
            &&& rectangle.right == self.x + self.width - 1
            &&& rectangle.bottom == self.y + self.height - 1
        }
    }

    /// Whether the colours are those of the picture under the mask, its bottom row first.
    pub open spec fn shown_in(self, mask: u8, colors: Seq<u8>) -> bool {
        &&& colors.len() == 3 * self.width * self.height
        &&& forall|row: int, col: int, k: int|
            0 <= row < self.height && 0 <= col < self.width && 0 <= k < 3 ==> colors[3 * (
            #[trigger] place(self.width, self.height, row, col)) + k] == #[trigger] cell(
                self.data,
                self.stride,
                row,
                col * 4 + (2 - k),
            ) & mask
    }
}

/// The number of a pixel when the bottom row comes first.
pub open spec fn place(width: int, height: int, row: int, col: int) -> int {
    (height - 1 - row) * width + col
}

/// Pictures as tiles on the wire.
pub open spec fn tiles_of(pictures: Seq<Picture>, mask: u8) -> Seq<Seq<u8>> {
    Seq::new(pictures.len(), |i: int| pictures[i].tile(mask))
}

/// Whether every picture can be sent as a tile.
pub open spec fn sendable(pictures: Seq<Picture>, mask: u8) -> bool {
    forall|i: int|
        0 <= i < pictures.len() ==> (#[trigger] pictures[i]).complete() && pictures[i].tile_bytes(
            mask,
        ) is Ok
}

/// Whether a bitmap update carries these pictures as tiles.
pub open spec fn carries(update: Seq<u8>, pictures: Seq<Picture>, mask: u8) -> bool {
    &&& pictures.len() <= u16::MAX
    &&& sendable(pictures, mask)
    &&& update == packets::packet(tiles_of(pictures, mask))
}

proof fn lemma_quantized_cell(picture: Picture, mask: u8, row: int, off: int)
    requires
        picture.complete(),
        0 <= row < picture.height,
        0 <= off < picture.width * 4,
    ensures
        ({
            let pixels = quantized(picture.data, picture.stride, picture.width, picture.height, mask);
            &&& pixels.len() == picture.width * picture.height * 4
            &&& pixels[(picture.height - 1 - row) * (picture.width * 4) + off] == cell(
                picture.data,
                picture.stride,
                row,
                off,
            ) & mask
        }),
{
    let width = picture.width;
    let height = picture.height;
    lemma_bottom_up_image(picture.data, picture.stride, width, height, height);
    lemma_bottom_up_cell(picture.data, picture.stride, width, height, height, row, off);
    assert(height * (width * 4) == width * height * 4) by (nonlinear_arith);
}

proof fn lemma_tile_shown(picture: Picture, mask: u8, colors: Seq<u8>)
    requires
        picture.complete(),
        ({
            let pixels = quantized(picture.data, picture.stride, picture.width, picture.height, mask);
            colors == interleaved(
                plane(pixels, 2),
                plane(pixels, 1),
                plane(pixels, 0),
                (picture.width * picture.height) as nat,
            )
        }),
    ensures
        picture.shown_in(mask, colors),
{
    let width = picture.width;
    let height = picture.height;
    let pixels = quantized(picture.data, picture.stride, width, height, mask);
    assert(0 <= width * height) by (nonlinear_arith)
        requires
            width > 0,
            height > 0,
    ;
    assert(3 * width * height == 3 * (width * height)) by (nonlinear_arith);
    assert forall|row: int, col: int, k: int|
        0 <= row < height && 0 <= col < width && 0 <= k < 3 implies colors[3 * (#[trigger] place(
        width,
        height,
        row,
        col,
    )) + k] == #[trigger] cell(picture.data, picture.stride, row, col * 4 + (2 - k)) & mask by {
        let at = place(width, height, row, col);
        lemma_quantized_cell(picture, mask, row, col * 4 + (2 - k));
        assert(0 <= at < width * height) by (nonlinear_arith)
            requires
                at == (height - 1 - row) * width + col,
                0 <= row < height,
                0 <= col < width,
        ;
        assert((height - 1 - row) * (width * 4) + (col * 4 + (2 - k)) == at * 4 + (2 - k))
            by (nonlinear_arith)
            requires
                at == (height - 1 - row) * width + col,
        ;
        assert((3 * at + k) / 3 == at && (3 * at + k) % 3 == k);
        assert(plane(pixels, 2 - k)[at] == pixels[at * 4 + (2 - k)]);
    }
}

impl BitmapUpdate {
    /// Whether the rectangle is that of number `i` of this bitmap, sent as several.
    pub open spec fn chunk_sent_as(self, i: int, rectangle: CodedModel) -> bool {
        &&& 0 <= i
        &&& self.width > 0
        &&& self.stride >= self.width * 4
        &&& self.chunk_rows(i) > 0
        &&& self.width * self.chunk_rows(i) * 4 <= usize::MAX
        &&& rectangle.width == self.width
        &&& rectangle.height == self.chunk_rows(i)
        &&& self.chunk_stream(i) == Some(rectangle.data)
    }

    /// The colours of that rectangle, its bottom row first.
    pub open spec fn chunk_colors(self, i: int) -> Seq<u8> {
        interleaved(
            plane(self.chunk_pixels(i), self.format.red()),
            plane(self.chunk_pixels(i), self.format.green()),
            plane(self.chunk_pixels(i), self.format.blue()),
            (self.width * self.chunk_rows(i)) as nat,
        )
    }
}

/// The colours of an encoded rectangle, or nothing where it cannot be decoded.
///
/// Of a tile they are those of the picture that was sent, under the mask of the mode, and of a
/// rectangle of a bitmap that was sent as several those of its pixels.
pub fn decode_rectangle(rectangle: &CodedRectangle) -> (r: Option<Vec<u8>>)
    ensures
        match r {
            Some(colors) => rgb24(rectangle.data@, rectangle.width, rectangle.height) == Some(colors@),
            None => rgb24(rectangle.data@, rectangle.width, rectangle.height) is None,
        },
        forall|picture: Picture, mask: u8| #[trigger]
            picture.sent_as(mask, rectangle@) ==> r is Some && picture.shown_in(mask, r->0@),
        forall|bitmap: BitmapUpdate, i: int| #[trigger]
            bitmap.chunk_sent_as(i, rectangle@) ==> r is Some && r->0@ == bitmap.chunk_colors(i),
{
    let r = decode_stream(rectangle.data.as_slice(), rectangle.width, rectangle.height);
    proof {
        assert forall|bitmap: BitmapUpdate, i: int| #[trigger]
            bitmap.chunk_sent_as(i, rectangle@) implies r is Some && r->0@ == bitmap.chunk_colors(
            i,
        ) by {
            let pixels = bitmap.chunk_pixels(i);
            lemma_chunk_pixels(bitmap, i);
            assert(streams(
                rectangle.data@,
                rectangle.width,
                rectangle.height,
                plane(pixels, bitmap.format.red()),
                plane(pixels, bitmap.format.green()),
                plane(pixels, bitmap.format.blue()),
            ));
        }
        assert forall|picture: Picture, mask: u8| #[trigger]
            picture.sent_as(mask, rectangle@) implies r is Some && picture.shown_in(mask, r->0@) by {
            let pixels = quantized(picture.data, picture.stride, picture.width, picture.height, mask);
            lemma_quantized_cell(picture, mask, 0, 0);
            assert(streams(
                rectangle.data@,
                rectangle.width,
                rectangle.height,
                plane(pixels, 2),
                plane(pixels, 1),
                plane(pixels, 0),
            ));
            lemma_tile_shown(picture, mask, r->0@);
        }
    }
    r
}

/// What a tile says of its pixels, and those.
pub open spec fn tile_part(picture: Picture, mask: u8) -> (BitmapRecord, Seq<u8>) {
    (
        tile_record(picture.x, picture.y, picture.width, picture.height),
        picture.stream(mask)->0,
    )
}

/// The tiles of pictures, with what they say of their pixels.
pub open spec fn tile_parts(pictures: Seq<Picture>, mask: u8) -> Seq<(BitmapRecord, Seq<u8>)> {
    Seq::new(pictures.len(), |i: int| tile_part(pictures[i], mask))
}

proof fn lemma_joined_records(pictures: Seq<Picture>, mask: u8)
    requires
        sendable(pictures, mask),
    ensures
        packets::joined(tiles_of(pictures, mask)) == records(tile_parts(pictures, mask)),
    decreases pictures.len(),
{
    let tiles = tiles_of(pictures, mask);
    let parts = tile_parts(pictures, mask);
    if pictures.len() > 0 {
        let fewer = pictures.drop_last();
        assert(forall|i: int| 0 <= i < fewer.len() ==> fewer[i] == pictures[i]);
        lemma_joined_records(fewer, mask);
        assert(tiles.drop_last() =~= tiles_of(fewer, mask));
        assert(parts.drop_last() =~= tile_parts(fewer, mask));
        assert(pictures.last().tile_bytes(mask) is Ok);
    }
}

proof fn lemma_carried(update: Seq<u8>, pictures: Seq<Picture>, mask: u8)
    requires
        carries(update, pictures, mask),
    ensures
        holds_records(update, tile_parts(pictures, mask)),
{
    let parts = tile_parts(pictures, mask);
    lemma_joined_records(pictures, mask);
    assert forall|i: int| 0 <= i < parts.len() implies (#[trigger] parts[i]).0.flags
        == COMPRESSED_WITHOUT_HEADER && parts[i].1.len() <= u16::MAX by {
        assert(pictures[i].tile_bytes(mask) is Ok);
    }
}

proof fn lemma_tiles_sent(
    update: Seq<u8>,
    pictures: Seq<Picture>,
    mask: u8,
    rectangles: Seq<PlacedRectangle>,
)
    requires
        carries(update, pictures, mask),
        placed_models(rectangles) == Seq::new(
            pictures.len(),
            |i: int| record_model(tile_parts(pictures, mask)[i]),
        ),
    ensures
        rectangles.len() == pictures.len(),
        forall|i: int|
            0 <= i < pictures.len() ==> (#[trigger] pictures[i]).placed_as(mask, rectangles[i]@),
{
    assert(placed_models(rectangles).len() == pictures.len());
    assert forall|i: int| 0 <= i < pictures.len() implies (#[trigger] pictures[i]).placed_as(
        mask,
        rectangles[i]@,
    ) by {
        assert(placed_models(rectangles)[i] == record_model(tile_part(pictures[i], mask)));
        assert(pictures[i].tile_bytes(mask) is Ok);
    }
}

proof fn lemma_records_front(part: (BitmapRecord, Seq<u8>), parts: Seq<(BitmapRecord, Seq<u8>)>)
    ensures
        records(seq![part] + parts) == part.0.bytes(part.1) + records(parts),
    decreases parts.len(),
{
    let all = seq![part] + parts;
    if parts.len() == 0 {
        reveal_with_fuel(records, 2);
        assert(all =~= seq![part]);
        assert(all.drop_last() =~= Seq::empty());
        assert(records(all) =~= part.0.bytes(part.1));
        assert(part.0.bytes(part.1) + records(parts) =~= part.0.bytes(part.1));
    } else {
        lemma_records_front(part, parts.drop_last());
        assert(all.drop_last() =~= seq![part] + parts.drop_last());
        assert(all.last() == parts.last());
        assert(records(all) =~= part.0.bytes(part.1) + records(parts));
    }
}

/// The rectangles of a bitmap from number `i` on, with what they say of their pixels.
pub open spec fn chunk_parts(bitmap: BitmapUpdate, i: int) -> Seq<(BitmapRecord, Seq<u8>)> {
    Seq::new(
        (bitmap.chunk_count() - i) as nat,
        |k: int| (bitmap.chunk_record(i + k), bitmap.chunk_stream(i + k)->0),
    )
}

proof fn lemma_chunks_records(bitmap: BitmapUpdate, i: int, room: int)
    requires
        0 <= i <= bitmap.chunk_count(),
        bitmap.chunks_from(i, room) is Ok,
    ensures
        bitmap.chunks_from(i, room) == Ok::<Seq<u8>, BitmapEncodeError>(
            records(chunk_parts(bitmap, i)),
        ),
        forall|k: int| i <= k < bitmap.chunk_count() ==> (#[trigger] bitmap.chunk_stream(k)) is Some,
    decreases bitmap.chunk_count() - i,
{
    if i < bitmap.chunk_count() {
        let s = bitmap.chunk_stream(i)->0;
        lemma_chunks_records(bitmap, i + 1, room - BITMAP_RECORD_SIZE - s.len());
        lemma_records_front((bitmap.chunk_record(i), s), chunk_parts(bitmap, i + 1));
        assert(chunk_parts(bitmap, i) =~= seq![(bitmap.chunk_record(i), s)] + chunk_parts(
            bitmap,
            i + 1,
        ));
    } else {
        assert(chunk_parts(bitmap, i) =~= Seq::empty());
    }
}

/// What a client reads of the rectangle of number `i` of a bitmap.
pub open spec fn chunk_model(bitmap: BitmapUpdate, i: int) -> CodedModel {
    CodedModel {
        width: bitmap.width,
        height: bitmap.chunk_rows(i) as u16,
        data: bitmap.chunk_stream(i)->0,
    }
}

/// Whether the rectangles are those of the bitmap, each over as many rows below the one before it as that
/// has.
pub open spec fn chunks_placed(bitmap: BitmapUpdate, rectangles: Seq<PlacedModel>) -> bool {
    &&& rectangles.len() == bitmap.chunk_count()
    &&& forall|i: int|
        0 <= i < rectangles.len() ==> {
            &&& (#[trigger] rectangles[i]).coded == chunk_model(bitmap, i)
            &&& rectangles[i].left == bitmap.x
            &&& rectangles[i].right == bitmap.x + bitmap.width - 1
            &&& rectangles[i].top == bitmap.y + i * bitmap.chunk_height()
            &&& rectangles[i].bottom + 1 == rectangles[i].top + bitmap.chunk_rows(i)
        }
}

proof fn lemma_chunks_placed(bitmap: BitmapUpdate, rectangles: Seq<PlacedModel>)
    requires
        bitmap.chunkable(),
        bitmap.width % 4 == 0,
        bitmap.chunk_count() <= u16::MAX,
        bitmap.chunk_count() >= 0,
        rectangles == Seq::new(
            bitmap.chunk_count() as nat,
            |i: int| record_model((bitmap.chunk_record(i), bitmap.chunk_stream(i)->0)),
        ),
    ensures
        chunks_placed(bitmap, rectangles),
{
    assert forall|i: int| 0 <= i < rectangles.len() implies {
        &&& (#[trigger] rectangles[i]).coded == chunk_model(bitmap, i)
        &&& rectangles[i].left == bitmap.x
        &&& rectangles[i].right == bitmap.x + bitmap.width - 1
        &&& rectangles[i].top == bitmap.y + i * bitmap.chunk_height()
        &&& rectangles[i].bottom + 1 == rectangles[i].top + bitmap.chunk_rows(i)
    } by {
        assert(bitmap.chunk_fits(i));
        lemma_chunk_limit(bitmap, i);
        assert(0 <= i * bitmap.chunk_height()) by (nonlinear_arith)
            requires
                0 <= i,
                0 <= bitmap.chunk_height(),
        ;
    }
}

proof fn lemma_chunks_held(bitmap: BitmapUpdate, room: int, update: Seq<u8>)
    requires
        bitmap.chunkable(),
        bitmap.data@.len() > 0,
        bitmap.chunked(room) == Ok::<Seq<u8>, BitmapEncodeError>(update),
    ensures
        holds_records(update, chunk_parts(bitmap, 0)),
        bitmap.chunk_count() >= 0,
        forall|k: int|
            0 <= k < bitmap.chunk_count() ==> (#[trigger] bitmap.chunk_stream(k)) is Some,
{
    reveal(BitmapUpdate::chunked);
    lemma_chunk_count(bitmap);
    lemma_chunks_records(bitmap, 0, room - 4);
    let parts = chunk_parts(bitmap, 0);
    assert forall|i: int| 0 <= i < parts.len() implies (#[trigger] parts[i]).0.flags
        == COMPRESSED_WITHOUT_HEADER && parts[i].1.len() <= u16::MAX by {
        assert(bitmap.chunk_stream(i) is Some);
    }
}

impl PixelFormat {
    /// Where in a pixel the colour of number `k` stands, of red, green and blue.
    pub open spec fn color(self, k: int) -> int {
        if k == 0 {
            self.red()
        } else if k == 1 {
            self.green()
        } else {
            self.blue()
        }
    }
}

/// A client that shows the rectangles of a filled bitmap shows every one of its pixels: row by row each
/// belongs to one rectangle, in which its colours stand.
pub proof fn lemma_filled_shown(bitmap: BitmapUpdate, row: int, col: int, k: int)
    requires
        bitmap.filled(),
        0 <= row < bitmap.height,
        0 <= col < bitmap.width,
        0 <= k < 3,
    ensures
        ({
            let i = row / bitmap.chunk_height();
            let top = row % bitmap.chunk_height();
            &&& 0 <= i < bitmap.chunk_count()
            &&& bitmap.y + row == bitmap.chunk_top(i) + top
            &&& 0 <= top < bitmap.chunk_rows(i)
            &&& bitmap.chunk_colors(i)[3 * place(
                bitmap.width as int,
                bitmap.chunk_rows(i),
                top,
                col,
            ) + k] == cell(
                bitmap.data@,
                bitmap.stride as int,
                row,
                col * 4 + bitmap.format.color(k),
            )
        }),
{
    let width = bitmap.width as int;
    let stride = bitmap.stride as int;
    let h = bitmap.chunk_height();
    lemma_filled_row(bitmap, row);
    let i = row / h;
    let top = row % h;
    let rows = bitmap.chunk_rows(i);
    let off = col * 4 + bitmap.format.color(k);
    let at = place(width, rows, top, col);
    lemma_filled_chunk(bitmap, i);
    let chunk = bitmap.chunk(i);
    lemma_bottom_up_image(chunk, stride, width, rows, rows);
    lemma_bottom_up_cell(chunk, stride, width, rows, rows, top, off);
    crate::frame::lemma_cell_in_bounds(chunk.len() as int, stride, width, rows, top, off);
    assert(i * bitmap.chunk_size() + top * stride == row * stride) by (nonlinear_arith)
        requires
            i * bitmap.chunk_size() == i * h * stride,
            row == i * h + top,
    ;
    lemma_chunk_size(bitmap);
    lemma_piece_bounds(bitmap.data@.len() as int, bitmap.chunk_size(), i);
    assert(chunk[top * stride + off] == bitmap.data@[i * bitmap.chunk_size() + (top * stride + off)]);
    assert(0 <= at < width * rows) by (nonlinear_arith)
        requires
            at == (rows - 1 - top) * width + col,
            0 <= top < rows,
            0 <= col < width,
    ;
    assert((rows - 1 - top) * (width * 4) + off == at * 4 + bitmap.format.color(k)) by (nonlinear_arith)
        requires
            at == (rows - 1 - top) * width + col,
            off == col * 4 + bitmap.format.color(k),
    ;
    assert(rows * (width * 4) == width * rows * 4) by (nonlinear_arith);
    assert((3 * at + k) / 3 == at && (3 * at + k) % 3 == k);
    assert(plane(bitmap.chunk_pixels(i), bitmap.format.color(k))[at] == bitmap.chunk_pixels(i)[at * 4
        + bitmap.format.color(k)]);
}

proof fn lemma_filled_row(bitmap: BitmapUpdate, row: int)
    requires
        bitmap.filled(),
        0 <= row < bitmap.height,
    ensures
        bitmap.chunk_height() >= 1,
        0 <= row / bitmap.chunk_height() < bitmap.chunk_count(),
        row == (row / bitmap.chunk_height()) * bitmap.chunk_height() + row % bitmap.chunk_height(),
        0 <= row % bitmap.chunk_height() < bitmap.chunk_rows(row / bitmap.chunk_height()),
{
    let stride = bitmap.stride as int;
    let height = bitmap.height as int;
    let h = bitmap.chunk_height();
    let size = bitmap.chunk_size();
    let len = bitmap.data@.len() as int;
    let count = bitmap.chunk_count();
    lemma_chunk_size(bitmap);
    vstd::arithmetic::div_mod::lemma_fundamental_div_mod(row, h);
    vstd::arithmetic::div_mod::lemma_div_pos_is_pos(row, h);
    vstd::arithmetic::div_mod::lemma_mod_bound(row, h);
    vstd::arithmetic::div_mod::lemma_fundamental_div_mod(len + size - 1, size);
    vstd::arithmetic::div_mod::lemma_mod_bound(len + size - 1, size);
    let i = row / h;
    assert(h * i == i * h) by (nonlinear_arith);
    assert(i * size < len) by (nonlinear_arith)
        requires
            size == h * stride,
            len == height * stride,
            i * h < height,
            stride > 0,
    ;
    assert(i < count) by (nonlinear_arith)
        requires
            i * size < len,
            size > 0,
            len + size - 1 == size * count + (len + size - 1) % size,
            (len + size - 1) % size < size,
    ;
    lemma_filled_chunk(bitmap, i);
    assert((i + 1) * h == i * h + h) by (nonlinear_arith);
}

/// Whether the rectangles are those of the bitmap, sent as several. A short last one has no rows.
pub open spec fn chunks_sent(bitmap: BitmapUpdate, rectangles: Seq<CodedRectangle>) -> bool {
    &&& rectangles.len() == bitmap.chunk_count()
    &&& forall|i: int|
        0 <= i < rectangles.len() && bitmap.chunk_rows(i) > 0 ==> bitmap.chunk_sent_as(
            i,
            (#[trigger] rectangles[i])@,
        )
}

proof fn lemma_chunks_sent(bitmap: BitmapUpdate, rectangles: Seq<CodedRectangle>)
    requires
        bitmap.chunkable(),
        bitmap.chunks_owed(),
        bitmap.chunk_count() >= 0,
        forall|k: int|
            0 <= k < bitmap.chunk_count() ==> (#[trigger] bitmap.chunk_stream(k)) is Some,
        models(rectangles) == Seq::new(
            bitmap.chunk_count() as nat,
            |i: int| chunk_model(bitmap, i),
        ),
    ensures
        chunks_sent(bitmap, rectangles),
{
    assert(models(rectangles).len() == rectangles.len());
    assert forall|i: int| 0 <= i < rectangles.len() && bitmap.chunk_rows(i) > 0 implies bitmap.chunk_sent_as(
        i,
        (#[trigger] rectangles[i])@,
    ) by {
        assert(models(rectangles)[i] == rectangles[i]@);
        assert(bitmap.chunk_stream(i) is Some);
        lemma_chunk_limit(bitmap, i);
        assert(bitmap.chunk_rows(i) <= bitmap.width * bitmap.chunk_rows(i) * 4) by (nonlinear_arith)
            requires
                bitmap.width > 0,
                bitmap.chunk_rows(i) > 0,
        ;
    }
}

/// The rectangles of a bitmap update with their places, or nothing where it is none.
///
/// Of an update that carries pictures as tiles they are those tiles, each where its picture lies, and of a
/// bitmap that was sent as several rectangles they are those, one below the other.
pub fn read_placed(update: &[u8]) -> (r: Option<Vec<PlacedRectangle>>)
    ensures
        match r {
            Some(rectangles) => coded_rectangles(update@) == Some(placed_models(rectangles@)),
            None => coded_rectangles(update@) is None,
        },
        forall|pictures: Seq<Picture>, mask: u8| #[trigger]
            carries(update@, pictures, mask) ==> {
                &&& r is Some
                &&& r->0@.len() == pictures.len()
                &&& forall|i: int|
                    0 <= i < pictures.len() ==> (#[trigger] pictures[i]).placed_as(mask, r->0@[i]@)
            },
        forall|bitmap: BitmapUpdate, room: int|
            bitmap.chunkable() && bitmap.data@.len() > 0 && #[trigger] bitmap.chunked(room) == Ok::<
                Seq<u8>,
                BitmapEncodeError,
            >(update@) ==> {
                &&& r is Some
                &&& chunks_placed(bitmap, placed_models(r->0@))
                &&& forall|i: int|
                    0 <= i < bitmap.chunk_count() ==> (#[trigger] bitmap.chunk_stream(i)) is Some
            },
{
    let r = decode_rectangles(update);
    proof {
        assert forall|bitmap: BitmapUpdate, room: int|
            bitmap.chunkable() && bitmap.data@.len() > 0 && #[trigger] bitmap.chunked(room) == Ok::<
                Seq<u8>,
                BitmapEncodeError,
            >(update@) implies {
            &&& r is Some
            &&& chunks_placed(bitmap, placed_models(r->0@))
            &&& forall|i: int|
                0 <= i < bitmap.chunk_count() ==> (#[trigger] bitmap.chunk_stream(i)) is Some
        } by {
            lemma_chunks_held(bitmap, room, update@);
            let parts = chunk_parts(bitmap, 0);
            assert(holds_records(update@, parts));
            assert(Seq::new(parts.len(), |i: int| record_model(parts[i])) =~= Seq::new(
                bitmap.chunk_count() as nat,
                |i: int| record_model((bitmap.chunk_record(i), bitmap.chunk_stream(i)->0)),
            ));
            reveal(BitmapUpdate::chunked);
            lemma_chunks_placed(bitmap, placed_models(r->0@));
        }
        assert forall|pictures: Seq<Picture>, mask: u8| #[trigger]
            carries(update@, pictures, mask) implies {
            &&& r is Some
            &&& r->0@.len() == pictures.len()
            &&& forall|i: int|
                0 <= i < pictures.len() ==> (#[trigger] pictures[i]).placed_as(mask, r->0@[i]@)
        } by {
            lemma_carried(update@, pictures, mask);
            lemma_tiles_sent(update@, pictures, mask, r->0@);
        }
    }
    r
}

/// The rectangles of a bitmap update, or nothing where it is none.
///
/// Of an update that carries pictures as tiles they are those tiles, and of a bitmap that was sent as
/// several rectangles they are those.
pub fn read_rectangles(update: &[u8]) -> (r: Option<Vec<CodedRectangle>>)
    ensures
        match coded_rectangles(update@) {
            Some(rectangles) => r is Some && models(r->0@) == coded_of(rectangles),
            None => r is None,
        },
        forall|pictures: Seq<Picture>, mask: u8| #[trigger]
            carries(update@, pictures, mask) ==> {
                &&& r is Some
                &&& r->0@.len() == pictures.len()
                &&& forall|i: int|
                    0 <= i < pictures.len() ==> (#[trigger] pictures[i]).sent_as(mask, r->0@[i]@)
            },
        forall|bitmap: BitmapUpdate, room: int|
            bitmap.chunkable() && bitmap.data@.len() > 0 && #[trigger] bitmap.chunked(room) == Ok::<
                Seq<u8>,
                BitmapEncodeError,
            >(update@) ==> {
                &&& r is Some
                &&& models(r->0@) == Seq::new(
                    bitmap.chunk_count() as nat,
                    |i: int| chunk_model(bitmap, i),
                )
                &&& bitmap.chunks_owed() ==> chunks_sent(bitmap, r->0@)
            },
{
    let placed = match read_placed(update) {
        Some(placed) => placed,
        None => {
            return None;
        },
    };
    let mut r: Vec<CodedRectangle> = Vec::new();
    let mut i: usize = 0;
    while i < placed.len()
        invariant
            i <= placed@.len(),
            r@.len() == i,
            forall|k: int| 0 <= k < i ==> (#[trigger] r@[k])@ == placed@[k]@.coded,
        decreases placed@.len() - i,
    {
        let coded = &placed[i].coded;
        r.push(CodedRectangle { width: coded.width, height: coded.height, data: coded.data.clone() });
        i = i + 1;
    }
    proof {
        let all = placed_models(placed@);
        assert(models(r@) =~= coded_of(all));
        assert forall|pictures: Seq<Picture>, mask: u8| #[trigger]
            carries(update@, pictures, mask) implies {
            &&& r@.len() == pictures.len()
            &&& forall|i: int|
                0 <= i < pictures.len() ==> (#[trigger] pictures[i]).sent_as(mask, r@[i]@)
        } by {
            assert forall|i: int| 0 <= i < pictures.len() implies (#[trigger] pictures[i]).sent_as(
                mask,
                r@[i]@,
            ) by {
                assert(pictures[i].placed_as(mask, placed@[i]@));
            }
        }
        assert forall|bitmap: BitmapUpdate, room: int|
            bitmap.chunkable() && bitmap.data@.len() > 0 && #[trigger] bitmap.chunked(room) == Ok::<
                Seq<u8>,
                BitmapEncodeError,
            >(update@) implies {
            &&& models(r@) == Seq::new(
                bitmap.chunk_count() as nat,
                |i: int| chunk_model(bitmap, i),
            )
            &&& bitmap.chunks_owed() ==> chunks_sent(bitmap, r@)
        } by {
            assert forall|i: int| 0 <= i < r@.len() implies models(r@)[i] == chunk_model(bitmap, i) by {
                assert(all[i].coded == chunk_model(bitmap, i));
            }
            assert(models(r@) =~= Seq::new(
                bitmap.chunk_count() as nat,
                |i: int| chunk_model(bitmap, i),
            ));
            if bitmap.chunks_owed() {
                lemma_chunks_sent(bitmap, r@);
            }
        }
    }
    Some(r)
}

/// The part of a bitmap in a rectangle.
pub open spec fn part_of(bitmap: BitmapUpdate, rect: Rect) -> Picture {
    Picture {
        x: bitmap.x + rect.x,
        y: bitmap.y + rect.y,
        width: rect.width as int,
        height: rect.height as int,
        stride: bitmap.stride as int,
        data: region(bitmap, rect),
    }
}

/// The parts of a bitmap in rectangles.
pub open spec fn parts_of(bitmap: BitmapUpdate, rects: Seq<Rect>) -> Seq<Picture> {
    Seq::new(rects.len(), |i: int| part_of(bitmap, rects[i]))
}

/// A client that shows the part of a bitmap in a rectangle shows the bitmap's pixels there.
pub proof fn lemma_part_shown(bitmap: BitmapUpdate, rect: Rect, row: int, off: int)
    requires
        bitmap.complete(),
        rect.within(bitmap.width as int, bitmap.height as int),
        0 <= row < rect.height,
        0 <= off < rect.width * 4,
    ensures
        holds_image(region(bitmap, rect), bitmap.stride as int, rect.width as int, rect.height as int),
        cell(region(bitmap, rect), bitmap.stride as int, row, off) == cell(
            bitmap.data@,
            bitmap.stride as int,
            rect.y + row,
            rect.x * 4 + off,
        ),
{
    let stride = bitmap.stride as int;
    let height = rect.height as int;
    let len = bitmap.data@.len() as int;
    let bottom = rect.y + height - 1;
    assert(rect.y * stride + (height - 1) * stride == bottom * stride) by (nonlinear_arith)
        requires
            bottom == rect.y + height - 1,
    ;
    assert(bottom * stride <= (bitmap.height - 1) * stride) by (nonlinear_arith)
        requires
            bottom <= bitmap.height - 1,
            stride >= 0,
    ;
    assert(row * stride <= (height - 1) * stride) by (nonlinear_arith)
        requires
            row <= height - 1,
            stride >= 0,
    ;
    assert(0 <= row * stride && 0 <= rect.y * stride) by (nonlinear_arith)
        requires
            row >= 0,
            stride >= 0,
            rect.y >= 0,
    ;
    assert((rect.y + row) * stride == rect.y * stride + row * stride) by (nonlinear_arith);
}

proof fn lemma_regions_tiles(bitmap: BitmapUpdate, rects: Seq<Rect>, mask: u8, n: int)
    requires
        0 <= n <= rects.len(),
        regions_bytes(bitmap, rects, mask, n) is Ok,
    ensures
        regions_bytes(bitmap, rects, mask, n) == Ok::<Seq<Seq<u8>>, BitmapEncodeError>(
            tiles_of(parts_of(bitmap, rects).take(n), mask),
        ),
        forall|i: int|
            0 <= i < n ==> (#[trigger] parts_of(bitmap, rects)[i]).tile_bytes(mask) is Ok,
    decreases n,
{
    let all = parts_of(bitmap, rects);
    if n > 0 {
        lemma_regions_tiles(bitmap, rects, mask, n - 1);
        assert(tiles_of(all.take(n), mask) =~= tiles_of(all.take(n - 1), mask).push(
            all[n - 1].tile(mask),
        ));
    } else {
        assert(tiles_of(all.take(0), mask) =~= Seq::empty());
    }
}

proof fn lemma_tile_len(picture: Picture, mask: u8)
    requires
        picture.tile_bytes(mask) is Ok,
    ensures
        picture.tile(mask).len() >= BITMAP_RECORD_SIZE,
{
    let s = picture.stream(mask)->0;
    let record = tile_record(picture.x, picture.y, picture.width, picture.height);
    assert(picture.tile(mask) == record.bytes(s));
}

proof fn lemma_few_tiles(pictures: Seq<Picture>, mask: u8)
    requires
        sendable(pictures, mask),
        pictures.len() <= 1 || packets::joined(tiles_of(pictures, mask)).len() <= packets::PACKET_LIMIT,
    ensures
        pictures.len() <= u16::MAX,
{
    let tiles = tiles_of(pictures, mask);
    assert forall|k: int| 0 <= k < tiles.len() implies (#[trigger] tiles[k]).len()
        >= BITMAP_RECORD_SIZE by {
        lemma_tile_len(pictures[k], mask);
    }
    packets::lemma_joined_least(tiles);
}

proof fn lemma_parts_sendable(bitmap: BitmapUpdate, rects: Seq<Rect>, mask: u8, from: int, to: int)
    requires
        bitmap.complete(),
        bitmap.width * bitmap.height * 4 <= usize::MAX,
        forall|k: int|
            0 <= k < rects.len() ==> (#[trigger] rects[k]).within(
                bitmap.width as int,
                bitmap.height as int,
            ) && rects[k].width > 0 && rects[k].height > 0,
        forall|k: int|
            0 <= k < rects.len() ==> (#[trigger] parts_of(bitmap, rects)[k]).tile_bytes(mask) is Ok,
        0 <= from <= to <= rects.len(),
    ensures
        sendable(parts_of(bitmap, rects).subrange(from, to), mask),
{
    let all = parts_of(bitmap, rects);
    let some = all.subrange(from, to);
    assert forall|k: int| 0 <= k < some.len() implies (#[trigger] some[k]).complete()
        && some[k].tile_bytes(mask) is Ok by {
        let rect = rects[from + k];
        assert(some[k] == all[from + k]);
        lemma_part_shown(bitmap, rect, 0, 0);
        assert(rect.width * rect.height <= bitmap.width * bitmap.height) by (nonlinear_arith)
            requires
                0 <= rect.width <= bitmap.width,
                0 <= rect.height <= bitmap.height,
        ;
    }
}

/// Every packet of a frame carries some of the tiles that are sent, in their order, and a client finds
/// in it the parts of the frame that they show.
pub proof fn lemma_frame_carried(bitmap: BitmapUpdate, rects: Seq<Rect>, mask: u8, i: int)
    requires
        bitmap.complete(),
        bitmap.width * bitmap.height * 4 <= usize::MAX,
        forall|k: int|
            0 <= k < rects.len() ==> (#[trigger] rects[k]).within(
                bitmap.width as int,
                bitmap.height as int,
            ) && rects[k].width > 0 && rects[k].height > 0,
        regions_bytes(bitmap, rects, mask, rects.len() as int) is Ok,
        0 <= i < packets::packets(tiles_of(parts_of(bitmap, rects), mask), Seq::empty()).len(),
    ensures
        regions_bytes(bitmap, rects, mask, rects.len() as int) == Ok::<
            Seq<Seq<u8>>,
            BitmapEncodeError,
        >(tiles_of(parts_of(bitmap, rects), mask)),
        exists|from: int, to: int|
            0 <= from < to <= rects.len() && carries(
                packets::packets(tiles_of(parts_of(bitmap, rects), mask), Seq::empty())[i],
                #[trigger] parts_of(bitmap, rects).subrange(from, to),
                mask,
            ),
{
    let all = parts_of(bitmap, rects);
    let tiles = tiles_of(all, mask);
    lemma_regions_tiles(bitmap, rects, mask, rects.len() as int);
    assert(all.take(rects.len() as int) =~= all);
    packets::lemma_packet_of_run(tiles, i);
    let (from, to) = choose|from: int, to: int|
        0 <= from < to <= tiles.len() && packets::share_packet(tiles, from, to) && packets::packets(
            tiles,
            Seq::empty(),
        )[i] == packets::packet(#[trigger] tiles.subrange(from, to));
    let some = all.subrange(from, to);
    assert(tiles_of(some, mask) =~= tiles.subrange(from, to));
    lemma_parts_sendable(bitmap, rects, mask, from, to);
    lemma_few_tiles(some, mask);
}

/// The packets of a frame together carry all of the tiles that are sent, each tile once and in its order.
pub proof fn lemma_frame_split(bitmap: BitmapUpdate, rects: Seq<Rect>, mask: u8) -> (cuts: Seq<int>)
    requires
        bitmap.complete(),
        bitmap.width * bitmap.height * 4 <= usize::MAX,
        forall|k: int|
            0 <= k < rects.len() ==> (#[trigger] rects[k]).within(
                bitmap.width as int,
                bitmap.height as int,
            ) && rects[k].width > 0 && rects[k].height > 0,
        regions_bytes(bitmap, rects, mask, rects.len() as int) is Ok,
    ensures
        ({
            let sent = packets::packets(
                regions_bytes(bitmap, rects, mask, rects.len() as int)->Ok_0,
                Seq::empty(),
            );
            &&& cuts.len() == sent.len() + 1
            &&& cuts[0] == 0
            &&& cuts.last() == rects.len()
            &&& forall|i: int|
                0 <= i < sent.len() ==> {
                    &&& 0 <= #[trigger] cuts[i] < cuts[i + 1] <= rects.len()
                    &&& carries(
                        sent[i],
                        parts_of(bitmap, rects).subrange(cuts[i], cuts[i + 1]),
                        mask,
                    )
                }
        }),
{
    let all = parts_of(bitmap, rects);
    let tiles = tiles_of(all, mask);
    lemma_regions_tiles(bitmap, rects, mask, rects.len() as int);
    assert(all.take(rects.len() as int) =~= all);
    let cuts = packets::lemma_packets_cut(tiles);
    let sent = packets::packets(tiles, Seq::empty());
    assert forall|i: int| 0 <= i < sent.len() implies {
        &&& 0 <= #[trigger] cuts[i] < cuts[i + 1] <= rects.len()
        &&& carries(sent[i], all.subrange(cuts[i], cuts[i + 1]), mask)
    } by {
        let some = all.subrange(cuts[i], cuts[i + 1]);
        assert(tiles_of(some, mask) =~= tiles.subrange(cuts[i], cuts[i + 1]));
        lemma_parts_sendable(bitmap, rects, mask, cuts[i], cuts[i + 1]);
        lemma_few_tiles(some, mask);
    }
    cuts
}

} // verus!
