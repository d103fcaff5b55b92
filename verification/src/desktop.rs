//! What a client's desktop shows once it has drawn what it was sent.

use vstd::prelude::*;

use crate::bitmap_encoder::{lemma_chunk_limit, lemma_chunk_size, lemma_filled_chunk};
use crate::client::{
    chunk_model, chunks_placed, lemma_filled_shown, lemma_part_shown, part_of, place, Picture,
};
use crate::encoder::{lemma_first_frame, lemma_no_ghosting, shown, UpdateEncoder};
use crate::frame::{cell, covered, BitmapUpdate, Framebuffer, Rect};
use crate::graphics::pixel_differs;
use crate::mac_display::cursor_writes;
use crate::receive::PlacedModel;
use crate::tiles::{
    grid_size, lemma_dirty_tiles_cover, lemma_dirty_tiles_sound, lemma_grid_bounds, CompressionMode,
};
use crate::wire::lemma_written_apart;

verus! {

/// The colour of a pixel.
pub struct Color {
    pub red: u8,
    pub green: u8,
    pub blue: u8,
}

/// The desktop once the colours of a rectangle, its bottom row first, have been drawn at its place.
pub open spec fn drawn(
    desktop: spec_fn(int, int) -> Color,
    rectangle: PlacedModel,
    colors: Seq<u8>,
) -> spec_fn(int, int) -> Color {
    |x: int, y: int|
        if rectangle.left <= x <= rectangle.right && rectangle.top <= y <= rectangle.bottom {
            let at = (rectangle.bottom - y) * rectangle.coded.width + (x - rectangle.left);
            Color { red: colors[3 * at], green: colors[3 * at + 1], blue: colors[3 * at + 2] }
        } else {
            desktop(x, y)
        }
}

/// The desktop once the first `n` rectangles have been drawn, one after the other.
pub open spec fn all_drawn(
    desktop: spec_fn(int, int) -> Color,
    rectangles: Seq<PlacedModel>,
    colors: Seq<Seq<u8>>,
    n: int,
) -> spec_fn(int, int) -> Color
    decreases n,
{
    if n <= 0 {
        desktop
    } else {
        drawn(all_drawn(desktop, rectangles, colors, n - 1), rectangles[n - 1], colors[n - 1])
    }
}

/// The colour of the pixel in column `px` and row `py` of an image, blue first, under a mask.
pub open spec fn color_at(data: Seq<u8>, stride: int, px: int, py: int, mask: u8) -> Color {
    Color {
        red: cell(data, stride, py, px * 4 + 2) & mask,
        green: cell(data, stride, py, px * 4 + 1) & mask,
        blue: cell(data, stride, py, px * 4) & mask,
    }
}

/// Whether the rectangles with their colours are those of a bitmap, as a client reads and decodes them.
pub open spec fn arrived(
    bitmap: BitmapUpdate,
    rects: Seq<Rect>,
    mask: u8,
    rectangles: Seq<PlacedModel>,
    colors: Seq<Seq<u8>>,
) -> bool {
    &&& rectangles.len() == rects.len()
    &&& colors.len() == rects.len()
    &&& forall|i: int|
        0 <= i < rects.len() ==> {
            &&& (#[trigger] part_of(bitmap, rects[i])).placed_as(mask, rectangles[i])
            &&& part_of(bitmap, rects[i]).shown_in(mask, colors[i])
        }
}

/// A tile is drawn where its picture lies, and nowhere else.
pub proof fn lemma_tile_drawn(
    desktop: spec_fn(int, int) -> Color,
    picture: Picture,
    mask: u8,
    rectangle: PlacedModel,
    colors: Seq<u8>,
    x: int,
    y: int,
)
    requires
        picture.complete(),
        picture.on_desktop(),
        picture.placed_as(mask, rectangle),
        picture.shown_in(mask, colors),
    ensures
        drawn(desktop, rectangle, colors)(x, y) == if picture.x <= x < picture.x + picture.width
            && picture.y <= y < picture.y + picture.height {
            color_at(picture.data, picture.stride, x - picture.x, y - picture.y, mask)
        } else {
            desktop(x, y)
        },
{
    if picture.x <= x < picture.x + picture.width && picture.y <= y < picture.y + picture.height {
        let row = y - picture.y;
        let col = x - picture.x;
        let at = place(picture.width, picture.height, row, col);
        assert(at == (rectangle.bottom - y) * rectangle.coded.width + (x - rectangle.left));
        assert(colors[3 * at + 0] == cell(picture.data, picture.stride, row, col * 4 + (2 - 0)) & mask);
        assert(colors[3 * at + 1] == cell(picture.data, picture.stride, row, col * 4 + (2 - 1)) & mask);
        assert(colors[3 * at + 2] == cell(picture.data, picture.stride, row, col * 4 + (2 - 2)) & mask);
    }
}

/// A client that draws the tiles of a frame at their places ends up with the pixels of the frame where
/// they lie on the desktop, and keeps what it showed elsewhere.
pub proof fn lemma_tiles_drawn(
    desktop: spec_fn(int, int) -> Color,
    bitmap: BitmapUpdate,
    rects: Seq<Rect>,
    mask: u8,
    rectangles: Seq<PlacedModel>,
    colors: Seq<Seq<u8>>,
    n: int,
    px: int,
    py: int,
)
    requires
        bitmap.complete(),
        bitmap.on_desktop(),
        bitmap.width * bitmap.height * 4 <= usize::MAX,
        forall|k: int|
            0 <= k < rects.len() ==> (#[trigger] rects[k]).within(
                bitmap.width as int,
                bitmap.height as int,
            ) && rects[k].width > 0 && rects[k].height > 0,
        arrived(bitmap, rects, mask, rectangles, colors),
        0 <= n <= rects.len(),
    ensures
        all_drawn(desktop, rectangles, colors, n)(bitmap.x + px, bitmap.y + py) == if covered(
            rects.take(n),
            px,
            py,
        ) {
            color_at(bitmap.data@, bitmap.stride as int, px, py, mask)
        } else {
            desktop(bitmap.x + px, bitmap.y + py)
        },
    decreases n,
{
    if n > 0 {
        let rect = rects[n - 1];
        let picture = part_of(bitmap, rect);
        let before = all_drawn(desktop, rectangles, colors, n - 1);
        lemma_tiles_drawn(desktop, bitmap, rects, mask, rectangles, colors, n - 1, px, py);
        assert(rects[n - 1].within(bitmap.width as int, bitmap.height as int));
        assert(picture.placed_as(mask, rectangles[n - 1]) && picture.shown_in(mask, colors[n - 1]));
        lemma_tile_drawn(
            before,
            picture,
            mask,
            rectangles[n - 1],
            colors[n - 1],
            bitmap.x + px,
            bitmap.y + py,
        );
        if rect.covers(px, py) {
            assert(rects.take(n)[n - 1].covers(px, py));
            let col = px - rect.x;
            let row = py - rect.y;
            lemma_part_shown(bitmap, rect, row, col * 4);
            lemma_part_shown(bitmap, rect, row, col * 4 + 1);
            lemma_part_shown(bitmap, rect, row, col * 4 + 2);
        } else if covered(rects.take(n), px, py) {
            let k = choose|k: int| 0 <= k < n && (#[trigger] rects.take(n)[k]).covers(px, py);
            assert(rects.take(n - 1)[k].covers(px, py));
        } else if covered(rects.take(n - 1), px, py) {
            let k = choose|k: int| 0 <= k < n - 1 && (#[trigger] rects.take(n - 1)[k]).covers(px, py);
            assert(rects.take(n)[k].covers(px, py));
        }
    }
}

/// Whether the desktop shows the framebuffer under a mask.
pub open spec fn shows(desktop: spec_fn(int, int) -> Color, fb: Framebuffer, mask: u8) -> bool {
    forall|x: int, y: int|
        0 <= x < fb.width && 0 <= y < fb.height ==> #[trigger] desktop(x, y) == color_at(
            fb.data@,
            fb.stride as int,
            x,
            y,
            mask,
        )
}

/// The whole frame arrives: a client whose desktop shows what the encoder takes it to show, and that draws
/// the changed tiles of a frame, shows every pixel of the frame at its place on the desktop. Outside the
/// frame nothing changes.
pub proof fn lemma_frame_arrives(
    desktop: spec_fn(int, int) -> Color,
    encoder: UpdateEncoder,
    bitmap: BitmapUpdate,
    mode: CompressionMode,
    rectangles: Seq<PlacedModel>,
    colors: Seq<Seq<u8>>,
    x: int,
    y: int,
)
    requires
        bitmap.complete(),
        bitmap.on_desktop(),
        bitmap.width * bitmap.height * 4 <= usize::MAX,
        mode.valid(),
        encoder.wf(),
        encoder.contains(bitmap),
        encoder.framebuffer is Some ==> shows(desktop, encoder.framebuffer->0, mode.mask),
        arrived(bitmap, encoder.frame_tiles(bitmap, mode), mode.mask, rectangles, colors),
    ensures
        all_drawn(desktop, rectangles, colors, rectangles.len() as int)(x, y) == if bitmap.x <= x
            < bitmap.x + bitmap.width && bitmap.y <= y < bitmap.y + bitmap.height {
            color_at(bitmap.data@, bitmap.stride as int, x - bitmap.x, y - bitmap.y, mode.mask)
        } else {
            desktop(x, y)
        },
{
    let width = bitmap.width as int;
    let height = bitmap.height as int;
    let px = x - bitmap.x;
    let py = y - bitmap.y;
    let tiles = encoder.frame_tiles(bitmap, mode);
    let changed = encoder.changed(bitmap);
    lemma_grid_bounds(mode, width, height);
    lemma_dirty_tiles_sound(mode, width, height, changed, grid_size(mode, width, height));
    lemma_tiles_drawn(
        desktop,
        bitmap,
        tiles,
        mode.mask,
        rectangles,
        colors,
        tiles.len() as int,
        px,
        py,
    );
    assert(tiles.take(tiles.len() as int) =~= tiles);
    if covered(tiles, px, py) {
        let k = choose|k: int| 0 <= k < tiles.len() && (#[trigger] tiles[k]).covers(px, py);
        assert(tiles[k].within(width, height));
    } else if 0 <= px < width && 0 <= py < height {
        if changed(px, py) {
            lemma_dirty_tiles_cover(mode, width, height, changed, px, py);
        }
        let fb = encoder.framebuffer->0;
        let stride = bitmap.stride as int;
        assert(!pixel_differs(
            fb.data@,
            fb.stride as int,
            bitmap.data@,
            stride,
            bitmap.x as int,
            bitmap.y as int,
            px,
            py,
        ));
        assert forall|k: int| 0 <= k < 4 implies #[trigger] cell(bitmap.data@, stride, py, px * 4 + k)
            == cell(fb.data@, fb.stride as int, bitmap.y + py, (bitmap.x + px) * 4 + k) by {}
        assert(cell(bitmap.data@, stride, py, px * 4 + 0) == cell(
            fb.data@,
            fb.stride as int,
            y,
            x * 4 + 0,
        ));
        assert(cell(bitmap.data@, stride, py, px * 4 + 1) == cell(
            fb.data@,
            fb.stride as int,
            y,
            x * 4 + 1,
        ));
        assert(cell(bitmap.data@, stride, py, px * 4 + 2) == cell(
            fb.data@,
            fb.stride as int,
            y,
            x * 4 + 2,
        ));
        assert(desktop(x, y) == color_at(fb.data@, fb.stride as int, x, y, mode.mask));
    }
}

/// Client and encoder stay in step: once the client has drawn the tiles of a frame and the encoder takes
/// them for shown, the desktop shows the framebuffer again.
pub proof fn lemma_in_step(
    desktop: spec_fn(int, int) -> Color,
    encoder: UpdateEncoder,
    bitmap: BitmapUpdate,
    mode: CompressionMode,
    rectangles: Seq<PlacedModel>,
    colors: Seq<Seq<u8>>,
    after: Option<Framebuffer>,
)
    requires
        bitmap.complete(),
        bitmap.on_desktop(),
        bitmap.width * bitmap.height * 4 <= usize::MAX,
        mode.valid(),
        encoder.wf(),
        encoder.contains(bitmap),
        encoder.framebuffer is Some ==> shows(desktop, encoder.framebuffer->0, mode.mask)
            && encoder.framebuffer->0.format == bitmap.format,
        arrived(bitmap, encoder.frame_tiles(bitmap, mode), mode.mask, rectangles, colors),
        shown(after, encoder.framebuffer, bitmap, encoder.frame_tiles(bitmap, mode)),
    ensures
        after is Some ==> shows(
            all_drawn(desktop, rectangles, colors, rectangles.len() as int),
            after->0,
            mode.mask,
        ),
        encoder.framebuffer is Some || bitmap.x == 0 && bitmap.y == 0 ==> after is Some,
{
    let tiles = encoder.frame_tiles(bitmap, mode);
    let drawing = all_drawn(desktop, rectangles, colors, rectangles.len() as int);
    if encoder.framebuffer is None && bitmap.x == 0 && bitmap.y == 0 {
        lemma_first_frame(encoder, bitmap, mode, after);
    }
    if after is Some {
        let fb = after->0;
        if tiles.len() == 0 && encoder.framebuffer is None {
            assert(false);
        }
        assert forall|x: int, y: int| 0 <= x < fb.width && 0 <= y < fb.height implies #[trigger] drawing(
            x,
            y,
        ) == color_at(fb.data@, fb.stride as int, x, y, mode.mask) by {
            lemma_frame_arrives(desktop, encoder, bitmap, mode, rectangles, colors, x, y);
            if tiles.len() == 0 {
                assert(rectangles.len() == 0);
                assert(drawing(x, y) == desktop(x, y));
            } else if encoder.framebuffer is Some {
                lemma_no_ghosting(encoder, bitmap, mode, fb, y, x * 4);
                lemma_no_ghosting(encoder, bitmap, mode, fb, y, x * 4 + 1);
                lemma_no_ghosting(encoder, bitmap, mode, fb, y, x * 4 + 2);
                assert((x * 4) / 4 == x && (x * 4 + 1) / 4 == x && (x * 4 + 2) / 4 == x);
                let was = encoder.framebuffer->0;
                assert(desktop(x, y) == color_at(was.data@, was.stride as int, x, y, mode.mask));
            }
        }
    }
}

/// A client that draws the rectangles of a bitmap which was sent as several shows every pixel of it where
/// it lies, in the order of colours of its format, and keeps what it showed elsewhere.
pub proof fn lemma_chunks_drawn(
    desktop: spec_fn(int, int) -> Color,
    bitmap: BitmapUpdate,
    rectangles: Seq<PlacedModel>,
    colors: Seq<Seq<u8>>,
    n: int,
    px: int,
    py: int,
)
    requires
        bitmap.filled(),
        chunks_placed(bitmap, rectangles),
        colors.len() == rectangles.len(),
        forall|i: int| 0 <= i < colors.len() ==> #[trigger] colors[i] == bitmap.chunk_colors(i),
        0 <= n <= rectangles.len(),
    ensures
        all_drawn(desktop, rectangles, colors, n)(bitmap.x + px, bitmap.y + py) == if 0 <= px
            < bitmap.width && 0 <= py < bitmap.height && py < n * bitmap.chunk_height() {
            Color {
                red: cell(bitmap.data@, bitmap.stride as int, py, px * 4 + bitmap.format.red()),
                green: cell(bitmap.data@, bitmap.stride as int, py, px * 4 + bitmap.format.green()),
                blue: cell(bitmap.data@, bitmap.stride as int, py, px * 4 + bitmap.format.blue()),
            }
        } else {
            desktop(bitmap.x + px, bitmap.y + py)
        },
        n == rectangles.len() ==> bitmap.height <= n * bitmap.chunk_height(),
    decreases n,
{
    let h = bitmap.chunk_height();
    let height = bitmap.height as int;
    lemma_chunk_size(bitmap);
    if n > 0 {
        let i = n - 1;
        lemma_chunks_drawn(desktop, bitmap, rectangles, colors, n - 1, px, py);
        lemma_filled_chunk(bitmap, i);
        assert((i + 1) * h == i * h + h) by (nonlinear_arith);
        assert(rectangles[i].coded == chunk_model(bitmap, i));
        lemma_chunk_limit(bitmap, i);
        assert(colors[i] == bitmap.chunk_colors(i));
        let rows = bitmap.chunk_rows(i);
        if 0 <= px < bitmap.width && i * h <= py < i * h + rows {
            vstd::arithmetic::div_mod::lemma_fundamental_div_mod_converse(py, h, i, py - i * h);
            assert(h * i == i * h) by (nonlinear_arith);
            lemma_filled_shown(bitmap, py, px, 0);
            lemma_filled_shown(bitmap, py, px, 1);
            lemma_filled_shown(bitmap, py, px, 2);
            let at = place(bitmap.width as int, rows, py - i * h, px);
            assert(at == (rectangles[i].bottom - (bitmap.y + py)) * bitmap.width + px);
        }
    } else {
        assert(0 * h == 0) by (nonlinear_arith);
    }
    if n == rectangles.len() {
        lemma_all_rows(bitmap);
    }
}

proof fn lemma_all_rows(bitmap: BitmapUpdate)
    requires
        bitmap.filled(),
    ensures
        bitmap.height <= bitmap.chunk_count() * bitmap.chunk_height(),
{
    let h = bitmap.chunk_height();
    let row = bitmap.height - 1;
    lemma_filled_shown(bitmap, row, 0, 0);
    lemma_chunk_size(bitmap);
    vstd::arithmetic::div_mod::lemma_fundamental_div_mod(row, h);
    vstd::arithmetic::div_mod::lemma_mod_bound(row, h);
    let i = row / h;
    assert(h * i + h <= bitmap.chunk_count() * h) by (nonlinear_arith)
        requires
            i + 1 <= bitmap.chunk_count(),
            h >= 0,
    ;
}

/// Pointers that differ in anything, in their size, their hot spot or their pixels, are hashed from different
/// bytes.
pub proof fn lemma_pointers_hashed_apart(
    width: u16,
    height: u16,
    hot_x: u16,
    hot_y: u16,
    pixels: Seq<u8>,
    other_width: u16,
    other_height: u16,
    other_hot_x: u16,
    other_hot_y: u16,
    other_pixels: Seq<u8>,
)
    requires
        cursor_writes(width as int, height as int, hot_x as int, hot_y as int, pixels) == cursor_writes(
            other_width as int,
            other_height as int,
            other_hot_x as int,
            other_hot_y as int,
            other_pixels,
        ),
    ensures
        width == other_width,
        height == other_height,
        hot_x == other_hot_x,
        hot_y == other_hot_y,
        pixels == other_pixels,
{
    let a = cursor_writes(width as int, height as int, hot_x as int, hot_y as int, pixels);
    let b = cursor_writes(
        other_width as int,
        other_height as int,
        other_hot_x as int,
        other_hot_y as int,
        other_pixels,
    );
    assert(a[0] == b[0] && a[1] == b[1] && a[2] == b[2] && a[3] == b[3] && a[5] == b[5]);
    lemma_written_apart(width as int, other_width as int);
    lemma_written_apart(height as int, other_height as int);
    lemma_written_apart(hot_x as int, other_hot_x as int);
    lemma_written_apart(hot_y as int, other_hot_y as int);
}

} // verus!
