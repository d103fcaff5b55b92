//! Bitmaps in the server's four byte pixel formats, and the reference framebuffer that mirrors
//! what the client shows.

use vstd::prelude::*;

verus! {

/// Bytes taken by one pixel in every format of [`PixelFormat`].
pub const BYTES_PER_PIXEL: usize = 4;

/// Order of the channels within a pixel.
#[derive(Debug, Clone, Copy, PartialEq, Eq, Structural)]
pub enum PixelFormat {
    ARgb32,
    XRgb32,
    ABgr32,
    XBgr32,
    BgrA32,
    BgrX32,
    RgbA32,
    RgbX32,
}

impl PixelFormat {
    /// Where in a pixel its red byte stands.
    pub open spec fn red(self) -> int {
        match self {
            PixelFormat::ARgb32 | PixelFormat::XRgb32 => 1,
            PixelFormat::ABgr32 | PixelFormat::XBgr32 => 3,
            PixelFormat::BgrA32 | PixelFormat::BgrX32 => 2,
            PixelFormat::RgbA32 | PixelFormat::RgbX32 => 0,
        }
    }

    /// Where in a pixel its green byte stands.
    pub open spec fn green(self) -> int {
        match self {
            PixelFormat::ARgb32 | PixelFormat::XRgb32 => 2,
            PixelFormat::ABgr32 | PixelFormat::XBgr32 => 2,
            PixelFormat::BgrA32 | PixelFormat::BgrX32 => 1,
            PixelFormat::RgbA32 | PixelFormat::RgbX32 => 1,
        }
    }

    /// Where in a pixel its blue byte stands.
    pub open spec fn blue(self) -> int {
        match self {
            PixelFormat::ARgb32 | PixelFormat::XRgb32 => 3,
            PixelFormat::ABgr32 | PixelFormat::XBgr32 => 1,
            PixelFormat::BgrA32 | PixelFormat::BgrX32 => 0,
            PixelFormat::RgbA32 | PixelFormat::RgbX32 => 2,
        }
    }

    /// Number of bytes of one pixel.
    pub fn bytes_per_pixel(self) -> (r: u8)
        ensures
            r == BYTES_PER_PIXEL,
    {
        4
    }
}

/// Size of a desktop in pixels.
#[derive(Debug, Clone, Copy, PartialEq, Eq, Structural)]
pub struct DesktopSize {
    pub width: u16,
    pub height: u16,
}

/// A rectangle of pixels: the columns from `x` and the rows from `y`.
#[derive(Debug, Clone, Copy, PartialEq, Eq, Structural)]
pub struct Rect {
    pub x: usize,
    pub y: usize,
    pub width: usize,
    pub height: usize,
}

impl Rect {
    /// Whether the pixel in column `px` and row `py` lies in the rectangle.
    pub open spec fn covers(self, px: int, py: int) -> bool {
        &&& self.x <= px < self.x + self.width
        &&& self.y <= py < self.y + self.height
    }

    /// Whether the rectangle lies in an area of the given size.
    pub open spec fn within(self, width: int, height: int) -> bool {
        &&& self.x + self.width <= width
        &&& self.y + self.height <= height
    }
}

/// Whether one of the rectangles covers the pixel.
pub open spec fn covered(rects: Seq<Rect>, px: int, py: int) -> bool {
    exists|i: int| 0 <= i < rects.len() && (#[trigger] rects[i]).covers(px, py)
}

/// The byte at offset `off` of row `row` in an image whose rows start `stride` bytes apart.
pub open spec fn cell(data: Seq<u8>, stride: int, row: int, off: int) -> u8 {
    data[row * stride + off]
}

/// Whether `data` holds `height` rows of `width` pixels whose starts are `stride` bytes apart.
pub open spec fn holds_image(data: Seq<u8>, stride: int, width: int, height: int) -> bool {
    &&& width > 0
    &&& height > 0
    &&& stride >= width * 4
    &&& data.len() >= (height - 1) * stride + width * 4
}

/// A cell of an image lies inside its data.
pub proof fn lemma_cell_in_bounds(len: int, stride: int, width: int, height: int, row: int, off: int)
    requires
        width > 0,
        height > 0,
        stride >= width * 4,
        len >= (height - 1) * stride + width * 4,
        0 <= row < height,
        0 <= off < width * 4,
    ensures
        0 <= row * stride + off < len,
        0 <= row * stride,
        row * stride <= (height - 1) * stride,
{
    assert(0 <= row * stride && row * stride <= (height - 1) * stride) by (nonlinear_arith)
        requires
            0 <= row < height,
            stride >= 0,
    ;
}

/// Two cells of one image share a place in its data only if they are the same cell.
pub proof fn lemma_cell_distinct(stride: int, row1: int, off1: int, row2: int, off2: int)
    requires
        0 <= off1 < stride,
        0 <= off2 < stride,
        row1 * stride + off1 == row2 * stride + off2,
    ensures
        row1 == row2,
        off1 == off2,
{
    assert(row1 == row2) by (nonlinear_arith)
        requires
            0 <= off1 < stride,
            0 <= off2 < stride,
            row1 * stride + off1 == row2 * stride + off2,
    ;
}

/// A bitmap at a position of the desktop.
///
/// `width`, `height` and `stride` are positive; a row starts every `stride` bytes of `data`.
#[derive(Debug, Clone)]
pub struct BitmapUpdate {
    pub x: u16,
    pub y: u16,
    pub width: u16,
    pub height: u16,
    pub format: PixelFormat,
    pub data: Vec<u8>,
    pub stride: usize,
}

impl BitmapUpdate {
    /// Whether the extents are positive.
    pub open spec fn nonzero(self) -> bool {
        self.width > 0 && self.height > 0 && self.stride > 0
    }

    /// Whether the data holds the whole image.
    pub open spec fn complete(self) -> bool {
        holds_image(self.data@, self.stride as int, self.width as int, self.height as int)
    }

    /// Whether the far edges have coordinates of their own.
    pub open spec fn on_desktop(self) -> bool {
        self.x + self.width <= u16::MAX && self.y + self.height <= u16::MAX
    }

    /// Whether the data holds the whole image.
    pub fn is_complete(&self) -> (r: bool)
        ensures
            r == self.complete(),
    {
        if self.width == 0 || self.height == 0 || self.stride < self.width as usize * 4 {
            return false;
        }
        let rows: u128 = self.height as u128 - 1;
        assert(0 <= rows * self.stride <= u16::MAX * u64::MAX) by (nonlinear_arith)
            requires
                0 <= rows <= u16::MAX,
                0 <= self.stride <= u64::MAX,
        ;
        let needed: u128 = rows * self.stride as u128 + self.width as u128 * 4;
        self.data.len() as u128 >= needed
    }

    /// Where the pixel in column `x` and row `y` starts.
    pub open spec fn sub_start(self, x: int, y: int) -> int {
        y * self.stride + x * 4
    }

    /// The part of the bitmap that starts at column `x` and row `y`, if the bitmap reaches that far.
    pub fn sub(&self, x: u16, y: u16, width: u16, height: u16) -> (r: Option<BitmapUpdate>)
        requires
            self.complete(),
            self.on_desktop(),
            width > 0,
            height > 0,
        ensures
            match r {
                Some(part) => {
                    &&& x + width <= self.width
                    &&& y + height <= self.height
                    &&& part.x == self.x + x
                    &&& part.y == self.y + y
                    &&& part.width == width
                    &&& part.height == height
                    &&& part.format == self.format
                    &&& part.stride == self.stride
                    &&& part.data@ == self.data@.subrange(
                        self.sub_start(x as int, y as int),
                        self.sub_start(x as int, y as int) + (height - 1) * self.stride + width * 4,
                    )
                    &&& part.complete()
                    &&& part.on_desktop()
                },
                None => x + width > self.width || y + height > self.height,
            },
    {
        if x as u32 + width as u32 > self.width as u32 || y as u32 + height as u32
            > self.height as u32 {
            return None;
        }
        let len: usize = self.data.len();
        proof {
            let s = self.stride as int;
            let last = y + height - 1;
            assert(last * s == y * s + (height - 1) * s) by (nonlinear_arith)
                requires
                    last == y + height - 1,
            ;
            lemma_cell_in_bounds(
                len as int,
                s,
                self.width as int,
                self.height as int,
                y as int,
                0,
            );
            lemma_cell_in_bounds(
                len as int,
                s,
                self.width as int,
                self.height as int,
                last,
                (x + width) * 4 - 1,
            );
            assert(0 <= (height - 1) * s) by (nonlinear_arith)
                requires
                    height > 0,
                    s >= 0,
            ;
        }
        let rows: usize = (height as usize - 1) * self.stride;
        let start: usize = y as usize * self.stride + x as usize * 4;
        let end: usize = start + rows + width as usize * 4;
        let data = vstd::slice::slice_to_vec(
            vstd::slice::slice_subrange(self.data.as_slice(), start, end),
        );
        Some(
            BitmapUpdate {
                x: self.x + x,
                y: self.y + y,
                width,
                height,
                format: self.format,
                data,
                stride: self.stride,
            },
        )
    }
}

/// Copies `n` bytes of `src` from `from` over the bytes of `dst` from `at`.
fn copy_bytes(dst: &mut Vec<u8>, at: usize, src: &Vec<u8>, from: usize, n: usize)
    requires
        at + n <= old(dst)@.len(),
        from + n <= src@.len(),
    ensures
        final(dst)@.len() == old(dst)@.len(),
        forall|i: int|
            0 <= i < final(dst)@.len() ==> #[trigger] final(dst)@[i] == if at <= i < at + n {
                src@[i - at + from]
            } else {
                old(dst)@[i]
            },
{
    let mut i: usize = 0;
    let ghost before = dst@;
    while i < n
        invariant
            i <= n,
            at + n <= dst.len(),
            from + n <= src.len(),
            dst@.len() == before.len(),
            forall|k: int|
                0 <= k < dst@.len() ==> #[trigger] dst@[k] == if at <= k < at + i {
                    src@[k - at + from]
                } else {
                    before[k]
                },
        decreases n - i,
    {
        dst.set(at + i, src[from + i]);
        i = i + 1;
    }
}

/// The pixels that the client shows.
#[derive(Debug, Clone)]
pub struct Framebuffer {
    pub width: u16,
    pub height: u16,
    pub format: PixelFormat,
    pub data: Vec<u8>,
    pub stride: usize,
}

impl Framebuffer {
    /// Whether the data holds the whole image.
    pub open spec fn complete(self) -> bool {
        holds_image(self.data@, self.stride as int, self.width as int, self.height as int)
    }

    /// Whether a bitmap lies inside the framebuffer.
    pub open spec fn contains(self, bitmap: BitmapUpdate) -> bool {
        bitmap.x + bitmap.width <= self.width && bitmap.y + bitmap.height <= self.height
    }

    /// Whether the two differ in nothing but their pixels.
    pub open spec fn same_shape(self, other: Framebuffer) -> bool {
        &&& self.width == other.width
        &&& self.height == other.height
        &&& self.format == other.format
        &&& self.stride == other.stride
        &&& self.data@.len() == other.data@.len()
    }

    /// What a cell holds once the rectangles of `bitmap` have been copied in.
    pub open spec fn patched_cell(self, bitmap: BitmapUpdate, rects: Seq<Rect>, row: int, off: int) -> u8 {
        if covered(rects, off / 4 - bitmap.x, row - bitmap.y) {
            cell(bitmap.data@, bitmap.stride as int, row - bitmap.y, off - bitmap.x * 4)
        } else {
            cell(self.data@, self.stride as int, row, off)
        }
    }

    /// Whether `self` is `old` with the rectangles of `bitmap` copied in and nothing else changed.
    pub open spec fn patched_from(self, old: Framebuffer, bitmap: BitmapUpdate, rects: Seq<Rect>) -> bool {
        &&& self.same_shape(old)
        &&& forall|row: int, off: int|
            0 <= row < old.height && 0 <= off < old.width * 4 ==> #[trigger] cell(
                self.data@,
                self.stride as int,
                row,
                off,
            ) == old.patched_cell(bitmap, rects, row, off)
    }

    /// The framebuffer that a first frame fills, if that frame starts at the desktop's origin.
    pub fn from_bitmap(bitmap: BitmapUpdate) -> (r: Option<Framebuffer>)
        ensures
            match r {
                Some(fb) => {
                    &&& bitmap.x == 0 && bitmap.y == 0
                    &&& fb.width == bitmap.width
                    &&& fb.height == bitmap.height
                    &&& fb.format == bitmap.format
                    &&& fb.stride == bitmap.stride
                    &&& fb.data == bitmap.data
                },
                None => bitmap.x != 0 || bitmap.y != 0,
            },
    {
        if bitmap.x != 0 || bitmap.y != 0 {
            return None;
        }
        Some(
            Framebuffer {
                width: bitmap.width,
                height: bitmap.height,
                format: bitmap.format,
                data: bitmap.data,
                stride: bitmap.stride,
            },
        )
    }

    /// Copies one rectangle of a bitmap in.
    fn update_rect(&mut self, bitmap: &BitmapUpdate, rect: Rect)
        requires
            old(self).complete(),
            bitmap.complete(),
            old(self).contains(*bitmap),
            rect.within(bitmap.width as int, bitmap.height as int),
        ensures
            final(self).patched_from(*old(self), *bitmap, seq![rect]),
            final(self).complete(),
    {
        let ghost before = *self;
        let ghost s = self.stride as int;
        let ghost bs = bitmap.stride as int;
        let mut r: usize = 0;
        let stride: usize = self.stride;
        while r < rect.height
            invariant
                r <= rect.height,
                stride == self.stride,
                before.complete(),
                bitmap.complete(),
                before.contains(*bitmap),
                rect.within(bitmap.width as int, bitmap.height as int),
                self.same_shape(before),
                s == self.stride,
                bs == bitmap.stride,
                forall|row: int, off: int|
                    0 <= row < before.height && 0 <= off < before.width * 4 ==> #[trigger] cell(
                        self.data@,
                        s,
                        row,
                        off,
                    ) == if bitmap.y + rect.y <= row < bitmap.y + rect.y + r && rect.x <= off / 4
                        - bitmap.x < rect.x + rect.width {
                        cell(bitmap.data@, bs, row - bitmap.y, off - bitmap.x * 4)
                    } else {
                        cell(before.data@, s, row, off)
                    },
            decreases rect.height - r,
        {
            let ghost mid = *self;
            let dlen: usize = self.data.len();
            let blen: usize = bitmap.data.len();
            let drow: usize = bitmap.y as usize + rect.y + r;
            let dcol: usize = (bitmap.x as usize + rect.x) * 4;
            let brow: usize = rect.y + r;
            let bcol: usize = rect.x * 4;
            let n: usize = rect.width * 4;
            proof {
                lemma_cell_in_bounds(dlen as int, s, self.width as int, self.height as int, drow as int, 0);
                lemma_cell_in_bounds(blen as int, bs, bitmap.width as int, bitmap.height as int, brow as int, 0);
                if n > 0 {
                    lemma_cell_in_bounds(dlen as int, s, self.width as int, self.height as int, drow as int, dcol + n - 1);
                    lemma_cell_in_bounds(blen as int, bs, bitmap.width as int, bitmap.height as int, brow as int, bcol + n - 1);
                }
            }
            let at: usize = drow * stride + dcol;
            let from: usize = brow * bitmap.stride + bcol;
            copy_bytes(&mut self.data, at, &bitmap.data, from, n);
            assert forall|row: int, off: int|
                0 <= row < before.height && 0 <= off < before.width * 4 implies #[trigger] cell(
                self.data@,
                s,
                row,
                off,
            ) == if bitmap.y + rect.y <= row < bitmap.y + rect.y + r + 1 && rect.x <= off / 4
                - bitmap.x < rect.x + rect.width {
                cell(bitmap.data@, bs, row - bitmap.y, off - bitmap.x * 4)
            } else {
                cell(before.data@, s, row, off)
            } by {
                lemma_cell_in_bounds(dlen as int, s, self.width as int, self.height as int, row, off);
                let i = row * s + off;
                assert(cell(mid.data@, s, row, off) == mid.data@[i]);
                if at <= i < at + n {
                    let o = i - drow * s;
                    assert(0 <= o < s);
                    lemma_cell_distinct(s, row, off, drow as int, o);
                } else if row == drow && rect.x <= off / 4 - bitmap.x < rect.x + rect.width {
                    assert(at <= i < at + n);
                }
            }
            r = r + 1;
        }
        assert forall|row: int, off: int|
            0 <= row < before.height && 0 <= off < before.width * 4 implies #[trigger] cell(
            self.data@,
            s,
            row,
            off,
        ) == before.patched_cell(*bitmap, seq![rect], row, off) by {
            let one = seq![rect];
            assert(one[0] == rect);
            assert(covered(one, off / 4 - bitmap.x, row - bitmap.y) <==> rect.covers(
                off / 4 - bitmap.x,
                row - bitmap.y,
            ));
        }
    }

    /// Copies the rectangles of a bitmap in, and nothing else of it.
    ///
    /// A bitmap whose pixels are laid out in another format is left aside.
    pub fn update_diffs(&mut self, bitmap: &BitmapUpdate, diffs: &Vec<Rect>)
        requires
            old(self).complete(),
            bitmap.complete(),
            old(self).contains(*bitmap),
            forall|i: int|
                0 <= i < diffs@.len() ==> (#[trigger] diffs@[i]).within(
                    bitmap.width as int,
                    bitmap.height as int,
                ),
        ensures
            final(self).complete(),
            old(self).format == bitmap.format ==> final(self).patched_from(
                *old(self),
                *bitmap,
                diffs@,
            ),
            old(self).format != bitmap.format ==> *final(self) == *old(self),
    {
        if self.format != bitmap.format {
            return ;
        }
        let ghost before = *self;
        let mut i: usize = 0;
        assert(diffs@.take(0) =~= Seq::<Rect>::empty());
        while i < diffs.len()
            invariant
                i <= diffs@.len(),
                before.complete(),
                self.complete(),
                bitmap.complete(),
                before.contains(*bitmap),
                self.patched_from(before, *bitmap, diffs@.take(i as int)),
                forall|k: int|
                    0 <= k < diffs@.len() ==> (#[trigger] diffs@[k]).within(
                        bitmap.width as int,
                        bitmap.height as int,
                    ),
            decreases diffs@.len() - i,
        {
            let ghost mid = *self;
            self.update_rect(bitmap, diffs[i]);
            proof {
                let done = diffs@.take(i as int);
                let next = diffs@.take(i + 1);
                let one = seq![diffs@[i as int]];
                assert(one[0] == diffs@[i as int]);
                assert forall|px: int, py: int| #[trigger]
                    covered(next, px, py) <==> covered(done, px, py) || covered(one, px, py) by {
                    if covered(next, px, py) {
                        let k = choose|k: int| 0 <= k < next.len() && (#[trigger] next[k]).covers(px, py);
                        if k < i {
                            assert(done[k].covers(px, py));
                        } else {
                            assert(one[0].covers(px, py));
                        }
                    }
                    if covered(done, px, py) {
                        let k = choose|k: int| 0 <= k < done.len() && (#[trigger] done[k]).covers(px, py);
                        assert(next[k].covers(px, py));
                    }
                    if covered(one, px, py) {
                        assert(next[i as int].covers(px, py));
                    }
                }
                assert forall|row: int, off: int|
                    0 <= row < before.height && 0 <= off < before.width * 4 implies #[trigger] cell(
                    self.data@,
                    self.stride as int,
                    row,
                    off,
                ) == before.patched_cell(*bitmap, next, row, off) by {
                    assert(cell(mid.data@, mid.stride as int, row, off) == before.patched_cell(
                        *bitmap,
                        done,
                        row,
                        off,
                    ));
                    assert(covered(next, off / 4 - bitmap.x, row - bitmap.y) <==> covered(
                        done,
                        off / 4 - bitmap.x,
                        row - bitmap.y,
                    ) || covered(one, off / 4 - bitmap.x, row - bitmap.y));
                }
            }
            i = i + 1;
        }
        assert(diffs@.take(diffs@.len() as int) =~= diffs@);
    }
}

} // verus!
