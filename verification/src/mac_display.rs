//! The display of a Mac: its size, its frames and its pointer.

use std::collections::hash_map::DefaultHasher;
use std::collections::{HashMap, VecDeque};
use std::hash::Hasher;

use vstd::prelude::*;
use vstd::std_specs::hash::DefaultHasherAdditionalSpecFns;

use crate::encoder::{DisplayUpdate, RGBAPointer};
use crate::frame::{BitmapUpdate, DesktopSize, PixelFormat};
use crate::text::{decimal, lemma_decimal_parses, lowered, parse, parsed, same, to_lowercase};
use crate::wire::{bytes16, bytes64, le16, le64};

verus! {

broadcast use vstd::std_specs::hash::group_hash_axioms;

/// Longest side of a pointer.
pub const CURSOR_LIMIT: usize = 96;

/// Pointers that a client caches.
pub const CURSOR_CACHE: u16 = 512;

/// A pointer as it was captured, bottom row first.
#[derive(Debug, Clone)]
pub struct MacCursorRaw {
    pub width: u16,
    pub height: u16,
    pub hot_x: u16,
    pub hot_y: u16,
    pub bgra_bottom_up: Vec<u8>,
    /// Tells pointers apart.
    pub hash: u64,
}

/// Whether a pointer of this size is passed on.
pub fn cursor_size_ok(width: usize, height: usize) -> (r: bool)
    ensures
        r == (0 < width <= CURSOR_LIMIT && 0 < height <= CURSOR_LIMIT),
{
    !(width == 0 || height == 0 || width > CURSOR_LIMIT || height > CURSOR_LIMIT)
}

/// What is hashed of a pointer, one item for each number: its size, its hot spot, and its pixels with
/// their count before them.
pub open spec fn cursor_writes(
    width: int,
    height: int,
    hot_x: int,
    hot_y: int,
    pixels: Seq<u8>,
) -> Seq<Seq<u8>> {
    seq![
        le64(width),
        le64(height),
        le16(hot_x),
        le16(hot_y),
        le64(pixels.len() as int),
        pixels,
    ]
}

/// Tells pointers apart, by the standard hash of their size, their hot spot and their pixels.
pub fn cursor_hash(width: u16, height: u16, hot_x: u16, hot_y: u16, pixels: &Vec<u8>) -> (r: u64)
    ensures
        r == DefaultHasher::spec_finish(
            cursor_writes(width as int, height as int, hot_x as int, hot_y as int, pixels@),
        ),
{
    let mut hasher = DefaultHasher::new();
    hasher.write(bytes64(width as u64).as_slice());
    hasher.write(bytes64(height as u64).as_slice());
    hasher.write(bytes16(hot_x).as_slice());
    hasher.write(bytes16(hot_y).as_slice());
    hasher.write(bytes64(pixels.len() as u64).as_slice());
    hasher.write(pixels.as_slice());
    assert(hasher@ =~= cursor_writes(
        width as int,
        height as int,
        hot_x as int,
        hot_y as int,
        pixels@,
    ));
    hasher.finish()
}

/// The hot spot kept inside the pointer.
pub fn clamp_hot_spot(at: u16, extent: u16) -> (r: u16)
    ensures
        r == if extent == 0 {
            0
        } else if at < extent {
            at as int
        } else {
            extent - 1
        },
{
    if extent == 0 {
        0
    } else if at < extent {
        at
    } else {
        extent - 1
    }
}

/// The rows of an image in the opposite order.
pub fn flip_rows(rows: &Vec<u8>, stride: usize, height: usize) -> (r: Vec<u8>)
    requires
        rows@.len() == stride * height,
    ensures
        r@.len() == rows@.len(),
        forall|y: int, k: int|
            0 <= y < height && 0 <= k < stride ==> #[trigger] r@[y * stride + k] == rows@[(height - 1
                - y) * stride + k],
{
    let mut out: Vec<u8> = Vec::new();
    let mut y: usize = 0;
    while y < height
        invariant
            y <= height,
            rows@.len() == stride * height,
            out@.len() == y * stride,
            forall|i: int, k: int|
                0 <= i < y && 0 <= k < stride ==> #[trigger] out@[i * stride + k] == rows@[(height - 1
                    - i) * stride + k],
        decreases height - y,
    {
        let len: usize = rows.len();
        let row: usize = height - 1 - y;
        proof {
            assert(row * stride + stride <= len) by (nonlinear_arith)
                requires
                    0 <= row < height,
                    len == stride * height,
            ;
            assert(0 <= row * stride) by (nonlinear_arith);
        }
        let start: usize = row * stride;
        let mut k: usize = 0;
        while k < stride
            invariant
                k <= stride,
                y < height,
                row == height - 1 - y,
                start == row * stride,
                start + stride <= rows@.len(),
                len == rows@.len(),
                out@.len() == y * stride + k,
                forall|i: int, j: int|
                    0 <= i < y && 0 <= j < stride ==> #[trigger] out@[i * stride + j] == rows@[(height
                        - 1 - i) * stride + j],
                forall|j: int| 0 <= j < k ==> #[trigger] out@[y * stride + j] == rows@[start + j],
            decreases stride - k,
        {
            let ghost before = out@;
            out.push(rows[start + k]);
            assert forall|i: int, j: int| 0 <= i < y && 0 <= j < stride implies #[trigger] out@[i
                * stride + j] == rows@[(height - 1 - i) * stride + j] by {
                assert(i * stride + j < y * stride && i * stride >= 0) by (nonlinear_arith)
                    requires
                        0 <= i < y,
                        0 <= j < stride,
                ;
                assert(before[i * stride + j] == rows@[(height - 1 - i) * stride + j]);
            }
            assert forall|j: int| 0 <= j < k + 1 implies #[trigger] out@[y * stride + j] == rows@[start
                + j] by {
                assert(0 <= y * stride) by (nonlinear_arith);
                if j < k {
                    assert(before[y * stride + j] == rows@[start + j]);
                }
            }
            k = k + 1;
        }
        assert((y + 1) * stride == y * stride + stride) by (nonlinear_arith);
        assert forall|i: int, j: int| 0 <= i < y + 1 && 0 <= j < stride implies #[trigger] out@[i * stride
            + j] == rows@[(height - 1 - i) * stride + j] by {
            if i == y {
                assert(out@[y * stride + j] == rows@[start + j]);
            }
        }
        y = y + 1;
    }
    assert(height * stride == stride * height) by (nonlinear_arith);
    out
}

/// Keeps which pointers the client has cached.
pub struct MacCursorTracker {
    pub last_hash: Option<u64>,
    pub cache_map: HashMap<u64, u16>,
    pub next_cache_index: u16,
    pub initial_sent: bool,
}

impl MacCursorTracker {
    /// Whether indices are those of the client's cache, and, as long as it has room, given out one
    /// after the other.
    pub open spec fn wf(self) -> bool {
        &&& self.next_cache_index < CURSOR_CACHE
        &&& self.cache_map@.dom().finite()
        &&& forall|h: u64| #[trigger] self.cache_map@.contains_key(h) ==> self.cache_map@[h] < CURSOR_CACHE
        &&& self.cache_map@.len() <= CURSOR_CACHE ==> {
            &&& self.next_cache_index == self.cache_map@.len() % (CURSOR_CACHE as nat)
            &&& forall|h: u64| #[trigger]
                self.cache_map@.contains_key(h) ==> self.cache_map@[h] < self.cache_map@.len()
            &&& forall|h: u64, g: u64| #[trigger]
                self.cache_map@.contains_key(h) && #[trigger] self.cache_map@.contains_key(g) && h != g
                    ==> self.cache_map@[h] != self.cache_map@[g]
        }
    }

    /// What the client is told of a pointer that was captured: nothing where it is the one it shows,
    /// its place in the cache where it is there, else its pixels and the place where to keep them.
    pub open spec fn told(self, captured: Option<MacCursorRaw>) -> Option<DisplayUpdate> {
        match captured {
            None => None,
            Some(cursor) => if self.initial_sent && self.last_hash == Some(cursor.hash) {
                None
            } else if self.cache_map@.contains_key(cursor.hash) {
                Some(DisplayUpdate::CachedPointer(self.cache_map@[cursor.hash]))
            } else {
                Some(
                    DisplayUpdate::RGBAPointer(
                        RGBAPointer {
                            width: cursor.width,
                            height: cursor.height,
                            hot_x: cursor.hot_x,
                            hot_y: cursor.hot_y,
                            cache_index: self.next_cache_index,
                            data: cursor.bgra_bottom_up,
                        },
                    ),
                )
            },
        }
    }

    /// Whether `self` is what becomes of `old` when a pointer is captured.
    pub open spec fn noted(self, old: MacCursorTracker, captured: Option<MacCursorRaw>) -> bool {
        match old.told(captured) {
            None => self == old,
            Some(update) => {
                &&& self.initial_sent
                &&& self.last_hash == Some(captured->0.hash)
                &&& if update is CachedPointer {
                    &&& self.cache_map@ == old.cache_map@
                    &&& self.next_cache_index == old.next_cache_index
                } else {
                    &&& self.cache_map@ == old.cache_map@.insert(captured->0.hash, old.next_cache_index)
                    &&& self.next_cache_index == (old.next_cache_index + 1) % CURSOR_CACHE as int
                }
            },
        }
    }

    /// A tracker of a client that has cached nothing yet.
    pub fn new() -> (r: MacCursorTracker)
        ensures
            r.wf(),
            r.last_hash is None,
            r.cache_map@ == Map::<u64, u16>::empty(),
            r.next_cache_index == 0,
            !r.initial_sent,
    {
        let cache_map: HashMap<u64, u16> = HashMap::new();
        assert(cache_map@.dom() =~= Set::<u64>::empty());
        MacCursorTracker { last_hash: None, cache_map, next_cache_index: 0, initial_sent: false }
    }

    /// What the client is told of a pointer that was captured.
    pub fn check_cursor(&mut self, captured: Option<MacCursorRaw>) -> (r: Option<DisplayUpdate>)
        requires
            old(self).wf(),
        ensures
            final(self).wf(),
            r == old(self).told(captured),
            final(self).noted(*old(self), captured),
    {
        let cursor = match captured {
            Some(cursor) => cursor,
            None => {
                return None;
            },
        };
        let hash: u64 = cursor.hash;
        if self.initial_sent {
            if let Some(last) = self.last_hash {
                if last == hash {
                    return None;
                }
            }
        }
        self.last_hash = Some(hash);
        self.initial_sent = true;
        if let Some(index) = self.cache_map.get(&hash) {
            return Some(DisplayUpdate::CachedPointer(*index));
        }
        let ghost before = self.cache_map@;
        let cache_index: u16 = self.next_cache_index;
        self.next_cache_index = (self.next_cache_index + 1) % CURSOR_CACHE;
        self.cache_map.insert(hash, cache_index);
        assert(self.cache_map@ == before.insert(hash, cache_index));
        assert(self.cache_map@.len() == before.len() + 1);
        Some(
            DisplayUpdate::RGBAPointer(
                RGBAPointer {
                    width: cursor.width,
                    height: cursor.height,
                    hot_x: cursor.hot_x,
                    hot_y: cursor.hot_y,
                    cache_index,
                    data: cursor.bgra_bottom_up,
                },
            ),
        )
    }
}

/// As long as the client's cache has not overflowed, no two pointers share a place in it.
pub proof fn lemma_cache_places(tracker: MacCursorTracker, one: u64, other: u64)
    requires
        tracker.wf(),
        tracker.cache_map@.len() <= CURSOR_CACHE,
        tracker.cache_map@.contains_key(one),
        tracker.cache_map@.contains_key(other),
        tracker.cache_map@[one] == tracker.cache_map@[other],
    ensures
        one == other,
{
}

/// A frame as it was captured. Rows start `bytes_per_row` bytes apart.
#[derive(Debug, Clone)]
pub struct CapturedFrame {
    pub width: usize,
    pub height: usize,
    pub bytes_per_row: usize,
    pub data: Vec<u8>,
}

/// The column or row of `src` that is taken for number `at` of `dst`, by a ratio with sixteen binary
/// places.
pub open spec fn sample(at: int, src: int, dst: int) -> int {
    let place = at * ((src * 65536) / dst) / 65536;
    if place < src - 1 {
        place
    } else {
        src - 1
    }
}

impl CapturedFrame {
    /// Whether the frame is twice as large both ways.
    pub open spec fn doubles(self, width: int, height: int) -> bool {
        self.width == width * 2 && self.height == height * 2
    }

    /// Which pixel of the frame is taken for the pixel in column `x` and row `y` of a picture of the
    /// given size.
    pub open spec fn source(self, width: int, height: int, x: int, y: int) -> int {
        if self.doubles(width, height) {
            (y * 2) * self.width + x * 2
        } else {
            sample(y, self.height as int, height) * (self.bytes_per_row as int / 4) + sample(
                x,
                self.width as int,
                width,
            )
        }
    }

    /// Whether the frame can be scaled to the given size: no pixel lies beyond its data.
    pub open spec fn scalable(self, width: int, height: int) -> bool {
        &&& width > 0
        &&& height > 0
        &&& 0 < self.width <= 0xFFFF_FFFF
        &&& 0 < self.height <= 0xFFFF_FFFF
        &&& self.source(width, height, width - 1, height - 1) < self.data@.len() as int / 4
    }
}

/// Whether the bytes of pixel `i` of `out` are those of pixel `j` of `src`.
pub open spec fn same_pixel(out: Seq<u8>, i: int, src: Seq<u8>, j: int) -> bool {
    &&& out[i * 4] == src[j * 4]
    &&& out[i * 4 + 1] == src[j * 4 + 1]
    &&& out[i * 4 + 2] == src[j * 4 + 2]
    &&& out[i * 4 + 3] == src[j * 4 + 3]
}

proof fn lemma_sample_bounds(at: int, src: int, dst: int)
    requires
        0 <= at < dst,
        0 < src,
    ensures
        0 <= sample(at, src, dst) < src,
        sample(at, src, dst) <= sample(dst - 1, src, dst),
        0 <= at * ((src * 65536) / dst) <= src * 65536,
{
    let ratio = (src * 65536) / dst;
    assert(ratio >= 0) by (nonlinear_arith)
        requires
            ratio == (src * 65536) / dst,
            src > 0,
            dst > 0,
    ;
    vstd::arithmetic::div_mod::lemma_fundamental_div_mod(src * 65536, dst);
    assert(0 <= at * ratio && at * ratio <= (dst - 1) * ratio && (dst - 1) * ratio <= dst * ratio)
        by (nonlinear_arith)
        requires
            0 <= at <= dst - 1,
            ratio >= 0,
    ;
    assert(dst * ratio <= src * 65536);
    assert(at * ratio / 65536 <= (dst - 1) * ratio / 65536);
}

proof fn lemma_source_bounds(frame: CapturedFrame, width: int, height: int, x: int, y: int)
    requires
        frame.scalable(width, height),
        0 <= x < width,
        0 <= y < height,
    ensures
        0 <= frame.source(width, height, x, y) < frame.data@.len() as int / 4,
{
    if frame.doubles(width, height) {
        let w = frame.width as int;
        assert(0 <= (y * 2) * w <= ((height - 1) * 2) * w) by (nonlinear_arith)
            requires
                0 <= y <= height - 1,
                w > 0,
        ;
    } else {
        lemma_sample_bounds(y, frame.height as int, height);
        lemma_sample_bounds(x, frame.width as int, width);
        lemma_sample_bounds(height - 1, frame.height as int, height);
        lemma_sample_bounds(width - 1, frame.width as int, width);
        let stride = frame.bytes_per_row as int / 4;
        let sy = sample(y, frame.height as int, height);
        let last = sample(height - 1, frame.height as int, height);
        assert(0 <= sy * stride <= last * stride) by (nonlinear_arith)
            requires
                0 <= sy <= last,
                stride >= 0,
        ;
    }
}

/// The column or row of `src` that is taken for number `at` of `dst`.
fn sample_at(at: usize, src: usize, dst: usize) -> (r: usize)
    requires
        at < dst <= u16::MAX,
        0 < src <= 0xFFFF_FFFF,
    ensures
        r == sample(at as int, src as int, dst as int),
{
    proof {
        lemma_sample_bounds(at as int, src as int, dst as int);
    }
    let ratio: u64 = (src as u64 * 65536) / (dst as u64);
    let place: u64 = at as u64 * ratio / 65536;
    if place < (src - 1) as u64 {
        place as usize
    } else {
        src - 1
    }
}

impl CapturedFrame {
    /// Whether [`process_frame`] can make a picture of the given size of the frame.
    pub fn is_usable(&self, target_w: u16, target_h: u16) -> (r: bool)
        ensures
            r ==> target_w * target_h * 4 <= usize::MAX,
            r ==> (self.width == target_w && self.height == target_h || self.scalable(
                target_w as int,
                target_h as int,
            )),
            !r ==> target_w * target_h * 4 > usize::MAX || !(self.width == target_w && self.height
                == target_h || self.scalable(target_w as int, target_h as int)),
    {
        let width: usize = target_w as usize;
        let height: usize = target_h as usize;
        assert(0 <= target_w * target_h <= u16::MAX * u16::MAX) by (nonlinear_arith)
            requires
                0 <= target_w <= u16::MAX,
                0 <= target_h <= u16::MAX,
        ;
        let area: u64 = target_w as u64 * target_h as u64;
        if area * 4 > usize::MAX as u64 {
            return false;
        }
        if self.width == width && self.height == height {
            return true;
        }
        if width == 0 || height == 0 || self.width == 0 || self.height == 0 || self.width as u64
            > 0xFFFF_FFFF || self.height as u64 > 0xFFFF_FFFF {
            return false;
        }
        let half = self.width == width * 2 && self.height == height * 2;
        let last: u128 = if half {
            let y: u128 = (height as u128 - 1) * 2;
            assert(0 <= y * self.width <= 2 * u16::MAX * 0xFFFF_FFFF) by (nonlinear_arith)
                requires
                    0 <= y <= 2 * u16::MAX,
                    0 <= self.width <= 0xFFFF_FFFF,
            ;
            y * self.width as u128 + (width as u128 - 1) * 2
        } else {
            let row: usize = sample_at(height - 1, self.height, height);
            let column: usize = sample_at(width - 1, self.width, width);
            let stride: usize = self.bytes_per_row / 4;
            assert(0 <= row * stride <= u64::MAX * u64::MAX) by (nonlinear_arith)
                requires
                    0 <= row <= u64::MAX,
                    0 <= stride <= u64::MAX,
            ;
            row as u128 * stride as u128 + column as u128
        };
        assert(last == self.source(width as int, height as int, width - 1, height - 1));
        last < (self.data.len() / 4) as u128
    }
}

/// Appends pixel `j` of `src`.
fn push_pixel(out: &mut Vec<u8>, src: &Vec<u8>, j: usize)
    requires
        j < src@.len() as int / 4,
    ensures
        final(out)@ == old(out)@.push(src@[j * 4]).push(src@[j * 4 + 1]).push(src@[j * 4 + 2]).push(
            src@[j * 4 + 3],
        ),
{
    let _len: usize = src.len();
    out.push(src[j * 4]);
    out.push(src[j * 4 + 1]);
    out.push(src[j * 4 + 2]);
    out.push(src[j * 4 + 3]);
}

/// The picture that a captured frame gives in the given size.
///
/// A frame of that size is taken as it is, as far as its data reaches. Any other is scaled to the
/// nearest pixel, by leaving out every second one where it is exactly twice as large.
pub fn process_frame(frame: &CapturedFrame, target_w: u16, target_h: u16) -> (r: Vec<u8>)
    requires
        target_w * target_h * 4 <= usize::MAX,
        frame.width == target_w && frame.height == target_h || frame.scalable(
            target_w as int,
            target_h as int,
        ),
    ensures
        if frame.width == target_w && frame.height == target_h {
            r@ == frame.data@.take(
                if target_w * target_h * 4 < frame.data@.len() {
                    target_w * target_h * 4
                } else {
                    frame.data@.len() as int
                },
            )
        } else {
            &&& r@.len() == target_w * target_h * 4
            &&& forall|x: int, y: int|
                0 <= x < target_w && 0 <= y < target_h ==> #[trigger] same_pixel(
                    r@,
                    y * target_w + x,
                    frame.data@,
                    frame.source(target_w as int, target_h as int, x, y),
                )
        },
{
    let width: usize = target_w as usize;
    let height: usize = target_h as usize;
    let len: usize = frame.data.len();
    assert(width * 4 * height == width * height * 4 && width * 4 <= usize::MAX) by (nonlinear_arith)
        requires
            width * height * 4 <= usize::MAX,
            0 <= width <= u16::MAX,
            0 <= height,
    ;
    let expected: usize = width * 4 * height;
    if frame.width == width && frame.height == height {
        let keep: usize = if expected < len {
            expected
        } else {
            len
        };
        let part = vstd::slice::slice_subrange(frame.data.as_slice(), 0, keep);
        assert(part@ =~= frame.data@.take(keep as int));
        return vstd::slice::slice_to_vec(part);
    }
    let half = frame.width == width * 2 && frame.height == height * 2;
    let stride: usize = frame.bytes_per_row / 4;
    let ghost w = width as int;
    let ghost h = height as int;
    let mut out: Vec<u8> = Vec::new();
    let mut y: usize = 0;
    while y < height
        invariant
            y <= height,
            width == target_w,
            height == target_h,
            w == width,
            h == height,
            len == frame.data@.len(),
            half == frame.doubles(w, h),
            stride == frame.bytes_per_row as int / 4,
            frame.scalable(w, h),
            out@.len() == (y * w) * 4,
            forall|i: int, j: int|
                0 <= i < w && 0 <= j < y ==> #[trigger] same_pixel(
                    out@,
                    j * w + i,
                    frame.data@,
                    frame.source(w, h, i, j),
                ),
        decreases height - y,
    {
        let mut x: usize = 0;
        while x < width
            invariant
                x <= width,
                y < height,
                width == target_w,
                height == target_h,
                w == width,
                h == height,
                len == frame.data@.len(),
                half == frame.doubles(w, h),
                stride == frame.bytes_per_row as int / 4,
                frame.scalable(w, h),
                out@.len() == (y * w + x) * 4,
                forall|i: int, j: int|
                    0 <= i < w && (0 <= j < y || j == y && i < x) ==> #[trigger] same_pixel(
                        out@,
                        j * w + i,
                        frame.data@,
                        frame.source(w, h, i, j),
                    ),
            decreases width - x,
        {
            proof {
                lemma_source_bounds(*frame, w, h, x as int, y as int);
                lemma_sample_bounds(y as int, frame.height as int, h);
                lemma_sample_bounds(x as int, frame.width as int, w);
            }
            let from: usize = if half {
                assert(0 <= (y * 2) * frame.width) by (nonlinear_arith);
                (y * 2) * frame.width + x * 2
            } else {
                let row: usize = sample_at(y, frame.height, height);
                let column: usize = sample_at(x, frame.width, width);
                assert(0 <= row * stride) by (nonlinear_arith);
                row * stride + column
            };
            let ghost before = out@;
            push_pixel(&mut out, &frame.data, from);
            proof {
                let at = y * w + x;
                assert(0 <= y * w) by (nonlinear_arith)
                    requires
                        w >= 0,
                ;
                assert(same_pixel(out@, at, frame.data@, from as int));
                assert forall|i: int, j: int|
                    0 <= i < w && (0 <= j < y || j == y && i < x + 1) implies #[trigger] same_pixel(
                    out@,
                    j * w + i,
                    frame.data@,
                    frame.source(w, h, i, j),
                ) by {
                    if !(j == y && i == x) {
                        assert(same_pixel(before, j * w + i, frame.data@, frame.source(w, h, i, j)));
                        if j < y {
                            assert(j * w + i < y * w && 0 <= j * w) by (nonlinear_arith)
                                requires
                                    0 <= i < w,
                                    0 <= j < y,
                            ;
                        }
                        assert(0 <= j * w + i < at);
                    }
                }
            }
            x = x + 1;
        }
        assert((y + 1) * w == y * w + w) by (nonlinear_arith);
        y = y + 1;
    }
    assert((h * w) * 4 == w * h * 4) by (nonlinear_arith);
    out
}

/// What the environment says of the display.
#[derive(Debug, Clone)]
pub struct DisplayEnv {
    /// `RDP_FPS`
    pub fps: Option<String>,
    /// `RDP_RES`
    pub res: Option<String>,
}

/// Frames per second unless the environment says otherwise.
pub const DEFAULT_FPS: u32 = 30;

impl DisplayEnv {
    /// Frames per second that are asked for, from one to a hundred and twenty.
    pub open spec fn fps_wanted(self) -> int {
        let n: int = match self.fps {
            Some(s) => match parsed(s@, 10, u32::MAX as int) {
                Some(n) => n,
                None => DEFAULT_FPS as int,
            },
            None => DEFAULT_FPS as int,
        };
        if n < 1 {
            1
        } else if n > 120 {
            120
        } else {
            n
        }
    }

    /// The size that is asked for, where the display itself has the given one.
    pub open spec fn size_wanted(self, native: DesktopSize) -> DesktopSize {
        let (width, height): (u16, u16) = match self.res {
            Some(s) => if lowered(s@) == "720p"@ || lowered(s@) == "hd"@ {
                (1280, 720)
            } else if lowered(s@) == "540p"@ || lowered(s@) == "qhd"@ {
                (960, 540)
            } else if lowered(s@) == "1080p"@ || lowered(s@) == "fhd"@ {
                (1920, 1080)
            } else {
                (native.width, native.height)
            },
            None => (native.width, native.height),
        };
        DesktopSize { width: (width / 4 * 4) as u16, height: (height / 4 * 4) as u16 }
    }
}

/// The display of a Mac.
#[derive(Debug, Clone)]
pub struct MacDisplay {
    pub rdp_width: u16,
    pub rdp_height: u16,
    pub target_width: u16,
    pub target_height: u16,
    pub mac_logical_width: u16,
    pub mac_logical_height: u16,
    pub fps: u32,
    /// Whether the client has to be taken to the size of the display.
    pub needs_reactivation_resize: bool,
}

impl MacDisplay {
    /// A display whose own size is given, as the environment wants it shown. Both sides are multiples
    /// of four.
    pub fn new(mac_w: u16, mac_h: u16, env: &DisplayEnv) -> (r: MacDisplay)
        ensures
            (DesktopSize { width: r.rdp_width, height: r.rdp_height }) == env.size_wanted(
                DesktopSize { width: mac_w, height: mac_h },
            ),
            r.target_width == r.rdp_width,
            r.target_height == r.rdp_height,
            r.mac_logical_width == mac_w,
            r.mac_logical_height == mac_h,
            r.fps == env.fps_wanted(),
            !r.needs_reactivation_resize,
            r.rdp_width % 4 == 0,
            r.rdp_height % 4 == 0,
    {
        let asked: u32 = match &env.fps {
            Some(s) => match parse(s.as_str(), 10, u32::MAX as u64) {
                Some(n) => n as u32,
                None => DEFAULT_FPS,
            },
            None => DEFAULT_FPS,
        };
        let fps: u32 = if asked < 1 {
            1
        } else if asked > 120 {
            120
        } else {
            asked
        };
        let (width, height): (u16, u16) = match &env.res {
            Some(s) => {
                let small = to_lowercase(s.as_str());
                let name = small.as_str();
                if same(name, "720p") || same(name, "hd") {
                    (1280, 720)
                } else if same(name, "540p") || same(name, "qhd") {
                    (960, 540)
                } else if same(name, "1080p") || same(name, "fhd") {
                    (1920, 1080)
                } else {
                    (mac_w, mac_h)
                }
            },
            None => (mac_w, mac_h),
        };
        let rdp_width: u16 = width / 4 * 4;
        let rdp_height: u16 = height / 4 * 4;
        MacDisplay {
            rdp_width,
            rdp_height,
            target_width: rdp_width,
            target_height: rdp_height,
            mac_logical_width: mac_w,
            mac_logical_height: mac_h,
            fps,
            needs_reactivation_resize: false,
        }
    }

    /// The size in which clients are shown the display.
    pub fn size(&self) -> (r: DesktopSize)
        ensures
            r == (DesktopSize { width: self.rdp_width, height: self.rdp_height }),
    {
        DesktopSize { width: self.rdp_width, height: self.rdp_height }
    }

    /// What a client gets that asks for a size: that of the display, to which it is taken where the
    /// two differ.
    pub fn request_initial_size(&mut self, client_size: DesktopSize) -> (r: DesktopSize)
        ensures
            r == (DesktopSize { width: old(self).rdp_width, height: old(self).rdp_height }),
            *final(self) == (MacDisplay {
                target_width: old(self).rdp_width,
                target_height: old(self).rdp_height,
                needs_reactivation_resize: client_size != r,
                ..*old(self)
            }),
    {
        let size = DesktopSize { width: self.rdp_width, height: self.rdp_height };
        self.needs_reactivation_resize = client_size.width != self.rdp_width || client_size.height
            != self.rdp_height;
        self.target_width = self.rdp_width;
        self.target_height = self.rdp_height;
        size
    }

    /// The updates of the display, of which a change of size comes first where the client needs one.
    pub fn updates(&mut self) -> (r: MacDisplayUpdates)
        ensures
            *final(self) == (MacDisplay { needs_reactivation_resize: false, ..*old(self) }),
            r.wf(),
            r.current_width == old(self).rdp_width,
            r.current_height == old(self).rdp_height,
            r.target_width == old(self).target_width,
            r.target_height == old(self).target_height,
            r.pending_resize == old(self).needs_reactivation_resize,
            r.pending_updates@.len() == 0,
            r.interval_ms == interval_millis(old(self).fps as int),
    {
        let trigger_resize = self.needs_reactivation_resize;
        self.needs_reactivation_resize = false;
        MacDisplayUpdates::new(
            self.rdp_width,
            self.rdp_height,
            self.target_width,
            self.target_height,
            trigger_resize,
            self.fps,
        )
    }
}

/// Milliseconds between two frames: eight at least.
pub open spec fn interval_millis(fps: int) -> int {
    let n = 1000int / (if fps < 1 {
        1
    } else {
        fps
    });
    if n < 8 {
        8
    } else {
        n
    }
}

/// What comes next from the display.
pub enum Upcoming {
    /// This update.
    Ready(DisplayUpdate),
    /// Once the interval is over, what a capture in this size brings.
    Capture(DesktopSize),
}

/// Why the display has no update.
#[derive(Debug, Clone, Copy, PartialEq, Eq, Structural)]
pub enum CaptureError {
    /// The capture failed; `first` says whether the one before did not.
    Failed { first: bool },
    /// There is nothing to show.
    EmptyScreen,
}

/// The updates of the display, one after the other.
pub struct MacDisplayUpdates {
    pub current_width: u16,
    pub current_height: u16,
    pub target_width: u16,
    pub target_height: u16,
    pub pending_resize: bool,
    pub interval_ms: u64,
    pub last_capture_error: bool,
    pub frame_count: u64,
    pub cursor_tracker: MacCursorTracker,
    pub pending_updates: VecDeque<DisplayUpdate>,
}

/// The update that a picture of the whole display makes.
pub open spec fn is_frame(update: DisplayUpdate, width: u16, height: u16, picture: Seq<u8>) -> bool {
    update matches DisplayUpdate::Bitmap(bitmap) && {
        &&& bitmap.x == 0
        &&& bitmap.y == 0
        &&& bitmap.width == width
        &&& bitmap.height == height
        &&& bitmap.stride == width * 4
        &&& bitmap.format == PixelFormat::BgrA32
        &&& bitmap.data@ == picture
    }
}

impl MacDisplayUpdates {
    /// Whether the tracker of the pointer is in order.
    pub open spec fn wf(self) -> bool {
        self.cursor_tracker.wf()
    }

    /// Updates of a display.
    pub fn new(
        current_width: u16,
        current_height: u16,
        target_width: u16,
        target_height: u16,
        pending_resize: bool,
        fps: u32,
    ) -> (r: MacDisplayUpdates)
        ensures
            r.wf(),
            r.current_width == current_width,
            r.current_height == current_height,
            r.target_width == target_width,
            r.target_height == target_height,
            r.pending_resize == pending_resize,
            r.interval_ms == interval_millis(fps as int),
            !r.last_capture_error,
            r.frame_count == 0,
            r.pending_updates@.len() == 0,
            r.cursor_tracker.cache_map@ == Map::<u64, u16>::empty(),
    {
        let rate: u32 = if fps < 1 {
            1
        } else {
            fps
        };
        let millis: u32 = 1000 / rate;
        let interval_ms: u64 = if millis < 8 {
            8
        } else {
            millis as u64
        };
        MacDisplayUpdates {
            current_width,
            current_height,
            target_width,
            target_height,
            pending_resize,
            interval_ms,
            last_capture_error: false,
            frame_count: 0,
            cursor_tracker: MacCursorTracker::new(),
            pending_updates: VecDeque::new(),
        }
    }

    /// What comes next: an update that waits, then the change of size that is owed, then a capture.
    pub fn upcoming(&mut self) -> (r: Upcoming)
        ensures
            final(self).interval_ms == old(self).interval_ms,
            final(self).last_capture_error == old(self).last_capture_error,
            final(self).frame_count == old(self).frame_count,
            final(self).cursor_tracker == old(self).cursor_tracker,
            final(self).target_width == old(self).target_width,
            final(self).target_height == old(self).target_height,
            if old(self).pending_updates@.len() > 0 {
                &&& r == Upcoming::Ready(old(self).pending_updates@[0])
                &&& final(self).pending_updates@ == old(self).pending_updates@.skip(1)
                &&& final(self).pending_resize == old(self).pending_resize
                &&& final(self).current_width == old(self).current_width
                &&& final(self).current_height == old(self).current_height
            } else {
                &&& final(self).pending_updates@.len() == 0
                &&& !final(self).pending_resize
                &&& if old(self).pending_resize {
                    &&& r == Upcoming::Ready(
                        DisplayUpdate::Resize(
                            DesktopSize {
                                width: old(self).target_width,
                                height: old(self).target_height,
                            },
                        ),
                    )
                    &&& final(self).current_width == old(self).target_width
                    &&& final(self).current_height == old(self).target_height
                } else {
                    &&& r == Upcoming::Capture(
                        DesktopSize {
                            width: old(self).current_width,
                            height: old(self).current_height,
                        },
                    )
                    &&& final(self).current_width == old(self).current_width
                    &&& final(self).current_height == old(self).current_height
                }
            },
    {
        if let Some(update) = self.pending_updates.pop_front() {
            assert(self.pending_updates@ =~= old(self).pending_updates@.skip(1));
            return Upcoming::Ready(update);
        }
        if self.pending_resize {
            self.pending_resize = false;
            self.current_width = self.target_width;
            self.current_height = self.target_height;
            return Upcoming::Ready(
                DisplayUpdate::Resize(
                    DesktopSize { width: self.target_width, height: self.target_height },
                ),
            );
        }
        Upcoming::Capture(DesktopSize { width: self.current_width, height: self.current_height })
    }

    /// The update that a capture brings: the pointer where it changed, and the picture after it.
    ///
    /// `picture` is what [`process_frame`] made of the frame, or nothing where the capture failed; a
    /// pointer that changed is then the next update.
    pub fn captured(&mut self, cursor: Option<MacCursorRaw>, picture: Option<Vec<u8>>) -> (r: Result<
        DisplayUpdate,
        CaptureError,
    >)
        requires
            old(self).wf(),
            old(self).pending_updates@.len() == 0,
            old(self).frame_count < u64::MAX,
            old(self).current_width * 4 <= usize::MAX,
        ensures
            final(self).wf(),
            final(self).interval_ms == old(self).interval_ms,
            final(self).pending_resize == old(self).pending_resize,
            final(self).current_width == old(self).current_width,
            final(self).current_height == old(self).current_height,
            final(self).target_width == old(self).target_width,
            final(self).target_height == old(self).target_height,
            final(self).cursor_tracker.noted(old(self).cursor_tracker, cursor),
            ({
                let pointer = match old(self).cursor_tracker.told(cursor) {
                    Some(update) => seq![update],
                    None => Seq::<DisplayUpdate>::empty(),
                };
                let waiting = final(self).pending_updates@;
                match picture {
                    None => {
                        &&& r == Err::<DisplayUpdate, CaptureError>(
                            CaptureError::Failed { first: !old(self).last_capture_error },
                        )
                        &&& final(self).last_capture_error
                        &&& final(self).frame_count == old(self).frame_count
                        &&& waiting == pointer
                    },
                    Some(picture) => {
                        &&& !final(self).last_capture_error
                        &&& final(self).frame_count == old(self).frame_count + 1
                        &&& if old(self).current_width == 0 || old(self).current_height == 0 {
                            &&& r == Err::<DisplayUpdate, CaptureError>(CaptureError::EmptyScreen)
                            &&& waiting == pointer
                        } else {
                            let all = seq![r->Ok_0] + waiting;
                            &&& r is Ok
                            &&& all.len() == pointer.len() + 1
                            &&& all.drop_last() == pointer
                            &&& is_frame(
                                all.last(),
                                old(self).current_width,
                                old(self).current_height,
                                picture@,
                            )
                        }
                    },
                }
            }),
    {
        if let Some(update) = self.cursor_tracker.check_cursor(cursor) {
            self.pending_updates.push_back(update);
        }
        match picture {
            None => {
                let first = !self.last_capture_error;
                self.last_capture_error = true;
                Err(CaptureError::Failed { first })
            },
            Some(data) => {
                self.last_capture_error = false;
                self.frame_count = self.frame_count + 1;
                if self.current_width == 0 || self.current_height == 0 {
                    return Err(CaptureError::EmptyScreen);
                }
                let frame = DisplayUpdate::Bitmap(
                    BitmapUpdate {
                        x: 0,
                        y: 0,
                        width: self.current_width,
                        height: self.current_height,
                        format: PixelFormat::BgrA32,
                        data,
                        stride: self.current_width as usize * 4,
                    },
                );
                self.pending_updates.push_back(frame);
                match self.pending_updates.pop_front() {
                    Some(update) => Ok(update),
                    None => Err(CaptureError::EmptyScreen),
                }
            },
        }
    }
}

/// A picture that fills its size makes an update that holds its whole image.
pub proof fn lemma_frame_complete(update: DisplayUpdate, width: u16, height: u16, picture: Seq<u8>)
    requires
        is_frame(update, width, height, picture),
        width > 0,
        height > 0,
        picture.len() == width * height * 4,
    ensures
        update is Bitmap,
        update->Bitmap_0.complete(),
{
    let stride = width * 4;
    assert(width * height * 4 == (height - 1) * stride + width * 4) by (nonlinear_arith)
        requires
            stride == width * 4,
    ;
}

/// The pointer that a client shows, and those that it has cached, each known by its hash.
pub struct ClientPointer {
    pub shown: Option<u64>,
    pub cache: Map<u16, u64>,
}

impl ClientPointer {
    /// The client once it has been told of the pointer that was captured.
    pub open spec fn given(self, update: Option<DisplayUpdate>, captured: Option<MacCursorRaw>) -> ClientPointer {
        match update {
            Some(DisplayUpdate::RGBAPointer(pointer)) => ClientPointer {
                shown: Some(captured->0.hash),
                cache: self.cache.insert(pointer.cache_index, captured->0.hash),
            },
            Some(DisplayUpdate::CachedPointer(index)) => ClientPointer {
                shown: Some(self.cache[index]),
                ..self
            },
            _ => self,
        }
    }

    /// Whether the client has what the tracker takes it to have.
    pub open spec fn in_step(self, tracker: MacCursorTracker) -> bool {
        &&& tracker.initial_sent ==> self.shown == tracker.last_hash
        &&& forall|hash: u64| #[trigger]
            tracker.cache_map@.contains_key(hash) ==> self.cache.contains_key(tracker.cache_map@[hash])
                && self.cache[tracker.cache_map@[hash]] == hash
    }
}

/// A client shows the pointer that was captured last: whatever pointers come one after the other, as long as
/// the client's cache has not overflowed, it is told of each so that it shows that one, and stays in step.
pub proof fn lemma_pointer_shown(
    client: ClientPointer,
    before: MacCursorTracker,
    after: MacCursorTracker,
    captured: MacCursorRaw,
)
    requires
        before.wf(),
        client.in_step(before),
        before.cache_map@.len() < 512,
        after.noted(before, Some(captured)),
    ensures
        ({
            let told = before.told(Some(captured));
            let next = client.given(told, Some(captured));
            &&& next.shown == Some(captured.hash)
            &&& next.in_step(after)
            &&& told matches Some(DisplayUpdate::RGBAPointer(pointer)) ==> {
                &&& pointer.width == captured.width
                &&& pointer.height == captured.height
                &&& pointer.hot_x == captured.hot_x
                &&& pointer.hot_y == captured.hot_y
                &&& pointer.data@ == captured.bgra_bottom_up@
                &&& pointer.cache_index < 512
            }
        }),
{
    let told = before.told(Some(captured));
    let next = client.given(told, Some(captured));
    assert forall|hash: u64| #[trigger] after.cache_map@.contains_key(hash) implies next.cache.contains_key(
        after.cache_map@[hash],
    ) && next.cache[after.cache_map@[hash]] == hash by {
        if before.cache_map@.contains_key(hash) {
            assert(before.cache_map@[hash] < before.cache_map@.len());
        }
    }
}

/// A pointer that has been sent is not sent again: told of it once more, the client is told its place in the
/// cache or nothing at all. Nothing is said where no pointer was captured.
pub proof fn lemma_pointer_sent_once(tracker: MacCursorTracker, captured: MacCursorRaw)
    ensures
        tracker.cache_map@.contains_key(captured.hash) ==> !(tracker.told(
            Some(captured),
        ) matches Some(DisplayUpdate::RGBAPointer(_))),
        tracker.told(None) is None,
        tracker.told(Some(captured)) is None ==> tracker.last_hash == Some(captured.hash),
{
}

/// Scaling takes each column and row from where it lies in the frame: the one that is taken is no more than
/// one off the exact place. The first is taken for the first, none is taken before an earlier one, and a side
/// that keeps its length is taken as it is.
pub proof fn lemma_sampled(at: int, src: int, dst: int)
    requires
        0 <= at < dst <= 65535,
        0 < src,
    ensures
        at * src / dst - 1 <= sample(at, src, dst) <= at * src / dst,
        0 <= sample(at, src, dst) < src,
        sample(0, src, dst) == 0,
        src == dst ==> sample(at, src, dst) == at,
        at + 1 < dst ==> sample(at, src, dst) <= sample(at + 1, src, dst),
{
    let whole = src * 65536;
    let ratio = whole / dst;
    let rest = whole % dst;
    let exact = at * src / dst;
    let over = (at * src) % dst;
    let place = at * ratio / 65536;
    lemma_sample_bounds(at, src, dst);
    lemma_sample_bounds(0, src, dst);
    vstd::arithmetic::div_mod::lemma_fundamental_div_mod(whole, dst);
    vstd::arithmetic::div_mod::lemma_mod_bound(whole, dst);
    vstd::arithmetic::div_mod::lemma_fundamental_div_mod(at * src, dst);
    vstd::arithmetic::div_mod::lemma_mod_bound(at * src, dst);
    let product = at * ratio;
    assert(dst * product == 65536 * (at * src) - at * rest) by (nonlinear_arith)
        requires
            product == at * ratio,
            src * 65536 == dst * ratio + rest,
    ;
    assert(0 <= at * rest && at * rest < 65536 * dst) by (nonlinear_arith)
        requires
            0 <= at < 65536,
            0 <= rest < dst,
    ;
    let upper = 65536 * exact + 65536;
    assert(product < upper) by (nonlinear_arith)
        requires
            dst * product <= 65536 * (at * src),
            at * src == dst * exact + over,
            over < dst,
            dst > 0,
            upper == 65536 * exact + 65536,
    ;
    let lower = 65536 * exact - 65536;
    assert(product > lower) by (nonlinear_arith)
        requires
            dst * product > 65536 * (at * src) - 65536 * dst,
            at * src == dst * exact + over,
            over >= 0,
            dst > 0,
            lower == 65536 * exact - 65536,
    ;
    assert(exact - 1 <= place <= exact);
    assert(exact < src) by (nonlinear_arith)
        requires
            at * src == dst * exact + over,
            over >= 0,
            at < dst,
            src > 0,
            dst > 0,
    ;
    assert(0 * ratio == 0) by (nonlinear_arith);
    if src == dst {
        vstd::arithmetic::div_mod::lemma_div_multiples_vanish(65536, dst);
        assert(dst * 65536 == src * 65536);
        assert(ratio == 65536);
        assert(product == at * 65536);
    }
    if at + 1 < dst {
        assert(ratio >= 0) by (nonlinear_arith)
            requires
                whole == dst * ratio + rest,
                rest < dst,
                whole > 0,
                dst > 0,
        ;
        assert((at + 1) * ratio == product + ratio) by (nonlinear_arith)
            requires
                product == at * ratio,
        ;
        assert((at + 1) * ratio / 65536 >= place);
    }
}

/// A picture is scaled both ways at once: the pixel that is taken lies in the row and in the column that are
/// taken for its own, and of a frame of twice the size every second one is, where its rows follow each other
/// without a gap.
pub proof fn lemma_pixel_taken(frame: CapturedFrame, width: int, height: int, x: int, y: int)
    requires
        0 <= x < width <= 65535,
        0 <= y < height <= 65535,
        0 < frame.width,
        0 < frame.height,
        frame.bytes_per_row == frame.width * 4,
    ensures
        exists|column: int, row: int|
            #![trigger pixel_number(frame, column, row)]
            frame.source(width, height, x, y) == pixel_number(frame, column, row) && x * frame.width
                / width - 1 <= column <= x * frame.width / width && y * frame.height / height - 1 <= row
                <= y * frame.height / height && 0 <= column < frame.width && 0 <= row < frame.height,
        frame.doubles(width, height) ==> frame.source(width, height, x, y) == pixel_number(
            frame,
            x * 2,
            y * 2,
        ),
{
    assert(frame.bytes_per_row as int / 4 == frame.width);
    if frame.doubles(width, height) {
        assert(x * frame.width == width * (x * 2)) by (nonlinear_arith)
            requires
                frame.width == width * 2,
        ;
        assert(y * frame.height == height * (y * 2)) by (nonlinear_arith)
            requires
                frame.height == height * 2,
        ;
        vstd::arithmetic::div_mod::lemma_div_multiples_vanish(x * 2, width);
        vstd::arithmetic::div_mod::lemma_div_multiples_vanish(y * 2, height);
        assert(frame.source(width, height, x, y) == pixel_number(frame, x * 2, y * 2));
    } else {
        lemma_sampled(x, frame.width as int, width);
        lemma_sampled(y, frame.height as int, height);
        let column = sample(x, frame.width as int, width);
        let row = sample(y, frame.height as int, height);
        assert(frame.source(width, height, x, y) == pixel_number(frame, column, row));
    }
}

/// The number of the pixel in a column and a row of a frame.
pub open spec fn pixel_number(frame: CapturedFrame, column: int, row: int) -> int {
    row * frame.width + column
}

/// Frames come as often as is asked for: the interval between two is the longest that lets as many into a
/// second, but no shorter than eight milliseconds.
pub proof fn lemma_frame_rate(fps: int)
    requires
        1 <= fps,
    ensures
        interval_millis(fps) >= 8,
        fps <= 125 ==> interval_millis(fps) * fps <= 1000 && 1000 < (interval_millis(fps) + 1) * fps,
        fps > 125 ==> interval_millis(fps) == 8,
{
    let n = 1000int / fps;
    vstd::arithmetic::div_mod::lemma_fundamental_div_mod(1000, fps);
    vstd::arithmetic::div_mod::lemma_mod_bound(1000, fps);
    assert(n * fps <= 1000 && 1000 < (n + 1) * fps) by (nonlinear_arith)
        requires
            1000 == fps * n + 1000int % fps,
            0 <= 1000int % fps < fps,
    ;
    if fps <= 125 {
        assert(n >= 8) by (nonlinear_arith)
            requires
                1000 < (n + 1) * fps,
                fps <= 125,
                fps >= 1,
        ;
    } else {
        assert(n < 8) by (nonlinear_arith)
            requires
                n * fps <= 1000,
                fps > 125,
        ;
    }
}

/// A number of frames per second that the environment spells is the one that is taken, kept between one and a
/// hundred and twenty; without one it is thirty.
pub proof fn lemma_fps_spelled(env: DisplayEnv, n: int)
    requires
        0 <= n <= u32::MAX,
    ensures
        1 <= env.fps_wanted() <= 120,
        env.fps is None ==> env.fps_wanted() == 30,
        env.fps is Some && env.fps->0@ == decimal(n) ==> env.fps_wanted() == if n < 1 {
            1
        } else if n > 120 {
            120
        } else {
            n
        },
{
    lemma_decimal_parses(n, u32::MAX as int);
}

/// The display is shown in its own size, cut to multiples of four, unless the environment names another size,
/// in capital letters or small ones.
pub proof fn lemma_size_shown(env: DisplayEnv, native: DesktopSize)
    ensures
        env.size_wanted(native).width % 4 == 0,
        env.size_wanted(native).height % 4 == 0,
        env.res is None ==> native.width - 4 < env.size_wanted(native).width <= native.width
            && native.height - 4 < env.size_wanted(native).height <= native.height,
        env.res is Some && (lowered(env.res->0@) == "720p"@ || lowered(env.res->0@) == "hd"@)
            ==> env.size_wanted(native) == (DesktopSize { width: 1280, height: 720 }),
        env.res is Some && (lowered(env.res->0@) == "1080p"@ || lowered(env.res->0@) == "fhd"@)
            ==> env.size_wanted(native) == (DesktopSize { width: 1920, height: 1080 }),
        env.res is Some && (lowered(env.res->0@) == "540p"@ || lowered(env.res->0@) == "qhd"@)
            ==> env.size_wanted(native) == (DesktopSize { width: 960, height: 540 }),
{
    reveal_strlit("720p");
    reveal_strlit("hd");
    reveal_strlit("540p");
    reveal_strlit("qhd");
    reveal_strlit("1080p");
    reveal_strlit("fhd");
    assert("720p"@[0] == '7' && "hd"@.len() == 2 && "540p"@[0] == '5' && "qhd"@[0] == 'q');
    assert("1080p"@.len() == 5 && "fhd"@[0] == 'f' && "qhd"@.len() == 3 && "720p"@.len() == 4);
}

/// A pixel that is taken over keeps its four bytes in their order.
pub proof fn lemma_pixel_kept(out: Seq<u8>, i: int, src: Seq<u8>, j: int, k: int)
    requires
        same_pixel(out, i, src, j),
        0 <= k < 4,
    ensures
        out[i * 4 + k] == src[j * 4 + k],
{
}

/// A picture of the display is shown as it is: from the corner of the desktop on, with rows that follow each
/// other without a gap, the blue byte of each pixel first.
pub proof fn lemma_picture_shown(update: DisplayUpdate, width: u16, height: u16, picture: Seq<u8>)
    requires
        is_frame(update, width, height, picture),
    ensures
        update matches DisplayUpdate::Bitmap(bitmap) && {
            &&& bitmap.x == 0 && bitmap.y == 0
            &&& bitmap.width == width && bitmap.height == height
            &&& bitmap.stride == 4 * width
            &&& bitmap.data@ == picture
            &&& bitmap.format.blue() == 0 && bitmap.format.green() == 1 && bitmap.format.red() == 2
        },
{
}

} // verus!
