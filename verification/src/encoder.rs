//! Turns what happens on the display into fast-path updates.

use vstd::prelude::*;

use crate::bitmap_encoder::{chunked_limit, BitmapEncodeError};
use crate::codecs::{
    is_surface, BitmapHandler, NsCodecHandler, QoiHandler, QoizHandler, RemoteFxHandler, UpdateError,
};
use crate::fast_path::{UpdateCode, UpdateFragmenter};
use crate::frame::{cell, covered, BitmapUpdate, DesktopSize, Framebuffer, Rect};
use crate::graphics::{
    find_different_rects, overlap, pixel_differs, square_differs, stream_limit,
};
use crate::packets::{lemma_packets, pack_tiles, packets, views, TILE_LIMIT};
use crate::pdu::{
    bitmap_header_bytes, encode_cached_pointer, encode_color_pointer, encode_pointer,
    encode_pointer_position, lemma_pointer_fields, mask_fits, PointerRecord, BITMAP_RECORD_SIZE,
};
use crate::rows::lemma_bottom_up_image;
use crate::tile_encoder::{safe_tile, tile_bytes_at, NoneHandler, RECORD_SLACK, TILE_SLACK};
use crate::tiles::{
    cooldown_millis, dirty_tiles, grid_size, lemma_dirty_tiles_agree, lemma_dirty_tiles_cover,
    lemma_dirty_tiles_sound, lemma_grid_bounds, required_cooldown, tiles_of, CompressionMode,
    NANOS_PER_MILLI,
};
use crate::wire::{le16, lemma_word_back, word};

verus! {

/// A pointer of 32 bits per pixel.
#[derive(Debug, Clone)]
pub struct RGBAPointer {
    pub width: u16,
    pub height: u16,
    pub hot_x: u16,
    pub hot_y: u16,
    pub cache_index: u16,
    pub data: Vec<u8>,
}

/// A pointer of 24 bits per pixel.
#[derive(Debug, Clone)]
pub struct ColorPointer {
    pub width: u16,
    pub height: u16,
    pub hot_x: u16,
    pub hot_y: u16,
    pub cache_index: u16,
    pub and_mask: Vec<u8>,
    pub xor_mask: Vec<u8>,
}

/// Where the pointer is.
#[derive(Debug, Clone, Copy, PartialEq, Eq, Structural)]
pub struct PointerPositionAttribute {
    pub x: u16,
    pub y: u16,
}

/// What happens on the display.
#[derive(Debug, Clone)]
pub enum DisplayUpdate {
    Resize(DesktopSize),
    Bitmap(BitmapUpdate),
    PointerPosition(PointerPositionAttribute),
    ColorPointer(ColorPointer),
    RGBAPointer(RGBAPointer),
    HidePointer,
    DefaultPointer,
    CachedPointer(u16),
}

impl RGBAPointer {
    /// The pointer without its pixels.
    pub open spec fn record(self) -> PointerRecord {
        PointerRecord {
            cache_index: self.cache_index,
            hot_x: self.hot_x,
            hot_y: self.hot_y,
            width: self.width,
            height: self.height,
        }
    }
}

impl ColorPointer {
    /// The pointer without its masks.
    pub open spec fn record(self) -> PointerRecord {
        PointerRecord {
            cache_index: self.cache_index,
            hot_x: self.hot_x,
            hot_y: self.hot_y,
            width: self.width,
            height: self.height,
        }
    }
}

/// Bits per pixel of a pointer with alpha.
pub const POINTER_BPP: u16 = 32;

impl DisplayUpdate {
    /// Whether the masks of a pointer leave room to be addressed.
    pub open spec fn addressable(self) -> bool {
        match self {
            DisplayUpdate::RGBAPointer(p) => p.data@.len() + 16 <= isize::MAX,
            DisplayUpdate::ColorPointer(p) => p.xor_mask@.len() + p.and_mask@.len() + 14 <= isize::MAX,
            _ => true,
        }
    }

    /// The bytes of an update of the pointer, and what kind it is; none where a mask does not fit.
    pub open spec fn pointer_bytes(self) -> Option<(UpdateCode, Seq<u8>)> {
        match self {
            DisplayUpdate::PointerPosition(p) => Some(
                (UpdateCode::PositionPointer, le16(p.x as int) + le16(p.y as int)),
            ),
            DisplayUpdate::RGBAPointer(p) => if mask_fits(p.height as int, 0) && mask_fits(
                p.height as int,
                p.data@.len() as int,
            ) {
                Some(
                    (
                        UpdateCode::NewPointer,
                        le16(POINTER_BPP as int) + p.record().bytes(p.data@, Seq::empty()),
                    ),
                )
            } else {
                None
            },
            DisplayUpdate::ColorPointer(p) => if mask_fits(p.height as int, p.and_mask@.len() as int)
                && mask_fits(p.height as int, p.xor_mask@.len() as int) {
                Some((UpdateCode::ColorPointer, p.record().bytes(p.xor_mask@, p.and_mask@)))
            } else {
                None
            },
            DisplayUpdate::HidePointer => Some((UpdateCode::HiddenPointer, Seq::empty())),
            DisplayUpdate::DefaultPointer => Some((UpdateCode::DefaultPointer, Seq::empty())),
            DisplayUpdate::CachedPointer(index) => Some((UpdateCode::CachedPointer, le16(index as int))),
            DisplayUpdate::Resize(_) => None,
            DisplayUpdate::Bitmap(_) => None,
        }
    }
}

/// Whether the outcome is the pointer update that the specification gives.
pub open spec fn is_pointer_update(
    r: Result<UpdateFragmenter, UpdateError>,
    bytes: Option<(UpdateCode, Seq<u8>)>,
) -> bool {
    match (r, bytes) {
        (Ok(update), Some((code, data))) => update.is(code, data),
        (Err(e), None) => e == UpdateError::Pointer,
        _ => false,
    }
}

/// The outcome of encoding a pointer.
fn pointer_update(code: UpdateCode, bytes: Option<Vec<u8>>) -> (r: Result<UpdateFragmenter, UpdateError>)
    ensures
        match r {
            Ok(update) => bytes is Some && update.is(code, bytes->0@),
            Err(e) => bytes is None && e == UpdateError::Pointer,
        },
{
    match bytes {
        Some(bytes) => Ok(UpdateFragmenter::new(code, bytes)),
        None => Err(UpdateError::Pointer),
    }
}

impl CompressionMode {
    /// Whether every tile of this mode is certain to fit.
    pub open spec fn safe(self) -> bool {
        self.tile_h <= 341 && stream_limit(self.tile_w as int, self.tile_h as int) <= u16::MAX
    }
}

/// Tiles that are no larger than those of a safe mode fit as well.
pub proof fn lemma_safe_mode(mode: CompressionMode, width: int, height: int)
    requires
        mode.safe(),
        0 < width <= mode.tile_w,
        0 < height <= mode.tile_h,
    ensures
        safe_tile(width, height),
{
    let w = mode.tile_w as int;
    let h = mode.tile_h as int;
    let row = width + width / 15 + 1;
    assert(height * row <= h * (w + w / 15 + 1)) by (nonlinear_arith)
        requires
            0 < height <= h,
            0 < row <= w + w / 15 + 1,
    ;
    assert(height * row == height * width + height * (width / 15) + height) by (nonlinear_arith)
        requires
            row == width + width / 15 + 1,
    ;
    assert(3 * (height * (width / 15)) <= height * width) by (nonlinear_arith)
        requires
            height > 0,
            width > 0,
    ;
    assert(height * width == width * height) by (nonlinear_arith);
}

/// Where in the data of a bitmap the pixels of a rectangle lie.
pub open spec fn region(bitmap: BitmapUpdate, rect: Rect) -> Seq<u8> {
    let start = bitmap.sub_start(rect.x as int, rect.y as int);
    bitmap.data@.subrange(start, start + (rect.height - 1) * bitmap.stride + rect.width * 4)
}

/// A rectangle of a bitmap as a tile on the wire.
pub open spec fn region_bytes(bitmap: BitmapUpdate, rect: Rect, mask: u8) -> Result<
    Seq<u8>,
    BitmapEncodeError,
> {
    tile_bytes_at(
        bitmap.x + rect.x,
        bitmap.y + rect.y,
        rect.width as int,
        rect.height as int,
        bitmap.stride as int,
        region(bitmap, rect),
        mask,
    )
}

/// The first `n` rectangles as tiles on the wire, or the failure of the first that fails.
pub open spec fn regions_bytes(bitmap: BitmapUpdate, rects: Seq<Rect>, mask: u8, n: int) -> Result<
    Seq<Seq<u8>>,
    BitmapEncodeError,
>
    decreases n,
{
    if n <= 0 {
        Ok(Seq::empty())
    } else {
        match regions_bytes(bitmap, rects, mask, n - 1) {
            Err(e) => Err(e),
            Ok(before) => match region_bytes(bitmap, rects[n - 1], mask) {
                Err(e) => Err(e),
                Ok(bytes) => Ok(before.push(bytes)),
            },
        }
    }
}

proof fn lemma_regions_fail(bitmap: BitmapUpdate, rects: Seq<Rect>, mask: u8, i: int, n: int)
    requires
        0 <= i <= n,
        regions_bytes(bitmap, rects, mask, i) is Err,
    ensures
        regions_bytes(bitmap, rects, mask, n) == regions_bytes(bitmap, rects, mask, i),
    decreases n,
{
    if i < n {
        lemma_regions_fail(bitmap, rects, mask, i, n - 1);
    }
}

/// Encodes the rectangles of a bitmap as tiles.
pub fn encode_tiles(bitmap: &BitmapUpdate, rects: &Vec<Rect>, mask: u8) -> (r: Result<
    Vec<Vec<u8>>,
    BitmapEncodeError,
>)
    requires
        bitmap.complete(),
        bitmap.on_desktop(),
        bitmap.width * bitmap.height * 4 + TILE_SLACK + RECORD_SLACK <= usize::MAX,
        forall|i: int|
            0 <= i < rects@.len() ==> (#[trigger] rects@[i]).within(
                bitmap.width as int,
                bitmap.height as int,
            ) && rects@[i].width > 0 && rects@[i].height > 0,
    ensures
        match r {
            Ok(tiles) => {
                &&& regions_bytes(*bitmap, rects@, mask, rects@.len() as int) == Ok::<
                    Seq<Seq<u8>>,
                    BitmapEncodeError,
                >(views(tiles@))
                &&& tiles@.len() == rects@.len()
                &&& forall|i: int|
                    0 <= i < tiles@.len() ==> BITMAP_RECORD_SIZE <= (#[trigger] tiles@[i])@.len()
                        <= TILE_LIMIT
            },
            Err(e) => regions_bytes(*bitmap, rects@, mask, rects@.len() as int) == Err::<
                Seq<Seq<u8>>,
                BitmapEncodeError,
            >(e),
        },
        (forall|i: int|
            0 <= i < rects@.len() ==> #[trigger] safe_tile(
                rects@[i].width as int,
                rects@[i].height as int,
            )) ==> r is Ok,
{
    let handler = NoneHandler;
    let mut tiles: Vec<Vec<u8>> = Vec::new();
    let mut i: usize = 0;
    assert(views(tiles@) =~= Seq::empty());
    while i < rects.len()
        invariant
            i <= rects@.len(),
            bitmap.complete(),
            bitmap.on_desktop(),
            bitmap.width * bitmap.height * 4 + TILE_SLACK + RECORD_SLACK <= usize::MAX,
            forall|k: int|
                0 <= k < rects@.len() ==> (#[trigger] rects@[k]).within(
                    bitmap.width as int,
                    bitmap.height as int,
                ) && rects@[k].width > 0 && rects@[k].height > 0,
            regions_bytes(*bitmap, rects@, mask, i as int) == Ok::<Seq<Seq<u8>>, BitmapEncodeError>(
                views(tiles@),
            ),
            tiles@.len() == i,
            forall|k: int|
                0 <= k < tiles@.len() ==> BITMAP_RECORD_SIZE <= (#[trigger] tiles@[k])@.len()
                    <= TILE_LIMIT,
        decreases rects@.len() - i,
    {
        let rect = rects[i];
        assert(rects@[i as int].within(bitmap.width as int, bitmap.height as int));
        let ghost before = views(tiles@);
        match bitmap.sub(rect.x as u16, rect.y as u16, rect.width as u16, rect.height as u16) {
            Some(part) => {
                proof {
                    lemma_bottom_up_image(
                        part.data@,
                        part.stride as int,
                        part.width as int,
                        part.height as int,
                        part.height as int,
                    );
                    assert(part.width * part.height <= bitmap.width * bitmap.height) by (nonlinear_arith)
                        requires
                            part.width <= bitmap.width,
                            part.height <= bitmap.height,
                    ;
                }
                assert(part.data@ == region(*bitmap, rect));
                match handler.encode_bitmap_tile(&part, mask) {
                    Ok(tile) => {
                        tiles.push(tile);
                        assert(views(tiles@) =~= before.push(tile@));
                    },
                    Err(e) => {
                        proof {
                            lemma_regions_fail(*bitmap, rects@, mask, i + 1, rects@.len() as int);
                            assert(!safe_tile(
                                rects@[i as int].width as int,
                                rects@[i as int].height as int,
                            ));
                        }
                        return Err(e);
                    },
                }
            },
            None => {
                assert(false);
            },
        }
        i = i + 1;
    }
    Ok(tiles)
}

/// Entropy coders of RemoteFX.
#[derive(Debug, Clone, Copy, PartialEq, Eq, Structural)]
pub enum EntropyBits {
    Rlgr1,
    Rlgr3,
}

/// The codecs that were negotiated.
#[derive(Debug, Clone, Copy, PartialEq, Eq)]
pub struct UpdateEncoderCodecs {
    /// Entropy coder and identifier.
    pub remotefx: Option<(EntropyBits, u8)>,
    pub qoi: Option<u8>,
    pub qoiz: Option<u8>,
    /// Identifier and level of colour loss.
    pub nscodec: Option<(u8, u8)>,
}

impl UpdateEncoderCodecs {
    /// No codec at all.
    pub fn new() -> (r: UpdateEncoderCodecs)
        ensures
            r.remotefx is None,
            r.qoi is None,
            r.qoiz is None,
            r.nscodec is None,
    {
        UpdateEncoderCodecs { remotefx: None, qoi: None, qoiz: None, nscodec: None }
    }

    /// Notes what was negotiated of RemoteFX.
    pub fn set_remotefx(&mut self, remotefx: Option<(EntropyBits, u8)>)
        ensures
            *final(self) == (UpdateEncoderCodecs { remotefx, ..*old(self) }),
    {
        self.remotefx = remotefx;
    }

    /// Notes what was negotiated of the Quite OK Image format.
    pub fn set_qoi(&mut self, qoi: Option<u8>)
        ensures
            *final(self) == (UpdateEncoderCodecs { qoi, ..*old(self) }),
    {
        self.qoi = qoi;
    }

    /// Notes what was negotiated of the compressed Quite OK Image format.
    pub fn set_qoiz(&mut self, qoiz: Option<u8>)
        ensures
            *final(self) == (UpdateEncoderCodecs { qoiz, ..*old(self) }),
    {
        self.qoiz = qoiz;
    }

    /// Notes what was negotiated of NSCodec.
    pub fn set_nscodec(&mut self, nscodec: Option<(u8, u8)>)
        ensures
            *final(self) == (UpdateEncoderCodecs { nscodec, ..*old(self) }),
    {
        self.nscodec = nscodec;
    }
}

/// How bitmaps are sent.
pub enum BitmapUpdater {
    Tiles(NoneHandler),
    Bitmap(BitmapHandler),
    RemoteFx(RemoteFxHandler),
    Qoi(QoiHandler),
    Qoiz(QoizHandler),
    NsCodec(NsCodecHandler),
}

impl BitmapUpdater {
    /// Whether a bitmap can be handed to the updater.
    ///
    /// RemoteFX is not among those that can take one, as its encoder stands outside.
    pub open spec fn takes(self, bitmap: BitmapUpdate) -> bool {
        &&& bitmap.on_desktop()
        &&& match self {
            BitmapUpdater::Tiles(_) => bitmap.tileable(),
            BitmapUpdater::Bitmap(up) => {
                &&& up.wf()
                &&& bitmap.chunkable()
                &&& bitmap.data@.len() * 2 <= usize::MAX
                &&& bitmap.width % 4 == 0 ==> 2 <= bitmap.data@.len() && 2 * chunked_limit(bitmap)
                    <= usize::MAX
            },
            BitmapUpdater::RemoteFx(_) => false,
            BitmapUpdater::Qoi(_) => bitmap.qoi_readable(),
            BitmapUpdater::Qoiz(_) => bitmap.qoi_readable(),
            BitmapUpdater::NsCodec(up) => bitmap.complete() && 1 <= up.color_loss_level <= 7,
        }
    }

    /// Whether the outcome is the one that the updater owes for a bitmap.
    pub open spec fn owes(
        self,
        bitmap: BitmapUpdate,
        mask: u8,
        r: Result<UpdateFragmenter, UpdateError>,
    ) -> bool {
        match self {
            BitmapUpdater::Tiles(_) => match (r, bitmap.tile_bytes(mask)) {
                (Ok(update), Ok(bytes)) => update.is(UpdateCode::Bitmap, bitmap_header_bytes(1) + bytes),
                (Err(UpdateError::Bitmap(e)), Err(f)) => e == f && !(bitmap.complete() && safe_tile(
                    bitmap.width as int,
                    bitmap.height as int,
                )),
                _ => false,
            },
            BitmapUpdater::Bitmap(_) => match (r, bitmap.chunked(chunked_limit(bitmap))) {
                (Ok(update), Ok(bytes)) => update.is(UpdateCode::Bitmap, bytes),
                (Err(UpdateError::Bitmap(e)), Err(f)) => e == f && !bitmap.chunks_owed(),
                _ => false,
            },
            BitmapUpdater::RemoteFx(_) => false,
            BitmapUpdater::Qoi(up) => if bitmap.qoi_fits() {
                r is Ok && is_surface(r, bitmap, up.codec_id, bitmap.qoi())
            } else {
                r matches Err(UpdateError::Qoi)
            },
            BitmapUpdater::Qoiz(up) => if bitmap.qoi_fits() {
                ||| r matches Err(UpdateError::Zstd)
                ||| exists|data: Seq<u8>| #[trigger] is_surface(r, bitmap, up.codec_id, data)
            } else {
                r matches Err(UpdateError::Qoi)
            },
            BitmapUpdater::NsCodec(up) => is_surface(
                r,
                bitmap,
                up.codec_id,
                bitmap.nscodec(up.color_loss_level),
            ),
        }
    }

    /// Whether `self` is `old` after a bitmap: the same, but for the buffer and the stream of those
    /// that have one. The stream has carried the image besides, unless it was refused, and what it has
    /// produced is what went out.
    pub open spec fn stays(
        self,
        old: BitmapUpdater,
        bitmap: BitmapUpdate,
        r: Result<UpdateFragmenter, UpdateError>,
    ) -> bool {
        match (self, old) {
            (BitmapUpdater::Bitmap(up), BitmapUpdater::Bitmap(was)) => up.wf(),
            (BitmapUpdater::Qoiz(up), BitmapUpdater::Qoiz(was)) => {
                &&& up.codec_id == was.codec_id
                &&& up.settings() == was.settings()
                &&& match r {
                    Err(UpdateError::Qoi) => up == was,
                    Err(UpdateError::Zstd) => true,
                    _ => {
                        &&& up.carried() == was.carried() + bitmap.qoi()
                        &&& was.produced().is_prefix_of(up.produced())
                        &&& is_surface(
                            r,
                            bitmap,
                            up.codec_id,
                            up.produced().skip(was.produced().len() as int),
                        )
                    },
                }
            },
            _ => self == old,
        }
    }

    /// Encodes a whole bitmap.
    pub fn handle(&mut self, bitmap: &BitmapUpdate, mask: u8) -> (r: Result<
        UpdateFragmenter,
        UpdateError,
    >)
        requires
            old(self).takes(*bitmap),
        ensures
            old(self).owes(*bitmap, mask, r),
            final(self).stays(*old(self), *bitmap, r),
    {
        match self {
            BitmapUpdater::Tiles(up) => match up.handle(bitmap, mask) {
                Ok(update) => Ok(update),
                Err(e) => Err(UpdateError::Bitmap(e)),
            },
            BitmapUpdater::Bitmap(up) => up.handle(bitmap),
            BitmapUpdater::RemoteFx(_) => Err(UpdateError::Unsupported),
            BitmapUpdater::Qoi(up) => up.handle(bitmap),
            BitmapUpdater::Qoiz(up) => up.handle(bitmap),
            BitmapUpdater::NsCodec(up) => up.handle(bitmap),
        }
    }

    /// Encodes a bitmap as a tile, which only [`NoneHandler`] can.
    pub fn encode_bitmap_tile(&self, bitmap: &BitmapUpdate, mask: u8) -> (r: Result<
        Vec<u8>,
        UpdateError,
    >)
        requires
            self is Tiles ==> bitmap.tileable(),
        ensures
            match r {
                Ok(bytes) => self is Tiles && bitmap.tile_bytes(mask) == Ok::<
                    Seq<u8>,
                    BitmapEncodeError,
                >(bytes@),
                Err(UpdateError::Bitmap(e)) => self is Tiles && bitmap.tile_bytes(mask) == Err::<
                    Seq<u8>,
                    BitmapEncodeError,
                >(e),
                Err(e) => !(self is Tiles) && e == UpdateError::Unsupported,
            },
            self is Tiles && bitmap.complete() && safe_tile(
                bitmap.width as int,
                bitmap.height as int,
            ) ==> r is Ok,
    {
        match self {
            BitmapUpdater::Tiles(up) => match up.encode_bitmap_tile(bitmap, mask) {
                Ok(bytes) => Ok(bytes),
                Err(e) => Err(UpdateError::Bitmap(e)),
            },
            _ => Err(UpdateError::Unsupported),
        }
    }

    /// Has a RemoteFX encoder told a new size.
    pub fn set_desktop_size(&mut self, size: DesktopSize)
        ensures
            match *old(self) {
                BitmapUpdater::RemoteFx(up) => *final(self) == BitmapUpdater::RemoteFx(
                    RemoteFxHandler { codec_id: up.codec_id, desktop_size: Some(size) },
                ),
                _ => *final(self) == *old(self),
            },
    {
        if let BitmapUpdater::RemoteFx(up) = self {
            up.set_desktop_size(size);
        }
    }
}

/// How far an update has been sent.
#[derive(Debug)]
pub enum EncoderState {
    /// Nothing has been sent of it yet.
    Start(DisplayUpdate),
    /// The packets before `pos` have been sent.
    ReadyBuffers { buffers: Vec<Vec<u8>>, pos: usize, bitmap: BitmapUpdate, diffs: Vec<Rect> },
    /// All of it has been sent.
    Ended,
}

/// Sends an update step by step.
#[derive(Debug)]
pub struct EncoderIter {
    pub state: EncoderState,
}

/// Turns the display's updates into fast-path updates, and keeps what the client shows.
pub struct UpdateEncoder {
    pub desktop_size: DesktopSize,
    /// What the client shows, once a frame has been sent in full.
    pub framebuffer: Option<Framebuffer>,
    pub bitmap_updater: BitmapUpdater,
    pub max_request_size: usize,
    /// Frames that were compared so far.
    pub frame_count: u64,
    /// When the last frame went out that others have to keep a distance from, in nanoseconds.
    pub last_large_update: u64,
}

/// Whether `after` is what the client shows once the rectangles of `bitmap` have been sent over
/// `before`.
pub open spec fn shown(
    after: Option<Framebuffer>,
    before: Option<Framebuffer>,
    bitmap: BitmapUpdate,
    rects: Seq<Rect>,
) -> bool {
    if rects.len() == 0 {
        after == before
    } else {
        match before {
            None => match after {
                Some(fb) => {
                    &&& bitmap.x == 0 && bitmap.y == 0
                    &&& fb.width == bitmap.width
                    &&& fb.height == bitmap.height
                    &&& fb.format == bitmap.format
                    &&& fb.stride == bitmap.stride
                    &&& fb.data == bitmap.data
                },
                None => bitmap.x != 0 || bitmap.y != 0,
            },
            Some(fb) => if fb.format == bitmap.format {
                after is Some && after->0.patched_from(fb, bitmap, rects)
            } else {
                after == before
            },
        }
    }
}

impl UpdateEncoder {
    /// Encodes a pointer of 32 bits per pixel, whose alpha takes the place of a mask.
    pub fn rgba_pointer(ptr: &RGBAPointer) -> (r: Result<UpdateFragmenter, UpdateError>)
        requires
            ptr.data@.len() + 16 <= isize::MAX,
        ensures
            is_pointer_update(r, DisplayUpdate::RGBAPointer(*ptr).pointer_bytes()),
    {
        let record = PointerRecord {
            cache_index: ptr.cache_index,
            hot_x: ptr.hot_x,
            hot_y: ptr.hot_y,
            width: ptr.width,
            height: ptr.height,
        };
        let no_mask: Vec<u8> = Vec::new();
        assert(no_mask@ =~= Seq::empty());
        pointer_update(
            UpdateCode::NewPointer,
            encode_pointer(POINTER_BPP, record, ptr.data.as_slice(), no_mask.as_slice()),
        )
    }

    /// Encodes a pointer of 24 bits per pixel.
    pub fn color_pointer(ptr: &ColorPointer) -> (r: Result<UpdateFragmenter, UpdateError>)
        requires
            ptr.xor_mask@.len() + ptr.and_mask@.len() + 14 <= isize::MAX,
        ensures
            is_pointer_update(r, DisplayUpdate::ColorPointer(*ptr).pointer_bytes()),
    {
        let record = PointerRecord {
            cache_index: ptr.cache_index,
            hot_x: ptr.hot_x,
            hot_y: ptr.hot_y,
            width: ptr.width,
            height: ptr.height,
        };
        pointer_update(
            UpdateCode::ColorPointer,
            encode_color_pointer(record, ptr.xor_mask.as_slice(), ptr.and_mask.as_slice()),
        )
    }

    /// Encodes a reference to a pointer that the client has cached.
    pub fn cached_pointer(cache_index: u16) -> (r: Result<UpdateFragmenter, UpdateError>)
        ensures
            is_pointer_update(r, DisplayUpdate::CachedPointer(cache_index).pointer_bytes()),
            r is Ok,
    {
        pointer_update(UpdateCode::CachedPointer, encode_cached_pointer(cache_index))
    }

    /// Encodes the return to the default pointer.
    pub fn default_pointer() -> (r: Result<UpdateFragmenter, UpdateError>)
        ensures
            is_pointer_update(r, DisplayUpdate::DefaultPointer.pointer_bytes()),
            r is Ok,
    {
        let none: Vec<u8> = Vec::new();
        assert(none@ =~= Seq::empty());
        Ok(UpdateFragmenter::new(UpdateCode::DefaultPointer, none))
    }

    /// Encodes that no pointer is shown.
    pub fn hide_pointer() -> (r: Result<UpdateFragmenter, UpdateError>)
        ensures
            is_pointer_update(r, DisplayUpdate::HidePointer.pointer_bytes()),
            r is Ok,
    {
        let none: Vec<u8> = Vec::new();
        assert(none@ =~= Seq::empty());
        Ok(UpdateFragmenter::new(UpdateCode::HiddenPointer, none))
    }

    /// Encodes where the pointer is.
    pub fn pointer_position(pos: PointerPositionAttribute) -> (r: Result<UpdateFragmenter, UpdateError>)
        ensures
            is_pointer_update(r, DisplayUpdate::PointerPosition(pos).pointer_bytes()),
            r is Ok,
    {
        pointer_update(UpdateCode::PositionPointer, encode_pointer_position(pos.x, pos.y))
    }
}

impl UpdateEncoder {
    /// Whether the framebuffer holds its image.
    pub open spec fn wf(self) -> bool {
        self.framebuffer is Some ==> self.framebuffer->0.complete()
    }

    /// Whether a bitmap lies inside the framebuffer, if there is one.
    pub open spec fn contains(self, bitmap: BitmapUpdate) -> bool {
        self.framebuffer is Some ==> self.framebuffer->0.contains(bitmap)
    }

    /// Whether a bitmap lies inside the desktop.
    pub open spec fn on_desktop(self, bitmap: BitmapUpdate) -> bool {
        &&& bitmap.x + bitmap.width <= self.desktop_size.width
        &&& bitmap.y + bitmap.height <= self.desktop_size.height
    }

    /// Which pixels of a bitmap are taken for changed: all of them in the first frame and where
    /// nothing is known of the client, else those in whose square some byte differs from what the
    /// client shows.
    pub open spec fn changed(self, bitmap: BitmapUpdate) -> spec_fn(int, int) -> bool {
        if self.frame_count == 0 || self.framebuffer is None {
            |px: int, py: int| true
        } else {
            let fb = self.framebuffer->0;
            let width = overlap(fb.width as int, bitmap.x as int, bitmap.width as int);
            let height = overlap(fb.height as int, bitmap.y as int, bitmap.height as int);
            |px: int, py: int|
                {
                    &&& 0 <= px < width
                    &&& 0 <= py < height
                    &&& square_differs(
                        fb.data@,
                        fb.stride as int,
                        bitmap.data@,
                        bitmap.stride as int,
                        bitmap.x as int,
                        bitmap.y as int,
                        width,
                        height,
                        px,
                        py,
                    )
                }
        }
    }

    /// The tiles of a frame that hold changed pixels.
    pub open spec fn frame_tiles(self, bitmap: BitmapUpdate, mode: CompressionMode) -> Seq<Rect> {
        dirty_tiles(
            mode,
            bitmap.width as int,
            bitmap.height as int,
            self.changed(bitmap),
            grid_size(mode, bitmap.width as int, bitmap.height as int),
        )
    }

    /// The pause that a frame has to keep, in nanoseconds: none for the first frame and one without
    /// changes.
    pub open spec fn cooldown(self, bitmap: BitmapUpdate, mode: CompressionMode) -> int {
        let tiles = self.frame_tiles(bitmap, mode);
        if self.frame_count == 0 || tiles.len() == 0 {
            0
        } else {
            cooldown_millis(
                tiles.len() as int,
                grid_size(mode, bitmap.width as int, bitmap.height as int),
            ) * NANOS_PER_MILLI
        }
    }

    /// Whether a frame comes too soon after the last large one.
    pub open spec fn held_back(self, bitmap: BitmapUpdate, mode: CompressionMode, now: u64) -> bool {
        (if now >= self.last_large_update {
            now - self.last_large_update
        } else {
            0
        }) < self.cooldown(bitmap, mode)
    }

    /// The tiles of a frame that are sent.
    pub open spec fn sent_tiles(self, bitmap: BitmapUpdate, mode: CompressionMode, now: u64) -> Seq<Rect> {
        if self.held_back(bitmap, mode, now) {
            Seq::empty()
        } else {
            self.frame_tiles(bitmap, mode)
        }
    }

    /// Whether `self` is `old` with one more frame compared.
    pub open spec fn counted(
        self,
        old: UpdateEncoder,
        bitmap: BitmapUpdate,
        mode: CompressionMode,
        now: u64,
    ) -> bool {
        &&& self.desktop_size == old.desktop_size
        &&& self.bitmap_updater == old.bitmap_updater
        &&& self.max_request_size == old.max_request_size
        &&& self.frame_count == old.frame_count + 1
        &&& self.last_large_update == if !old.held_back(bitmap, mode, now) && old.cooldown(
            bitmap,
            mode,
        ) > 0 {
            now
        } else {
            old.last_large_update
        }
    }

    /// An encoder for a desktop of the given size, to which nothing has been sent yet.
    ///
    /// Frames go out as compressed tiles, whatever else the client could decode.
    pub fn new(
        desktop_size: DesktopSize,
        _surface_flags: u32,
        _codecs: UpdateEncoderCodecs,
        max_request_size: u32,
        now: u64,
    ) -> (r: UpdateEncoder)
        ensures
            r.wf(),
            r.desktop_size == desktop_size,
            r.framebuffer is None,
            r.bitmap_updater is Tiles,
            r.max_request_size == max_request_size,
            r.frame_count == 0,
            r.last_large_update == now,
    {
        UpdateEncoder {
            desktop_size,
            framebuffer: None,
            bitmap_updater: BitmapUpdater::Tiles(NoneHandler),
            max_request_size: max_request_size as usize,
            frame_count: 0,
            last_large_update: now,
        }
    }

    /// The steps in which an update is sent.
    pub fn update(&self, update: DisplayUpdate) -> (r: EncoderIter)
        ensures
            r.state == EncoderState::Start(update),
    {
        EncoderIter { state: EncoderState::Start(update) }
    }

    /// The tiles of a frame that have to be sent now.
    ///
    /// Nothing is sent of a frame that comes too soon after a large one; as the framebuffer stays as
    /// it is, a later frame makes up for it.
    pub fn bitmap_diffs(&mut self, bitmap: &BitmapUpdate, mode: CompressionMode, now: u64) -> (r: Vec<
        Rect,
    >)
        requires
            old(self).wf(),
            bitmap.complete(),
            mode.valid(),
            old(self).frame_count < u64::MAX,
        ensures
            r@ == old(self).sent_tiles(*bitmap, mode, now),
            final(self).counted(*old(self), *bitmap, mode, now),
            final(self).framebuffer == old(self).framebuffer,
    {
        self.frame_count = self.frame_count + 1;
        let force_full_screen = self.frame_count <= 1;
        let width: usize = bitmap.width as usize;
        let height: usize = bitmap.height as usize;
        let mut full: Vec<Rect> = Vec::new();
        full.push(Rect { x: 0, y: 0, width, height });
        let diffs: Vec<Rect> = if force_full_screen {
            full
        } else {
            match &self.framebuffer {
                Some(fb) => find_different_rects(
                    fb.data.as_slice(),
                    fb.stride,
                    fb.width as usize,
                    fb.height as usize,
                    bitmap.data.as_slice(),
                    bitmap.stride,
                    width,
                    height,
                    bitmap.x as usize,
                    bitmap.y as usize,
                ),
                None => full,
            }
        };
        let ghost changed = old(self).changed(*bitmap);
        let ghost marked = |px: int, py: int| covered(diffs@, px, py);
        let ghost total_tiles = grid_size(mode, width as int, height as int);
        proof {
            assert forall|px: int, py: int| 0 <= px < width && 0 <= py < height implies #[trigger] marked(
                px,
                py,
            ) == changed(px, py) by {
                if old(self).frame_count == 0 || old(self).framebuffer is None {
                    assert(diffs@[0].covers(px, py));
                }
            }
            lemma_grid_bounds(mode, width as int, height as int);
            lemma_dirty_tiles_agree(mode, width as int, height as int, marked, changed, total_tiles);
            lemma_dirty_tiles_sound(mode, width as int, height as int, changed, total_tiles);
        }
        let tiles = tiles_of(mode, bitmap.width, bitmap.height, &diffs);
        assert(tiles@ == old(self).frame_tiles(*bitmap, mode));
        if !force_full_screen && tiles.len() > 0 {
            let cols: usize = (width + mode.tile_w - 1) / mode.tile_w;
            let rows: usize = (height + mode.tile_h - 1) / mode.tile_h;
            let cooldown: u64 = required_cooldown(tiles.len(), cols * rows) * NANOS_PER_MILLI;
            let elapsed: u64 = if now >= self.last_large_update {
                now - self.last_large_update
            } else {
                0
            };
            if elapsed < cooldown {
                return Vec::new();
            }
            if cooldown > 0 {
                self.last_large_update = now;
            }
        }
        tiles
    }

    /// Takes the rectangles of a bitmap for shown.
    pub fn bitmap_update_framebuffer(&mut self, bitmap: BitmapUpdate, diffs: &Vec<Rect>)
        requires
            old(self).wf(),
            bitmap.complete(),
            old(self).contains(bitmap),
            forall|i: int|
                0 <= i < diffs@.len() ==> (#[trigger] diffs@[i]).within(
                    bitmap.width as int,
                    bitmap.height as int,
                ),
        ensures
            final(self).wf(),
            shown(final(self).framebuffer, old(self).framebuffer, bitmap, diffs@),
            final(self).desktop_size == old(self).desktop_size,
            final(self).bitmap_updater == old(self).bitmap_updater,
            final(self).max_request_size == old(self).max_request_size,
            final(self).frame_count == old(self).frame_count,
            final(self).last_large_update == old(self).last_large_update,
    {
        if diffs.len() == 0 {
            return ;
        }
        match self.framebuffer.take() {
            None => {
                self.framebuffer = Framebuffer::from_bitmap(bitmap);
            },
            Some(mut fb) => {
                fb.update_diffs(&bitmap, diffs);
                self.framebuffer = Some(fb);
            },
        }
    }
}

impl UpdateEncoder {
    /// Notes a new size of the desktop.
    pub fn set_desktop_size(&mut self, size: DesktopSize)
        ensures
            final(self).desktop_size == size,
            final(self).framebuffer == old(self).framebuffer,
            final(self).max_request_size == old(self).max_request_size,
            final(self).frame_count == old(self).frame_count,
            final(self).last_large_update == old(self).last_large_update,
            match old(self).bitmap_updater {
                BitmapUpdater::RemoteFx(up) => final(self).bitmap_updater == BitmapUpdater::RemoteFx(
                    RemoteFxHandler { codec_id: up.codec_id, desktop_size: Some(size) },
                ),
                _ => final(self).bitmap_updater == old(self).bitmap_updater,
            },
    {
        self.desktop_size = size;
        self.bitmap_updater.set_desktop_size(size);
    }

    /// Whether a bitmap lies inside the framebuffer, if there is one.
    pub fn has_room_for(&self, bitmap: &BitmapUpdate) -> (r: bool)
        ensures
            r == self.contains(*bitmap),
    {
        match &self.framebuffer {
            Some(fb) => bitmap.x as u32 + bitmap.width as u32 <= fb.width as u32 && bitmap.y as u32
                + bitmap.height as u32 <= fb.height as u32,
            None => true,
        }
    }

    /// Encodes a whole bitmap.
    pub fn bitmap(&mut self, bitmap: &BitmapUpdate, mask: u8) -> (r: Result<
        UpdateFragmenter,
        UpdateError,
    >)
        requires
            old(self).bitmap_updater.takes(*bitmap),
        ensures
            old(self).bitmap_updater.owes(*bitmap, mask, r),
            final(self).bitmap_updater.stays(old(self).bitmap_updater, *bitmap, r),
            final(self).desktop_size == old(self).desktop_size,
            final(self).framebuffer == old(self).framebuffer,
            final(self).max_request_size == old(self).max_request_size,
            final(self).frame_count == old(self).frame_count,
            final(self).last_large_update == old(self).last_large_update,
    {
        self.bitmap_updater.handle(bitmap, mask)
    }

    /// Encodes a bitmap as a tile.
    pub fn encode_bitmap_tile(&self, bitmap: &BitmapUpdate, mask: u8) -> (r: Result<
        Vec<u8>,
        UpdateError,
    >)
        requires
            self.bitmap_updater is Tiles ==> bitmap.tileable(),
        ensures
            match r {
                Ok(bytes) => self.bitmap_updater is Tiles && bitmap.tile_bytes(mask) == Ok::<
                    Seq<u8>,
                    BitmapEncodeError,
                >(bytes@),
                Err(UpdateError::Bitmap(e)) => self.bitmap_updater is Tiles && bitmap.tile_bytes(mask)
                    == Err::<Seq<u8>, BitmapEncodeError>(e),
                Err(e) => !(self.bitmap_updater is Tiles) && e == UpdateError::Unsupported,
            },
            self.bitmap_updater is Tiles && bitmap.complete() && safe_tile(
                bitmap.width as int,
                bitmap.height as int,
            ) ==> r is Ok,
    {
        self.bitmap_updater.encode_bitmap_tile(bitmap, mask)
    }
}

impl EncoderState {
    /// Whether packets that wait are those of rectangles inside their bitmap, and some do wait.
    pub open spec fn wf(self) -> bool {
        match self {
            EncoderState::ReadyBuffers { buffers, pos, bitmap, diffs } => {
                &&& pos < buffers@.len()
                &&& bitmap.complete()
                &&& forall|i: int|
                    0 <= i < diffs@.len() ==> (#[trigger] diffs@[i]).within(
                        bitmap.width as int,
                        bitmap.height as int,
                    )
            },
            _ => true,
        }
    }

    /// Whether the encoder can take the next step.
    pub open spec fn fits(self, encoder: UpdateEncoder, mode: CompressionMode) -> bool {
        match self {
            EncoderState::Start(DisplayUpdate::Bitmap(bitmap)) => {
                &&& bitmap.on_desktop()
                &&& encoder.on_desktop(bitmap) ==> {
                    &&& bitmap.complete()
                    &&& encoder.contains(bitmap)
                    &&& encoder.frame_count < u64::MAX
                    &&& mode.valid()
                    &&& bitmap.width * bitmap.height * 4 + TILE_SLACK + RECORD_SLACK <= usize::MAX
                }
            },
            EncoderState::Start(update) => update.addressable(),
            EncoderState::ReadyBuffers { bitmap, .. } => encoder.contains(bitmap),
            EncoderState::Ended => true,
        }
    }

    /// Whether the encoder can take the next step.
    pub fn is_ready(&self, encoder: &UpdateEncoder, mode: CompressionMode) -> (r: bool)
        ensures
            r == self.fits(*encoder, mode),
    {
        match self {
            EncoderState::Start(update) => match update {
                DisplayUpdate::Bitmap(bitmap) => {
                    let right: u32 = bitmap.x as u32 + bitmap.width as u32;
                    let bottom: u32 = bitmap.y as u32 + bitmap.height as u32;
                    if right > 65535 || bottom > 65535 {
                        return false;
                    }
                    if right > encoder.desktop_size.width as u32 || bottom
                        > encoder.desktop_size.height as u32 {
                        return true;
                    }
                    assert(0 <= bitmap.width * bitmap.height <= u16::MAX * u16::MAX) by (nonlinear_arith)
                        requires
                            0 <= bitmap.width <= u16::MAX,
                            0 <= bitmap.height <= u16::MAX,
                    ;
                    let area: u64 = bitmap.width as u64 * bitmap.height as u64;
                    bitmap.is_complete() && encoder.has_room_for(bitmap) && encoder.frame_count
                        < u64::MAX && mode.is_valid() && area * 4 + 1152 <= usize::MAX as u64
                },
                DisplayUpdate::RGBAPointer(p) => p.data.len() <= isize::MAX as usize - 16,
                DisplayUpdate::ColorPointer(p) => {
                    let limit: usize = isize::MAX as usize - 14;
                    p.xor_mask.len() <= limit && p.and_mask.len() <= limit - p.xor_mask.len()
                },
                _ => true,
            },
            EncoderState::ReadyBuffers { bitmap, .. } => encoder.has_room_for(bitmap),
            EncoderState::Ended => true,
        }
    }

    /// Whether these packets of a bitmap wait, of which those before `pos` have been sent.
    pub open spec fn waits(self, packets: Seq<Seq<u8>>, pos: int, bitmap: BitmapUpdate, rects: Seq<Rect>) -> bool {
        match self {
            EncoderState::ReadyBuffers { buffers, pos: p, bitmap: b, diffs } => {
                &&& views(buffers@) == packets
                &&& p == pos
                &&& b == bitmap
                &&& diffs@ == rects
            },
            _ => false,
        }
    }
}

/// Whether packet `pos` of a bitmap has been handed out: it is the outcome, and either the next one
/// waits or, with the last one, the rectangles are taken for shown.
pub open spec fn handed_out(
    r: Option<Result<UpdateFragmenter, UpdateError>>,
    state: EncoderState,
    after: Option<Framebuffer>,
    before: Option<Framebuffer>,
    packets: Seq<Seq<u8>>,
    pos: int,
    bitmap: BitmapUpdate,
    rects: Seq<Rect>,
) -> bool {
    &&& r matches Some(Ok(update)) && update.is(UpdateCode::Bitmap, packets[pos])
    &&& if pos + 1 < packets.len() {
        state.waits(packets, pos + 1, bitmap, rects) && after == before
    } else {
        state is Ended && shown(after, before, bitmap, rects)
    }
}

/// Whether the first step of a bitmap has this outcome.
pub open spec fn bitmap_started(
    r: Option<Result<UpdateFragmenter, UpdateError>>,
    state: EncoderState,
    after: UpdateEncoder,
    before: UpdateEncoder,
    bitmap: BitmapUpdate,
    mode: CompressionMode,
    now: u64,
) -> bool {
    if !before.on_desktop(bitmap) {
        r is None && state is Ended && after == before
    } else {
        let rects = before.sent_tiles(bitmap, mode, now);
        &&& after.counted(before, bitmap, mode, now)
        &&& if rects.len() == 0 {
            r is None && state is Ended && after.framebuffer == before.framebuffer
        } else {
            match regions_bytes(bitmap, rects, mode.mask, rects.len() as int) {
                Err(e) => {
                    &&& r == Some(Err::<UpdateFragmenter, _>(UpdateError::Bitmap(e)))
                    &&& state is Ended
                    &&& after.framebuffer == before.framebuffer
                },
                Ok(tiles) => handed_out(
                    r,
                    state,
                    after.framebuffer,
                    before.framebuffer,
                    packets(tiles, Seq::empty()),
                    0,
                    bitmap,
                    rects,
                ),
            }
        }
    }
}

impl EncoderIter {
    /// Hands out a packet.
    fn hand_out(
        &mut self,
        encoder: &mut UpdateEncoder,
        buffers: Vec<Vec<u8>>,
        pos: usize,
        bitmap: BitmapUpdate,
        diffs: Vec<Rect>,
    ) -> (r: Option<Result<UpdateFragmenter, UpdateError>>)
        requires
            pos < buffers@.len(),
            old(encoder).wf(),
            old(encoder).contains(bitmap),
            bitmap.complete(),
            forall|i: int|
                0 <= i < diffs@.len() ==> (#[trigger] diffs@[i]).within(
                    bitmap.width as int,
                    bitmap.height as int,
                ),
        ensures
            final(self).state.wf(),
            final(encoder).wf(),
            handed_out(
                r,
                final(self).state,
                final(encoder).framebuffer,
                old(encoder).framebuffer,
                views(buffers@),
                pos as int,
                bitmap,
                diffs@,
            ),
            final(encoder).desktop_size == old(encoder).desktop_size,
            final(encoder).bitmap_updater == old(encoder).bitmap_updater,
            final(encoder).max_request_size == old(encoder).max_request_size,
            final(encoder).frame_count == old(encoder).frame_count,
            final(encoder).last_large_update == old(encoder).last_large_update,
    {
        let count: usize = buffers.len();
        let packet = buffers[pos].clone();
        let next: usize = pos + 1;
        if next >= count {
            encoder.bitmap_update_framebuffer(bitmap, &diffs);
            self.state = EncoderState::Ended;
        } else {
            self.state = EncoderState::ReadyBuffers { buffers, pos: next, bitmap, diffs };
        }
        Some(Ok(UpdateFragmenter::new(UpdateCode::Bitmap, packet)))
    }

    /// Takes the first step of a bitmap.
    fn start_bitmap(
        &mut self,
        encoder: &mut UpdateEncoder,
        bitmap: BitmapUpdate,
        mode: CompressionMode,
        now: u64,
    ) -> (r: Option<Result<UpdateFragmenter, UpdateError>>)
        requires
            old(self).state is Ended,
            old(encoder).wf(),
            EncoderState::Start(DisplayUpdate::Bitmap(bitmap)).fits(*old(encoder), mode),
        ensures
            final(self).state.wf(),
            final(encoder).wf(),
            bitmap_started(r, final(self).state, *final(encoder), *old(encoder), bitmap, mode, now),
            mode.safe() ==> !(r matches Some(Err(_))),
    {
        let size = encoder.desktop_size;
        if bitmap.x + bitmap.width > size.width || bitmap.y + bitmap.height > size.height {
            return None;
        }
        let diffs = encoder.bitmap_diffs(&bitmap, mode, now);
        if diffs.len() == 0 {
            return None;
        }
        proof {
            let width = bitmap.width as int;
            let height = bitmap.height as int;
            lemma_grid_bounds(mode, width, height);
            lemma_dirty_tiles_sound(
                mode,
                width,
                height,
                old(encoder).changed(bitmap),
                grid_size(mode, width, height),
            );
            if mode.safe() {
                assert forall|i: int| 0 <= i < diffs@.len() implies #[trigger] safe_tile(
                    diffs@[i].width as int,
                    diffs@[i].height as int,
                ) by {
                    lemma_safe_mode(mode, diffs@[i].width as int, diffs@[i].height as int);
                }
            }
        }
        let tiles = match encode_tiles(&bitmap, &diffs, mode.mask) {
            Ok(tiles) => tiles,
            Err(e) => {
                return Some(Err(UpdateError::Bitmap(e)));
            },
        };
        let buffers = pack_tiles(&tiles);
        proof {
            lemma_packets(views(tiles@), Seq::empty());
            assert(views(buffers@).len() == buffers@.len());
            assert(views(tiles@).len() == tiles@.len());
        }
        self.hand_out(encoder, buffers, 0, bitmap, diffs)
    }

    /// The next part of the update, if any is left.
    ///
    /// A bitmap is cut into tiles, of which those that changed are sent in packets; when the last
    /// packet is handed out, and not before, they are taken for shown.
    pub fn next(&mut self, encoder: &mut UpdateEncoder, mode: CompressionMode, now: u64) -> (r: Option<
        Result<UpdateFragmenter, UpdateError>,
    >)
        requires
            old(self).state.wf(),
            old(encoder).wf(),
            old(self).state.fits(*old(encoder), mode),
        ensures
            final(self).state.wf(),
            final(encoder).wf(),
            match old(self).state {
                EncoderState::Start(DisplayUpdate::Bitmap(bitmap)) => bitmap_started(
                    r,
                    final(self).state,
                    *final(encoder),
                    *old(encoder),
                    bitmap,
                    mode,
                    now,
                ),
                EncoderState::Start(DisplayUpdate::Resize(_)) => r is None,
                EncoderState::Start(update) => r is Some && is_pointer_update(
                    r->0,
                    update.pointer_bytes(),
                ),
                EncoderState::ReadyBuffers { buffers, pos, bitmap, diffs } => handed_out(
                    r,
                    final(self).state,
                    final(encoder).framebuffer,
                    old(encoder).framebuffer,
                    views(buffers@),
                    pos as int,
                    bitmap,
                    diffs@,
                ),
                EncoderState::Ended => r is None,
            },
            !(old(self).state matches EncoderState::Start(DisplayUpdate::Bitmap(_))) && !(old(
                self,
            ).state is ReadyBuffers) ==> final(self).state is Ended && *final(encoder) == *old(encoder),
            old(self).state matches EncoderState::Start(DisplayUpdate::Bitmap(_)) ==> (mode.safe()
                ==> !(r matches Some(Err(_)))),
            final(encoder).desktop_size == old(encoder).desktop_size,
            final(encoder).bitmap_updater == old(encoder).bitmap_updater,
            old(self).state is ReadyBuffers ==> {
                &&& final(encoder).frame_count == old(encoder).frame_count
                &&& final(encoder).last_large_update == old(encoder).last_large_update
                &&& final(encoder).max_request_size == old(encoder).max_request_size
            },
    {
        let mut state = EncoderState::Ended;
        std::mem::swap(&mut self.state, &mut state);
        match state {
            EncoderState::Start(update) => match update {
                DisplayUpdate::Bitmap(bitmap) => self.start_bitmap(encoder, bitmap, mode, now),
                DisplayUpdate::PointerPosition(pos) => Some(UpdateEncoder::pointer_position(pos)),
                DisplayUpdate::RGBAPointer(ptr) => Some(UpdateEncoder::rgba_pointer(&ptr)),
                DisplayUpdate::ColorPointer(ptr) => Some(UpdateEncoder::color_pointer(&ptr)),
                DisplayUpdate::HidePointer => Some(UpdateEncoder::hide_pointer()),
                DisplayUpdate::DefaultPointer => Some(UpdateEncoder::default_pointer()),
                DisplayUpdate::CachedPointer(index) => Some(UpdateEncoder::cached_pointer(index)),
                DisplayUpdate::Resize(_) => None,
            },
            EncoderState::ReadyBuffers { buffers, pos, bitmap, diffs } => self.hand_out(
                encoder,
                buffers,
                pos,
                bitmap,
                diffs,
            ),
            EncoderState::Ended => None,
        }
    }
}

/// No ghosts stay behind: once the changed tiles of a frame have been shown, the client shows the
/// frame where it lies, and elsewhere what it showed before.
pub proof fn lemma_no_ghosting(
    encoder: UpdateEncoder,
    bitmap: BitmapUpdate,
    mode: CompressionMode,
    after: Framebuffer,
    row: int,
    off: int,
)
    requires
        encoder.wf(),
        encoder.framebuffer is Some,
        encoder.contains(bitmap),
        bitmap.complete(),
        encoder.framebuffer->0.format == bitmap.format,
        mode.valid(),
        encoder.frame_tiles(bitmap, mode).len() > 0,
        shown(Some(after), encoder.framebuffer, bitmap, encoder.frame_tiles(bitmap, mode)),
        0 <= row < after.height,
        0 <= off < after.width * 4,
    ensures
        ({
            let fb = encoder.framebuffer->0;
            let px = off / 4 - bitmap.x;
            let py = row - bitmap.y;
            cell(after.data@, after.stride as int, row, off) == if 0 <= px < bitmap.width && 0 <= py
                < bitmap.height {
                cell(bitmap.data@, bitmap.stride as int, py, off - bitmap.x * 4)
            } else {
                cell(fb.data@, fb.stride as int, row, off)
            }
        }),
{
    let fb = encoder.framebuffer->0;
    let px = off / 4 - bitmap.x;
    let py = row - bitmap.y;
    let width = bitmap.width as int;
    let height = bitmap.height as int;
    let tiles = encoder.frame_tiles(bitmap, mode);
    let changed = encoder.changed(bitmap);
    lemma_grid_bounds(mode, width, height);
    lemma_dirty_tiles_sound(mode, width, height, changed, grid_size(mode, width, height));
    assert(cell(after.data@, after.stride as int, row, off) == fb.patched_cell(bitmap, tiles, row, off));
    if covered(tiles, px, py) {
        let k = choose|k: int| 0 <= k < tiles.len() && (#[trigger] tiles[k]).covers(px, py);
        assert(tiles[k].within(width, height));
    } else if 0 <= px < width && 0 <= py < height {
        if changed(px, py) {
            lemma_dirty_tiles_cover(mode, width, height, changed, px, py);
        }
        let k = off % 4;
        assert(!pixel_differs(
            fb.data@,
            fb.stride as int,
            bitmap.data@,
            bitmap.stride as int,
            bitmap.x as int,
            bitmap.y as int,
            px,
            py,
        ));
        assert(cell(bitmap.data@, bitmap.stride as int, py, px * 4 + k) == cell(
            fb.data@,
            fb.stride as int,
            bitmap.y + py,
            (bitmap.x + px) * 4 + k,
        ));
    }
}

/// The first frame at the desktop's origin is sent in full and shown as it is.
pub proof fn lemma_first_frame(
    encoder: UpdateEncoder,
    bitmap: BitmapUpdate,
    mode: CompressionMode,
    after: Option<Framebuffer>,
)
    requires
        encoder.framebuffer is None,
        bitmap.complete(),
        bitmap.x == 0,
        bitmap.y == 0,
        mode.valid(),
        shown(after, encoder.framebuffer, bitmap, encoder.frame_tiles(bitmap, mode)),
    ensures
        encoder.frame_tiles(bitmap, mode).len() > 0,
        forall|px: int, py: int|
            0 <= px < bitmap.width && 0 <= py < bitmap.height ==> #[trigger] covered(
                encoder.frame_tiles(bitmap, mode),
                px,
                py,
            ),
        after is Some,
        after->0.data@ == bitmap.data@,
        after->0.width == bitmap.width,
        after->0.height == bitmap.height,
        after->0.stride == bitmap.stride,
{
    let changed = encoder.changed(bitmap);
    assert forall|px: int, py: int| 0 <= px < bitmap.width && 0 <= py < bitmap.height implies #[trigger] covered(
        encoder.frame_tiles(bitmap, mode),
        px,
        py,
    ) by {
        assert(changed(px, py));
        lemma_dirty_tiles_cover(mode, bitmap.width as int, bitmap.height as int, changed, px, py);
    }
    assert(covered(encoder.frame_tiles(bitmap, mode), 0, 0));
}

/// A frame that shows nothing new costs nothing: none of its tiles is sent.
pub proof fn lemma_static_frame(
    encoder: UpdateEncoder,
    bitmap: BitmapUpdate,
    mode: CompressionMode,
    now: u64,
)
    requires
        encoder.frame_count > 0,
        encoder.framebuffer is Some,
        encoder.contains(bitmap),
        mode.valid(),
        forall|px: int, py: int|
            0 <= px < bitmap.width && 0 <= py < bitmap.height ==> !(#[trigger] pixel_differs(
                encoder.framebuffer->0.data@,
                encoder.framebuffer->0.stride as int,
                bitmap.data@,
                bitmap.stride as int,
                bitmap.x as int,
                bitmap.y as int,
                px,
                py,
            )),
    ensures
        encoder.sent_tiles(bitmap, mode, now).len() == 0,
{
    let width = bitmap.width as int;
    let height = bitmap.height as int;
    let changed = encoder.changed(bitmap);
    let n = grid_size(mode, width, height);
    lemma_grid_bounds(mode, width, height);
    lemma_dirty_tiles_sound(mode, width, height, changed, n);
    let tiles = dirty_tiles(mode, width, height, changed, n);
    if tiles.len() > 0 {
        let tile = tiles[0];
        let (px, py) = choose|px: int, py: int| #[trigger] tile.covers(px, py) && changed(px, py);
        assert(changed(px, py));
        assert(false);
    }
}

/// No frame is held back for longer than half a second after the last large one, and one in which at
/// most a twentieth of the tiles changes is never held back.
pub proof fn lemma_frames_resume(
    encoder: UpdateEncoder,
    bitmap: BitmapUpdate,
    mode: CompressionMode,
    now: u64,
)
    requires
        now >= encoder.last_large_update + 500 * NANOS_PER_MILLI || encoder.frame_tiles(
            bitmap,
            mode,
        ).len() * 20 <= grid_size(mode, bitmap.width as int, bitmap.height as int),
    ensures
        encoder.sent_tiles(bitmap, mode, now) == encoder.frame_tiles(bitmap, mode),
{
}

/// A frame that is compared with what the client shows, at a moment.
pub struct Compared {
    pub bitmap: BitmapUpdate,
    pub mode: CompressionMode,
    pub now: u64,
}

impl UpdateEncoder {
    /// The tiles of the frame that hold changed pixels.
    pub open spec fn tiles_in(self, frame: Compared) -> Seq<Rect> {
        self.frame_tiles(frame.bitmap, frame.mode)
    }

    /// Those of them that are sent.
    pub open spec fn sent_of(self, frame: Compared) -> Seq<Rect> {
        self.sent_tiles(frame.bitmap, frame.mode, frame.now)
    }
}

/// Whether the encoder went through the frames one after the other: `states` are what it was before each of
/// them and after the last. What it takes the client to show may change in any way between two frames.
pub open spec fn went_through(states: Seq<UpdateEncoder>, frames: Seq<Compared>) -> bool {
    &&& states.len() == frames.len() + 1
    &&& forall|i: int|
        0 <= i < frames.len() ==> (#[trigger] states[i + 1]).counted(
            states[i],
            frames[i].bitmap,
            frames[i].mode,
            frames[i].now,
        )
    &&& forall|i: int, j: int|
        0 <= i <= j < frames.len() ==> (#[trigger] frames[i]).now <= (#[trigger] frames[j]).now
    &&& frames.len() > 0 ==> states[0].last_large_update <= frames[0].now
}

/// A frame of which nothing is sent leaves the moment from which pauses are counted as it was.
pub proof fn lemma_unsent_frame(
    before: UpdateEncoder,
    after: UpdateEncoder,
    bitmap: BitmapUpdate,
    mode: CompressionMode,
    now: u64,
)
    requires
        after.counted(before, bitmap, mode, now),
        before.sent_tiles(bitmap, mode, now).len() == 0,
    ensures
        after.last_large_update == before.last_large_update,
{
}

/// The moment from which pauses are counted is never later than the last frame.
proof fn lemma_moment_past(states: Seq<UpdateEncoder>, frames: Seq<Compared>, n: int)
    requires
        went_through(states, frames),
        0 <= n < frames.len(),
    ensures
        states[n].last_large_update <= frames[n].now,
        states[n + 1].last_large_update <= frames[n].now,
    decreases n,
{
    if n > 0 {
        lemma_moment_past(states, frames, n - 1);
        assert(frames[n - 1].now <= frames[n].now);
        assert(states[(n - 1) + 1].last_large_update <= frames[n - 1].now);
    }
    assert(states[n + 1].counted(states[n], frames[n].bitmap, frames[n].mode, frames[n].now));
}

proof fn lemma_moment_kept(states: Seq<UpdateEncoder>, frames: Seq<Compared>, from: int, to: int)
    requires
        went_through(states, frames),
        0 <= from <= to <= frames.len(),
        forall|k: int| from <= k < to ==> (#[trigger] states[k]).sent_of(frames[k]).len() == 0,
    ensures
        states[to].last_large_update == states[from].last_large_update,
    decreases to - from,
{
    if from < to {
        lemma_moment_kept(states, frames, from, to - 1);
        let k = to - 1;
        assert(states[k].sent_of(frames[k]).len() == 0);
        assert(states[k + 1].counted(states[k], frames[k].bitmap, frames[k].mode, frames[k].now));
        lemma_unsent_frame(
            states[k],
            states[k + 1],
            frames[k].bitmap,
            frames[k].mode,
            frames[k].now,
        );
    }
}

/// An animation goes on at a lower rate: whatever was held back in between, a frame that comes half a
/// second or more after the last one of which tiles were sent is sent with all of its changed tiles.
pub proof fn lemma_animation_goes_on(
    states: Seq<UpdateEncoder>,
    frames: Seq<Compared>,
    last: int,
    n: int,
)
    requires
        went_through(states, frames),
        0 <= last < n < frames.len(),
        forall|k: int| last < k < n ==> (#[trigger] states[k]).sent_of(frames[k]).len() == 0,
        frames[n].now >= frames[last].now + 500_000_000,
    ensures
        states[n].sent_of(frames[n]) == states[n].tiles_in(frames[n]),
{
    lemma_moment_past(states, frames, last);
    lemma_moment_kept(states, frames, last + 1, n);
    lemma_frames_resume(states[n], frames[n].bitmap, frames[n].mode, frames[n].now);
}

/// The same where no frame has been sent yet: half a second after the start no frame is held back.
pub proof fn lemma_animation_starts(states: Seq<UpdateEncoder>, frames: Seq<Compared>, n: int)
    requires
        went_through(states, frames),
        0 <= n < frames.len(),
        forall|k: int| 0 <= k < n ==> (#[trigger] states[k]).sent_of(frames[k]).len() == 0,
        frames[n].now >= states[0].last_large_update + 500_000_000,
    ensures
        states[n].sent_of(frames[n]) == states[n].tiles_in(frames[n]),
{
    lemma_moment_kept(states, frames, 0, n);
    lemma_frames_resume(states[n], frames[n].bitmap, frames[n].mode, frames[n].now);
}

proof fn lemma_moment_grows(states: Seq<UpdateEncoder>, frames: Seq<Compared>, from: int, to: int)
    requires
        went_through(states, frames),
        0 <= from <= to <= frames.len(),
    ensures
        states[from].last_large_update <= states[to].last_large_update,
    decreases to - from,
{
    if from < to {
        lemma_moment_grows(states, frames, from, to - 1);
        let k = to - 1;
        lemma_moment_past(states, frames, k);
        assert(states[k + 1].counted(states[k], frames[k].bitmap, frames[k].mode, frames[k].now));
    }
}

/// The intermediate frames of an animation are left out: of two frames that are sent, each with changes in
/// more than a twentieth of its tiles, the later one comes after the pause that its share of changed tiles
/// asks for.
pub proof fn lemma_frames_left_out(states: Seq<UpdateEncoder>, frames: Seq<Compared>, i: int, j: int)
    requires
        went_through(states, frames),
        0 <= i < j < frames.len(),
        states[i].frame_count > 0,
        states[j].frame_count > 0,
        states[i].sent_of(frames[i]).len() * 20 > grid_size(
            frames[i].mode,
            frames[i].bitmap.width as int,
            frames[i].bitmap.height as int,
        ),
        states[j].sent_of(frames[j]).len() > 0,
        grid_size(
            frames[i].mode,
            frames[i].bitmap.width as int,
            frames[i].bitmap.height as int,
        ) >= 0,
    ensures
        frames[j].now - frames[i].now >= 1_000_000 * cooldown_millis(
            states[j].tiles_in(frames[j]).len() as int,
            grid_size(
                frames[j].mode,
                frames[j].bitmap.width as int,
                frames[j].bitmap.height as int,
            ),
        ),
{
    assert(states[i + 1].counted(states[i], frames[i].bitmap, frames[i].mode, frames[i].now));
    assert(states[i + 1].last_large_update == frames[i].now);
    lemma_moment_grows(states, frames, i + 1, j);
    lemma_moment_past(states, frames, j);
    assert(frames[i].now <= frames[j].now);
}

/// A pointer arrives as it is: its update is of the kind that its shape asks for, and where it is, its place
/// in the client's cache, its hot spot, its size and its pixels stand in the bytes, each number an integer
/// of 16 bits.
pub proof fn lemma_pointer_arrives(update: DisplayUpdate)
    ensures
        match update {
            DisplayUpdate::PointerPosition(p) => update.pointer_bytes() matches Some((code, bytes)) && {
                &&& code.number() == 8
                &&& bytes.len() == 4
                &&& word(bytes, 0) == p.x
                &&& word(bytes, 2) == p.y
            },
            DisplayUpdate::CachedPointer(index) => update.pointer_bytes() matches Some((code, bytes)) && {
                &&& code.number() == 10
                &&& bytes.len() == 2
                &&& word(bytes, 0) == index
            },
            DisplayUpdate::HidePointer => update.pointer_bytes() matches Some((code, bytes)) && {
                code.number() == 5 && bytes.len() == 0
            },
            DisplayUpdate::DefaultPointer => update.pointer_bytes() matches Some((code, bytes)) && {
                code.number() == 6 && bytes.len() == 0
            },
            DisplayUpdate::RGBAPointer(p) => match update.pointer_bytes() {
                Some((code, bytes)) => {
                    &&& code.number() == 11
                    &&& word(bytes, 0) == 32
                    &&& word(bytes, 2) == p.cache_index
                    &&& word(bytes, 4) == p.hot_x
                    &&& word(bytes, 6) == p.hot_y
                    &&& word(bytes, 8) == p.width
                    &&& word(bytes, 10) == p.height
                    &&& word(bytes, 12) == 0
                    &&& word(bytes, 14) == p.data@.len()
                    &&& bytes.skip(16) == p.data@
                },
                None => p.height == 0 || p.data@.len() > u16::MAX || p.data@.len() as int % (
                p.height * 2) != 0,
            },
            DisplayUpdate::ColorPointer(p) => match update.pointer_bytes() {
                Some((code, bytes)) => {
                    &&& code.number() == 9
                    &&& word(bytes, 0) == p.cache_index
                    &&& word(bytes, 2) == p.hot_x
                    &&& word(bytes, 4) == p.hot_y
                    &&& word(bytes, 6) == p.width
                    &&& word(bytes, 8) == p.height
                    &&& word(bytes, 10) == p.and_mask@.len()
                    &&& word(bytes, 12) == p.xor_mask@.len()
                    &&& bytes.skip(14) == p.xor_mask@ + p.and_mask@
                },
                None => {
                    ||| p.height == 0
                    ||| p.xor_mask@.len() > u16::MAX
                    ||| p.and_mask@.len() > u16::MAX
                    ||| p.xor_mask@.len() as int % (p.height * 2) != 0
                    ||| p.and_mask@.len() as int % (p.height * 2) != 0
                },
            },
            DisplayUpdate::Resize(_) | DisplayUpdate::Bitmap(_) => update.pointer_bytes() is None,
        },
{
    match update {
        DisplayUpdate::PointerPosition(p) => {
            lemma_word_back(p.x as int);
            lemma_word_back(p.y as int);
        },
        DisplayUpdate::CachedPointer(index) => {
            lemma_word_back(index as int);
        },
        DisplayUpdate::RGBAPointer(p) => {
            let len = p.data@.len() as int;
            if len <= u16::MAX {
                lemma_pointer_fields(p.record(), p.data@, Seq::empty());
                lemma_word_back(32);
                let inner = p.record().bytes(p.data@, Seq::empty());
                let bytes = le16(32) + inner;
                assert(forall|k: int| 0 <= k < inner.len() ==> bytes[k + 2] == inner[k]);
                assert(word(bytes, 2) == word(inner, 0) && word(bytes, 4) == word(inner, 2));
                assert(word(bytes, 6) == word(inner, 4) && word(bytes, 8) == word(inner, 6));
                assert(word(bytes, 10) == word(inner, 8) && word(bytes, 12) == word(inner, 10));
                assert(word(bytes, 14) == word(inner, 12));
                assert(bytes.skip(16) =~= inner.skip(14));
                assert(p.data@ + Seq::<u8>::empty() =~= p.data@);
            }
            lemma_even_rows(p.height as int, len);
            lemma_even_rows(p.height as int, 0);
        },
        DisplayUpdate::ColorPointer(p) => {
            if p.xor_mask@.len() <= u16::MAX && p.and_mask@.len() <= u16::MAX {
                lemma_pointer_fields(p.record(), p.xor_mask@, p.and_mask@);
            }
            lemma_even_rows(p.height as int, p.xor_mask@.len() as int);
            lemma_even_rows(p.height as int, p.and_mask@.len() as int);
        },
        _ => {},
    }
}

proof fn lemma_even_rows(height: int, len: int)
    requires
        0 <= len,
        0 <= height,
    ensures
        height > 0 && len <= u16::MAX && len % (height * 2) == 0 ==> mask_fits(height, len),
{
    if height > 0 && len % (height * 2) == 0 {
        let q = len / (height * 2);
        vstd::arithmetic::div_mod::lemma_fundamental_div_mod(len, height * 2);
        assert(len == (q * 2) * height) by (nonlinear_arith)
            requires
                len == (height * 2) * q,
        ;
        vstd::arithmetic::div_mod::lemma_fundamental_div_mod_converse(len, height, q * 2, 0);
    }
}

/// What the client is taken to show changes only with the last packet of a frame: as long as none of it is
/// sent, it cannot be sent, or packets of it are left, the framebuffer stays as it was.
pub proof fn lemma_shown_when_sent(
    r: Option<Result<UpdateFragmenter, UpdateError>>,
    state: EncoderState,
    after: UpdateEncoder,
    before: UpdateEncoder,
    bitmap: BitmapUpdate,
    mode: CompressionMode,
    now: u64,
)
    requires
        bitmap_started(r, state, after, before, bitmap, mode, now),
    ensures
        r is None || r matches Some(Err(_)) || !(state is Ended) ==> after.framebuffer
            == before.framebuffer,
        before.on_desktop(bitmap) ==> (r is None <==> before.sent_tiles(bitmap, mode, now).len() == 0),
        !before.on_desktop(bitmap) ==> r is None && after == before,
{
}

/// What a step of an update gives, and what is left after it.
pub struct Stepped {
    pub outcome: Option<Result<UpdateFragmenter, UpdateError>>,
    pub state: EncoderState,
    pub framebuffer: Option<Framebuffer>,
}

/// Whether the steps are those of a bitmap's packets, each taken from where the one before it left off.
pub open spec fn stepped_through(
    steps: Seq<Stepped>,
    before: Option<Framebuffer>,
    packets: Seq<Seq<u8>>,
    bitmap: BitmapUpdate,
    rects: Seq<Rect>,
) -> bool {
    &&& steps.len() > 0
    &&& handed_out(
        steps[0].outcome,
        steps[0].state,
        steps[0].framebuffer,
        before,
        packets,
        0,
        bitmap,
        rects,
    )
    &&& forall|k: int|
        0 < k < steps.len() ==> ((#[trigger] steps[k - 1]).state matches EncoderState::ReadyBuffers {
            buffers,
            pos,
            bitmap: b,
            diffs,
        } && handed_out(
            steps[k].outcome,
            steps[k].state,
            steps[k].framebuffer,
            steps[k - 1].framebuffer,
            views(buffers@),
            pos as int,
            b,
            diffs@,
        ))
}

/// A frame goes out packet by packet: the steps hand out each of its packets once and in order, and with
/// the last of them, and not before, the update ends and its tiles are taken for shown.
pub proof fn lemma_packets_handed_out(
    steps: Seq<Stepped>,
    before: Option<Framebuffer>,
    packets: Seq<Seq<u8>>,
    bitmap: BitmapUpdate,
    rects: Seq<Rect>,
    k: int,
)
    requires
        stepped_through(steps, before, packets, bitmap, rects),
        packets.len() > 0,
        0 <= k < steps.len(),
    ensures
        k < packets.len(),
        steps[k].outcome matches Some(Ok(update)) && update.code.number() == 1 && update.data@
            == packets[k],
        k + 1 < packets.len() ==> steps[k].state is ReadyBuffers && steps[k].framebuffer == before,
        k + 1 == packets.len() ==> steps[k].state is Ended && shown(
            steps[k].framebuffer,
            before,
            bitmap,
            rects,
        ),
{
    lemma_waiting(steps, before, packets, bitmap, rects, k);
}

proof fn lemma_waiting(
    steps: Seq<Stepped>,
    before: Option<Framebuffer>,
    packets: Seq<Seq<u8>>,
    bitmap: BitmapUpdate,
    rects: Seq<Rect>,
    k: int,
)
    requires
        stepped_through(steps, before, packets, bitmap, rects),
        packets.len() > 0,
        0 <= k < steps.len(),
    ensures
        k < packets.len(),
        handed_out(
            steps[k].outcome,
            steps[k].state,
            steps[k].framebuffer,
            before,
            packets,
            k,
            bitmap,
            rects,
        ),
    decreases k,
{
    if k > 0 {
        lemma_waiting(steps, before, packets, bitmap, rects, k - 1);
        assert(steps[k - 1].state is ReadyBuffers);
        assert(steps[k - 1].state.waits(packets, k, bitmap, rects));
    }
}

/// Only what changed is sent: in a frame after the first, every tile that is sent has a pixel next to one
/// that differs from what the client shows, less than a square of 64 pixels away both ways.
pub proof fn lemma_only_changes_sent(
    encoder: UpdateEncoder,
    bitmap: BitmapUpdate,
    mode: CompressionMode,
    now: u64,
    k: int,
)
    requires
        encoder.frame_count > 0,
        encoder.framebuffer is Some,
        encoder.contains(bitmap),
        mode.valid(),
        0 <= k < encoder.sent_tiles(bitmap, mode, now).len(),
    ensures
        exists|px: int, py: int, qx: int, qy: int|
            #![trigger encoder.sent_tiles(bitmap, mode, now)[k].covers(px, py), pixel_differs(
                encoder.framebuffer->0.data@,
                encoder.framebuffer->0.stride as int,
                bitmap.data@,
                bitmap.stride as int,
                bitmap.x as int,
                bitmap.y as int,
                qx,
                qy,
            )]
            {
                &&& encoder.sent_tiles(bitmap, mode, now)[k].covers(px, py)
                &&& pixel_differs(
                    encoder.framebuffer->0.data@,
                    encoder.framebuffer->0.stride as int,
                    bitmap.data@,
                    bitmap.stride as int,
                    bitmap.x as int,
                    bitmap.y as int,
                    qx,
                    qy,
                )
                &&& 0 <= qx < bitmap.width
                &&& 0 <= qy < bitmap.height
                &&& -64 < px - qx < 64
                &&& -64 < py - qy < 64
            },
{
    let width = bitmap.width as int;
    let height = bitmap.height as int;
    let changed = encoder.changed(bitmap);
    let n = grid_size(mode, width, height);
    let fb = encoder.framebuffer->0;
    lemma_grid_bounds(mode, width, height);
    lemma_dirty_tiles_sound(mode, width, height, changed, n);
    let tile = encoder.sent_tiles(bitmap, mode, now)[k];
    assert(tile == dirty_tiles(mode, width, height, changed, n)[k]);
    let (px, py) = choose|px: int, py: int| #[trigger] tile.covers(px, py) && changed(px, py);
    assert(changed(px, py));
    let (qx, qy) = choose|qx: int, qy: int|
        {
            &&& 0 <= qx < width
            &&& 0 <= qy < height
            &&& qx / 64 == px / 64
            &&& qy / 64 == py / 64
            &&& #[trigger] pixel_differs(
                fb.data@,
                fb.stride as int,
                bitmap.data@,
                bitmap.stride as int,
                bitmap.x as int,
                bitmap.y as int,
                qx,
                qy,
            )
        };
    assert(tile.covers(px, py));
}

/// The first frame is sent in full, whatever the client may show, and at once.
pub proof fn lemma_first_frame_sent(
    encoder: UpdateEncoder,
    bitmap: BitmapUpdate,
    mode: CompressionMode,
    now: u64,
    px: int,
    py: int,
)
    requires
        encoder.frame_count == 0,
        mode.valid(),
        0 <= px < bitmap.width,
        0 <= py < bitmap.height,
    ensures
        covered(encoder.sent_tiles(bitmap, mode, now), px, py),
{
    let changed = encoder.changed(bitmap);
    assert(changed(px, py));
    lemma_dirty_tiles_cover(mode, bitmap.width as int, bitmap.height as int, changed, px, py);
}

/// A frame after the first waits exactly as long as its own pause, counted from the moment that the encoder
/// keeps: before that nothing of it is sent, and from then on all of its changed tiles are.
pub proof fn lemma_own_pause(
    encoder: UpdateEncoder,
    bitmap: BitmapUpdate,
    mode: CompressionMode,
    now: u64,
)
    requires
        encoder.frame_count > 0,
        now >= encoder.last_large_update,
        grid_size(mode, bitmap.width as int, bitmap.height as int) >= 0,
    ensures
        ({
            let tiles = encoder.frame_tiles(bitmap, mode);
            let pause = 1_000_000 * cooldown_millis(
                tiles.len() as int,
                grid_size(mode, bitmap.width as int, bitmap.height as int),
            );
            &&& now - encoder.last_large_update >= pause ==> encoder.sent_tiles(bitmap, mode, now) == tiles
            &&& now - encoder.last_large_update < pause ==> encoder.sent_tiles(bitmap, mode, now).len()
                == 0
        }),
{
}

/// Whatever was held back in between, a frame that comes after its own pause, counted from the last one of
/// which tiles were sent, is sent with all of its changed tiles.
pub proof fn lemma_sent_after_own_pause(
    states: Seq<UpdateEncoder>,
    frames: Seq<Compared>,
    last: int,
    n: int,
)
    requires
        went_through(states, frames),
        0 <= last < n < frames.len(),
        forall|k: int| last < k < n ==> (#[trigger] states[k]).sent_of(frames[k]).len() == 0,
        grid_size(
            frames[n].mode,
            frames[n].bitmap.width as int,
            frames[n].bitmap.height as int,
        ) >= 0,
        frames[n].now - frames[last].now >= 1_000_000 * cooldown_millis(
            states[n].tiles_in(frames[n]).len() as int,
            grid_size(
                frames[n].mode,
                frames[n].bitmap.width as int,
                frames[n].bitmap.height as int,
            ),
        ),
    ensures
        states[n].sent_of(frames[n]) == states[n].tiles_in(frames[n]),
{
    lemma_moment_past(states, frames, last);
    lemma_moment_kept(states, frames, last + 1, n);
    lemma_moment_past(states, frames, n);
    lemma_frames_counted(states, frames, n);
    lemma_own_pause(states[n], frames[n].bitmap, frames[n].mode, frames[n].now);
}

/// Every frame counts, whether it is sent or not, so that only the first is sent for being the first.
pub proof fn lemma_frames_counted(states: Seq<UpdateEncoder>, frames: Seq<Compared>, n: int)
    requires
        went_through(states, frames),
        0 <= n <= frames.len(),
    ensures
        states[n].frame_count == states[0].frame_count + n,
        states[n].desktop_size == states[0].desktop_size,
        states[n].bitmap_updater == states[0].bitmap_updater,
    decreases n,
{
    if n > 0 {
        lemma_frames_counted(states, frames, n - 1);
        let k = n - 1;
        assert(states[k + 1].counted(states[k], frames[k].bitmap, frames[k].mode, frames[k].now));
    }
}

} // verus!
