//! The ways to send a bitmap.

use vstd::prelude::*;
use vstd::slice::slice_subrange;

use crate::bitmap_encoder::{
    chunked_limit, lemma_chunked_room, BitmapEncodeError, BitmapEncoder,
};
use crate::fast_path::{UpdateCode, UpdateFragmenter};
use crate::frame::{BitmapUpdate, DesktopSize};
use crate::graphics::{
    channel_order, encode_nscodec, encode_qoi, nscodec_frame, qoi_fits, qoi_image, zstd_flush,
    zstd_set_parameter, ZstdParameter, ZstdProgress, ZstdStream,
};
use crate::pdu::{
    encode_surface_bits, lemma_surface_fields, BitmapField, EncodeFailure, SurfaceRecord,
};
use crate::wire::{double_word, word};

verus! {

/// Why an update could not be encoded.
#[derive(Debug, Clone, Copy, PartialEq, Eq, Structural)]
pub enum UpdateError {
    /// A bitmap could not be compressed or written.
    Bitmap(BitmapEncodeError),
    /// A pointer's masks do not fit its size.
    Pointer,
    /// The data of a surface command is too long.
    Surface,
    /// The image does not fit the Quite OK Image format.
    Qoi,
    /// The compressor failed.
    Zstd,
    /// Only the encoder of tiles gives tiles that can be put together.
    Unsupported,
}

/// Identifiers of codecs that are not negotiated.
#[derive(Debug, Clone, Copy, PartialEq, Eq, Structural)]
pub enum CodecId {
    NoCodec,
}

impl CodecId {
    /// The identifier on the wire.
    pub fn as_u8(self) -> (r: u8)
        ensures
            r == 0,
    {
        match self {
            CodecId::NoCodec => 0,
        }
    }
}

impl BitmapUpdate {
    /// What a surface command says of the bitmap.
    pub open spec fn surface_record(self, codec_id: u8) -> SurfaceRecord {
        SurfaceRecord {
            left: self.x,
            top: self.y,
            right: (self.x + self.width) as u16,
            bottom: (self.y + self.height) as u16,
            bpp: 32,
            codec_id,
            width: self.width,
            height: self.height,
        }
    }
}

/// Whether data of this length has room in a surface command.
pub open spec fn surface_fits(len: int) -> bool {
    len <= u32::MAX && len + 22 <= isize::MAX
}

/// Whether the outcome is the surface command with the given data, or the failure that its length
/// makes it.
pub open spec fn is_surface(
    r: Result<UpdateFragmenter, UpdateError>,
    bitmap: BitmapUpdate,
    codec_id: u8,
    data: Seq<u8>,
) -> bool {
    match r {
        Ok(update) => {
            &&& surface_fits(data.len() as int)
            &&& update.is(UpdateCode::SurfaceCommands, bitmap.surface_record(codec_id).bytes(data))
        },
        Err(e) => e == UpdateError::Surface && !surface_fits(data.len() as int),
    }
}

/// The command that shows encoded pixels where the bitmap lies.
pub fn set_surface(bitmap: &BitmapUpdate, codec_id: u8, data: &[u8]) -> (r: Result<
    UpdateFragmenter,
    UpdateError,
>)
    requires
        bitmap.on_desktop(),
    ensures
        is_surface(r, *bitmap, codec_id, data@),
{
    let len: usize = data.len();
    if len > isize::MAX as usize - 22 {
        return Err(UpdateError::Surface);
    }
    let record = SurfaceRecord {
        left: bitmap.x,
        top: bitmap.y,
        right: bitmap.x + bitmap.width,
        bottom: bitmap.y + bitmap.height,
        bpp: bitmap.format.bytes_per_pixel() * 8,
        codec_id,
        width: bitmap.width,
        height: bitmap.height,
    };
    match encode_surface_bits(record, data) {
        Some(bytes) => Ok(UpdateFragmenter::new(UpdateCode::SurfaceCommands, bytes)),
        None => Err(UpdateError::Surface),
    }
}

/// Sends bitmaps as updates of several rectangles.
#[derive(Debug, Clone)]
pub struct BitmapHandler {
    bitmap: BitmapEncoder,
}

impl BitmapHandler {
    /// Whether the encoder has its buffer.
    pub closed spec fn wf(self) -> bool {
        self.bitmap.wf()
    }

    /// A handler with an encoder of its own.
    pub fn new() -> (r: BitmapHandler)
        ensures
            r.wf(),
    {
        BitmapHandler { bitmap: BitmapEncoder::new() }
    }

    /// Encodes a bitmap into a buffer that grows until it is large enough.
    pub fn handle(&mut self, bitmap: &BitmapUpdate) -> (r: Result<UpdateFragmenter, UpdateError>)
        requires
            old(self).wf(),
            bitmap.chunkable(),
            bitmap.data@.len() * 2 <= usize::MAX,
            bitmap.width % 4 == 0 ==> 2 <= bitmap.data@.len() && 2 * chunked_limit(*bitmap)
                <= usize::MAX,
        ensures
            final(self).wf(),
            match r {
                Ok(update) => {
                    &&& bitmap.chunked(chunked_limit(*bitmap)) is Ok
                    &&& update.is(UpdateCode::Bitmap, bitmap.chunked(chunked_limit(*bitmap))->Ok_0)
                },
                Err(UpdateError::Bitmap(e)) => bitmap.chunked(chunked_limit(*bitmap)) == Err::<
                    Seq<u8>,
                    BitmapEncodeError,
                >(e),
                Err(_) => false,
            },
            bitmap.chunks_owed() ==> r is Ok,
    {
        let ghost limit = chunked_limit(*bitmap);
        let mut buffer: Vec<u8> = vec![0u8; bitmap.data.len() * 2];
        proof {
            reveal(BitmapUpdate::chunked);
        }
        if bitmap.width % 4 != 0 {
            return Err(
                UpdateError::Bitmap(
                    BitmapEncodeError::Encode(EncodeFailure::InvalidField(BitmapField::Width)),
                ),
            );
        }
        proof {
            crate::bitmap_encoder::lemma_chunk_count(*bitmap);
        }
        loop
            invariant
                self.wf(),
                bitmap.chunkable(),
                bitmap.width % 4 == 0,
                4 <= buffer@.len(),
                limit == chunked_limit(*bitmap),
                4 <= limit,
                2 * limit <= usize::MAX,
            decreases if buffer@.len() < limit { limit - buffer@.len() } else { 0int },
        {
            let size: usize = buffer.len();
            proof {
                let smaller: int = if size <= limit {
                    size as int
                } else {
                    limit
                };
                let larger: int = if size <= limit {
                    limit
                } else {
                    size as int
                };
                lemma_chunked_room(*bitmap, smaller, larger);
                lemma_chunked_room(*bitmap, limit, limit);
            }
            match self.bitmap.encode(bitmap, buffer.as_mut_slice()) {
                Ok(len) => {
                    buffer.truncate(len);
                    assert(buffer@ =~= bitmap.chunked(size as int)->Ok_0);
                    return Ok(UpdateFragmenter::new(UpdateCode::Bitmap, buffer));
                },
                Err(BitmapEncodeError::Encode(EncodeFailure::NotEnoughBytes)) => {
                    buffer.resize(size * 2, 0u8);
                },
                Err(e) => {
                    return Err(UpdateError::Bitmap(e));
                },
            }
        }
    }
}

/// What the RemoteFX encoder replies to an attempt.
#[derive(Debug, Clone, Copy, PartialEq, Eq, Structural)]
pub enum RfxReply {
    /// That many bytes of the buffer are written.
    Written(usize),
    /// The buffer is too small.
    NotEnoughBytes,
    /// The bitmap cannot be encoded.
    Failed,
}

/// What follows an attempt to encode with RemoteFX.
#[derive(Debug, Clone, Copy, PartialEq, Eq, Structural)]
pub enum RfxStep {
    /// Try again with a buffer of that length.
    Retry(usize),
    /// Send that many bytes of the buffer.
    Send(usize),
    /// Give up.
    Fail,
}

/// Sends bitmaps that a RemoteFX encoder has encoded.
#[derive(Debug, Clone, Copy)]
pub struct RemoteFxHandler {
    pub codec_id: u8,
    /// Size that the encoder has not been told yet.
    pub desktop_size: Option<DesktopSize>,
}

impl RemoteFxHandler {
    /// A handler whose encoder is told the size of the desktop first.
    pub fn new(codec_id: u8, desktop_size: DesktopSize) -> (r: RemoteFxHandler)
        ensures
            r.codec_id == codec_id,
            r.desktop_size == Some(desktop_size),
    {
        RemoteFxHandler { codec_id, desktop_size: Some(desktop_size) }
    }

    /// Has the encoder told a new size with the next attempt.
    pub fn set_desktop_size(&mut self, size: DesktopSize)
        ensures
            final(self).codec_id == old(self).codec_id,
            final(self).desktop_size == Some(size),
    {
        self.desktop_size = Some(size);
    }

    /// Length of the buffer for the first attempt.
    pub fn first_buffer(&self, bitmap: &BitmapUpdate) -> (r: usize)
        requires
            bitmap.data@.len() + 1024 <= usize::MAX,
        ensures
            r == bitmap.data@.len() + 1024,
    {
        bitmap.data.len() + 1024
    }

    /// The size that goes with an attempt; each size goes with one only.
    pub fn take_desktop_size(&mut self) -> (r: Option<DesktopSize>)
        ensures
            r == old(self).desktop_size,
            final(self).desktop_size is None,
            final(self).codec_id == old(self).codec_id,
    {
        let size = self.desktop_size;
        self.desktop_size = None;
        size
    }

    /// The command with the bytes of the buffer that are to be sent.
    pub fn send(&self, bitmap: &BitmapUpdate, buffer: &Vec<u8>, len: usize) -> (r: Result<
        UpdateFragmenter,
        UpdateError,
    >)
        requires
            bitmap.on_desktop(),
            len <= buffer@.len(),
        ensures
            is_surface(r, *bitmap, self.codec_id, buffer@.take(len as int)),
    {
        let data = slice_subrange(buffer.as_slice(), 0, len);
        assert(data@ =~= buffer@.take(len as int));
        set_surface(bitmap, self.codec_id, data)
    }

    /// What follows from the reply to an attempt with a buffer of the given length.
    pub fn step(&self, buffer_len: usize, reply: RfxReply) -> (r: RfxStep)
        requires
            buffer_len * 2 <= usize::MAX,
        ensures
            r == match reply {
                RfxReply::Written(n) => RfxStep::Send(n),
                RfxReply::NotEnoughBytes => RfxStep::Retry((buffer_len * 2) as usize),
                RfxReply::Failed => RfxStep::Fail,
            },
    {
        match reply {
            RfxReply::Written(n) => RfxStep::Send(n),
            RfxReply::NotEnoughBytes => RfxStep::Retry(buffer_len * 2),
            RfxReply::Failed => RfxStep::Fail,
        }
    }
}

impl BitmapUpdate {
    /// Whether the bitmap fits the Quite OK Image format.
    pub open spec fn qoi_fits(self) -> bool {
        qoi_fits(self.width as int, self.height as int, self.stride as int, self.data@.len() as int)
    }

    /// The bitmap in the Quite OK Image format.
    pub open spec fn qoi(self) -> Seq<u8> {
        qoi_image(
            self.width as nat,
            self.height as nat,
            self.stride as nat,
            self.data@,
            self.format.red(),
            self.format.green(),
            self.format.blue(),
        )
    }

    /// Whether the data reaches to the end of the last row, where rows do not overlap.
    pub open spec fn qoi_readable(self) -> bool {
        &&& self.nonzero()
        &&& self.stride >= self.width * 4 ==> self.complete()
    }
}

/// Encodes a bitmap in the Quite OK Image format.
pub fn qoi_encode(bitmap: &BitmapUpdate) -> (r: Result<Vec<u8>, UpdateError>)
    requires
        bitmap.qoi_readable(),
    ensures
        match r {
            Ok(bytes) => {
                &&& bitmap.qoi_fits()
                &&& bytes@ == bitmap.qoi()
                &&& bytes@.len() <= 22 + 4 * (bitmap.width * bitmap.height)
            },
            Err(e) => !bitmap.qoi_fits() && e == UpdateError::Qoi,
        },
{
    // The alpha byte is left aside: clients do not decode it.
    let channels = channel_order(bitmap.format);
    match encode_qoi(
        bitmap.data.as_slice(),
        bitmap.width as u32,
        bitmap.height as u32,
        bitmap.stride,
        channels,
    ) {
        Some(bytes) => Ok(bytes),
        None => Err(UpdateError::Qoi),
    }
}

/// Sends bitmaps in the Quite OK Image format.
#[derive(Debug, Clone, Copy)]
pub struct QoiHandler {
    pub codec_id: u8,
}

impl QoiHandler {
    /// A handler for the negotiated codec.
    pub fn new(codec_id: u8) -> (r: QoiHandler)
        ensures
            r.codec_id == codec_id,
    {
        QoiHandler { codec_id }
    }

    /// Encodes a bitmap as a surface command.
    pub fn handle(&mut self, bitmap: &BitmapUpdate) -> (r: Result<UpdateFragmenter, UpdateError>)
        requires
            bitmap.qoi_readable(),
            bitmap.on_desktop(),
        ensures
            *final(self) == *old(self),
            bitmap.qoi_fits() ==> r is Ok && is_surface(r, *bitmap, old(self).codec_id, bitmap.qoi()),
            !bitmap.qoi_fits() ==> r matches Err(UpdateError::Qoi),
    {
        match qoi_encode(bitmap) {
            Ok(data) => {
                assert(4 * (bitmap.width * bitmap.height) + 44 <= i32::MAX);
                set_surface(bitmap, self.codec_id, data.as_slice())
            },
            Err(e) => Err(e),
        }
    }
}

/// Sends bitmaps in the Quite OK Image format, compressed as one stream.
pub struct QoizHandler {
    pub codec_id: u8,
    pub stream: ZstdStream,
}

/// How hard the stream is compressed.
pub const ZSTD_LEVEL: i32 = 3;

/// What follows a call of the compressor.
#[derive(Debug, Clone, Copy, PartialEq, Eq, Structural)]
pub enum FlushStep {
    /// Call again with a buffer of that length.
    Grow(usize),
    /// Send that many bytes of the buffer.
    Send(usize),
    /// Give up.
    Fail,
}

/// What follows from the compressor's reply to a call with a buffer of the given length: all that it
/// has written goes out once nothing is left to flush, and until then the buffer grows by the bound
/// that it gives of what is left. There is no reply where it failed.
pub open spec fn flush_next(buffer_len: usize, reply: Option<ZstdProgress>) -> FlushStep {
    match reply {
        Some(progress) => if progress.pending == 0 {
            FlushStep::Send(progress.written)
        } else if buffer_len + progress.pending <= usize::MAX {
            FlushStep::Grow((buffer_len + progress.pending) as usize)
        } else {
            FlushStep::Fail
        },
        None => FlushStep::Fail,
    }
}

/// What follows from the compressor's reply to a call with a buffer of the given length.
pub fn flush_step(buffer_len: usize, reply: Option<ZstdProgress>) -> (r: FlushStep)
    ensures
        r == flush_next(buffer_len, reply),
{
    match reply {
        Some(progress) => if progress.pending == 0 {
            FlushStep::Send(progress.written)
        } else {
            match buffer_len.checked_add(progress.pending) {
                Some(len) => FlushStep::Grow(len),
                None => FlushStep::Fail,
            }
        },
        None => FlushStep::Fail,
    }
}

/// What the compressor of the stream is set to, in that order.
pub fn stream_settings() -> (r: Vec<ZstdParameter>)
    ensures
        r@ == seq![ZstdParameter::Level(3), ZstdParameter::LongDistance(true)],
{
    vec![ZstdParameter::Level(ZSTD_LEVEL), ZstdParameter::LongDistance(true)]
}

/// The command with what the compressor has written to the buffer, as its last reply says.
pub fn flushed_surface(
    bitmap: &BitmapUpdate,
    codec_id: u8,
    buffer: Vec<u8>,
    progress: ZstdProgress,
) -> (r: Result<UpdateFragmenter, UpdateError>)
    requires
        bitmap.on_desktop(),
        progress.written <= buffer@.len(),
    ensures
        is_surface(r, *bitmap, codec_id, buffer@.take(progress.written as int)),
{
    let data = slice_subrange(buffer.as_slice(), 0, progress.written);
    assert(data@ =~= buffer@.take(progress.written as int));
    set_surface(bitmap, codec_id, data)
}

impl QoizHandler {
    /// What the compressor was set to.
    pub open spec fn settings(self) -> Seq<ZstdParameter> {
        self.stream.settings()
    }

    /// What the compressor has taken so far.
    pub open spec fn carried(self) -> Seq<u8> {
        self.stream.carried()
    }

    /// What the compressor has written so far.
    pub open spec fn produced(self) -> Seq<u8> {
        self.stream.produced()
    }

    /// A handler for the negotiated codec, whose compressor has taken all of [`stream_settings`] and
    /// nothing to compress yet, unless it cannot be set up so.
    pub fn new(codec_id: u8) -> (r: Result<QoizHandler, UpdateError>)
        ensures
            match r {
                Ok(handler) => {
                    &&& handler.codec_id == codec_id
                    &&& handler.settings() == seq![
                        ZstdParameter::Level(3),
                        ZstdParameter::LongDistance(true),
                    ]
                    &&& handler.carried() == Seq::<u8>::empty()
                    &&& handler.produced() == Seq::<u8>::empty()
                },
                Err(e) => e == UpdateError::Zstd,
            },
    {
        let mut stream = match ZstdStream::new() {
            Some(stream) => stream,
            None => {
                return Err(UpdateError::Zstd);
            },
        };
        let settings = stream_settings();
        let mut i: usize = 0;
        while i < settings.len()
            invariant
                i <= settings@.len(),
                stream.settings() == settings@.take(i as int),
                stream.carried() == Seq::<u8>::empty(),
                stream.produced() == Seq::<u8>::empty(),
            decreases settings@.len() - i,
        {
            if !zstd_set_parameter(&mut stream, settings[i]) {
                return Err(UpdateError::Zstd);
            }
            assert(settings@.take(i + 1) =~= settings@.take(i as int).push(settings@[i as int]));
            i = i + 1;
        }
        assert(settings@.take(i as int) =~= settings@);
        Ok(QoizHandler { codec_id, stream })
    }

    /// Compresses the input and flushes it, and gives the buffer with the compressor's last reply, after
    /// which all of the input is taken and nothing is left to flush.
    ///
    /// What comes out depends on all that the stream has carried before, and is not stated;
    /// [`flush_step`] says what is done with each reply of the compressor, and [`flushed_surface`] which
    /// bytes of the buffer go out.
    fn compress(&mut self, input: &Vec<u8>) -> (r: Option<(Vec<u8>, ZstdProgress)>)
        ensures
            final(self).codec_id == old(self).codec_id,
            final(self).settings() == old(self).settings(),
            match r {
                Some((buffer, progress)) => {
                    &&& final(self).carried() == old(self).carried() + input@
                    &&& final(self).produced() == old(self).produced() + buffer@.take(
                        progress.written as int,
                    )
                    &&& flush_next(buffer@.len() as usize, Some(progress)) == FlushStep::Send(
                        progress.written,
                    )
                    &&& progress.written <= buffer@.len()
                    &&& progress.taken == input@.len()
                },
                None => true,
            },
    {
        let mut data: Vec<u8> = vec![0u8; input.len()];
        let mut written: usize = 0;
        let mut taken: usize = 0;
        let mut calls: u64 = u64::MAX;
        assert(old(self).carried() + input@.take(0) =~= old(self).carried());
        assert(old(self).produced() + data@.take(0) =~= old(self).produced());
        while calls > 0
            invariant
                written <= data@.len(),
                taken <= input@.len(),
                self.codec_id == old(self).codec_id,
                self.settings() == old(self).settings(),
                self.carried() == old(self).carried() + input@.take(taken as int),
                self.produced() == old(self).produced() + data@.take(written as int),
            decreases calls,
        {
            calls = calls - 1;
            let reply = zstd_flush(
                &mut self.stream,
                data.as_mut_slice(),
                written,
                input.as_slice(),
                taken,
            );
            let progress = match reply {
                Some(progress) => progress,
                None => {
                    return None;
                },
            };
            proof {
                assert(old(self).carried() + input@.take(taken as int) + input@.subrange(
                    taken as int,
                    progress.taken as int,
                ) =~= old(self).carried() + input@.take(progress.taken as int));
                assert(old(self).produced() + data@.take(written as int) + data@.subrange(
                    written as int,
                    progress.written as int,
                ) =~= old(self).produced() + data@.take(progress.written as int));
                assert(input@.take(input@.len() as int) =~= input@);
            }
            written = progress.written;
            taken = progress.taken;
            match flush_step(data.len(), reply) {
                FlushStep::Grow(len) => {
                    let ghost before = data@;
                    data.resize(len, 0u8);
                    assert(data@.take(written as int) =~= before.take(written as int));
                },
                FlushStep::Send(_) => {
                    return Some((data, progress));
                },
                FlushStep::Fail => {
                    return None;
                },
            }
        }
        None
    }

    /// Encodes a bitmap as a surface command.
    ///
    /// An image that does not fit the format is refused before the compressor sees it. Otherwise the
    /// compressor takes the whole image and nothing else, and the command carries what it writes then,
    /// unless it fails.
    pub fn handle(&mut self, bitmap: &BitmapUpdate) -> (r: Result<UpdateFragmenter, UpdateError>)
        requires
            bitmap.qoi_readable(),
            bitmap.on_desktop(),
        ensures
            final(self).codec_id == old(self).codec_id,
            final(self).settings() == old(self).settings(),
            !bitmap.qoi_fits() ==> r == Err::<UpdateFragmenter, _>(UpdateError::Qoi) && *final(self)
                == *old(self),
            bitmap.qoi_fits() && r != Err::<UpdateFragmenter, _>(UpdateError::Zstd) ==> {
                &&& final(self).carried() == old(self).carried() + bitmap.qoi()
                &&& old(self).produced().is_prefix_of(final(self).produced())
                &&& is_surface(
                    r,
                    *bitmap,
                    old(self).codec_id,
                    final(self).produced().skip(old(self).produced().len() as int),
                )
            },
    {
        let qoi = match qoi_encode(bitmap) {
            Ok(qoi) => qoi,
            Err(e) => {
                return Err(e);
            },
        };
        match self.compress(&qoi) {
            Some((buffer, progress)) => {
                assert(self.produced().skip(old(self).produced().len() as int) =~= buffer@.take(
                    progress.written as int,
                ));
                flushed_surface(bitmap, self.codec_id, buffer, progress)
            },
            None => Err(UpdateError::Zstd),
        }
    }
}

/// Sends bitmaps encoded with NSCodec.
#[derive(Debug, Clone, Copy)]
pub struct NsCodecHandler {
    pub codec_id: u8,
    pub color_loss_level: u8,
}

impl BitmapUpdate {
    /// The bitmap encoded with NSCodec.
    pub open spec fn nscodec(self, color_loss_level: u8) -> Seq<u8> {
        nscodec_frame(
            self.width as nat,
            self.height as nat,
            self.stride as nat,
            self.data@,
            self.format.red(),
            self.format.green(),
            self.format.blue(),
            color_loss_level,
        )
    }
}

impl NsCodecHandler {
    /// A handler for the negotiated codec.
    pub fn new(codec_id: u8, color_loss_level: u8) -> (r: NsCodecHandler)
        ensures
            r.codec_id == codec_id,
            r.color_loss_level == color_loss_level,
    {
        NsCodecHandler { codec_id, color_loss_level }
    }

    /// Encodes a bitmap as a surface command.
    pub fn handle(&mut self, bitmap: &BitmapUpdate) -> (r: Result<UpdateFragmenter, UpdateError>)
        requires
            bitmap.complete(),
            bitmap.on_desktop(),
            1 <= old(self).color_loss_level <= 7,
        ensures
            *final(self) == *old(self),
            is_surface(r, *bitmap, old(self).codec_id, bitmap.nscodec(old(self).color_loss_level)),
    {
        let data = encode_nscodec(
            bitmap.data.as_slice(),
            bitmap.width,
            bitmap.height,
            bitmap.stride,
            bitmap.format,
            self.color_loss_level,
        );
        set_surface(bitmap, self.codec_id, data.as_slice())
    }
}

/// A surface command carries the data to where the bitmap lies: from its first column and row up to those
/// behind its last, with its size, 32 bits per pixel and the codec of the data.
pub proof fn lemma_surface_place(
    update: UpdateFragmenter,
    bitmap: BitmapUpdate,
    codec_id: u8,
    data: Seq<u8>,
)
    requires
        bitmap.on_desktop(),
        is_surface(Ok(update), bitmap, codec_id, data),
    ensures
        update.code.number() == 4,
        word(update.data@, 2) == bitmap.x,
        word(update.data@, 4) == bitmap.y,
        word(update.data@, 6) == bitmap.x + bitmap.width,
        word(update.data@, 8) == bitmap.y + bitmap.height,
        update.data@[10] == 32,
        update.data@[13] == codec_id,
        word(update.data@, 14) == bitmap.width,
        word(update.data@, 16) == bitmap.height,
        double_word(update.data@, 18) == data.len(),
        update.data@.skip(22) == data,
{
    lemma_surface_fields(bitmap.surface_record(codec_id), data);
}

} // verus!
