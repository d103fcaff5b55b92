//! Image comparison and pixel codecs.
//!
//! `ironrdp-graphics` compares images and compresses the planes of a bitmap; the specification
//! functions say what the rest of the crate builds on.

use ironrdp_graphics::diff::find_different_rects_sub;
use ironrdp_graphics::rdp6::{
    ABgrChannels, ARgbChannels, BgrAChannels, BitmapStreamEncoder, RgbAChannels,
};
use vstd::prelude::*;
use zstd_safe::zstd_sys::ZSTD_EndDirective;
use zstd_safe::{CCtx, CParameter, InBuffer, OutBuffer};

use crate::frame::{cell, covered, holds_image, PixelFormat, Rect};
use crate::pdu::written_over;

verus! {

/// Side of the squares in which images are compared.
pub const DIFF_SQUARE: usize = 64;

/// How much of `len` columns or rows lies inside `limit` ones when it starts at `at`.
pub open spec fn overlap(limit: int, at: int, len: int) -> int {
    if at >= limit {
        0
    } else if limit - at < len {
        limit - at
    } else {
        len
    }
}

/// Whether a pixel of the second image differs from the one it lies over, the second image lying at
/// column `x` and row `y` of the first.
pub open spec fn pixel_differs(
    image1: Seq<u8>,
    stride1: int,
    image2: Seq<u8>,
    stride2: int,
    x: int,
    y: int,
    px: int,
    py: int,
) -> bool {
    exists|k: int|
        0 <= k < 4 && #[trigger] cell(image2, stride2, py, px * 4 + k) != cell(
            image1,
            stride1,
            y + py,
            (x + px) * 4 + k,
        )
}

/// Whether some pixel differs in the square of the second image that holds the pixel, among the
/// first `width` columns and `height` rows.
pub open spec fn square_differs(
    image1: Seq<u8>,
    stride1: int,
    image2: Seq<u8>,
    stride2: int,
    x: int,
    y: int,
    width: int,
    height: int,
    px: int,
    py: int,
) -> bool {
    exists|qx: int, qy: int|
        {
            &&& 0 <= qx < width
            &&& 0 <= qy < height
            &&& qx / 64 == px / 64
            &&& qy / 64 == py / 64
            &&& #[trigger] pixel_differs(image1, stride1, image2, stride2, x, y, qx, qy)
        }
}

/// Finds where the second image differs from the first, over which it lies at column `x` and row
/// `y`.
///
/// Calls `find_different_rects_sub` of `ironrdp-graphics` for pixels of four bytes. Its rectangles
/// are in the coordinates of the second image and stay inside the part that the images share.
/// Together they cover exactly the squares of [`DIFF_SQUARE`] pixels, cut to that part, in which
/// some byte differs. How the squares are put together to rectangles is not stated.
#[verifier::external_body]
pub(crate) fn find_different_rects(
    image1: &[u8],
    stride1: usize,
    width1: usize,
    height1: usize,
    image2: &[u8],
    stride2: usize,
    width2: usize,
    height2: usize,
    x: usize,
    y: usize,
) -> (r: Vec<Rect>)
    requires
        holds_image(image1@, stride1 as int, width1 as int, height1 as int),
        holds_image(image2@, stride2 as int, width2 as int, height2 as int),
        x + width2 <= usize::MAX,
        y + height2 <= usize::MAX,
    ensures
        forall|i: int|
            0 <= i < r@.len() ==> (#[trigger] r@[i]).within(
                overlap(width1 as int, x as int, width2 as int),
                overlap(height1 as int, y as int, height2 as int),
            ) && r@[i].width > 0 && r@[i].height > 0,
        forall|px: int, py: int| #[trigger]
            covered(r@, px, py) <==> {
                &&& 0 <= px < overlap(width1 as int, x as int, width2 as int)
                &&& 0 <= py < overlap(height1 as int, y as int, height2 as int)
                &&& square_differs(
                    image1@,
                    stride1 as int,
                    image2@,
                    stride2 as int,
                    x as int,
                    y as int,
                    overlap(width1 as int, x as int, width2 as int),
                    overlap(height1 as int, y as int, height2 as int),
                    px,
                    py,
                )
            },
{
    let rects = find_different_rects_sub::<4>(
        image1, stride1, width1, height1, image2, stride2, width2, height2, x, y,
    );
    rects.into_iter().map(|r| Rect { x: r.x, y: r.y, width: r.width, height: r.height }).collect()
}

/// The bytes at one offset of every pixel of four bytes.
pub open spec fn plane(pixels: Seq<u8>, offset: int) -> Seq<u8> {
    Seq::new((pixels.len() / 4) as nat, |i: int| pixels[i * 4 + offset])
}

/// The RDP 6.0 stream of a bitmap: its red, green and blue planes, compressed. There is none where
/// the planes do not reach its last row.
pub uninterp spec fn rdp6_stream(
    width: nat,
    height: nat,
    red: Seq<u8>,
    green: Seq<u8>,
    blue: Seq<u8>,
) -> Option<Seq<u8>>;

/// The stream of pixels whose red, green and blue bytes stand at the given offsets.
pub open spec fn pixel_stream(
    width: nat,
    height: nat,
    pixels: Seq<u8>,
    red: int,
    green: int,
    blue: int,
) -> Option<Seq<u8>> {
    rdp6_stream(width, height, plane(pixels, red), plane(pixels, green), plane(pixels, blue))
}

/// The most bytes that a stream can take: a byte for itself and, for each of the three planes, rows
/// that grow by a byte for every fifteen at worst.
pub open spec fn stream_limit(width: int, height: int) -> int {
    1 + 3 * (height * (width + width / 15 + 1))
}

/// What writing a stream to the front of a buffer gives: its length if there is one and it fits.
pub open spec fn stream_written(
    r: Option<usize>,
    stream: Option<Seq<u8>>,
    after: Seq<u8>,
    before: Seq<u8>,
) -> bool {
    &&& after.len() == before.len()
    &&& match r {
        Some(n) => stream is Some && n == stream->0.len() && written_over(after, before, stream->0),
        None => stream is None || stream->0.len() > before.len(),
    }
}

/// Whether a stream is certain to come out and to fit: every pixel is there and so is the room.
pub open spec fn stream_owed(width: int, height: int, pixels: int, room: int) -> bool {
    pixels >= width * height && room >= stream_limit(width, height)
}

/// Orders of the three colours in a pixel, whose fourth byte is left aside.
#[derive(Debug, Clone, Copy, PartialEq, Eq, Structural)]
pub enum ChannelOrder {
    Xrgb,
    Xbgr,
    Bgrx,
    Rgbx,
}

impl ChannelOrder {
    /// Where in a pixel its red byte stands.
    pub open spec fn red(self) -> int {
        match self {
            ChannelOrder::Xrgb => 1,
            ChannelOrder::Xbgr => 3,
            ChannelOrder::Bgrx => 2,
            ChannelOrder::Rgbx => 0,
        }
    }

    /// Where in a pixel its green byte stands.
    pub open spec fn green(self) -> int {
        match self {
            ChannelOrder::Xrgb => 2,
            ChannelOrder::Xbgr => 2,
            ChannelOrder::Bgrx => 1,
            ChannelOrder::Rgbx => 1,
        }
    }

    /// Where in a pixel its blue byte stands.
    pub open spec fn blue(self) -> int {
        match self {
            ChannelOrder::Xrgb => 3,
            ChannelOrder::Xbgr => 1,
            ChannelOrder::Bgrx => 0,
            ChannelOrder::Rgbx => 2,
        }
    }
}

/// The order of the colours in a format.
pub fn channel_order(format: PixelFormat) -> (r: ChannelOrder)
    ensures
        r.red() == format.red(),
        r.green() == format.green(),
        r.blue() == format.blue(),
{
    match format {
        PixelFormat::ARgb32 | PixelFormat::XRgb32 => ChannelOrder::Xrgb,
        PixelFormat::ABgr32 | PixelFormat::XBgr32 => ChannelOrder::Xbgr,
        PixelFormat::BgrA32 | PixelFormat::BgrX32 => ChannelOrder::Bgrx,
        PixelFormat::RgbA32 | PixelFormat::RgbX32 => ChannelOrder::Rgbx,
    }
}

/// Compresses pixels to the front of `dst`.
///
/// Calls `BitmapStreamEncoder::encode_pixels_stream` of `ironrdp-graphics` with run length encoding
/// and the channels of the order. The bytes that come out are a function of the size and the three
/// planes; the call fails where a row has no pixel at all or the room is short. A segment of a row
/// says in one byte how many of up to fifteen bytes follow, which bounds the length.
#[verifier::external_body]
pub(crate) fn encode_planes(
    order: ChannelOrder,
    width: usize,
    height: usize,
    pixels: &[u8],
    dst: &mut [u8],
) -> (r: Option<usize>)
    requires
        width > 0,
        pixels@.len() % 4 == 0,
        old(dst)@.len() > 0,
    ensures
        stream_written(
            r,
            rdp6_stream(
                width as nat,
                height as nat,
                plane(pixels@, order.red()),
                plane(pixels@, order.green()),
                plane(pixels@, order.blue()),
            ),
            final(dst)@,
            old(dst)@,
        ),
        r is Some ==> r->0 <= stream_limit(width as int, height as int),
        stream_owed(width as int, height as int, (pixels@.len() / 4) as int, old(dst)@.len() as int) ==> r is Some,
{
    let mut encoder = BitmapStreamEncoder::new(width, height);
    let pixels = pixels.chunks(4);
    match order {
        ChannelOrder::Xrgb => encoder.encode_pixels_stream::<_, ARgbChannels>(pixels, dst, true).ok(),
        ChannelOrder::Xbgr => encoder.encode_pixels_stream::<_, ABgrChannels>(pixels, dst, true).ok(),
        ChannelOrder::Bgrx => encoder.encode_pixels_stream::<_, BgrAChannels>(pixels, dst, true).ok(),
        ChannelOrder::Rgbx => encoder.encode_pixels_stream::<_, RgbAChannels>(pixels, dst, true).ok(),
    }
}

/// Most pixels of an image in the Quite OK Image format.
pub const QOI_PIXELS: u64 = 400_000_000;

/// The image of three channels in the Quite OK Image format whose red, green and blue bytes stand at
/// the given offsets of each pixel.
pub uninterp spec fn qoi_image(
    width: nat,
    height: nat,
    stride: nat,
    data: Seq<u8>,
    red: int,
    green: int,
    blue: int,
) -> Seq<u8>;

/// Whether an image can be put into the Quite OK Image format: its last row ends with its data, and
/// it has no more pixels than the format allows.
pub open spec fn qoi_fits(width: int, height: int, stride: int, len: int) -> bool {
    &&& stride >= width * 4
    &&& len == (height - 1) * stride + width * 4
    &&& width * height <= QOI_PIXELS
}

/// Encodes an image in the Quite OK Image format.
///
/// Calls `EncoderBuilder::build` and `Encoder::encode_to_vec` of the `qoi` crate. The bytes are a
/// function of the image; the call succeeds exactly where [`qoi_fits`] says, and the length is at
/// most what its `encode_max_len` documents. Data that ends before the last row does make it panic.
#[verifier::external_body]
pub(crate) fn encode_qoi(data: &[u8], width: u32, height: u32, stride: usize, channels: ChannelOrder) -> (r:
    Option<Vec<u8>>)
    requires
        0 < width <= u16::MAX,
        0 < height <= u16::MAX,
        stride >= width * 4 ==> data@.len() >= (height - 1) * stride + width * 4,
    ensures
        r is Some <==> qoi_fits(width as int, height as int, stride as int, data@.len() as int),
        r is Some ==> {
            &&& r->0@ == qoi_image(
                width as nat,
                height as nat,
                stride as nat,
                data@,
                channels.red(),
                channels.green(),
                channels.blue(),
            )
            &&& r->0@.len() <= 22 + 4 * (width * height)
        },
{
    let raw_channels = match channels {
        ChannelOrder::Xrgb => qoi::RawChannels::Xrgb,
        ChannelOrder::Xbgr => qoi::RawChannels::Xbgr,
        ChannelOrder::Bgrx => qoi::RawChannels::Bgrx,
        ChannelOrder::Rgbx => qoi::RawChannels::Rgbx,
    };
    let builder = qoi::EncoderBuilder::new(data, width, height).stride(stride);
    builder.raw_channels(raw_channels).build().ok()?.encode_to_vec().ok()
}

/// The NSCodec frame of an image whose red, green and blue bytes stand at the given offsets of each
/// pixel, with the given loss of colour.
pub uninterp spec fn nscodec_frame(
    width: nat,
    height: nat,
    stride: nat,
    data: Seq<u8>,
    red: int,
    green: int,
    blue: int,
    color_loss_level: u8,
) -> Seq<u8>;

/// Encodes an image with NSCodec.
///
/// Calls `ironrdp_nscodec::encoder::encode`, whose bytes are a function of the size, the colours and
/// the loss level; of a pixel's fourth byte it makes nothing. It checks that the level is from one to
/// seven and that the data holds the image.
#[verifier::external_body]
pub(crate) fn encode_nscodec(
    data: &[u8],
    width: u16,
    height: u16,
    stride: usize,
    format: PixelFormat,
    color_loss_level: u8,
) -> (r: Vec<u8>)
    requires
        holds_image(data@, stride as int, width as int, height as int),
        1 <= color_loss_level <= 7,
    ensures
        r@ == nscodec_frame(
            width as nat,
            height as nat,
            stride as nat,
            data@,
            format.red(),
            format.green(),
            format.blue(),
            color_loss_level,
        ),
{
    let format = match format {
        PixelFormat::ARgb32 => ironrdp_graphics::image_processing::PixelFormat::ARgb32,
        PixelFormat::XRgb32 => ironrdp_graphics::image_processing::PixelFormat::XRgb32,
        PixelFormat::ABgr32 => ironrdp_graphics::image_processing::PixelFormat::ABgr32,
        PixelFormat::XBgr32 => ironrdp_graphics::image_processing::PixelFormat::XBgr32,
        PixelFormat::BgrA32 => ironrdp_graphics::image_processing::PixelFormat::BgrA32,
        PixelFormat::BgrX32 => ironrdp_graphics::image_processing::PixelFormat::BgrX32,
        PixelFormat::RgbA32 => ironrdp_graphics::image_processing::PixelFormat::RgbA32,
        PixelFormat::RgbX32 => ironrdp_graphics::image_processing::PixelFormat::RgbX32,
    };
    ironrdp_nscodec::encoder::encode(data, width, height, stride, format, color_loss_level)
}

/// A Zstandard compression context.
#[verifier::external_type_specification]
#[verifier::external_body]
pub struct ExCCtx<'a>(zstd_safe::CCtx<'a>);

/// Creates a compression context.
///
/// Calls `CCtx::try_create` of `zstd-safe`, which gives none where no memory is left; nothing is
/// claimed of the context.
#[verifier::external_body]
fn zstd_context() -> Option<CCtx<'static>> {
    CCtx::try_create()
}

/// What can be set of a compression context.
#[derive(Debug, Clone, Copy, PartialEq, Eq, Structural)]
pub enum ZstdParameter {
    /// How hard it compresses.
    Level(i32),
    /// Whether it looks for matches far back.
    LongDistance(bool),
}

/// A stream that is being compressed: the context, with a record of what it was set to, of what it has
/// taken and of what it has written since it was created. Only the calls of the context add to the record.
pub struct ZstdStream {
    context: CCtx<'static>,
    settings: Ghost<Seq<ZstdParameter>>,
    carried: Ghost<Seq<u8>>,
    produced: Ghost<Seq<u8>>,
}

impl ZstdStream {
    /// What the context was set to, in that order.
    pub closed spec fn settings(self) -> Seq<ZstdParameter> {
        self.settings@
    }

    /// The bytes that the context has taken.
    pub closed spec fn carried(self) -> Seq<u8> {
        self.carried@
    }

    /// The bytes that the context has written.
    pub closed spec fn produced(self) -> Seq<u8> {
        self.produced@
    }

    /// A stream that has carried nothing, unless no memory is left for its context.
    pub(crate) fn new() -> (r: Option<ZstdStream>)
        ensures
            r is Some ==> {
                &&& r->0.settings() == Seq::<ZstdParameter>::empty()
                &&& r->0.carried() == Seq::<u8>::empty()
                &&& r->0.produced() == Seq::<u8>::empty()
            },
    {
        match zstd_context() {
            Some(context) => Some(
                ZstdStream {
                    context,
                    settings: Ghost(Seq::empty()),
                    carried: Ghost(Seq::empty()),
                    produced: Ghost(Seq::empty()),
                },
            ),
            None => None,
        }
    }
}

/// Sets a parameter of a stream's context, and says whether the context took it.
///
/// Calls `CCtx::set_parameter` of `zstd-safe`. A parameter that the context took joins the record of its
/// settings; whether it takes one is not stated.
#[verifier::external_body]
pub(crate) fn zstd_set_parameter(stream: &mut ZstdStream, parameter: ZstdParameter) -> (r: bool)
    ensures
        final(stream).carried() == old(stream).carried(),
        final(stream).produced() == old(stream).produced(),
        final(stream).settings() == if r {
            old(stream).settings().push(parameter)
        } else {
            old(stream).settings()
        },
{
    let parameter = match parameter {
        ZstdParameter::Level(level) => CParameter::CompressionLevel(level),
        ZstdParameter::LongDistance(on) => CParameter::EnableLongDistanceMatching(on),
    };
    stream.context.set_parameter(parameter).is_ok()
}

/// How far a compression has come.
#[derive(Debug, Clone, Copy, PartialEq, Eq, Structural)]
pub struct ZstdProgress {
    /// A lower bound of what still has to be flushed; none where nothing has.
    pub pending: usize,
    /// Bytes of the output that are written.
    pub written: usize,
    /// Bytes of the input that are taken.
    pub taken: usize,
}

/// Compresses `input` from `taken` on to `output` from `written` on, and flushes.
///
/// Calls `CCtx::compress_stream2` of `zstd-safe` with `ZSTD_e_flush`. It moves both positions
/// forward, within the buffers, and writes nothing before the output's. The input between its two
/// positions joins the record of what the stream has carried, and reaches to its end once nothing is left
/// to flush; the output between its two positions joins the record of what the stream has
/// produced. What it writes depends on all that the context has compressed before and is not
/// stated, nor what state a failure leaves the context in.
#[verifier::external_body]
pub(crate) fn zstd_flush(
    stream: &mut ZstdStream,
    output: &mut [u8],
    written: usize,
    input: &[u8],
    taken: usize,
) -> (r: Option<ZstdProgress>)
    requires
        written <= old(output)@.len(),
        taken <= input@.len(),
    ensures
        final(output)@.len() == old(output)@.len(),
        final(output)@.take(written as int) == old(output)@.take(written as int),
        r is Some ==> {
            &&& written <= r->0.written <= old(output)@.len()
            &&& taken <= r->0.taken <= input@.len()
            &&& r->0.pending == 0 ==> r->0.taken == input@.len()
            &&& final(stream).carried() == old(stream).carried() + input@.subrange(
                taken as int,
                r->0.taken as int,
            )
            &&& final(stream).produced() == old(stream).produced() + final(output)@.subrange(
                written as int,
                r->0.written as int,
            )
        },
        final(stream).settings() == old(stream).settings(),
{
    let mut source = InBuffer::around(input);
    source.set_pos(taken);
    let mut sink = OutBuffer::around_pos(output, written);
    let pending = stream.context.compress_stream2(&mut sink, &mut source, ZSTD_EndDirective::ZSTD_e_flush).ok()?;
    Some(ZstdProgress { pending, written: sink.pos(), taken: source.pos() })
}

} // verus!
