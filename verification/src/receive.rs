//! The protocol units that the test client reads.
//!
//! `ironrdp-pdu` takes them apart, and `ironrdp-graphics` turns the streams of rectangles into colours.

use ironrdp_core::{decode, decode_cursor, ReadCursor};
use ironrdp_graphics::rdp6::BitmapStreamDecoder;
use ironrdp_pdu::bitmap::BitmapUpdateData;
use ironrdp_pdu::fast_path::{FastPathHeader, FastPathUpdatePdu};
use ironrdp_pdu::surface_commands::SurfaceCommand;
use vstd::prelude::*;

use crate::bitmap_encoder::COMPRESSED_WITHOUT_HEADER;
use crate::fast_path::{
    fragment, fragment_bytes, fragment_count, packet, packet_header, update_bytes, Fragmentation,
    UpdateCode, MAX_FRAGMENT,
};
use crate::graphics::rdp6_stream;
use crate::pdu::{bitmap_header_bytes, BitmapRecord};

verus! {

/// Where the update in a fast-path packet starts: behind a byte of flags and the length of the packet, in
/// one byte or two, which must be that of this header at least.
pub open spec fn packet_start(packet: Seq<u8>) -> Option<int> {
    if packet.len() < 2 {
        None
    } else if packet[1] < 128 {
        if packet[1] >= 2 {
            Some(2)
        } else {
            None
        }
    } else if packet.len() >= 3 && (packet[1] - 128) * 256 + packet[2] >= 3 {
        Some(3)
    } else {
        None
    }
}

/// Reads the header of a fast-path packet, and says where it ends.
///
/// Calls `decode_cursor` of `ironrdp-core` for a `FastPathHeader` of `ironrdp-pdu`, and asks the cursor for
/// its place.
#[verifier::external_body]
pub(crate) fn decode_packet_header(packet: &[u8]) -> (r: Option<usize>)
    ensures
        match r {
            Some(n) => packet_start(packet@) == Some(n as int),
            None => packet_start(packet@) is None,
        },
{
    let mut cursor = ReadCursor::new(packet);
    decode_cursor::<FastPathHeader>(&mut cursor).ok()?;
    Some(cursor.pos())
}

/// The part of an update in a packet: the number of its kind, that of which part it is, and its bytes.
///
/// A part that is compressed has one more byte, with the kind of the compression.
pub open spec fn received_update(update: Seq<u8>) -> Option<(u8, u8, Seq<u8>)> {
    let compressed = update[0] >= 128;
    let at = if compressed {
        2int
    } else {
        1
    };
    let len = update[at] + update[at + 1] * 256;
    let code = update[0] % 16;
    if update.len() < 1 || update.len() < at + 2 || update.len() < at + 2 + len {
        None
    } else if code == 7 || code > 12 || compressed && update[1] % 16 > 3 {
        None
    } else {
        Some(
            (
                code as u8,
                (update[0] / 16 % 4) as u8,
                update.subrange(at + 2, at + 2 + len),
            ),
        )
    }
}

/// Reads the part of an update in a packet.
///
/// Calls `decode` of `ironrdp-core` for a `FastPathUpdatePdu` of `ironrdp-pdu`. Bytes behind the part are
/// passed over.
#[verifier::external_body]
pub(crate) fn decode_update(update: &[u8]) -> (r: Option<(u8, u8, Vec<u8>)>)
    ensures
        match r {
            Some((code, part, data)) => received_update(update@) == Some((code, part, data@)),
            None => received_update(update@) is None,
        },
{
    let pdu = decode::<FastPathUpdatePdu<'_>>(update).ok()?;
    Some((pdu.update_code.as_u8(), pdu.fragmentation.as_u8(), pdu.data.to_vec()))
}

/// A rectangle of pixels, encoded.
#[derive(Debug, Clone)]
pub struct CodedRectangle {
    pub width: u16,
    pub height: u16,
    pub data: Vec<u8>,
}

/// A rectangle of pixels, over what it holds.
pub struct CodedModel {
    pub width: u16,
    pub height: u16,
    pub data: Seq<u8>,
}

impl View for CodedRectangle {
    type V = CodedModel;

    open spec fn view(&self) -> CodedModel {
        CodedModel { width: self.width, height: self.height, data: self.data@ }
    }
}

/// An encoded rectangle with its place on the desktop. The pixels in the columns `left` and `right` and in
/// the rows `top` and `bottom` belong to it.
#[derive(Debug, Clone)]
pub struct PlacedRectangle {
    pub left: u16,
    pub top: u16,
    pub right: u16,
    pub bottom: u16,
    pub coded: CodedRectangle,
}

/// An encoded rectangle with its place, over what it holds.
pub struct PlacedModel {
    pub left: u16,
    pub top: u16,
    pub right: u16,
    pub bottom: u16,
    pub coded: CodedModel,
}

impl View for PlacedRectangle {
    type V = PlacedModel;

    open spec fn view(&self) -> PlacedModel {
        PlacedModel {
            left: self.left,
            top: self.top,
            right: self.right,
            bottom: self.bottom,
            coded: self.coded@,
        }
    }
}

/// Rectangles with their places, over what they hold.
pub open spec fn placed_models(rectangles: Seq<PlacedRectangle>) -> Seq<PlacedModel> {
    Seq::new(rectangles.len(), |i: int| rectangles[i]@)
}

/// Rectangles without their places.
pub open spec fn coded_of(rectangles: Seq<PlacedModel>) -> Seq<CodedModel> {
    Seq::new(rectangles.len(), |i: int| rectangles[i].coded)
}

/// Rectangles over what they hold.
pub open spec fn models(rectangles: Seq<CodedRectangle>) -> Seq<CodedModel> {
    Seq::new(rectangles.len(), |i: int| rectangles[i]@)
}

/// The rectangles of a bitmap update with their places, or nothing where it is none.
pub uninterp spec fn coded_rectangles(update: Seq<u8>) -> Option<Seq<PlacedModel>>;

/// Rectangles on the wire, one after the other.
pub open spec fn records(parts: Seq<(BitmapRecord, Seq<u8>)>) -> Seq<u8>
    decreases parts.len(),
{
    if parts.len() == 0 {
        Seq::empty()
    } else {
        records(parts.drop_last()) + parts.last().0.bytes(parts.last().1)
    }
}

/// Whether a bitmap update is made of these rectangles, whose pixels have no header of their own.
pub open spec fn holds_records(update: Seq<u8>, parts: Seq<(BitmapRecord, Seq<u8>)>) -> bool {
    &&& parts.len() <= u16::MAX
    &&& update == bitmap_header_bytes(parts.len() as int) + records(parts)
    &&& forall|i: int|
        0 <= i < parts.len() ==> (#[trigger] parts[i]).0.flags == COMPRESSED_WITHOUT_HEADER
            && parts[i].1.len() <= u16::MAX
}

/// What a client reads of such a rectangle.
pub open spec fn record_model(part: (BitmapRecord, Seq<u8>)) -> PlacedModel {
    PlacedModel {
        left: part.0.left,
        top: part.0.top,
        right: part.0.right,
        bottom: part.0.bottom,
        coded: CodedModel { width: part.0.width, height: part.0.height, data: part.1 },
    }
}

/// Reads a bitmap update.
///
/// Calls `decode` of `ironrdp-core` for a `BitmapUpdateData` of `ironrdp-pdu`. It reads back the
/// rectangles that an update was made of, each with its place.
#[verifier::external_body]
pub(crate) fn decode_rectangles(update: &[u8]) -> (r: Option<Vec<PlacedRectangle>>)
    ensures
        match r {
            Some(rectangles) => coded_rectangles(update@) == Some(placed_models(rectangles@)),
            None => coded_rectangles(update@) is None,
        },
        forall|parts: Seq<(BitmapRecord, Seq<u8>)>| #[trigger]
            holds_records(update@, parts) ==> r is Some && placed_models(r->0@) == Seq::new(
                parts.len(),
                |i: int| record_model(parts[i]),
            ),
{
    let pdu = decode::<BitmapUpdateData<'_>>(update).ok()?;
    let rectangles = pdu.rectangles.iter().map(|data| PlacedRectangle {
        left: data.rectangle.left,
        top: data.rectangle.top,
        right: data.rectangle.right,
        bottom: data.rectangle.bottom,
        coded: CodedRectangle { width: data.width, height: data.height, data: data.bitmap_data.to_vec() },
    });
    Some(rectangles.collect())
}

/// The first of the surface commands and its length, or nothing where there is none. Only a command that
/// sets a part of the surface has a rectangle.
pub uninterp spec fn surface_command(commands: Seq<u8>) -> Option<(Option<CodedModel>, int)>;

/// A rectangle over what it holds, where there is one.
pub open spec fn model_of(rectangle: Option<CodedRectangle>) -> Option<CodedModel> {
    match rectangle {
        Some(rectangle) => Some(rectangle@),
        None => None,
    }
}

/// Reads the first of the surface commands.
///
/// Calls `decode_cursor` of `ironrdp-core` for a `SurfaceCommand` of `ironrdp-pdu`, which takes two bytes
/// for the type before anything else, and asks the cursor for its place.
#[verifier::external_body]
pub(crate) fn decode_surface_command(commands: &[u8]) -> (r: Option<(Option<CodedRectangle>, usize)>)
    ensures
        match r {
            Some((rectangle, n)) => {
                &&& surface_command(commands@) == Some((model_of(rectangle), n as int))
                &&& 2 <= n <= commands@.len()
            },
            None => surface_command(commands@) is None,
        },
{
    let mut cursor = ReadCursor::new(commands);
    let rectangle = match decode_cursor::<SurfaceCommand<'_>>(&mut cursor).ok()? {
        SurfaceCommand::SetSurfaceBits(bits) => Some(CodedRectangle {
            width: bits.extended_bitmap_data.width,
            height: bits.extended_bitmap_data.height,
            data: bits.extended_bitmap_data.data.to_vec(),
        }),
        _ => None,
    };
    Some((rectangle, cursor.pos()))
}

/// The colours of a stream of pixels, three bytes each, or nothing where it is none.
pub uninterp spec fn rgb24(stream: Seq<u8>, width: u16, height: u16) -> Option<Seq<u8>>;

/// Pixels of three bytes, from the planes of their colours.
pub open spec fn interleaved(red: Seq<u8>, green: Seq<u8>, blue: Seq<u8>, pixels: nat) -> Seq<u8> {
    Seq::new(
        3 * pixels,
        |i: int|
            if i % 3 == 0 {
                red[i / 3]
            } else if i % 3 == 1 {
                green[i / 3]
            } else {
                blue[i / 3]
            },
    )
}

/// Whether a stream is that of a rectangle with these planes, all of whose pixels are there.
pub open spec fn streams(
    stream: Seq<u8>,
    width: u16,
    height: u16,
    red: Seq<u8>,
    green: Seq<u8>,
    blue: Seq<u8>,
) -> bool {
    &&& width > 0
    &&& height > 0
    &&& width * height * 4 <= usize::MAX
    &&& red.len() >= width * height
    &&& green.len() >= width * height
    &&& blue.len() >= width * height
    &&& rdp6_stream(width as nat, height as nat, red, green, blue) == Some(stream)
}

/// Turns a stream into the colours of a rectangle.
///
/// Calls `decode_bitmap_stream_to_rgb24` of a fresh `BitmapStreamDecoder` of `ironrdp-graphics`. Where it
/// succeeds it gives three bytes for each pixel. Of a stream that the encoder of that crate made of
/// planes with run length encoding, it gives back the planes.
#[verifier::external_body]
pub(crate) fn decode_stream(stream: &[u8], width: u16, height: u16) -> (r: Option<Vec<u8>>)
    ensures
        match r {
            Some(colors) => {
                &&& rgb24(stream@, width, height) == Some(colors@)
                &&& colors@.len() == 3 * width * height
            },
            None => rgb24(stream@, width, height) is None,
        },
        forall|red: Seq<u8>, green: Seq<u8>, blue: Seq<u8>| #[trigger]
            streams(stream@, width, height, red, green, blue) ==> r is Some && r->0@ == interleaved(
                red,
                green,
                blue,
                (width * height) as nat,
            ),
{
    let mut colors = Vec::new();
    let mut decoder = BitmapStreamDecoder::default();
    decoder.decode_bitmap_stream_to_rgb24(stream, &mut colors, width.into(), height.into()).ok()?;
    Some(colors)
}

proof fn lemma_packet_header_read(len: int, rest: Seq<u8>)
    requires
        3 <= len <= MAX_FRAGMENT + 3,
        rest.len() == len,
    ensures
        packet_start(packet_header(len) + rest) == Some(packet_header(len).len() as int),
        (packet_header(len) + rest).skip(packet_header(len).len() as int) == rest,
{
    let whole = packet_header(len) + rest;
    if len + 2 >= 128 {
        assert(whole[1] == (0x8000 + len + 3) / 256 % 256);
        assert(whole[2] == (0x8000 + len + 3) % 256);
    }
    assert(whole.skip(packet_header(len).len() as int) =~= rest);
}

proof fn lemma_update_read(code: UpdateCode, fragmentation: Fragmentation, data: Seq<u8>)
    requires
        data.len() <= MAX_FRAGMENT,
    ensures
        received_update(update_bytes(code, fragmentation, data)) == Some(
            (code.number(), fragmentation.number(), data),
        ),
{
    let update = update_bytes(code, fragmentation, data);
    assert(update[0] == code.number() + 16 * fragmentation.number());
    assert(update[1] == data.len() % 256);
    assert(update[2] == data.len() / 256);
    assert(update.subrange(3, 3 + data.len() as int) =~= data);
}

/// A client reads from each packet of an update what the server put there: its kind, which part it is, and
/// the bytes of that part.
pub proof fn lemma_packets_read(code: UpdateCode, data: Seq<u8>, i: int)
    requires
        data.len() <= usize::MAX,
        0 <= i < fragment_count(data.len() as int),
    ensures
        ({
            let part = fragment(data.len() as int, i);
            let bytes = fragment_bytes(data, part);
            let sent = packet(code, part.fragmentation, bytes);
            &&& packet_start(sent) is Some
            &&& received_update(sent.skip(packet_start(sent)->0)) == Some(
                (code.number(), part.fragmentation.number(), bytes),
            )
        }),
{
    let part = fragment(data.len() as int, i);
    let bytes = fragment_bytes(data, part);
    lemma_update_read(code, part.fragmentation, bytes);
    lemma_packet_header_read(bytes.len() as int + 3, update_bytes(code, part.fragmentation, bytes));
}

} // verus!
