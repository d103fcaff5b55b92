//! The protocol units that the server writes itself.
//!
//! `ironrdp-pdu` lays the bytes out; the specification functions say what they are.

use ironrdp_core::{encode_vec, Encode, EncodeErrorKind, WriteCursor};
use ironrdp_pdu::bitmap::{BitmapData, BitmapUpdateData, Compression};
use ironrdp_pdu::geometry::{ExclusiveRectangle, InclusiveRectangle};
use ironrdp_pdu::pointer::{
    CachedPointerAttribute, ColorPointerAttribute, Point16, PointerAttribute,
};
use ironrdp_pdu::mcs::SendDataIndication;
use ironrdp_pdu::rdp::autodetect::{AutoDetectReqPdu, AutoDetectRequest};
use ironrdp_pdu::rdp::headers::{ServerDeactivateAll, ShareControlHeader, ShareControlPdu};
use ironrdp_pdu::rdp::server_error_info::{
    ErrorInfo, ProtocolIndependentCode, ServerSetErrorInfoPdu,
};
use ironrdp_pdu::surface_commands::{ExtendedBitmapDataPdu, SurfaceBitsPdu, SurfaceCommand};
use ironrdp_pdu::x224::X224;
use vstd::prelude::*;

use crate::wire::{be16, double_word, le16, le32, lemma_double_word_back, lemma_word_back, word};

verus! {

/// A field that can be refused.
#[derive(Debug, Clone, Copy, PartialEq, Eq, Structural)]
pub enum BitmapField {
    /// The width of a bitmap, which has to be a multiple of four.
    Width,
    /// The number of rectangles, which has sixteen bits.
    RectangleCount,
    /// The length of the pixels of a rectangle, which has sixteen bits.
    DataLength,
}

impl BitmapField {
    /// What the field is called.
    pub fn name(self) -> (r: &'static str)
        ensures
            r@ == match self {
                BitmapField::Width => "bitmap"@,
                BitmapField::RectangleCount => "chunks length lower bound"@,
                BitmapField::DataLength => "bitmap data length"@,
            },
    {
        match self {
            BitmapField::Width => "bitmap",
            BitmapField::RectangleCount => "chunks length lower bound",
            BitmapField::DataLength => "bitmap data length",
        }
    }

    /// What is wrong with the field where it is refused.
    pub fn reason(self) -> (r: &'static str)
        ensures
            r@ == match self {
                BitmapField::Width => "Width must be a multiple of 4"@,
                BitmapField::RectangleCount => "out of range integral type conversion"@,
                BitmapField::DataLength => "too many elements"@,
            },
    {
        match self {
            BitmapField::Width => "Width must be a multiple of 4",
            BitmapField::RectangleCount => "out of range integral type conversion",
            BitmapField::DataLength => "too many elements",
        }
    }
}

/// Why a protocol unit could not be written.
#[derive(Debug, Clone, Copy, PartialEq, Eq, Structural)]
pub enum EncodeFailure {
    /// The buffer is too small for it.
    NotEnoughBytes,
    /// This field has no place in the format.
    InvalidField(BitmapField),
}

/// Whether `after` is `before` with `bytes` written over its start.
pub open spec fn written_over(after: Seq<u8>, before: Seq<u8>, bytes: Seq<u8>) -> bool {
    &&& after.len() == before.len()
    &&& bytes.len() <= after.len()
    &&& after == bytes + before.skip(bytes.len() as int)
}

/// The start of a bitmap update of `rectangles` rectangles.
pub open spec fn bitmap_header_bytes(rectangles: int) -> Seq<u8> {
    le16(1) + le16(rectangles)
}

/// Writes the start of a bitmap update to the front of `dst`.
///
/// Calls `BitmapUpdateData::encode_header` of `ironrdp-pdu`, which writes the update type and the
/// number of rectangles. It asks for two bytes of room and writes four, so a buffer of two or three
/// bytes is left out.
#[verifier::external_body]
pub(crate) fn write_bitmap_header(rectangles: u16, dst: &mut [u8]) -> (r: Option<usize>)
    requires
        old(dst)@.len() < 2 || old(dst)@.len() >= 4,
    ensures
        final(dst)@.len() == old(dst)@.len(),
        match r {
            Some(n) => {
                &&& n == 4
                &&& old(dst)@.len() >= 4
                &&& written_over(final(dst)@, old(dst)@, bitmap_header_bytes(rectangles as int))
            },
            None => old(dst)@.len() < 2 && final(dst)@ == old(dst)@,
        },
{
    let mut cursor = WriteCursor::new(dst);
    BitmapUpdateData::encode_header(rectangles, &mut cursor).ok()?;
    Some(cursor.pos())
}

/// What a rectangle of a bitmap update says of its pixels. The edges are inclusive.
#[derive(Debug, Clone, Copy, PartialEq, Eq, Structural)]
pub struct BitmapRecord {
    pub left: u16,
    pub top: u16,
    pub right: u16,
    pub bottom: u16,
    pub width: u16,
    pub height: u16,
    pub bits_per_pixel: u16,
    pub flags: u16,
}

/// Bytes of a rectangle before its pixels.
pub const BITMAP_RECORD_SIZE: usize = 18;

impl BitmapRecord {
    /// A rectangle with its pixels.
    pub open spec fn bytes(self, data: Seq<u8>) -> Seq<u8> {
        le16(self.left as int) + le16(self.top as int) + le16(self.right as int) + le16(
            self.bottom as int,
        ) + le16(self.width as int) + le16(self.height as int) + le16(self.bits_per_pixel as int)
            + le16(self.flags as int) + le16(data.len() as int) + data
    }
}

/// Writes a rectangle and its pixels to the front of `dst`.
///
/// Calls `BitmapData::encode` of `ironrdp-pdu` without a header of its own for the pixels. It fails
/// before it writes anything: first where the room is short, then where the pixels take more bytes
/// than their length field can say.
#[verifier::external_body]
pub(crate) fn write_bitmap_data(record: BitmapRecord, data: &[u8], dst: &mut [u8]) -> (r: Result<
    usize,
    EncodeFailure,
>)
    requires
        data@.len() + BITMAP_RECORD_SIZE <= usize::MAX,
    ensures
        final(dst)@.len() == old(dst)@.len(),
        match r {
            Ok(n) => {
                &&& n == BITMAP_RECORD_SIZE + data@.len()
                &&& n <= old(dst)@.len()
                &&& data@.len() <= u16::MAX
                &&& written_over(final(dst)@, old(dst)@, record.bytes(data@))
            },
            Err(EncodeFailure::NotEnoughBytes) => {
                &&& old(dst)@.len() < BITMAP_RECORD_SIZE + data@.len()
                &&& final(dst)@ == old(dst)@
            },
            Err(EncodeFailure::InvalidField(field)) => {
                &&& field == BitmapField::DataLength
                &&& old(dst)@.len() >= BITMAP_RECORD_SIZE + data@.len()
                &&& data@.len() > u16::MAX
                &&& final(dst)@ == old(dst)@
            },
        },
{
    let BitmapRecord { left, top, right, bottom, width, height, bits_per_pixel, flags } = record;
    let rectangle = InclusiveRectangle { left, top, right, bottom };
    let compression_flags = Compression::from_bits_retain(flags);
    let compressed_data_header = None;
    let bitmap_data = data;
    let pdu = BitmapData { rectangle, width, height, bits_per_pixel, compression_flags, compressed_data_header, bitmap_data };
    let mut cursor = WriteCursor::new(dst);
    match pdu.encode(&mut cursor) {
        Ok(()) => Ok(cursor.pos()),
        Err(e) => match e.kind() {
            EncodeErrorKind::NotEnoughBytes { .. } => Err(EncodeFailure::NotEnoughBytes),
            _ => Err(EncodeFailure::InvalidField(BitmapField::DataLength)),
        },
    }
}

/// Encodes a reference to a pointer that the client has cached.
///
/// Calls `encode_vec` of `ironrdp-core` on a `CachedPointerAttribute`, which has no way to fail.
#[verifier::external_body]
pub(crate) fn encode_cached_pointer(cache_index: u16) -> (r: Option<Vec<u8>>)
    ensures
        r is Some,
        r->0@ == le16(cache_index as int),
{
    encode_vec(&CachedPointerAttribute { cache_index }).ok()
}

/// Encodes the position of the pointer.
///
/// Calls `encode_vec` of `ironrdp-core` on a `Point16`, which has no way to fail.
#[verifier::external_body]
pub(crate) fn encode_pointer_position(x: u16, y: u16) -> (r: Option<Vec<u8>>)
    ensures
        r is Some,
        r->0@ == le16(x as int) + le16(y as int),
{
    encode_vec(&Point16 { x, y }).ok()
}

/// The shape of a pointer, without its pixels.
#[derive(Debug, Clone, Copy, PartialEq, Eq, Structural)]
pub struct PointerRecord {
    pub cache_index: u16,
    pub hot_x: u16,
    pub hot_y: u16,
    pub width: u16,
    pub height: u16,
}

/// Whether a pointer of `height` rows may have a mask of `len` bytes: its rows are whole and each
/// takes an even number of bytes.
pub open spec fn mask_fits(height: int, len: int) -> bool {
    &&& height > 0
    &&& len <= u16::MAX
    &&& len % height == 0
    &&& len / height % 2 == 0
}

impl PointerRecord {
    /// A pointer with its masks.
    pub open spec fn bytes(self, xor_mask: Seq<u8>, and_mask: Seq<u8>) -> Seq<u8> {
        le16(self.cache_index as int) + le16(self.hot_x as int) + le16(self.hot_y as int) + le16(
            self.width as int,
        ) + le16(self.height as int) + le16(and_mask.len() as int) + le16(xor_mask.len() as int)
            + xor_mask + and_mask
    }
}

/// Encodes a pointer of 24 bits per pixel.
///
/// Calls `encode_vec` of `ironrdp-core` on a `ColorPointerAttribute`, which fails exactly where one
/// of the masks does not fit the pointer.
#[verifier::external_body]
pub(crate) fn encode_color_pointer(record: PointerRecord, xor_mask: &[u8], and_mask: &[u8]) -> (r:
    Option<Vec<u8>>)
    requires
        xor_mask@.len() + and_mask@.len() + 14 <= isize::MAX,
    ensures
        match r {
            Some(bytes) => {
                &&& mask_fits(record.height as int, and_mask@.len() as int)
                &&& mask_fits(record.height as int, xor_mask@.len() as int)
                &&& bytes@ == record.bytes(xor_mask@, and_mask@)
            },
            None => {
                ||| !mask_fits(record.height as int, and_mask@.len() as int)
                ||| !mask_fits(record.height as int, xor_mask@.len() as int)
            },
        },
{
    let PointerRecord { cache_index, hot_x, hot_y, width, height } = record;
    let hot_spot = Point16 { x: hot_x, y: hot_y };
    encode_vec(&ColorPointerAttribute { cache_index, hot_spot, width, height, xor_mask, and_mask }).ok()
}

/// Encodes a pointer of `xor_bpp` bits per pixel.
///
/// Calls `encode_vec` of `ironrdp-core` on a `PointerAttribute`: the depth, then what
/// [`encode_color_pointer`] gives, with the same failures.
#[verifier::external_body]
pub(crate) fn encode_pointer(
    xor_bpp: u16,
    record: PointerRecord,
    xor_mask: &[u8],
    and_mask: &[u8],
) -> (r: Option<Vec<u8>>)
    requires
        xor_mask@.len() + and_mask@.len() + 16 <= isize::MAX,
    ensures
        match r {
            Some(bytes) => {
                &&& mask_fits(record.height as int, and_mask@.len() as int)
                &&& mask_fits(record.height as int, xor_mask@.len() as int)
                &&& bytes@ == le16(xor_bpp as int) + record.bytes(xor_mask@, and_mask@)
            },
            None => {
                ||| !mask_fits(record.height as int, and_mask@.len() as int)
                ||| !mask_fits(record.height as int, xor_mask@.len() as int)
            },
        },
{
    let PointerRecord { cache_index, hot_x, hot_y, width, height } = record;
    let hot_spot = Point16 { x: hot_x, y: hot_y };
    let color_pointer = ColorPointerAttribute { cache_index, hot_spot, width, height, xor_mask, and_mask };
    encode_vec(&PointerAttribute { xor_bpp, color_pointer }).ok()
}

/// Where the pixels of a surface command go and how they are coded. The right and bottom edges are
/// exclusive.
#[derive(Debug, Clone, Copy, PartialEq, Eq, Structural)]
pub struct SurfaceRecord {
    pub left: u16,
    pub top: u16,
    pub right: u16,
    pub bottom: u16,
    pub bpp: u8,
    pub codec_id: u8,
    pub width: u16,
    pub height: u16,
}

impl SurfaceRecord {
    /// A command that sets the pixels of a surface.
    pub open spec fn bytes(self, data: Seq<u8>) -> Seq<u8> {
        le16(1) + le16(self.left as int) + le16(self.top as int) + le16(self.right as int) + le16(
            self.bottom as int,
        ) + seq![self.bpp, 0u8, 0u8, self.codec_id] + le16(self.width as int) + le16(
            self.height as int,
        ) + le32(data.len() as int) + data
    }
}

/// Encodes a command that sets the pixels of a surface.
///
/// Calls `encode_vec` of `ironrdp-core` on `SurfaceCommand::SetSurfaceBits` without a header of its
/// own for the pixels, which fails exactly where their length does not fit in 32 bits.
#[verifier::external_body]
pub(crate) fn encode_surface_bits(record: SurfaceRecord, data: &[u8]) -> (r: Option<Vec<u8>>)
    requires
        data@.len() + 22 <= isize::MAX,
    ensures
        match r {
            Some(bytes) => data@.len() <= u32::MAX && bytes@ == record.bytes(data@),
            None => data@.len() > u32::MAX,
        },
{
    let SurfaceRecord { left, top, right, bottom, bpp, codec_id, width, height } = record;
    let destination = ExclusiveRectangle { left, top, right, bottom };
    let extended_bitmap_data = ExtendedBitmapDataPdu { bpp, codec_id, width, height, header: None, data };
    encode_vec(&SurfaceCommand::SetSurfaceBits(SurfaceBitsPdu { destination, extended_bitmap_data })).ok()
}

/// The lowest identifier of a user channel.
pub const BASE_CHANNEL_ID: u16 = 1001;

/// A length in as many bytes as it takes.
pub open spec fn per_length(len: int) -> Seq<u8> {
    if len <= 0x7F {
        seq![len as u8]
    } else if len < 0x8000 {
        be16(len + 0x8000)
    } else {
        be16(len)
    }
}

/// Bytes that data takes when it is sent on a channel.
pub open spec fn indication_size(len: int) -> int {
    13 + per_length(len).len() + len
}

/// Data that the server sends on a channel.
pub open spec fn indication_bytes(initiator_id: int, channel_id: int, data: Seq<u8>) -> Seq<u8> {
    seq![3u8, 0u8] + be16(indication_size(data.len() as int)) + seq![2u8, 0xF0u8, 0x80u8, 0x68u8] + be16(
        initiator_id - BASE_CHANNEL_ID,
    ) + be16(channel_id) + seq![0x70u8] + per_length(data.len() as int) + data
}

/// Whether data can be sent on a channel in the name of the given user.
pub open spec fn indication_fits(initiator_id: int, len: int) -> bool {
    initiator_id >= BASE_CHANNEL_ID && indication_size(len) <= u16::MAX
}

/// Encodes data that the server sends on a channel.
///
/// Calls `encode_vec` of `ironrdp-core` on `SendDataIndication` in an `X224` packet. It fails exactly
/// where the identifier of the user is below the base of user channels or the packet's length does
/// not fit in sixteen bits.
#[verifier::external_body]
pub(crate) fn encode_indication(initiator_id: u16, channel_id: u16, data: &[u8]) -> (r: Option<Vec<u8>>)
    requires
        data@.len() + 16 <= isize::MAX,
    ensures
        match r {
            Some(bytes) => {
                &&& indication_fits(initiator_id as int, data@.len() as int)
                &&& bytes@ == indication_bytes(initiator_id as int, channel_id as int, data@)
            },
            None => !indication_fits(initiator_id as int, data@.len() as int),
        },
{
    encode_vec(&X224(SendDataIndication { initiator_id, channel_id, user_data: data.into() })).ok()
}

/// The order to a client to deactivate all.
pub open spec fn deactivate_all_bytes(pdu_source: int) -> Seq<u8> {
    le16(13) + le16(0x16) + le16(pdu_source) + le32(0) + le16(1) + seq![0u8]
}

/// Encodes the order to a client to deactivate all.
///
/// Calls `encode_vec` of `ironrdp-core` on a `ShareControlHeader` with `ServerDeactivateAll` and the
/// given share identifier, which has no way to fail.
#[verifier::external_body]
pub(crate) fn encode_deactivate_all(pdu_source: u16) -> (r: Option<Vec<u8>>)
    ensures
        r is Some,
        r->0@ == deactivate_all_bytes(pdu_source as int),
{
    let share_control_pdu = ShareControlPdu::ServerDeactivateAll(ServerDeactivateAll);
    encode_vec(&ShareControlHeader { share_id: 0, pdu_source, share_control_pdu }).ok()
}

/// The code of the error that the server denied the connection.
pub const DENIED_CONNECTION: u32 = 7;

/// Encodes the error that the server denied the connection.
///
/// Calls `encode_vec` of `ironrdp-core` on a `ServerSetErrorInfoPdu`, which has no way to fail.
#[verifier::external_body]
pub(crate) fn encode_connection_denied() -> (r: Option<Vec<u8>>)
    ensures
        r is Some,
        r->0@ == le32(DENIED_CONNECTION as int),
{
    let code = ProtocolIndependentCode::ServerDeniedConnection;
    encode_vec(&ServerSetErrorInfoPdu(ErrorInfo::ProtocolIndependentCode(code))).ok()
}

/// A request to answer at once, for measuring the round trip.
pub open spec fn rtt_request_bytes(sequence_number: int, request_type: int) -> Seq<u8> {
    le16(0x1000) + le16(0) + seq![6u8, 0u8] + le16(sequence_number) + le16(request_type)
}

/// Encodes a request for measuring the round trip.
///
/// Calls `encode_vec` of `ironrdp-core` on an `AutoDetectReqPdu` with `RttRequest`, which has no way
/// to fail.
#[verifier::external_body]
pub(crate) fn encode_rtt_request(sequence_number: u16, request_type: u16) -> (r: Option<Vec<u8>>)
    ensures
        r is Some,
        r->0@ == rtt_request_bytes(sequence_number as int, request_type as int),
{
    encode_vec(&AutoDetectReqPdu::new(AutoDetectRequest::RttRequest { sequence_number, request_type })).ok()
}

/// The fields of a rectangle stand one after the other on the wire, as integers of 16 bits.
pub proof fn lemma_record_fields(record: BitmapRecord, data: Seq<u8>)
    requires
        data.len() <= u16::MAX,
    ensures
        ({
            let bytes = record.bytes(data);
            &&& bytes.len() == 18 + data.len()
            &&& word(bytes, 0) == record.left
            &&& word(bytes, 2) == record.top
            &&& word(bytes, 4) == record.right
            &&& word(bytes, 6) == record.bottom
            &&& word(bytes, 8) == record.width
            &&& word(bytes, 10) == record.height
            &&& word(bytes, 12) == record.bits_per_pixel
            &&& word(bytes, 14) == record.flags
            &&& word(bytes, 16) == data.len()
            &&& bytes.skip(18) == data
        }),
{
    let bytes = record.bytes(data);
    lemma_word_back(record.left as int);
    lemma_word_back(record.top as int);
    lemma_word_back(record.right as int);
    lemma_word_back(record.bottom as int);
    lemma_word_back(record.width as int);
    lemma_word_back(record.height as int);
    lemma_word_back(record.bits_per_pixel as int);
    lemma_word_back(record.flags as int);
    lemma_word_back(data.len() as int);
    assert(bytes.skip(18) =~= data);
}

/// The fields of a command that sets the pixels of a surface stand on the wire in their order.
pub proof fn lemma_surface_fields(record: SurfaceRecord, data: Seq<u8>)
    requires
        data.len() <= u32::MAX,
    ensures
        ({
            let bytes = record.bytes(data);
            &&& bytes.len() == 22 + data.len()
            &&& word(bytes, 0) == 1
            &&& word(bytes, 2) == record.left
            &&& word(bytes, 4) == record.top
            &&& word(bytes, 6) == record.right
            &&& word(bytes, 8) == record.bottom
            &&& bytes[10] == record.bpp
            &&& bytes[11] == 0
            &&& bytes[12] == 0
            &&& bytes[13] == record.codec_id
            &&& word(bytes, 14) == record.width
            &&& word(bytes, 16) == record.height
            &&& double_word(bytes, 18) == data.len()
            &&& bytes.skip(22) == data
        }),
{
    let bytes = record.bytes(data);
    lemma_word_back(1);
    lemma_word_back(record.left as int);
    lemma_word_back(record.top as int);
    lemma_word_back(record.right as int);
    lemma_word_back(record.bottom as int);
    lemma_word_back(record.width as int);
    lemma_word_back(record.height as int);
    lemma_double_word_back(data.len() as int);
    assert(forall|k: int| 0 <= k < 4 ==> bytes[18 + k] == le32(data.len() as int)[k]);
    assert(bytes.skip(22) =~= data);
}

/// The fields of a pointer stand one after the other on the wire, as integers of 16 bits, and its masks
/// behind them.
pub proof fn lemma_pointer_fields(record: PointerRecord, xor_mask: Seq<u8>, and_mask: Seq<u8>)
    requires
        xor_mask.len() <= u16::MAX,
        and_mask.len() <= u16::MAX,
    ensures
        ({
            let bytes = record.bytes(xor_mask, and_mask);
            &&& bytes.len() == 14 + xor_mask.len() + and_mask.len()
            &&& word(bytes, 0) == record.cache_index
            &&& word(bytes, 2) == record.hot_x
            &&& word(bytes, 4) == record.hot_y
            &&& word(bytes, 6) == record.width
            &&& word(bytes, 8) == record.height
            &&& word(bytes, 10) == and_mask.len()
            &&& word(bytes, 12) == xor_mask.len()
            &&& bytes.skip(14) == xor_mask + and_mask
        }),
{
    let bytes = record.bytes(xor_mask, and_mask);
    lemma_word_back(record.cache_index as int);
    lemma_word_back(record.hot_x as int);
    lemma_word_back(record.hot_y as int);
    lemma_word_back(record.width as int);
    lemma_word_back(record.height as int);
    lemma_word_back(and_mask.len() as int);
    lemma_word_back(xor_mask.len() as int);
    assert(bytes.skip(14) =~= xor_mask + and_mask);
}

/// Data that the server sends on a channel stands in a packet that says how long it is, by whom it is sent
/// and on which channel, and that ends with the data.
pub proof fn lemma_indication_fields(initiator_id: int, channel_id: int, data: Seq<u8>)
    requires
        indication_fits(initiator_id, data.len() as int),
        initiator_id <= u16::MAX,
        0 <= channel_id <= u16::MAX,
    ensures
        ({
            let bytes = indication_bytes(initiator_id, channel_id, data);
            &&& bytes[0] == 3
            &&& bytes[1] == 0
            &&& bytes[2] * 256 + bytes[3] == bytes.len()
            &&& bytes.subrange(4, 8) == seq![2u8, 0xF0u8, 0x80u8, 0x68u8]
            &&& bytes[8] * 256 + bytes[9] + 1001 == initiator_id
            &&& bytes[10] * 256 + bytes[11] == channel_id
            &&& bytes[12] == 0x70
            &&& bytes.skip(bytes.len() - data.len()) == data
        }),
{
    let bytes = indication_bytes(initiator_id, channel_id, data);
    let len = data.len() as int;
    lemma_word_back(indication_size(len));
    lemma_word_back(initiator_id - 1001);
    lemma_word_back(channel_id);
    assert(bytes.len() == indication_size(len));
    assert(bytes[2] == be16(indication_size(len))[0] && bytes[3] == be16(indication_size(len))[1]);
    assert(bytes[8] == be16(initiator_id - 1001)[0] && bytes[9] == be16(initiator_id - 1001)[1]);
    assert(bytes[10] == be16(channel_id)[0] && bytes[11] == be16(channel_id)[1]);
    assert(bytes.subrange(4, 8) =~= seq![2u8, 0xF0u8, 0x80u8, 0x68u8]);
    assert(bytes.skip(bytes.len() - data.len()) =~= data);
}

} // verus!
