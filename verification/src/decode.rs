//! The protocol units that the server and the test client read.
//!
//! `ironrdp-pdu` takes the bytes apart. Where a unit is short, the specification functions say what it
//! holds; where it is long, what it holds has a name.

use ironrdp_ainput::ClientPdu;
use ironrdp_core::decode;
use ironrdp_pdu::input::fast_path::{FastPathInput, FastPathInputEvent};
use ironrdp_pdu::input::{InputEvent, InputEventPdu};
use ironrdp_pdu::mcs::{self, McsMessage};
use ironrdp_pdu::rdp::autodetect::{AutoDetectResponse, AutoDetectRspPdu};
use ironrdp_pdu::rdp::headers::{ShareControlHeader, ShareControlPdu, ShareDataPdu};
use ironrdp_pdu::x224::X224;
use vstd::prelude::*;

use crate::input::InputPdu;
use crate::wire::{le16, le32, le64};

verus! {

/// Whether the length that a fast-path frame declares is at least that of its own header: one byte, the
/// length itself, and the number of events where the first byte has none. A frame that ends before
/// that declares nothing.
pub open spec fn declares_its_header(frame: Seq<u8>) -> bool {
    let count = if frame.len() > 0 && frame[0] / 4 % 16 == 0 {
        1int
    } else {
        0
    };
    if frame.len() < 2 {
        true
    } else if frame[1] < 128 {
        frame[1] >= 2 + count
    } else {
        frame.len() < 3 || (frame[1] - 128) * 256 + frame[2] >= 3 + count
    }
}

/// The units of input in a fast-path frame, or nothing where it is none.
pub uninterp spec fn fast_path_input(frame: Seq<u8>) -> Option<Seq<InputPdu>>;

/// Reads a fast-path frame.
///
/// Calls `decode` of `ironrdp-core` for a `FastPathInput` of `ironrdp-pdu`. It subtracts the header from
/// the length that the frame declares, so a length that is too short for that is left out.
#[verifier::external_body]
pub(crate) fn decode_fast_path_input(frame: &[u8]) -> (r: Option<Vec<InputPdu>>)
    requires
        declares_its_header(frame@),
    ensures
        match r {
            Some(pdus) => fast_path_input(frame@) == Some(pdus@),
            None => fast_path_input(frame@) is None,
        },
{
    let input = decode::<FastPathInput>(frame).ok()?;
    let pdus = input.input_events().iter().map(|event| match event {
        FastPathInputEvent::KeyboardEvent(f, code) => InputPdu::FastPathKey { flags: f.bits(), code: *code },
        FastPathInputEvent::UnicodeKeyboardEvent(f, ch) => InputPdu::FastPathUnicode { flags: f.bits(), ch: *ch },
        FastPathInputEvent::SyncEvent(_) => InputPdu::Sync,
        FastPathInputEvent::MouseEvent(m) => InputPdu::Pointer {
            flags: m.flags.bits(), wheel: m.number_of_wheel_rotation_units, x: m.x_position, y: m.y_position,
        },
        _ => InputPdu::Other,
    });
    Some(pdus.collect())
}

/// The units of input in a list of them, or nothing where it is none.
pub uninterp spec fn slow_path_input(list: Seq<u8>) -> Option<Seq<InputPdu>>;

/// Reads a list of units of input.
///
/// Calls `decode` of `ironrdp-core` for an `InputEventPdu` of `ironrdp-pdu`.
#[verifier::external_body]
pub(crate) fn decode_slow_path_input(list: &[u8]) -> (r: Option<Vec<InputPdu>>)
    ensures
        match r {
            Some(pdus) => slow_path_input(list@) == Some(pdus@),
            None => slow_path_input(list@) is None,
        },
{
    let pdu = decode::<InputEventPdu>(list).ok()?;
    let pdus = pdu.0.iter().map(|event| match event {
        InputEvent::ScanCode(key) => InputPdu::ScanCode { flags: key.flags.bits(), code: key.key_code },
        InputEvent::Unicode(key) => InputPdu::Unicode { flags: key.flags.bits(), ch: key.unicode_code },
        InputEvent::Sync(_) => InputPdu::Sync,
        InputEvent::Mouse(m) => InputPdu::Pointer {
            flags: m.flags.bits(), wheel: m.number_of_wheel_rotation_units, x: m.x_position, y: m.y_position,
        },
        _ => InputPdu::Other,
    });
    Some(pdus.collect())
}

/// Whether a message of the channel for advanced input is that of a pointer with these flags at this
/// place: its type, a time that means nothing here, the flags and the place.
pub open spec fn is_advanced_pointer(message: Seq<u8>, flags: u64, x: i32, y: i32) -> bool {
    &&& message.len() >= 26
    &&& message.subrange(0, 2) == le16(2)
    &&& message.subrange(10, 18) == le64(flags as int)
    &&& message.subrange(18, 22) == le32(x as int % 0x1_0000_0000)
    &&& message.subrange(22, 26) == le32(y as int % 0x1_0000_0000)
}

/// Reads a message of the channel for advanced input.
///
/// Calls `decode` of `ironrdp-core` for a `ClientPdu` of `ironrdp-ainput`, which takes any message that is
/// long enough and starts with the type of a pointer.
#[verifier::external_body]
pub(crate) fn decode_advanced_input(message: &[u8]) -> (r: Option<InputPdu>)
    ensures
        match r {
            Some(InputPdu::Advanced { flags, x, y }) => is_advanced_pointer(message@, flags, x, y),
            Some(_) => false,
            None => message@.len() < 26 || message@.subrange(0, 2) != le16(2),
        },
{
    let ClientPdu::Mouse(pdu) = decode::<ClientPdu>(message).ok()?;
    Some(InputPdu::Advanced { flags: pdu.flags.bits(), x: pdu.x, y: pdu.y })
}

/// Why a client ends the connection.
#[derive(Debug, Clone, Copy, PartialEq, Eq, Structural)]
pub enum DisconnectReason {
    DomainDisconnected,
    ProviderInitiated,
    TokenPurged,
    UserRequested,
    ChannelPurged,
}

/// A message that a client sends outside the fast path.
#[derive(Debug, Clone, Copy, PartialEq, Eq, Structural)]
pub enum ClientMessage {
    /// Data on a channel.
    Data { channel_id: u16 },
    Disconnect(DisconnectReason),
    Other,
}

/// The message in a frame with its data, or nothing where the frame is none.
pub uninterp spec fn client_message(frame: Seq<u8>) -> Option<(ClientMessage, Seq<u8>)>;

/// Reads a message that a client sends outside the fast path. Only one with data has any.
///
/// Calls `decode` of `ironrdp-core` for an `X224<McsMessage>` of `ironrdp-pdu`.
#[verifier::external_body]
pub(crate) fn decode_client_message(frame: &[u8]) -> (r: Option<(ClientMessage, Vec<u8>)>)
    ensures
        match r {
            Some((message, data)) => client_message(frame@) == Some((message, data@)),
            None => client_message(frame@) is None,
        },
{
    Some(match decode::<X224<McsMessage<'_>>>(frame).ok()?.0 {
        McsMessage::SendDataRequest(d) => (ClientMessage::Data { channel_id: d.channel_id }, d.user_data.into_owned()),
        McsMessage::DisconnectProviderUltimatum(d) => (ClientMessage::Disconnect(match d.reason {
            mcs::DisconnectReason::DomainDisconnected => DisconnectReason::DomainDisconnected,
            mcs::DisconnectReason::ProviderInitiated => DisconnectReason::ProviderInitiated,
            mcs::DisconnectReason::TokenPurged => DisconnectReason::TokenPurged,
            mcs::DisconnectReason::UserRequested => DisconnectReason::UserRequested,
            mcs::DisconnectReason::ChannelPurged => DisconnectReason::ChannelPurged,
        }), Vec::new()),
        _ => (ClientMessage::Other, Vec::new()),
    })
}

/// What a client sends on the channel for input and output.
#[derive(Debug, Clone, Copy, PartialEq, Eq, Structural)]
pub enum IoPdu {
    /// Units of input, which stand behind the headers.
    Input,
    ShutdownRequest,
    /// Updates are to be held back, unless the client says which part of the desktop it wants.
    SuppressOutput { desktop_rect: bool },
    RefreshRectangle,
    Other,
}

/// Length of the headers before units of input.
pub const IO_HEADERS: usize = 18;

/// What the data on the channel for input and output are, or nothing where they are not of the protocol.
pub uninterp spec fn io_message(data: Seq<u8>) -> Option<IoPdu>;

/// Reads data of the channel for input and output.
///
/// Calls `decode` of `ironrdp-core` for a `ShareControlHeader` of `ironrdp-pdu`. Units of input come behind
/// a share control header of ten bytes and a share data header of eight; it reads them from there as an
/// `InputEventPdu`, so where the data are input, a list of units begins behind the headers.
#[verifier::external_body]
pub(crate) fn decode_io_message(data: &[u8]) -> (r: Option<IoPdu>)
    ensures
        r == io_message(data@),
        r == Some(IoPdu::Input) ==> {
            &&& data@.len() >= IO_HEADERS
            &&& slow_path_input(data@.skip(IO_HEADERS as int)) is Some
        },
{
    Some(match decode::<ShareControlHeader>(data).ok()?.share_control_pdu {
        ShareControlPdu::Data(header) => match header.share_data_pdu {
            ShareDataPdu::Input(_) => IoPdu::Input,
            ShareDataPdu::ShutdownRequest => IoPdu::ShutdownRequest,
            ShareDataPdu::SuppressOutput(pdu) => IoPdu::SuppressOutput { desktop_rect: pdu.desktop_rect.is_some() },
            ShareDataPdu::RefreshRectangle(_) => IoPdu::RefreshRectangle,
            _ => IoPdu::Other,
        },
        _ => IoPdu::Other,
    })
}

/// What a client answers on the message channel.
#[derive(Debug, Clone, Copy, PartialEq, Eq, Structural)]
pub enum Answer {
    /// To a request to answer at once.
    Rtt { sequence_number: u16 },
    /// To a measurement that the server does not make.
    Other { sequence_number: u16 },
}

/// The answer in data of the message channel, or nothing where they are none.
pub uninterp spec fn answer(data: Seq<u8>) -> Option<Answer>;

/// Reads data of the message channel.
///
/// Calls `decode` of `ironrdp-core` for an `AutoDetectRspPdu` of `ironrdp-pdu`.
#[verifier::external_body]
pub(crate) fn decode_answer(data: &[u8]) -> (r: Option<Answer>)
    ensures
        r == answer(data@),
{
    let response = decode::<AutoDetectRspPdu>(data).ok()?.response;
    Some(match response {
        AutoDetectResponse::RttResponse { sequence_number } => Answer::Rtt { sequence_number },
        other => Answer::Other { sequence_number: other.sequence_number() },
    })
}

} // verus!
