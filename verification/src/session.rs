//! A client's session: what is done with what the client, the display and the server's other parts
//! bring.

use vstd::prelude::*;
use vstd::slice::slice_subrange;

use crate::codecs::RemoteFxHandler;
use crate::credentials::CredentialDecision;
use crate::decode::{
    answer, client_message, declares_its_header, decode_advanced_input, decode_answer,
    decode_client_message, decode_fast_path_input, decode_io_message, decode_slow_path_input,
    fast_path_input, io_message, is_advanced_pointer, slow_path_input, Answer, ClientMessage,
    DisconnectReason, IoPdu, IO_HEADERS,
};
use crate::encoder::{BitmapUpdater, DisplayUpdate, EncoderIter, EncoderState, UpdateEncoder};
use crate::frame::DesktopSize;
use crate::input::{
    advanced_action, handle_input, input_action, meanings, InputAction, InputPdu,
};
use crate::pdu::{
    deactivate_all_bytes, encode_connection_denied, encode_deactivate_all, encode_indication,
    encode_rtt_request, indication_bytes, lemma_indication_fields, rtt_request_bytes, BASE_CHANNEL_ID,
    DENIED_CONNECTION,
};
use crate::server::{negotiate, negotiated, ClientCapability, Negotiated, RdpServerOptions};
use crate::wire::{le16, le32};

verus! {

/// How a session goes on.
#[derive(Debug, Clone, Copy, PartialEq, Eq, Structural)]
pub enum RunState {
    Continue,
    Disconnect,
    /// The client is taken through the activation again, for the new size.
    DeactivationReactivation { desktop_size: DesktopSize },
}

/// The protocol that a frame belongs to.
#[derive(Debug, Clone, Copy, PartialEq, Eq, Structural)]
pub enum Action {
    FastPath,
    X224,
}

/// The protocol that the first byte of a frame names in its two lowest bits.
pub fn frame_action(header: u8) -> (r: Option<Action>)
    ensures
        r == if header % 4 == 0 {
            Some(Action::FastPath)
        } else if header % 4 == 3 {
            Some(Action::X224)
        } else {
            None
        },
{
    let bits: u8 = header % 4;
    if bits == 0 {
        Some(Action::FastPath)
    } else if bits == 3 {
        Some(Action::X224)
    } else {
        None
    }
}

/// How the session goes on after a frame, where `disconnect` says whether an X.224 frame asked for
/// its end.
pub fn dispatch_pdu(action: Action, disconnect: bool) -> (r: RunState)
    ensures
        r == if action is X224 && disconnect {
            RunState::Disconnect
        } else {
            RunState::Continue
        },
{
    match action {
        Action::FastPath => RunState::Continue,
        Action::X224 => if disconnect {
            RunState::Disconnect
        } else {
            RunState::Continue
        },
    }
}

/// What an update of the display comes to.
pub enum DisplayStep {
    /// These bytes are sent, if there are any, and the session goes on as the state says.
    Reactivate { message: Option<Vec<u8>>, state: RunState },
    /// The parts of the update are sent one by one.
    Send(EncoderIter),
}

/// The message that a client is sent before it is taken through the activation again.
pub open spec fn deactivation(io_channel_id: int, user_channel_id: int) -> Seq<u8> {
    indication_bytes(user_channel_id, io_channel_id, deactivate_all_bytes(io_channel_id))
}

/// The message that a client is sent before it is taken through the activation again.
pub fn deactivate_all(io_channel_id: u16, user_channel_id: u16) -> (r: Option<Vec<u8>>)
    ensures
        match r {
            Some(bytes) => user_channel_id >= BASE_CHANNEL_ID && bytes@ == deactivation(
                io_channel_id as int,
                user_channel_id as int,
            ),
            None => user_channel_id < BASE_CHANNEL_ID,
        },
{
    match encode_deactivate_all(io_channel_id) {
        Some(data) => {
            assert(data@.len() == 13);
            encode_indication(user_channel_id, io_channel_id, data.as_slice())
        },
        None => None,
    }
}

/// What an update of the display comes to: a new size has the client go through the activation
/// again, all else is encoded.
pub fn dispatch_display_update(
    encoder: &mut UpdateEncoder,
    update: DisplayUpdate,
    io_channel_id: u16,
    user_channel_id: u16,
) -> (r: DisplayStep)
    ensures
        match update {
            DisplayUpdate::Resize(desktop_size) => {
                &&& final(encoder).desktop_size == desktop_size
                &&& final(encoder).framebuffer == old(encoder).framebuffer
                &&& final(encoder).frame_count == old(encoder).frame_count
                &&& final(encoder).last_large_update == old(encoder).last_large_update
                &&& final(encoder).max_request_size == old(encoder).max_request_size
                &&& match old(encoder).bitmap_updater {
                    BitmapUpdater::RemoteFx(up) => final(encoder).bitmap_updater
                        == BitmapUpdater::RemoteFx(
                        RemoteFxHandler { codec_id: up.codec_id, desktop_size: Some(desktop_size) },
                    ),
                    _ => final(encoder).bitmap_updater == old(encoder).bitmap_updater,
                }
                &&& match r {
                    DisplayStep::Reactivate { message, state } => {
                        &&& state == RunState::DeactivationReactivation { desktop_size }
                        &&& match message {
                            Some(bytes) => user_channel_id >= BASE_CHANNEL_ID && bytes@
                                == deactivation(io_channel_id as int, user_channel_id as int),
                            None => user_channel_id < BASE_CHANNEL_ID,
                        }
                    },
                    DisplayStep::Send(_) => false,
                }
            },
            _ => {
                &&& *final(encoder) == *old(encoder)
                &&& r matches DisplayStep::Send(iter) && iter.state == EncoderState::Start(update)
            },
        },
{
    if let DisplayUpdate::Resize(desktop_size) = update {
        encoder.set_desktop_size(desktop_size);
        let message = deactivate_all(io_channel_id, user_channel_id);
        return DisplayStep::Reactivate {
            message,
            state: RunState::DeactivationReactivation { desktop_size },
        };
    }
    DisplayStep::Send(encoder.update(update))
}

/// What the server's other parts have for a client.
#[derive(Debug, Clone, Copy, PartialEq, Eq, Structural)]
pub enum ServerEventKind {
    Quit,
    GetLocalAddr,
    SetCredentials,
    Wave,
    SetVolume,
    CloseSound,
    SoundError,
    Clipboard,
    ClipboardError,
    Echo,
    Egfx,
    AutoDetectRttRequest,
}

/// Which ways to the client are open.
#[derive(Debug, Clone, Copy, PartialEq, Eq, Structural)]
pub struct ChannelState {
    pub rdpsnd: bool,
    pub cliprdr: bool,
    pub drdynvc: bool,
    /// Whether the dynamic channels have one for echoes.
    pub echo: bool,
    /// Whether that channel is open.
    pub echo_opened: bool,
    /// Whether round trips are measured.
    pub autodetect: bool,
    /// Whether the client has a channel for messages.
    pub message: bool,
}

/// What is done with an event.
#[derive(Debug, Clone, Copy, PartialEq, Eq, Structural)]
pub enum EventAction {
    Disconnect,
    ReplyLocalAddr,
    SetCredentials,
    SendSound,
    SendClipboard,
    SendEcho,
    SendEgfx,
    SendRttRequest,
    /// Nothing is sent.
    Drop,
    /// The session ends with an error.
    Fail,
}

/// Waves of a batch that are kept.
pub const WAVE_KEEP: usize = 4;

/// Number of waves among the first `n` events.
pub open spec fn waves(events: Seq<ServerEventKind>, n: int) -> int
    decreases n,
{
    if n <= 0 {
        0
    } else {
        waves(events, n - 1) + if events[n - 1] is Wave {
            1int
        } else {
            0
        }
    }
}

/// What is done with event `i` of a batch.
///
/// Of the waves in a batch only the last [`WAVE_KEEP`] are sent, so that a pause does not delay the
/// sound for good.
pub open spec fn event_action(events: Seq<ServerEventKind>, channels: ChannelState, i: int) -> EventAction {
    match events[i] {
        ServerEventKind::Quit => EventAction::Disconnect,
        ServerEventKind::GetLocalAddr => EventAction::ReplyLocalAddr,
        ServerEventKind::SetCredentials => EventAction::SetCredentials,
        ServerEventKind::Wave => if channels.rdpsnd && waves(events, i) + WAVE_KEEP >= waves(
            events,
            events.len() as int,
        ) {
            EventAction::SendSound
        } else {
            EventAction::Drop
        },
        ServerEventKind::SetVolume | ServerEventKind::CloseSound => if channels.rdpsnd {
            EventAction::SendSound
        } else {
            EventAction::Drop
        },
        ServerEventKind::SoundError => EventAction::Drop,
        ServerEventKind::Clipboard => if channels.cliprdr {
            EventAction::SendClipboard
        } else {
            EventAction::Drop
        },
        ServerEventKind::ClipboardError => EventAction::Drop,
        ServerEventKind::Echo => if channels.drdynvc && channels.echo && channels.echo_opened {
            EventAction::SendEcho
        } else {
            EventAction::Drop
        },
        ServerEventKind::Egfx => if channels.drdynvc {
            EventAction::SendEgfx
        } else {
            EventAction::Fail
        },
        ServerEventKind::AutoDetectRttRequest => if channels.autodetect && channels.message {
            EventAction::SendRttRequest
        } else {
            EventAction::Drop
        },
    }
}

/// Whether nothing is done with the events of a batch that follow.
pub open spec fn ends_batch(action: EventAction) -> bool {
    action is Disconnect || action is Fail
}

/// Number of waves in a batch.
fn count_waves(events: &Vec<ServerEventKind>) -> (r: usize)
    ensures
        r == waves(events@, events@.len() as int),
{
    let mut count: usize = 0;
    let mut i: usize = 0;
    while i < events.len()
        invariant
            i <= events@.len(),
            count == waves(events@, i as int),
            count <= i,
        decreases events@.len() - i,
    {
        if events[i] == ServerEventKind::Wave {
            count = count + 1;
        }
        i = i + 1;
    }
    count
}

/// What is done with the events of a batch, up to the one that ends it.
pub fn dispatch_server_events(events: &Vec<ServerEventKind>, channels: ChannelState) -> (r: Vec<
    EventAction,
>)
    ensures
        r@.len() <= events@.len(),
        forall|i: int| 0 <= i < r@.len() ==> #[trigger] r@[i] == event_action(events@, channels, i),
        forall|i: int| 0 <= i < r@.len() - 1 ==> !ends_batch(#[trigger] r@[i]),
        r@.len() < events@.len() ==> r@.len() > 0 && ends_batch(r@.last()),
{
    let total: usize = count_waves(events);
    let mut skip: usize = if total > WAVE_KEEP {
        total - WAVE_KEEP
    } else {
        0
    };
    let mut actions: Vec<EventAction> = Vec::new();
    let mut i: usize = 0;
    while i < events.len()
        invariant
            i <= events@.len(),
            total == waves(events@, events@.len() as int),
            channels.rdpsnd ==> skip == if waves(events@, i as int) + WAVE_KEEP >= total {
                0
            } else {
                total - WAVE_KEEP - waves(events@, i as int)
            },
            actions@.len() == i,
            forall|k: int|
                0 <= k < i ==> #[trigger] actions@[k] == event_action(events@, channels, k),
            forall|k: int| 0 <= k < i ==> !ends_batch(#[trigger] actions@[k]),
        decreases events@.len() - i,
    {
        let action = match events[i] {
            ServerEventKind::Quit => EventAction::Disconnect,
            ServerEventKind::GetLocalAddr => EventAction::ReplyLocalAddr,
            ServerEventKind::SetCredentials => EventAction::SetCredentials,
            ServerEventKind::Wave => if !channels.rdpsnd {
                EventAction::Drop
            } else if skip > 0 {
                skip = skip - 1;
                EventAction::Drop
            } else {
                EventAction::SendSound
            },
            ServerEventKind::SetVolume | ServerEventKind::CloseSound => if channels.rdpsnd {
                EventAction::SendSound
            } else {
                EventAction::Drop
            },
            ServerEventKind::SoundError => EventAction::Drop,
            ServerEventKind::Clipboard => if channels.cliprdr {
                EventAction::SendClipboard
            } else {
                EventAction::Drop
            },
            ServerEventKind::ClipboardError => EventAction::Drop,
            ServerEventKind::Echo => if channels.drdynvc && channels.echo && channels.echo_opened {
                EventAction::SendEcho
            } else {
                EventAction::Drop
            },
            ServerEventKind::Egfx => if channels.drdynvc {
                EventAction::SendEgfx
            } else {
                EventAction::Fail
            },
            ServerEventKind::AutoDetectRttRequest => if channels.autodetect && channels.message {
                EventAction::SendRttRequest
            } else {
                EventAction::Drop
            },
        };
        assert(action == event_action(events@, channels, i as int));
        actions.push(action);
        if action == EventAction::Disconnect || action == EventAction::Fail {
            return actions;
        }
        i = i + 1;
    }
    actions
}

proof fn lemma_waves_grow(events: Seq<ServerEventKind>, i: int, n: int)
    requires
        0 <= i <= n,
    ensures
        0 <= waves(events, i) <= waves(events, n),
    decreases n,
{
    if i < n {
        lemma_waves_grow(events, i, n - 1);
    } else if n > 0 {
        lemma_waves_grow(events, i - 1, n - 1);
    }
}

/// Stale sound is dropped, fresh sound is not: a wave for which there is a channel is sent exactly
/// where fewer than [`WAVE_KEEP`] waves of the batch are newer.
pub proof fn lemma_recent_waves(events: Seq<ServerEventKind>, channels: ChannelState, i: int)
    requires
        channels.rdpsnd,
        0 <= i < events.len(),
        events[i] is Wave,
    ensures
        event_action(events, channels, i) is SendSound <==> waves(events, events.len() as int) - waves(
            events,
            i + 1,
        ) < WAVE_KEEP,
{
}

/// Of two waves in a batch the newer one is sent if the older one is.
pub proof fn lemma_newer_wave_kept(
    events: Seq<ServerEventKind>,
    channels: ChannelState,
    i: int,
    j: int,
)
    requires
        0 <= i < j < events.len(),
        events[i] is Wave,
        events[j] is Wave,
        event_action(events, channels, i) is SendSound,
    ensures
        event_action(events, channels, j) is SendSound,
{
    lemma_waves_grow(events, i, j);
}

/// What happened while a session was waiting.
#[derive(Debug, Clone, Copy, PartialEq, Eq, Structural)]
pub enum LoopEvent {
    /// A frame of the client was dealt with.
    Pdu(RunState),
    /// An update of the display was dealt with.
    Update(RunState),
    /// The display has no updates any more.
    UpdatesEnded,
    /// The display failed to give an update.
    UpdateFailed,
    /// A batch of events was dealt with.
    Events(RunState),
    /// Nobody can send events any more.
    EventsEnded,
}

/// Why a session stops waiting, or nothing where it goes on.
pub fn client_loop_step(event: LoopEvent) -> (r: Option<RunState>)
    ensures
        r == match event {
            LoopEvent::Pdu(state) | LoopEvent::Update(state) | LoopEvent::Events(state) => if state
                == RunState::Continue {
                None
            } else {
                Some(state)
            },
            LoopEvent::UpdatesEnded | LoopEvent::EventsEnded => Some(RunState::Disconnect),
            LoopEvent::UpdateFailed => None,
        },
{
    match event {
        LoopEvent::Pdu(state) | LoopEvent::Update(state) | LoopEvent::Events(state) => match state {
            RunState::Continue => None,
            _ => Some(state),
        },
        LoopEvent::UpdatesEnded | LoopEvent::EventsEnded => Some(RunState::Disconnect),
        LoopEvent::UpdateFailed => None,
    }
}

/// What follows the end of the waiting.
#[derive(Debug, Clone, Copy, PartialEq, Eq, Structural)]
pub enum FinalizeStep {
    /// The client goes through the activation again, for the given size.
    Reactivate(DesktopSize),
    /// The connection is closed.
    Close,
}

/// What follows the end of the waiting. A session that could go on has not ended.
pub fn finalize_step(state: RunState) -> (r: FinalizeStep)
    requires
        !(state is Continue),
    ensures
        r == match state {
            RunState::DeactivationReactivation { desktop_size } => FinalizeStep::Reactivate(desktop_size),
            _ => FinalizeStep::Close,
        },
{
    match state {
        RunState::DeactivationReactivation { desktop_size } => FinalizeStep::Reactivate(desktop_size),
        _ => FinalizeStep::Close,
    }
}

/// What came of looking at a client's credentials.
#[derive(Debug, Clone, Copy, PartialEq, Eq, Structural)]
pub enum CredentialCheck {
    /// There is no validator, or there are no credentials.
    Skipped,
    Decided(CredentialDecision),
    /// The validator could not come to a decision.
    BackendFailed,
}

/// Why a client is turned away.
#[derive(Debug, Clone, Copy, PartialEq, Eq, Structural)]
pub enum Denial {
    Rejected,
    BackendFailed,
}

/// Whether a client is let in.
pub enum Gate {
    Open,
    /// The message is sent, if there is one, before the connection is closed.
    Closed { denial: Denial, message: Option<Vec<u8>> },
}

/// The message that tells a client that it is turned away.
pub open spec fn access_denied(io_channel_id: int, user_channel_id: int) -> Seq<u8> {
    indication_bytes(user_channel_id, io_channel_id, le32(DENIED_CONNECTION as int))
}

/// The message that tells a client that it is turned away.
pub fn access_denied_message(io_channel_id: u16, user_channel_id: u16) -> (r: Option<Vec<u8>>)
    ensures
        match r {
            Some(bytes) => user_channel_id >= BASE_CHANNEL_ID && bytes@ == access_denied(
                io_channel_id as int,
                user_channel_id as int,
            ),
            None => user_channel_id < BASE_CHANNEL_ID,
        },
{
    match encode_connection_denied() {
        Some(data) => {
            assert(data@.len() == 4);
            encode_indication(user_channel_id, io_channel_id, data.as_slice())
        },
        None => None,
    }
}

impl CredentialCheck {
    /// Whether a client is let in after this.
    pub open spec fn lets_in(self) -> bool {
        match self {
            CredentialCheck::Skipped | CredentialCheck::Decided(CredentialDecision::Accept) => true,
            _ => false,
        }
    }
}

/// A client is let in only where nobody looked at its credentials or they were accepted; one that was
/// rejected never is, nor one on whom there is no decision.
pub proof fn lemma_turned_away(check: CredentialCheck)
    ensures
        !(CredentialCheck::Decided(CredentialDecision::Reject)).lets_in(),
        !CredentialCheck::BackendFailed.lets_in(),
        (CredentialCheck::Decided(CredentialDecision::Accept)).lets_in(),
        check.lets_in() ==> check is Skipped || check == CredentialCheck::Decided(
            CredentialDecision::Accept,
        ),
{
}

/// Whether a client is let in, and if not, what it is told.
///
/// A client that a validator turns away, or cannot decide on, is told so in the same words.
pub fn credential_gate(check: CredentialCheck, io_channel_id: u16, user_channel_id: u16) -> (r: Gate)
    ensures
        check.lets_in() ==> r is Open,
        !check.lets_in() ==> match r {
            Gate::Open => false,
            Gate::Closed { denial, message } => {
                &&& denial == if check is BackendFailed {
                    Denial::BackendFailed
                } else {
                    Denial::Rejected
                }
                &&& match message {
                    Some(bytes) => user_channel_id >= BASE_CHANNEL_ID && bytes@ == access_denied(
                        io_channel_id as int,
                        user_channel_id as int,
                    ),
                    None => user_channel_id < BASE_CHANNEL_ID,
                }
            },
        },
{
    let denial = match check {
        CredentialCheck::Skipped => {
            return Gate::Open;
        },
        CredentialCheck::Decided(CredentialDecision::Accept) => {
            return Gate::Open;
        },
        CredentialCheck::Decided(CredentialDecision::Reject) => Denial::Rejected,
        CredentialCheck::BackendFailed => Denial::BackendFailed,
    };
    let message = access_denied_message(io_channel_id, user_channel_id);
    Gate::Closed { denial, message }
}

/// What becomes of a client that has come through the negotiation.
pub enum Accepted {
    /// The message is sent, if there is one, and the connection is closed.
    Denied { denial: Denial, message: Option<Vec<u8>> },
    /// The session runs, unless `negotiated` says that the client cannot be served; static channels
    /// are started first where `start_channels` says so.
    Served { start_channels: bool, negotiated: Negotiated },
}

/// What becomes of a client that has come through the negotiation.
///
/// A client whose credentials are turned away is never served. Static channels are started once: a
/// client that goes through the activation again keeps those that it has.
pub fn client_accepted(
    options: &RdpServerOptions,
    check: CredentialCheck,
    reactivation: bool,
    capabilities: &Vec<ClientCapability>,
    io_channel_id: u16,
    user_channel_id: u16,
) -> (r: Accepted)
    ensures
        check.lets_in() ==> match r {
            Accepted::Denied { .. } => false,
            Accepted::Served { start_channels, negotiated: n } => {
                &&& start_channels == !reactivation
                &&& n@ == negotiated(*options, capabilities@, capabilities@.len() as int)
            },
        },
        !check.lets_in() ==> match r {
            Accepted::Denied { denial, message } => {
                &&& denial == if check is BackendFailed {
                    Denial::BackendFailed
                } else {
                    Denial::Rejected
                }
                &&& match message {
                    Some(bytes) => user_channel_id >= BASE_CHANNEL_ID && bytes@ == access_denied(
                        io_channel_id as int,
                        user_channel_id as int,
                    ),
                    None => user_channel_id < BASE_CHANNEL_ID,
                }
            },
            Accepted::Served { .. } => false,
        },
{
    match credential_gate(check, io_channel_id, user_channel_id) {
        Gate::Closed { denial, message } => Accepted::Denied { denial, message },
        Gate::Open => Accepted::Served {
            start_channels: !reactivation,
            negotiated: negotiate(options, capabilities),
        },
    }
}

/// Where the data of a client goes.
#[derive(Debug, Clone, Copy, PartialEq, Eq, Structural)]
pub enum Route {
    Io,
    Message,
    /// To the static channel with that identifier.
    Static,
    /// Nowhere.
    Unknown,
}

/// Where the data of a client goes, by the channel that it came on. `known` says whether there is a
/// static channel with that identifier.
pub open spec fn routed(
    channel_id: u16,
    io_channel_id: u16,
    message_channel_id: Option<u16>,
    known: bool,
) -> Route {
    if channel_id == io_channel_id {
        Route::Io
    } else if message_channel_id == Some(channel_id) {
        Route::Message
    } else if known {
        Route::Static
    } else {
        Route::Unknown
    }
}

/// Where the data of a client goes.
pub fn route(channel_id: u16, io_channel_id: u16, message_channel_id: Option<u16>, known: bool) -> (r:
    Route)
    ensures
        r == routed(channel_id, io_channel_id, message_channel_id, known),
{
    if channel_id == io_channel_id {
        return Route::Io;
    }
    if let Some(id) = message_channel_id {
        if id == channel_id {
            return Route::Message;
        }
    }
    if known {
        Route::Static
    } else {
        Route::Unknown
    }
}

/// Whether the session ends when the client gives this reason: only the user can end it.
pub fn ends_session(reason: DisconnectReason) -> (r: bool)
    ensures
        r == (reason is UserRequested),
{
    match reason {
        DisconnectReason::UserRequested => true,
        _ => false,
    }
}

/// What is done with it.
#[derive(Debug, Clone, Copy, PartialEq, Eq, Structural)]
pub enum IoStep {
    HandleInput,
    Disconnect,
    Proceed,
}

/// What is done with what a client sends on the channel for input and output.
pub open spec fn io_step(pdu: IoPdu) -> IoStep {
    match pdu {
        IoPdu::Input => IoStep::HandleInput,
        IoPdu::ShutdownRequest => IoStep::Disconnect,
        _ => IoStep::Proceed,
    }
}

/// Whether updates are held back after that.
pub open spec fn held_back(suppressed: bool, pdu: IoPdu) -> bool {
    match pdu {
        IoPdu::SuppressOutput { desktop_rect } => !desktop_rect,
        IoPdu::RefreshRectangle => false,
        _ => suppressed,
    }
}

/// What is done with what a client sends on the channel for input and output, and whether updates are
/// held back from then on.
///
/// A client that is minimized has updates held back; it gets them again when it names a part of the
/// desktop or asks for one to be drawn again.
pub fn io_channel_step(suppressed: &mut bool, pdu: IoPdu) -> (r: IoStep)
    ensures
        r == io_step(pdu),
        *final(suppressed) == held_back(*old(suppressed), pdu),
{
    match pdu {
        IoPdu::Input => IoStep::HandleInput,
        IoPdu::ShutdownRequest => IoStep::Disconnect,
        IoPdu::SuppressOutput { desktop_rect } => {
            *suppressed = !desktop_rect;
            IoStep::Proceed
        },
        IoPdu::RefreshRectangle => {
            *suppressed = false;
            IoStep::Proceed
        },
        IoPdu::Other => IoStep::Proceed,
    }
}

/// A client that was minimized gets updates again as soon as it names a part of the desktop or asks for
/// one to be drawn again, and nothing else that it sends on the channel for input and output holds them
/// back.
pub proof fn lemma_updates_resume(suppressed: bool, pdu: IoPdu)
    ensures
        !held_back(suppressed, IoPdu::SuppressOutput { desktop_rect: true }),
        !held_back(suppressed, IoPdu::RefreshRectangle),
        pdu != (IoPdu::SuppressOutput { desktop_rect: false }) && !suppressed ==> !held_back(
            suppressed,
            pdu,
        ),
{
}

/// What a client's frame leads to.
#[derive(Debug, Clone, PartialEq, Eq)]
pub enum Outcome {
    /// Keys and mouse.
    Input(Vec<InputAction>),
    /// The session ends.
    Disconnect,
    /// Nothing more.
    Proceed,
    /// An answer on the message channel.
    Message(MessageStep),
    /// Data for a static channel.
    Channel { channel_id: u16, data: Vec<u8> },
    /// Data for a channel that nobody has.
    Unknown { channel_id: u16 },
}

/// What an answer on the message channel leads to.
#[derive(Debug, Clone, Copy, PartialEq, Eq, Structural)]
pub enum MessageStep {
    /// The request with that number was answered.
    Measured { sequence_number: u16 },
    /// Nobody waits for it.
    Unmatched,
    /// It is none.
    Unhandled,
}

/// What a frame leads to, over what the values hold.
pub enum OutcomeModel {
    Input(Seq<InputAction>),
    Disconnect,
    Proceed,
    Message(MessageStep),
    Channel { channel_id: u16, data: Seq<u8> },
    Unknown { channel_id: u16 },
}

impl View for Outcome {
    type V = OutcomeModel;

    open spec fn view(&self) -> OutcomeModel {
        match self {
            Outcome::Input(actions) => OutcomeModel::Input(actions@),
            Outcome::Disconnect => OutcomeModel::Disconnect,
            Outcome::Proceed => OutcomeModel::Proceed,
            Outcome::Message(step) => OutcomeModel::Message(*step),
            Outcome::Channel { channel_id, data } => OutcomeModel::Channel {
                channel_id: *channel_id,
                data: data@,
            },
            Outcome::Unknown { channel_id } => OutcomeModel::Unknown { channel_id: *channel_id },
        }
    }
}

/// What a fast-path frame leads to: the input in it.
pub open spec fn fast_path_outcome(frame: Seq<u8>) -> Option<Seq<InputAction>> {
    match fast_path_input(frame) {
        Some(pdus) if declares_its_header(frame) => Some(meanings(pdus)),
        _ => None,
    }
}

/// The input in a fast-path frame, or nothing where the frame is none or declares less than its own
/// header.
pub fn handle_fastpath(frame: &[u8]) -> (r: Option<Vec<InputAction>>)
    ensures
        match r {
            Some(actions) => fast_path_outcome(frame@) == Some(actions@),
            None => fast_path_outcome(frame@) is None,
        },
{
    let count: u8 = if frame.len() > 0 && frame[0] / 4 % 16 == 0 {
        1
    } else {
        0
    };
    if frame.len() >= 2 {
        if frame[1] < 128 {
            if frame[1] < 2 + count {
                return None;
            }
        } else if frame.len() >= 3 && (frame[1] - 128) as u16 * 256 + (frame[2] as u16) < 3 + count as u16 {
            return None;
        }
    }
    match decode_fast_path_input(frame) {
        Some(pdus) => Some(handle_input(&pdus)),
        None => None,
    }
}

/// The input in a message of the channel for advanced input, or nothing where it is not long enough or
/// not that of a pointer.
pub fn handle_advanced_input(message: &[u8]) -> (r: Option<InputAction>)
    ensures
        match r {
            Some(action) => exists|flags: u64, x: i32, y: i32|
                #[trigger] is_advanced_pointer(message@, flags, x, y) && action == advanced_action(
                    flags,
                    x,
                    y,
                ),
            None => message@.len() < 26 || message@.subrange(0, 2) != le16(2),
        },
{
    match decode_advanced_input(message) {
        Some(pdu) => {
            let action = input_action(pdu);
            proof {
                if let InputPdu::Advanced { flags, x, y } = pdu {
                    assert(is_advanced_pointer(message@, flags, x, y));
                    assert(action == advanced_action(flags, x, y));
                }
            }
            Some(action)
        },
        None => None,
    }
}

/// What data on the channel for input and output lead to. Data that are not of the protocol lead nowhere.
pub open spec fn io_outcome(data: Seq<u8>) -> Option<OutcomeModel> {
    match io_message(data) {
        Some(IoPdu::Input) => Some(
            OutcomeModel::Input(meanings(slow_path_input(data.skip(IO_HEADERS as int))->0)),
        ),
        Some(IoPdu::ShutdownRequest) => Some(OutcomeModel::Disconnect),
        Some(_) => Some(OutcomeModel::Proceed),
        None => None,
    }
}

/// What data on the channel for input and output lead to, and whether updates are held back after them.
pub fn handle_io_channel_data(suppressed: &mut bool, data: &[u8]) -> (r: Option<Outcome>)
    ensures
        match r {
            Some(outcome) => io_outcome(data@) == Some(outcome@),
            None => io_outcome(data@) is None,
        },
        *final(suppressed) == match io_message(data@) {
            Some(pdu) => held_back(*old(suppressed), pdu),
            None => *old(suppressed),
        },
{
    let pdu = match decode_io_message(data) {
        Some(pdu) => pdu,
        None => return None,
    };
    match io_channel_step(suppressed, pdu) {
        IoStep::HandleInput => {
            let list = slice_subrange(data, IO_HEADERS, data.len());
            assert(list@ =~= data@.skip(IO_HEADERS as int));
            match decode_slow_path_input(list) {
                Some(pdus) => Some(Outcome::Input(handle_input(&pdus))),
                None => None,
            }
        },
        IoStep::Disconnect => Some(Outcome::Disconnect),
        IoStep::Proceed => Some(Outcome::Proceed),
    }
}

/// What an answer leads to, of the requests that wait for one.
pub open spec fn answered(given: Option<Answer>, waiting: Seq<u16>) -> MessageStep {
    match given {
        Some(Answer::Rtt { sequence_number }) => if waiting.contains(sequence_number) {
            MessageStep::Measured { sequence_number }
        } else {
            MessageStep::Unmatched
        },
        Some(Answer::Other { .. }) => MessageStep::Unmatched,
        None => MessageStep::Unhandled,
    }
}

/// Whether the list holds the number.
fn holds(list: &Vec<u16>, number: u16) -> (r: bool)
    ensures
        r == list@.contains(number),
{
    let mut i: usize = 0;
    while i < list.len()
        invariant
            i <= list@.len(),
            forall|k: int| 0 <= k < i ==> list@[k] != number,
        decreases list@.len() - i,
    {
        if list[i] == number {
            return true;
        }
        i = i + 1;
    }
    false
}

/// What an answer leads to, of the requests that wait for one.
pub fn answer_step(given: Option<Answer>, waiting: &Vec<u16>) -> (r: MessageStep)
    ensures
        r == answered(given, waiting@),
{
    match given {
        Some(Answer::Rtt { sequence_number }) => if holds(waiting, sequence_number) {
            MessageStep::Measured { sequence_number }
        } else {
            MessageStep::Unmatched
        },
        Some(Answer::Other { sequence_number: _ }) => MessageStep::Unmatched,
        None => MessageStep::Unhandled,
    }
}

/// What data on the message channel lead to.
pub fn handle_message_channel_data(data: &[u8], waiting: &Vec<u16>) -> (r: MessageStep)
    ensures
        r == answered(answer(data@), waiting@),
{
    answer_step(decode_answer(data), waiting)
}

/// The channels of a session, by their identifiers.
#[derive(Debug, Clone)]
pub struct Channels {
    pub io_channel_id: u16,
    pub message_channel_id: Option<u16>,
    /// Those of the static channels.
    pub known: Vec<u16>,
    /// Numbers of the requests that wait for an answer on the message channel.
    pub waiting: Vec<u16>,
}

/// What a message leads to.
pub open spec fn message_outcome(message: ClientMessage, data: Seq<u8>, channels: Channels) -> Option<
    OutcomeModel,
> {
    match message {
        ClientMessage::Data { channel_id } => match routed(
            channel_id,
            channels.io_channel_id,
            channels.message_channel_id,
            channels.known@.contains(channel_id),
        ) {
            Route::Io => io_outcome(data),
            Route::Message => Some(
                OutcomeModel::Message(answered(answer(data), channels.waiting@)),
            ),
            Route::Static => Some(OutcomeModel::Channel { channel_id, data }),
            Route::Unknown => Some(OutcomeModel::Unknown { channel_id }),
        },
        ClientMessage::Disconnect(DisconnectReason::UserRequested) => Some(OutcomeModel::Disconnect),
        _ => Some(OutcomeModel::Proceed),
    }
}

/// Whether updates are held back after a message.
pub open spec fn held_back_after(
    suppressed: bool,
    message: ClientMessage,
    data: Seq<u8>,
    io_channel_id: u16,
) -> bool {
    if message == (ClientMessage::Data { channel_id: io_channel_id }) {
        match io_message(data) {
            Some(pdu) => held_back(suppressed, pdu),
            None => suppressed,
        }
    } else {
        suppressed
    }
}

/// What a message leads to, and whether updates are held back after it.
pub fn handle_message(
    suppressed: &mut bool,
    message: ClientMessage,
    data: Vec<u8>,
    channels: &Channels,
) -> (r: Option<Outcome>)
    ensures
        match r {
            Some(outcome) => message_outcome(message, data@, *channels) == Some(outcome@),
            None => message_outcome(message, data@, *channels) is None,
        },
        *final(suppressed) == held_back_after(
            *old(suppressed),
            message,
            data@,
            channels.io_channel_id,
        ),
{
    match message {
        ClientMessage::Data { channel_id } => match route(
            channel_id,
            channels.io_channel_id,
            channels.message_channel_id,
            holds(&channels.known, channel_id),
        ) {
            Route::Io => handle_io_channel_data(suppressed, data.as_slice()),
            Route::Message => Some(
                Outcome::Message(handle_message_channel_data(data.as_slice(), &channels.waiting)),
            ),
            Route::Static => Some(Outcome::Channel { channel_id, data }),
            Route::Unknown => Some(Outcome::Unknown { channel_id }),
        },
        ClientMessage::Disconnect(reason) => if ends_session(reason) {
            Some(Outcome::Disconnect)
        } else {
            Some(Outcome::Proceed)
        },
        ClientMessage::Other => Some(Outcome::Proceed),
    }
}

/// What a frame outside the fast path leads to, and whether updates are held back after it. A frame that
/// is not of the protocol leads nowhere and changes nothing.
pub fn handle_x224(suppressed: &mut bool, frame: &[u8], channels: &Channels) -> (r: Option<Outcome>)
    ensures
        match client_message(frame@) {
            Some((message, data)) => {
                &&& match r {
                    Some(outcome) => message_outcome(message, data, *channels) == Some(outcome@),
                    None => message_outcome(message, data, *channels) is None,
                }
                &&& *final(suppressed) == held_back_after(
                    *old(suppressed),
                    message,
                    data,
                    channels.io_channel_id,
                )
            },
            None => r is None && *final(suppressed) == *old(suppressed),
        },
{
    match decode_client_message(frame) {
        Some((message, data)) => handle_message(suppressed, message, data, channels),
        None => None,
    }
}

/// The message that asks a client to answer at once.
pub fn encode_autodetect_request(
    sequence_number: u16,
    request_type: u16,
    message_channel_id: u16,
    user_channel_id: u16,
) -> (r: Option<Vec<u8>>)
    ensures
        match r {
            Some(bytes) => user_channel_id >= BASE_CHANNEL_ID && bytes@ == indication_bytes(
                user_channel_id as int,
                message_channel_id as int,
                rtt_request_bytes(sequence_number as int, request_type as int),
            ),
            None => user_channel_id < BASE_CHANNEL_ID,
        },
{
    match encode_rtt_request(sequence_number, request_type) {
        Some(data) => {
            assert(data@.len() == 10);
            encode_indication(user_channel_id, message_channel_id, data.as_slice())
        },
        None => None,
    }
}

/// What a client is told before it is taken through the activation again is sent on its own channel for input
/// and output, in its own name.
pub proof fn lemma_deactivation_sent(io_channel_id: u16, user_channel_id: u16)
    requires
        user_channel_id >= 1001,
    ensures
        ({
            let bytes = deactivation(io_channel_id as int, user_channel_id as int);
            &&& bytes[2] * 256 + bytes[3] == bytes.len()
            &&& bytes[8] * 256 + bytes[9] + 1001 == user_channel_id
            &&& bytes[10] * 256 + bytes[11] == io_channel_id
            &&& bytes.skip(bytes.len() - 13) == deactivate_all_bytes(io_channel_id as int)
        }),
{
    lemma_indication_fields(
        user_channel_id as int,
        io_channel_id as int,
        deactivate_all_bytes(io_channel_id as int),
    );
}

/// A client that is turned away is told so, by the number 7 in four bytes, on its own channel for input and
/// output and in its own name.
pub proof fn lemma_denial_sent(io_channel_id: u16, user_channel_id: u16)
    requires
        user_channel_id >= 1001,
    ensures
        ({
            let bytes = access_denied(io_channel_id as int, user_channel_id as int);
            &&& bytes[2] * 256 + bytes[3] == bytes.len()
            &&& bytes[8] * 256 + bytes[9] + 1001 == user_channel_id
            &&& bytes[10] * 256 + bytes[11] == io_channel_id
            &&& bytes.skip(bytes.len() - 4) == seq![7u8, 0u8, 0u8, 0u8]
        }),
{
    lemma_seven();
    lemma_indication_fields(user_channel_id as int, io_channel_id as int, seq![7u8, 0u8, 0u8, 0u8]);
}

proof fn lemma_seven()
    ensures
        le32(DENIED_CONNECTION as int) == seq![7u8, 0u8, 0u8, 0u8],
{
    assert(le32(DENIED_CONNECTION as int) =~= seq![7u8, 0u8, 0u8, 0u8]);
}

/// A wave is dropped only where four newer ones are in the batch, and at least the last four are sent; a
/// batch of no more than four is sent whole.
pub proof fn lemma_last_four_waves(events: Seq<ServerEventKind>, channels: ChannelState, i: int)
    requires
        channels.rdpsnd,
        0 <= i < events.len(),
        events[i] is Wave,
    ensures
        event_action(events, channels, i) is SendSound <==> waves(events, events.len() as int) - waves(
            events,
            i + 1,
        ) <= 3,
        waves(events, events.len() as int) <= 4 ==> event_action(events, channels, i) is SendSound,
{
    lemma_waves_grow(events, 0, i);
}

/// What is done with an event that is no wave goes by its kind and the ways that are open, whatever else is
/// in the batch. Nothing is sent on a way that is not open.
pub proof fn lemma_events_by_themselves(
    events: Seq<ServerEventKind>,
    i: int,
    others: Seq<ServerEventKind>,
    j: int,
    channels: ChannelState,
)
    requires
        0 <= i < events.len(),
        0 <= j < others.len(),
        events[i] == others[j],
    ensures
        !(events[i] is Wave) ==> event_action(events, channels, i) == event_action(others, channels, j),
        !channels.rdpsnd ==> !(event_action(events, channels, i) is SendSound),
        !channels.cliprdr ==> !(event_action(events, channels, i) is SendClipboard),
        !channels.drdynvc ==> !(event_action(events, channels, i) is SendEcho) && !(event_action(
            events,
            channels,
            i,
        ) is SendEgfx),
        !channels.autodetect || !channels.message ==> !(event_action(events, channels, i) is SendRttRequest),
        event_action(events, channels, i) is SendSound ==> events[i] is Wave || events[i] is SetVolume
            || events[i] is CloseSound,
        event_action(events, channels, i) is SendClipboard <==> events[i] is Clipboard
            && channels.cliprdr,
        event_action(events, channels, i) is SendEgfx <==> events[i] is Egfx && channels.drdynvc,
        event_action(events, channels, i) is Disconnect <==> events[i] is Quit,
        event_action(events, channels, i) is Fail <==> events[i] is Egfx && !channels.drdynvc,
{
}

/// Data goes where its channel is, whole: what comes on a static channel is handed to it as it came, and the
/// channels for input and output and for messages come first. Only the user can end the session by a message.
pub proof fn lemma_messages_routed(message: ClientMessage, data: Seq<u8>, channels: Channels)
    ensures
        match message {
            ClientMessage::Data { channel_id } => {
                let outcome = message_outcome(message, data, channels);
                &&& channel_id == channels.io_channel_id ==> outcome == io_outcome(data)
                &&& channel_id != channels.io_channel_id && channels.message_channel_id == Some(channel_id)
                    ==> outcome == Some(
                    OutcomeModel::Message(answered(answer(data), channels.waiting@)),
                )
                &&& channel_id != channels.io_channel_id && channels.message_channel_id != Some(channel_id)
                    ==> outcome == Some(
                    if channels.known@.contains(channel_id) {
                        OutcomeModel::Channel { channel_id, data }
                    } else {
                        OutcomeModel::Unknown { channel_id }
                    },
                )
            },
            ClientMessage::Disconnect(reason) => message_outcome(message, data, channels) == Some(
                if reason is UserRequested {
                    OutcomeModel::Disconnect
                } else {
                    OutcomeModel::Proceed
                },
            ),
            ClientMessage::Other => message_outcome(message, data, channels) == Some(
                OutcomeModel::Proceed,
            ),
        },
{
}

/// An answer is taken for the request with its number, where that waits for one, and for no other.
pub proof fn lemma_answers_matched(number: u16, waiting: Seq<u16>)
    ensures
        answered(Some(Answer::Rtt { sequence_number: number }), waiting) == if exists|i: int|
            0 <= i < waiting.len() && waiting[i] == number {
            MessageStep::Measured { sequence_number: number }
        } else {
            MessageStep::Unmatched
        },
{
}

/// A client that is minimized has updates held back from then on, and keys and the mouse do not bring them
/// back. Only a request to shut down ends the session on the channel for input and output, and only units of
/// input are input.
pub proof fn lemma_updates_held(suppressed: bool, data: Seq<u8>)
    ensures
        held_back(suppressed, IoPdu::SuppressOutput { desktop_rect: false }),
        held_back(suppressed, IoPdu::Input) == suppressed,
        held_back(suppressed, IoPdu::Other) == suppressed,
        io_outcome(data) is None <==> io_message(data) is None,
        io_outcome(data) == Some(OutcomeModel::Disconnect) <==> io_message(data) == Some(
            IoPdu::ShutdownRequest,
        ),
        io_message(data) == Some(IoPdu::Input) ==> io_outcome(data) == Some(
            OutcomeModel::Input(meanings(slow_path_input(data.skip(18))->0)),
        ),
{
}

} // verus!
