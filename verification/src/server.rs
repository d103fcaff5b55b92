//! What the server offers, and how connections come about.

use vstd::prelude::*;

use crate::encoder::{EntropyBits, UpdateEncoderCodecs};
use crate::frame::DesktopSize;

verus! {

/// Connections that may wait to be accepted.
pub const LISTENER_BACKLOG: u32 = 1024;

/// The largest update that a client may be asked to put together.
pub const DEFAULT_MAX_REQUEST_SIZE: u32 = 8_388_608;

/// What follows the end of a connection.
#[derive(Debug, Clone, Copy, PartialEq, Eq, Structural)]
pub enum PostConnectionAction {
    /// Further connections are accepted.
    Continue,
    /// The server stops accepting connections.
    Stop,
}

/// Who has the transport encrypted.
#[derive(Debug, Clone, Copy, PartialEq, Eq, Structural)]
pub enum TransportTls {
    /// The server does, with a handshake of its own.
    Managed,
    /// A lower layer already has.
    AlreadyDone,
}

/// How a connection is secured.
#[derive(Debug, Clone)]
pub enum RdpServerSecurity {
    /// Not at all.
    Plain,
    /// By TLS.
    Tls,
    /// By TLS with the server's public key in the negotiation of credentials.
    Hybrid(Vec<u8>),
}

/// Bit of the TLS protocol.
pub const PROTOCOL_SSL: u32 = 1;

/// Bit of the hybrid protocol.
pub const PROTOCOL_HYBRID: u32 = 2;

/// Bit of the extended hybrid protocol.
pub const PROTOCOL_HYBRID_EX: u32 = 8;

impl RdpServerSecurity {
    /// The bits of the protocols that the server offers.
    pub fn flag(&self) -> (r: u32)
        ensures
            r == match self {
                RdpServerSecurity::Plain => 0,
                RdpServerSecurity::Tls => PROTOCOL_SSL,
                RdpServerSecurity::Hybrid(_) => PROTOCOL_HYBRID | PROTOCOL_HYBRID_EX,
            },
    {
        match self {
            RdpServerSecurity::Plain => 0,
            RdpServerSecurity::Tls => PROTOCOL_SSL,
            RdpServerSecurity::Hybrid(_) => PROTOCOL_HYBRID | PROTOCOL_HYBRID_EX,
        }
    }

    /// Whether credentials are negotiated once the transport is encrypted.
    pub fn negotiates_credentials(&self) -> (r: bool)
        ensures
            r == (self is Hybrid),
    {
        match self {
            RdpServerSecurity::Hybrid(_) => true,
            _ => false,
        }
    }
}

/// Where the first part of the negotiation led.
#[derive(Debug, Clone, Copy, PartialEq, Eq, Structural)]
pub enum BeginOutcome {
    /// The transport has to be encrypted.
    ShouldUpgrade,
    /// The negotiation goes on as it is.
    Proceed,
}

/// How the negotiation goes on.
#[derive(Debug, Clone, Copy, PartialEq, Eq, Structural)]
pub enum UpgradeStep {
    /// With a TLS handshake.
    Handshake,
    /// With the transport taken for encrypted.
    TakeAsUpgraded,
    /// As it is.
    Finalize,
}

/// How the negotiation goes on after its first part.
///
/// Only a server that secures its connections is asked to encrypt the transport itself.
pub fn upgrade_step(outcome: BeginOutcome, tls: TransportTls, security: &RdpServerSecurity) -> (r:
    UpgradeStep)
    requires
        outcome is ShouldUpgrade && tls is Managed ==> !(security is Plain),
    ensures
        r == match (outcome, tls) {
            (BeginOutcome::ShouldUpgrade, TransportTls::Managed) => UpgradeStep::Handshake,
            (BeginOutcome::ShouldUpgrade, TransportTls::AlreadyDone) => UpgradeStep::TakeAsUpgraded,
            (BeginOutcome::Proceed, _) => UpgradeStep::Finalize,
        },
{
    match outcome {
        BeginOutcome::ShouldUpgrade => match tls {
            TransportTls::Managed => UpgradeStep::Handshake,
            TransportTls::AlreadyDone => UpgradeStep::TakeAsUpgraded,
        },
        BeginOutcome::Proceed => UpgradeStep::Finalize,
    }
}

/// What happens while a server listens.
#[derive(Debug, Clone, Copy, PartialEq, Eq, Structural)]
pub enum ListenEvent {
    Quit,
    GetLocalAddr,
    SetCredentials,
    /// An event that only a session can deal with.
    SessionEvent,
    /// A connection, which the handler of connections takes or not.
    Connection { accepted: bool },
    /// A connection is over, and the handler of connections has said what follows.
    Disconnected { action: PostConnectionAction },
    /// Neither events nor connections can come any more.
    Closed,
}

/// What a server that listens does.
#[derive(Debug, Clone, Copy, PartialEq, Eq, Structural)]
pub enum ListenStep {
    Stop,
    ReplyLocalAddr,
    SetCredentials,
    Ignore,
    /// Drop the connection.
    Refuse,
    /// Run a session of its own for the connection, beside those that run already.
    Serve,
    /// Go on listening.
    Proceed,
}

/// What a server that listens does with what happens.
pub open spec fn listened(event: ListenEvent) -> ListenStep {
    match event {
        ListenEvent::Quit | ListenEvent::Closed => ListenStep::Stop,
        ListenEvent::GetLocalAddr => ListenStep::ReplyLocalAddr,
        ListenEvent::SetCredentials => ListenStep::SetCredentials,
        ListenEvent::SessionEvent => ListenStep::Ignore,
        ListenEvent::Connection { accepted } => if accepted {
            ListenStep::Serve
        } else {
            ListenStep::Refuse
        },
        ListenEvent::Disconnected { action: PostConnectionAction::Stop } => ListenStep::Stop,
        ListenEvent::Disconnected { action: PostConnectionAction::Continue } => ListenStep::Proceed,
    }
}

/// A server listens until it is told to stop, by an event or by what follows a connection, and every connection
/// that is accepted is served.
pub proof fn lemma_listening(event: ListenEvent)
    ensures
        listened(event) is Stop <==> event is Quit || event is Closed || event == (
        ListenEvent::Disconnected { action: PostConnectionAction::Stop }),
        listened(event) is Serve <==> event == (ListenEvent::Connection { accepted: true }),
        listened(event) is Refuse <==> event == (ListenEvent::Connection { accepted: false }),
        listened(event) is SetCredentials <==> event is SetCredentials,
        listened(event) is ReplyLocalAddr <==> event is GetLocalAddr,
{
}

/// What a server that listens does with what happens.
pub fn listen_step(event: ListenEvent) -> (r: ListenStep)
    ensures
        r == listened(event),
{
    match event {
        ListenEvent::Quit | ListenEvent::Closed => ListenStep::Stop,
        ListenEvent::GetLocalAddr => ListenStep::ReplyLocalAddr,
        ListenEvent::SetCredentials => ListenStep::SetCredentials,
        ListenEvent::SessionEvent => ListenStep::Ignore,
        ListenEvent::Connection { accepted } => if accepted {
            ListenStep::Serve
        } else {
            ListenStep::Refuse
        },
        ListenEvent::Disconnected { action } => match action {
            PostConnectionAction::Stop => ListenStep::Stop,
            PostConnectionAction::Continue => ListenStep::Proceed,
        },
    }
}

/// Bitmap codecs that a server can offer.
#[derive(Debug, Clone, Copy, PartialEq, Eq, Structural)]
pub enum CodecKind {
    RemoteFx,
    ImageRemoteFx,
    NsCodec,
    Qoi,
    QoiZ,
    Other,
}

/// What a server offers.
#[derive(Debug, Clone)]
pub struct RdpServerOptions {
    pub security: RdpServerSecurity,
    pub codecs: Vec<CodecKind>,
    pub max_request_size: u32,
    /// Whether a connection takes the size that the client asks for.
    pub honor_client_desktop_size: bool,
}

impl RdpServerOptions {
    /// Whether the codec is among those on offer.
    pub open spec fn offers(self, kind: CodecKind) -> bool {
        exists|i: int| 0 <= i < self.codecs@.len() && #[trigger] self.codecs@[i] == kind
    }

    /// Whether the codec is among those on offer.
    fn has(&self, kind: CodecKind) -> (r: bool)
        ensures
            r == self.offers(kind),
    {
        let mut i: usize = 0;
        while i < self.codecs.len()
            invariant
                i <= self.codecs@.len(),
                forall|k: int| 0 <= k < i ==> #[trigger] self.codecs@[k] != kind,
            decreases self.codecs@.len() - i,
        {
            if self.codecs[i] == kind {
                return true;
            }
            i = i + 1;
        }
        false
    }

    /// Whether RemoteFX in its image mode is on offer.
    pub fn has_image_remote_fx(&self) -> (r: bool)
        ensures
            r == self.offers(CodecKind::ImageRemoteFx),
    {
        self.has(CodecKind::ImageRemoteFx)
    }

    /// Whether RemoteFX is on offer.
    pub fn has_remote_fx(&self) -> (r: bool)
        ensures
            r == self.offers(CodecKind::RemoteFx),
    {
        self.has(CodecKind::RemoteFx)
    }

    /// Whether the Quite OK Image format is on offer.
    pub fn has_qoi(&self) -> (r: bool)
        ensures
            r == self.offers(CodecKind::Qoi),
    {
        self.has(CodecKind::Qoi)
    }

    /// Whether the compressed Quite OK Image format is on offer.
    pub fn has_qoiz(&self) -> (r: bool)
        ensures
            r == self.offers(CodecKind::QoiZ),
    {
        self.has(CodecKind::QoiZ)
    }

    /// Whether NSCodec is on offer.
    pub fn has_nscodec(&self) -> (r: bool)
        ensures
            r == self.offers(CodecKind::NsCodec),
    {
        self.has(CodecKind::NsCodec)
    }
}

/// What a client can make of a codec.
#[derive(Debug, Clone)]
pub enum ClientCodecProperty {
    /// The entropy coders it knows.
    RemoteFx(Vec<EntropyBits>),
    /// The entropy coders it knows.
    ImageRemoteFx(Vec<EntropyBits>),
    /// The level of colour loss it decodes.
    NsCodec(u8),
    Qoi,
    QoiZ,
    Other,
}

/// A codec that a client knows.
#[derive(Debug, Clone)]
pub struct ClientCodec {
    pub id: u8,
    pub property: ClientCodecProperty,
}

/// What a client says of itself.
#[derive(Debug, Clone)]
pub enum ClientCapability {
    General { fastpath_output: bool },
    Bitmap { desktop_resize: bool, size: DesktopSize },
    SurfaceCommands { flags: u32 },
    BitmapCodecs(Vec<ClientCodec>),
    Other,
}

/// What was agreed on, or how far it came.
pub struct Negotiated {
    /// Sizes that the display is asked to take, in this order.
    pub sizes: Vec<DesktopSize>,
    pub surface_flags: u32,
    pub codecs: UpdateEncoderCodecs,
    /// Whether the client can be served at all: it has to take fast-path output.
    pub fastpath: bool,
}

/// What [`Negotiated`] stands for.
pub struct NegotiatedModel {
    pub sizes: Seq<DesktopSize>,
    pub surface_flags: u32,
    pub codecs: UpdateEncoderCodecs,
    pub fastpath: bool,
}

impl View for Negotiated {
    type V = NegotiatedModel;

    open spec fn view(&self) -> NegotiatedModel {
        NegotiatedModel {
            sizes: self.sizes@,
            surface_flags: self.surface_flags,
            codecs: self.codecs,
            fastpath: self.fastpath,
        }
    }
}

/// The codecs once that one of the client's has been noted. Of several entropy coders the last
/// counts.
pub open spec fn with_codec(
    options: RdpServerOptions,
    codecs: UpdateEncoderCodecs,
    codec: ClientCodec,
) -> UpdateEncoderCodecs {
    match codec.property {
        ClientCodecProperty::RemoteFx(caps) => if options.offers(CodecKind::RemoteFx) && caps@.len() > 0 {
            UpdateEncoderCodecs { remotefx: Some((caps@.last(), codec.id)), ..codecs }
        } else {
            codecs
        },
        ClientCodecProperty::ImageRemoteFx(caps) => if options.offers(CodecKind::ImageRemoteFx)
            && caps@.len() > 0 {
            UpdateEncoderCodecs { remotefx: Some((caps@.last(), codec.id)), ..codecs }
        } else {
            codecs
        },
        ClientCodecProperty::NsCodec(level) => if options.offers(CodecKind::NsCodec) {
            UpdateEncoderCodecs { nscodec: Some((codec.id, level)), ..codecs }
        } else {
            codecs
        },
        ClientCodecProperty::Qoi => if options.offers(CodecKind::Qoi) {
            UpdateEncoderCodecs { qoi: Some(codec.id), ..codecs }
        } else {
            codecs
        },
        ClientCodecProperty::QoiZ => if options.offers(CodecKind::QoiZ) {
            UpdateEncoderCodecs { qoiz: Some(codec.id), ..codecs }
        } else {
            codecs
        },
        ClientCodecProperty::Other => codecs,
    }
}

/// The codecs once that the first `n` of the client's have been noted.
pub open spec fn with_codecs(
    options: RdpServerOptions,
    codecs: UpdateEncoderCodecs,
    list: Seq<ClientCodec>,
    n: int,
) -> UpdateEncoderCodecs
    decreases n,
{
    if n <= 0 {
        codecs
    } else {
        with_codec(options, with_codecs(options, codecs, list, n - 1), list[n - 1])
    }
}

/// What the first `n` things that a client says of itself amount to.
///
/// Nothing more counts once the client turns out not to take fast-path output.
pub open spec fn negotiated(
    options: RdpServerOptions,
    capabilities: Seq<ClientCapability>,
    n: int,
) -> NegotiatedModel
    decreases n,
{
    if n <= 0 {
        NegotiatedModel {
            sizes: Seq::empty(),
            surface_flags: 0,
            codecs: UpdateEncoderCodecs { remotefx: None, qoi: None, qoiz: None, nscodec: None },
            fastpath: true,
        }
    } else {
        let before = negotiated(options, capabilities, n - 1);
        if !before.fastpath {
            before
        } else {
            match capabilities[n - 1] {
                ClientCapability::General { fastpath_output } => NegotiatedModel {
                    fastpath: fastpath_output,
                    ..before
                },
                ClientCapability::Bitmap { desktop_resize, size } => if desktop_resize {
                    NegotiatedModel { sizes: before.sizes.push(size), ..before }
                } else {
                    before
                },
                ClientCapability::SurfaceCommands { flags } => NegotiatedModel {
                    surface_flags: flags,
                    ..before
                },
                ClientCapability::BitmapCodecs(list) => NegotiatedModel {
                    codecs: with_codecs(options, before.codecs, list@, list@.len() as int),
                    ..before
                },
                ClientCapability::Other => before,
            }
        }
    }
}

/// Notes a codec of the client.
fn note_codec(options: &RdpServerOptions, codecs: &mut UpdateEncoderCodecs, codec: &ClientCodec)
    ensures
        *final(codecs) == with_codec(*options, *old(codecs), *codec),
{
    match &codec.property {
        ClientCodecProperty::RemoteFx(caps) => {
            if options.has_remote_fx() && caps.len() > 0 {
                codecs.set_remotefx(Some((caps[caps.len() - 1], codec.id)));
            }
        },
        ClientCodecProperty::ImageRemoteFx(caps) => {
            if options.has_image_remote_fx() && caps.len() > 0 {
                codecs.set_remotefx(Some((caps[caps.len() - 1], codec.id)));
            }
        },
        ClientCodecProperty::NsCodec(level) => {
            if options.has_nscodec() {
                codecs.set_nscodec(Some((codec.id, *level)));
            }
        },
        ClientCodecProperty::Qoi => {
            if options.has_qoi() {
                codecs.set_qoi(Some(codec.id));
            }
        },
        ClientCodecProperty::QoiZ => {
            if options.has_qoiz() {
                codecs.set_qoiz(Some(codec.id));
            }
        },
        ClientCodecProperty::Other => {},
    }
}

proof fn lemma_negotiation_ends(
    options: RdpServerOptions,
    capabilities: Seq<ClientCapability>,
    i: int,
    n: int,
)
    requires
        0 <= i <= n,
        !negotiated(options, capabilities, i).fastpath,
    ensures
        negotiated(options, capabilities, n) == negotiated(options, capabilities, i),
    decreases n,
{
    if i < n {
        lemma_negotiation_ends(options, capabilities, i, n - 1);
    }
}

/// Goes through what a client says of itself.
pub fn negotiate(options: &RdpServerOptions, capabilities: &Vec<ClientCapability>) -> (r: Negotiated)
    ensures
        r@ == negotiated(*options, capabilities@, capabilities@.len() as int),
{
    let mut sizes: Vec<DesktopSize> = Vec::new();
    let mut surface_flags: u32 = 0;
    let mut codecs = UpdateEncoderCodecs::new();
    let mut i: usize = 0;
    while i < capabilities.len()
        invariant
            i <= capabilities@.len(),
            negotiated(*options, capabilities@, i as int) == (NegotiatedModel {
                sizes: sizes@,
                surface_flags,
                codecs,
                fastpath: true,
            }),
        decreases capabilities@.len() - i,
    {
        match &capabilities[i] {
            ClientCapability::General { fastpath_output } => {
                if !*fastpath_output {
                    proof {
                        lemma_negotiation_ends(
                            *options,
                            capabilities@,
                            i + 1,
                            capabilities@.len() as int,
                        );
                    }
                    return Negotiated { sizes, surface_flags, codecs, fastpath: false };
                }
            },
            ClientCapability::Bitmap { desktop_resize, size } => {
                if *desktop_resize {
                    sizes.push(*size);
                }
            },
            ClientCapability::SurfaceCommands { flags } => {
                surface_flags = *flags;
            },
            ClientCapability::BitmapCodecs(list) => {
                let ghost before = codecs;
                let mut k: usize = 0;
                while k < list.len()
                    invariant
                        k <= list@.len(),
                        codecs == with_codecs(*options, before, list@, k as int),
                    decreases list@.len() - k,
                {
                    note_codec(options, &mut codecs, &list[k]);
                    k = k + 1;
                }
            },
            ClientCapability::Other => {},
        }
        i = i + 1;
    }
    Negotiated { sizes, surface_flags, codecs, fastpath: true }
}

/// Whether the display is larger than what the client said it can show, so that updates will not
/// fit.
pub fn client_too_small(client: DesktopSize, display: DesktopSize) -> (r: bool)
    ensures
        r == (client.width < display.width || client.height < display.height),
{
    client.width < display.width || client.height < display.height
}

/// Codecs that are not on offer are never agreed on.
pub proof fn lemma_only_offered(
    options: RdpServerOptions,
    capabilities: Seq<ClientCapability>,
    n: int,
)
    ensures
        ({
            let codecs = negotiated(options, capabilities, n).codecs;
            &&& codecs.remotefx is Some ==> options.offers(CodecKind::RemoteFx) || options.offers(
                CodecKind::ImageRemoteFx,
            )
            &&& codecs.qoi is Some ==> options.offers(CodecKind::Qoi)
            &&& codecs.qoiz is Some ==> options.offers(CodecKind::QoiZ)
            &&& codecs.nscodec is Some ==> options.offers(CodecKind::NsCodec)
        }),
    decreases n,
{
    if n > 0 {
        lemma_only_offered(options, capabilities, n - 1);
        let before = negotiated(options, capabilities, n - 1);
        if let ClientCapability::BitmapCodecs(list) = capabilities[n - 1] {
            lemma_codecs_offered(options, before.codecs, list@, list@.len() as int);
        }
    }
}

proof fn lemma_codecs_offered(
    options: RdpServerOptions,
    codecs: UpdateEncoderCodecs,
    list: Seq<ClientCodec>,
    n: int,
)
    ensures
        ({
            let after = with_codecs(options, codecs, list, n);
            &&& after.remotefx is Some ==> codecs.remotefx is Some || options.offers(CodecKind::RemoteFx)
                || options.offers(CodecKind::ImageRemoteFx)
            &&& after.qoi is Some ==> codecs.qoi is Some || options.offers(CodecKind::Qoi)
            &&& after.qoiz is Some ==> codecs.qoiz is Some || options.offers(CodecKind::QoiZ)
            &&& after.nscodec is Some ==> codecs.nscodec is Some || options.offers(CodecKind::NsCodec)
        }),
    decreases n,
{
    if n > 0 {
        lemma_codecs_offered(options, codecs, list, n - 1);
    }
}

/// A client is served exactly if nothing that it says of itself is that it does not take fast-path output.
pub proof fn lemma_served(options: RdpServerOptions, capabilities: Seq<ClientCapability>, n: int)
    requires
        0 <= n <= capabilities.len(),
    ensures
        negotiated(options, capabilities, n).fastpath <==> forall|k: int|
            0 <= k < n ==> !(#[trigger] capabilities[k] matches ClientCapability::General {
                fastpath_output,
            } && !fastpath_output),
    decreases n,
{
    if n > 0 {
        lemma_served(options, capabilities, n - 1);
        if !negotiated(options, capabilities, n - 1).fastpath {
            let k = choose|k: int|
                0 <= k < n - 1 && (#[trigger] capabilities[k] matches ClientCapability::General {
                    fastpath_output,
                } && !fastpath_output);
            assert(capabilities[k] is General);
        }
    }
}

/// What a client that is served says counts: the last flags of surface commands, and every size that it can
/// be shown, in their order.
pub proof fn lemma_said_last(
    options: RdpServerOptions,
    capabilities: Seq<ClientCapability>,
    n: int,
    flags: u32,
    size: DesktopSize,
)
    requires
        0 < n <= capabilities.len(),
        negotiated(options, capabilities, n - 1).fastpath,
    ensures
        capabilities[n - 1] == (ClientCapability::SurfaceCommands { flags }) ==> negotiated(
            options,
            capabilities,
            n,
        ).surface_flags == flags,
        !(capabilities[n - 1] is SurfaceCommands) ==> negotiated(options, capabilities, n).surface_flags
            == negotiated(options, capabilities, n - 1).surface_flags,
        capabilities[n - 1] == (ClientCapability::Bitmap { desktop_resize: true, size }) ==> negotiated(
            options,
            capabilities,
            n,
        ).sizes == negotiated(options, capabilities, n - 1).sizes.push(size),
        !(capabilities[n - 1] is Bitmap) ==> negotiated(options, capabilities, n).sizes == negotiated(
            options,
            capabilities,
            n - 1,
        ).sizes,
        !(capabilities[n - 1] is BitmapCodecs) ==> negotiated(options, capabilities, n).codecs
            == negotiated(options, capabilities, n - 1).codecs,
{
}

/// A codec that both know is agreed on, under the number that the client gives it: of several of a kind in
/// the client's list the last one counts.
pub proof fn lemma_both_know(
    options: RdpServerOptions,
    codecs: UpdateEncoderCodecs,
    list: Seq<ClientCodec>,
    at: int,
    n: int,
)
    requires
        0 <= at < n <= list.len(),
    ensures
        options.offers(CodecKind::Qoi) && list[at].property is Qoi && (forall|k: int|
            at < k < n ==> !((#[trigger] list[k]).property is Qoi)) ==> with_codecs(
            options,
            codecs,
            list,
            n,
        ).qoi == Some(list[at].id),
        options.offers(CodecKind::QoiZ) && list[at].property is QoiZ && (forall|k: int|
            at < k < n ==> !((#[trigger] list[k]).property is QoiZ)) ==> with_codecs(
            options,
            codecs,
            list,
            n,
        ).qoiz == Some(list[at].id),
        options.offers(CodecKind::NsCodec) && list[at].property is NsCodec && (forall|k: int|
            at < k < n ==> !((#[trigger] list[k]).property is NsCodec)) ==> with_codecs(
            options,
            codecs,
            list,
            n,
        ).nscodec == Some((list[at].id, list[at].property->NsCodec_0)),
    decreases n,
{
    if at < n - 1 {
        lemma_both_know(options, codecs, list, at, n - 1);
        assert(list[n - 1] == list[n - 1]);
    }
}

} // verus!
