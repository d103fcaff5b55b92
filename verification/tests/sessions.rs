//! Sessions and how they come about.

use mac_rdp_server::credentials::CredentialDecision;
use mac_rdp_server::decode::{DisconnectReason, IoPdu};
use mac_rdp_server::diagnostics::{count_non_zero, percent_non_zero, Diagnostics};
use mac_rdp_server::encoder::{DisplayUpdate, EncoderState, EntropyBits, UpdateEncoder, UpdateEncoderCodecs};
use mac_rdp_server::fast_path::Fragmentation;
use mac_rdp_server::frame::DesktopSize;
use mac_rdp_server::server::{
    client_too_small, listen_step, negotiate, upgrade_step, BeginOutcome, ClientCapability, ClientCodec,
    ClientCodecProperty, CodecKind, ListenEvent, ListenStep, PostConnectionAction, RdpServerOptions,
    RdpServerSecurity, TransportTls, UpgradeStep,
};
use mac_rdp_server::session::{
    access_denied_message, client_accepted, client_loop_step, credential_gate, deactivate_all,
    dispatch_display_update, dispatch_pdu, dispatch_server_events, encode_autodetect_request,
    ends_session, finalize_step, frame_action, io_channel_step, route, Accepted, Action, ChannelState,
    CredentialCheck, Denial, DisplayStep, EventAction, FinalizeStep, Gate, IoStep, LoopEvent, Route,
    RunState, ServerEventKind,
};

fn options(codecs: Vec<CodecKind>) -> RdpServerOptions {
    RdpServerOptions {
        security: RdpServerSecurity::Tls,
        codecs,
        max_request_size: 8 * 1024 * 1024,
        honor_client_desktop_size: true,
    }
}

fn all_channels() -> ChannelState {
    ChannelState {
        rdpsnd: true,
        cliprdr: true,
        drdynvc: true,
        echo: true,
        echo_opened: true,
        autodetect: true,
        message: true,
    }
}

#[test]
fn stale_sound_is_dropped() {
    let mut events = vec![ServerEventKind::Wave; 6];
    events.insert(3, ServerEventKind::SetVolume);
    let actions = dispatch_server_events(&events, all_channels());
    assert_eq!(
        actions,
        vec![
            EventAction::Drop,
            EventAction::Drop,
            EventAction::SendSound,
            EventAction::SendSound,
            EventAction::SendSound,
            EventAction::SendSound,
            EventAction::SendSound,
        ]
    );
    let few = vec![ServerEventKind::Wave; 4];
    assert_eq!(dispatch_server_events(&few, all_channels()), vec![EventAction::SendSound; 4]);
}

#[test]
fn events_without_a_channel_are_dropped() {
    let closed = ChannelState {
        rdpsnd: false,
        cliprdr: false,
        drdynvc: false,
        echo: false,
        echo_opened: false,
        autodetect: false,
        message: false,
    };
    let events = vec![
        ServerEventKind::Wave,
        ServerEventKind::CloseSound,
        ServerEventKind::Clipboard,
        ServerEventKind::Echo,
        ServerEventKind::AutoDetectRttRequest,
        ServerEventKind::GetLocalAddr,
        ServerEventKind::SetCredentials,
        ServerEventKind::Egfx,
        ServerEventKind::Quit,
    ];
    assert_eq!(
        dispatch_server_events(&events, closed),
        vec![
            EventAction::Drop,
            EventAction::Drop,
            EventAction::Drop,
            EventAction::Drop,
            EventAction::Drop,
            EventAction::ReplyLocalAddr,
            EventAction::SetCredentials,
            EventAction::Fail,
        ]
    );
    let events = vec![
        ServerEventKind::Clipboard,
        ServerEventKind::ClipboardError,
        ServerEventKind::SoundError,
        ServerEventKind::Echo,
        ServerEventKind::Egfx,
        ServerEventKind::AutoDetectRttRequest,
        ServerEventKind::Quit,
        ServerEventKind::Clipboard,
    ];
    assert_eq!(
        dispatch_server_events(&events, all_channels()),
        vec![
            EventAction::SendClipboard,
            EventAction::Drop,
            EventAction::Drop,
            EventAction::SendEcho,
            EventAction::SendEgfx,
            EventAction::SendRttRequest,
            EventAction::Disconnect,
        ]
    );
}

#[test]
fn a_client_that_is_turned_away_is_told_so() {
    let expected = vec![
        3, 0, 0, 18, 2, 0xF0, 0x80, 0x68, 0, 3, 0x03, 0xEB, 0x70, 4, 7, 0, 0, 0,
    ];
    assert_eq!(access_denied_message(1003, 1004), Some(expected.clone()));
    assert_eq!(access_denied_message(1003, 1000), None);
    for (check, why) in [
        (CredentialCheck::Decided(CredentialDecision::Reject), Denial::Rejected),
        (CredentialCheck::BackendFailed, Denial::BackendFailed),
    ] {
        match credential_gate(check, 1003, 1004) {
            Gate::Open => panic!("let in"),
            Gate::Closed { denial, message } => {
                assert_eq!(denial, why);
                assert_eq!(message, Some(expected.clone()));
            }
        }
        let caps = vec![ClientCapability::General { fastpath_output: true }];
        assert!(matches!(
            client_accepted(&options(vec![]), check, false, &caps, 1003, 1004),
            Accepted::Denied { .. }
        ));
    }
    assert!(matches!(credential_gate(CredentialCheck::Skipped, 1, 2), Gate::Open));
    assert!(matches!(
        credential_gate(CredentialCheck::Decided(CredentialDecision::Accept), 1, 2),
        Gate::Open
    ));
}

#[test]
fn channels_are_started_once() {
    let caps = vec![ClientCapability::General { fastpath_output: true }];
    for reactivation in [false, true] {
        match client_accepted(&options(vec![]), CredentialCheck::Skipped, reactivation, &caps, 1003, 1004) {
            Accepted::Denied { .. } => panic!("turned away"),
            Accepted::Served { start_channels, negotiated } => {
                assert_eq!(start_channels, !reactivation);
                assert!(negotiated.fastpath);
            }
        }
    }
}

#[test]
fn a_new_size_takes_the_client_through_the_activation_again() {
    let size = DesktopSize { width: 800, height: 600 };
    let mut encoder = UpdateEncoder::new(
        DesktopSize { width: 1, height: 1 },
        0,
        UpdateEncoderCodecs::new(),
        1024,
        0,
    );
    match dispatch_display_update(&mut encoder, DisplayUpdate::Resize(size), 1003, 1004) {
        DisplayStep::Send(_) => panic!("sent as an update"),
        DisplayStep::Reactivate { message, state } => {
            assert_eq!(state, RunState::DeactivationReactivation { desktop_size: size });
            assert_eq!(message, deactivate_all(1003, 1004));
            assert_eq!(
                message.unwrap(),
                vec![
                    3, 0, 0, 27, 2, 0xF0, 0x80, 0x68, 0, 3, 0x03, 0xEB, 0x70, 13, 13, 0, 0x16, 0, 0xEB,
                    0x03, 0, 0, 0, 0, 1, 0, 0,
                ]
            );
        }
    }
    assert_eq!(encoder.desktop_size, size);
    match dispatch_display_update(&mut encoder, DisplayUpdate::HidePointer, 1003, 1004) {
        DisplayStep::Send(iter) => {
            assert!(matches!(iter.state, EncoderState::Start(DisplayUpdate::HidePointer)))
        }
        DisplayStep::Reactivate { .. } => panic!("not a change of size"),
    }
}

#[test]
fn round_trips_are_asked_for_on_the_message_channel() {
    assert_eq!(
        encode_autodetect_request(0x0102, 0x0001, 1005, 1002).unwrap(),
        vec![
            3, 0, 0, 24, 2, 0xF0, 0x80, 0x68, 0, 1, 0x03, 0xED, 0x70, 10, 0, 0x10, 0, 0, 6, 0, 2, 1, 1, 0,
        ]
    );
    assert!(encode_autodetect_request(1, 1, 1005, 0).is_none());
}

#[test]
fn capabilities_are_gone_through() {
    let offer = options(vec![CodecKind::RemoteFx, CodecKind::NsCodec]);
    let size = DesktopSize { width: 1024, height: 768 };
    let caps = vec![
        ClientCapability::General { fastpath_output: true },
        ClientCapability::Bitmap { desktop_resize: true, size },
        ClientCapability::Bitmap { desktop_resize: false, size: DesktopSize { width: 1, height: 1 } },
        ClientCapability::SurfaceCommands { flags: 0x52 },
        ClientCapability::BitmapCodecs(vec![
            ClientCodec {
                id: 3,
                property: ClientCodecProperty::RemoteFx(vec![EntropyBits::Rlgr1, EntropyBits::Rlgr3]),
            },
            ClientCodec { id: 4, property: ClientCodecProperty::ImageRemoteFx(vec![EntropyBits::Rlgr1]) },
            ClientCodec { id: 1, property: ClientCodecProperty::NsCodec(3) },
            ClientCodec { id: 9, property: ClientCodecProperty::Qoi },
            ClientCodec { id: 10, property: ClientCodecProperty::QoiZ },
            ClientCodec { id: 11, property: ClientCodecProperty::Other },
        ]),
        ClientCapability::Other,
    ];
    let got = negotiate(&offer, &caps);
    assert!(got.fastpath);
    assert_eq!(got.sizes, vec![size]);
    assert_eq!(got.surface_flags, 0x52);
    assert_eq!(got.codecs.remotefx, Some((EntropyBits::Rlgr3, 3)));
    assert_eq!(got.codecs.nscodec, Some((1, 3)));
    assert_eq!((got.codecs.qoi, got.codecs.qoiz), (None, None));

    let all = options(vec![CodecKind::ImageRemoteFx, CodecKind::Qoi, CodecKind::QoiZ]);
    assert!(all.has_image_remote_fx() && all.has_qoi() && all.has_qoiz());
    assert!(!all.has_remote_fx() && !all.has_nscodec());
    let got = negotiate(&all, &caps);
    assert_eq!(got.codecs.remotefx, Some((EntropyBits::Rlgr1, 4)));
    assert_eq!((got.codecs.qoi, got.codecs.qoiz, got.codecs.nscodec), (Some(9), Some(10), None));
}

#[test]
fn a_client_without_fast_path_output_cannot_be_served() {
    let size = DesktopSize { width: 1024, height: 768 };
    let caps = vec![
        ClientCapability::Bitmap { desktop_resize: true, size },
        ClientCapability::General { fastpath_output: false },
        ClientCapability::SurfaceCommands { flags: 0x52 },
    ];
    let got = negotiate(&options(vec![]), &caps);
    assert!(!got.fastpath);
    assert_eq!(got.sizes, vec![size]);
    assert_eq!(got.surface_flags, 0);
}

#[test]
fn security_and_the_upgrade() {
    assert_eq!(RdpServerSecurity::Plain.flag(), 0);
    assert_eq!(RdpServerSecurity::Tls.flag(), 1);
    assert_eq!(RdpServerSecurity::Hybrid(vec![1]).flag(), 10);
    assert!(RdpServerSecurity::Hybrid(vec![1]).negotiates_credentials());
    assert!(!RdpServerSecurity::Tls.negotiates_credentials());
    let tls = RdpServerSecurity::Tls;
    assert_eq!(
        upgrade_step(BeginOutcome::ShouldUpgrade, TransportTls::Managed, &tls),
        UpgradeStep::Handshake
    );
    assert_eq!(
        upgrade_step(BeginOutcome::ShouldUpgrade, TransportTls::AlreadyDone, &tls),
        UpgradeStep::TakeAsUpgraded
    );
    assert_eq!(
        upgrade_step(BeginOutcome::Proceed, TransportTls::Managed, &RdpServerSecurity::Plain),
        UpgradeStep::Finalize
    );
}

#[test]
fn listening_goes_on_until_it_is_stopped() {
    assert_eq!(listen_step(ListenEvent::Quit), ListenStep::Stop);
    assert_eq!(listen_step(ListenEvent::Closed), ListenStep::Stop);
    assert_eq!(listen_step(ListenEvent::Connection { accepted: true }), ListenStep::Serve);
    assert_eq!(listen_step(ListenEvent::Connection { accepted: false }), ListenStep::Refuse);
    assert_eq!(listen_step(ListenEvent::SessionEvent), ListenStep::Ignore);
    assert_eq!(listen_step(ListenEvent::GetLocalAddr), ListenStep::ReplyLocalAddr);
    assert_eq!(listen_step(ListenEvent::SetCredentials), ListenStep::SetCredentials);
    assert_eq!(
        listen_step(ListenEvent::Disconnected { action: PostConnectionAction::Stop }),
        ListenStep::Stop
    );
    assert_eq!(
        listen_step(ListenEvent::Disconnected { action: PostConnectionAction::Continue }),
        ListenStep::Proceed
    );
}

#[test]
fn sessions_end_where_they_should() {
    let size = DesktopSize { width: 2, height: 2 };
    let again = RunState::DeactivationReactivation { desktop_size: size };
    assert_eq!(client_loop_step(LoopEvent::Pdu(RunState::Continue)), None);
    assert_eq!(client_loop_step(LoopEvent::Update(again)), Some(again));
    assert_eq!(client_loop_step(LoopEvent::Events(RunState::Disconnect)), Some(RunState::Disconnect));
    assert_eq!(client_loop_step(LoopEvent::UpdatesEnded), Some(RunState::Disconnect));
    assert_eq!(client_loop_step(LoopEvent::EventsEnded), Some(RunState::Disconnect));
    assert_eq!(client_loop_step(LoopEvent::UpdateFailed), None);
    assert_eq!(finalize_step(again), FinalizeStep::Reactivate(size));
    assert_eq!(finalize_step(RunState::Disconnect), FinalizeStep::Close);
    assert_eq!(dispatch_pdu(Action::X224, true), RunState::Disconnect);
    assert_eq!(dispatch_pdu(Action::X224, false), RunState::Continue);
    assert_eq!(dispatch_pdu(Action::FastPath, true), RunState::Continue);
    assert!(ends_session(DisconnectReason::UserRequested));
    assert!(!ends_session(DisconnectReason::ProviderInitiated));
}

#[test]
fn frames_and_channels_are_told_apart() {
    for header in 0..=255u8 {
        let expected = match ironrdp_pdu::Action::from_fp_output_header(header) {
            Ok(ironrdp_pdu::Action::FastPath) => Some(Action::FastPath),
            Ok(ironrdp_pdu::Action::X224) => Some(Action::X224),
            Err(_) => None,
        };
        assert_eq!(frame_action(header), expected);
    }
    assert_eq!(route(1003, 1003, Some(1003), true), Route::Io);
    assert_eq!(route(1005, 1003, Some(1005), true), Route::Message);
    assert_eq!(route(1006, 1003, Some(1005), true), Route::Static);
    assert_eq!(route(1006, 1003, None, false), Route::Unknown);
}

#[test]
fn a_minimized_client_has_updates_held_back() {
    let mut suppressed = false;
    assert_eq!(
        io_channel_step(&mut suppressed, IoPdu::SuppressOutput { desktop_rect: false }),
        IoStep::Proceed
    );
    assert!(suppressed);
    assert_eq!(io_channel_step(&mut suppressed, IoPdu::Input), IoStep::HandleInput);
    assert!(suppressed);
    io_channel_step(&mut suppressed, IoPdu::RefreshRectangle);
    assert!(!suppressed);
    io_channel_step(&mut suppressed, IoPdu::SuppressOutput { desktop_rect: false });
    io_channel_step(&mut suppressed, IoPdu::SuppressOutput { desktop_rect: true });
    assert!(!suppressed);
    assert_eq!(io_channel_step(&mut suppressed, IoPdu::ShutdownRequest), IoStep::Disconnect);
    assert_eq!(io_channel_step(&mut suppressed, IoPdu::Other), IoStep::Proceed);
}

#[test]
fn a_client_can_be_too_small() {
    let small = DesktopSize { width: 800, height: 600 };
    let large = DesktopSize { width: 1024, height: 600 };
    assert!(client_too_small(small, large));
    assert!(!client_too_small(large, small));
}

#[test]
fn a_test_client_counts_what_it_sees() {
    let mut seen = Diagnostics::new();
    seen.packet();
    let size = DesktopSize { width: 1, height: 1 };
    seen.rectangle(size, Some(vec![0, 1, 2, 0]));
    seen.rectangle(size, None);
    assert_eq!((seen.fastpath_count, seen.surface_bits_count, seen.non_zero_pixels), (1, 2, 2));
    assert_eq!(seen.failed, vec![size]);
    assert!(!seen.rich());
    seen.rectangle(size, Some(vec![1; 100_000]));
    assert!(seen.rich());
    seen.fastpath_count = u64::MAX;
    seen.packet();
    assert_eq!(seen.fastpath_count, u64::MAX);

    assert!(seen.reassemble(Fragmentation::Single, vec![1]));
    assert!(!seen.reassemble(Fragmentation::First, vec![2]));
    assert!(!seen.reassemble(Fragmentation::Next, vec![3]));
    assert!(seen.reassemble(Fragmentation::Last, vec![4]));
    assert_eq!(seen.reassembly, vec![2, 3, 4]);

    assert_eq!(count_non_zero(&[0, 5, 0, 1]), 2);
    assert_eq!(percent_non_zero(1, 3), 33);
    assert_eq!(percent_non_zero(0, 0), 0);
}
