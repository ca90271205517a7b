//! Tests of the control exchange and the endpoint driver.

use aqc_core::ctrl::{
    make_ctrl_frame, parse_ctrl_ack, CtrlReceiver, RecvState, CTRL_EXCLUSIVITY_CODE,
};
use aqc_core::derive::{derive_family, ChannelSecret};
use aqc_core::driver::{AcceptRouting, AqcClientState};
use aqc_core::identity::{bootstrap_identity, Direction};
use aqc_core::ids::{ChannelId, DeviceId, LabelId, TeamId};
use aqc_core::registry::{ChannelInfo, Registry, Status};
use aqc_core::store::PskStore;
use aqc_core::suites::supported_suites;
use aqc_core::wire::AckMessage;
use aqc_core::AqcError;

fn id32(b: u8) -> Vec<u8> {
    vec![b; 32]
}

fn info(chan: ChannelId, label: u8) -> ChannelInfo {
    ChannelInfo {
        channel_id: chan,
        label_id: LabelId::new(id32(label)),
        peer_device_id: DeviceId::new(id32(0x01)),
        direction: Direction::Bidi,
        status: Status::Active,
    }
}

#[test]
fn ctrl_receiver_happy_path_installs_before_acking() {
    let team = TeamId::new(id32(0xAA));
    let chan = ChannelId::Bidi(id32(0x10));
    let family = derive_family(
        &ChannelSecret::new(vec![7; 32]),
        &chan,
        Direction::Bidi,
        &supported_suites(),
    )
    .unwrap();
    let mut store = PskStore::new();
    let mut registry = Registry::new();
    let mut recv = CtrlReceiver::new();

    recv.on_stream_opened();
    let frame = make_ctrl_frame(&team, vec![0xDE, 0xAD]);
    let (team_back, blob) = recv.on_body(&frame).expect("the frame must decode");
    assert_eq!(team_back.as_bytes(), &id32(0xAA));
    assert_eq!(blob, vec![0xDE, 0xAD]);

    recv.on_applied(&mut store, &mut registry, &team, info(chan.dup(), 0xCC), &family);

    // the keys and the registry entries exist before the ack leaves
    for i in 0..family.len() {
        assert!(store.get(family.get(i).identity_bytes()).is_some());
        assert!(registry.resolve_identity(family.get(i).identity_bytes()).is_some());
    }
    let ack = recv.ack_bytes();
    assert_eq!(ack, vec![0x00]);
    assert!(parse_ctrl_ack(&ack).is_ok());
    recv.on_ack_sent();
    assert!(matches!(recv.state, RecvState::Done { success: true }));
}

#[test]
fn malformed_control_gets_failure_ack_and_touches_nothing() {
    let mut recv = CtrlReceiver::new();
    recv.on_stream_opened();
    // random bytes that are no envelope
    let garbage = vec![0x13, 0x37, 0x00];
    assert!(recv.on_body(&garbage).is_none());
    let ack = recv.ack_bytes();
    // the ack is a failure whose reason names deserialisation
    assert_eq!(ack[0], 0x01);
    let reason = String::from_utf8(ack[2..].to_vec()).unwrap();
    assert!(reason.starts_with("deserialize"));
    // the sender surfaces it as a control failure
    match parse_ctrl_ack(&ack).unwrap_err() {
        AqcError::CtrlFailure(m) => assert!(String::from_utf8(m).unwrap().starts_with("deserialize")),
        other => panic!("expected a control failure, got {:?}", other),
    }
    recv.on_ack_sent();
    assert!(matches!(recv.state, RecvState::Done { success: false }));
}

#[test]
fn duplicate_channel_is_refused_with_failure_ack() {
    let team = TeamId::new(id32(0xAA));
    let chan = ChannelId::Bidi(id32(0x10));
    let family = derive_family(
        &ChannelSecret::new(vec![7; 32]),
        &chan,
        Direction::Bidi,
        &supported_suites(),
    )
    .unwrap();
    let mut store = PskStore::new();
    let mut registry = Registry::new();
    registry.register(&team, info(chan.dup(), 0xCC), &family).unwrap();

    let mut recv = CtrlReceiver::new();
    recv.on_stream_opened();
    let frame = make_ctrl_frame(&team, vec![1]);
    recv.on_body(&frame).unwrap();
    recv.on_applied(&mut store, &mut registry, &team, info(chan.dup(), 0xCC), &family);
    match &recv.state {
        RecvState::Acking { ack: AckMessage::Failure(m) } => {
            assert_eq!(String::from_utf8(m.clone()).unwrap(), "duplicate channel");
        },
        other_state => panic!("expected a failure ack, got {:?}", matches!(other_state, RecvState::Done { .. })),
    }
    // nothing was installed into the store on the failed exchange
    for i in 0..family.len() {
        assert!(store.get(family.get(i).identity_bytes()).is_none());
    }
}

#[test]
fn bootstrap_connection_refuses_extra_streams() {
    let mut recv = CtrlReceiver::new();
    assert_eq!(recv.on_extra_stream(), None);
    recv.on_stream_opened();
    assert_eq!(recv.on_extra_stream(), Some(CTRL_EXCLUSIVITY_CODE));
    assert_eq!(recv.on_io_error(), AqcError::QuicIo);
    assert_eq!(recv.on_extra_stream(), Some(CTRL_EXCLUSIVITY_CODE));
}

#[test]
fn timeout_without_stream_is_no_ctrl_stream() {
    let mut recv = CtrlReceiver::new();
    assert_eq!(recv.on_timeout(), AqcError::NoCtrlStream);
    assert!(matches!(recv.state, RecvState::Done { success: false }));
}

#[test]
fn routing_pairs_accepts_with_selections_in_order() {
    let mut node = AqcClientState::new();
    let team = TeamId::new(id32(0xAA));
    // register two channels
    let mut identities = Vec::new();
    for b in [0x10u8, 0x20] {
        let chan = ChannelId::Bidi(id32(b));
        let family = derive_family(
            &ChannelSecret::new(vec![b; 32]),
            &chan,
            Direction::Bidi,
            &supported_suites(),
        )
        .unwrap();
        node.server_store.load_family(&family).unwrap();
        node.registry.register(&team, info(chan, b), &family).unwrap();
        identities.push(family.get(0).identity_bytes().clone());
    }
    // interleave: bootstrap, chan 0x10, bootstrap, chan 0x20, unknown
    node.notify_selection(bootstrap_identity());
    node.notify_selection(identities[0].clone());
    node.notify_selection(bootstrap_identity());
    node.notify_selection(identities[1].clone());
    node.notify_selection(vec![0xEE; 37]);

    assert!(matches!(node.route_accepted().unwrap(), AcceptRouting::Ctrl));
    match node.route_accepted().unwrap() {
        AcceptRouting::Channel { channel_id, label_id } => {
            assert_eq!(channel_id, ChannelId::Bidi(id32(0x10)));
            assert_eq!(label_id.as_bytes(), &id32(0x10));
        },
        AcceptRouting::Ctrl => panic!("expected a channel"),
    }
    assert!(matches!(node.route_accepted().unwrap(), AcceptRouting::Ctrl));
    match node.route_accepted().unwrap() {
        AcceptRouting::Channel { channel_id, .. } => {
            assert_eq!(channel_id, ChannelId::Bidi(id32(0x20)));
        },
        AcceptRouting::Ctrl => panic!("expected a channel"),
    }
    // the unknown identity is refused, and the queue is then empty
    assert_eq!(node.route_accepted().unwrap_err(), AqcError::NoChannelInfo);
    assert_eq!(node.route_accepted().unwrap_err(), AqcError::Internal);
}

#[test]
fn new_endpoint_offers_and_accepts_the_bootstrap_key() {
    let node = AqcClientState::new();
    let b = bootstrap_identity();
    assert!(node.server_store.get(&b).is_some());
    assert!(node.client_store.get(&b).is_some());
    assert_eq!(node.client_store.client_key(), Some(&b));
}

#[test]
fn prepare_dial_latches_a_family_identity() {
    let mut node = AqcClientState::new();
    let chan = ChannelId::Bidi(id32(0x30));
    let family = derive_family(
        &ChannelSecret::new(vec![3; 32]),
        &chan,
        Direction::Bidi,
        &supported_suites(),
    )
    .unwrap();
    node.prepare_dial(&family).unwrap();
    assert_eq!(node.client_store.client_key(), Some(family.get(0).identity_bytes()));
    for i in 0..family.len() {
        assert!(node.client_store.get(family.get(i).identity_bytes()).is_some());
    }
    node.prepare_ctrl_dial();
    assert_eq!(node.client_store.client_key(), Some(&bootstrap_identity()));
}

#[test]
fn delete_channel_scrubs_both_stores() {
    let mut node = AqcClientState::new();
    let team = TeamId::new(id32(0xAA));
    let chan = ChannelId::Bidi(id32(0x40));
    let family = derive_family(
        &ChannelSecret::new(vec![4; 32]),
        &chan,
        Direction::Bidi,
        &supported_suites(),
    )
    .unwrap();
    node.prepare_dial(&family).unwrap();
    node.server_store.load_family(&family).unwrap();
    node.registry.register(&team, info(chan.dup(), 0x40), &family).unwrap();

    node.delete_channel(&team, &chan);
    for i in 0..family.len() {
        assert!(node.client_store.get(family.get(i).identity_bytes()).is_none());
        assert!(node.server_store.get(family.get(i).identity_bytes()).is_none());
        assert!(node.registry.resolve_identity(family.get(i).identity_bytes()).is_none());
    }
    assert!(node.registry.list(&team).is_empty());
    // the bootstrap key survives channel deletion
    assert!(node.server_store.get(&bootstrap_identity()).is_some());
}
