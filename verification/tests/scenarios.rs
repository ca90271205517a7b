//! End-to-end scenarios at the decision level: two endpoint cores
//! exchange a control message and route the data connection, with
//! the transport steps elided.

use aqc_core::aqc::{Aqc, BidiChannelEffect, UniChannelEffect};
use aqc_core::channel::{check_create_stream, check_receive, check_send};
use aqc_core::config::{parse_ikm, parse_seed_id, AqcConfig, QuicSyncConfig, RetrySchedule, SeedMode, WrappedSeed};
use aqc_core::ctrl::{make_ctrl_frame, parse_ctrl_ack, CtrlReceiver};
use aqc_core::derive::{derive_family, ChannelSecret};
use aqc_core::driver::{AcceptRouting, AqcClientState};
use aqc_core::identity::Direction;
use aqc_core::ids::{ChannelId, DeviceId, LabelId, TeamId};
use aqc_core::registry::{ChannelInfo, Status};
use aqc_core::suites::supported_suites;
use aqc_core::AqcError;

fn id32(b: u8) -> Vec<u8> {
    vec![b; 32]
}

fn bidi_effect(author: u8, peer: u8, chan: u8, label: u8) -> BidiChannelEffect {
    BidiChannelEffect {
        channel_id: id32(chan),
        parent_cmd_id: id32(0xF0),
        author_id: DeviceId::new(id32(author)),
        peer_id: DeviceId::new(id32(peer)),
        label_id: LabelId::new(id32(label)),
        enc_key: vec![0; 16],
        psk_length_in_bytes: 32,
    }
}

fn info(chan: ChannelId, label: u8, peer: u8, dir: Direction) -> ChannelInfo {
    ChannelInfo {
        channel_id: chan,
        label_id: LabelId::new(id32(label)),
        peer_device_id: DeviceId::new(id32(peer)),
        direction: dir,
        status: Status::Active,
    }
}

/// One full bidi open between nodes A (0x01...) and B (0x02...) on
/// team 0xAA... with label 0xCC...: A authors the channel, ships the
/// control message, B applies and registers it, A dials, B routes
/// the accepted connection to the channel.
#[test]
fn bidi_open_end_to_end() {
    let team = TeamId::new(id32(0xAA));
    let aqc_a = Aqc::new(DeviceId::new(id32(0x01)));
    let aqc_b = Aqc::new(DeviceId::new(id32(0x02)));
    let mut node_a = AqcClientState::new();
    let mut node_b = AqcClientState::new();
    let secret = ChannelSecret::new(vec![0x5A; 32]);

    // A authors the channel and installs its family
    let effect = bidi_effect(0x01, 0x02, 0x10, 0xCC);
    let family_a = aqc_a.bidi_channel_created(&effect, &secret).unwrap();
    node_a.prepare_ctrl_dial();
    let frame = make_ctrl_frame(&team, vec![0xB1, 0x0B]);

    // B receives the control message over the bootstrap connection
    let mut recv = CtrlReceiver::new();
    recv.on_stream_opened();
    let (team_back, _blob) = recv.on_body(&frame).unwrap();
    // B's policy engine mirrors the family from the same secret
    let family_b = aqc_b.bidi_channel_received(&effect, &secret).unwrap();
    let chan_b = ChannelId::Bidi(id32(0x10));
    recv.on_applied(
        &mut node_b.server_store,
        &mut node_b.registry,
        &team_back,
        info(chan_b, 0xCC, 0x01, Direction::Bidi),
        &family_b,
    );
    let ack = recv.ack_bytes();
    assert!(parse_ctrl_ack(&ack).is_ok());

    // derivation determinism: A's and B's families are byte-identical
    assert_eq!(family_a.len(), family_b.len());
    for i in 0..family_a.len() {
        assert_eq!(family_a.get(i).identity_bytes(), family_b.get(i).identity_bytes());
        assert_eq!(family_a.get(i).raw_secret_bytes(), family_b.get(i).raw_secret_bytes());
    }

    // A dials with its family; B's server selects the offered
    // identity and routes the connection to the channel
    node_a.prepare_dial(&family_a).unwrap();
    let offered = node_a.client_store.client_key().unwrap().clone();
    node_b.notify_selection(offered);
    match node_b.route_accepted().unwrap() {
        AcceptRouting::Channel { channel_id, label_id } => {
            assert_eq!(channel_id, ChannelId::Bidi(id32(0x10)));
            assert_eq!(label_id.as_bytes(), &id32(0xCC));
        },
        AcceptRouting::Ctrl => panic!("expected the data channel"),
    }
    // both directions of a bidi channel may create streams and send
    assert!(check_create_stream(Direction::Bidi).is_ok());
    assert!(check_send(Direction::Bidi).is_ok());
    assert!(check_receive(Direction::Bidi).is_ok());
}

/// A send-only channel: the two halves derive byte-identical keys —
/// TLS matches them by shared identity — while the receiver's
/// permission refuses stream creation, and the sender's data dial
/// routes to the registered channel at the receiver.
#[test]
fn uni_send_only_refuses_receiver_streams() {
    let aqc_a = Aqc::new(DeviceId::new(id32(0x01)));
    let aqc_b = Aqc::new(DeviceId::new(id32(0x02)));
    let mut node_a = AqcClientState::new();
    let mut node_b = AqcClientState::new();
    let secret = ChannelSecret::new(vec![0x5B; 32]);
    let effect = UniChannelEffect {
        channel_id: id32(0x11),
        parent_cmd_id: id32(0xF0),
        author_id: DeviceId::new(id32(0x01)),
        sender_id: DeviceId::new(id32(0x01)),
        receiver_id: DeviceId::new(id32(0x02)),
        label_id: LabelId::new(id32(0xCC)),
        enc_key: vec![0; 16],
        psk_length_in_bytes: 32,
    };
    let family_a = aqc_a.uni_channel_created(&effect, &secret).unwrap();
    let family_b = aqc_b.uni_channel_received(&effect, &secret).unwrap();
    // the halves mirror: identity bytes and raw secrets are equal,
    // and the identity carries the channel's class (author sends)
    assert_eq!(family_a.len(), family_b.len());
    for i in 0..family_a.len() {
        assert_eq!(family_a.get(i).identity_bytes(), family_b.get(i).identity_bytes());
        assert_eq!(family_a.get(i).raw_secret_bytes(), family_b.get(i).raw_secret_bytes());
        assert_eq!(family_a.get(i).identity_bytes()[36], 0x01);
    }
    // the receiver registers the mirrored family; the sender's dial
    // then routes to it by the shared identity
    let recv_dir = effect.holder_direction(&DeviceId::new(id32(0x02)));
    assert_eq!(recv_dir, Direction::Recv);
    node_b.server_store.load_family(&family_b).unwrap();
    node_b
        .registry
        .register(
            &TeamId::new(id32(0xAA)),
            info(ChannelId::Uni(id32(0x11)), 0xCC, 0x01, recv_dir),
            &family_b,
        )
        .unwrap();
    node_a.prepare_dial(&family_a).unwrap();
    let offered = node_a.client_store.client_key().unwrap().clone();
    node_b.notify_selection(offered);
    match node_b.route_accepted().unwrap() {
        AcceptRouting::Channel { channel_id, label_id } => {
            assert_eq!(channel_id, ChannelId::Uni(id32(0x11)));
            assert_eq!(label_id.as_bytes(), &id32(0xCC));
        },
        AcceptRouting::Ctrl => panic!("expected the data channel"),
    }
    // the receiver may not create streams or send; the sender may
    assert!(check_create_stream(Direction::Send).is_ok());
    assert_eq!(check_create_stream(Direction::Recv).unwrap_err(), AqcError::StreamCreateDenied);
    assert_eq!(check_send(Direction::Recv).unwrap_err(), AqcError::StreamCreateDenied);
    assert!(check_receive(Direction::Recv).is_ok());
}

/// A policy denial: the effect does not name this device as author,
/// so no keys are derived and nothing is installed anywhere.
#[test]
fn policy_denied_installs_nothing() {
    let aqc_c = Aqc::new(DeviceId::new(id32(0x03)));
    let node_c = AqcClientState::new();
    let secret = ChannelSecret::new(vec![0x5C; 32]);
    let effect = bidi_effect(0x01, 0x02, 0x12, 0xCC);
    match aqc_c.bidi_channel_created(&effect, &secret) {
        Err(e) => assert_eq!(e, AqcError::NotAuthorized),
        Ok(_) => panic!("the effect must be refused"),
    }
    // the client store still holds only the bootstrap key
    let listing = node_c.registry.list(&TeamId::new(id32(0xAA)));
    assert!(listing.is_empty());
}

/// Sixteen parallel opens: every control exchange succeeds, the
/// registry tracks sixteen channels, and each accepted data
/// connection resolves to its own channel.
#[test]
fn sixteen_parallel_opens() {
    let team = TeamId::new(id32(0xAA));
    let mut node_b = AqcClientState::new();
    let suites = supported_suites();
    let mut identities = Vec::new();

    for n in 0..16u8 {
        let chan = ChannelId::Bidi(id32(0x80 + n));
        let secret = ChannelSecret::new(vec![n; 32]);
        let family = derive_family(&secret, &chan, Direction::Bidi, &suites).unwrap();
        let mut recv = CtrlReceiver::new();
        recv.on_stream_opened();
        let frame = make_ctrl_frame(&team, vec![n]);
        let (team_back, _) = recv.on_body(&frame).unwrap();
        recv.on_applied(
            &mut node_b.server_store,
            &mut node_b.registry,
            &team_back,
            info(chan, 0xCC, 0x01, Direction::Bidi),
            &family,
        );
        assert!(parse_ctrl_ack(&recv.ack_bytes()).is_ok());
        identities.push(family.get(0).identity_bytes().clone());
    }
    assert_eq!(node_b.registry.list(&team).len(), 16);

    // the sixteen data connections arrive in order and each resolves
    // to its own channel
    for id in &identities {
        node_b.notify_selection(id.clone());
    }
    for n in 0..16u8 {
        match node_b.route_accepted().unwrap() {
            AcceptRouting::Channel { channel_id, .. } => {
                assert_eq!(channel_id, ChannelId::Bidi(id32(0x80 + n)));
            },
            AcceptRouting::Ctrl => panic!("expected a channel"),
        }
    }
}

/// Peer bookkeeping through the bijective map.
#[test]
fn peers_round_trip() {
    let team = TeamId::new(id32(0xAA));
    let mut aqc = Aqc::new(DeviceId::new(id32(0x01)));
    aqc.add_peer(&team, String::from("peer-b:5050"), &DeviceId::new(id32(0x02)));
    aqc.add_peer(&team, String::from("peer-c:5050"), &DeviceId::new(id32(0x03)));
    let found = aqc.find_device_id(&team, &String::from("peer-b:5050")).unwrap();
    assert_eq!(found.as_bytes(), &id32(0x02));
    // inserting a new name for the same device displaces the old pair
    aqc.add_peer(&team, String::from("peer-b-new:5050"), &DeviceId::new(id32(0x02)));
    assert!(aqc.find_device_id(&team, &String::from("peer-b:5050")).is_none());
    assert!(aqc.find_device_id(&team, &String::from("peer-b-new:5050")).is_some());
    aqc.remove_peer(&team, &DeviceId::new(id32(0x02)));
    assert!(aqc.find_device_id(&team, &String::from("peer-b-new:5050")).is_none());
    assert!(aqc.find_device_id(&team, &String::from("peer-c:5050")).is_some());
}

/// Channel tracking on the daemon side.
#[test]
fn channel_tracking_lifecycle() {
    let team = TeamId::new(id32(0xAA));
    let mut aqc = Aqc::new(DeviceId::new(id32(0x01)));
    let chan = ChannelId::Uni(id32(0x21));
    aqc.add_channel(
        &team,
        chan.dup(),
        LabelId::new(id32(0xCC)),
        DeviceId::new(id32(0x02)),
        Direction::Send,
    )
    .unwrap();
    // a duplicate is refused
    assert_eq!(
        aqc.add_channel(
            &team,
            chan.dup(),
            LabelId::new(id32(0xCC)),
            DeviceId::new(id32(0x02)),
            Direction::Send,
        )
        .unwrap_err(),
        AqcError::Duplicate,
    );
    assert_eq!(aqc.list_active_channels(&team).len(), 1);
    aqc.channel_deleted(&team, &chan);
    assert!(aqc.list_active_channels(&team).is_empty());
    // deleting again is a no-op
    aqc.channel_deleted(&team, &chan);
}

#[test]
fn seed_modes_and_ikm_validation() {
    assert!(matches!(SeedMode::default(), SeedMode::Generate));
    let cfg = QuicSyncConfig { seed_mode: SeedMode::default() };
    assert!(matches!(cfg.seed_mode, SeedMode::Generate));
    let good = parse_ikm(&vec![9; 32]).unwrap();
    assert!(matches!(good, SeedMode::Ikm(ref ikm) if ikm.len() == 32));
    assert_eq!(parse_ikm(&vec![9; 31]).unwrap_err(), AqcError::Config);
    assert_eq!(parse_seed_id(vec![1; 32]).unwrap(), vec![1; 32]);
    assert_eq!(parse_seed_id(vec![1; 33]).unwrap_err(), AqcError::Serde);
    let wrapped = WrappedSeed {
        sender_pk: vec![1, 2],
        encap_key: vec![3, 4],
        encrypted_seed: vec![5, 6],
    };
    let copy = wrapped.clone();
    assert_eq!(copy, wrapped);
}

#[test]
fn retry_schedule_doubles_then_gives_up() {
    let mut schedule = RetrySchedule::new(3, 100);
    assert_eq!(schedule.next_attempt(), Some(100));
    assert_eq!(schedule.next_attempt(), Some(200));
    assert_eq!(schedule.next_attempt(), Some(400));
    assert_eq!(schedule.next_attempt(), None);
    assert_eq!(schedule.next_attempt(), None);
    // the delay saturates instead of overflowing
    let mut near_max = RetrySchedule::new(3, u64::MAX - 1);
    assert_eq!(near_max.next_attempt(), Some(u64::MAX - 1));
    assert_eq!(near_max.next_attempt(), Some(u64::MAX));
    assert_eq!(near_max.next_attempt(), Some(u64::MAX));
}

#[test]
fn default_config_matches_the_spec_defaults() {
    let cfg = AqcConfig::new_default();
    assert_eq!(cfg.idle_timeout_secs, 30);
    assert_eq!(cfg.sync_interval_secs, 1);
    assert_eq!(cfg.supported_suites, supported_suites());
}
