//! Tests of derivation, the PSK store and the registry.

use aqc_core::derive::{derive_family, ChannelSecret};
use aqc_core::identity::{encode_identity, Direction};
use aqc_core::ids::{ChannelId, DeviceId, LabelId, TeamId};
use aqc_core::registry::{ChannelInfo, Registry, Status};
use aqc_core::store::PskStore;
use aqc_core::suites::{supported_suites, CipherSuite};
use aqc_core::AqcError;

fn id32(b: u8) -> Vec<u8> {
    vec![b; 32]
}

fn secret() -> ChannelSecret {
    ChannelSecret::new(vec![7; 32])
}

#[test]
fn derivation_is_deterministic() {
    let chan = ChannelId::Bidi(id32(0x55));
    let suites = supported_suites();
    let f1 = derive_family(&secret(), &chan, Direction::Bidi, &suites).unwrap();
    let f2 = derive_family(&secret(), &chan, Direction::Bidi, &suites).unwrap();
    assert_eq!(f1.len(), 2);
    assert_eq!(f2.len(), 2);
    for i in 0..f1.len() {
        assert_eq!(f1.get(i).identity_bytes(), f2.get(i).identity_bytes());
        assert_eq!(f1.get(i).raw_secret_bytes(), f2.get(i).raw_secret_bytes());
        assert_eq!(f1.get(i).suite(), f2.get(i).suite());
    }
}

#[test]
fn derivation_matches_suites_and_identities() {
    let chan = ChannelId::Bidi(id32(0x66));
    let suites = supported_suites();
    let family = derive_family(&secret(), &chan, Direction::Bidi, &suites).unwrap();
    assert_eq!(family.get(0).suite(), CipherSuite::Aes256GcmSha384);
    assert_eq!(family.get(1).suite(), CipherSuite::Chacha20Poly1305Sha256);
    // secrets have the hash output length of their suite
    assert_eq!(family.get(0).raw_secret_bytes().len(), 48);
    assert_eq!(family.get(1).raw_secret_bytes().len(), 32);
    // identities are the bit-exact encodings
    assert_eq!(
        family.get(0).identity_bytes(),
        &encode_identity(&chan, CipherSuite::Aes256GcmSha384, Direction::Bidi),
    );
    assert_eq!(
        family.get(1).identity_bytes(),
        &encode_identity(&chan, CipherSuite::Chacha20Poly1305Sha256, Direction::Bidi),
    );
    // the derived keys differ from the channel secret and from each other
    assert_ne!(&family.get(1).raw_secret_bytes()[..], &vec![7u8; 32][..]);
    assert_ne!(
        &family.get(0).raw_secret_bytes()[..32],
        &family.get(1).raw_secret_bytes()[..],
    );
}

#[test]
fn derivation_with_no_suites_fails() {
    let chan = ChannelId::Bidi(id32(0x01));
    let res = derive_family(&secret(), &chan, Direction::Bidi, &Vec::new());
    assert!(matches!(res, Err(AqcError::NoSuites)));
}

#[test]
fn uni_identity_carries_the_channel_direction() {
    let chan = ChannelId::Uni(id32(0x42));
    let suites = supported_suites();
    // an author-sends channel: every identity ends in the send byte
    let sends = derive_family(&secret(), &chan, Direction::Send, &suites).unwrap();
    for i in 0..sends.len() {
        assert_eq!(sends.get(i).identity_bytes()[36], 0x01);
    }
    // an author-receives channel: every identity ends in the recv byte
    let recvs = derive_family(&secret(), &chan, Direction::Recv, &suites).unwrap();
    for i in 0..recvs.len() {
        assert_eq!(recvs.get(i).identity_bytes()[36], 0x02);
    }
    // the class is part of the identity, so the two classes never collide
    assert_ne!(sends.get(0).identity_bytes(), recvs.get(0).identity_bytes());
}

#[test]
fn store_insert_is_idempotent_and_conflicts_fail() {
    let mut store = PskStore::new();
    assert!(store.insert(vec![1, 2, 3], vec![9, 9]).is_ok());
    // identical pair again: fine
    assert!(store.insert(vec![1, 2, 3], vec![9, 9]).is_ok());
    // same identity, different secret: conflict
    assert_eq!(store.insert(vec![1, 2, 3], vec![8]).unwrap_err(), AqcError::PskConflict);
    assert_eq!(store.get(&vec![1, 2, 3]), Some(&vec![9, 9]));
    store.remove(&vec![1, 2, 3]);
    assert_eq!(store.get(&vec![1, 2, 3]), None);
    // removing an absent identity is not an error
    store.remove(&vec![1, 2, 3]);
}

#[test]
fn family_lifecycle_in_store() {
    let chan = ChannelId::Bidi(id32(0x77));
    let suites = supported_suites();
    let family = derive_family(&secret(), &chan, Direction::Bidi, &suites).unwrap();
    let mut store = PskStore::new();
    store.load_family(&family).unwrap();
    // every identity of the family is present after the load
    for i in 0..family.len() {
        let got = store.get(family.get(i).identity_bytes()).expect("the key must be installed");
        assert_eq!(got, family.get(i).raw_secret_bytes());
    }
    store.drop_family(&chan);
    // no identity of the channel survives the drop
    for i in 0..family.len() {
        assert_eq!(store.get(family.get(i).identity_bytes()), None);
    }
}

#[test]
fn load_family_is_atomic_on_conflict() {
    let chan = ChannelId::Bidi(id32(0x78));
    let suites = supported_suites();
    let family = derive_family(&secret(), &chan, Direction::Bidi, &suites).unwrap();
    let mut store = PskStore::new();
    // poison one identity of the family with a different secret
    let poisoned = family.get(1).identity_bytes().clone();
    store.insert(poisoned.clone(), vec![0xFF]).unwrap();
    assert_eq!(store.load_family(&family).unwrap_err(), AqcError::PskConflict);
    // nothing else was installed
    assert_eq!(store.get(family.get(0).identity_bytes()), None);
    assert_eq!(store.get(&poisoned), Some(&vec![0xFF]));
}

fn info(chan: ChannelId) -> ChannelInfo {
    ChannelInfo {
        channel_id: chan,
        label_id: LabelId::new(id32(0xCC)),
        peer_device_id: DeviceId::new(id32(0x02)),
        direction: Direction::Bidi,
        status: Status::Active,
    }
}

#[test]
fn registry_register_resolve_list_delete() {
    let team = TeamId::new(id32(0xAA));
    let chan = ChannelId::Bidi(id32(0x10));
    let suites = supported_suites();
    let family = derive_family(&secret(), &chan, Direction::Bidi, &suites).unwrap();
    let mut reg = Registry::new();
    let mut store = PskStore::new();
    store.load_family(&family).unwrap();
    reg.register(&team, info(chan.dup()), &family).unwrap();

    // a second registration of the same channel is a duplicate
    let err = reg.register(&team, info(chan.dup()), &family).unwrap_err();
    assert_eq!(err, AqcError::Duplicate);

    // every family identity resolves to the channel and label
    for i in 0..family.len() {
        let (c, l) = reg.resolve_identity(family.get(i).identity_bytes()).unwrap();
        assert_eq!(c, chan);
        assert_eq!(l.as_bytes(), &id32(0xCC));
    }

    // the listing shows the one channel of the team
    let listing = reg.list(&team);
    assert_eq!(listing.len(), 1);
    assert_eq!(listing[0].channel_id, chan);
    assert!(reg.list(&TeamId::new(id32(0xBB))).is_empty());

    // deletion scrubs the registry and the store
    reg.delete(&mut store, &team, &chan);
    assert!(reg.list(&team).is_empty());
    for i in 0..family.len() {
        assert!(reg.resolve_identity(family.get(i).identity_bytes()).is_none());
        assert_eq!(store.get(family.get(i).identity_bytes()), None);
    }
    // deleting again is a no-op
    reg.delete(&mut store, &team, &chan);
}
