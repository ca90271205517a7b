//! Tests of the PSK identity codec and the control wire format.

use aqc_core::identity::{
    bootstrap_identity, decode_identity, encode_identity, Direction, IdentityInfo, IDENTITY_LEN,
};
use aqc_core::ids::ChannelId;
use aqc_core::suites::CipherSuite;
use aqc_core::wire::{
    decode_ack, decode_envelope, decode_varint, encode_ack, encode_envelope, encode_varint,
    AckMessage, ControlEnvelope,
};
use aqc_core::ids::TeamId;
use aqc_core::AqcError;

fn id32(b: u8) -> Vec<u8> {
    vec![b; 32]
}

#[test]
fn identity_layout_is_bit_exact() {
    let chan = ChannelId::Bidi(id32(0xAB));
    let bytes = encode_identity(&chan, CipherSuite::Aes256GcmSha384, Direction::Bidi);
    assert_eq!(bytes.len(), IDENTITY_LEN);
    assert_eq!(bytes[0], 0x01); // version
    assert_eq!(bytes[1], 0x01); // bidi kind
    assert_eq!(&bytes[2..34], &id32(0xAB)[..]);
    assert_eq!(bytes[34], 0x13); // suite code, big endian
    assert_eq!(bytes[35], 0x02);
    assert_eq!(bytes[36], 0x00); // bidi direction
}

#[test]
fn identity_round_trip_bidi() {
    let chan = ChannelId::Bidi(id32(0x11));
    let bytes = encode_identity(&chan, CipherSuite::Aes256GcmSha384, Direction::Bidi);
    match decode_identity(&bytes) {
        Some(IdentityInfo::Channel { channel_id, suite, direction }) => {
            assert_eq!(channel_id, ChannelId::Bidi(id32(0x11)));
            assert_eq!(suite, CipherSuite::Aes256GcmSha384);
            assert_eq!(direction, Direction::Bidi);
        },
        other => panic!("expected a channel identity, got {:?}", other),
    }
}

#[test]
fn identity_round_trip_uni() {
    let chan = ChannelId::Uni(id32(0x22));
    for (suite, dir) in [
        (CipherSuite::Aes256GcmSha384, Direction::Send),
        (CipherSuite::Chacha20Poly1305Sha256, Direction::Recv),
    ] {
        let bytes = encode_identity(&chan, suite, dir);
        match decode_identity(&bytes) {
            Some(IdentityInfo::Channel { channel_id, suite: s, direction }) => {
                assert_eq!(channel_id, ChannelId::Uni(id32(0x22)));
                assert_eq!(s, suite);
                assert_eq!(direction, dir);
            },
            other => panic!("expected a channel identity, got {:?}", other),
        }
    }
}

#[test]
fn bootstrap_identity_is_fixed_and_decodes() {
    let b = bootstrap_identity();
    assert_eq!(b.len(), IDENTITY_LEN);
    assert_eq!(b[0], 0x01);
    assert_eq!(b[1], 0x00);
    assert!(b[2..].iter().all(|&x| x == 0));
    assert_eq!(decode_identity(&b), Some(IdentityInfo::Bootstrap));
}

#[test]
fn malformed_identities_are_rejected() {
    // wrong length
    assert_eq!(decode_identity(&vec![0x01; 36]), None);
    // wrong version
    let chan = ChannelId::Bidi(id32(3));
    let mut bytes = encode_identity(&chan, CipherSuite::Aes256GcmSha384, Direction::Bidi);
    bytes[0] = 0x02;
    assert_eq!(decode_identity(&bytes), None);
    // unknown suite code
    let mut bytes = encode_identity(&chan, CipherSuite::Aes256GcmSha384, Direction::Bidi);
    bytes[34] = 0x00;
    bytes[35] = 0x00;
    assert_eq!(decode_identity(&bytes), None);
    // unknown direction byte
    let mut bytes = encode_identity(&chan, CipherSuite::Aes256GcmSha384, Direction::Bidi);
    bytes[36] = 0x07;
    assert_eq!(decode_identity(&bytes), None);
    // direction that does not fit the kind: bidi with send-only
    let mut bytes = encode_identity(&chan, CipherSuite::Aes256GcmSha384, Direction::Bidi);
    bytes[36] = 0x01;
    assert_eq!(decode_identity(&bytes), None);
}

#[test]
fn varint_round_trips() {
    for value in [0u64, 1, 127, 128, 129, 300, 16383, 16384, u64::MAX] {
        let bytes = encode_varint(value);
        let decoded = decode_varint(&bytes, 0);
        assert_eq!(decoded, Some((value, bytes.len())));
    }
    assert_eq!(encode_varint(0), vec![0x00]);
    assert_eq!(encode_varint(127), vec![0x7F]);
    assert_eq!(encode_varint(128), vec![0x80, 0x01]);
    assert_eq!(encode_varint(300), vec![0xAC, 0x02]);
}

#[test]
fn varint_rejects_bad_encodings() {
    // empty input
    assert_eq!(decode_varint(&Vec::new(), 0), None);
    // dangling continuation byte
    assert_eq!(decode_varint(&vec![0x80], 0), None);
    // non-canonical: continuation followed by zero
    assert_eq!(decode_varint(&vec![0x80, 0x00], 0), None);
}

#[test]
fn envelope_round_trips() {
    let env = ControlEnvelope {
        team_id: TeamId::new(id32(0xAA)),
        blob: vec![1, 2, 3, 4, 5],
    };
    let bytes = encode_envelope(&env);
    assert_eq!(bytes.len(), 32 + 1 + 5);
    let back = decode_envelope(&bytes).expect("the envelope must decode");
    assert_eq!(back.team_id.as_bytes(), &id32(0xAA));
    assert_eq!(back.blob, vec![1, 2, 3, 4, 5]);
}

#[test]
fn envelope_rejects_malformed_bytes() {
    // too short for a team id
    assert_eq!(decode_envelope(&vec![0x00; 16]).unwrap_err(), AqcError::Serde);
    // length prefix does not match the body
    let env = ControlEnvelope { team_id: TeamId::new(id32(1)), blob: vec![9, 9, 9] };
    let mut bytes = encode_envelope(&env);
    bytes.pop();
    assert_eq!(decode_envelope(&bytes).unwrap_err(), AqcError::Serde);
}

#[test]
fn ack_encoding_is_exact() {
    assert_eq!(encode_ack(&AckMessage::Success), vec![0x00]);
    let fail = AckMessage::Failure(vec![0x61, 0x62]);
    assert_eq!(encode_ack(&fail), vec![0x01, 0x02, 0x61, 0x62]);
    assert_eq!(decode_ack(&vec![0x00]), Ok(AckMessage::Success));
    assert_eq!(decode_ack(&vec![0x01, 0x02, 0x61, 0x62]), Ok(fail));
    assert_eq!(decode_ack(&vec![0x02]).unwrap_err(), AqcError::Serde);
    assert_eq!(decode_ack(&vec![0x00, 0x00]).unwrap_err(), AqcError::Serde);
    assert_eq!(decode_ack(&Vec::new()).unwrap_err(), AqcError::Serde);
}
