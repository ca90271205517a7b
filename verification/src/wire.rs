//! The control wire format.
//!
//! A control exchange carries two messages over a bootstrap-keyed
//! stream, both in a deterministic binary encoding whose byte strings
//! are prefixed by variable-length integers (base-128 continuation
//! encoding, least significant group first):
//!
//! ```text
//! ControlEnvelope = team_id (32 raw bytes) || varint(blob len) || blob
//! AckMessage      = 0x00                      on success
//!                 | 0x01 || varint(len) || reason utf-8 bytes
//! ```
//!
//! Every decoder here is exact: it accepts a byte string if and only
//! if the string is the encoding of some value, and then returns that
//! value.

use vstd::prelude::*;

use crate::AqcError;
use crate::bytes_util::{copy_bytes, extend_bytes};
use crate::ids::{ID_LEN, TeamId};

verus! {

/// The canonical variable-length encoding of an unsigned integer:
/// seven value bits per byte, least significant group first, high bit
/// set on every byte but the last.
pub open spec fn spec_varint(n: nat) -> Seq<u8>
    decreases n,
{
    if n < 128 {
        seq![n as u8]
    } else {
        seq![(128 + (n % 128)) as u8] + spec_varint(n / 128)
    }
}

/// Encodes an integer as a canonical varint.
pub fn encode_varint(n: u64) -> (r: Vec<u8>)
    ensures
        r@ == spec_varint(n as nat),
    decreases n,
{
    let mut out: Vec<u8> = Vec::new();
    if n < 128 {
        out.push(n as u8);
        proof {
            assert(out@ =~= spec_varint(n as nat));
        }
        out
    } else {
        out.push(128 + (n % 128) as u8);
        let rest = encode_varint(n / 128);
        extend_bytes(&mut out, &rest);
        proof {
            assert(out@ =~= spec_varint(n as nat));
        }
        out
    }
}

/// A varint encoding never has length zero.
pub proof fn lemma_varint_nonempty(n: nat)
    ensures
        spec_varint(n).len() >= 1,
    decreases n,
{
    if n >= 128 {
        lemma_varint_nonempty(n / 128);
    }
}

/// Peeling the first byte off a matching varint leaves a match of the
/// remaining digits.
proof fn lemma_varint_tail(bytes: Seq<u8>, pos: int, v: nat, e: int)
    requires
        0 <= pos <= e <= bytes.len(),
        v >= 128,
        bytes.subrange(pos, e) == spec_varint(v),
    ensures
        pos + 1 <= e,
        bytes.subrange(pos + 1, e) == spec_varint(v / 128),
{
    let whole = spec_varint(v);
    let tail = spec_varint(v / 128);
    assert(whole == seq![(128 + v % 128) as u8] + tail);
    lemma_varint_nonempty(v / 128);
    assert(e - pos == whole.len());
    assert forall|i: int| 0 <= i < tail.len() implies bytes.subrange(pos + 1, e)[i] == tail[i] by {
        assert(bytes.subrange(pos, e)[i + 1] == whole[i + 1]);
        assert(whole[i + 1] == tail[i]);
        assert(bytes.subrange(pos, e)[i + 1] == bytes[pos + 1 + i]);
        assert(bytes.subrange(pos + 1, e)[i] == bytes[pos + 1 + i]);
    }
    assert(bytes.subrange(pos + 1, e) =~= tail);
}

/// The varint code is a prefix code: at a given position of a byte
/// string, at most one integer's encoding can match.
pub proof fn lemma_varint_unique(bytes: Seq<u8>, pos: int, v1: nat, e1: int, v2: nat, e2: int)
    requires
        0 <= pos <= e1 <= bytes.len(),
        0 <= pos <= e2 <= bytes.len(),
        bytes.subrange(pos, e1) == spec_varint(v1),
        bytes.subrange(pos, e2) == spec_varint(v2),
    ensures
        v1 == v2,
        e1 == e2,
    decreases v1,
{
    lemma_varint_nonempty(v1);
    lemma_varint_nonempty(v2);
    let b = bytes[pos];
    assert(spec_varint(v1)[0] == b);
    assert(spec_varint(v2)[0] == b);
    if v1 < 128 {
        assert(b == v1 as u8);
        if v2 >= 128 {
            assert(b == (128 + (v2 % 128)) as u8);
        }
        assert(v2 < 128);
        assert(b == v2 as u8);
        assert(spec_varint(v1).len() == 1 && spec_varint(v2).len() == 1);
    } else {
        assert(b == (128 + (v1 % 128)) as u8);
        assert(b >= 128);
        if v2 < 128 {
            assert(b == v2 as u8);
        }
        assert(v2 >= 128);
        lemma_varint_tail(bytes, pos, v1, e1);
        lemma_varint_tail(bytes, pos, v2, e2);
        lemma_varint_unique(bytes, pos + 1, v1 / 128, e1, v2 / 128, e2);
        assert(v1 % 128 == v2 % 128);
        assert(v1 == 128 * (v1 / 128) + v1 % 128);
        assert(v2 == 128 * (v2 / 128) + v2 % 128);
    }
}

/// Decodes the varint starting at `pos`.
///
/// Returns the decoded value and the position after it exactly when
/// some integer that fits in 64 bits is encoded there; returns
/// nothing when no integer at all is encoded there, or only one too
/// large for 64 bits.
pub fn decode_varint(bytes: &Vec<u8>, pos: usize) -> (r: Option<(u64, usize)>)
    requires
        pos <= bytes@.len(),
    ensures
        r matches Some((v, end)) ==> pos < end <= bytes@.len() && bytes@.subrange(
            pos as int,
            end as int,
        ) == spec_varint(v as nat),
        r is None ==> forall|v: u64, end: int|
            pos <= end <= bytes@.len() ==> bytes@.subrange(pos as int, end as int) != spec_varint(
                v as nat,
            ),
    decreases bytes@.len() - pos,
{
    if pos >= bytes.len() {
        proof {
            assert forall|v: u64, end: int|
                pos <= end <= bytes@.len() implies bytes@.subrange(pos as int, end as int)
                != spec_varint(v as nat) by {
                lemma_varint_nonempty(v as nat);
            }
        }
        return None;
    }
    let b = bytes[pos];
    if b < 128 {
        proof {
            assert(bytes@.subrange(pos as int, pos + 1) =~= spec_varint(b as nat));
        }
        return Some((b as u64, pos + 1));
    }
    let low = (b - 128) as u64;
    match decode_varint(bytes, pos + 1) {
        None => {
            proof {
                assert forall|v: u64, end: int|
                    pos <= end <= bytes@.len() implies bytes@.subrange(pos as int, end as int)
                    != spec_varint(v as nat) by {
                    if bytes@.subrange(pos as int, end as int) == spec_varint(v as nat) {
                        lemma_varint_nonempty(v as nat);
                        assert(spec_varint(v as nat)[0] == b);
                        assert(v >= 128) by {
                            if v < 128 {
                                assert(b == v as u8);
                            }
                        }
                        let tail = (v as nat) / 128;
                        lemma_varint_tail(bytes@, pos as int, v as nat, end);
                        assert(tail <= u64::MAX as nat);
                    }
                }
            }
            None
        },
        Some((v, end)) => {
            if v == 0 {
                // A continuation byte followed by the encoding of
                // zero is not canonical: no integer encodes this way.
                proof {
                    assert forall|w: u64, e: int|
                        pos <= e <= bytes@.len() implies bytes@.subrange(pos as int, e as int)
                        != spec_varint(w as nat) by {
                        if bytes@.subrange(pos as int, e as int) == spec_varint(w as nat) {
                            lemma_varint_nonempty(w as nat);
                            assert(spec_varint(w as nat)[0] == b);
                            assert(w >= 128) by {
                                if w < 128 {
                                    assert(b == w as u8);
                                }
                            }
                            let tail = (w as nat) / 128;
                            lemma_varint_tail(bytes@, pos as int, w as nat, e);
                            lemma_varint_unique(bytes@, pos + 1, tail, e, 0nat, end as int);
                            assert(w as nat >= 128);
                            assert(tail >= 1) by (nonlinear_arith)
                                requires
                                    w as nat >= 128 && tail == (w as nat) / 128,
                            ;
                        }
                    }
                }
                return None;
            }
            if v > (u64::MAX - low) / 128 {
                // The encoded integer does not fit in 64 bits.
                proof {
                    assert forall|w: u64, e: int|
                        pos <= e <= bytes@.len() implies bytes@.subrange(pos as int, e as int)
                        != spec_varint(w as nat) by {
                        if bytes@.subrange(pos as int, e as int) == spec_varint(w as nat) {
                            lemma_varint_nonempty(w as nat);
                            assert(spec_varint(w as nat)[0] == b);
                            assert(w >= 128) by {
                                if w < 128 {
                                    assert(b == w as u8);
                                }
                            }
                            let tail = (w as nat) / 128;
                            lemma_varint_tail(bytes@, pos as int, w as nat, e);
                            lemma_varint_unique(bytes@, pos + 1, tail, e, v as nat, end as int);
                            assert(w as nat == 128 * tail + (w as nat) % 128);
                            assert((w as nat) % 128 == (b - 128) as nat);
                            assert(w as nat >= 128 * (v as nat) + low as nat);
                            assert(128 * (v as nat) + low as nat > u64::MAX as nat) by (
                            nonlinear_arith)
                                requires
                                    v as nat > ((u64::MAX - low) / 128) as nat,
                                    low < 128,
                                    low == (u64::MAX - (u64::MAX - low)) as nat,
                            ;
                        }
                    }
                }
                return None;
            }
            let value = v * 128 + low;
            proof {
                assert(value as nat >= 128) by (nonlinear_arith)
                    requires
                        value as nat == 128 * (v as nat) + (low as nat),
                        v >= 1,
                ;
                assert((value as nat) % 128 == low as nat && (value as nat) / 128 == v as nat) by (
                nonlinear_arith)
                    requires
                        value as nat == 128 * (v as nat) + (low as nat),
                        low < 128,
                ;
                assert(b == (128 + (value as nat) % 128) as u8);
                assert(bytes@.subrange(pos as int, end as int) =~= seq![b] + bytes@.subrange(
                    pos + 1,
                    end as int,
                ));
                assert(bytes@.subrange(pos as int, end as int) == spec_varint(value as nat));
            }
            Some((value, end))
        },
    }
}

/// A control envelope: the team the channel belongs to, and the
/// opaque policy-signed blob that creates it on the peer.
#[derive(PartialEq, Eq, Debug)]
pub struct ControlEnvelope {
    /// The team the control message belongs to.
    pub team_id: TeamId,
    /// The opaque control blob produced by the policy engine.
    pub blob: Vec<u8>,
}

/// The encoding of a control envelope.
pub open spec fn spec_encode_envelope(team: Seq<u8>, blob: Seq<u8>) -> Seq<u8> {
    team + spec_varint(blob.len()) + blob
}

/// Encodes a control envelope.
pub fn encode_envelope(env: &ControlEnvelope) -> (r: Vec<u8>)
    requires
        env.team_id.wf(),
        env.blob@.len() <= u64::MAX,
    ensures
        r@ == spec_encode_envelope(env.team_id@, env.blob@),
{
    let mut out = copy_bytes(env.team_id.as_bytes());
    let len_bytes = encode_varint(env.blob.len() as u64);
    extend_bytes(&mut out, &len_bytes);
    extend_bytes(&mut out, &env.blob);
    proof {
        assert(out@ =~= spec_encode_envelope(env.team_id@, env.blob@));
    }
    out
}

/// Decodes a control envelope.
///
/// Succeeds exactly when the bytes are the encoding of some envelope,
/// and returns that envelope; fails with the wire error otherwise.
pub fn decode_envelope(bytes: &Vec<u8>) -> (r: Result<ControlEnvelope, AqcError>)
    ensures
        r matches Ok(env) ==> env.team_id.wf() && bytes@ == spec_encode_envelope(
            env.team_id@,
            env.blob@,
        ),
        r matches Err(e) ==> e == AqcError::Serde && forall|team: Seq<u8>, blob: Seq<u8>|
            team.len() == ID_LEN ==> bytes@ != spec_encode_envelope(team, blob),
{
    if bytes.len() < ID_LEN {
        proof {
            assert forall|team: Seq<u8>, blob: Seq<u8>| team.len() == ID_LEN implies bytes@
                != spec_encode_envelope(team, blob) by {
                lemma_varint_nonempty(blob.len());
            }
        }
        return Err(AqcError::Serde);
    }
    let mut team_bytes: Vec<u8> = Vec::new();
    let mut i: usize = 0;
    while i < ID_LEN
        invariant
            i <= ID_LEN,
            bytes@.len() >= ID_LEN,
            team_bytes@ == bytes@.subrange(0, i as int),
        decreases ID_LEN - i,
    {
        team_bytes.push(bytes[i]);
        i = i + 1;
        proof {
            assert(team_bytes@ =~= bytes@.subrange(0, i as int));
        }
    }
    let team_id = TeamId::new(team_bytes);
    match decode_varint(bytes, ID_LEN) {
        None => {
            proof {
                assert forall|team: Seq<u8>, blob: Seq<u8>| team.len() == ID_LEN implies bytes@
                    != spec_encode_envelope(team, blob) by {
                    if bytes@ == spec_encode_envelope(team, blob) {
                        let vlen = spec_varint(blob.len()).len();
                        assert(bytes@.subrange(ID_LEN as int, ID_LEN + vlen) =~= spec_varint(
                            blob.len(),
                        ));
                        assert(blob.len() <= u64::MAX || blob.len() > u64::MAX);
                        if blob.len() <= u64::MAX {
                            let v64: u64 = blob.len() as u64;
                            assert(bytes@.subrange(ID_LEN as int, ID_LEN + vlen) == spec_varint(
                                v64 as nat,
                            ));
                        } else {
                            assert(blob.len() <= bytes@.len());
                        }
                    }
                }
            }
            Err(AqcError::Serde)
        },
        Some((blob_len, body_start)) => {
            let remaining = bytes.len() - body_start;
            if blob_len != remaining as u64 {
                proof {
                    assert forall|team: Seq<u8>, blob: Seq<u8>| team.len() == ID_LEN implies bytes@
                        != spec_encode_envelope(team, blob) by {
                        if bytes@ == spec_encode_envelope(team, blob) {
                            let vlen = spec_varint(blob.len()).len();
                            assert(bytes@.subrange(ID_LEN as int, ID_LEN + vlen) =~= spec_varint(
                                blob.len(),
                            ));
                            assert(blob.len() <= bytes@.len());
                            let bl64: u64 = blob.len() as u64;
                            lemma_varint_unique(
                                bytes@,
                                ID_LEN as int,
                                bl64 as nat,
                                ID_LEN + vlen,
                                blob_len as nat,
                                body_start as int,
                            );
                            assert(bytes@.len() == ID_LEN + vlen + blob.len());
                        }
                    }
                }
                return Err(AqcError::Serde);
            }
            let mut blob: Vec<u8> = Vec::new();
            let mut j: usize = body_start;
            while j < bytes.len()
                invariant
                    body_start <= j <= bytes@.len(),
                    blob@ == bytes@.subrange(body_start as int, j as int),
                decreases bytes@.len() - j,
            {
                blob.push(bytes[j]);
                j = j + 1;
                proof {
                    assert(blob@ =~= bytes@.subrange(body_start as int, j as int));
                }
            }
            proof {
                assert(bytes@ =~= spec_encode_envelope(team_id@, blob@));
            }
            Ok(ControlEnvelope { team_id, blob })
        },
    }
}

/// The acknowledgement that ends a control exchange.
#[derive(PartialEq, Eq, Debug)]
pub enum AckMessage {
    /// The control blob was applied and its keys installed.
    Success,
    /// The receiver rejected the control message; the payload is the
    /// UTF-8 bytes of its reason.
    Failure(Vec<u8>),
}

/// The encoding of an acknowledgement.
pub open spec fn spec_encode_ack(ack: &AckMessage) -> Seq<u8> {
    match ack {
        AckMessage::Success => seq![0x00u8],
        AckMessage::Failure(msg) => seq![0x01u8] + spec_varint(msg@.len()) + msg@,
    }
}

/// Encodes an acknowledgement.
pub fn encode_ack(ack: &AckMessage) -> (r: Vec<u8>)
    requires
        ack matches AckMessage::Failure(msg) ==> msg@.len() <= u64::MAX,
    ensures
        r@ == spec_encode_ack(ack),
{
    match ack {
        AckMessage::Success => {
            let mut out: Vec<u8> = Vec::new();
            out.push(0x00);
            proof {
                assert(out@ =~= spec_encode_ack(ack));
            }
            out
        },
        AckMessage::Failure(msg) => {
            let mut out: Vec<u8> = Vec::new();
            out.push(0x01);
            let len_bytes = encode_varint(msg.len() as u64);
            extend_bytes(&mut out, &len_bytes);
            extend_bytes(&mut out, msg);
            proof {
                assert(out@ =~= spec_encode_ack(ack));
            }
            out
        },
    }
}

/// Decodes an acknowledgement.
///
/// Succeeds exactly when the bytes are the encoding of some
/// acknowledgement, and returns it; fails with the wire error
/// otherwise.
pub fn decode_ack(bytes: &Vec<u8>) -> (r: Result<AckMessage, AqcError>)
    ensures
        r matches Ok(ack) ==> bytes@ == spec_encode_ack(&ack),
        r matches Err(e) ==> e == AqcError::Serde && forall|ack: AckMessage|
            bytes@ != spec_encode_ack(&ack),
{
    if bytes.len() == 0 {
        proof {
            assert forall|ack: AckMessage| bytes@ != spec_encode_ack(&ack) by {
                match ack {
                    AckMessage::Failure(m) => lemma_varint_nonempty(m@.len()),
                    AckMessage::Success => (),
                }
            }
        }
        return Err(AqcError::Serde);
    }
    let tag = bytes[0];
    if tag == 0x00 {
        if bytes.len() == 1 {
            proof {
                assert(bytes@ =~= spec_encode_ack(&AckMessage::Success));
            }
            return Ok(AckMessage::Success);
        }
        proof {
            assert forall|ack: AckMessage| bytes@ != spec_encode_ack(&ack) by {
                match ack {
                    AckMessage::Failure(m) => assert(spec_encode_ack(&ack)[0] == 0x01u8),
                    AckMessage::Success => (),
                }
            }
        }
        return Err(AqcError::Serde);
    }
    if tag != 0x01 {
        proof {
            assert forall|ack: AckMessage| bytes@ != spec_encode_ack(&ack) by {
                match ack {
                    AckMessage::Failure(m) => assert(spec_encode_ack(&ack)[0] == 0x01u8),
                    AckMessage::Success => assert(spec_encode_ack(&ack)[0] == 0x00u8),
                }
            }
        }
        return Err(AqcError::Serde);
    }
    match decode_varint(bytes, 1) {
        None => {
            proof {
                assert forall|ack: AckMessage| bytes@ != spec_encode_ack(&ack) by {
                    if bytes@ == spec_encode_ack(&ack) {
                        match ack {
                            AckMessage::Failure(m) => {
                                let vlen = spec_varint(m@.len()).len() as int;
                                assert(bytes@.subrange(1, 1 + vlen) =~= spec_varint(m@.len()));
                                assert(m@.len() <= bytes@.len());
                                let v64: u64 = m@.len() as u64;
                                assert(bytes@.subrange(1, 1 + vlen) == spec_varint(v64 as nat));
                            },
                            AckMessage::Success => (),
                        }
                    }
                }
            }
            Err(AqcError::Serde)
        },
        Some((msg_len, body_start)) => {
            let remaining = bytes.len() - body_start;
            if msg_len != remaining as u64 {
                proof {
                    assert forall|ack: AckMessage| bytes@ != spec_encode_ack(&ack) by {
                        if bytes@ == spec_encode_ack(&ack) {
                            match ack {
                                AckMessage::Failure(m) => {
                                    let vlen = spec_varint(m@.len()).len() as int;
                                    assert(bytes@.subrange(1, 1 + vlen) =~= spec_varint(m@.len()));
                                    assert(m@.len() <= bytes@.len());
                                    let ml64: u64 = m@.len() as u64;
                                    lemma_varint_unique(
                                        bytes@,
                                        1,
                                        ml64 as nat,
                                        1 + vlen,
                                        msg_len as nat,
                                        body_start as int,
                                    );
                                    assert(bytes@.len() == 1 + vlen + m@.len());
                                },
                                AckMessage::Success => (),
                            }
                        }
                    }
                }
                return Err(AqcError::Serde);
            }
            let mut msg: Vec<u8> = Vec::new();
            let mut j: usize = body_start;
            while j < bytes.len()
                invariant
                    body_start <= j <= bytes@.len(),
                    msg@ == bytes@.subrange(body_start as int, j as int),
                decreases bytes@.len() - j,
            {
                msg.push(bytes[j]);
                j = j + 1;
                proof {
                    assert(msg@ =~= bytes@.subrange(body_start as int, j as int));
                }
            }
            proof {
                assert(bytes@ =~= spec_encode_ack(&AckMessage::Failure(msg)));
            }
            Ok(AckMessage::Failure(msg))
        },
    }
}

/// Round trip of the envelope encoding: decoding what `encode` wrote
/// yields the original team and blob, for every well-formed envelope.
pub proof fn lemma_envelope_unambiguous(t1: Seq<u8>, b1: Seq<u8>, t2: Seq<u8>, b2: Seq<u8>)
    requires
        t1.len() == ID_LEN,
        t2.len() == ID_LEN,
        spec_encode_envelope(t1, b1) == spec_encode_envelope(t2, b2),
    ensures
        t1 == t2,
        b1 == b2,
{
    let e1 = spec_encode_envelope(t1, b1);
    let e2 = spec_encode_envelope(t2, b2);
    assert(t1 =~= e1.subrange(0, ID_LEN as int));
    assert(t2 =~= e2.subrange(0, ID_LEN as int));
    let v1 = spec_varint(b1.len()).len();
    let v2 = spec_varint(b2.len()).len();
    assert(e1.subrange(ID_LEN as int, ID_LEN + v1) =~= spec_varint(b1.len()));
    assert(e2.subrange(ID_LEN as int, ID_LEN + v2) =~= spec_varint(b2.len()));
    lemma_varint_unique(e1, ID_LEN as int, b1.len(), ID_LEN + v1, b2.len(), ID_LEN + v2);
    assert(b1 =~= e1.subrange(ID_LEN + v1, e1.len() as int));
    assert(b2 =~= e2.subrange(ID_LEN + v2, e2.len() as int));
}

} // verus!
