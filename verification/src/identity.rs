//! The bit-exact PSK identity encoding.
//!
//! Every PSK the channel plane installs is keyed by a 37-byte identity:
//!
//! ```text
//! byte  0      version = 0x01
//! byte  1      kind    = 0x00 bootstrap | 0x01 bidi | 0x02 uni
//! bytes 2..34  channel id (32 bytes; all zero for bootstrap)
//! bytes 34..36 suite code (big-endian IANA TLS cipher suite code)
//! byte  36     direction = 0x00 any/bidi | 0x01 send | 0x02 recv
//! ```
//!
//! The direction byte is a property of the channel, never of one
//! endpoint: a bidirectional channel carries 0x00, and a
//! unidirectional channel carries the one value both its endpoints
//! compute (whether its author sends or receives).  Both ends of a
//! channel therefore derive byte-identical identities, which is how
//! the TLS layer matches their keys.  The bootstrap identity is the
//! fixed identity with kind 0x00, an all-zero channel id, suite code
//! zero and direction zero; its kind byte distinguishes it from
//! every channel identity.

use vstd::prelude::*;

use crate::bytes_util::extend_bytes;
use crate::ids::{ChannelId, ID_LEN};
use crate::suites::CipherSuite;

verus! {

/// The length in bytes of every PSK identity.
pub const IDENTITY_LEN: usize = 37;

/// The version byte every identity starts with.
pub const IDENTITY_VERSION: u8 = 0x01;

/// A direction of traffic: the direction class of a channel in its
/// PSK identities, and the permission of one endpoint in the channel
/// metadata.
#[derive(Clone, Copy, PartialEq, Eq, Structural, Debug)]
pub enum Direction {
    /// Either direction; the direction class of a bidirectional
    /// channel.
    Bidi,
    /// Send-only: as a channel class, the author sends; as a
    /// permission, this endpoint may send.
    Send,
    /// Receive-only: as a channel class, the author receives; as a
    /// permission, this endpoint may receive.
    Recv,
}

impl Direction {
    /// The direction byte of a PSK identity.
    pub open spec fn spec_byte(self) -> u8 {
        match self {
            Direction::Bidi => 0x00,
            Direction::Send => 0x01,
            Direction::Recv => 0x02,
        }
    }

    /// Returns the direction byte.
    pub fn byte(self) -> (r: u8)
        ensures
            r == self.spec_byte(),
    {
        match self {
            Direction::Bidi => 0x00,
            Direction::Send => 0x01,
            Direction::Recv => 0x02,
        }
    }

    /// The direction encoded by a byte, if any.
    pub open spec fn spec_from_byte(b: u8) -> Option<Direction> {
        if b == 0x00 {
            Some(Direction::Bidi)
        } else if b == 0x01 {
            Some(Direction::Send)
        } else if b == 0x02 {
            Some(Direction::Recv)
        } else {
            None
        }
    }

    /// Decodes a direction byte.
    pub fn from_byte(b: u8) -> (r: Option<Direction>)
        ensures
            r == Self::spec_from_byte(b),
    {
        if b == 0x00 {
            Some(Direction::Bidi)
        } else if b == 0x01 {
            Some(Direction::Send)
        } else if b == 0x02 {
            Some(Direction::Recv)
        } else {
            None
        }
    }
}

/// A channel's kind fixes which direction class its PSK identities
/// may carry: a bidirectional channel's identities carry 0x00, a
/// unidirectional channel's carry its one class, send or receive.
pub open spec fn direction_fits(chan: &ChannelId, dir: Direction) -> bool {
    match chan {
        ChannelId::Bidi(_) => dir == Direction::Bidi,
        ChannelId::Uni(_) => dir == Direction::Send || dir == Direction::Recv,
    }
}

/// The encoded identity of a channel PSK.
pub open spec fn spec_identity(chan: &ChannelId, suite: CipherSuite, dir: Direction) -> Seq<u8> {
    seq![IDENTITY_VERSION, chan.spec_kind_byte()] + chan.spec_id_bytes() + seq![
        (suite.spec_code() / 256) as u8,
        (suite.spec_code() % 256) as u8,
        dir.spec_byte(),
    ]
}

/// The fixed 37-byte bootstrap identity.
pub open spec fn spec_bootstrap_identity() -> Seq<u8> {
    seq![IDENTITY_VERSION, 0x00u8] + Seq::new(ID_LEN as nat, |i: int| 0x00u8) + seq![
        0x00u8,
        0x00u8,
        0x00u8,
    ]
}

/// The compiled-in bootstrap PSK secret, derivable by all nodes.
pub open spec fn spec_bootstrap_secret() -> Seq<u8> {
    Seq::new(ID_LEN as nat, |i: int| (0x40 + i) as u8)
}

/// Builds the compiled-in bootstrap PSK secret.
pub fn bootstrap_secret() -> (r: Vec<u8>)
    ensures
        r@ == spec_bootstrap_secret(),
{
    let mut out: Vec<u8> = Vec::new();
    let mut i: usize = 0;
    while i < ID_LEN
        invariant
            i <= ID_LEN,
            out@.len() == i,
            forall|j: int| 0 <= j < i ==> out@[j] == (0x40 + j) as u8,
        decreases ID_LEN - i,
    {
        out.push(0x40 + (i as u8));
        i = i + 1;
    }
    proof {
        assert(out@ =~= spec_bootstrap_secret());
    }
    out
}

/// What a well-formed identity decodes to.
#[derive(PartialEq, Eq, Debug)]
pub enum IdentityInfo {
    /// The fixed bootstrap identity, used only to carry control
    /// messages.
    Bootstrap,
    /// A channel PSK identity.
    Channel {
        /// The channel that owns the PSK.
        channel_id: ChannelId,
        /// The suite the PSK belongs to.
        suite: CipherSuite,
        /// The channel's direction class.
        direction: Direction,
    },
}

/// Encodes the identity of a channel PSK.
pub fn encode_identity(chan: &ChannelId, suite: CipherSuite, dir: Direction) -> (r: Vec<u8>)
    requires
        chan.wf(),
    ensures
        r@ == spec_identity(chan, suite, dir),
        r@.len() == IDENTITY_LEN,
{
    let mut out: Vec<u8> = Vec::new();
    out.push(IDENTITY_VERSION);
    out.push(chan.kind_byte());
    extend_bytes(&mut out, chan.id_bytes());
    let code = suite.code();
    out.push((code / 256) as u8);
    out.push((code % 256) as u8);
    out.push(dir.byte());
    proof {
        assert(out@ =~= spec_identity(chan, suite, dir));
    }
    out
}

/// Builds the fixed bootstrap identity.
pub fn bootstrap_identity() -> (r: Vec<u8>)
    ensures
        r@ == spec_bootstrap_identity(),
        r@.len() == IDENTITY_LEN,
{
    let mut out: Vec<u8> = Vec::new();
    out.push(IDENTITY_VERSION);
    out.push(0x00);
    let mut i: usize = 0;
    while i < ID_LEN
        invariant
            i <= ID_LEN,
            out@.len() == i + 2,
            out@[0] == IDENTITY_VERSION,
            out@[1] == 0x00u8,
            forall|j: int| 2 <= j < out@.len() ==> out@[j] == 0x00u8,
        decreases ID_LEN - i,
    {
        out.push(0x00);
        i = i + 1;
    }
    out.push(0x00);
    out.push(0x00);
    out.push(0x00);
    proof {
        assert(out@ =~= spec_bootstrap_identity());
    }
    out
}

/// Whether the bytes are a well-formed channel identity for the given
/// decoded parts.
pub open spec fn spec_decodes_to_channel(
    bytes: Seq<u8>,
    chan: &ChannelId,
    suite: CipherSuite,
    dir: Direction,
) -> bool {
    &&& bytes == spec_identity(chan, suite, dir)
    &&& chan.wf()
    &&& direction_fits(chan, dir)
}

/// Decodes a PSK identity.
///
/// Returns the bootstrap marker exactly on the fixed bootstrap bytes,
/// a channel identity exactly on a well-formed 37-byte channel
/// encoding whose direction fits its kind, and nothing otherwise.
pub fn decode_identity(bytes: &Vec<u8>) -> (r: Option<IdentityInfo>)
    ensures
        (r matches Some(info) && info == IdentityInfo::Bootstrap) <==> bytes@
            == spec_bootstrap_identity(),
        r matches Some(info) ==> (info matches IdentityInfo::Channel { channel_id, suite, direction }
            ==> spec_decodes_to_channel(bytes@, &channel_id, suite, direction)),
        r is None ==> (bytes@ != spec_bootstrap_identity() && forall|c: ChannelId,
            s: CipherSuite,
            d: Direction,
        | !spec_decodes_to_channel(bytes@, &c, s, d)),
{
    if bytes.len() != IDENTITY_LEN {
        proof {
            lemma_none_case(bytes@);
        }
        return None;
    }
    if bytes[0] != IDENTITY_VERSION {
        proof {
            lemma_none_case(bytes@);
        }
        return None;
    }
    let kind = bytes[1];
    if kind == 0x00 {
        // Possibly the bootstrap identity: every remaining byte must
        // be zero.
        let mut i: usize = 2;
        while i < IDENTITY_LEN
            invariant
                2 <= i <= IDENTITY_LEN,
                bytes@.len() == IDENTITY_LEN,
                bytes@[0] == IDENTITY_VERSION,
                bytes@[1] == 0x00u8,
                forall|j: int| 2 <= j < i ==> bytes@[j] == 0x00u8,
            decreases IDENTITY_LEN - i,
        {
            if bytes[i] != 0x00 {
                proof {
                    assert(bytes@ != spec_bootstrap_identity()) by {
                        assert(spec_bootstrap_identity()[i as int] == 0x00u8);
                    }
                    lemma_none_case(bytes@);
                }
                return None;
            }
            i = i + 1;
        }
        proof {
            assert(bytes@ =~= spec_bootstrap_identity());
        }
        return Some(IdentityInfo::Bootstrap);
    }
    if kind != 0x01 && kind != 0x02 {
        proof {
            lemma_none_case(bytes@);
        }
        return None;
    }
    let mut id: Vec<u8> = Vec::new();
    let mut i: usize = 2;
    while i < 2 + ID_LEN
        invariant
            2 <= i <= 2 + ID_LEN,
            bytes@.len() == IDENTITY_LEN,
            id@ == bytes@.subrange(2, i as int),
        decreases 2 + ID_LEN - i,
    {
        id.push(bytes[i]);
        i = i + 1;
        proof {
            assert(id@ =~= bytes@.subrange(2, i as int));
        }
    }
    let code: u16 = (bytes[34] as u16) * 256 + (bytes[35] as u16);
    let suite = match CipherSuite::from_code(code) {
        Some(s) => s,
        None => {
            proof {
                lemma_none_code(bytes@);
            }
            return None;
        },
    };
    let direction = match Direction::from_byte(bytes[36]) {
        Some(d) => d,
        None => {
            proof {
                lemma_none_dir(bytes@);
            }
            return None;
        },
    };
    let chan = if kind == 0x01 {
        ChannelId::Bidi(id)
    } else {
        ChannelId::Uni(id)
    };
    match (chan.kind_byte(), direction) {
        (0x01, Direction::Bidi) | (0x02, Direction::Send) | (0x02, Direction::Recv) => {
            proof {
                assert(bytes@ =~= spec_identity(&chan, suite, direction));
            }
            Some(IdentityInfo::Channel { channel_id: chan, suite, direction })
        },
        _ => {
            proof {
                lemma_none_fit(bytes@);
            }
            None
        },
    }
}

/// No decoded parts fit bytes that fail the length, version or kind
/// checks.
proof fn lemma_none_case(bytes: Seq<u8>)
    requires
        bytes.len() != IDENTITY_LEN || bytes[0] != IDENTITY_VERSION || (bytes[1] != 0x01u8
            && bytes[1] != 0x02u8),
    ensures
        forall|c: ChannelId, s: CipherSuite, d: Direction| !spec_decodes_to_channel(bytes, &c, s, d),
{
    assert forall|c: ChannelId, s: CipherSuite, d: Direction| !spec_decodes_to_channel(
        bytes,
        &c,
        s,
        d,
    ) by {
        if spec_decodes_to_channel(bytes, &c, s, d) {
            assert(bytes.len() == 2 + ID_LEN + 3);
            assert(bytes[0] == IDENTITY_VERSION);
            assert(bytes[1] == c.spec_kind_byte());
        }
    }
}

/// No decoded parts fit bytes whose suite code is unsupported.
proof fn lemma_none_code(bytes: Seq<u8>)
    requires
        bytes.len() == IDENTITY_LEN,
        CipherSuite::spec_from_code(((bytes[34] as u16) * 256 + (bytes[35] as u16)) as u16)
            is None,
    ensures
        forall|c: ChannelId, s: CipherSuite, d: Direction| !spec_decodes_to_channel(bytes, &c, s, d),
{
    assert forall|c: ChannelId, s: CipherSuite, d: Direction| !spec_decodes_to_channel(
        bytes,
        &c,
        s,
        d,
    ) by {
        if spec_decodes_to_channel(bytes, &c, s, d) {
            assert(bytes[34] == (s.spec_code() / 256) as u8);
            assert(bytes[35] == (s.spec_code() % 256) as u8);
            assert((bytes[34] as u16) * 256 + (bytes[35] as u16) == s.spec_code());
        }
    }
}

/// No decoded parts fit bytes whose direction byte is unknown.
proof fn lemma_none_dir(bytes: Seq<u8>)
    requires
        bytes.len() == IDENTITY_LEN,
        Direction::spec_from_byte(bytes[36]) is None,
    ensures
        forall|c: ChannelId, s: CipherSuite, d: Direction| !spec_decodes_to_channel(bytes, &c, s, d),
{
    assert forall|c: ChannelId, s: CipherSuite, d: Direction| !spec_decodes_to_channel(
        bytes,
        &c,
        s,
        d,
    ) by {
        if spec_decodes_to_channel(bytes, &c, s, d) {
            assert(bytes[36] == d.spec_byte());
        }
    }
}

/// No decoded parts fit bytes whose direction does not fit their kind.
proof fn lemma_none_fit(bytes: Seq<u8>)
    requires
        bytes.len() == IDENTITY_LEN,
        ({
            let kind = bytes[1];
            let dir = Direction::spec_from_byte(bytes[36]);
            dir matches Some(d) && ((kind == 0x01u8 && d != Direction::Bidi) || (kind == 0x02u8
                && d == Direction::Bidi))
        }),
    ensures
        forall|c: ChannelId, s: CipherSuite, d: Direction| !spec_decodes_to_channel(bytes, &c, s, d),
{
    assert forall|c: ChannelId, s: CipherSuite, d: Direction| !spec_decodes_to_channel(
        bytes,
        &c,
        s,
        d,
    ) by {
        if spec_decodes_to_channel(bytes, &c, s, d) {
            assert(bytes[1] == c.spec_kind_byte());
            assert(bytes[36] == d.spec_byte());
        }
    }
}

/// Every channel identity differs from the bootstrap identity: their
/// kind bytes differ.
pub proof fn lemma_channel_identity_not_bootstrap(
    chan: &ChannelId,
    suite: CipherSuite,
    dir: Direction,
)
    ensures
        spec_identity(chan, suite, dir) != spec_bootstrap_identity(),
{
    assert(spec_identity(chan, suite, dir)[1] != spec_bootstrap_identity()[1]);
}

/// Encoding then decoding a channel PSK identity yields the original
/// channel, suite and direction.
pub proof fn lemma_identity_round_trip(chan: &ChannelId, suite: CipherSuite, dir: Direction)
    requires
        chan.wf(),
        direction_fits(chan, dir),
    ensures
        spec_decodes_to_channel(spec_identity(chan, suite, dir), chan, suite, dir),
{
}

/// Two identities that encode different parts differ as bytes: the
/// encoding is injective over well-formed inputs.
pub proof fn lemma_identity_injective(
    c1: &ChannelId,
    s1: CipherSuite,
    d1: Direction,
    c2: &ChannelId,
    s2: CipherSuite,
    d2: Direction,
)
    requires
        c1.wf(),
        c2.wf(),
        spec_identity(c1, s1, d1) == spec_identity(c2, s2, d2),
    ensures
        c1.key() == c2.key(),
        s1 == s2,
        d1 == d2,
{
    let b1 = spec_identity(c1, s1, d1);
    let b2 = spec_identity(c2, s2, d2);
    assert(b1[1] == c1.spec_kind_byte() && b2[1] == c2.spec_kind_byte());
    assert(c1.spec_id_bytes() =~= b1.subrange(2, 34));
    assert(c2.spec_id_bytes() =~= b2.subrange(2, 34));
    assert(c1.key() =~= c2.key());
    assert(b1[34] == (s1.spec_code() / 256) as u8 && b1[35] == (s1.spec_code() % 256) as u8);
    assert((b1[34] as u16) * 256 + (b1[35] as u16) == s1.spec_code());
    assert((b2[34] as u16) * 256 + (b2[35] as u16) == s2.spec_code());
    assert(b1[36] == d1.spec_byte() && b2[36] == d2.spec_byte());
}

/// The channel a PSK identity belongs to, as a spec key; meaningful
/// only for channel identities.
pub open spec fn spec_identity_channel_key(bytes: Seq<u8>) -> Seq<u8> {
    seq![bytes[1]] + bytes.subrange(2, 34)
}

/// Whether a well-formed channel identity belongs to the channel.
pub open spec fn identity_of_channel(bytes: Seq<u8>, chan: &ChannelId) -> bool {
    bytes.len() == IDENTITY_LEN && spec_identity_channel_key(bytes) == chan.key()
}

/// Reports whether an encoded identity belongs to the given channel:
/// true exactly when the bytes are 37 long and their kind and channel
/// bytes equal the channel's.
pub fn identity_belongs_to(bytes: &Vec<u8>, chan: &ChannelId) -> (r: bool)
    requires
        chan.wf(),
    ensures
        r == identity_of_channel(bytes@, chan),
{
    if bytes.len() != IDENTITY_LEN {
        return false;
    }
    if bytes[1] != chan.kind_byte() {
        proof {
            if spec_identity_channel_key(bytes@) == chan.key() {
                assert(spec_identity_channel_key(bytes@)[0] == chan.key()[0]);
            }
        }
        return false;
    }
    let id = chan.id_bytes();
    let mut i: usize = 0;
    while i < ID_LEN
        invariant
            i <= ID_LEN,
            bytes@.len() == IDENTITY_LEN,
            chan.wf(),
            id@ == chan.spec_id_bytes(),
            bytes@[1] == chan.spec_kind_byte(),
            forall|j: int| 0 <= j < i ==> bytes@[2 + j] == id@[j],
        decreases ID_LEN - i,
    {
        if bytes[2 + i] != id[i] {
            proof {
                if spec_identity_channel_key(bytes@) == chan.key() {
                    assert(spec_identity_channel_key(bytes@)[1 + i] == chan.key()[1 + i]);
                    assert(bytes@[2 + i] == chan.spec_id_bytes()[i as int]);
                }
            }
            return false;
        }
        i = i + 1;
    }
    proof {
        assert(spec_identity_channel_key(bytes@) =~= chan.key());
    }
    true
}

/// The bootstrap identity belongs to no channel: its kind byte is
/// neither channel kind, so dropping a channel's family never touches
/// the bootstrap key.
pub proof fn lemma_bootstrap_not_of_channel(chan: &ChannelId)
    ensures
        !identity_of_channel(spec_bootstrap_identity(), chan),
{
    assert(spec_identity_channel_key(spec_bootstrap_identity())[0] == 0x00u8);
    assert(chan.key()[0] == chan.spec_kind_byte());
}

/// An identity produced by `spec_identity` belongs to exactly its own
/// channel.
pub proof fn lemma_identity_channel_key(chan: &ChannelId, suite: CipherSuite, dir: Direction)
    requires
        chan.wf(),
    ensures
        identity_of_channel(spec_identity(chan, suite, dir), chan),
{
    let bytes = spec_identity(chan, suite, dir);
    assert(spec_identity_channel_key(bytes) =~= chan.key());
}

} // verus!
