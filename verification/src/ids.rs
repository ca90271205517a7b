//! Opaque 32-byte identifiers of the trust fabric.
//!
//! Teams, devices, labels and channels are all named by 32-byte values
//! minted elsewhere; this crate treats them as opaque bytes compared
//! for equality.  A channel identifier additionally carries its kind
//! (bidirectional or unidirectional).

use vstd::prelude::*;

use crate::AqcError;
use crate::bytes_util::{bytes_eq, copy_bytes};

verus! {

/// The length in bytes of every identifier.
pub const ID_LEN: usize = 32;

/// An opaque 32-byte team identifier.
#[derive(PartialEq, Eq, Debug)]
pub struct TeamId {
    bytes: Vec<u8>,
}

/// An opaque 32-byte device identifier.
#[derive(PartialEq, Eq, Debug)]
pub struct DeviceId {
    bytes: Vec<u8>,
}

/// An opaque 32-byte label identifier, minted by policy.
#[derive(PartialEq, Eq, Debug)]
pub struct LabelId {
    bytes: Vec<u8>,
}

impl View for TeamId {
    type V = Seq<u8>;

    closed spec fn view(&self) -> Seq<u8> {
        self.bytes@
    }
}

impl View for DeviceId {
    type V = Seq<u8>;

    closed spec fn view(&self) -> Seq<u8> {
        self.bytes@
    }
}

impl View for LabelId {
    type V = Seq<u8>;

    closed spec fn view(&self) -> Seq<u8> {
        self.bytes@
    }
}

impl TeamId {
    /// The identifier is exactly 32 bytes.
    pub open spec fn wf(&self) -> bool {
        self@.len() == ID_LEN
    }

    /// Wraps 32 raw bytes.
    pub fn new(bytes: Vec<u8>) -> (r: Self)
        requires
            bytes@.len() == ID_LEN,
        ensures
            r@ == bytes@,
    {
        TeamId { bytes }
    }

    /// Parses an identifier from raw bytes; rejects any length other
    /// than 32.
    pub fn parse(bytes: Vec<u8>) -> (r: Result<Self, AqcError>)
        ensures
            bytes@.len() == ID_LEN ==> (r matches Ok(t) && t@ == bytes@),
            bytes@.len() != ID_LEN ==> (r matches Err(e) && e == AqcError::Serde),
    {
        if bytes.len() == ID_LEN {
            Ok(TeamId { bytes })
        } else {
            Err(AqcError::Serde)
        }
    }

    /// The raw bytes.
    pub fn as_bytes(&self) -> (r: &Vec<u8>)
        ensures
            r@ == self@,
    {
        &self.bytes
    }

    /// Byte equality.
    pub fn same(&self, other: &Self) -> (r: bool)
        ensures
            r == (self@ == other@),
    {
        bytes_eq(&self.bytes, &other.bytes)
    }

    /// A copy of this identifier.
    pub fn dup(&self) -> (r: Self)
        ensures
            r@ == self@,
    {
        TeamId { bytes: copy_bytes(&self.bytes) }
    }
}

impl DeviceId {
    /// The identifier is exactly 32 bytes.
    pub open spec fn wf(&self) -> bool {
        self@.len() == ID_LEN
    }

    /// Wraps 32 raw bytes.
    pub fn new(bytes: Vec<u8>) -> (r: Self)
        requires
            bytes@.len() == ID_LEN,
        ensures
            r@ == bytes@,
    {
        DeviceId { bytes }
    }

    /// The raw bytes.
    pub fn as_bytes(&self) -> (r: &Vec<u8>)
        ensures
            r@ == self@,
    {
        &self.bytes
    }

    /// Byte equality.
    pub fn same(&self, other: &Self) -> (r: bool)
        ensures
            r == (self@ == other@),
    {
        bytes_eq(&self.bytes, &other.bytes)
    }

    /// A copy of this identifier.
    pub fn dup(&self) -> (r: Self)
        ensures
            r@ == self@,
    {
        DeviceId { bytes: copy_bytes(&self.bytes) }
    }
}

impl LabelId {
    /// The identifier is exactly 32 bytes.
    pub open spec fn wf(&self) -> bool {
        self@.len() == ID_LEN
    }

    /// Wraps 32 raw bytes.
    pub fn new(bytes: Vec<u8>) -> (r: Self)
        requires
            bytes@.len() == ID_LEN,
        ensures
            r@ == bytes@,
    {
        LabelId { bytes }
    }

    /// The raw bytes.
    pub fn as_bytes(&self) -> (r: &Vec<u8>)
        ensures
            r@ == self@,
    {
        &self.bytes
    }

    /// Byte equality.
    pub fn same(&self, other: &Self) -> (r: bool)
        ensures
            r == (self@ == other@),
    {
        bytes_eq(&self.bytes, &other.bytes)
    }

    /// A copy of this identifier.
    pub fn dup(&self) -> (r: Self)
        ensures
            r@ == self@,
    {
        LabelId { bytes: copy_bytes(&self.bytes) }
    }
}

/// A channel identifier: the kind tag plus 32 opaque bytes derived by
/// the policy engine from the creation command.
#[derive(PartialEq, Eq, Debug)]
pub enum ChannelId {
    /// A bidirectional channel.
    Bidi(Vec<u8>),
    /// A unidirectional channel.
    Uni(Vec<u8>),
}

impl ChannelId {
    /// The 32 raw identifier bytes, without the kind.
    pub open spec fn spec_id_bytes(&self) -> Seq<u8> {
        match self {
            ChannelId::Bidi(b) => b@,
            ChannelId::Uni(b) => b@,
        }
    }

    /// The kind byte as it appears in a PSK identity: 0x01 for
    /// bidirectional, 0x02 for unidirectional.
    pub open spec fn spec_kind_byte(&self) -> u8 {
        match self {
            ChannelId::Bidi(_) => 0x01,
            ChannelId::Uni(_) => 0x02,
        }
    }

    /// The canonical spec key of this channel: kind byte followed by
    /// the 32 identifier bytes.
    pub open spec fn key(&self) -> Seq<u8> {
        seq![self.spec_kind_byte()] + self.spec_id_bytes()
    }

    /// The identifier bytes are exactly 32.
    pub open spec fn wf(&self) -> bool {
        self.spec_id_bytes().len() == ID_LEN
    }

    /// Returns the kind byte.
    pub fn kind_byte(&self) -> (r: u8)
        ensures
            r == self.spec_kind_byte(),
    {
        match self {
            ChannelId::Bidi(_) => 0x01,
            ChannelId::Uni(_) => 0x02,
        }
    }

    /// The raw identifier bytes.
    pub fn id_bytes(&self) -> (r: &Vec<u8>)
        ensures
            r@ == self.spec_id_bytes(),
    {
        match self {
            ChannelId::Bidi(b) => b,
            ChannelId::Uni(b) => b,
        }
    }

    /// Equality of kind and bytes.
    pub fn same(&self, other: &Self) -> (r: bool)
        ensures
            r == (self.key() == other.key()),
    {
        let r = match (self, other) {
            (ChannelId::Bidi(a), ChannelId::Bidi(b)) => bytes_eq(a, b),
            (ChannelId::Uni(a), ChannelId::Uni(b)) => bytes_eq(a, b),
            _ => false,
        };
        proof {
            if self.spec_kind_byte() == other.spec_kind_byte()
                && self.spec_id_bytes() == other.spec_id_bytes() {
                assert(self.key() =~= other.key());
            }
            if self.key() == other.key() {
                assert(self.key()[0] == other.key()[0]);
                assert(self.spec_id_bytes() =~= self.key().subrange(1, self.key().len() as int));
                assert(other.spec_id_bytes() =~= other.key().subrange(
                    1,
                    other.key().len() as int,
                ));
            }
        }
        r
    }

    /// A copy of this identifier.
    pub fn dup(&self) -> (r: Self)
        ensures
            r.key() == self.key(),
            r.spec_id_bytes() == self.spec_id_bytes(),
            r.spec_kind_byte() == self.spec_kind_byte(),
    {
        match self {
            ChannelId::Bidi(b) => ChannelId::Bidi(copy_bytes(b)),
            ChannelId::Uni(b) => ChannelId::Uni(copy_bytes(b)),
        }
    }
}

} // verus!
