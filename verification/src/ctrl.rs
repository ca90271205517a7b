//! The control-message protocol.
//!
//! A channel open ships one control message to the peer over a
//! dedicated bootstrap-keyed connection, and reads one
//! acknowledgement back.  The receiving side is a state machine
//!
//! ```text
//! AwaitStream -> AwaitBody -> Applying -> Acking -> Done
//! ```
//!
//! driven by the endpoint's I/O loop: each transition function here
//! decides what the loop must do next and is the only place the
//! exchange can touch the PSK store or the registry.  Keys and
//! registry entries are installed in the same step that makes the
//! success acknowledgement available, so a peer that has read the
//! acknowledgement can immediately open its data connection.
//!
//! The bootstrap connection carries exactly one exchange: any stream
//! beyond the first is refused with a fixed close code.

use vstd::prelude::*;

use crate::AqcError;
use crate::bytes_util::copy_bytes;
use crate::derive::{PskFamily, distinct_identities};
use crate::ids::TeamId;
use crate::registry::{ChannelInfo, Registry};
use crate::store::{PskStore, family_conflicts};
use crate::wire::{
    AckMessage, ControlEnvelope, decode_envelope, encode_ack, encode_envelope,
    spec_encode_ack, spec_encode_envelope,
};

verus! {

/// The close code with which a bootstrap connection refuses any
/// stream beyond its one control stream.
pub const CTRL_EXCLUSIVITY_CODE: u64 = 0x43;

/// The reason bytes sent when the control envelope cannot be
/// decoded.
pub open spec fn spec_reason_deserialize() -> Seq<u8> {
    // "deserialize: bad envelope"
    seq![
        0x64u8, 0x65u8, 0x73u8, 0x65u8, 0x72u8, 0x69u8, 0x61u8, 0x6cu8, 0x69u8, 0x7au8, 0x65u8,
        0x3au8, 0x20u8, 0x62u8, 0x61u8, 0x64u8, 0x20u8, 0x65u8, 0x6eu8, 0x76u8, 0x65u8, 0x6cu8,
        0x6fu8, 0x70u8, 0x65u8,
    ]
}

/// Builds the deserialisation-failure reason bytes.
pub fn reason_deserialize() -> (r: Vec<u8>)
    ensures
        r@ == spec_reason_deserialize(),
{
    let codes: [u8; 25] = [
        0x64, 0x65, 0x73, 0x65, 0x72, 0x69, 0x61, 0x6c, 0x69, 0x7a, 0x65, 0x3a, 0x20, 0x62, 0x61,
        0x64, 0x20, 0x65, 0x6e, 0x76, 0x65, 0x6c, 0x6f, 0x70, 0x65,
    ];
    let mut r: Vec<u8> = Vec::new();
    let mut i: usize = 0;
    while i < 25
        invariant
            i <= 25,
            r@ == spec_reason_deserialize().subrange(0, i as int),
            codes@ == spec_reason_deserialize(),
        decreases 25 - i,
    {
        r.push(codes[i]);
        i = i + 1;
        proof {
            assert(r@ =~= spec_reason_deserialize().subrange(0, i as int));
        }
    }
    proof {
        assert(r@ =~= spec_reason_deserialize());
    }
    r
}

/// The reason bytes sent when the channel is already registered.
pub open spec fn spec_reason_duplicate() -> Seq<u8> {
    // "duplicate channel"
    seq![
        0x64u8, 0x75u8, 0x70u8, 0x6cu8, 0x69u8, 0x63u8, 0x61u8, 0x74u8, 0x65u8, 0x20u8, 0x63u8,
        0x68u8, 0x61u8, 0x6eu8, 0x6eu8, 0x65u8, 0x6cu8,
    ]
}

/// Builds the duplicate-channel reason bytes.
pub fn reason_duplicate() -> (r: Vec<u8>)
    ensures
        r@ == spec_reason_duplicate(),
{
    let codes: [u8; 17] = [
        0x64, 0x75, 0x70, 0x6c, 0x69, 0x63, 0x61, 0x74, 0x65, 0x20, 0x63, 0x68, 0x61, 0x6e, 0x6e,
        0x65, 0x6c,
    ];
    let mut r: Vec<u8> = Vec::new();
    let mut i: usize = 0;
    while i < 17
        invariant
            i <= 17,
            r@ == spec_reason_duplicate().subrange(0, i as int),
            codes@ == spec_reason_duplicate(),
        decreases 17 - i,
    {
        r.push(codes[i]);
        i = i + 1;
        proof {
            assert(r@ =~= spec_reason_duplicate().subrange(0, i as int));
        }
    }
    proof {
        assert(r@ =~= spec_reason_duplicate());
    }
    r
}

/// The reason bytes sent when a PSK identity of the family is
/// already installed with a different secret.
pub open spec fn spec_reason_conflict() -> Seq<u8> {
    // "psk conflict"
    seq![0x70u8, 0x73u8, 0x6bu8, 0x20u8, 0x63u8, 0x6fu8, 0x6eu8, 0x66u8, 0x6cu8, 0x69u8, 0x63u8, 0x74u8]
}

/// Builds the PSK-conflict reason bytes.
pub fn reason_conflict() -> (r: Vec<u8>)
    ensures
        r@ == spec_reason_conflict(),
{
    let codes: [u8; 12] = [0x70, 0x73, 0x6b, 0x20, 0x63, 0x6f, 0x6e, 0x66, 0x6c, 0x69, 0x63, 0x74];
    let mut r: Vec<u8> = Vec::new();
    let mut i: usize = 0;
    while i < 12
        invariant
            i <= 12,
            r@ == spec_reason_conflict().subrange(0, i as int),
            codes@ == spec_reason_conflict(),
        decreases 12 - i,
    {
        r.push(codes[i]);
        i = i + 1;
        proof {
            assert(r@ =~= spec_reason_conflict().subrange(0, i as int));
        }
    }
    proof {
        assert(r@ =~= spec_reason_conflict());
    }
    r
}

/// The state of one control exchange on the receiving side.
pub enum RecvState {
    /// Waiting for the peer to open its one control stream.
    AwaitStream,
    /// Waiting for the stream body to arrive in full.
    AwaitBody,
    /// The envelope decoded; the policy engine is applying the blob.
    Applying {
        /// The team the control message names.
        team_id: TeamId,
        /// The opaque control blob to hand to the policy engine.
        blob: Vec<u8>,
    },
    /// The acknowledgement is ready to send.
    Acking {
        /// The acknowledgement to send.
        ack: AckMessage,
    },
    /// The exchange is over.
    Done {
        /// Whether keys were installed.
        success: bool,
    },
}

/// The receiving side of one control exchange.
pub struct CtrlReceiver {
    /// The machine's state.
    pub state: RecvState,
}

impl CtrlReceiver {
    /// A fresh exchange, waiting for the control stream.
    pub fn new() -> (r: Self)
        ensures
            r.state is AwaitStream,
    {
        CtrlReceiver { state: RecvState::AwaitStream }
    }

    /// The peer opened its control stream.
    pub fn on_stream_opened(&mut self)
        requires
            old(self).state is AwaitStream,
        ensures
            final(self).state is AwaitBody,
    {
        self.state = RecvState::AwaitBody;
    }

    /// No control stream arrived within the idle timeout.  The
    /// exchange ends without touching any store.
    pub fn on_timeout(&mut self) -> (e: AqcError)
        requires
            old(self).state is AwaitStream,
        ensures
            final(self).state matches RecvState::Done { success } && !success,
            e == AqcError::NoCtrlStream,
    {
        self.state = RecvState::Done { success: false };
        AqcError::NoCtrlStream
    }

    /// The transport failed while waiting for the stream or its
    /// body.  The exchange ends without touching any store.
    pub fn on_io_error(&mut self) -> (e: AqcError)
        requires
            old(self).state is AwaitStream || old(self).state is AwaitBody,
        ensures
            final(self).state matches RecvState::Done { success } && !success,
            e == AqcError::QuicIo,
    {
        self.state = RecvState::Done { success: false };
        AqcError::QuicIo
    }

    /// The whole stream body arrived.
    ///
    /// If the bytes are the encoding of a control envelope, the
    /// machine moves to applying and hands back the team and blob for
    /// the policy engine; otherwise it moves straight to
    /// acknowledging a deserialisation failure, and no store is ever
    /// touched on behalf of this exchange.
    pub fn on_body(&mut self, bytes: &Vec<u8>) -> (r: Option<(TeamId, Vec<u8>)>)
        requires
            old(self).state is AwaitBody,
        ensures
            r matches Some((team, blob)) ==> bytes@ == spec_encode_envelope(team@, blob@)
                && team.wf() && (final(self).state matches RecvState::Applying { team_id, blob: b }
                && team_id@ == team@ && b@ == blob@),
            r is None ==> (forall|team: Seq<u8>, blob: Seq<u8>|
                team.len() == 32 ==> bytes@ != spec_encode_envelope(team, blob)) && (final(self).ack_view() matches Some(ack) && ack matches AckMessage::Failure(m) && m@
                == spec_reason_deserialize()),
    {
        match decode_envelope(bytes) {
            Ok(env) => {
                let team_out = env.team_id.dup();
                let blob_out = copy_bytes(&env.blob);
                self.state = RecvState::Applying { team_id: env.team_id, blob: env.blob };
                Some((team_out, blob_out))
            },
            Err(_) => {
                self.state = RecvState::Acking { ack: AckMessage::Failure(reason_deserialize()) };
                None
            },
        }
    }

    /// The acknowledgement this exchange holds, if it is ready.
    pub open spec fn ack_view(&self) -> Option<AckMessage> {
        match self.state {
            RecvState::Acking { ref ack } => Some(*ack),
            _ => None,
        }
    }

    /// The policy engine applied the control blob and produced the
    /// channel's metadata and PSK family.
    ///
    /// In one step this installs the family into the PSK store,
    /// registers the channel and its identities in the registry, and
    /// makes the success acknowledgement available: a peer that reads
    /// the acknowledgement can rely on every identity of the family
    /// resolving at this endpoint.  If the channel is already
    /// registered or a key conflicts, nothing at all is installed and
    /// the acknowledgement is a failure.
    pub fn on_applied(
        &mut self,
        store: &mut PskStore,
        registry: &mut Registry,
        team: &TeamId,
        info: ChannelInfo,
        family: &PskFamily,
    )
        requires
            old(self).state is Applying,
            old(store).wf(),
            old(registry).wf(),
            info.wf(),
            distinct_identities(family),
        ensures
            final(self).state is Acking,
            final(store).wf(),
            final(registry).wf(),
            final(store).latched() == old(store).latched(),
            final(store).selections() == old(store).selections(),
            ({
                let duplicate = old(registry).channels_map().dom().contains(info.channel_id.key());
                let conflict = family_conflicts(family, old(store).psk_map());
                &&& duplicate ==> (final(self).ack_view() matches Some(ack) && ack
                    matches AckMessage::Failure(m) && m@ == spec_reason_duplicate()) && final(store).psk_map() == old(store).psk_map() && final(registry).channels_map() == old(registry).channels_map() && final(registry).index_map() == old(registry).index_map()
                &&& !duplicate && conflict ==> (final(self).ack_view() matches Some(ack) && ack
                    matches AckMessage::Failure(m) && m@ == spec_reason_conflict()) && final(store).psk_map() == old(store).psk_map() && final(registry).channels_map() == old(registry).channels_map() && final(registry).index_map() == old(registry).index_map()
                &&& !duplicate && !conflict ==> final(self).ack_view() == Some(AckMessage::Success)
                    && (forall|x: Seq<u8>|
                    #[trigger] final(store).psk_map().dom().contains(x) <==> (old(store).psk_map().dom().contains(x) || family.spec_identities().contains(x))) && (
                forall|i: int|
                    0 <= i < family.spec_pairs().len() ==> final(store).psk_map()[(
                    #[trigger] family.spec_pairs()[i]).0] == family.spec_pairs()[i].1) && final(registry).channels_map() == old(registry).channels_map().insert(
                    info.channel_id.key(),
                    info.val(team@),
                ) && (forall|x: Seq<u8>|
                    #[trigger] final(registry).index_map().dom().contains(x) <==> (old(registry).index_map().dom().contains(x) || family.spec_identities().contains(x))) && (
                forall|x: Seq<u8>|
                    final(registry).index_map().dom().contains(x)
                        && family.spec_identities().contains(x) ==> #[trigger] final(registry).index_map()[x] == (info.channel_id.key(), info.label_id@))
            }),
    {
        if registry.contains_channel(&info.channel_id) {
            self.state = RecvState::Acking { ack: AckMessage::Failure(reason_duplicate()) };
            return ;
        }
        match store.load_family(family) {
            Err(_) => {
                self.state = RecvState::Acking { ack: AckMessage::Failure(reason_conflict()) };
            },
            Ok(()) => {
                let res = registry.register(team, info, family);
                proof {
                    assert(res is Ok);
                }
                self.state = RecvState::Acking { ack: AckMessage::Success };
            },
        }
    }

    /// The policy engine refused the control blob.  Nothing was
    /// installed; the failure acknowledgement carries the reason.
    pub fn on_apply_failed(&mut self, reason: Vec<u8>)
        requires
            old(self).state is Applying,
        ensures
            final(self).ack_view() matches Some(ack) && ack matches AckMessage::Failure(m) && m@
                == reason@,
            final(self).state is Acking,
    {
        self.state = RecvState::Acking { ack: AckMessage::Failure(reason) };
    }

    /// The encoded acknowledgement to send to the peer.
    pub fn ack_bytes(&self) -> (r: Vec<u8>)
        requires
            self.state matches RecvState::Acking { ack } && (ack matches AckMessage::Failure(m)
                ==> m@.len() <= u64::MAX),
        ensures
            self.ack_view() matches Some(ack) && r@ == spec_encode_ack(&ack),
    {
        match &self.state {
            RecvState::Acking { ack } => encode_ack(ack),
            _ => {
                proof {
                    assert(false);
                }
                Vec::new()
            },
        }
    }

    /// The acknowledgement went out; the exchange is over.
    pub fn on_ack_sent(&mut self)
        requires
            old(self).state is Acking,
        ensures
            final(self).state matches RecvState::Done { success } && (success <==> old(self).ack_view() == Some(AckMessage::Success)),
    {
        let success = match &self.state {
            RecvState::Acking { ack: AckMessage::Success } => true,
            _ => false,
        };
        self.state = RecvState::Done { success };
    }

    /// The peer opened a stream beyond the one control stream.
    ///
    /// The bootstrap key never carries user data: once the control
    /// stream exists, every further stream closes the connection with
    /// the fixed exclusivity code.
    pub fn on_extra_stream(&self) -> (r: Option<u64>)
        ensures
            r is Some <==> !(self.state is AwaitStream),
            r is Some ==> r == Some(CTRL_EXCLUSIVITY_CODE),
    {
        match &self.state {
            RecvState::AwaitStream => None,
            _ => Some(CTRL_EXCLUSIVITY_CODE),
        }
    }
}

/// Encodes the control frame the sender ships: the team and the
/// policy engine's control blob.
pub fn make_ctrl_frame(team: &TeamId, blob: Vec<u8>) -> (r: Vec<u8>)
    requires
        team.wf(),
        blob@.len() <= u64::MAX,
    ensures
        r@ == spec_encode_envelope(team@, blob@),
{
    let env = ControlEnvelope { team_id: team.dup(), blob };
    encode_envelope(&env)
}

/// Parses the acknowledgement the sender reads back.
///
/// Succeeds exactly on the success acknowledgement; a failure
/// acknowledgement surfaces the peer's reason; anything else is a
/// wire error.
pub fn parse_ctrl_ack(bytes: &Vec<u8>) -> (r: Result<(), AqcError>)
    ensures
        r is Ok <==> bytes@ == spec_encode_ack(&AckMessage::Success),
        r matches Err(e) ==> (match e {
            AqcError::CtrlFailure(m) => bytes@ == spec_encode_ack(&AckMessage::Failure(m)),
            AqcError::Serde => forall|ack: AckMessage| bytes@ != spec_encode_ack(&ack),
            _ => false,
        }),
{
    match crate::wire::decode_ack(bytes) {
        Ok(AckMessage::Success) => Ok(()),
        Ok(AckMessage::Failure(m)) => {
            proof {
                assert(bytes@[0] == 0x01u8);
                assert(spec_encode_ack(&AckMessage::Success)[0] == 0x00u8);
            }
            Err(AqcError::CtrlFailure(m))
        },
        Err(_) => Err(AqcError::Serde),
    }
}

} // verus!
