//! The endpoint driver's channel state.
//!
//! A node owns one QUIC client (dial-only) and one QUIC server
//! (accept-only), each fed by its own PSK store.  The I/O loop around
//! them performs transport work; every decision it needs is made
//! here: which PSK the client offers on the next dial, how an
//! accepted connection is routed by the identity the server selected,
//! and what deleting a channel removes.
//!
//! For every accepted connection the TLS layer queues exactly one
//! selection notification, and routing one accepted connection
//! consumes exactly one: the accept order and the notification order
//! agree, pairwise.

use vstd::prelude::*;

use crate::AqcError;
use crate::bytes_util::copy_bytes;
use crate::derive::{PskFamily, distinct_identities};
use crate::identity::{bootstrap_identity, bootstrap_secret, identity_of_channel,
    spec_bootstrap_identity, spec_bootstrap_secret};
use crate::ids::{ChannelId, LabelId, TeamId};
use crate::registry::Registry;
use crate::store::{PskStore, family_conflicts};

verus! {

/// An error from the non-blocking receive path.
pub enum TryReceiveError<E> {
    /// Nothing is ready yet.
    Empty,
    /// An error occurred.
    Error(E),
    /// The endpoint is closed and will produce nothing further.
    Closed,
}

/// Where an accepted connection must be routed.
#[derive(Debug)]
pub enum AcceptRouting {
    /// The connection selected the bootstrap identity: run one
    /// control exchange on it, then close it.
    Ctrl,
    /// The connection selected a channel identity known to the
    /// registry: hand the caller a channel.
    Channel {
        /// The channel that owns the selected identity.
        channel_id: ChannelId,
        /// The label that authorises it.
        label_id: LabelId,
    },
}

/// The verified core of an endpoint: the two PSK stores and the
/// channel registry.
pub struct AqcClientState {
    /// Keys offered by the dial-only client role.
    pub client_store: PskStore,
    /// Keys accepted by the accept-only server role.
    pub server_store: PskStore,
    /// The live channels.
    pub registry: Registry,
}

impl AqcClientState {
    /// All parts are well-formed.
    pub open spec fn wf(&self) -> bool {
        self.client_store.wf() && self.server_store.wf() && self.registry.wf()
    }

    /// A fresh endpoint: both stores hold exactly the bootstrap PSK,
    /// the client latch offers it, and no channel is registered.
    pub fn new() -> (r: Self)
        ensures
            r.wf(),
            r.client_store.psk_map() == Map::<Seq<u8>, Seq<u8>>::empty().insert(
                spec_bootstrap_identity(),
                spec_bootstrap_secret(),
            ),
            r.server_store.psk_map() == Map::<Seq<u8>, Seq<u8>>::empty().insert(
                spec_bootstrap_identity(),
                spec_bootstrap_secret(),
            ),
            r.client_store.latched() == Some(spec_bootstrap_identity()),
            r.server_store.selections() == Seq::<Seq<u8>>::empty(),
            r.registry.channels_map() == Map::<Seq<u8>, crate::registry::ChanVal>::empty(),
            r.registry.index_map() == Map::<Seq<u8>, crate::registry::IdxVal>::empty(),
    {
        let mut client_store = PskStore::new();
        let mut server_store = PskStore::new();
        let res_c = client_store.insert(bootstrap_identity(), bootstrap_secret());
        let res_s = server_store.insert(bootstrap_identity(), bootstrap_secret());
        proof {
            assert(res_c is Ok && res_s is Ok);
        }
        client_store.set_client_key(bootstrap_identity());
        AqcClientState { client_store, server_store, registry: Registry::new() }
    }

    /// Queues the identity the server role selected for an accepted
    /// connection.  The transport glue calls this once per accept, in
    /// accept order.
    pub fn notify_selection(&mut self, identity: Vec<u8>)
        requires
            old(self).wf(),
        ensures
            final(self).wf(),
            final(self).server_store.selections() == old(self).server_store.selections().push(
                identity@,
            ),
            final(self).server_store.psk_map() == old(self).server_store.psk_map(),
            final(self).client_store == old(self).client_store,
            final(self).registry == old(self).registry,
    {
        self.server_store.push_selection(identity);
    }

    /// Routes one accepted connection by the selection it is paired
    /// with.
    ///
    /// Consumes exactly the oldest queued selection: the bootstrap
    /// identity routes to a control exchange; an identity the
    /// registry resolves yields that channel; an unknown identity is
    /// the no-channel-info error, and an accept without a queued
    /// selection is an internal fault.
    pub fn route_accepted(&mut self) -> (r: Result<AcceptRouting, AqcError>)
        requires
            old(self).wf(),
        ensures
            final(self).wf(),
            final(self).client_store == old(self).client_store,
            final(self).registry == old(self).registry,
            final(self).server_store.psk_map() == old(self).server_store.psk_map(),
            final(self).server_store.latched() == old(self).server_store.latched(),
            old(self).server_store.selections().len() == 0 ==> r == Err::<AcceptRouting, AqcError>(
                AqcError::Internal,
            ) && final(self).server_store.selections() == old(self).server_store.selections(),
            old(self).server_store.selections().len() > 0 ==> final(self).server_store.selections() == old(self).server_store.selections().drop_first() && ({
                let id = old(self).server_store.selections()[0];
                &&& id == spec_bootstrap_identity() ==> (r matches Ok(routing) && routing is Ctrl)
                &&& id != spec_bootstrap_identity() && old(self).registry.index_map().dom().contains(
                    id,
                ) ==> (r matches Ok(routing) && routing matches AcceptRouting::Channel {
                    channel_id,
                    label_id,
                } && old(self).registry.index_map()[id] == (channel_id.key(), label_id@))
                &&& id != spec_bootstrap_identity() && !old(self).registry.index_map().dom().contains(id) ==> r == Err::<AcceptRouting, AqcError>(
                    AqcError::NoChannelInfo,
                )
            }),
    {
        let identity = match self.server_store.take_selection() {
            None => {
                return Err(AqcError::Internal);
            },
            Some(id) => id,
        };
        let bootstrap = bootstrap_identity();
        if crate::bytes_util::bytes_eq(&identity, &bootstrap) {
            return Ok(AcceptRouting::Ctrl);
        }
        match self.registry.resolve_identity(&identity) {
            Some((channel_id, label_id)) => Ok(AcceptRouting::Channel { channel_id, label_id }),
            None => Err(AqcError::NoChannelInfo),
        }
    }

    /// Installs a freshly derived family for an outgoing channel and
    /// latches one of its identities for the dial.
    ///
    /// The server role will match the offered identity by bytes, so
    /// any identity of the family will do; the first is latched.
    pub fn prepare_dial(&mut self, family: &PskFamily) -> (r: Result<(), AqcError>)
        requires
            old(self).wf(),
            distinct_identities(family),
            family.spec_identities().len() > 0,
        ensures
            final(self).wf(),
            final(self).server_store == old(self).server_store,
            final(self).registry == old(self).registry,
            family_conflicts(family, old(self).client_store.psk_map()) ==> r == Err::<(), AqcError>(
                AqcError::PskConflict,
            ) && final(self).client_store.psk_map() == old(self).client_store.psk_map() && final(self).client_store.latched() == old(self).client_store.latched(),
            !family_conflicts(family, old(self).client_store.psk_map()) ==> r == Ok::<(), AqcError>(
                (),
            ) && (forall|x: Seq<u8>|
                #[trigger] final(self).client_store.psk_map().dom().contains(x) <==> (old(self).client_store.psk_map().dom().contains(x) || family.spec_identities().contains(x)))
                && (forall|i: int|
                0 <= i < family.spec_pairs().len() ==> final(self).client_store.psk_map()[(
                #[trigger] family.spec_pairs()[i]).0] == family.spec_pairs()[i].1) && final(self).client_store.latched() == Some(family.spec_identities()[0]),
    {
        self.client_store.load_family(family)?;
        let first = family.get(0);
        self.client_store.set_client_key(copy_bytes(first.identity_bytes()));
        Ok(())
    }

    /// Latches the bootstrap identity for a control dial.
    pub fn prepare_ctrl_dial(&mut self)
        requires
            old(self).wf(),
        ensures
            final(self).wf(),
            final(self).client_store.psk_map() == old(self).client_store.psk_map(),
            final(self).client_store.latched() == Some(spec_bootstrap_identity()),
            final(self).client_store.selections() == old(self).client_store.selections(),
            final(self).server_store == old(self).server_store,
            final(self).registry == old(self).registry,
    {
        self.client_store.set_client_key(bootstrap_identity());
    }

    /// Deletes a channel of a team and scrubs its keys.
    ///
    /// When the team owns the channel, its metadata and identity
    /// index entries leave the registry and every PSK of the channel
    /// leaves both stores; deleting any other channel changes
    /// nothing in the registry, and the client store is still
    /// scrubbed of the channel's keys.
    pub fn delete_channel(&mut self, team: &TeamId, chan: &ChannelId)
        requires
            old(self).wf(),
            chan.wf(),
        ensures
            final(self).wf(),
            forall|x: Seq<u8>|
                #[trigger] final(self).client_store.psk_map().dom().contains(x) ==> !identity_of_channel(
                    x,
                    chan,
                ),
            ({
                let owned = old(self).registry.channels_map().dom().contains(chan.key()) && old(self).registry.channels_map()[chan.key()].0 == team@;
                &&& owned ==> (forall|x: Seq<u8>|
                    #[trigger] final(self).server_store.psk_map().dom().contains(x)
                        ==> !identity_of_channel(x, chan)) && final(self).registry.channels_map()
                    == old(self).registry.channels_map().remove(chan.key()) && (forall|x: Seq<u8>|
                    #[trigger] final(self).registry.index_map().dom().contains(x) <==> (old(self).registry.index_map().dom().contains(x) && old(self).registry.index_map()[x].0
                        != chan.key()))
                &&& !owned ==> final(self).server_store.psk_map() == old(self).server_store.psk_map() && final(self).registry.channels_map() == old(self).registry.channels_map() && final(self).registry.index_map() == old(self).registry.index_map()
            }),
    {
        self.registry.delete(&mut self.server_store, team, chan);
        self.client_store.drop_family(chan);
    }
}

} // verus!
