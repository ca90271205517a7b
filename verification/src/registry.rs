//! The per-team channel registry.
//!
//! The registry is the lifecycle owner of live channels.  It keeps
//! two tables: the authoritative map from channel identifier to
//! channel metadata, and the lookup table from PSK identity to the
//! channel that owns it, which the endpoint driver consults after a
//! server selection event.  At most one live channel exists per
//! channel identifier; deleting a channel removes its metadata, its
//! identity index entries and, through the PSK store, its whole key
//! family.

use vstd::prelude::*;

use crate::AqcError;
use crate::bytes_util::{bytes_eq, copy_bytes};
use crate::derive::PskFamily;
use crate::identity::{Direction, identity_of_channel};
use crate::ids::{ChannelId, DeviceId, LabelId, TeamId};
use crate::store::PskStore;

verus! {

/// The lifecycle state of a channel.
#[derive(Clone, Copy, PartialEq, Eq, Structural, Debug)]
pub enum Status {
    /// The channel is being opened.
    Connecting,
    /// The channel is live.
    Active,
    /// The channel is being torn down.
    Closing,
    /// The channel is gone.
    Closed,
}

/// The metadata of one channel.
pub struct ChannelInfo {
    /// The channel's identifier.
    pub channel_id: ChannelId,
    /// The label that authorises the channel.
    pub label_id: LabelId,
    /// The peer device on the other end.
    pub peer_device_id: DeviceId,
    /// The direction of traffic this endpoint may carry.
    pub direction: Direction,
    /// The lifecycle state.
    pub status: Status,
}

impl ChannelInfo {
    /// All identifiers are well-formed.
    pub open spec fn wf(&self) -> bool {
        self.channel_id.wf() && self.label_id@.len() == 32 && self.peer_device_id@.len() == 32
    }

    /// The value this metadata contributes to the channel table:
    /// team, label, peer, direction and status.
    pub open spec fn val(&self, team: Seq<u8>) -> (Seq<u8>, Seq<u8>, Seq<u8>, Direction, Status) {
        (team, self.label_id@, self.peer_device_id@, self.direction, self.status)
    }

    /// A copy of this metadata.
    pub fn dup(&self) -> (r: Self)
        ensures
            r.channel_id.key() == self.channel_id.key(),
            r.label_id@ == self.label_id@,
            r.peer_device_id@ == self.peer_device_id@,
            r.direction == self.direction,
            r.status == self.status,
            forall|team: Seq<u8>| #[trigger] r.val(team) == self.val(team),
            r.wf() == self.wf(),
    {
        ChannelInfo {
            channel_id: self.channel_id.dup(),
            label_id: self.label_id.dup(),
            peer_device_id: self.peer_device_id.dup(),
            direction: self.direction,
            status: self.status,
        }
    }
}

/// The channel-table value type: team, label, peer, direction,
/// status.
pub type ChanVal = (Seq<u8>, Seq<u8>, Seq<u8>, Direction, Status);

/// The identity-table value type: channel key and label.
pub type IdxVal = (Seq<u8>, Seq<u8>);

struct RegChannel {
    team: TeamId,
    info: ChannelInfo,
}

struct RegIdentity {
    identity: Vec<u8>,
    channel_id: ChannelId,
    label_id: LabelId,
}

spec fn has_chan(s: Seq<RegChannel>, key: Seq<u8>) -> bool {
    exists|i: int| 0 <= i < s.len() && s[i].info.channel_id.key() == key
}

spec fn chan_idx(s: Seq<RegChannel>, key: Seq<u8>) -> int {
    choose|i: int| 0 <= i < s.len() && s[i].info.channel_id.key() == key
}

spec fn chan_val_for(s: Seq<RegChannel>, key: Seq<u8>) -> ChanVal {
    s[chan_idx(s, key)].info.val(s[chan_idx(s, key)].team@)
}

spec fn unique_chans(s: Seq<RegChannel>) -> bool {
    forall|i: int, j: int|
        0 <= i < j < s.len() ==> s[i].info.channel_id.key() != s[j].info.channel_id.key()
}

spec fn chans_map(s: Seq<RegChannel>) -> Map<Seq<u8>, ChanVal> {
    Map::new(|key: Seq<u8>| has_chan(s, key), |key: Seq<u8>| chan_val_for(s, key))
}

spec fn has_idx(s: Seq<RegIdentity>, id: Seq<u8>) -> bool {
    exists|i: int| 0 <= i < s.len() && s[i].identity@ == id
}

spec fn idx_idx(s: Seq<RegIdentity>, id: Seq<u8>) -> int {
    choose|i: int| 0 <= i < s.len() && s[i].identity@ == id
}

spec fn idx_val_for(s: Seq<RegIdentity>, id: Seq<u8>) -> IdxVal {
    (s[idx_idx(s, id)].channel_id.key(), s[idx_idx(s, id)].label_id@)
}

spec fn unique_idx(s: Seq<RegIdentity>) -> bool {
    forall|i: int, j: int| 0 <= i < j < s.len() ==> s[i].identity@ != s[j].identity@
}

spec fn idx_map(s: Seq<RegIdentity>) -> Map<Seq<u8>, IdxVal> {
    Map::new(|id: Seq<u8>| has_idx(s, id), |id: Seq<u8>| idx_val_for(s, id))
}

/// The channel table's value at an entry's own key is that entry.
proof fn lemma_chan_at(s: Seq<RegChannel>, i: int)
    requires
        unique_chans(s),
        0 <= i < s.len(),
    ensures
        has_chan(s, s[i].info.channel_id.key()),
        chan_val_for(s, s[i].info.channel_id.key()) == s[i].info.val(s[i].team@),
{
    assert(has_chan(s, s[i].info.channel_id.key()));
    let j = chan_idx(s, s[i].info.channel_id.key());
    assert(0 <= j < s.len() && s[j].info.channel_id.key() == s[i].info.channel_id.key());
    if i != j {
        assert(false);
    }
}

/// Appending a channel entry with a fresh key inserts it into the
/// table.
proof fn lemma_chan_push(s: Seq<RegChannel>, e: RegChannel)
    requires
        unique_chans(s),
        !has_chan(s, e.info.channel_id.key()),
    ensures
        unique_chans(s.push(e)),
        chans_map(s.push(e)) == chans_map(s).insert(e.info.channel_id.key(), e.info.val(e.team@)),
{
    let s2 = s.push(e);
    let key = e.info.channel_id.key();
    assert forall|i: int, j: int| 0 <= i < j < s2.len() implies s2[i].info.channel_id.key()
        != s2[j].info.channel_id.key() by {
        if j == s.len() {
            assert(s2[i] == s[i]);
            if s[i].info.channel_id.key() == key {
                assert(has_chan(s, key));
            }
        }
    }
    let m1 = chans_map(s2);
    let m2 = chans_map(s).insert(key, e.info.val(e.team@));
    assert forall|x: Seq<u8>| #[trigger] m1.dom().contains(x) implies m2.dom().contains(x) && m1[x]
        == m2[x] by {
        let i = chan_idx(s2, x);
        assert(0 <= i < s2.len() && s2[i].info.channel_id.key() == x);
        if x == key {
            assert(i == s.len());
        } else {
            assert(i < s.len() && s2[i] == s[i]);
            assert(has_chan(s, x));
            let i0 = chan_idx(s, x);
            assert(0 <= i0 < s.len() && s[i0].info.channel_id.key() == x);
            assert(i0 == i);
        }
    }
    assert forall|x: Seq<u8>| #[trigger] m2.dom().contains(x) implies m1.dom().contains(x) by {
        if x == key {
            assert(s2[s.len() as int].info.channel_id.key() == x);
        } else {
            let i0 = chan_idx(s, x);
            assert(0 <= i0 < s.len() && s[i0].info.channel_id.key() == x);
            assert(s2[i0].info.channel_id.key() == x);
        }
    }
    assert(m1 =~= m2);
}

/// Removing the channel entry at an index removes exactly its key.
proof fn lemma_chan_remove_at(s: Seq<RegChannel>, k: int)
    requires
        unique_chans(s),
        0 <= k < s.len(),
    ensures
        unique_chans(s.remove(k)),
        chans_map(s.remove(k)) == chans_map(s).remove(s[k].info.channel_id.key()),
{
    let s2 = s.remove(k);
    assert forall|i: int, j: int| 0 <= i < j < s2.len() implies s2[i].info.channel_id.key()
        != s2[j].info.channel_id.key() by {
        let i0 = if i < k {
            i
        } else {
            i + 1
        };
        let j0 = if j < k {
            j
        } else {
            j + 1
        };
        assert(s2[i] == s[i0] && s2[j] == s[j0]);
    }
    let m1 = chans_map(s2);
    let m2 = chans_map(s).remove(s[k].info.channel_id.key());
    assert forall|x: Seq<u8>| #[trigger] m1.dom().contains(x) implies m2.dom().contains(x) && m1[x]
        == m2[x] by {
        let i = chan_idx(s2, x);
        assert(0 <= i < s2.len() && s2[i].info.channel_id.key() == x);
        let i0 = if i < k {
            i
        } else {
            i + 1
        };
        assert(s2[i] == s[i0]);
        lemma_chan_at(s, i0);
        assert(x != s[k].info.channel_id.key());
        lemma_chan_at(s2, i);
    }
    assert forall|x: Seq<u8>| #[trigger] m2.dom().contains(x) implies m1.dom().contains(x) by {
        let i0 = chan_idx(s, x);
        assert(0 <= i0 < s.len() && s[i0].info.channel_id.key() == x);
        assert(i0 != k);
        let i = if i0 < k {
            i0
        } else {
            i0 - 1
        };
        assert(s2[i] == s[i0]);
    }
    assert(m1 =~= m2);
}

/// The identity table's value at an entry's own identity is that
/// entry.
proof fn lemma_idx_at(s: Seq<RegIdentity>, i: int)
    requires
        unique_idx(s),
        0 <= i < s.len(),
    ensures
        has_idx(s, s[i].identity@),
        idx_val_for(s, s[i].identity@) == (s[i].channel_id.key(), s[i].label_id@),
{
    assert(has_idx(s, s[i].identity@));
    let j = idx_idx(s, s[i].identity@);
    assert(0 <= j < s.len() && s[j].identity@ == s[i].identity@);
    if i != j {
        assert(false);
    }
}

/// Appending an identity entry with a fresh identity inserts it into
/// the table.
proof fn lemma_idx_push(s: Seq<RegIdentity>, e: RegIdentity)
    requires
        unique_idx(s),
        !has_idx(s, e.identity@),
    ensures
        unique_idx(s.push(e)),
        idx_map(s.push(e)) == idx_map(s).insert(e.identity@, (e.channel_id.key(), e.label_id@)),
{
    let s2 = s.push(e);
    assert forall|i: int, j: int| 0 <= i < j < s2.len() implies s2[i].identity@
        != s2[j].identity@ by {
        if j == s.len() {
            assert(s2[i] == s[i]);
            if s[i].identity@ == e.identity@ {
                assert(has_idx(s, e.identity@));
            }
        }
    }
    let m1 = idx_map(s2);
    let m2 = idx_map(s).insert(e.identity@, (e.channel_id.key(), e.label_id@));
    assert forall|x: Seq<u8>| #[trigger] m1.dom().contains(x) implies m2.dom().contains(x) && m1[x]
        == m2[x] by {
        let i = idx_idx(s2, x);
        assert(0 <= i < s2.len() && s2[i].identity@ == x);
        if x == e.identity@ {
            assert(i == s.len());
        } else {
            assert(i < s.len() && s2[i] == s[i]);
            assert(has_idx(s, x));
            let i0 = idx_idx(s, x);
            assert(0 <= i0 < s.len() && s[i0].identity@ == x);
            assert(i0 == i);
        }
    }
    assert forall|x: Seq<u8>| #[trigger] m2.dom().contains(x) implies m1.dom().contains(x) by {
        if x == e.identity@ {
            assert(s2[s.len() as int].identity@ == x);
        } else {
            let i0 = idx_idx(s, x);
            assert(0 <= i0 < s.len() && s[i0].identity@ == x);
            assert(s2[i0].identity@ == x);
        }
    }
    assert(m1 =~= m2);
}

/// Replacing the identity entry at an index, identity unchanged,
/// rewrites exactly its value.
proof fn lemma_idx_update(s: Seq<RegIdentity>, k: int, e: RegIdentity)
    requires
        unique_idx(s),
        0 <= k < s.len(),
        e.identity@ == s[k].identity@,
    ensures
        unique_idx(s.update(k, e)),
        idx_map(s.update(k, e)) == idx_map(s).insert(e.identity@, (e.channel_id.key(), e.label_id@)),
{
    let s2 = s.update(k, e);
    assert forall|i: int, j: int| 0 <= i < j < s2.len() implies s2[i].identity@
        != s2[j].identity@ by {
        assert(s[i].identity@ != s[j].identity@);
    }
    let m1 = idx_map(s2);
    let m2 = idx_map(s).insert(e.identity@, (e.channel_id.key(), e.label_id@));
    assert forall|x: Seq<u8>| #[trigger] m1.dom().contains(x) implies m2.dom().contains(x) && m1[x]
        == m2[x] by {
        let i = idx_idx(s2, x);
        assert(0 <= i < s2.len() && s2[i].identity@ == x);
        lemma_idx_at(s2, i);
        if x == e.identity@ {
            assert(i == k);
        } else {
            assert(i != k);
            assert(s2[i] == s[i]);
            assert(has_idx(s, x));
            lemma_idx_at(s, i);
        }
    }
    assert forall|x: Seq<u8>| #[trigger] m2.dom().contains(x) implies m1.dom().contains(x) by {
        if x == e.identity@ {
            assert(s2[k].identity@ == x);
        } else {
            let i0 = idx_idx(s, x);
            assert(0 <= i0 < s.len() && s[i0].identity@ == x);
            assert(i0 != k);
            assert(s2[i0].identity@ == x);
        }
    }
    assert(m1 =~= m2);
}

/// Whether the listing holds an entry with the channel key.
pub open spec fn listed(out: Seq<ChannelInfo>, key: Seq<u8>) -> bool {
    exists|j: int| 0 <= j < out.len() && (#[trigger] out[j]).channel_id.key() == key
}

/// Whether a key comes from the first `upto` registered channels.
spec fn from_prefix(key: Seq<u8>, chans: Seq<RegChannel>, upto: int) -> bool {
    exists|p: int| 0 <= p < upto && key == (#[trigger] chans[p]).info.channel_id.key()
}

/// The per-team channel registry.
pub struct Registry {
    channels: Vec<RegChannel>,
    index: Vec<RegIdentity>,
}

impl Registry {
    /// The map from channel key to channel metadata.
    pub closed spec fn channels_map(&self) -> Map<Seq<u8>, ChanVal> {
        chans_map(self.channels@)
    }

    /// The map from PSK identity to owning channel and label.
    pub closed spec fn index_map(&self) -> Map<Seq<u8>, IdxVal> {
        idx_map(self.index@)
    }

    /// Internal well-formedness: both tables are keyed uniquely.
    pub closed spec fn wf(&self) -> bool {
        unique_chans(self.channels@) && unique_idx(self.index@)
    }

    /// An empty registry.
    pub fn new() -> (r: Self)
        ensures
            r.wf(),
            r.channels_map() == Map::<Seq<u8>, ChanVal>::empty(),
            r.index_map() == Map::<Seq<u8>, IdxVal>::empty(),
    {
        let r = Registry { channels: Vec::new(), index: Vec::new() };
        proof {
            assert(r.channels_map() =~= Map::<Seq<u8>, ChanVal>::empty());
            assert(r.index_map() =~= Map::<Seq<u8>, IdxVal>::empty());
        }
        r
    }

    /// Puts one identity into the index, inserting or overwriting.
    fn index_put(&mut self, identity: Vec<u8>, channel_id: ChannelId, label_id: LabelId)
        requires
            old(self).wf(),
        ensures
            final(self).wf(),
            final(self).channels_map() == old(self).channels_map(),
            final(self).index_map() == old(self).index_map().insert(
                identity@,
                (channel_id.key(), label_id@),
            ),
    {
        let n = self.index.len();
        let mut i: usize = 0;
        while i < n
            invariant
                n == self.index@.len(),
                i <= n,
                self == old(self),
                self.wf(),
                forall|j: int| 0 <= j < i ==> self.index@[j].identity@ != identity@,
            decreases n - i,
        {
            if bytes_eq(&self.index[i].identity, &identity) {
                let entry = RegIdentity { identity, channel_id, label_id };
                proof {
                    lemma_idx_update(self.index@, i as int, entry);
                }
                self.index.set(i, entry);
                return ;
            }
            i = i + 1;
        }
        let entry = RegIdentity { identity, channel_id, label_id };
        proof {
            if has_idx(self.index@, entry.identity@) {
                let j = idx_idx(self.index@, entry.identity@);
                assert(0 <= j < self.index@.len() && self.index@[j].identity@ == entry.identity@);
            }
            lemma_idx_push(self.index@, entry);
        }
        self.index.push(entry);
    }

    /// Registers a live channel: inserts its metadata and indexes
    /// every identity of its PSK family.
    ///
    /// Fails with the duplicate error, changing nothing, when a
    /// channel with this identifier is already registered.
    pub fn register(&mut self, team: &TeamId, info: ChannelInfo, family: &PskFamily) -> (r: Result<
        (),
        AqcError,
    >)
        requires
            old(self).wf(),
            info.wf(),
        ensures
            final(self).wf(),
            old(self).channels_map().dom().contains(info.channel_id.key()) ==> r == Err::<
                (),
                AqcError,
            >(AqcError::Duplicate) && final(self).channels_map() == old(self).channels_map()
                && final(self).index_map() == old(self).index_map(),
            !old(self).channels_map().dom().contains(info.channel_id.key()) ==> r == Ok::<
                (),
                AqcError,
            >(()) && final(self).channels_map() == old(self).channels_map().insert(
                info.channel_id.key(),
                info.val(team@),
            ) && (forall|x: Seq<u8>|
                #[trigger] final(self).index_map().dom().contains(x) <==> (old(self).index_map().dom().contains(x) || family.spec_identities().contains(x))) && (
            forall|x: Seq<u8>|
                final(self).index_map().dom().contains(x) ==> #[trigger] final(self).index_map()[x]
                    == (if family.spec_identities().contains(x) {
                    (info.channel_id.key(), info.label_id@)
                } else {
                    old(self).index_map()[x]
                })),
    {
        let key_count = self.channels.len();
        let mut i: usize = 0;
        while i < key_count
            invariant
                key_count == self.channels@.len(),
                i <= key_count,
                self == old(self),
                self.wf(),
                forall|j: int|
                    0 <= j < i ==> self.channels@[j].info.channel_id.key()
                        != info.channel_id.key(),
            decreases key_count - i,
        {
            if self.channels[i].info.channel_id.same(&info.channel_id) {
                proof {
                    lemma_chan_at(self.channels@, i as int);
                }
                return Err(AqcError::Duplicate);
            }
            i = i + 1;
        }
        proof {
            if has_chan(self.channels@, info.channel_id.key()) {
                let j = chan_idx(self.channels@, info.channel_id.key());
                assert(0 <= j < self.channels@.len() && self.channels@[j].info.channel_id.key()
                    == info.channel_id.key());
            }
        }
        let ghost key = info.channel_id.key();
        let ghost val = info.val(team@);
        let ghost label_view = info.label_id@;
        let chan_for_index = info.channel_id.dup();
        let label_for_index = info.label_id.dup();
        let entry = RegChannel { team: team.dup(), info };
        proof {
            lemma_chan_push(self.channels@, entry);
        }
        self.channels.push(entry);
        let ghost mid_chans = self.channels_map();
        proof {
            assert(mid_chans == old(self).channels_map().insert(key, val));
        }
        let m = family.len();
        let mut k: usize = 0;
        while k < m
            invariant
                m == family.psks@.len(),
                k <= m,
                self.wf(),
                self.channels_map() == mid_chans,
                chan_for_index.key() == key,
                label_for_index@ == label_view,
                forall|x: Seq<u8>|
                    #[trigger] self.index_map().dom().contains(x) <==> (old(self).index_map().dom().contains(x) || family.spec_identities().subrange(
                        0,
                        k as int,
                    ).contains(x)),
                forall|x: Seq<u8>|
                    self.index_map().dom().contains(x) ==> #[trigger] self.index_map()[x] == (
                    if family.spec_identities().subrange(0, k as int).contains(x) {
                        (key, label_view)
                    } else {
                        old(self).index_map()[x]
                    }),
            decreases m - k,
        {
            let psk = family.get(k);
            let identity = copy_bytes(psk.identity_bytes());
            self.index_put(identity, chan_for_index.dup(), label_for_index.dup());
            k = k + 1;
            proof {
                let ids = family.spec_identities();
                assert(ids[k - 1] == family.psks@[k - 1].spec_identity_bytes());
                assert forall|x: Seq<u8>|
                    #[trigger] ids.subrange(0, k as int).contains(x) <==> (ids.subrange(
                        0,
                        k - 1,
                    ).contains(x) || x == ids[k - 1]) by {
                    if ids.subrange(0, k as int).contains(x) {
                        let j = choose|j: int| 0 <= j < k && #[trigger] ids.subrange(0, k as int)[j] == x;
                        if j < k - 1 {
                            assert(ids.subrange(0, k - 1)[j] == x);
                        }
                    }
                    if ids.subrange(0, k - 1).contains(x) {
                        let j = choose|j: int| 0 <= j < k - 1 && #[trigger] ids.subrange(0, k - 1)[j] == x;
                        assert(ids.subrange(0, k as int)[j] == x);
                    }
                    if x == ids[k - 1] {
                        assert(ids.subrange(0, k as int)[k - 1] == x);
                    }
                }
            }
        }
        proof {
            assert(family.spec_identities().subrange(
                0,
                family.spec_identities().len() as int,
            ) =~= family.spec_identities());
        }
        Ok(())
    }

    /// Whether a channel with this identifier is registered.
    pub fn contains_channel(&self, chan: &ChannelId) -> (r: bool)
        requires
            self.wf(),
        ensures
            r == self.channels_map().dom().contains(chan.key()),
    {
        let n = self.channels.len();
        let mut i: usize = 0;
        while i < n
            invariant
                n == self.channels@.len(),
                i <= n,
                self.wf(),
                forall|j: int| 0 <= j < i ==> self.channels@[j].info.channel_id.key() != chan.key(),
            decreases n - i,
        {
            if self.channels[i].info.channel_id.same(chan) {
                proof {
                    lemma_chan_at(self.channels@, i as int);
                }
                return true;
            }
            i = i + 1;
        }
        proof {
            if has_chan(self.channels@, chan.key()) {
                let j = chan_idx(self.channels@, chan.key());
                assert(0 <= j < self.channels@.len() && self.channels@[j].info.channel_id.key()
                    == chan.key());
            }
        }
        false
    }

    /// Resolves a PSK identity to the channel that owns it and its
    /// label: the lookup the endpoint driver makes after a server
    /// selection event.
    pub fn resolve_identity(&self, identity: &Vec<u8>) -> (r: Option<(ChannelId, LabelId)>)
        requires
            self.wf(),
        ensures
            match r {
                Some((chan, label)) => self.index_map().dom().contains(identity@) && self.index_map()[identity@] == (chan.key(), label@),
                None => !self.index_map().dom().contains(identity@),
            },
    {
        let n = self.index.len();
        let mut i: usize = 0;
        while i < n
            invariant
                n == self.index@.len(),
                i <= n,
                self.wf(),
                forall|j: int| 0 <= j < i ==> self.index@[j].identity@ != identity@,
            decreases n - i,
        {
            if bytes_eq(&self.index[i].identity, identity) {
                proof {
                    lemma_idx_at(self.index@, i as int);
                }
                return Some((self.index[i].channel_id.dup(), self.index[i].label_id.dup()));
            }
            i = i + 1;
        }
        proof {
            if has_idx(self.index@, identity@) {
                let j = idx_idx(self.index@, identity@);
                assert(0 <= j < self.index@.len() && self.index@[j].identity@ == identity@);
            }
        }
        None
    }

    /// A snapshot of the team's channels.
    ///
    /// Every returned entry is a registered channel of the team, and
    /// every registered channel of the team appears exactly once.
    #[verifier::rlimit(60)]
    pub fn list(&self, team: &TeamId) -> (r: Vec<ChannelInfo>)
        requires
            self.wf(),
        ensures
            forall|j: int|
                0 <= j < r@.len() ==> self.channels_map().dom().contains(
                    (#[trigger] r@[j]).channel_id.key(),
                ) && self.channels_map()[r@[j].channel_id.key()] == r@[j].val(team@),
            forall|key: Seq<u8>|
                #[trigger] self.channels_map().dom().contains(key) && self.channels_map()[key].0
                    == team@ ==> listed(r@, key),
            forall|j1: int, j2: int|
                0 <= j1 < j2 < r@.len() ==> (#[trigger] r@[j1]).channel_id.key() != (
                #[trigger] r@[j2]).channel_id.key(),
    {
        let n = self.channels.len();
        let mut out: Vec<ChannelInfo> = Vec::new();
        let mut i: usize = 0;
        while i < n
            invariant
                n == self.channels@.len(),
                i <= n,
                self.wf(),
                forall|j: int|
                    0 <= j < out@.len() ==> self.channels_map().dom().contains(
                        (#[trigger] out@[j]).channel_id.key(),
                    ) && self.channels_map()[out@[j].channel_id.key()] == out@[j].val(team@),
                forall|p: int|
                    0 <= p < i && (#[trigger] self.channels@[p]).team@ == team@ ==> listed(
                        out@,
                        self.channels@[p].info.channel_id.key(),
                    ),
                forall|j: int|
                    0 <= j < out@.len() ==> from_prefix(
                        (#[trigger] out@[j]).channel_id.key(),
                        self.channels@,
                        i as int,
                    ),
                forall|j1: int, j2: int|
                    0 <= j1 < j2 < out@.len() ==> (#[trigger] out@[j1]).channel_id.key() != (
                    #[trigger] out@[j2]).channel_id.key(),
            decreases n - i,
        {
            let entry = &self.channels[i];
            if entry.team.same(team) {
                proof {
                    lemma_chan_at(self.channels@, i as int);
                    assert forall|j: int| 0 <= j < out@.len() implies (#[trigger] out@[j]).channel_id.key()
                        != self.channels@[i as int].info.channel_id.key() by {
                        assert(from_prefix(out@[j].channel_id.key(), self.channels@, i as int));
                        let p = choose|p: int|
                            0 <= p < i && out@[j].channel_id.key() == (
                            #[trigger] self.channels@[p]).info.channel_id.key();
                    }
                }
                let ghost out_pre = out@;
                out.push(entry.info.dup());
                proof {
                    assert forall|p: int|
                        0 <= p < i + 1 && (#[trigger] self.channels@[p]).team@ == team@ implies listed(
                        out@,
                        self.channels@[p].info.channel_id.key(),
                    ) by {
                        if p < i {
                            assert(listed(out_pre, self.channels@[p].info.channel_id.key()));
                            let j = choose|j: int|
                                0 <= j < out_pre.len() && (#[trigger] out_pre[j]).channel_id.key()
                                    == self.channels@[p].info.channel_id.key();
                            assert(out@[j].channel_id.key()
                                == self.channels@[p].info.channel_id.key());
                        } else {
                            assert(out@[out@.len() - 1].channel_id.key()
                                == self.channels@[p].info.channel_id.key());
                        }
                    }
                    assert forall|j: int| 0 <= j < out@.len() implies from_prefix(
                        (#[trigger] out@[j]).channel_id.key(),
                        self.channels@,
                        i + 1,
                    ) by {
                        if j < out@.len() - 1 {
                            assert(from_prefix(out_pre[j].channel_id.key(), self.channels@, i as int));
                            let p = choose|p: int|
                                0 <= p < i && out_pre[j].channel_id.key() == (
                                #[trigger] self.channels@[p]).info.channel_id.key();
                            assert(out@[j].channel_id.key() == self.channels@[p].info.channel_id.key());
                        } else {
                            assert(out@[j].channel_id.key()
                                == self.channels@[i as int].info.channel_id.key());
                        }
                    }
                }
            } else {
                proof {
                    assert forall|j: int| 0 <= j < out@.len() implies from_prefix(
                        (#[trigger] out@[j]).channel_id.key(),
                        self.channels@,
                        i + 1,
                    ) by {
                        assert(from_prefix(out@[j].channel_id.key(), self.channels@, i as int));
                        let p = choose|p: int|
                            0 <= p < i && out@[j].channel_id.key() == (
                            #[trigger] self.channels@[p]).info.channel_id.key();
                    }
                }
            }
            i = i + 1;
        }
        proof {
            assert forall|key: Seq<u8>|
                #[trigger] self.channels_map().dom().contains(key) && self.channels_map()[key].0
                    == team@ implies listed(out@, key) by {
                let p = chan_idx(self.channels@, key);
                assert(0 <= p < self.channels@.len() && self.channels@[p].info.channel_id.key()
                    == key);
                lemma_chan_at(self.channels@, p);
                assert(self.channels@[p].team@ == team@);
            }
        }
        out
    }

    /// Deletes a channel of a team: removes its metadata, removes its
    /// identity index entries, and drops its whole PSK family from
    /// the store.  Idempotent: deleting a channel the team does not
    /// own changes nothing.
    pub fn delete(&mut self, store: &mut PskStore, team: &TeamId, chan: &ChannelId)
        requires
            old(self).wf(),
            old(store).wf(),
            chan.wf(),
        ensures
            final(self).wf(),
            final(store).wf(),
            final(store).latched() == old(store).latched(),
            final(store).selections() == old(store).selections(),
            ({
                let owned = old(self).channels_map().dom().contains(chan.key()) && old(self).channels_map()[chan.key()].0 == team@;
                &&& owned ==> final(store).psk_map() == Map::<Seq<u8>, Seq<u8>>::new(
                    |x: Seq<u8>|
                        old(store).psk_map().dom().contains(x) && !identity_of_channel(x, chan),
                    |x: Seq<u8>| old(store).psk_map()[x],
                ) && final(self).channels_map() == old(self).channels_map().remove(chan.key()) && (
                forall|x: Seq<u8>|
                    #[trigger] final(self).index_map().dom().contains(x) <==> (old(self).index_map().dom().contains(x) && old(self).index_map()[x].0 != chan.key()))
                    && (forall|x: Seq<u8>|
                    final(self).index_map().dom().contains(x) ==> #[trigger] final(self).index_map()[x] == old(self).index_map()[x])
                &&& !owned ==> final(store).psk_map() == old(store).psk_map() && final(self).channels_map() == old(self).channels_map() && final(self).index_map() == old(self).index_map()
            }),
    {
        let n = self.channels.len();
        let mut i: usize = 0;
        while i < n
            invariant
                n == self.channels@.len(),
                i <= n,
                self.wf(),
                self.channels@ == old(self).channels@,
                self.index@ == old(self).index@,
                store == old(store),
                store.wf(),
                chan.wf(),
                forall|j: int| 0 <= j < i ==> self.channels@[j].info.channel_id.key() != chan.key(),
            decreases n - i,
        {
            if self.channels[i].info.channel_id.same(chan) {
                proof {
                    lemma_chan_at(self.channels@, i as int);
                }
                if self.channels[i].team.same(team) {
                    store.drop_family(chan);
                    proof {
                        lemma_chan_remove_at(self.channels@, i as int);
                    }
                    self.channels.remove(i);
                    self.delete_index_entries(chan);
                } else {
                    proof {
                        assert(self.channels_map()[chan.key()].0 == self.channels@[i as int].team@);
                    }
                }
                return ;
            }
            i = i + 1;
        }
        proof {
            if has_chan(self.channels@, chan.key()) {
                let j = chan_idx(self.channels@, chan.key());
                assert(0 <= j < self.channels@.len() && self.channels@[j].info.channel_id.key()
                    == chan.key());
            }
        }
    }

    /// Removes a channel of a team from the registry alone: its
    /// metadata and its identity index entries.  Idempotent: removing
    /// a channel the team does not own changes nothing.
    pub fn remove_channel(&mut self, team: &TeamId, chan: &ChannelId)
        requires
            old(self).wf(),
            chan.wf(),
        ensures
            final(self).wf(),
            ({
                let owned = old(self).channels_map().dom().contains(chan.key()) && old(self).channels_map()[chan.key()].0 == team@;
                &&& owned ==> final(self).channels_map() == old(self).channels_map().remove(
                    chan.key(),
                ) && (forall|x: Seq<u8>|
                    #[trigger] final(self).index_map().dom().contains(x) <==> (old(self).index_map().dom().contains(x) && old(self).index_map()[x].0 != chan.key()))
                    && (forall|x: Seq<u8>|
                    final(self).index_map().dom().contains(x) ==> #[trigger] final(self).index_map()[x] == old(self).index_map()[x])
                &&& !owned ==> final(self).channels_map() == old(self).channels_map() && final(self).index_map() == old(self).index_map()
            }),
    {
        let n = self.channels.len();
        let mut i: usize = 0;
        while i < n
            invariant
                n == self.channels@.len(),
                i <= n,
                self.wf(),
                self.channels@ == old(self).channels@,
                self.index@ == old(self).index@,
                chan.wf(),
                forall|j: int| 0 <= j < i ==> self.channels@[j].info.channel_id.key() != chan.key(),
            decreases n - i,
        {
            if self.channels[i].info.channel_id.same(chan) {
                proof {
                    lemma_chan_at(self.channels@, i as int);
                }
                if self.channels[i].team.same(team) {
                    proof {
                        lemma_chan_remove_at(self.channels@, i as int);
                    }
                    self.channels.remove(i);
                    self.delete_index_entries(chan);
                } else {
                    proof {
                        assert(self.channels_map()[chan.key()].0 == self.channels@[i as int].team@);
                    }
                }
                return ;
            }
            i = i + 1;
        }
        proof {
            if has_chan(self.channels@, chan.key()) {
                let j = chan_idx(self.channels@, chan.key());
                assert(0 <= j < self.channels@.len() && self.channels@[j].info.channel_id.key()
                    == chan.key());
            }
        }
    }

    /// Removes every identity index entry owned by the channel.
    fn delete_index_entries(&mut self, chan: &ChannelId)
        requires
            old(self).wf(),
        ensures
            final(self).wf(),
            final(self).channels_map() == old(self).channels_map(),
            final(self).index_map() == Map::<Seq<u8>, IdxVal>::new(
                |x: Seq<u8>|
                    old(self).index_map().dom().contains(x) && old(self).index_map()[x].0
                        != chan.key(),
                |x: Seq<u8>| old(self).index_map()[x],
            ),
            forall|x: Seq<u8>|
                #[trigger] final(self).index_map().dom().contains(x) <==> (old(self).index_map().dom().contains(x) && old(self).index_map()[x].0 != chan.key()),
            forall|x: Seq<u8>|
                final(self).index_map().dom().contains(x) ==> #[trigger] final(self).index_map()[x]
                    == old(self).index_map()[x],
    {
        let ghost old_s = self.index@;
        let n = self.index.len();
        let mut kept: Vec<RegIdentity> = Vec::new();
        let mut i: usize = 0;
        while i < n
            invariant
                n == old_s.len(),
                i <= n,
                self.index@ == old_s,
                self.channels@ == old(self).channels@,
                unique_idx(old_s),
                unique_chans(self.channels@),
                unique_idx(kept@),
                idx_map(kept@) == Map::<Seq<u8>, IdxVal>::new(
                    |x: Seq<u8>|
                        has_idx(old_s.subrange(0, i as int), x) && idx_val_for(old_s, x).0
                            != chan.key(),
                    |x: Seq<u8>| idx_val_for(old_s, x),
                ),
            decreases n - i,
        {
            let ghost prefix = old_s.subrange(0, i as int);
            let ghost prefix2 = old_s.subrange(0, i + 1);
            proof {
                assert(prefix2 =~= prefix.push(old_s[i as int]));
                lemma_idx_at(old_s, i as int);
                assert forall|x: Seq<u8>|
                    #[trigger] has_idx(prefix2, x) <==> (has_idx(prefix, x) || x == old_s[
                    i as int].identity@) by {
                    if has_idx(prefix2, x) {
                        let j = idx_idx(prefix2, x);
                        assert(0 <= j < prefix2.len() && prefix2[j].identity@ == x);
                        if j < prefix.len() {
                            assert(prefix[j].identity@ == x);
                        }
                    }
                    if has_idx(prefix, x) {
                        let j = idx_idx(prefix, x);
                        assert(0 <= j < prefix.len() && prefix[j].identity@ == x);
                        assert(prefix2[j].identity@ == x);
                    }
                    if x == old_s[i as int].identity@ {
                        assert(prefix2[i as int].identity@ == x);
                    }
                }
            }
            let e = &self.index[i];
            if !e.channel_id.same(chan) {
                let kept_entry = RegIdentity {
                    identity: copy_bytes(&e.identity),
                    channel_id: e.channel_id.dup(),
                    label_id: e.label_id.dup(),
                };
                proof {
                    if has_idx(kept@, kept_entry.identity@) {
                        assert(idx_map(kept@).dom().contains(kept_entry.identity@));
                        assert(has_idx(prefix, kept_entry.identity@));
                        let j = idx_idx(prefix, kept_entry.identity@);
                        assert(0 <= j < prefix.len() && prefix[j].identity@
                            == kept_entry.identity@);
                        assert(old_s[j].identity@ == old_s[i as int].identity@);
                    }
                    lemma_idx_push(kept@, kept_entry);
                }
                kept.push(kept_entry);
                proof {
                    assert(idx_map(kept@) =~= Map::<Seq<u8>, IdxVal>::new(
                        |x: Seq<u8>|
                            has_idx(prefix2, x) && idx_val_for(old_s, x).0 != chan.key(),
                        |x: Seq<u8>| idx_val_for(old_s, x),
                    ));
                }
            } else {
                proof {
                    assert(idx_map(kept@) =~= Map::<Seq<u8>, IdxVal>::new(
                        |x: Seq<u8>|
                            has_idx(prefix2, x) && idx_val_for(old_s, x).0 != chan.key(),
                        |x: Seq<u8>| idx_val_for(old_s, x),
                    ));
                }
            }
            i = i + 1;
        }
        proof {
            assert(old_s.subrange(0, n as int) =~= old_s);
        }
        self.index = kept;
        proof {
            assert(self.index_map() =~= Map::<Seq<u8>, IdxVal>::new(
                |x: Seq<u8>|
                    old(self).index_map().dom().contains(x) && old(self).index_map()[x].0
                        != chan.key(),
                |x: Seq<u8>| old(self).index_map()[x],
            ));
        }
    }
}

} // verus!
