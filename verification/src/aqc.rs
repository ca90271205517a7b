//! The channel-effect handler kept by the policy daemon.
//!
//! The policy engine emits an effect for every authorised channel
//! creation; this module validates the effect against the local
//! device, derives the channel's PSK family from the authorised
//! secret, and tracks which peers and channels each team has.  The
//! cryptographic unwrapping that produces the channel secret, and the
//! command graph that produces effects, live outside this crate.
//!
//! Peers are kept per team in a bijective map between network
//! identifier and device identifier, held by an outside collection
//! behind trusted wrappers.

use vstd::prelude::*;

use crate::AqcError;
use crate::derive::{ChannelSecret, PskFamily, derive_family, is_family_for};
use crate::identity::Direction;
use crate::ids::{ChannelId, DeviceId, LabelId, TeamId, ID_LEN};
use crate::registry::{ChannelInfo, Registry, Status};
use crate::suites::{CipherSuite, spec_supported_suites, supported_suites};

verus! {

#[verifier::external_type_specification]
#[verifier::external_body]
#[verifier::reject_recursive_types(L)]
#[verifier::reject_recursive_types(R)]
/// An outside bijective ordered map, declared for use in fields and
/// signatures.
pub struct ExBiBTreeMap<L, R>(bimap::BiBTreeMap<L, R>);

/// The pairs a peer bimap holds, as a map from network identifier to
/// device identifier bytes.
pub uninterp spec fn bimap_pairs(m: bimap::BiBTreeMap<String, Vec<u8>>) -> Map<Seq<char>, Seq<u8>>;

/// Relies on `BiBTreeMap::new`: the new bimap holds no pairs.
#[verifier::external_body]
fn bimap_new() -> (r: bimap::BiBTreeMap<String, Vec<u8>>)
    ensures
        forall|k: Seq<char>| !bimap_pairs(r).dom().contains(k),
{
    bimap::BiBTreeMap::new()
}

/// Relies on `BiBTreeMap::insert`: it removes any pair sharing the
/// left value or the right value with the new pair, then inserts the
/// pair.
#[verifier::external_body]
fn bimap_insert(m: &mut bimap::BiBTreeMap<String, Vec<u8>>, left: String, right: Vec<u8>)
    ensures
        bimap_pairs(*final(m)) == Map::<Seq<char>, Seq<u8>>::new(
            |k: Seq<char>|
                k == left@ || (bimap_pairs(*old(m)).dom().contains(k) && bimap_pairs(*old(m))[k]
                    != right@),
            |k: Seq<char>|
                if k == left@ {
                    right@
                } else {
                    bimap_pairs(*old(m))[k]
                },
        ),
{
    m.insert(left, right);
}

/// Relies on `BiBTreeMap::get_by_left`: the right value of the pair
/// whose left value equals the key, if any.
#[verifier::external_body]
fn bimap_get_by_left(m: &bimap::BiBTreeMap<String, Vec<u8>>, left: &String) -> (r: Option<Vec<u8>>)
    ensures
        match r {
            Some(d) => bimap_pairs(*m).dom().contains(left@) && bimap_pairs(*m)[left@] == d@,
            None => !bimap_pairs(*m).dom().contains(left@),
        },
{
    m.get_by_left(left).cloned()
}

/// Relies on `BiBTreeMap::remove_by_right`: it removes the pair whose
/// right value equals the key, if any.
#[verifier::external_body]
fn bimap_remove_by_right(m: &mut bimap::BiBTreeMap<String, Vec<u8>>, right: &Vec<u8>)
    ensures
        bimap_pairs(*final(m)) == Map::<Seq<char>, Seq<u8>>::new(
            |k: Seq<char>|
                bimap_pairs(*old(m)).dom().contains(k) && bimap_pairs(*old(m))[k] != right@,
            |k: Seq<char>| bimap_pairs(*old(m))[k],
        ),
{
    m.remove_by_right(right);
}

/// Every device identifier a peer map holds is 32 bytes.
pub open spec fn peer_values_wf(m: Map<Seq<char>, Seq<u8>>) -> bool {
    forall|k: Seq<char>| #[trigger] m.dom().contains(k) ==> m[k].len() == ID_LEN
}

/// The peers of one team.
struct TeamPeers {
    team: TeamId,
    peers: bimap::BiBTreeMap<String, Vec<u8>>,
}

spec fn has_team(s: Seq<TeamPeers>, team: Seq<u8>) -> bool {
    exists|i: int| 0 <= i < s.len() && s[i].team@ == team
}

spec fn team_idx(s: Seq<TeamPeers>, team: Seq<u8>) -> int {
    choose|i: int| 0 <= i < s.len() && s[i].team@ == team
}

spec fn peers_for(s: Seq<TeamPeers>, team: Seq<u8>) -> Map<Seq<char>, Seq<u8>> {
    bimap_pairs(s[team_idx(s, team)].peers)
}

spec fn unique_teams(s: Seq<TeamPeers>) -> bool {
    forall|i: int, j: int| 0 <= i < j < s.len() ==> s[i].team@ != s[j].team@
}

/// In a sequence of unique teams, the entry holding a team is the
/// only one.
proof fn lemma_team_at(s: Seq<TeamPeers>, i: int)
    requires
        unique_teams(s),
        0 <= i < s.len(),
    ensures
        has_team(s, s[i].team@),
        peers_for(s, s[i].team@) == bimap_pairs(s[i].peers),
{
    assert(has_team(s, s[i].team@));
    let j = team_idx(s, s[i].team@);
    assert(0 <= j < s.len() && s[j].team@ == s[i].team@);
    if i != j {
        assert(false);
    }
}

/// A data effect of an authorised bidirectional channel, as emitted
/// by the policy engine to its author or its peer.
pub struct BidiChannelEffect {
    /// The 32 identifier bytes of the channel.
    pub channel_id: Vec<u8>,
    /// The command that authorised the channel.
    pub parent_cmd_id: Vec<u8>,
    /// The author's device.
    pub author_id: DeviceId,
    /// The peer's device.
    pub peer_id: DeviceId,
    /// The channel's label.
    pub label_id: LabelId,
    /// Opaque key material of the counterparty, consumed by the
    /// unwrapping step outside this crate.
    pub enc_key: Vec<u8>,
    /// The requested PSK length in bytes.
    pub psk_length_in_bytes: u32,
}

impl BidiChannelEffect {
    /// The identifier is 32 bytes.
    pub open spec fn wf(&self) -> bool {
        self.channel_id@.len() == ID_LEN
    }
}

/// A data effect of an authorised unidirectional channel.
pub struct UniChannelEffect {
    /// The 32 identifier bytes of the channel.
    pub channel_id: Vec<u8>,
    /// The command that authorised the channel.
    pub parent_cmd_id: Vec<u8>,
    /// The author's device.
    pub author_id: DeviceId,
    /// The device allowed to send.
    pub sender_id: DeviceId,
    /// The device allowed to receive.
    pub receiver_id: DeviceId,
    /// The channel's label.
    pub label_id: LabelId,
    /// Opaque key material of the counterparty, consumed by the
    /// unwrapping step outside this crate.
    pub enc_key: Vec<u8>,
    /// The requested PSK length in bytes.
    pub psk_length_in_bytes: u32,
}

impl UniChannelEffect {
    /// The identifier is 32 bytes.
    pub open spec fn wf(&self) -> bool {
        self.channel_id@.len() == ID_LEN
    }

    /// The direction value carried in every PSK identity of the
    /// channel: a property of the channel itself, identical at both
    /// endpoints, so that TLS can match the halves by shared
    /// identity.  It records whether the channel's author is its
    /// sender or its receiver.
    pub open spec fn spec_channel_direction(&self) -> Direction {
        if self.author_id@ == self.sender_id@ {
            Direction::Send
        } else {
            Direction::Recv
        }
    }

    /// The traffic this device's half may carry: the sender's half
    /// is send-only, the receiver's receive-only.  This is the
    /// permission recorded in the channel metadata; it does not enter
    /// the PSK identity.
    pub open spec fn spec_holder_direction(&self, device: Seq<u8>) -> Direction {
        if self.sender_id@ == device {
            Direction::Send
        } else {
            Direction::Recv
        }
    }

    /// Returns the traffic this device's half may carry.
    pub fn holder_direction(&self, device: &DeviceId) -> (r: Direction)
        ensures
            r == self.spec_holder_direction(device@),
    {
        if self.sender_id.same(device) {
            Direction::Send
        } else {
            Direction::Recv
        }
    }
}

/// The channel-effect handler: the local device, its peers per team,
/// and the channels it tracks.
pub struct Aqc {
    device_id: DeviceId,
    peers: Vec<TeamPeers>,
    active_channels: Registry,
}

impl Aqc {
    /// The peer map of a team, if the team is known.
    pub closed spec fn peers_map(&self, team: Seq<u8>) -> Option<Map<Seq<char>, Seq<u8>>> {
        if has_team(self.peers@, team) {
            Some(peers_for(self.peers@, team))
        } else {
            None
        }
    }

    /// The tracked channels.
    pub closed spec fn channels(&self) -> Map<Seq<u8>, crate::registry::ChanVal> {
        self.active_channels.channels_map()
    }

    /// The local device.
    pub closed spec fn device(&self) -> Seq<u8> {
        self.device_id@
    }

    /// Internal well-formedness: teams are unique, every stored peer
    /// device identifier is 32 bytes, and the registry is sound.
    pub closed spec fn wf(&self) -> bool {
        &&& unique_teams(self.peers@)
        &&& self.active_channels.wf()
        &&& forall|i: int|
            0 <= i < self.peers@.len() ==> peer_values_wf(
                bimap_pairs((#[trigger] self.peers@[i]).peers),
            )
    }

    /// A fresh handler for the local device, with no peers and no
    /// tracked channels.
    pub fn new(device_id: DeviceId) -> (r: Self)
        ensures
            r.wf(),
            r.device() == device_id@,
            forall|team: Seq<u8>| r.peers_map(team) is None,
            r.channels() == Map::<Seq<u8>, crate::registry::ChanVal>::empty(),
    {
        let r = Aqc { device_id, peers: Vec::new(), active_channels: Registry::new() };
        proof {
            assert forall|team: Seq<u8>| r.peers_map(team) is None by {
                if has_team(r.peers@, team) {
                    let i = team_idx(r.peers@, team);
                    assert(0 <= i < r.peers@.len());
                }
            }
        }
        r
    }

    /// Adds a peer to a team: the pair joins the team's bijective
    /// peer map, displacing any pair that shares its network
    /// identifier or its device.
    pub fn add_peer(&mut self, team: &TeamId, net_id: String, device: &DeviceId)
        requires
            old(self).wf(),
            device@.len() == ID_LEN,
        ensures
            final(self).wf(),
            final(self).device() == old(self).device(),
            final(self).channels() == old(self).channels(),
            final(self).peers_map(team@) matches Some(m) && m == Map::<Seq<char>, Seq<u8>>::new(
                |k: Seq<char>|
                    k == net_id@ || ({
                        &&& old(self).peers_map(team@) matches Some(m0)
                        &&& m0.dom().contains(k)
                        &&& m0[k] != device@
                    }),
                |k: Seq<char>|
                    if k == net_id@ {
                        device@
                    } else {
                        old(self).peers_map(team@)->Some_0[k]
                    },
            ),
            forall|t: Seq<u8>|
                t != team@ ==> #[trigger] final(self).peers_map(t) == old(self).peers_map(t),
    {
        let n = self.peers.len();
        let mut i: usize = 0;
        while i < n
            invariant
                n == self.peers@.len(),
                i <= n,
                self == old(self),
                self.wf(),
                device@.len() == ID_LEN,
                forall|j: int| 0 <= j < i ==> self.peers@[j].team@ != team@,
            decreases n - i,
        {
            if self.peers[i].team.same(team) {
                proof {
                    lemma_team_at(self.peers@, i as int);
                }
                let mut entry = self.peers.remove(i);
                bimap_insert(
                    &mut entry.peers,
                    net_id,
                    crate::bytes_util::copy_bytes(device.as_bytes()),
                );
                let ghost new_entry = entry;
                self.peers.insert(i, entry);
                proof {
                    assert(self.peers@ =~= old(self).peers@.update(i as int, new_entry));
                    assert forall|i0: int, j0: int|
                        0 <= i0 < j0 < self.peers@.len() implies self.peers@[i0].team@
                        != self.peers@[j0].team@ by {
                        assert(old(self).peers@[i0].team@ != old(self).peers@[j0].team@);
                    }
                    lemma_team_at(self.peers@, i as int);
                    assert forall|idx: int|
                        0 <= idx < self.peers@.len() implies peer_values_wf(
                        bimap_pairs((#[trigger] self.peers@[idx]).peers),
                    ) by {
                        if idx == i {
                            assert(peer_values_wf(bimap_pairs(old(self).peers@[idx].peers)));
                            assert forall|k: Seq<char>| #[trigger] bimap_pairs(
                                self.peers@[idx].peers,
                            ).dom().contains(k) implies bimap_pairs(
                                self.peers@[idx].peers,
                            )[k].len() == ID_LEN by {
                                if k == net_id@ {
                                    assert(bimap_pairs(self.peers@[idx].peers)[k] == device@);
                                } else {
                                    assert(bimap_pairs(
                                        old(self).peers@[idx].peers,
                                    ).dom().contains(k));
                                    assert(bimap_pairs(old(self).peers@[idx].peers)[k].len()
                                        == ID_LEN);
                                    assert(bimap_pairs(self.peers@[idx].peers)[k] == bimap_pairs(
                                        old(self).peers@[idx].peers,
                                    )[k]);
                                }
                            }
                        } else {
                            assert(self.peers@[idx].peers == old(self).peers@[idx].peers);
                            assert(peer_values_wf(bimap_pairs(old(self).peers@[idx].peers)));
                        }
                    }
                    assert forall|t: Seq<u8>|
                        t != team@ implies #[trigger] self.peers_map(t) == old(self).peers_map(
                        t,
                    ) by {
                        if has_team(self.peers@, t) {
                            let j = team_idx(self.peers@, t);
                            assert(0 <= j < self.peers@.len() && self.peers@[j].team@ == t);
                            assert(j != i);
                            lemma_team_at(old(self).peers@, j);
                        }
                        if has_team(old(self).peers@, t) {
                            let j = team_idx(old(self).peers@, t);
                            assert(0 <= j < old(self).peers@.len());
                            assert(self.peers@[j].team@ == t);
                        }
                    }
                    assert(self.peers_map(team@) matches Some(m) && m =~= Map::<
                        Seq<char>,
                        Seq<u8>,
                    >::new(
                        |k: Seq<char>|
                            k == net_id@ || ({
                                &&& old(self).peers_map(team@) matches Some(m0)
                                &&& m0.dom().contains(k)
                                &&& m0[k] != device@
                            }),
                        |k: Seq<char>|
                            if k == net_id@ {
                                device@
                            } else {
                                old(self).peers_map(team@)->Some_0[k]
                            },
                    ));
                }
                return ;
            }
            i = i + 1;
        }
        let mut peers = bimap_new();
        bimap_insert(&mut peers, net_id, crate::bytes_util::copy_bytes(device.as_bytes()));
        let entry = TeamPeers { team: team.dup(), peers };
        proof {
            if has_team(self.peers@, team@) {
                let j = team_idx(self.peers@, team@);
                assert(0 <= j < self.peers@.len() && self.peers@[j].team@ == team@);
            }
        }
        self.peers.push(entry);
        proof {
            let s2 = self.peers@;
            assert(s2[s2.len() - 1].team@ == team@);
            assert forall|i0: int, j0: int| 0 <= i0 < j0 < s2.len() implies s2[i0].team@
                != s2[j0].team@ by {
                if j0 == s2.len() - 1 {
                    assert(s2[i0] == old(self).peers@[i0]);
                    if old(self).peers@[i0].team@ == team@ {
                        assert(has_team(old(self).peers@, team@));
                    }
                }
            }
            lemma_team_at(s2, s2.len() - 1);
            assert forall|idx: int|
                0 <= idx < s2.len() implies peer_values_wf(
                bimap_pairs((#[trigger] s2[idx]).peers),
            ) by {
                if idx == s2.len() - 1 {
                    assert forall|k: Seq<char>| #[trigger] bimap_pairs(
                        s2[idx].peers,
                    ).dom().contains(k) implies bimap_pairs(s2[idx].peers)[k].len()
                        == ID_LEN by {}
                } else {
                    assert(s2[idx].peers == old(self).peers@[idx].peers);
                    assert(peer_values_wf(bimap_pairs(old(self).peers@[idx].peers)));
                }
            }
            assert forall|t: Seq<u8>|
                t != team@ implies #[trigger] self.peers_map(t) == old(self).peers_map(t) by {
                if has_team(s2, t) {
                    let j = team_idx(s2, t);
                    assert(0 <= j < s2.len() && s2[j].team@ == t);
                    assert(j < s2.len() - 1);
                    assert(old(self).peers@[j].team@ == t);
                    lemma_team_at(old(self).peers@, j);
                }
                if has_team(old(self).peers@, t) {
                    let j = team_idx(old(self).peers@, t);
                    assert(0 <= j < old(self).peers@.len());
                    assert(s2[j].team@ == t);
                }
            }
            assert(self.peers_map(team@) matches Some(m) && m =~= Map::<Seq<char>, Seq<u8>>::new(
                |k: Seq<char>|
                    k == net_id@ || ({
                        &&& old(self).peers_map(team@) matches Some(m0)
                        &&& m0.dom().contains(k)
                        &&& m0[k] != device@
                    }),
                |k: Seq<char>|
                    if k == net_id@ {
                        device@
                    } else {
                        old(self).peers_map(team@)->Some_0[k]
                    },
            ));
        }
    }

    /// The peer device that a network identifier names on a team.
    pub fn find_device_id(&self, team: &TeamId, net_id: &String) -> (r: Option<DeviceId>)
        requires
            self.wf(),
        ensures
            match r {
                Some(d) => self.peers_map(team@) matches Some(m) && m.dom().contains(net_id@)
                    && m[net_id@] == d@,
                None => self.peers_map(team@) matches Some(m) ==> !m.dom().contains(net_id@),
            },
    {
        let n = self.peers.len();
        let mut i: usize = 0;
        while i < n
            invariant
                n == self.peers@.len(),
                i <= n,
                self.wf(),
                forall|j: int| 0 <= j < i ==> self.peers@[j].team@ != team@,
            decreases n - i,
        {
            if self.peers[i].team.same(team) {
                proof {
                    lemma_team_at(self.peers@, i as int);
                }
                return match bimap_get_by_left(&self.peers[i].peers, net_id) {
                    Some(bytes) => {
                        proof {
                            assert(peer_values_wf(bimap_pairs(self.peers@[i as int].peers)));
                        }
                        Some(DeviceId::new(bytes))
                    },
                    None => None,
                };
            }
            i = i + 1;
        }
        proof {
            if has_team(self.peers@, team@) {
                let j = team_idx(self.peers@, team@);
                assert(0 <= j < self.peers@.len() && self.peers@[j].team@ == team@);
            }
        }
        None
    }

    /// Removes a peer from a team by its device.
    pub fn remove_peer(&mut self, team: &TeamId, device: &DeviceId)
        requires
            old(self).wf(),
        ensures
            final(self).wf(),
            final(self).device() == old(self).device(),
            final(self).channels() == old(self).channels(),
            old(self).peers_map(team@) matches Some(m0) ==> (final(self).peers_map(team@)
                matches Some(m) && m == Map::<Seq<char>, Seq<u8>>::new(
                |k: Seq<char>| m0.dom().contains(k) && m0[k] != device@,
                |k: Seq<char>| m0[k],
            )),
            old(self).peers_map(team@) is None ==> final(self).peers_map(team@) is None,
            forall|t: Seq<u8>|
                t != team@ ==> #[trigger] final(self).peers_map(t) == old(self).peers_map(t),
    {
        let n = self.peers.len();
        let mut i: usize = 0;
        while i < n
            invariant
                n == self.peers@.len(),
                i <= n,
                self == old(self),
                self.wf(),
                forall|j: int| 0 <= j < i ==> self.peers@[j].team@ != team@,
            decreases n - i,
        {
            if self.peers[i].team.same(team) {
                proof {
                    lemma_team_at(self.peers@, i as int);
                }
                let mut entry = self.peers.remove(i);
                bimap_remove_by_right(&mut entry.peers, device.as_bytes());
                let ghost new_entry = entry;
                self.peers.insert(i, entry);
                proof {
                    assert(self.peers@ =~= old(self).peers@.update(i as int, new_entry));
                    assert forall|i0: int, j0: int|
                        0 <= i0 < j0 < self.peers@.len() implies self.peers@[i0].team@
                        != self.peers@[j0].team@ by {
                        assert(old(self).peers@[i0].team@ != old(self).peers@[j0].team@);
                    }
                    lemma_team_at(self.peers@, i as int);
                    assert forall|t: Seq<u8>|
                        t != team@ implies #[trigger] self.peers_map(t) == old(self).peers_map(
                        t,
                    ) by {
                        if has_team(self.peers@, t) {
                            let j = team_idx(self.peers@, t);
                            assert(0 <= j < self.peers@.len() && self.peers@[j].team@ == t);
                            assert(j != i);
                            lemma_team_at(old(self).peers@, j);
                        }
                        if has_team(old(self).peers@, t) {
                            let j = team_idx(old(self).peers@, t);
                            assert(0 <= j < old(self).peers@.len());
                            assert(self.peers@[j].team@ == t);
                        }
                    }
                }
                return ;
            }
            i = i + 1;
        }
        proof {
            if has_team(self.peers@, team@) {
                let j = team_idx(self.peers@, team@);
                assert(0 <= j < self.peers@.len() && self.peers@[j].team@ == team@);
            }
        }
    }

    /// Tracks a live channel for a team.
    pub fn add_channel(
        &mut self,
        team: &TeamId,
        channel_id: ChannelId,
        label_id: LabelId,
        peer_device_id: DeviceId,
        direction: Direction,
    ) -> (r: Result<(), AqcError>)
        requires
            old(self).wf(),
            channel_id.wf(),
            label_id@.len() == ID_LEN,
            peer_device_id@.len() == ID_LEN,
        ensures
            final(self).wf(),
            final(self).device() == old(self).device(),
            old(self).channels().dom().contains(channel_id.key()) ==> r == Err::<(), AqcError>(
                AqcError::Duplicate,
            ) && final(self).channels() == old(self).channels(),
            !old(self).channels().dom().contains(channel_id.key()) ==> r == Ok::<(), AqcError>(())
                && final(self).channels() == old(self).channels().insert(
                channel_id.key(),
                (team@, label_id@, peer_device_id@, direction, Status::Active),
            ),
    {
        let info = ChannelInfo {
            channel_id,
            label_id,
            peer_device_id,
            direction,
            status: Status::Active,
        };
        let empty_family = PskFamily { psks: Vec::new() };
        let res = self.active_channels.register(team, info, &empty_family);
        proof {
            if res is Ok {
                assert(self.active_channels.index_map() =~= old(self).active_channels.index_map());
            }
        }
        match res {
            Ok(()) => Ok(()),
            Err(e) => Err(e),
        }
    }

    /// A snapshot of the team's tracked channels.
    pub fn list_active_channels(&self, team: &TeamId) -> (r: Vec<ChannelInfo>)
        requires
            self.wf(),
        ensures
            forall|j: int|
                0 <= j < r@.len() ==> self.channels().dom().contains(
                    (#[trigger] r@[j]).channel_id.key(),
                ) && self.channels()[r@[j].channel_id.key()] == r@[j].val(team@),
            forall|key: Seq<u8>|
                #[trigger] self.channels().dom().contains(key) && self.channels()[key].0 == team@
                    ==> crate::registry::listed(r@, key),
    {
        self.active_channels.list(team)
    }

    /// Stops tracking a deleted channel.  Idempotent.
    pub fn channel_deleted(&mut self, team: &TeamId, channel_id: &ChannelId)
        requires
            old(self).wf(),
            channel_id.wf(),
        ensures
            final(self).wf(),
            final(self).device() == old(self).device(),
            old(self).channels().dom().contains(channel_id.key()) && old(self).channels()[
                channel_id.key()].0 == team@ ==> final(self).channels() == old(self).channels().remove(channel_id.key()),
            !(old(self).channels().dom().contains(channel_id.key()) && old(self).channels()[
                channel_id.key()].0 == team@) ==> final(self).channels() == old(self).channels(),
    {
        self.active_channels.remove_channel(team, channel_id);
    }

    /// Handles the effect of a bidirectional channel this device
    /// authored: checks authorship, then derives the channel's PSK
    /// family from the authorised secret.
    pub fn bidi_channel_created(&self, e: &BidiChannelEffect, secret: &ChannelSecret) -> (r: Result<
        PskFamily,
        AqcError,
    >)
        requires
            e.wf(),
        ensures
            e.author_id@ != self.device() ==> r == Err::<PskFamily, AqcError>(
                AqcError::NotAuthorized,
            ),
            e.author_id@ == self.device() && e.psk_length_in_bytes > 0xFFFF ==> r == Err::<
                PskFamily,
                AqcError,
            >(AqcError::Internal),
            e.author_id@ == self.device() && e.psk_length_in_bytes <= 0xFFFF ==> (r matches Ok(f)
                && is_family_for(
                &f,
                secret@,
                &ChannelId::Bidi(e.channel_id),
                Direction::Bidi,
                spec_supported_suites(),
            )),
    {
        if !e.author_id.same(&self.device_id) {
            return Err(AqcError::NotAuthorized);
        }
        if e.psk_length_in_bytes > 0xFFFF {
            return Err(AqcError::Internal);
        }
        let chan = ChannelId::Bidi(crate::bytes_util::copy_bytes(&e.channel_id));
        let suites = supported_suites();
        let family = derive_family(secret, &chan, Direction::Bidi, &suites)?;
        proof {
            assert(chan.spec_id_bytes() == e.channel_id@);
            assert(is_family_for(
                &family,
                secret@,
                &ChannelId::Bidi(e.channel_id),
                Direction::Bidi,
                spec_supported_suites(),
            ));
        }
        Ok(family)
    }

    /// Handles the effect of a bidirectional channel this device
    /// received: checks that it is the peer, then derives the same
    /// family the author derived.
    pub fn bidi_channel_received(&self, e: &BidiChannelEffect, secret: &ChannelSecret) -> (r:
        Result<PskFamily, AqcError>)
        requires
            e.wf(),
        ensures
            e.peer_id@ != self.device() ==> r == Err::<PskFamily, AqcError>(
                AqcError::NotAuthorized,
            ),
            e.peer_id@ == self.device() && e.psk_length_in_bytes > 0xFFFF ==> r == Err::<
                PskFamily,
                AqcError,
            >(AqcError::Internal),
            e.peer_id@ == self.device() && e.psk_length_in_bytes <= 0xFFFF ==> (r matches Ok(f)
                && is_family_for(
                &f,
                secret@,
                &ChannelId::Bidi(e.channel_id),
                Direction::Bidi,
                spec_supported_suites(),
            )),
    {
        if !e.peer_id.same(&self.device_id) {
            return Err(AqcError::NotAuthorized);
        }
        if e.psk_length_in_bytes > 0xFFFF {
            return Err(AqcError::Internal);
        }
        let chan = ChannelId::Bidi(crate::bytes_util::copy_bytes(&e.channel_id));
        let suites = supported_suites();
        let family = derive_family(secret, &chan, Direction::Bidi, &suites)?;
        proof {
            assert(chan.spec_id_bytes() == e.channel_id@);
        }
        Ok(family)
    }

    /// Handles the effect of a unidirectional channel this device
    /// authored: checks authorship and membership, then derives the
    /// channel's family.  The family is keyed by the channel-level
    /// direction, so the peer's mirrored derivation yields
    /// byte-identical identities and secrets.
    pub fn uni_channel_created(&self, e: &UniChannelEffect, secret: &ChannelSecret) -> (r: Result<
        PskFamily,
        AqcError,
    >)
        requires
            e.wf(),
        ensures
            e.author_id@ != self.device() || (e.sender_id@ != self.device() && e.receiver_id@
                != self.device()) ==> r == Err::<PskFamily, AqcError>(AqcError::NotAuthorized),
            e.author_id@ == self.device() && (e.sender_id@ == self.device() || e.receiver_id@
                == self.device()) && e.psk_length_in_bytes > 0xFFFF ==> r == Err::<
                PskFamily,
                AqcError,
            >(AqcError::Internal),
            e.author_id@ == self.device() && (e.sender_id@ == self.device() || e.receiver_id@
                == self.device()) && e.psk_length_in_bytes <= 0xFFFF ==> (r matches Ok(f)
                && is_family_for(
                &f,
                secret@,
                &ChannelId::Uni(e.channel_id),
                e.spec_channel_direction(),
                spec_supported_suites(),
            )),
    {
        if !e.author_id.same(&self.device_id) {
            return Err(AqcError::NotAuthorized);
        }
        if !e.sender_id.same(&self.device_id) && !e.receiver_id.same(&self.device_id) {
            return Err(AqcError::NotAuthorized);
        }
        if e.psk_length_in_bytes > 0xFFFF {
            return Err(AqcError::Internal);
        }
        let chan = ChannelId::Uni(crate::bytes_util::copy_bytes(&e.channel_id));
        let dir = if e.sender_id.same(&e.author_id) {
            Direction::Send
        } else {
            Direction::Recv
        };
        let suites = supported_suites();
        let family = derive_family(secret, &chan, dir, &suites)?;
        proof {
            assert(chan.spec_id_bytes() == e.channel_id@);
        }
        Ok(family)
    }

    /// Handles the effect of a unidirectional channel this device
    /// received: checks that it is a member and not the author, then
    /// derives the same family the author derived, byte for byte.
    pub fn uni_channel_received(&self, e: &UniChannelEffect, secret: &ChannelSecret) -> (r: Result<
        PskFamily,
        AqcError,
    >)
        requires
            e.wf(),
        ensures
            e.author_id@ == self.device() || (e.sender_id@ != self.device() && e.receiver_id@
                != self.device()) ==> r == Err::<PskFamily, AqcError>(AqcError::NotAuthorized),
            e.author_id@ != self.device() && (e.sender_id@ == self.device() || e.receiver_id@
                == self.device()) && e.psk_length_in_bytes > 0xFFFF ==> r == Err::<
                PskFamily,
                AqcError,
            >(AqcError::Internal),
            e.author_id@ != self.device() && (e.sender_id@ == self.device() || e.receiver_id@
                == self.device()) && e.psk_length_in_bytes <= 0xFFFF ==> (r matches Ok(f)
                && is_family_for(
                &f,
                secret@,
                &ChannelId::Uni(e.channel_id),
                e.spec_channel_direction(),
                spec_supported_suites(),
            )),
    {
        if e.author_id.same(&self.device_id) {
            return Err(AqcError::NotAuthorized);
        }
        if !e.sender_id.same(&self.device_id) && !e.receiver_id.same(&self.device_id) {
            return Err(AqcError::NotAuthorized);
        }
        if e.psk_length_in_bytes > 0xFFFF {
            return Err(AqcError::Internal);
        }
        let chan = ChannelId::Uni(crate::bytes_util::copy_bytes(&e.channel_id));
        let dir = if e.sender_id.same(&e.author_id) {
            Direction::Send
        } else {
            Direction::Recv
        };
        let suites = supported_suites();
        let family = derive_family(secret, &chan, dir, &suites)?;
        proof {
            assert(chan.spec_id_bytes() == e.channel_id@);
        }
        Ok(family)
    }
}

/// The two halves of a unidirectional channel mirror each other:
/// families the author and the peer derive from the same effect and
/// secret are byte-identical, identity for identity and secret for
/// secret, so TLS matches them by shared identity.  Which half may
/// send is the holder's permission, outside the keys.
pub proof fn lemma_uni_halves_mirror(
    f_author: &PskFamily,
    f_peer: &PskFamily,
    secret: Seq<u8>,
    e: &UniChannelEffect,
    suites: Seq<CipherSuite>,
)
    requires
        is_family_for(
            f_author,
            secret,
            &ChannelId::Uni(e.channel_id),
            e.spec_channel_direction(),
            suites,
        ),
        is_family_for(
            f_peer,
            secret,
            &ChannelId::Uni(e.channel_id),
            e.spec_channel_direction(),
            suites,
        ),
    ensures
        f_author.spec_pairs() == f_peer.spec_pairs(),
{
    crate::derive::lemma_derivation_deterministic(
        f_author,
        f_peer,
        secret,
        &ChannelId::Uni(e.channel_id),
        e.spec_channel_direction(),
        suites,
    );
}

} // verus!
