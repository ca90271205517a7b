//! The runtime PSK store feeding the TLS endpoints.
//!
//! The store serves the TLS stack's PSK lookup for both roles: it maps
//! PSK identities to secrets, latches the single identity the client
//! role offers on its next outgoing handshake, and queues, in accept
//! order, each identity the server role selected for an accepted
//! connection.  It is mutated at runtime as channels come and go; a
//! channel's PSKs live in the store exactly while the channel lives.

use vstd::prelude::*;

use crate::AqcError;
use crate::bytes_util::{bytes_eq, copy_bytes};
use crate::derive::{PskFamily, distinct_identities};
use crate::identity::identity_of_channel;
use crate::ids::ChannelId;

verus! {

/// One stored PSK: an identity and its secret.
struct PskEntry {
    identity: Vec<u8>,
    secret: Vec<u8>,
}

/// Whether some entry carries the identity.
spec fn has_id(s: Seq<PskEntry>, id: Seq<u8>) -> bool {
    exists|i: int| 0 <= i < s.len() && s[i].identity@ == id
}

/// The index of the entry carrying the identity.
spec fn idx_of(s: Seq<PskEntry>, id: Seq<u8>) -> int {
    choose|i: int| 0 <= i < s.len() && s[i].identity@ == id
}

/// The secret stored under the identity.
spec fn secret_for(s: Seq<PskEntry>, id: Seq<u8>) -> Seq<u8> {
    s[idx_of(s, id)].secret@
}

/// No identity occurs twice.
spec fn unique_ids(s: Seq<PskEntry>) -> bool {
    forall|i: int, j: int| 0 <= i < j < s.len() ==> s[i].identity@ != s[j].identity@
}

/// The identity-to-secret map a sequence of entries represents.
spec fn entries_map(s: Seq<PskEntry>) -> Map<Seq<u8>, Seq<u8>> {
    Map::new(|id: Seq<u8>| has_id(s, id), |id: Seq<u8>| secret_for(s, id))
}

/// Appending an entry with a fresh identity inserts it into the map.
proof fn lemma_map_push(s: Seq<PskEntry>, e: PskEntry)
    requires
        unique_ids(s),
        !has_id(s, e.identity@),
    ensures
        unique_ids(s.push(e)),
        entries_map(s.push(e)) == entries_map(s).insert(e.identity@, e.secret@),
{
    let s2 = s.push(e);
    assert forall|i: int, j: int| 0 <= i < j < s2.len() implies s2[i].identity@
        != s2[j].identity@ by {
        if j == s.len() {
            assert(s2[i] == s[i]);
            if s[i].identity@ == e.identity@ {
                assert(has_id(s, e.identity@));
            }
        }
    }
    let m1 = entries_map(s2);
    let m2 = entries_map(s).insert(e.identity@, e.secret@);
    assert forall|x: Seq<u8>| #[trigger] m1.dom().contains(x) implies m2.dom().contains(x) && m1[x]
        == m2[x] by {
        let i = idx_of(s2, x);
        assert(0 <= i < s2.len() && s2[i].identity@ == x);
        if x == e.identity@ {
            assert(i == s.len());
            assert(m1[x] == e.secret@);
        } else {
            assert(i < s.len() && s2[i] == s[i]);
            assert(has_id(s, x));
            let i0 = idx_of(s, x);
            assert(0 <= i0 < s.len() && s[i0].identity@ == x);
            assert(i0 == i);
            assert(m1[x] == s[i0].secret@);
        }
    }
    assert forall|x: Seq<u8>| #[trigger] m2.dom().contains(x) implies m1.dom().contains(x) by {
        if x == e.identity@ {
            assert(s2[s.len() as int].identity@ == x);
        } else {
            let i0 = idx_of(s, x);
            assert(0 <= i0 < s.len() && s[i0].identity@ == x);
            assert(s2[i0].identity@ == x);
        }
    }
    assert(m1 =~= m2);
}

/// In a sequence of unique identities, the entry holding an identity
/// is the only one, so the map's value at it is that entry's secret.
proof fn lemma_value_at(s: Seq<PskEntry>, i: int)
    requires
        unique_ids(s),
        0 <= i < s.len(),
    ensures
        has_id(s, s[i].identity@),
        secret_for(s, s[i].identity@) == s[i].secret@,
{
    assert(has_id(s, s[i].identity@));
    let j = idx_of(s, s[i].identity@);
    assert(0 <= j < s.len() && s[j].identity@ == s[i].identity@);
    if i != j {
        assert(false);
    }
}

/// Whether installing the family would conflict with the map: some
/// identity of the family is present with a different secret.
pub open spec fn family_conflicts(family: &PskFamily, m: Map<Seq<u8>, Seq<u8>>) -> bool {
    exists|i: int|
        0 <= i < family.spec_pairs().len() && m.dom().contains(
            (#[trigger] family.spec_pairs()[i]).0,
        ) && m[family.spec_pairs()[i].0] != family.spec_pairs()[i].1
}

/// The in-memory PSK store.
pub struct PskStore {
    entries: Vec<PskEntry>,
    client_key: Option<Vec<u8>>,
    selections: Vec<Vec<u8>>,
}

impl PskStore {
    /// The identity-to-secret map the store holds.
    pub closed spec fn psk_map(&self) -> Map<Seq<u8>, Seq<u8>> {
        entries_map(self.entries@)
    }

    /// The identity latched for the client role's next outgoing
    /// handshake.
    pub closed spec fn latched(&self) -> Option<Seq<u8>> {
        match self.client_key {
            Some(ref k) => Some(k@),
            None => None,
        }
    }

    /// The queued server selections, oldest first.
    pub closed spec fn selections(&self) -> Seq<Seq<u8>> {
        self.selections.deep_view()
    }

    /// Internal well-formedness: identities are unique.
    pub closed spec fn wf(&self) -> bool {
        unique_ids(self.entries@)
    }

    /// An empty store: no keys, no latch, no pending selections.
    pub fn new() -> (r: Self)
        ensures
            r.wf(),
            r.psk_map() == Map::<Seq<u8>, Seq<u8>>::empty(),
            r.latched() is None,
            r.selections() == Seq::<Seq<u8>>::empty(),
    {
        let r = PskStore { entries: Vec::new(), client_key: None, selections: Vec::new() };
        proof {
            assert(r.psk_map() =~= Map::<Seq<u8>, Seq<u8>>::empty());
            assert(r.selections() =~= Seq::<Seq<u8>>::empty());
        }
        r
    }

    /// Adds a PSK keyed by its identity.
    ///
    /// Idempotent on an identical pair; fails with the conflict error,
    /// changing nothing, when the identity is present with a different
    /// secret.
    pub fn insert(&mut self, identity: Vec<u8>, secret: Vec<u8>) -> (r: Result<(), AqcError>)
        requires
            old(self).wf(),
        ensures
            final(self).wf(),
            final(self).latched() == old(self).latched(),
            final(self).selections() == old(self).selections(),
            old(self).psk_map().dom().contains(identity@) && old(self).psk_map()[identity@]
                != secret@ ==> r == Err::<(), AqcError>(AqcError::PskConflict) && final(self).psk_map() == old(self).psk_map(),
            !(old(self).psk_map().dom().contains(identity@) && old(self).psk_map()[identity@]
                != secret@) ==> r == Ok::<(), AqcError>(()) && final(self).psk_map() == old(self).psk_map().insert(identity@, secret@),
    {
        let n = self.entries.len();
        let mut i: usize = 0;
        while i < n
            invariant
                n == self.entries@.len(),
                i <= n,
                self.wf(),
                forall|j: int| 0 <= j < i ==> self.entries@[j].identity@ != identity@,
            decreases n - i,
        {
            if bytes_eq(&self.entries[i].identity, &identity) {
                proof {
                    lemma_value_at(self.entries@, i as int);
                }
                if bytes_eq(&self.entries[i].secret, &secret) {
                    proof {
                        assert(self.psk_map() =~= self.psk_map().insert(identity@, secret@));
                    }
                    return Ok(());
                }
                return Err(AqcError::PskConflict);
            }
            i = i + 1;
        }
        proof {
            if self.psk_map().dom().contains(identity@) {
                let j = idx_of(self.entries@, identity@);
                assert(0 <= j < self.entries@.len() && self.entries@[j].identity@ == identity@);
            }
            lemma_map_push(self.entries@, PskEntry { identity, secret });
        }
        let entry = PskEntry { identity, secret };
        self.entries.push(entry);
        Ok(())
    }

    /// Removes the PSK with this identity; does nothing if absent.
    pub fn remove(&mut self, identity: &Vec<u8>)
        requires
            old(self).wf(),
        ensures
            final(self).wf(),
            final(self).latched() == old(self).latched(),
            final(self).selections() == old(self).selections(),
            final(self).psk_map() == old(self).psk_map().remove(identity@),
    {
        let n = self.entries.len();
        let mut i: usize = 0;
        while i < n
            invariant
                n == self.entries@.len(),
                i <= n,
                self.wf(),
                self == old(self),
                forall|j: int| 0 <= j < i ==> self.entries@[j].identity@ != identity@,
            decreases n - i,
        {
            if bytes_eq(&self.entries[i].identity, identity) {
                proof {
                    lemma_remove_at(self.entries@, i as int);
                }
                self.entries.remove(i);
                return ;
            }
            i = i + 1;
        }
        proof {
            if self.psk_map().dom().contains(identity@) {
                let j = idx_of(self.entries@, identity@);
                assert(0 <= j < self.entries@.len() && self.entries@[j].identity@ == identity@);
            }
            assert(self.psk_map() =~= self.psk_map().remove(identity@));
        }
    }

    /// Latches the identity the client role offers on its next
    /// outgoing handshake; the latch holds until set again.
    pub fn set_client_key(&mut self, identity: Vec<u8>)
        requires
            old(self).wf(),
        ensures
            final(self).wf(),
            final(self).psk_map() == old(self).psk_map(),
            final(self).selections() == old(self).selections(),
            final(self).latched() == Some(identity@),
    {
        self.client_key = Some(identity);
    }

    /// The identity currently latched for the client role.
    pub fn client_key(&self) -> (r: Option<&Vec<u8>>)
        ensures
            match r {
                Some(k) => self.latched() == Some(k@),
                None => self.latched() is None,
            },
    {
        match &self.client_key {
            Some(k) => Some(k),
            None => None,
        }
    }

    /// Queues a server-role selection notification.  Called once per
    /// accepted connection, in accept order.
    pub fn push_selection(&mut self, identity: Vec<u8>)
        requires
            old(self).wf(),
        ensures
            final(self).wf(),
            final(self).psk_map() == old(self).psk_map(),
            final(self).latched() == old(self).latched(),
            final(self).selections() == old(self).selections().push(identity@),
    {
        self.selections.push(identity);
        proof {
            assert forall|i: int|
                0 <= i < self.selections@.len() implies #[trigger] self.selections.deep_view()[i]
                == old(self).selections().push(identity@)[i] by {
                if i < old(self).selections@.len() {
                    assert(self.selections@[i] == old(self).selections@[i]);
                }
            }
            assert(self.selections.deep_view() =~= old(self).selections().push(identity@));
        }
    }

    /// Takes the oldest queued selection, if any: the selection paired
    /// with the next accepted connection.
    pub fn take_selection(&mut self) -> (r: Option<Vec<u8>>)
        requires
            old(self).wf(),
        ensures
            final(self).wf(),
            final(self).psk_map() == old(self).psk_map(),
            final(self).latched() == old(self).latched(),
            old(self).selections().len() == 0 ==> r is None && final(self).selections() == old(self).selections(),
            old(self).selections().len() > 0 ==> (r matches Some(id) && id@ == old(self).selections()[0] && final(self).selections() == old(self).selections().drop_first()),
    {
        if self.selections.len() == 0 {
            return None;
        }
        let first = self.selections.remove(0);
        proof {
            assert(self.selections.deep_view() =~= old(self).selections().drop_first());
        }
        Some(first)
    }

    /// Removes every PSK whose identity encodes this channel.
    pub fn drop_family(&mut self, chan: &ChannelId)
        requires
            old(self).wf(),
            chan.wf(),
        ensures
            final(self).wf(),
            final(self).latched() == old(self).latched(),
            final(self).selections() == old(self).selections(),
            final(self).psk_map() == Map::<Seq<u8>, Seq<u8>>::new(
                |x: Seq<u8>|
                    old(self).psk_map().dom().contains(x) && !identity_of_channel(x, chan),
                |x: Seq<u8>| old(self).psk_map()[x],
            ),
            forall|x: Seq<u8>|
                final(self).psk_map().dom().contains(x) <==> (old(self).psk_map().dom().contains(x) && !identity_of_channel(x, chan)),
    {
        let ghost old_s = self.entries@;
        let n = self.entries.len();
        let mut kept: Vec<PskEntry> = Vec::new();
        let mut i: usize = 0;
        while i < n
            invariant
                n == old_s.len(),
                i <= n,
                self.entries@ == old_s,
                unique_ids(old_s),
                chan.wf(),
                unique_ids(kept@),
                entries_map(kept@) == Map::<Seq<u8>, Seq<u8>>::new(
                    |x: Seq<u8>|
                        has_id(old_s.subrange(0, i as int), x) && !identity_of_channel(x, chan),
                    |x: Seq<u8>| secret_for(old_s, x),
                ),
            decreases n - i,
        {
            let ghost prefix = old_s.subrange(0, i as int);
            let ghost prefix2 = old_s.subrange(0, i + 1);
            proof {
                assert(prefix2 =~= prefix.push(old_s[i as int]));
            }
            let e = &self.entries[i];
            if !crate::identity::identity_belongs_to(&e.identity, chan) {
                let kept_entry = PskEntry {
                    identity: copy_bytes(&e.identity),
                    secret: copy_bytes(&e.secret),
                };
                proof {
                    if has_id(kept@, e.identity@) {
                        assert(entries_map(kept@).dom().contains(e.identity@));
                        assert(has_id(prefix, e.identity@));
                        let j = idx_of(prefix, e.identity@);
                        assert(0 <= j < prefix.len() && prefix[j].identity@ == e.identity@);
                        assert(old_s[j].identity@ == old_s[i as int].identity@);
                    }
                    lemma_map_push(kept@, kept_entry);
                }
                kept.push(kept_entry);
                proof {
                    lemma_value_at(old_s, i as int);
                    assert forall|x: Seq<u8>|
                        has_id(prefix2, x) <==> (has_id(prefix, x) || x == old_s[
                        i as int].identity@) by {
                        if has_id(prefix2, x) {
                            let j = idx_of(prefix2, x);
                            assert(0 <= j < prefix2.len() && prefix2[j].identity@ == x);
                            if j < prefix.len() {
                                assert(prefix[j].identity@ == x);
                            }
                        }
                        if has_id(prefix, x) {
                            let j = idx_of(prefix, x);
                            assert(0 <= j < prefix.len() && prefix[j].identity@ == x);
                            assert(prefix2[j].identity@ == x);
                        }
                        if x == old_s[i as int].identity@ {
                            assert(prefix2[i as int].identity@ == x);
                        }
                    }
                    assert(entries_map(kept@) =~= Map::<Seq<u8>, Seq<u8>>::new(
                        |x: Seq<u8>| has_id(prefix2, x) && !identity_of_channel(x, chan),
                        |x: Seq<u8>| secret_for(old_s, x),
                    ));
                }
            } else {
                proof {
                    assert forall|x: Seq<u8>|
                        has_id(prefix2, x) && !identity_of_channel(x, chan) implies has_id(
                        prefix,
                        x,
                    ) by {
                        let j = idx_of(prefix2, x);
                        assert(0 <= j < prefix2.len() && prefix2[j].identity@ == x);
                        if j < prefix.len() {
                            assert(prefix[j].identity@ == x);
                        }
                    }
                    assert forall|x: Seq<u8>| has_id(prefix, x) implies has_id(prefix2, x) by {
                        let j = idx_of(prefix, x);
                        assert(0 <= j < prefix.len() && prefix[j].identity@ == x);
                        assert(prefix2[j].identity@ == x);
                    }
                    assert(entries_map(kept@) =~= Map::<Seq<u8>, Seq<u8>>::new(
                        |x: Seq<u8>| has_id(prefix2, x) && !identity_of_channel(x, chan),
                        |x: Seq<u8>| secret_for(old_s, x),
                    ));
                }
            }
            i = i + 1;
        }
        proof {
            assert(old_s.subrange(0, n as int) =~= old_s);
        }
        self.entries = kept;
        proof {
            assert(self.psk_map() =~= Map::<Seq<u8>, Seq<u8>>::new(
                |x: Seq<u8>|
                    old(self).psk_map().dom().contains(x) && !identity_of_channel(x, chan),
                |x: Seq<u8>| old(self).psk_map()[x],
            ));
        }
    }

    /// Atomic bulk insert of a whole PSK family.
    ///
    /// If any identity of the family is already present with a
    /// different secret, nothing is installed and the conflict error
    /// is returned; otherwise every PSK of the family is installed.
    pub fn load_family(&mut self, family: &PskFamily) -> (r: Result<(), AqcError>)
        requires
            old(self).wf(),
            distinct_identities(family),
        ensures
            final(self).wf(),
            final(self).latched() == old(self).latched(),
            final(self).selections() == old(self).selections(),
            family_conflicts(family, old(self).psk_map()) ==> r == Err::<(), AqcError>(
                AqcError::PskConflict,
            ) && final(self).psk_map() == old(self).psk_map(),
            !family_conflicts(family, old(self).psk_map()) ==> r == Ok::<(), AqcError>(()) && (
            forall|x: Seq<u8>|
                #[trigger] final(self).psk_map().dom().contains(x) <==> (old(self).psk_map().dom().contains(x) || family.spec_identities().contains(x))) && (forall|
                i: int,
            |
                0 <= i < family.spec_pairs().len() ==> final(self).psk_map()[(
                #[trigger] family.spec_pairs()[i]).0] == family.spec_pairs()[i].1) && (forall|
                x: Seq<u8>,
            |
                old(self).psk_map().dom().contains(x) && !family.spec_identities().contains(x)
                    ==> #[trigger] final(self).psk_map()[x] == old(self).psk_map()[x]),
    {
        let n = family.len();
        let mut i: usize = 0;
        while i < n
            invariant
                n == family.spec_pairs().len(),
                i <= n,
                self == old(self),
                self.wf(),
                forall|j: int|
                    0 <= j < i ==> !(self.psk_map().dom().contains(
                        (#[trigger] family.spec_pairs()[j]).0,
                    ) && self.psk_map()[family.spec_pairs()[j].0] != family.spec_pairs()[j].1),
            decreases n - i,
        {
            let psk = family.get(i);
            match self.get(psk.identity_bytes()) {
                Some(secret) => {
                    if !bytes_eq(secret, psk.raw_secret_bytes()) {
                        proof {
                            assert(family.spec_pairs()[i as int].0
                                == psk.spec_identity_bytes());
                        }
                        return Err(AqcError::PskConflict);
                    }
                },
                None => (),
            }
            i = i + 1;
        }
        proof {
            if family_conflicts(family, self.psk_map()) {
                let j = choose|j: int|
                    0 <= j < family.spec_pairs().len() && self.psk_map().dom().contains(
                        (#[trigger] family.spec_pairs()[j]).0,
                    ) && self.psk_map()[family.spec_pairs()[j].0] != family.spec_pairs()[j].1;
            }
        }
        let mut k: usize = 0;
        while k < n
            invariant
                n == family.spec_pairs().len(),
                k <= n,
                self.wf(),
                distinct_identities(family),
                family.spec_identities().len() == family.spec_pairs().len(),
                self.latched() == old(self).latched(),
                self.selections() == old(self).selections(),
                !family_conflicts(family, old(self).psk_map()),
                forall|x: Seq<u8>|
                    #[trigger] self.psk_map().dom().contains(x) <==> (old(self).psk_map().dom().contains(x) || family.spec_identities().subrange(
                        0,
                        k as int,
                    ).contains(x)),
                forall|j: int|
                    0 <= j < k ==> self.psk_map()[(#[trigger] family.spec_pairs()[j]).0]
                        == family.spec_pairs()[j].1,
                forall|x: Seq<u8>|
                    old(self).psk_map().dom().contains(x)
                        && !family.spec_identities().subrange(0, k as int).contains(x)
                        ==> #[trigger] self.psk_map()[x] == old(self).psk_map()[x],
            decreases n - k,
        {
            let psk = family.get(k);
            let identity = copy_bytes(psk.identity_bytes());
            let secret = copy_bytes(psk.raw_secret_bytes());
            proof {
                let ids = family.spec_identities();
                assert(ids[k as int] == family.spec_pairs()[k as int].0);
                if self.psk_map().dom().contains(identity@) {
                    if ids.subrange(0, k as int).contains(identity@) {
                        let j = choose|j: int|
                            0 <= j < k && #[trigger] ids.subrange(0, k as int)[j] == identity@;
                        assert(ids[j] == ids[k as int]);
                        assert(false);
                    }
                    assert(old(self).psk_map().dom().contains(identity@));
                    assert(self.psk_map()[identity@] == old(self).psk_map()[identity@]);
                    assert(!(old(self).psk_map().dom().contains(ids[k as int]) && old(self).psk_map()[ids[k as int]] != family.spec_pairs()[k as int].1));
                }
            }
            let res = self.insert(identity, secret);
            proof {
                assert(res is Ok);
            }
            k = k + 1;
            proof {
                let ids = family.spec_identities();
                assert forall|x: Seq<u8>|
                    #[trigger] ids.subrange(0, k as int).contains(x) <==> (ids.subrange(
                        0,
                        k - 1,
                    ).contains(x) || x == ids[k - 1]) by {
                    if ids.subrange(0, k as int).contains(x) {
                        let j = choose|j: int|
                            0 <= j < k && #[trigger] ids.subrange(0, k as int)[j] == x;
                        if j < k - 1 {
                            assert(ids.subrange(0, k - 1)[j] == x);
                        }
                    }
                    if ids.subrange(0, k - 1).contains(x) {
                        let j = choose|j: int|
                            0 <= j < k - 1 && #[trigger] ids.subrange(0, k - 1)[j] == x;
                        assert(ids.subrange(0, k as int)[j] == x);
                    }
                    if x == ids[k - 1] {
                        assert(ids.subrange(0, k as int)[k - 1] == x);
                    }
                }
                assert forall|j: int|
                    0 <= j < k implies self.psk_map()[(#[trigger] family.spec_pairs()[j]).0]
                    == family.spec_pairs()[j].1 by {
                    if j < k - 1 {
                        assert(family.spec_pairs()[j].0 == ids[j]);
                        if ids[j] == ids[k - 1] {
                            assert(false);
                        }
                    }
                }
            }
        }
        proof {
            assert(family.spec_identities().subrange(
                0,
                family.spec_identities().len() as int,
            ) =~= family.spec_identities());
        }
        Ok(())
    }

    /// Looks a secret up by identity; the server role's PSK lookup.
    pub fn get(&self, identity: &Vec<u8>) -> (r: Option<&Vec<u8>>)
        requires
            self.wf(),
        ensures
            match r {
                Some(s) => self.psk_map().dom().contains(identity@) && s@ == self.psk_map()[identity@],
                None => !self.psk_map().dom().contains(identity@),
            },
    {
        let n = self.entries.len();
        let mut i: usize = 0;
        while i < n
            invariant
                n == self.entries@.len(),
                i <= n,
                self.wf(),
                forall|j: int| 0 <= j < i ==> self.entries@[j].identity@ != identity@,
            decreases n - i,
        {
            if bytes_eq(&self.entries[i].identity, identity) {
                proof {
                    lemma_value_at(self.entries@, i as int);
                }
                return Some(&self.entries[i].secret);
            }
            i = i + 1;
        }
        proof {
            if self.psk_map().dom().contains(identity@) {
                let j = idx_of(self.entries@, identity@);
                assert(0 <= j < self.entries@.len() && self.entries@[j].identity@ == identity@);
            }
        }
        None
    }
}

/// Removing the entry at an index removes exactly its identity from
/// the map.
proof fn lemma_remove_at(s: Seq<PskEntry>, k: int)
    requires
        unique_ids(s),
        0 <= k < s.len(),
    ensures
        unique_ids(s.remove(k)),
        entries_map(s.remove(k)) == entries_map(s).remove(s[k].identity@),
{
    let s2 = s.remove(k);
    assert forall|i: int, j: int| 0 <= i < j < s2.len() implies s2[i].identity@
        != s2[j].identity@ by {
        let i0 = if i < k {
            i
        } else {
            i + 1
        };
        let j0 = if j < k {
            j
        } else {
            j + 1
        };
        assert(s2[i] == s[i0] && s2[j] == s[j0]);
    }
    let m1 = entries_map(s2);
    let m2 = entries_map(s).remove(s[k].identity@);
    assert forall|x: Seq<u8>| #[trigger] m1.dom().contains(x) implies m2.dom().contains(x) && m1[x]
        == m2[x] by {
        let i = idx_of(s2, x);
        assert(0 <= i < s2.len() && s2[i].identity@ == x);
        let i0 = if i < k {
            i
        } else {
            i + 1
        };
        assert(s2[i] == s[i0]);
        assert(s[i0].identity@ == x);
        lemma_value_at(s, i0);
        assert(x != s[k].identity@);
        assert(has_id(s, x));
        assert(m1[x] == s2[i].secret@) by {
            lemma_value_at(s2, i);
        }
    }
    assert forall|x: Seq<u8>| #[trigger] m2.dom().contains(x) implies m1.dom().contains(x) by {
        let i0 = idx_of(s, x);
        assert(0 <= i0 < s.len() && s[i0].identity@ == x);
        assert(i0 != k);
        let i = if i0 < k {
            i0
        } else {
            i0 - 1
        };
        assert(s2[i] == s[i0]);
    }
    assert(m1 =~= m2);
}

} // verus!
