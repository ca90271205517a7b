//! Per-channel, per-suite PSK derivation.
//!
//! Given an authorised channel secret handed over by the policy
//! engine and the channel's identifier, one PSK is derived for every
//! supported cipher suite: the secret is extracted into a
//! pseudorandom key with the suite's hash and a fixed salt, then
//! expanded with the PSK's own 37-byte identity as the info string to
//! the hash's output length.  Derivation is deterministic: identical
//! inputs yield byte-identical families.  The direction fed in is a
//! property of the channel, identical at both endpoints, so the two
//! ends of a channel derive the same identities and secrets and TLS
//! can match them by shared identity.

use vstd::prelude::*;

use crate::AqcError;

use crate::identity::{Direction, direction_fits, encode_identity, spec_identity};
use crate::ids::ChannelId;
use crate::kdf::{
    expand_sha256, expand_sha384, extract_sha256, extract_sha384, hkdf_expand_sha256,
    hkdf_expand_sha384, hkdf_extract_sha256, hkdf_extract_sha384,
};
use crate::suites::CipherSuite;

verus! {

/// The fixed HKDF-Extract salt of the channel plane.
pub open spec fn spec_kdf_salt() -> Seq<u8> {
    // "aqc psk v1"
    seq![0x61u8, 0x71u8, 0x63u8, 0x20u8, 0x70u8, 0x73u8, 0x6bu8, 0x20u8, 0x76u8, 0x31u8]
}

/// Builds the fixed HKDF-Extract salt.
pub fn kdf_salt() -> (r: Vec<u8>)
    ensures
        r@ == spec_kdf_salt(),
{
    let mut v: Vec<u8> = Vec::new();
    v.push(0x61);
    v.push(0x71);
    v.push(0x63);
    v.push(0x20);
    v.push(0x70);
    v.push(0x73);
    v.push(0x6b);
    v.push(0x20);
    v.push(0x76);
    v.push(0x31);
    proof {
        assert(v@ =~= spec_kdf_salt());
    }
    v
}

/// An authorised channel secret, as handed over by the policy engine.
///
/// The secret is opaque key material scoped to one channel.  It is
/// never serialised and carries no printable form.
pub struct ChannelSecret {
    bytes: Vec<u8>,
}

impl View for ChannelSecret {
    type V = Seq<u8>;

    closed spec fn view(&self) -> Seq<u8> {
        self.bytes@
    }
}

impl ChannelSecret {
    /// Wraps raw secret bytes.
    pub fn new(bytes: Vec<u8>) -> (r: Self)
        ensures
            r@ == bytes@,
    {
        ChannelSecret { bytes }
    }

    /// The raw secret bytes.
    pub fn raw_bytes(&self) -> (r: &Vec<u8>)
        ensures
            r@ == self@,
    {
        &self.bytes
    }
}

/// The secret bytes of one channel PSK: HKDF with the suite's hash,
/// keyed by the channel secret, bound to the PSK's identity.
pub open spec fn spec_psk_secret(
    secret: Seq<u8>,
    chan: &ChannelId,
    suite: CipherSuite,
    dir: Direction,
) -> Seq<u8> {
    let identity = spec_identity(chan, suite, dir);
    match suite {
        CipherSuite::Aes256GcmSha384 => hkdf_expand_sha384(
            hkdf_extract_sha384(secret, spec_kdf_salt()),
            identity,
            48,
        ),
        CipherSuite::Chacha20Poly1305Sha256 => hkdf_expand_sha256(
            hkdf_extract_sha256(secret, spec_kdf_salt()),
            identity,
            32,
        ),
    }
}

/// One derived PSK: its identity, its secret, and the suite it
/// belongs to.
pub struct Psk {
    identity: Vec<u8>,
    secret: Vec<u8>,
    suite: CipherSuite,
}

impl Psk {
    /// The PSK identity bytes.
    pub closed spec fn spec_identity_bytes(&self) -> Seq<u8> {
        self.identity@
    }

    /// The raw secret bytes.
    pub closed spec fn spec_secret_bytes(&self) -> Seq<u8> {
        self.secret@
    }

    /// The suite the PSK belongs to.
    pub closed spec fn spec_suite(&self) -> CipherSuite {
        self.suite
    }

    /// The PSK identity bytes.
    pub fn identity_bytes(&self) -> (r: &Vec<u8>)
        ensures
            r@ == self.spec_identity_bytes(),
    {
        &self.identity
    }

    /// The raw secret bytes.
    pub fn raw_secret_bytes(&self) -> (r: &Vec<u8>)
        ensures
            r@ == self.spec_secret_bytes(),
    {
        &self.secret
    }

    /// The suite the PSK belongs to.
    pub fn suite(&self) -> (r: CipherSuite)
        ensures
            r == self.spec_suite(),
    {
        self.suite
    }
}

/// A family of PSKs, one per supported cipher suite, all belonging to
/// one channel.
pub struct PskFamily {
    /// The PSKs, in suite order.
    pub psks: Vec<Psk>,
}

/// Whether `family` is exactly the derivation of `secret` for the
/// channel, direction and suite list.
pub open spec fn is_family_for(
    family: &PskFamily,
    secret: Seq<u8>,
    chan: &ChannelId,
    dir: Direction,
    suites: Seq<CipherSuite>,
) -> bool {
    &&& family.psks@.len() == suites.len()
    &&& forall|i: int|
        0 <= i < suites.len() ==> (#[trigger] family.psks@[i]).spec_suite() == suites[i]
            && family.psks@[i].spec_identity_bytes() == spec_identity(chan, suites[i], dir)
            && family.psks@[i].spec_secret_bytes() == spec_psk_secret(secret, chan, suites[i], dir)
            && family.psks@[i].spec_secret_bytes().len() == suites[i].spec_hash_len()
}

impl PskFamily {
    /// The identities of the family's PSKs, in suite order.
    pub open spec fn spec_identities(&self) -> Seq<Seq<u8>> {
        self.psks@.map(|i: int, p: Psk| p.spec_identity_bytes())
    }

    /// The (identity, secret) pairs of the family, in suite order.
    pub open spec fn spec_pairs(&self) -> Seq<(Seq<u8>, Seq<u8>)> {
        self.psks@.map(|i: int, p: Psk| (p.spec_identity_bytes(), p.spec_secret_bytes()))
    }

    /// How many PSKs the family holds.
    pub fn len(&self) -> (r: usize)
        ensures
            r == self.psks@.len(),
    {
        self.psks.len()
    }

    /// The PSK at an index.
    pub fn get(&self, i: usize) -> (r: &Psk)
        requires
            i < self.psks@.len(),
        ensures
            *r == self.psks@[i as int],
    {
        &self.psks[i]
    }
}

/// Derives the PSK family of a channel from its authorised secret.
///
/// One PSK is derived per listed suite, in order; the direction is
/// the channel's class, so both endpoints of a channel derive the
/// same family.  Fails only when the suite list is empty.
pub fn derive_family(
    secret: &ChannelSecret,
    chan: &ChannelId,
    dir: Direction,
    suites: &Vec<CipherSuite>,
) -> (r: Result<PskFamily, AqcError>)
    requires
        chan.wf(),
        direction_fits(chan, dir),
    ensures
        suites@.len() == 0 ==> r == Err::<PskFamily, AqcError>(AqcError::NoSuites),
        suites@.len() > 0 ==> (r matches Ok(f) && is_family_for(&f, secret@, chan, dir, suites@)),
{
    if suites.len() == 0 {
        return Err(AqcError::NoSuites);
    }
    let salt = kdf_salt();
    let mut psks: Vec<Psk> = Vec::new();
    let mut i: usize = 0;
    while i < suites.len()
        invariant
            i <= suites@.len(),
            chan.wf(),
            salt@ == spec_kdf_salt(),
            psks@.len() == i,
            forall|j: int|
                0 <= j < i ==> (#[trigger] psks@[j]).spec_suite() == suites@[j]
                    && psks@[j].spec_identity_bytes() == spec_identity(chan, suites@[j], dir)
                    && psks@[j].spec_secret_bytes() == spec_psk_secret(
                    secret@,
                    chan,
                    suites@[j],
                    dir,
                ) && psks@[j].spec_secret_bytes().len() == suites@[j].spec_hash_len(),
        decreases suites@.len() - i,
    {
        let suite = suites[i];
        let identity = encode_identity(chan, suite, dir);
        let secret_bytes = match suite {
            CipherSuite::Aes256GcmSha384 => {
                let prk = extract_sha384(secret.raw_bytes(), &salt);
                expand_sha384(&prk, &identity, 48)
            },
            CipherSuite::Chacha20Poly1305Sha256 => {
                let prk = extract_sha256(secret.raw_bytes(), &salt);
                expand_sha256(&prk, &identity, 32)
            },
        };
        psks.push(Psk { identity, secret: secret_bytes, suite });
        i = i + 1;
    }
    Ok(PskFamily { psks })
}

/// The identities of a family are pairwise distinct.
pub open spec fn distinct_identities(family: &PskFamily) -> bool {
    forall|i: int, j: int|
        0 <= i < j < family.spec_identities().len() ==> family.spec_identities()[i]
            != family.spec_identities()[j]
}

/// A family derived for pairwise-distinct suites has pairwise
/// distinct identities: the suite code is part of each identity.
pub proof fn lemma_family_identities_distinct(
    family: &PskFamily,
    secret: Seq<u8>,
    chan: &ChannelId,
    dir: Direction,
    suites: Seq<CipherSuite>,
)
    requires
        chan.wf(),
        is_family_for(family, secret, chan, dir, suites),
        forall|i: int, j: int| 0 <= i < j < suites.len() ==> suites[i] != suites[j],
    ensures
        distinct_identities(family),
{
    assert forall|i: int, j: int|
        0 <= i < j < family.spec_identities().len() implies family.spec_identities()[i]
        != family.spec_identities()[j] by {
        assert(family.spec_identities()[i] == spec_identity(chan, suites[i], dir));
        assert(family.spec_identities()[j] == spec_identity(chan, suites[j], dir));
        if spec_identity(chan, suites[i], dir) == spec_identity(chan, suites[j], dir) {
            crate::identity::lemma_identity_injective(
                chan,
                suites[i],
                dir,
                chan,
                suites[j],
                dir,
            );
        }
    }
}

/// Every identity of a derived family belongs to the family's
/// channel, so dropping the channel's family from a store removes
/// exactly these keys.
pub proof fn lemma_family_identities_of_channel(
    family: &PskFamily,
    secret: Seq<u8>,
    chan: &ChannelId,
    dir: Direction,
    suites: Seq<CipherSuite>,
)
    requires
        chan.wf(),
        is_family_for(family, secret, chan, dir, suites),
    ensures
        forall|i: int|
            0 <= i < family.spec_identities().len() ==> crate::identity::identity_of_channel(
                #[trigger] family.spec_identities()[i],
                chan,
            ),
{
    assert forall|i: int|
        0 <= i < family.spec_identities().len() implies crate::identity::identity_of_channel(
        #[trigger] family.spec_identities()[i],
        chan,
    ) by {
        assert(family.spec_identities()[i] == spec_identity(chan, suites[i], dir));
        crate::identity::lemma_identity_channel_key(chan, suites[i], dir);
    }
}

/// Derivation is deterministic: two families derived from the same

/// secret, channel, direction and suite list are byte-identical, PSK
/// by PSK.
pub proof fn lemma_derivation_deterministic(
    f1: &PskFamily,
    f2: &PskFamily,
    secret: Seq<u8>,
    chan: &ChannelId,
    dir: Direction,
    suites: Seq<CipherSuite>,
)
    requires
        is_family_for(f1, secret, chan, dir, suites),
        is_family_for(f2, secret, chan, dir, suites),
    ensures
        f1.spec_pairs() == f2.spec_pairs(),
{
    assert(f1.spec_pairs() =~= f2.spec_pairs());
}

} // verus!
