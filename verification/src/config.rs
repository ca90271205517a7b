//! Configuration records and seed material.
//!
//! An endpoint is configured by one flat record; the sync plane's
//! seeds are provided in one of three modes when a team is created or
//! joined.  Key material that outside cryptography produces (public
//! keys, encapsulations, encrypted seeds) is carried here as opaque
//! bytes.

use vstd::prelude::*;

use crate::AqcError;
use crate::bytes_util::copy_bytes;
use crate::ids::ID_LEN;
use crate::suites::{CipherSuite, spec_supported_suites, supported_suites};

verus! {

/// The exact size in bytes of seed input key material.
pub const SEED_IKM_SIZE: usize = 32;

/// An encrypted seed for secure distribution, as opaque bytes: the
/// sender's public key, the encapsulated key, and the encrypted seed
/// itself.
#[derive(Clone, PartialEq, Eq, Debug)]
pub struct WrappedSeed {
    /// The sender's encoded public encryption key.
    pub sender_pk: Vec<u8>,
    /// The encoded key encapsulation.
    pub encap_key: Vec<u8>,
    /// The encrypted seed bytes.
    pub encrypted_seed: Vec<u8>,
}

/// How the PSK seed of a team is provided when the team is created
/// or joined.
#[derive(Clone, PartialEq, Eq, Debug)]
pub enum SeedMode {
    /// Generate a new random seed; used by a team's owner at
    /// creation.
    Generate,
    /// Derive the seed from caller-provided input key material of
    /// exactly 32 bytes.
    Ikm(Vec<u8>),
    /// Use an encrypted seed distributed by another member; used
    /// when joining an existing team.
    Wrapped(WrappedSeed),
}

impl SeedMode {
    /// The mode is well-formed: provided key material has the exact
    /// seed size.
    pub open spec fn wf(&self) -> bool {
        match self {
            SeedMode::Ikm(ikm) => ikm@.len() == SEED_IKM_SIZE,
            _ => true,
        }
    }
}

impl Default for SeedMode {
    /// The default mode generates a fresh random seed.
    fn default() -> (r: Self)
        ensures
            r is Generate,
    {
        SeedMode::Generate
    }
}

/// The sync-plane configuration of a team.
#[derive(Clone, PartialEq, Eq, Debug)]
pub struct QuicSyncConfig {
    /// How the team's seed is provided.
    pub seed_mode: SeedMode,
}

/// The flat endpoint configuration record.
pub struct AqcConfig {
    /// The path of the local policy daemon's socket.
    pub daemon_socket_path: Vec<u8>,
    /// The address the QUIC server listens on.
    pub quic_listen_addr: Vec<u8>,
    /// Seconds between periodic syncs with a peer.
    pub sync_interval_secs: u64,
    /// The idle timeout in seconds of a control connection.
    pub idle_timeout_secs: u64,
    /// The cipher suites channels are opened across.
    pub supported_suites: Vec<CipherSuite>,
}

impl AqcConfig {
    /// The defaults: a thirty-second idle timeout, one-second sync
    /// interval, every supported suite, and empty addresses to be
    /// filled by the caller.
    pub fn new_default() -> (r: Self)
        ensures
            r.idle_timeout_secs == 30,
            r.sync_interval_secs == 1,
            r.supported_suites@ == spec_supported_suites(),
            r.daemon_socket_path@.len() == 0,
            r.quic_listen_addr@.len() == 0,
    {
        AqcConfig {
            daemon_socket_path: Vec::new(),
            quic_listen_addr: Vec::new(),
            sync_interval_secs: 1,
            idle_timeout_secs: 30,
            supported_suites: supported_suites(),
        }
    }
}

/// The reconnection schedule of a local request/reply link: a bounded
/// number of attempts whose delays double, saturating, from the
/// initial delay.
pub struct RetrySchedule {
    attempts: u32,
    max_attempts: u32,
    delay_ms: u64,
}

impl RetrySchedule {
    /// How many attempts were made so far.
    pub closed spec fn spec_attempts(&self) -> u32 {
        self.attempts
    }

    /// The most attempts the schedule allows.
    pub closed spec fn spec_max_attempts(&self) -> u32 {
        self.max_attempts
    }

    /// The delay the next granted attempt waits, in milliseconds.
    pub closed spec fn spec_delay_ms(&self) -> u64 {
        self.delay_ms
    }

    /// A fresh schedule.
    pub fn new(max_attempts: u32, initial_delay_ms: u64) -> (r: Self)
        ensures
            r.spec_attempts() == 0,
            r.spec_max_attempts() == max_attempts,
            r.spec_delay_ms() == initial_delay_ms,
    {
        RetrySchedule { attempts: 0, max_attempts, delay_ms: initial_delay_ms }
    }

    /// Grants the next attempt, returning the delay to wait before
    /// it, or nothing once the attempts are spent.  Each granted
    /// attempt doubles the following delay, saturating.
    pub fn next_attempt(&mut self) -> (r: Option<u64>)
        ensures
            old(self).spec_attempts() >= old(self).spec_max_attempts() ==> r is None && *final(self) == *old(self),
            old(self).spec_attempts() < old(self).spec_max_attempts() ==> r == Some(
                old(self).spec_delay_ms(),
            ) && final(self).spec_attempts() == old(self).spec_attempts() + 1 && final(self).spec_delay_ms() == (if old(self).spec_delay_ms() <= u64::MAX / 2 {
                (old(self).spec_delay_ms() * 2) as u64
            } else {
                u64::MAX
            }) && final(self).spec_max_attempts() == old(self).spec_max_attempts(),
    {
        if self.attempts >= self.max_attempts {
            return None;
        }
        let delay = self.delay_ms;
        self.attempts = self.attempts + 1;
        if self.delay_ms <= u64::MAX / 2 {
            self.delay_ms = self.delay_ms * 2;
        } else {
            self.delay_ms = u64::MAX;
        }
        Some(delay)
    }
}

/// Validates raw bytes read from a team's seed file: exactly 32
/// bytes name a seed; anything else is a wire error.
pub fn parse_seed_id(bytes: Vec<u8>) -> (r: Result<Vec<u8>, AqcError>)
    ensures
        bytes@.len() == ID_LEN ==> (r matches Ok(id) && id@ == bytes@),
        bytes@.len() != ID_LEN ==> r == Err::<Vec<u8>, AqcError>(AqcError::Serde),
{
    if bytes.len() == ID_LEN {
        Ok(bytes)
    } else {
        Err(AqcError::Serde)
    }
}

/// Validates caller-provided seed input key material: exactly 32
/// bytes are accepted and returned as the key-material mode.
pub fn parse_ikm(bytes: &Vec<u8>) -> (r: Result<SeedMode, AqcError>)
    ensures
        bytes@.len() == SEED_IKM_SIZE ==> (r matches Ok(mode) && (mode matches SeedMode::Ikm(ikm)
            && ikm@ == bytes@) && mode.wf()),
        bytes@.len() != SEED_IKM_SIZE ==> r == Err::<SeedMode, AqcError>(AqcError::Config),
{
    if bytes.len() == SEED_IKM_SIZE {
        Ok(SeedMode::Ikm(copy_bytes(bytes)))
    } else {
        Err(AqcError::Config)
    }
}

} // verus!
