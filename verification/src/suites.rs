//! The TLS 1.3 cipher suites the channel plane supports.
//!
//! A channel is opened across every supported suite at once: one PSK is
//! derived per suite and TLS negotiation picks one.  Each suite carries
//! its IANA code (the two bytes embedded in a PSK identity) and the
//! output length of its hash, which is the length of the PSK secret.

use vstd::prelude::*;

verus! {

/// A TLS 1.3 AEAD-hash suite supported by the channel plane.
#[derive(Clone, Copy, PartialEq, Eq, Structural, Debug)]
pub enum CipherSuite {
    /// TLS_AES_256_GCM_SHA384.
    Aes256GcmSha384,
    /// TLS_CHACHA20_POLY1305_SHA256.
    Chacha20Poly1305Sha256,
}

impl CipherSuite {
    /// The IANA cipher suite code, big-endian in a PSK identity.
    pub open spec fn spec_code(self) -> u16 {
        match self {
            CipherSuite::Aes256GcmSha384 => 0x1302,
            CipherSuite::Chacha20Poly1305Sha256 => 0x1303,
        }
    }

    /// Returns the IANA cipher suite code.
    pub fn code(self) -> (r: u16)
        ensures
            r == self.spec_code(),
    {
        match self {
            CipherSuite::Aes256GcmSha384 => 0x1302,
            CipherSuite::Chacha20Poly1305Sha256 => 0x1303,
        }
    }

    /// The output length of the suite's hash; PSK secrets have this
    /// length.
    pub open spec fn spec_hash_len(self) -> usize {
        match self {
            CipherSuite::Aes256GcmSha384 => 48,
            CipherSuite::Chacha20Poly1305Sha256 => 32,
        }
    }

    /// Returns the hash output length in bytes.
    pub fn hash_len(self) -> (r: usize)
        ensures
            r == self.spec_hash_len(),
    {
        match self {
            CipherSuite::Aes256GcmSha384 => 48,
            CipherSuite::Chacha20Poly1305Sha256 => 32,
        }
    }

    /// The suite with the given IANA code, if supported.
    pub open spec fn spec_from_code(code: u16) -> Option<CipherSuite> {
        if code == 0x1302 {
            Some(CipherSuite::Aes256GcmSha384)
        } else if code == 0x1303 {
            Some(CipherSuite::Chacha20Poly1305Sha256)
        } else {
            None
        }
    }

    /// Looks a suite up by its IANA code.
    pub fn from_code(code: u16) -> (r: Option<CipherSuite>)
        ensures
            r == Self::spec_from_code(code),
    {
        if code == 0x1302 {
            Some(CipherSuite::Aes256GcmSha384)
        } else if code == 0x1303 {
            Some(CipherSuite::Chacha20Poly1305Sha256)
        } else {
            None
        }
    }
}

/// The supported suites, in derivation order.
pub open spec fn spec_supported_suites() -> Seq<CipherSuite> {
    seq![CipherSuite::Aes256GcmSha384, CipherSuite::Chacha20Poly1305Sha256]
}

/// Returns the supported suites, in derivation order.
pub fn supported_suites() -> (r: Vec<CipherSuite>)
    ensures
        r@ == spec_supported_suites(),
{
    let mut v: Vec<CipherSuite> = Vec::new();
    v.push(CipherSuite::Aes256GcmSha384);
    v.push(CipherSuite::Chacha20Poly1305Sha256);
    proof {
        assert(v@ =~= spec_supported_suites());
    }
    v
}

} // verus!
