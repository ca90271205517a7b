//! Core of an end-to-end encrypted, team-scoped QUIC channel subsystem.
//!
//! Channels between peers are keyed by policy-derived pre-shared keys
//! (PSKs) rather than a certificate PKI.  This crate holds the verified
//! channel plane: the PSK identity encoding, per-suite key derivation,
//! the runtime PSK store feeding the TLS endpoints, the per-team channel
//! registry, the control-message wire format, and the state machines
//! that drive a control exchange and route accepted connections.
//!
//! Transport I/O (QUIC, the daemon IPC) lives outside this crate; the
//! functions here make every decision those loops need and state their
//! behaviour in contracts.

pub mod aqc;
pub mod bytes_util;
pub mod channel;
pub mod config;
pub mod ctrl;
pub mod derive;
pub mod driver;
pub mod identity;
pub mod ids;
pub mod kdf;
pub mod registry;
pub mod store;
pub mod suites;
pub mod wire;

use vstd::prelude::*;

verus! {

/// Errors surfaced by the channel plane.
///
/// The variants partition the failure modes of the subsystem: local
/// configuration, key management, registry lookups, the control
/// exchange, policy decisions and transport failures.
#[derive(PartialEq, Eq, Debug)]
pub enum AqcError {
    /// Bad address or store configuration; fatal at startup.
    Config,
    /// A PSK identity was inserted twice with different secrets.
    PskConflict,
    /// The server selected a PSK identity unknown to the registry.
    NoChannelInfo,
    /// The peer rejected a control message; payload is the peer's
    /// UTF-8 reason bytes.
    CtrlFailure(Vec<u8>),
    /// The policy engine refused the operation.
    PolicyDenied,
    /// The caller is not authorised for the channel described by an
    /// effect.
    NotAuthorized,
    /// The team is unknown to the policy engine.
    UnknownTeam,
    /// The device is unknown to the policy engine.
    UnknownDevice,
    /// An internal policy-engine failure.
    Internal,
    /// A transport error on an active operation.
    QuicIo,
    /// Malformed wire bytes.
    Serde,
    /// The user aborted the operation; a clean unwind, not a fault.
    Cancelled,
    /// A channel with this identifier is already registered.
    Duplicate,
    /// No cipher suites remain to derive PSKs for.
    NoSuites,
    /// The peer opened no control stream within the idle timeout.
    NoCtrlStream,
    /// A stream operation the channel's direction does not allow.
    StreamCreateDenied,
}

} // verus!
