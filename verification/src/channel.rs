//! The stream surface of a channel.
//!
//! A channel exposes stream creation, sending and receiving; what an
//! endpoint may do is fixed by the direction its PSKs authorise.
//! Both ends of a bidirectional channel may create streams, send and
//! receive; on a unidirectional channel only the sender creates
//! streams and sends, and only the receiver receives.  The transport
//! enforces back-pressure; this module decides permission.

use vstd::prelude::*;

use crate::AqcError;
use crate::identity::Direction;

verus! {

/// Whether an endpoint holding PSKs of this direction may create
/// streams on the channel.
pub open spec fn spec_may_create_stream(dir: Direction) -> bool {
    dir != Direction::Recv
}

/// Whether an endpoint of this direction may send.
pub open spec fn spec_may_send(dir: Direction) -> bool {
    dir != Direction::Recv
}

/// Whether an endpoint of this direction may receive.
pub open spec fn spec_may_receive(dir: Direction) -> bool {
    dir != Direction::Send
}

/// Decides whether this endpoint may create a stream; a receive-only
/// endpoint is refused.
pub fn check_create_stream(dir: Direction) -> (r: Result<(), AqcError>)
    ensures
        spec_may_create_stream(dir) ==> r == Ok::<(), AqcError>(()),
        !spec_may_create_stream(dir) ==> r == Err::<(), AqcError>(AqcError::StreamCreateDenied),
{
    match dir {
        Direction::Recv => Err(AqcError::StreamCreateDenied),
        _ => Ok(()),
    }
}

/// Decides whether this endpoint may send on a stream.
pub fn check_send(dir: Direction) -> (r: Result<(), AqcError>)
    ensures
        spec_may_send(dir) ==> r == Ok::<(), AqcError>(()),
        !spec_may_send(dir) ==> r == Err::<(), AqcError>(AqcError::StreamCreateDenied),
{
    match dir {
        Direction::Recv => Err(AqcError::StreamCreateDenied),
        _ => Ok(()),
    }
}

/// Decides whether this endpoint may receive from a stream.
pub fn check_receive(dir: Direction) -> (r: Result<(), AqcError>)
    ensures
        spec_may_receive(dir) ==> r == Ok::<(), AqcError>(()),
        !spec_may_receive(dir) ==> r == Err::<(), AqcError>(AqcError::StreamCreateDenied),
{
    match dir {
        Direction::Send => Err(AqcError::StreamCreateDenied),
        _ => Ok(()),
    }
}

} // verus!
