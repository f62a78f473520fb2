//! How input and output calls end.

use crate::address::SocketAddr;
use vstd::prelude::*;

verus! {

/// The kinds of failure that the adapters tell apart.
#[derive(Clone, Copy, PartialEq, Eq, Debug, Structural)]
pub enum ErrorKind {
    /// The call would have to wait.
    WouldBlock,
    /// A signal interrupted the call.
    Interrupted,
    /// The remote refused the connection.
    ConnectionRefused,
    /// There is no such thing.
    NotFound,
    /// Any other failure.
    Other,
}

/// How sending ended.
#[derive(Clone, Copy, PartialEq, Eq, Debug, Structural)]
pub enum SendStatus {
    /// The message was sent.
    Sent,
    /// The resource is gone.
    ResourceNotFound,
}

/// How accepting a connection ended.
#[derive(PartialEq, Eq, Debug)]
pub enum AcceptStatus<R> {
    /// A remote was accepted, with its address.
    AcceptedRemote(SocketAddr, R),
    /// A signal interrupted the call, which may be repeated.
    Interrupted,
    /// There is nothing to accept until the next event.
    WaitNextEvent,
}

/// How reading ended.
#[derive(Clone, Copy, PartialEq, Eq, Debug, Structural)]
pub enum ReadStatus {
    /// There may be more to read.
    MoreData,
    /// The remote is gone.
    Disconnected,
    /// There is nothing to read until the next event.
    WaitNextEvent,
}

} // verus!
