//! The signatures of the Bolt messages.

use vstd::prelude::*;

verus! {

/// Client to server: opens the session with a user agent and credentials.
pub const INIT: u8 = 0x01;

/// Client to server: runs a statement with parameters.
pub const RUN: u8 = 0x10;

/// Client to server: throws away the records of the last statement.
pub const DISCARD_ALL: u8 = 0x2F;

/// Client to server: asks for the records of the last statement.
pub const PULL_ALL: u8 = 0x3F;

/// Client to server: acknowledges a failure, so that requests are served again.
pub const ACK_FAILURE: u8 = 0x0E;

/// Client to server: drops all pending work and makes the connection ready.
pub const RESET: u8 = 0x0F;

/// Server to client: one row of a result.
pub const RECORD: u8 = 0x71;

/// Server to client: the request was carried out.
pub const SUCCESS: u8 = 0x70;

/// Server to client: the request failed.
pub const FAILURE: u8 = 0x7F;

/// Server to client: the request was skipped because an earlier one failed.
pub const IGNORED: u8 = 0x7E;

} // verus!
