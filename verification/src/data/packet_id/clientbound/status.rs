//! Status, server to client.

use vstd::prelude::*;

verus! {

/// The answer to a status request.
pub const RESPONSE: u8 = 0x00;

/// The echo of a ping.
pub const PONG_RESPONSE: u8 = 0x01;

} // verus!
