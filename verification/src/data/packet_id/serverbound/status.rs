//! Status, client to server.

use vstd::prelude::*;

verus! {

/// The request for the server's status.
pub const REQUEST: u8 = 0x00;

/// A ping, with a token to echo.
pub const PING_REQUEST: u8 = 0x01;

} // verus!
