//! Login, client to server.

use vstd::prelude::*;

verus! {

/// The start of a login, with the player's name and identity.
pub const START: u8 = 0x00;

/// The client has taken note of the login success.
pub const ACKNOWLEDGED: u8 = 0x03;

} // verus!
