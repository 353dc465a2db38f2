//! Login, server to client.

use vstd::prelude::*;

verus! {

/// The refusal of a login, with its reason.
pub const DISCONNECT: u8 = 0x00;

/// The login succeeded.
pub const SUCCESS: u8 = 0x02;

/// From now on frames carry the compression envelope.
pub const SET_COMPRESSION: u8 = 0x03;

} // verus!
