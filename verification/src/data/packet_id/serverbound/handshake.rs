//! Handshake, client to server.

use vstd::prelude::*;

verus! {

/// The first packet of every connection.
pub const HANDSHAKE: u8 = 0x00;

} // verus!
