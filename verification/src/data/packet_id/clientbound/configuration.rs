//! Configuration, server to client.

use vstd::prelude::*;

verus! {

/// Configuration is finished.
pub const FINISH: u8 = 0x03;

} // verus!
