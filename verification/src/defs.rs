//! Limits of the device.

use vstd::prelude::*;

verus! {

/// The largest amount of data, in bytes, that one packet may carry.
pub const MAX_PKT_BUF_SIZE: usize = 64 * 1024;

} // verus!
