//! The datagram buffer: where a received datagram lies, and which part of it is
//! the datagram.

use vstd::prelude::*;
use vstd::slice::slice_subrange;

verus! {

/// The size of the buffer that every datagram is received into. A datagram longer
/// than this is cut to this length when it is received.
pub const DATAGRAM_CAPACITY: usize = 8192;

/// The payload of the datagram that was just received into `buffer`: its first
/// `received` bytes. What lies behind them is left over from earlier datagrams and
/// is never relayed.
pub fn payload(buffer: &[u8], received: usize) -> (payload: &[u8])
    requires
        received <= buffer@.len(),
    ensures
        payload@ == buffer@.take(received as int),
{
    slice_subrange(buffer, 0, received)
}

} // verus!
