//! Capacities that are fixed when the crate is built.

use vstd::prelude::*;

verus! {

/// Number of buffers in the pool for inbound PDUs.
pub const L2CAP_RX_PACKET_POOL_SIZE: usize = 8;

/// Number of buffers in the pool for outbound fragments.
pub const L2CAP_TX_PACKET_POOL_SIZE: usize = 8;

/// Number of inbound PDUs that the queue of one channel holds.
pub const L2CAP_RX_QUEUE_SIZE: usize = 4;

/// Number of events that the queue of one connection holds.
pub const CONNECTION_EVENT_QUEUE_SIZE: usize = 4;

} // verus!
