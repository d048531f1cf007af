//! A relay gateway core bridging a verification-and-routing network and an
//! ordered, sequence-numbered packet-transport channel. It classifies and
//! deduplicates cross-chain messages, builds outbound packets with sequence
//! and timeout bookkeeping, decodes inbound packets, and resolves pending
//! acknowledgements at most once.

pub mod channel;
pub mod codec;
pub mod dispatch;
pub mod events;
pub mod msg;
pub mod types;

use vstd::prelude::*;

verus! {

} // verus!
