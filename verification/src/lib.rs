//! The pallets of the Dora parachain, with their behaviour proved:
//! collator selection by staking, XCM ping-pong between sibling chains,
//! and the client that registers names on a server chain over XCM.
//!
//! A call takes the pallet's storage and plain values, and hands back what
//! it asks of the world around it (funds to reserve or deposit, messages
//! to send, events to emit); carrying that out is the runtime's work.

pub mod collator_staking;
pub mod dispatch;
pub mod per_thing;
pub mod ping_pong;
pub mod scale;
pub mod xclient;
pub mod xcm_message;
