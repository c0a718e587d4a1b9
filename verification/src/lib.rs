//! Verified core of a small TCP/IP stack.
//!
//! * [`iface`]: multicast group membership, with its IGMP and MLD reports.
//! * [`tcp`]: socket buffers charged to a shared pool, the SACK scoreboard and the congestion
//!   controllers.
//! * [`storage`]: the ring buffer and the range assembler that [`tcp`] builds on.
//! * [`phy`]: what the drivers of hosted systems decide, and the records of packet filters.
//! * [`wire`]: addresses, sequence numbers and the multicast control messages.
//! * [`time`], [`rand`], [`config`]: the clock types, the generator and the table sizes.
pub mod config;
pub mod iface;
pub mod phy;
pub mod rand;
pub mod storage;
pub mod tcp;
pub mod time;
pub mod wire;
