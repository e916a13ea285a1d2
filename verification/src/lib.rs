//! Vsock packets on top of virtio descriptor chains.
//!
//! A packet has a header and, unless it only carries control information, data. The guest lays both
//! out in memory and describes them in a chain of virtio descriptors: the head of the chain holds
//! the header, and the descriptors that follow, if any, hold the data.
//!
//! - [`packet`] has the packet, with its header fields and what is written back of it;
//! - [`header`] and [`le`] say how the header is laid out;
//! - [`tx`] takes packets that the guest sends from a chain, and [`rx`] those that it is to receive;
//! - [`assembly`] is what these two have in common;
//! - [`guest`] is the boundary to guest memory;
//! - [`outcome`] says what a chain as a whole amounts to, and [`tx_laws`] and [`rx_laws`] prove that
//!   this is what is found;
//! - [`guest_laws`], [`tx_log`] and [`rx_log`] say what the logs of a guest's answers show: which
//!   bytes a packet has, where they lie, and why there is no packet.

pub mod assembly;
pub mod defs;
pub mod error;
pub mod guest;
pub mod guest_laws;
pub mod header;
pub mod le;
pub mod outcome;
pub mod packet;
pub mod rx;
pub mod rx_laws;
pub mod rx_log;
pub mod tx;
pub mod tx_laws;
pub mod tx_log;
