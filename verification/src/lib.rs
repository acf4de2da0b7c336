//! Receives a frozen process over the network, rebuilds its address space and
//! prepares the hand-off into user mode.

pub mod address_space;
pub mod arch;
pub mod error;
pub mod net;
pub mod page_cache;
pub mod protocol;
pub mod snapshot;
pub mod time;
pub mod userspace;
