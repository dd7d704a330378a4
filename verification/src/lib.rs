//! Counts contact events reported over OSC, answers them with a rate-limited
//! chatbox notification and advertises an OSCQuery endpoint over mDNS.
//!
//! The crate holds the decisions of the service: what a datagram means, when a
//! notification is due, what a discovery reply looks like. Sockets, timers and
//! files belong to the program around it.

pub mod digits;
pub mod config;
pub mod debounce;
pub mod osc;
pub mod storage;
pub mod oscquery;
