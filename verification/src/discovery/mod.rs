//! Finding NMOS Nodes on the local network, without a registry.
//!
//! Discovery is a stream of appear, change and depart events. A registry
//! client is simply another producer of the same events, and the tests can
//! drive the stream with fabricated advertisements and no network at all.

pub mod counters;
pub mod txt;
pub mod endpoint;
pub mod advert;
pub mod mdns;
