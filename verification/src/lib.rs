//! Passive local-link device discovery.
//!
//! The library enumerates and classifies network interfaces, parses the
//! Ethernet header of captured frames, resolves hardware-address vendors
//! through an offline OUI directory, and keeps a deduplicating registry of
//! sighted devices. Raw capture and interface enumeration are operating-system
//! concerns and stay outside; the library works on plain bytes and strings.

pub mod discovery;
pub mod frame;
pub mod hw;
pub mod iface;
pub mod registry;
pub mod vendor;
