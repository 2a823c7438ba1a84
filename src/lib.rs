//! Bridges a poll-driven foreground loop and serial-port I/O: a pass-through
//! framing codec, the inbound record each port worker fills, the line
//! settings a port is opened with, and the registry of open ports that is
//! drained into discrete events once per tick.

pub mod buffer;
pub mod codec;
pub mod inbound;
pub mod port_id;
pub mod registry;
pub mod settings;
