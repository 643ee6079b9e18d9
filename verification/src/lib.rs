//! Core of a firmware updater for STN-family OBD-II adapters: a byte-stuffed,
//! CRC-protected frame codec, a command-tagged request/response protocol, and
//! the updater's driver logic as an event-driven state machine. All I/O lives
//! outside this crate; the library works on plain byte sequences and values.

pub mod codec;
pub mod crc;
pub mod error;
pub mod firmware;
pub mod framing;
pub mod protocol;
pub mod resetter;
pub mod updater;
