//! Core of an M17 digital radio stack: CRC, addresses, FEC, KISS framing,
//! the TNC state machine and the reflector datagram codec.

pub mod address;
pub mod bits;
pub mod convert;
pub mod crc;
pub mod fec;
pub mod frame;
pub mod host;
pub mod interleave;
pub mod kiss;
pub mod lich;
pub mod link_setup;
pub mod modem;
pub mod protocol;
pub mod reflector;
pub mod reflector_client;
pub mod soundmodem;
pub mod tnc;
