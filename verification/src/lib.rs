//! A reliable, ordered, message-oriented transport over unreliable datagrams.
//!
//! The crate holds the protocol engine: it turns application sends into
//! datagrams and received datagrams into events. Sockets and payload
//! compressors stay with the embedding program, which hands the engine plain
//! values (bytes, addresses, millisecond readings) and performs the sends the
//! engine asks for. The engine never reads a clock itself; the module
//! `system` turns the machine's monotonic clock into the readings it takes.

#![allow(non_snake_case)]
#![allow(non_upper_case_globals)]
#![allow(non_camel_case_types)]

pub mod utility;
pub mod constants;
pub mod bytes;
pub mod time;
pub mod version;
pub mod net_order;
pub mod compress;
pub mod address;
pub mod system;
pub mod socket;
pub mod protocol;
pub mod wire;
pub mod packet;
pub mod sequence;
pub mod fragment;
pub mod channel;
pub mod window;
pub mod delivery;
pub mod peer;
pub mod congestion;
pub mod event;
pub mod host;
pub mod dispatch;
pub mod ledger;
pub mod outgoing;
pub mod timeout;
pub mod service;
pub mod connect;
pub mod incoming;
pub mod transmit;
pub mod api;
pub mod bandwidth;
