//! The core of a remote-access session between a client and a server.
//!
//! Everything here decides and computes; nothing here reads, writes or waits. The program around
//! the library says what happened, by calling a function of [`state::Oxy`], and performs the
//! [`action::Action`]s that come back, in order.

pub mod action;
pub mod arguments;
pub mod channel;
pub mod channel_laws;
pub mod delivery;
pub mod file_delivery;
pub mod frame;
pub mod laws;
pub mod message;
pub mod noise;
pub mod notify;
pub mod notify_laws;
pub mod session_laws;
pub mod startup;
pub mod startup_laws;
pub mod state;
pub mod transfer;
pub mod transport;
pub mod transport_laws;
pub mod words;
pub mod zlib;
