//! Verified core of the Storm messaging client: command parsing, peer
//! connection bookkeeping, Tor configuration and control commands.
#![allow(non_snake_case)]

pub mod command;
pub mod connector;
pub mod frontend;
pub mod profile;
pub mod rendezvous;
pub mod session;
pub mod stub;
pub mod text;
pub mod tor;
pub mod transport;
