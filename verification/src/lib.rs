//! An in-process request/response messaging core: a coordinating server
//! routes Handshake, Post and Get messages to named clients over per-address
//! connections that move between Open, Halted and Closed states.

pub mod client;
pub mod decimal;
pub mod errors;
pub mod msg;
pub mod server;
