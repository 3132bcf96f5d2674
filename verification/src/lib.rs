//! Copernica: an information-centric networking protocol.
//!
//! The library holds the packet formats, the bloom-filter routing state and
//! the decision logic of the protocol, each with its contract.
pub mod common;
pub mod hashing;
pub mod node;
pub mod random;
pub mod text;
pub mod packets;
pub mod protocols;
pub mod links;
pub mod monitor;
pub mod services;
