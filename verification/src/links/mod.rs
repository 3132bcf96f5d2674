//! Links: how frames travel between nodes, and a link that damages frames
//! on purpose to exercise the protocols.
pub mod framing;
pub mod corruptor;
pub mod kind;
