//! The routing node: hierarchical bloom filter names, bloom filters, links
//! between nodes, and the decisions a router takes on each packet.
pub mod bloom_filter;
pub mod hbfi;
pub mod link;
pub mod packets;
pub mod router;
pub mod packer;
pub mod copernica;
pub mod identity;
pub mod sdri;
