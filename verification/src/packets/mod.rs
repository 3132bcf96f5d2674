//! Packet formats: bloom filter indices, hierarchical bloom filter indices,
//! data fragments, reply-to addresses and narrow waist packets.
pub mod bfi;
pub mod identity;
pub mod error;
pub mod hbfi;
pub mod reply_to;
pub mod data;
pub mod hbfi_exclude_frame;
pub mod hbfi_only_keys;
pub mod narrow_waist;
