//! Protocols that run over links: how content is laid out in frames and
//! how requests for frames are paced.
pub mod file_packing;
pub mod frame_set;
pub mod txrx;
pub mod echo;
pub mod ftp;
