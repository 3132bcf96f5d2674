//! Services: applications that fetch content frame by frame through a link.
pub mod fetch;
