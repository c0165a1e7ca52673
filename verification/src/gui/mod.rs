//! The desktop front end's side of the library: the values it exchanges
//! with the back end, the lifecycle of its scans, and the state its
//! commands share.
pub mod dto;
pub mod lifecycle;
pub mod state;
