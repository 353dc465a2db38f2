//! Packets that the server sends.

pub mod configuration;
pub mod login;
pub mod status;
