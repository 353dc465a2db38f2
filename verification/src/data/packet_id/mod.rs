//! The ids of the packets that the lifecycle of a connection exchanges.

pub mod clientbound;
pub mod serverbound;
