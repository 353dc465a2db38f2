//! Server-side codec and handshake core of a multiplayer game protocol.
//!
//! * [`data`]: the primitive wire codec (fixed-width and variable-length
//!   numbers, strings), packets, and their frames with the optional
//!   compression envelope;
//! * [`nbt`]: the tagged binary format, a tree of typed values;
//! * [`cycle`]: the lifecycle of one connection, from handshake through
//!   status or login to configuration;
//! * [`inet`]: the faults of the transport and the decisions between reads.
//!
//! Every function states what it returns in terms of plain sequences of
//! bytes, and the laws that tie writing to reading are proved beside them.

pub mod cycle;
pub mod data;
pub mod inet;
pub mod nbt;
