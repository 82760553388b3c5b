//! Messages exchanged between nodes and clients, and their binary encoding.

pub mod varint;
pub mod wire;
pub mod message;
pub mod frame;
