//! A peer-to-peer chat over UDP: the destination registry, the transcript,
//! the command grammar and the terminal repaint, as verified logic.

pub mod address;
pub mod decimal;
pub mod hex;
pub mod history;
pub mod ipv6;
pub mod render;
pub mod session;
pub mod text;
pub mod transport;
