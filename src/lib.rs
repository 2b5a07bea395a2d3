//! Client side of a length-prefixed message protocol: frames are a four-byte
//! big-endian length followed by that many body bytes, and a session runs a
//! fixed connect / request / bye exchange over them.

pub mod decoder;
pub mod frame;
pub mod session;
pub mod text;
