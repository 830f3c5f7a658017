//! A small connect-four-style grid game engine on a fixed 6x5 board
//! (a walled border around a 4x4 playable area), together with the
//! dotted-address arithmetic helpers that the same service exposes.

pub mod addr;
pub mod board;
pub mod laws;
pub mod random;
pub mod render;
pub mod session;
