//! Decoders for the binary assets of the game: terrain levels and polygon
//! models. Everything here works on bytes already in memory and reports
//! malformed input as a typed error.

pub mod bytes;
pub mod error;
pub mod level;
pub mod m3d;
