//! The choice of a path for the next packet of a multipath connection.

pub mod round;
pub mod round_laws;
pub mod scheduler_emvod;
pub mod transfer;
