//! Binary structures that are read and stored from and to disk.

pub mod atomic;
pub mod bytes;
pub mod call_laws;
pub mod error;
pub mod laws;
pub mod layout;
pub mod primitive;
