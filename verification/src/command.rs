//! The three operator interpreters of the codec.
//!
//! Every operator of the command language exists in three modes that
//! agree on the byte count:
//! - [`sizeof`]: compute how many wire bytes a sequence of operators
//!   takes, touching neither sponge nor stream;
//! - [`wrap`]: serialize values and drive the sponge;
//! - [`unwrap`]: parse values, drive the sponge the same way, and check
//!   what must match.

pub mod sizeof;
pub mod unwrap;
pub mod wrap;
