//! Channel adapters of the command-line program.
pub mod telegram;
