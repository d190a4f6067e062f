//! How messages are laid out.

pub mod table;
