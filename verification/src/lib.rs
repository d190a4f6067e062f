//! The account-scoped mail and file workspace core: its rules, parsers and state machines.

pub mod config;
pub mod db;
pub mod error;
pub mod files;
pub mod layout;
pub mod repo;
pub mod sorting;
pub mod text;
