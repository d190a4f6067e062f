//! What the mail store keeps, and the rules on it.

pub mod accounts;
pub mod actions;
pub mod attachments;
pub mod carddav;
pub mod contact_rows;
pub mod contacts;
pub mod counts;
pub mod folding;
pub mod ids;
pub mod labels;
pub mod message_rows;
pub mod messages;
pub mod rows;
pub mod search;
pub mod sender_identities;
pub mod sql;
pub mod thread_rows;
pub mod threads;
