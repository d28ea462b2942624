//! What holds of the relay as a whole, stated over the specifications that the functions meet.
pub mod auth;
pub mod basics;
pub mod breaks;
pub mod client;
pub mod config;
pub mod dots;
pub mod fields;
pub mod folding;
pub mod handler;
pub mod lists;
pub mod mail;
pub mod mailboxes;
pub mod message;
pub mod quoting;
pub mod relaying;
pub mod results;
pub mod sections;
pub mod serving;
pub mod session;
pub mod setup;
pub mod upstream;
