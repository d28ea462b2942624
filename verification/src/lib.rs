//! A small SMTP relay that resolves SimpleLogin reverse aliases for outgoing mail.
//!
//! The crate holds the relay's rules: credentials, configuration, address headers, message
//! rewriting, the server and client sides of the SMTP dialogue, and the SimpleLogin lookups.
//! Sockets, TLS and HTTP belong to the program around it.
pub mod auth;
pub mod chars;
pub mod codec;
pub mod config;
pub mod dots;
pub mod handler;
pub mod laws;
pub mod mail;
pub mod map;
pub mod message;
pub mod quoting;
pub mod session;
pub mod simplelogin_client;
pub mod text;
pub mod upstream;
