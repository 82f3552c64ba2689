//! The server side of the protocol: what it hosts and what it answers.
pub mod config;
pub mod getfiles;
pub mod isalive;
pub mod standard;
pub mod upload;
