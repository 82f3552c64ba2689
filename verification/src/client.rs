//! The client side of the protocol: what it asks and how it reads answers.
pub mod download;
pub mod getfiles;
pub mod isalive;
pub mod standard;
