//! The systems of the client.

pub mod login;
