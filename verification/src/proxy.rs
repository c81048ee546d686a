//! The egress proxy: what it lets through, to where, and with which key.

pub mod api;
pub mod connect;
pub mod error;
pub mod laws;
pub mod recover;
pub mod register;
pub mod reply;
pub mod request;
pub mod rewrite;
