//! The manager of virtual machines: launching environments, showing them, and taking
//! them down.

pub mod api;
pub mod create;
pub mod error;
pub mod files;
pub mod helpers;
pub mod network;
pub mod proxy_client;
pub mod state;
pub mod types;
pub mod vm;
