//! Control logic of an agent environment.

pub mod bytes;
pub mod certs;
pub mod clock;
pub mod numbers;
pub mod proxy;
pub mod session;
pub mod single_key;
pub mod stream;
pub mod strmap;
pub mod text;
pub mod unicode;
pub mod vault;
pub mod vm_manager;
