//! The proxy with one key for each session, or one key for all: the real key is put
//! into every request, whatever key the client sent.

pub mod connect;
pub mod recover;
pub mod register;
pub mod request;
pub mod vault;
