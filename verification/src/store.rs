//! The commands of the store: what each one sends, and what each reply to it
//! means.

pub mod config;
pub mod laws;
pub mod network;
pub mod opts;
pub mod reply;
pub mod request;
pub mod session;
pub mod shape;
