//! Picks the one task to work on next from a remote task service, and keeps
//! the durable pointer that hands the shown task over to completion.

pub mod date;
pub mod error;
pub mod text;
pub mod items;
pub mod config;
pub mod projects;
pub mod request;
pub mod session;
