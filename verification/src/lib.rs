//! Rig: version control for binary assets, with exclusive per-artifact locks.
pub mod access;
pub mod codec;
pub mod credentials;
pub mod files;
pub mod history;
pub mod laws;
pub mod modules;
pub mod protocol;
pub mod replies;
pub mod repository;
pub mod server;
pub mod sync;
pub mod table;
pub mod text;
pub mod workspace;
