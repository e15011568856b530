//! The operations.
pub mod common;
pub mod detect;
pub mod events;
pub mod install;
pub mod migrate;
pub mod uninstall;
