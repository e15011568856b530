//! What each shell needs to load a completion.
pub mod bash;
pub mod backend;
pub mod discovery;
pub mod elvish;
pub mod fish;
pub mod powershell;
pub mod quoting;
pub mod syntax;
pub mod wiring;
pub mod zsh;
