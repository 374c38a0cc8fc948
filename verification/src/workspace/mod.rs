//! The folder of notes that is open.
pub mod vault;

pub use vault::Vault;
