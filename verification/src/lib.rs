//! No-as-a-Service: a library serving one random "reason" string per request.
//!
//! The verified core: a parser for the data file format (a JSON array of
//! strings), the immutable reason store with its non-emptiness invariant,
//! the response envelope builder, and the bind-address configuration.

pub mod config;
pub mod parse;
pub mod respond;
pub mod service;
pub mod store;

pub use config::bind_address;
pub use service::random_reason;
pub use service::response_for;
pub use store::LoadError;
pub use store::ReasonStore;
pub use store::load_store;
