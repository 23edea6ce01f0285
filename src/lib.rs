//! Schema-driven record transformation with persistence in an embedded store.
pub mod error;
pub mod schema;
pub mod record;
pub mod transform;
pub mod codec;
pub mod field;
pub mod store;
