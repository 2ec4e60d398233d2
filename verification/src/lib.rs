//! Market-data access layer: stores and retrieves denormalized market
//! records in a namespaced key-value table, decodes them through a
//! deterministic wire codec, and resolves them into fully hydrated
//! domain objects while tolerating partial failures on the bulk paths.

pub mod api;
pub mod codec;
pub mod entity;
pub mod error;
pub mod resolve;
pub mod store;
