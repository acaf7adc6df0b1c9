//! Attribution metadata library: a validated data model for per-page
//! contribution records, their conversion to and from a schema-less
//! key-value item representation, paginated full-site aggregation, and
//! password-gated write flows.

pub mod attribution;
pub mod codec;
pub mod handlers;
pub mod password;
pub mod render;
pub mod result;
pub mod service;
pub mod store;
pub mod text;
