//! A document store layering a content-addressed, dependency-deduplicating
//! data model on top of an ordered transactional key-value substrate.
//!
//! Each stored document is split into a `body` and a `dependencies` value;
//! documents sharing the same dependency value store only one copy of it,
//! referenced by a content hash. Three key families per collection keep the
//! store consistent: one record per document, one shared blob per distinct
//! dependency content, and one reverse-index marker per (hash, document) pair.

pub mod collection;
pub mod database;
pub mod errors;
pub mod hash;
pub mod keys;
pub mod json;
pub mod laws;
pub mod parse;
pub mod schema;
pub mod state;
pub mod store;
pub mod subcollection;

pub use collection::Collection;
pub use collection::CollectionMetadata;
pub use database::Database;
pub use errors::DbError;
pub use schema::Schema;
pub use subcollection::Subcollection;
