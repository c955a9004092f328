//! An object-document mapping engine over a schemaless document store.
//!
//! Typed records ("schemas") are bound to named collections, per-field
//! uniqueness is enforced at the application layer, and declarative
//! relations between record types (one-to-one, many-to-one, one-to-many)
//! are resolved ("populated") on demand. The document lifecycle is
//! insert-or-replace ("save"), delete ("remove"), and pre-persistence
//! hooks.
//!
//! The store is held as an in-memory value of plain data ([`Store`]),
//! so the whole engine - registry, uniqueness enforcer, population engine
//! and persistence lifecycle - is verified end to end against it. An
//! adapter that talks to a real document store can drive the same verified
//! decision logic: the engine exposes the pure pieces (identity filters,
//! uniqueness probes, population plans) that such an adapter needs.

pub mod document;
pub mod error;
pub mod laws;
pub mod nongoose;
pub mod schema;
pub mod store;
pub mod value;

pub use document::Document;
pub use nongoose::options::FindByIdOptions;
pub use nongoose::{Nongoose, NongooseBuilder, PopulatePlan};
pub use error::Error;
pub use schema::types;
pub use schema::{DefaultBefore, Instance, Populated, SchemaBefore, SchemaData};
pub use store::{Cond, Filter, Store, UpdateResult, UpdateSpec};
pub use value::Value;
