//! An in-memory vector similarity index.
//!
//! An index holds documents, each with an embedding of fixed width. It is
//! made of two parts that are kept in step: a table of points, one for each
//! embedding that was added, and a store that maps the key of a document to
//! the document. [`engine`] builds an index, adds to it, removes from it,
//! empties it and tells its size; [`model`] says what each of these does,
//! over sequences and maps; [`laws`] proves what holds of every index.
//!
//! A coordinate is the bit pattern of a 32-bit IEEE-754 number, and no
//! function of this crate does arithmetic on one. Ranking the points by
//! their distance to a query is therefore left to a spatial index outside:
//! [`engine::nearest_query`] prepares what to ask of it, and
//! [`engine::search`] turns the keys that it found into documents.

pub mod document;
pub mod engine;
pub mod error;
pub mod laws;
pub mod model;
pub mod resource;
pub mod vector;

pub use document::Document;
pub use error::EngineError;
pub use resource::{EmbeddedResource, Resource};
