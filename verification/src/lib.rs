//! A live, read-only SPARQL endpoint for linked data stored in files: the
//! verified decisions behind loading, cataloguing, reloading and serving.

pub mod catalog;
pub mod changes;
pub mod context;
pub mod dataset;
pub mod formats;
pub mod iri;
pub mod laws;
pub mod loading;
pub mod markdown;
pub mod messages;
pub mod parsing;
pub mod paths;
pub mod pathset;
pub mod patterns;
pub mod rdf;
pub mod report;
pub mod server;
pub mod serving;
pub mod summary;
pub mod text;
pub mod watch;

pub use serving::{ServeOptions, serve, serve_at, serve_at_with_options};
