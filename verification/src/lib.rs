//! Streaming JSON-LD expansion: a push-down converter from lexical JSON
//! tokens to RDF-oriented events, together with the context processing and
//! IRI expansion subroutines it drives, and the IRI plumbing they rely on.

pub mod context;
pub mod diagnostics;
pub mod events;
pub mod expansion;
pub mod http;
pub mod iri;
pub mod json;
pub mod text;
