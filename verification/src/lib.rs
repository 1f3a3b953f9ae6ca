//! CloudEvents v1.0 event model and its structured-mode JSON encoding.
//!
//! An [`envelope::EventEnvelope`] is a validated set of context attributes,
//! extension attributes and an optional payload. It is made of an
//! [`envelope::EnvelopeDraft`] by [`envelope::EventEnvelope::new`].
//!
//! [`codec::serialize`] writes an envelope as a JSON document and
//! [`codec::deserialize`] reads one; [`laws`] states what holds of the two.
//! [`binary::to_binary`] and [`binary::from_binary`] map an envelope to and
//! from headers and a body. JSON documents are values of [`json`]; nothing
//! here reads or writes text but through [`bridge`].

pub mod text;
pub mod number;
pub mod timestamp;
pub mod entries;
pub mod names;
pub mod json;
pub mod bridge;
pub mod error;
pub mod version;
pub mod content_type;
pub mod extension;
pub mod payload;
pub mod envelope;
pub mod codec;
pub mod laws;
pub mod binary;
pub mod fixtures;
