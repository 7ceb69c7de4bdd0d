//! Coordination core of a multi-stage news pipeline.
//!
//! Items move through the pipeline by advancing a persisted status value.
//! The library holds the parts with real invariants: the status machine with
//! its bounded-retry policy, the classification of AI provider outcomes, and
//! the markup conversion that turns HTML trees into constrained rich text and
//! node trees under hard size limits. Everything here is verified; the worker
//! processes around it (polling, storage, HTTP) live outside the library and
//! only exchange plain values with it.

pub mod chars;
pub mod extract;
pub mod gateway;
pub mod markup;
pub mod ingest;
pub mod provider;
pub mod publish;
pub mod stage;
pub mod telegraph;
pub mod status;
