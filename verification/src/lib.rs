//! Bootstrap sync-state snapshots for light clients.
//!
//! The crate assembles a point-in-time snapshot of live consensus state
//! (the finalized header, the epoch-change tree, the finalized block's
//! weight and the finality authority set), encodes it canonically, and
//! injects it into the extension slot of a chain specification document.
//! The service refuses to exist for a document that does not declare the
//! slot, and a query never mutates the document it was constructed with.

pub mod backend;
pub mod document;
pub mod encoding;
pub mod error;
pub mod service;
pub mod types;
