//! A validating reader and canonical writer for ARGO, a JSON-compatible
//! text format. The grammar and both output forms are spec functions over a
//! mathematical model of documents (`value::Json`); the reader and writer
//! are proved to compute them, and `laws` and `pretty_reading` prove that
//! what is written reads back as the tree it was written from.
pub mod args;
pub mod classify;
pub mod grammar;
pub mod laws;
pub mod pretty_reading;
pub mod reader;
pub mod value;
pub mod writer;
