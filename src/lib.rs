//! A bounded table of allocation records, shared between a monitored program
//! and a checker as a fixed-size byte image.
//!
//! - `store`: the records, the table's mathematical model and its operations
//!   as spec functions.
//! - `tracker`: the table itself, whose methods are proved against `store`.
//! - `snapshot`: the byte image of a table, as it travels through the shared
//!   segment.
//! - `hooks`: what each interception hook does between reading the image and
//!   writing it back.
//! - `laws`: properties that relate several operations.
pub mod hooks;
pub mod laws;
pub mod snapshot;
pub mod store;
pub mod tracker;
