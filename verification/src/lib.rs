//! Renders a range of commits as structured records, one per commit, with the
//! fields chosen by a list of short field codes, as JSON objects or CSV rows.
//!
//! The crate holds the rules of the report: which field codes exist and what
//! each yields for a commit, how the index of ref names is filled and drained,
//! how a record becomes a line of output, and how a walk over commits strings
//! these together. Reading the repository and writing the lines is left to the
//! caller.

pub mod commit;
pub mod error;
pub mod field;
pub mod format;
pub mod refs;
pub mod resolve;
pub mod text;
pub mod value;
pub mod walk;
