//! Extraction of the source-file dependencies named by a compilation database.
//!
//! The crate holds the decisions of the pipeline: which entries of the database are
//! walked, how a compiler invocation is rewritten to ask for a dependency listing,
//! how the outcome of the compiler run is judged, which paths the listing names,
//! which of them are kept, and in what order they are reported. Running the compiler
//! and touching the file system are left to the caller, who hands the results in as
//! plain values.

pub mod text;
pub mod order;
pub mod paths;
pub mod config;
pub mod entry;
pub mod invocation;
pub mod output;
pub mod listing;
pub mod depset;
pub mod aggregate;
pub mod report;
pub mod run;
pub mod walk;
