//! The two ends of a run: what one entry yields once its compiler has run, and
//! what the whole run reports once every entry is done.

use vstd::prelude::*;
use crate::aggregate::{aggregate, failures, gathered};
use crate::config::RunConfiguration;
use crate::invocation::InvocationError;
use crate::listing::{
    continuation_pattern, listed_paths, parse_dependency, pattern_compiles, ListingError,
};
use crate::order::increasing;
use crate::output::ProcessOutput;
use crate::report::sorted_paths;
use crate::text::{viewed, views};

verus! {

/// Why an entry yields no paths.
#[derive(Debug, Clone, Copy, PartialEq, Eq)]
pub enum EntryError {
    /// No listing could be had from the compiler.
    Invocation(InvocationError),
    /// The listing could not be read.
    Listing(ListingError),
}

/// The paths that the listing of a run names, or the reason it names none: a run
/// that gave no listing fails as an invocation, and only the listing of a run
/// that gave one is read.
pub open spec fn candidates_of(output: ProcessOutput) -> Result<Seq<Seq<char>>, EntryError> {
    match output.listing() {
        Err(why) => Err(EntryError::Invocation(why)),
        Ok(bytes) => match listed_paths(bytes) {
            Err(why) => Err(EntryError::Listing(why)),
            Ok(paths) => Ok(paths),
        },
    }
}

/// Judges a finished compiler run and reads the paths that its listing names.
pub fn candidates(output: ProcessOutput) -> (result: Result<Vec<String>, EntryError>)
    ensures
        viewed(result) == candidates_of(output),
        pattern_compiles(continuation_pattern()) ==> (result is Ok <==> output.listing() is Ok),
{
    match output.into_listing() {
        Err(why) => Err(EntryError::Invocation(why)),
        Ok(bytes) => match parse_dependency(bytes.as_slice()) {
            Err(why) => Err(EntryError::Listing(why)),
            Ok(paths) => Ok(paths),
        },
    }
}

/// What a run reports.
pub struct Summary {
    /// The paths that passed the filters, in lexicographic order.
    pub lines: Vec<String>,
    /// The places, among the results, of the entries that failed.
    pub failed: Vec<usize>,
}

/// Merges the results of the entries and puts the paths in order: the report
/// holds each path that a successful entry gave and the filters let pass, once,
/// each before the next in lexicographic order. Failed entries are noted and
/// take nothing from the report.
pub fn summarize<E>(results: &Vec<Result<Vec<String>, E>>, config: &RunConfiguration) -> (summary:
    Summary)
    ensures
        increasing(views(summary.lines@)),
        views(summary.lines@).to_set() == gathered(results@, *config),
        summary.failed@ == failures(results@),
{
    let total = aggregate(results, config);
    let lines = sorted_paths(&total.paths);
    Summary { lines, failed: total.failed }
}

} // verus!
