//! The walk of one entry, step by step. The caller runs the compiler and asks
//! the file system; what it is to do next, given what has happened, is decided
//! here.

use vstd::prelude::*;
use crate::entry::{CompileCommand, EntryModel};
use crate::invocation::{arguments_of, build_invocation, rewritable, rewritten};
use crate::output::ProcessOutput;
use crate::paths::{anchor, anchored};
use crate::run::{candidates, candidates_of, EntryError};
use crate::text::{keep_present, optional_views, present, views};

verus! {

/// What has happened in the walk of an entry.
#[derive(Debug)]
pub enum Event {
    /// Nothing yet.
    Begin,
    /// The compiler has run and left this behind.
    Ran(ProcessOutput),
    /// The file system has been asked for each path, in the order of the
    /// request: the canonical form of a path that exists, nothing for one that
    /// does not.
    Probed(Vec<Option<String>>),
}

/// What the caller is to do next for an entry.
#[derive(Debug, PartialEq, Eq)]
pub enum Step {
    /// Nothing can be done: the entry's argument vector is empty and names no
    /// executable, or its output flag stands last and names no path.
    Malformed,
    /// Run the first item of `invocation` with the others as its arguments, in
    /// `directory`, and come back with what the run left behind.
    Run { invocation: Vec<String>, directory: String },
    /// Ask the file system for each of `paths`, and come back with the answers.
    Probe { paths: Vec<String> },
    /// The walk is over: the paths that the entry depends on, or the reason it
    /// gave none.
    Done { outcome: Result<Vec<String>, EntryError> },
}

/// What a step says, as character sequences.
pub enum StepModel {
    Malformed,
    Run { invocation: Seq<Seq<char>>, directory: Seq<char> },
    Probe { paths: Seq<Seq<char>> },
    Done { outcome: Result<Seq<Seq<char>>, EntryError> },
}

impl View for Step {
    type V = StepModel;

    open spec fn view(&self) -> StepModel {
        match self {
            Step::Malformed => StepModel::Malformed,
            Step::Run { invocation, directory } => StepModel::Run {
                invocation: views(invocation@),
                directory: directory@,
            },
            Step::Probe { paths } => StepModel::Probe { paths: views(paths@) },
            Step::Done { outcome } => StepModel::Done {
                outcome: match outcome {
                    Ok(paths) => Ok(views(paths@)),
                    Err(why) => Err(*why),
                },
            },
        }
    }
}

/// Each of `paths` as read in `directory`.
pub open spec fn anchored_all(directory: Seq<char>, paths: Seq<Seq<char>>) -> Seq<Seq<char>> {
    Seq::new(paths.len(), |i: int| anchored(directory, paths[i]))
}

/// The step that follows an event. At the start the invocation is built and
/// is to be run; an entry without an argument vector is done at once, and one
/// whose argument vector cannot be rewritten is malformed. After the run its
/// listing is read, and the paths it names are to be looked up in the entry's
/// directory; a run without a listing ends the walk. After the lookup the walk
/// is over, with the canonical forms of the paths that exist, in listing order.
pub open spec fn next_step(entry: EntryModel, event: Event) -> StepModel {
    match event {
        Event::Begin => match arguments_of(entry) {
            Err(why) => StepModel::Done { outcome: Err(EntryError::Invocation(why)) },
            Ok(args) => if !rewritable(args) {
                StepModel::Malformed
            } else {
                StepModel::Run { invocation: rewritten(args), directory: entry.directory }
            },
        },
        Event::Ran(output) => match candidates_of(output) {
            Err(why) => StepModel::Done { outcome: Err(why) },
            Ok(found) => StepModel::Probe { paths: anchored_all(entry.directory, found) },
        },
        Event::Probed(answers) => StepModel::Done {
            outcome: Ok(present(optional_views(answers@))),
        },
    }
}

/// Reads each of `paths` in `directory`.
fn anchor_all(directory: &str, paths: &Vec<String>) -> (full: Vec<String>)
    ensures
        views(full@) == anchored_all(directory@, views(paths@)),
{
    let mut full: Vec<String> = Vec::new();
    let mut i: usize = 0;
    while i < paths.len()
        invariant
            i <= paths.len(),
            full.len() == i,
            forall|k: int| 0 <= k < i ==> full[k]@ == anchored(directory@, paths[k]@),
        decreases paths.len() - i,
    {
        full.push(anchor(directory, paths[i].as_str()));
        i += 1;
    }
    assert(views(full@) =~= anchored_all(directory@, views(paths@)));
    full
}

/// Decides what the caller is to do next for an entry.
pub fn advance(entry: &CompileCommand, event: Event) -> (step: Step)
    ensures
        step@ == next_step(entry@, event),
{
    match event {
        Event::Begin => {
            match build_invocation(entry) {
                None => Step::Malformed,
                Some(Err(why)) => Step::Done { outcome: Err(EntryError::Invocation(why)) },
                Some(Ok(invocation)) => Step::Run {
                    invocation,
                    directory: entry.directory.clone(),
                },
            }
        },
        Event::Ran(output) => match candidates(output) {
            Err(why) => Step::Done { outcome: Err(why) },
            Ok(found) => Step::Probe { paths: anchor_all(entry.directory.as_str(), &found) },
        },
        Event::Probed(answers) => Step::Done { outcome: Ok(keep_present(answers)) },
    }
}

} // verus!
