//! Rebuilding the compiler invocation of a database entry and rewriting it so
//! that the compiler lists dependencies in place of producing an object file.

use vstd::prelude::*;
use vstd::string::StringExecFns;
use crate::entry::{CompileCommand, EntryModel};
use crate::text::{clone_strings, viewed, views};

verus! {

/// Why no listing could be had for an entry.
#[derive(Debug, Clone, Copy, PartialEq, Eq)]
pub enum InvocationError {
    /// The entry gives neither a command string nor an argument list.
    MissingCommand,
    /// The command string cannot be split into words under shell quoting.
    ShellParseFailure,
    /// The compiler ended with the given exit code, or with none where a signal
    /// ended it.
    NonZeroExit(Option<i32>),
    /// The compiler ended well and printed nothing.
    EmptyOutput,
}

#[verifier::external_type_specification]
#[verifier::external_body]
pub struct ExShellParseError(shell_words::ParseError);

/// The words that `shell_words::split` makes of a command string, or `None`
/// where it reports an error.
pub uninterp spec fn shell_split(command: Seq<char>) -> Option<Seq<Seq<char>>>;

/// `shell_words::split` reads its argument alone and keeps no state: what it
/// returns is `shell_split` of the argument's characters, the words in order on
/// success and nothing on a parse error.
pub assume_specification[ shell_words::split ](s: &str) -> (words: Result<
    Vec<String>,
    shell_words::ParseError,
>)
    ensures
        match words {
            Ok(list) => shell_split(s@) == Some(views(list@)),
            Err(_) => shell_split(s@) is None,
        },
;

/// The argument vector that an entry stands for: its argument list where it has
/// one, else the words of its command string.
pub open spec fn arguments_of(entry: EntryModel) -> Result<Seq<Seq<char>>, InvocationError> {
    match entry.arguments {
        Some(list) => Ok(list),
        None => match entry.command {
            Some(text) => match shell_split(text) {
                Some(words) => Ok(words),
                None => Err(InvocationError::ShellParseFailure),
            },
            None => Err(InvocationError::MissingCommand),
        },
    }
}

/// The rewritten invocation of an entry whose argument vector can be
/// rewritten, or the reason the entry has no argument vector.
pub open spec fn invocation_of(entry: EntryModel) -> Result<Seq<Seq<char>>, InvocationError> {
    match arguments_of(entry) {
        Ok(args) => Ok(rewritten(args)),
        Err(why) => Err(why),
    }
}

/// Reads the argument vector of an entry. The argument list is preferred; a
/// command string is split as a shell would split it.
pub fn base_arguments(entry: &CompileCommand) -> (result: Result<Vec<String>, InvocationError>)
    ensures
        viewed(result) == arguments_of(entry@),
        entry.command is None && entry.arguments is None ==> result == Err::<
            Vec<String>,
            InvocationError,
        >(InvocationError::MissingCommand),
{
    match &entry.arguments {
        Some(list) => Ok(clone_strings(list)),
        None => match &entry.command {
            Some(text) => match shell_words::split(text.as_str()) {
                Ok(words) => Ok(words),
                Err(_) => Err(InvocationError::ShellParseFailure),
            },
            None => Err(InvocationError::MissingCommand),
        },
    }
}

/// The characters of the flag that names the output file.
pub open spec fn output_flag() -> Seq<char> {
    seq!['-', 'o']
}

/// The characters of the flag that asks the compiler for a dependency listing.
pub open spec fn dependency_flag() -> Seq<char> {
    seq!['-', 'M']
}

/// The index of the first output flag among the arguments that follow the
/// executable name, or the length of `args` where there is none.
pub open spec fn output_flag_index(args: Seq<Seq<char>>) -> int {
    first_output_flag_from(args, 1)
}

/// The least index from `from` on at which `args` holds the output flag, or the
/// length of `args` where there is none.
pub open spec fn first_output_flag_from(args: Seq<Seq<char>>, from: int) -> int
    decreases args.len() - from,
{
    if from >= args.len() {
        args.len() as int
    } else if args[from] == output_flag() {
        from
    } else {
        first_output_flag_from(args, from + 1)
    }
}

/// Whether an argument vector can be rewritten: it names an executable, and
/// its first output flag, if it has one, has a path behind it.
pub open spec fn rewritable(args: Seq<Seq<char>>) -> bool {
    &&& args.len() > 0
    &&& output_flag_index(args) < args.len() ==> output_flag_index(args) + 1 < args.len()
}

/// `args` without its first output flag and the path after it. The executable
/// name at index 0 is no flag.
pub open spec fn without_output(args: Seq<Seq<char>>) -> Seq<Seq<char>> {
    let at = output_flag_index(args);
    if at >= args.len() {
        args
    } else {
        args.take(at) + args.skip(at + 2)
    }
}

/// The invocation that lists dependencies: the executable name, the dependency
/// flag, then the remaining arguments without the output pair.
pub open spec fn rewritten(args: Seq<Seq<char>>) -> Seq<Seq<char>> {
    let kept = without_output(args);
    seq![kept[0], dependency_flag()] + kept.skip(1)
}

/// The search for the output flag passes over the executable name: the flag is
/// found behind index 0 or not at all, and what it finds is the flag.
pub proof fn lemma_output_flag_index(args: Seq<Seq<char>>, from: int)
    requires
        0 <= from <= args.len(),
    ensures
        from <= first_output_flag_from(args, from) <= args.len(),
        first_output_flag_from(args, from) < args.len() ==> args[first_output_flag_from(
            args,
            from,
        )] == output_flag(),
        forall|k: int|
            from <= k < first_output_flag_from(args, from) ==> #[trigger] args[k] != output_flag(),
    decreases args.len() - from,
{
    if from < args.len() && args[from] != output_flag() {
        lemma_output_flag_index(args, from + 1);
    }
}

/// Finds the first output flag at or after index 1.
fn find_output_flag(args: &Vec<String>) -> (at: usize)
    ensures
        at == output_flag_index(views(args@)),
        at <= args.len(),
        args.len() >= 1 ==> at >= 1,
{
    let flag = String::from_str("-o");
    proof {
        reveal_strlit("-o");
        assert(flag@ =~= output_flag());
    }
    let ghost words = views(args@);
    let mut i: usize = 1;
    if args.len() <= 1 {
        proof {
            reveal_with_fuel(first_output_flag_from, 2);
        }
        return args.len();
    }
    while i < args.len()
        invariant
            1 <= i <= args.len(),
            words == views(args@),
            flag@ == output_flag(),
            first_output_flag_from(words, i as int) == output_flag_index(words),
        decreases args.len() - i,
    {
        if args[i] == flag {
            assert(words[i as int] == args[i as int]@);
            return i;
        }
        assert(words[i as int] == args[i as int]@);
        i += 1;
    }
    i
}

/// Whether an argument vector can be rewritten.
pub fn can_rewrite(args: &Vec<String>) -> (can: bool)
    ensures
        can == rewritable(views(args@)),
{
    if args.len() == 0 {
        return false;
    }
    let at = find_output_flag(args);
    at >= args.len() || at + 1 < args.len()
}

/// Rewrites an argument vector so that the compiler lists dependencies: the
/// first output flag after the executable name leaves together with the path
/// that follows it, and the dependency flag enters at index 1.
pub fn rewrite_invocation(args: Vec<String>) -> (invocation: Vec<String>)
    requires
        rewritable(views(args@)),
    ensures
        views(invocation@) == rewritten(views(args@)),
        invocation.len() >= 2,
        invocation[0]@ == args[0]@,
        invocation[1]@ == dependency_flag(),
{
    let ghost before = views(args@);
    proof {
        lemma_output_flag_index(before, 1);
    }
    let mut args = args;
    let at = find_output_flag(&args);
    if at < args.len() {
        args.remove(at + 1);
        args.remove(at);
    }
    assert(views(args@) =~= without_output(before));
    let flag = String::from_str("-M");
    proof {
        reveal_strlit("-M");
        assert(flag@ =~= dependency_flag());
    }
    args.insert(1, flag);
    assert(views(args@) =~= rewritten(before));
    args
}

/// Builds the dependency-listing invocation of an entry. An entry whose
/// argument vector cannot be rewritten is a defect of the database that no
/// error stands for: for it, and for no other, the answer is `None`.
pub fn build_invocation(entry: &CompileCommand) -> (result: Option<
    Result<Vec<String>, InvocationError>,
>)
    ensures
        result is None <==> (arguments_of(entry@) matches Ok(args) && !rewritable(args)),
        result matches Some(built) ==> viewed(built) == invocation_of(entry@),
        entry.command is None && entry.arguments is None ==> result == Some(
            Err::<Vec<String>, InvocationError>(InvocationError::MissingCommand),
        ),
{
    match base_arguments(entry) {
        Ok(args) => {
            if can_rewrite(&args) {
                Some(Ok(rewrite_invocation(args)))
            } else {
                None
            }
        },
        Err(why) => Some(Err(why)),
    }
}

} // verus!
