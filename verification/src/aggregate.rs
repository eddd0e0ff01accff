//! Merging the paths that the entries gave into one set.

use vstd::prelude::*;
use crate::config::RunConfiguration;
use crate::depset::DependencySet;
use crate::paths::{has_header_extension, lies_under, system_root};

verus! {

/// Whether entry `i` succeeded and gave a path in place `j`.
pub open spec fn gives<E>(results: Seq<Result<Vec<String>, E>>, i: int, j: int) -> bool {
    &&& 0 <= i < results.len()
    &&& results[i] is Ok
    &&& 0 <= j < results[i]->Ok_0@.len()
}

/// The path that entry `i` gave in place `j`.
pub open spec fn path_at<E>(results: Seq<Result<Vec<String>, E>>, i: int, j: int) -> Seq<char> {
    results[i]->Ok_0@[j]@
}

/// The paths that pass the filters among those given before place `inner` of
/// entry `outer`.
pub open spec fn gathered_before<E>(
    results: Seq<Result<Vec<String>, E>>,
    config: RunConfiguration,
    outer: int,
    inner: int,
) -> Set<Seq<char>> {
    Set::new(
        |path: Seq<char>|
            config.retains(path) && exists|i: int, j: int|
                #[trigger] gives(results, i, j) && (i < outer || (i == outer && j < inner))
                    && path_at(results, i, j) == path,
    )
}

/// The paths that pass the filters among those that any successful entry gave.
pub open spec fn gathered<E>(
    results: Seq<Result<Vec<String>, E>>,
    config: RunConfiguration,
) -> Set<Seq<char>> {
    Set::new(
        |path: Seq<char>|
            config.retains(path) && exists|i: int, j: int|
                #[trigger] gives(results, i, j) && path_at(results, i, j) == path,
    )
}

/// The places of the entries that failed, in their order.
pub open spec fn failures<E>(results: Seq<Result<Vec<String>, E>>) -> Seq<usize>
    decreases results.len(),
{
    if results.len() == 0 {
        seq![]
    } else if results.last() is Err {
        failures(results.drop_last()).push((results.len() - 1) as usize)
    } else {
        failures(results.drop_last())
    }
}

/// What a run gathered.
pub struct Aggregate {
    /// The paths that passed the filters.
    pub paths: DependencySet,
    /// The places, among the results, of the entries that failed.
    pub failed: Vec<usize>,
}

/// Merges the results of the entries, taken in their order. Every path of a
/// successful entry that passes the filters enters the set; a failed entry adds
/// nothing and is noted, and the entries after it are merged all the same.
pub fn aggregate<E>(results: &Vec<Result<Vec<String>, E>>, config: &RunConfiguration) -> (total:
    Aggregate)
    ensures
        total.paths.well_formed(),
        total.paths@ == gathered(results@, *config),
        total.failed@ == failures(results@),
{
    let mut paths = DependencySet::new();
    let mut failed: Vec<usize> = Vec::new();
    let mut i: usize = 0;
    assert(paths@ =~= gathered_before(results@, *config, 0, 0));
    assert(results@.take(0) =~= seq![]);
    while i < results.len()
        invariant
            i <= results.len(),
            paths.well_formed(),
            paths@ == gathered_before(results@, *config, i as int, 0),
            failed@ == failures(results@.take(i as int)),
        decreases results.len() - i,
    {
        assert(results@.take(i + 1).drop_last() =~= results@.take(i as int));
        assert(results@.take(i + 1).last() == results@[i as int]);
        match &results[i] {
            Ok(list) => {
                let mut j: usize = 0;
                while j < list.len()
                    invariant
                        i < results.len(),
                        results@[i as int] == Ok::<Vec<String>, E>(*list),
                        j <= list.len(),
                        paths.well_formed(),
                        paths@ == gathered_before(results@, *config, i as int, j as int),
                    decreases list.len() - j,
                {
                    let path = &list[j];
                    assert(gives(results@, i as int, j as int));
                    assert(path_at(results@, i as int, j as int) == path@);
                    if config.keeps(path.as_str()) {
                        paths.insert(path.clone());
                        assert(paths@ =~= gathered_before(
                            results@,
                            *config,
                            i as int,
                            j as int + 1,
                        ));
                    } else {
                        assert(paths@ =~= gathered_before(
                            results@,
                            *config,
                            i as int,
                            j as int + 1,
                        ));
                    }
                    j += 1;
                }
                assert(paths@ =~= gathered_before(results@, *config, i as int + 1, 0));
            },
            Err(_) => {
                failed.push(i);
                assert(paths@ =~= gathered_before(results@, *config, i as int + 1, 0));
            },
        }
        i += 1;
    }
    assert(results@.take(i as int) =~= results@);
    assert(paths@ =~= gathered(results@, *config));
    Aggregate { paths, failed }
}

/// What the filters do to the paths that successful entries gave. With the
/// system filter alone, a path is reported unless it lies in the system include
/// tree; with the header filter alone, a path is reported if and only if its
/// extension begins with the header mark; with both, a path must pass both;
/// with neither, every path is reported.
pub proof fn lemma_filters<E>(
    results: Seq<Result<Vec<String>, E>>,
    config: RunConfiguration,
    i: int,
    j: int,
)
    requires
        gives(results, i, j),
    ensures
        ({
            let path = path_at(results, i, j);
            let reported = gathered(results, config).contains(path);
            let system = lies_under(path, system_root());
            let header = has_header_extension(path);
            &&& config.exclude_system_headers && !config.headers_only ==> (reported <==> !system)
            &&& !config.exclude_system_headers && config.headers_only ==> (reported <==> header)
            &&& config.exclude_system_headers && config.headers_only ==> (reported <==> !system
                && header)
            &&& !config.exclude_system_headers && !config.headers_only ==> reported
        }),
{
}

/// Nothing is reported that no successful entry gave.
pub proof fn lemma_reported_was_given<E>(
    results: Seq<Result<Vec<String>, E>>,
    config: RunConfiguration,
    path: Seq<char>,
) -> (at: (int, int))
    requires
        gathered(results, config).contains(path),
    ensures
        gives(results, at.0, at.1),
        path_at(results, at.0, at.1) == path,
        config.retains(path),
{
    choose|i: int, j: int| #[trigger] gives(results, i, j) && path_at(results, i, j) == path
}

/// Every failed entry is noted, whatever the other entries did.
pub proof fn lemma_failure_is_noted<E>(results: Seq<Result<Vec<String>, E>>, i: int)
    requires
        0 <= i < results.len(),
        results[i] is Err,
    ensures
        failures(results).contains(i as usize),
    decreases results.len(),
{
    let before = results.drop_last();
    if i == results.len() - 1 {
        assert(failures(results).last() == i as usize);
    } else {
        lemma_failure_is_noted(before, i);
        let w = choose|w: int| 0 <= w < failures(before).len() && failures(before)[w] == i as usize;
        assert(failures(results)[w] == i as usize);
    }
}

/// Only failed entries are noted.
pub proof fn lemma_noted_has_failed<E>(results: Seq<Result<Vec<String>, E>>, k: int)
    requires
        results.len() <= usize::MAX,
        0 <= k < failures(results).len(),
    ensures
        0 <= failures(results)[k] < results.len(),
        results[failures(results)[k] as int] is Err,
    decreases results.len(),
{
    if results.len() > 0 {
        let before = results.drop_last();
        if k < failures(before).len() {
            lemma_noted_has_failed(before, k);
        }
    }
}

} // verus!
