//! Putting the gathered paths in order and writing them out, one to a line.

use vstd::prelude::*;
use vstd::string::StringExecFns;
use crate::depset::DependencySet;
use crate::order::{
    increasing, lemma_increasing_unique, lemma_precedes_transitive, precedes, rank, Rank,
};
use crate::text::views;

verus! {

/// Merges two increasing lists into one; a string that both hold enters once.
fn merge<'a>(left: &Vec<&'a String>, right: &Vec<&'a String>) -> (merged: Vec<&'a String>)
    requires
        increasing(views(left@)),
        increasing(views(right@)),
    ensures
        increasing(views(merged@)),
        views(merged@).to_set() == views(left@).to_set().union(views(right@).to_set()),
{
    let ghost l = views(left@);
    let ghost r = views(right@);
    let mut merged: Vec<&'a String> = Vec::new();
    let mut i: usize = 0;
    let mut j: usize = 0;
    while i < left.len() || j < right.len()
        invariant
            i <= left.len(),
            j <= right.len(),
            l == views(left@),
            r == views(right@),
            increasing(l),
            increasing(r),
            increasing(views(merged@)),
            forall|m: int, k: int|
                0 <= m < merged.len() && i <= k < l.len() ==> precedes(
                    #[trigger] views(merged@)[m],
                    #[trigger] l[k],
                ),
            forall|m: int, k: int|
                0 <= m < merged.len() && j <= k < r.len() ==> precedes(
                    #[trigger] views(merged@)[m],
                    #[trigger] r[k],
                ),
            forall|m: int|
                0 <= m < merged.len() ==> l.take(i as int).contains(#[trigger] views(merged@)[m])
                    || r.take(j as int).contains(views(merged@)[m]),
            forall|k: int| 0 <= k < i ==> views(merged@).contains(#[trigger] l[k]),
            forall|k: int| 0 <= k < j ==> views(merged@).contains(#[trigger] r[k]),
        decreases left.len() - i + right.len() - j,
    {
        let ghost before = views(merged@);
        let ghost i0 = i as int;
        let ghost j0 = j as int;
        let take_left: bool;
        let take_right: bool;
        if i >= left.len() {
            take_left = false;
            take_right = true;
        } else if j >= right.len() {
            take_left = true;
            take_right = false;
        } else {
            match rank(left[i].as_str(), right[j].as_str()) {
                Rank::Before => {
                    take_left = true;
                    take_right = false;
                },
                Rank::Same => {
                    take_left = true;
                    take_right = true;
                },
                Rank::After => {
                    take_left = false;
                    take_right = true;
                },
            }
        }
        let item: &'a String = if take_left {
            left[i]
        } else {
            right[j]
        };
        proof {
            assert(take_left ==> item@ == l[i0]);
            assert(take_right ==> item@ == r[j0]);
            assert forall|k: int| i0 + (if take_left { 1int } else { 0int }) <= k < l.len() implies precedes(
                item@,
                #[trigger] l[k],
            ) by {
                if take_left {
                    assert(precedes(l[i0], l[k]));
                } else {
                    assert(precedes(r[j0], l[i0]));
                    if k > i0 {
                        assert(precedes(l[i0], l[k]));
                        lemma_precedes_transitive(r[j0], l[i0], l[k]);
                    }
                }
            }
            assert forall|k: int| j0 + (if take_right { 1int } else { 0int }) <= k < r.len() implies precedes(
                item@,
                #[trigger] r[k],
            ) by {
                if take_right {
                    assert(precedes(r[j0], r[k]));
                } else {
                    assert(precedes(l[i0], r[j0]));
                    if k > j0 {
                        assert(precedes(r[j0], r[k]));
                        lemma_precedes_transitive(l[i0], r[j0], r[k]);
                    }
                }
            }
        }
        merged.push(item);
        if take_left {
            i += 1;
        }
        if take_right {
            j += 1;
        }
        proof {
            let after = views(merged@);
            assert(after =~= before.push(item@));
            assert forall|a: int, b: int| 0 <= a < b < after.len() implies precedes(
                after[a],
                after[b],
            ) by {
                if b < before.len() {
                    assert(precedes(before[a], before[b]));
                } else if take_left {
                    assert(precedes(before[a], l[i0]));
                } else {
                    assert(precedes(before[a], r[j0]));
                }
            }
            assert forall|m: int| 0 <= m < after.len() implies l.take(i as int).contains(
                #[trigger] after[m],
            ) || r.take(j as int).contains(after[m]) by {
                if m < before.len() {
                    if l.take(i0).contains(before[m]) {
                        let w = choose|w: int| 0 <= w < l.take(i0).len() && l.take(i0)[w] == before[m];
                        assert(l.take(i as int)[w] == before[m]);
                    } else {
                        let w = choose|w: int| 0 <= w < r.take(j0).len() && r.take(j0)[w] == before[m];
                        assert(r.take(j as int)[w] == before[m]);
                    }
                } else if take_left {
                    assert(l.take(i as int)[i0] == item@);
                } else {
                    assert(r.take(j as int)[j0] == item@);
                }
            }
            assert forall|k: int| 0 <= k < i implies after.contains(#[trigger] l[k]) by {
                if k < i0 {
                    let w = choose|w: int| 0 <= w < before.len() && before[w] == l[k];
                    assert(after[w] == l[k]);
                } else {
                    assert(after[before.len() as int] == l[k]);
                }
            }
            assert forall|k: int| 0 <= k < j implies after.contains(#[trigger] r[k]) by {
                if k < j0 {
                    let w = choose|w: int| 0 <= w < before.len() && before[w] == r[k];
                    assert(after[w] == r[k]);
                } else {
                    assert(after[before.len() as int] == r[k]);
                }
            }
        }
    }
    proof {
        let m = views(merged@);
        assert(l.take(i as int) =~= l);
        assert(r.take(j as int) =~= r);
        assert forall|x: Seq<char>| m.to_set().contains(x) <==> l.to_set().union(
            r.to_set(),
        ).contains(x) by {
            if m.to_set().contains(x) {
                let w = choose|w: int| 0 <= w < m.len() && m[w] == x;
                assert(l.contains(m[w]) || r.contains(m[w]));
            }
            if l.to_set().contains(x) {
                let w = choose|w: int| 0 <= w < l.len() && l[w] == x;
                assert(m.contains(l[w]));
            }
            if r.to_set().contains(x) {
                let w = choose|w: int| 0 <= w < r.len() && r[w] == x;
                assert(m.contains(r[w]));
            }
        }
        assert(m.to_set() =~= l.to_set().union(r.to_set()));
    }
    merged
}

/// Sorts the strings of `items` from `low` up to `high`, each held once.
fn sort_range<'a>(items: &'a Vec<String>, low: usize, high: usize) -> (sorted: Vec<&'a String>)
    requires
        low <= high <= items.len(),
    ensures
        increasing(views(sorted@)),
        views(sorted@).to_set() == views(items@).subrange(low as int, high as int).to_set(),
    decreases high - low,
{
    let ghost all = views(items@);
    if high - low == 0 {
        let sorted: Vec<&'a String> = Vec::new();
        assert(views(sorted@).to_set() =~= all.subrange(low as int, high as int).to_set());
        sorted
    } else if high - low == 1 {
        let mut sorted: Vec<&'a String> = Vec::new();
        sorted.push(&items[low]);
        proof {
            let one = views(sorted@);
            let part = all.subrange(low as int, high as int);
            assert(one =~= part);
        }
        sorted
    } else {
        let middle = low + (high - low) / 2;
        let left = sort_range(items, low, middle);
        let right = sort_range(items, middle, high);
        let sorted = merge(&left, &right);
        proof {
            let a = all.subrange(low as int, middle as int);
            let b = all.subrange(middle as int, high as int);
            let whole = all.subrange(low as int, high as int);
            assert(whole =~= a + b);
            assert forall|x: Seq<char>| whole.to_set().contains(x) <==> a.to_set().union(
                b.to_set(),
            ).contains(x) by {
                if whole.contains(x) {
                    let w = choose|w: int| 0 <= w < whole.len() && whole[w] == x;
                    if w < a.len() {
                        assert(a[w] == x);
                    } else {
                        assert(b[w - a.len()] == x);
                    }
                }
                if a.contains(x) {
                    let w = choose|w: int| 0 <= w < a.len() && a[w] == x;
                    assert(whole[w] == x);
                }
                if b.contains(x) {
                    let w = choose|w: int| 0 <= w < b.len() && b[w] == x;
                    assert(whole[w + a.len()] == x);
                }
            }
            assert(whole.to_set() =~= a.to_set().union(b.to_set()));
        }
        sorted
    }
}

/// The paths of a set in lexicographic order: each path of the set once, and
/// each before the next.
pub fn sorted_paths(set: &DependencySet) -> (lines: Vec<String>)
    requires
        set.well_formed(),
    ensures
        increasing(views(lines@)),
        views(lines@).to_set() == set@,
{
    let members = set.members();
    let sorted = sort_range(members, 0, members.len());
    assert(views(members@).subrange(0, members.len() as int) =~= views(members@));
    let mut lines: Vec<String> = Vec::new();
    let mut i: usize = 0;
    while i < sorted.len()
        invariant
            i <= sorted.len(),
            lines.len() == i,
            forall|k: int| 0 <= k < i ==> lines[k]@ == sorted[k]@,
        decreases sorted.len() - i,
    {
        lines.push(sorted[i].clone());
        i += 1;
    }
    assert(views(lines@) =~= views(sorted@));
    lines
}

/// The character that ends each line of the report.
pub const LINE_END: char = '\n';

/// The text of a report: each line followed by a line end.
pub open spec fn rendered(lines: Seq<Seq<char>>) -> Seq<char>
    decreases lines.len(),
{
    if lines.len() == 0 {
        seq![]
    } else {
        rendered(lines.drop_last()) + lines.last().push(LINE_END)
    }
}

/// Writes the lines out, each on a line of its own.
pub fn render(lines: &Vec<String>) -> (text: String)
    ensures
        text@ == rendered(views(lines@)),
{
    let mut text = String::new();
    let ghost all = views(lines@);
    let mut i: usize = 0;
    proof {
        reveal_strlit("\n");
        assert(all.take(0) =~= seq![]);
    }
    while i < lines.len()
        invariant
            i <= lines.len(),
            all == views(lines@),
            text@ == rendered(all.take(i as int)),
            "\n"@ == seq![LINE_END],
        decreases lines.len() - i,
    {
        proof {
            assert(all.take(i + 1).drop_last() =~= all.take(i as int));
            assert(all.take(i + 1).last() == lines[i as int]@);
        }
        text.append(lines[i].as_str());
        text.append("\n");
        assert(text@ =~= rendered(all.take(i + 1)));
        i += 1;
    }
    assert(all.take(i as int) =~= all);
    text
}

/// The report of a set is determined by the set alone: two reports of the same
/// paths are the same text, in whatever order the paths were gathered.
pub proof fn lemma_report_determined(first: Seq<Seq<char>>, second: Seq<Seq<char>>)
    requires
        increasing(first),
        increasing(second),
        first.to_set() == second.to_set(),
    ensures
        first == second,
        rendered(first) == rendered(second),
{
    lemma_increasing_unique(first, second);
}

} // verus!
