//! Strings as sequences of characters: the views the contracts speak of.

use vstd::prelude::*;

verus! {

/// The character sequences of a list of strings, item by item.
pub open spec fn views<T: View<V = Seq<char>>>(items: Seq<T>) -> Seq<Seq<char>> {
    Seq::new(items.len(), |i: int| items[i]@)
}

/// What `result` holds, with the strings of a success as character sequences.
pub open spec fn viewed<E>(result: Result<Vec<String>, E>) -> Result<Seq<Seq<char>>, E> {
    match result {
        Ok(list) => Ok(views(list@)),
        Err(why) => Err(why),
    }
}

/// What each of a list of optional strings holds.
pub open spec fn optional_views(items: Seq<Option<String>>) -> Seq<Option<Seq<char>>> {
    Seq::new(
        items.len(),
        |i: int|
            match items[i] {
                Some(text) => Some(text@),
                None => None,
            },
    )
}

/// The items that are there, in their order.
pub open spec fn present(items: Seq<Option<Seq<char>>>) -> Seq<Seq<char>>
    decreases items.len(),
{
    if items.len() == 0 {
        seq![]
    } else {
        match items.last() {
            Some(text) => present(items.drop_last()).push(text),
            None => present(items.drop_last()),
        }
    }
}

/// Keeps the strings that are there, in their order.
pub fn keep_present(items: Vec<Option<String>>) -> (kept: Vec<String>)
    ensures
        views(kept@) == present(optional_views(items@)),
{
    let ghost all = optional_views(items@);
    let mut items = items;
    let mut kept: Vec<String> = Vec::new();
    let mut i: usize = 0;
    let count = items.len();
    assert(all.take(0) =~= seq![]);
    while i < count
        invariant
            i <= count,
            count == items.len(),
            all.len() == count,
            forall|k: int| i <= k < count ==> optional_views(items@)[k] == all[k],
            views(kept@) == present(all.take(i as int)),
        decreases count - i,
    {
        let ghost before = items@;
        let mut item: Option<String> = None;
        std::mem::swap(&mut items[i], &mut item);
        proof {
            assert(optional_views(before)[i as int] == all[i as int]);
            assert(all.take(i + 1).drop_last() =~= all.take(i as int));
            assert(all.take(i + 1).last() == all[i as int]);
            assert forall|k: int| i < k < count implies optional_views(items@)[k] == all[k] by {
                assert(optional_views(before)[k] == all[k]);
            }
        }
        match item {
            Some(text) => {
                kept.push(text);
                assert(views(kept@) =~= present(all.take(i + 1)));
            },
            None => {},
        }
        i += 1;
    }
    assert(all.take(i as int) =~= all);
    kept
}

/// A copy of `items` that holds the same strings in the same order.
pub fn clone_strings(items: &Vec<String>) -> (copy: Vec<String>)
    ensures
        views(copy@) == views(items@),
{
    let mut copy: Vec<String> = Vec::new();
    let mut i: usize = 0;
    while i < items.len()
        invariant
            i <= items.len(),
            copy.len() == i,
            forall|k: int| 0 <= k < i ==> copy[k]@ == items[k]@,
        decreases items.len() - i,
    {
        copy.push(items[i].clone());
        i += 1;
    }
    assert(views(copy@) =~= views(items@));
    copy
}

/// The characters of a string, one by one.
pub fn chars_of(text: &str) -> (chars: Vec<char>)
    ensures
        chars@ == text@,
{
    let mut chars: Vec<char> = Vec::new();
    for c in it: text.chars()
        invariant
            it.seq() == text@,
            chars@ == it.seq().take(it.index() as int),
    {
        chars.push(c);
    }
    chars
}

} // verus!
