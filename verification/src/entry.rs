//! Entries of a compilation database.

use vstd::prelude::*;
use vstd::hash_set::StringHashSet;
use crate::text::views;

verus! {

/// One entry of a compilation database: how one source file is compiled.
#[derive(Debug)]
pub struct CompileCommand {
    /// The working directory of the compilation.
    pub directory: String,
    /// The invocation as one shell-quoted string, if the entry gives it so.
    pub command: Option<String>,
    /// The invocation as a list of arguments, if the entry gives it so.
    pub arguments: Option<Vec<String>>,
    /// The source file that the entry compiles.
    pub file: String,
}

/// What an entry says, as character sequences.
pub struct EntryModel {
    pub directory: Seq<char>,
    pub command: Option<Seq<char>>,
    pub arguments: Option<Seq<Seq<char>>>,
    pub file: Seq<char>,
}

impl View for CompileCommand {
    type V = EntryModel;

    open spec fn view(&self) -> EntryModel {
        EntryModel {
            directory: self.directory@,
            command: match self.command {
                Some(text) => Some(text@),
                None => None,
            },
            arguments: match self.arguments {
                Some(list) => Some(views(list@)),
                None => None,
            },
            file: self.file@,
        }
    }
}

/// What each of a list of entries says.
pub open spec fn models<T: View<V = EntryModel>>(entries: Seq<T>) -> Seq<EntryModel> {
    Seq::new(entries.len(), |i: int| entries[i]@)
}

/// Whether one of `entries` compiles `file`.
pub open spec fn compiles(entries: Seq<EntryModel>, file: Seq<char>) -> bool {
    exists|i: int| 0 <= i < entries.len() && (#[trigger] entries[i]).file == file
}

/// The entries that are the first to compile their file, in their order.
pub open spec fn first_per_file(entries: Seq<EntryModel>) -> Seq<EntryModel>
    decreases entries.len(),
{
    if entries.len() == 0 {
        seq![]
    } else if compiles(entries.drop_last(), entries.last().file) {
        first_per_file(entries.drop_last())
    } else {
        first_per_file(entries.drop_last()).push(entries.last())
    }
}

/// The entries that compile a file which an earlier entry compiles, in their
/// order.
pub open spec fn repeated(entries: Seq<EntryModel>) -> Seq<EntryModel>
    decreases entries.len(),
{
    if entries.len() == 0 {
        seq![]
    } else if compiles(entries.drop_last(), entries.last().file) {
        repeated(entries.drop_last()).push(entries.last())
    } else {
        repeated(entries.drop_last())
    }
}

/// A database split into the entries to walk and the entries passed over.
pub struct Deduplicated<'a> {
    /// For each file the first entry that compiles it, in database order.
    pub kept: Vec<&'a CompileCommand>,
    /// The other entries, in database order.
    pub skipped: Vec<&'a CompileCommand>,
}

/// Keeps one entry per source file, the first in database order, and sets the
/// others aside so that the caller can name them.
pub fn deduplicate<'a>(entries: &'a Vec<CompileCommand>) -> (split: Deduplicated<'a>)
    ensures
        models(split.kept@) == first_per_file(models(entries@)),
        models(split.skipped@) == repeated(models(entries@)),
{
    let mut kept: Vec<&'a CompileCommand> = Vec::new();
    let mut skipped: Vec<&'a CompileCommand> = Vec::new();
    let mut seen = StringHashSet::new();
    let ghost all = models(entries@);
    let mut i: usize = 0;
    assert(models(kept@) =~= first_per_file(all.take(0)));
    assert(models(skipped@) =~= repeated(all.take(0)));
    while i < entries.len()
        invariant
            i <= entries.len(),
            all == models(entries@),
            forall|file: Seq<char>| seen@.contains(file) <==> compiles(all.take(i as int), file),
            models(kept@) == first_per_file(all.take(i as int)),
            models(skipped@) == repeated(all.take(i as int)),
        decreases entries.len() - i,
    {
        let entry = &entries[i];
        let ghost before = all.take(i as int);
        let ghost now = all.take(i + 1);
        proof {
            assert(now.drop_last() =~= before);
            assert(now.last() == entry@);
        }
        if seen.contains(entry.file.as_str()) {
            skipped.push(entry);
            assert(models(skipped@) =~= repeated(before).push(entry@));
        } else {
            seen.insert(entry.file.clone());
            kept.push(entry);
            assert(models(kept@) =~= first_per_file(before).push(entry@));
        }
        proof {
            assert forall|file: Seq<char>| seen@.contains(file) <==> compiles(now, file) by {
                if compiles(before, file) {
                    let w = choose|w: int| 0 <= w < before.len() && (#[trigger] before[w]).file == file;
                    assert(now[w].file == file);
                }
                if file == entry@.file {
                    assert(now[i as int].file == file);
                }
                if compiles(now, file) {
                    let w = choose|w: int| 0 <= w < now.len() && (#[trigger] now[w]).file == file;
                    if w < i {
                        assert(before[w].file == file);
                    }
                }
            }
        }
        i += 1;
    }
    assert(all.take(i as int) =~= all);
    Deduplicated { kept, skipped }
}

/// The kept entries compile the files that the entries compile, no more and no
/// fewer.
pub proof fn lemma_kept_compile_the_same(entries: Seq<EntryModel>, file: Seq<char>)
    ensures
        compiles(first_per_file(entries), file) == compiles(entries, file),
    decreases entries.len(),
{
    if entries.len() > 0 {
        let before = entries.drop_last();
        let last = entries.last();
        lemma_kept_compile_the_same(before, file);
        lemma_kept_compile_the_same(before, last.file);
        let kept = first_per_file(entries);
        if compiles(entries, file) {
            let i = choose|i: int| 0 <= i < entries.len() && (#[trigger] entries[i]).file == file;
            if i < before.len() {
                assert(before[i].file == file);
                assert(compiles(before, file));
            }
            if compiles(before, file) {
                let k = choose|k: int|
                    0 <= k < first_per_file(before).len() && (#[trigger] first_per_file(
                        before,
                    )[k]).file == file;
                assert(kept[k].file == file);
            } else {
                assert(kept.last().file == file);
            }
        }
        if compiles(kept, file) {
            let k = choose|k: int| 0 <= k < kept.len() && (#[trigger] kept[k]).file == file;
            if k < first_per_file(before).len() {
                assert(first_per_file(before)[k].file == file);
                let i = choose|i: int| 0 <= i < before.len() && (#[trigger] before[i]).file == file;
                assert(entries[i].file == file);
            } else {
                assert(entries[entries.len() - 1].file == file);
            }
        }
    }
}

/// However many entries compile a file, exactly one of them is kept, and it is
/// the first of them in database order. The answer is the place `at.0` of that
/// entry among the kept ones and its place `at.1` in the database.
pub proof fn lemma_one_entry_per_file(entries: Seq<EntryModel>, file: Seq<char>) -> (at: (int, int))
    requires
        compiles(entries, file),
    ensures
        0 <= at.0 < first_per_file(entries).len(),
        0 <= at.1 < entries.len(),
        first_per_file(entries)[at.0] == entries[at.1],
        entries[at.1].file == file,
        forall|j: int| 0 <= j < at.1 ==> (#[trigger] entries[j]).file != file,
        forall|j: int|
            0 <= j < first_per_file(entries).len() && (#[trigger] first_per_file(entries)[j]).file
                == file ==> j == at.0,
    decreases entries.len(),
{
    let before = entries.drop_last();
    let last = entries.last();
    let kept = first_per_file(entries);
    if compiles(before, file) {
        let (k, i) = lemma_one_entry_per_file(before, file);
        assert(entries[i] == before[i]);
        assert forall|j: int| 0 <= j < i implies (#[trigger] entries[j]).file != file by {
            assert(before[j].file != file);
        }
        assert forall|j: int| 0 <= j < kept.len() && (#[trigger] kept[j]).file == file implies j
            == k by {
            if j < first_per_file(before).len() {
                assert(first_per_file(before)[j].file == file);
            }
        }
        (k, i)
    } else {
        let w = choose|i: int| 0 <= i < entries.len() && (#[trigger] entries[i]).file == file;
        if w < before.len() {
            assert(before[w].file == file);
        }
        assert(last.file == file);
        lemma_kept_compile_the_same(before, file);
        assert forall|j: int| 0 <= j < entries.len() - 1 implies (#[trigger] entries[j]).file
            != file by {
            assert(before[j].file != file);
        }
        assert forall|j: int| 0 <= j < kept.len() && (#[trigger] kept[j]).file == file implies j
            == kept.len() - 1 by {
            if j < first_per_file(before).len() {
                assert(first_per_file(before)[j].file == file);
            }
        }
        (kept.len() - 1, entries.len() - 1)
    }
}

} // verus!
