//! What the text of a canonical path tells: whether it lies in the system
//! include tree, and what extension its file name carries.

use vstd::prelude::*;
use vstd::string::{StrSliceExecFns, StringExecFns};
use crate::text::chars_of;

verus! {

/// The character that parts the components of a path.
pub const SEPARATOR: char = '/';

/// The character that parts a file name from its extension.
pub const DOT: char = '.';

/// The character that the extension of a header file begins with.
pub const HEADER_MARK: char = 'h';

/// The directory below which headers count as system headers.
pub open spec fn system_root() -> Seq<char> {
    seq!['/', 'u', 's', 'r']
}

/// Whether `path` is `root` or lies below it: `root` is its beginning, and a
/// component ends where `root` ends.
pub open spec fn lies_under(path: Seq<char>, root: Seq<char>) -> bool {
    &&& root.len() <= path.len()
    &&& path.take(root.len() as int) == root
    &&& (path.len() == root.len() || path[root.len() as int] == SEPARATOR)
}

/// Whether a path starts at the root of the file system.
pub open spec fn is_absolute(path: Seq<char>) -> bool {
    path.len() > 0 && path[0] == SEPARATOR
}

/// The path that `path` names when read in `directory`: itself where it is
/// absolute, else the directory, a separator and the path.
pub open spec fn anchored(directory: Seq<char>, path: Seq<char>) -> Seq<char> {
    if is_absolute(path) {
        path
    } else {
        directory.push(SEPARATOR) + path
    }
}

/// The greatest index at which `text` holds `mark`, or -1 where it holds none.
pub open spec fn last_index(text: Seq<char>, mark: char) -> int
    decreases text.len(),
{
    if text.len() == 0 {
        -1
    } else if text.last() == mark {
        text.len() - 1
    } else {
        last_index(text.drop_last(), mark)
    }
}

/// The last component of a path: what follows its last separator.
pub open spec fn file_name(path: Seq<char>) -> Seq<char> {
    path.skip(last_index(path, SEPARATOR) + 1)
}

/// The extension of a path: what follows the last dot of its file name. A file
/// name without a dot has none, nor has one whose only dot is its first
/// character, nor the name `..`.
pub open spec fn extension(path: Seq<char>) -> Option<Seq<char>> {
    let name = file_name(path);
    let dot = last_index(name, DOT);
    if dot <= 0 || name == seq![DOT, DOT] {
        None
    } else {
        Some(name.skip(dot + 1))
    }
}

/// Whether a path has an extension that begins with the header mark, as `.h`,
/// `.hh` and `.hpp` do.
pub open spec fn has_header_extension(path: Seq<char>) -> bool {
    match extension(path) {
        Some(ext) => ext.len() > 0 && ext[0] == HEADER_MARK,
        None => false,
    }
}

/// Finds the last `mark` at or after `start`.
fn find_last(chars: &Vec<char>, start: usize, mark: char) -> (found: Option<usize>)
    requires
        start <= chars.len(),
    ensures
        match found {
            Some(at) => start <= at < chars.len() && chars[at as int] == mark && last_index(
                chars@.skip(start as int),
                mark,
            ) == at - start,
            None => last_index(chars@.skip(start as int), mark) == -1,
        },
{
    let ghost tail = chars@.skip(start as int);
    let mut end: usize = chars.len();
    assert(tail.take(end - start) =~= tail);
    while end > start
        invariant
            start <= end <= chars.len(),
            tail == chars@.skip(start as int),
            last_index(tail, mark) == last_index(tail.take(end - start), mark),
        decreases end,
    {
        assert(tail.take(end - start).last() == chars[end - 1]);
        if chars[end - 1] == mark {
            return Some(end - 1);
        }
        assert(tail.take(end - start).drop_last() =~= tail.take(end - 1 - start));
        end -= 1;
    }
    None
}

/// Whether `path` is `root` or lies below it.
pub fn is_under(path: &str, root: &str) -> (under: bool)
    ensures
        under == lies_under(path@, root@),
{
    let whole = chars_of(path);
    let head = chars_of(root);
    if head.len() > whole.len() {
        return false;
    }
    let mut i: usize = 0;
    while i < head.len()
        invariant
            i <= head.len() <= whole.len(),
            whole@ == path@,
            head@ == root@,
            forall|k: int| 0 <= k < i ==> whole[k] == head[k],
        decreases head.len() - i,
    {
        if whole[i] != head[i] {
            assert(whole@.take(head.len() as int)[i as int] == whole[i as int]);
            assert(whole@.take(head.len() as int) != head@);
            return false;
        }
        i += 1;
    }
    assert(whole@.take(head.len() as int) =~= head@);
    whole.len() == head.len() || whole[head.len()] == SEPARATOR
}

/// Whether `path` lies in the system include tree.
pub fn is_system_path(path: &str) -> (system: bool)
    ensures
        system == lies_under(path@, system_root()),
{
    proof {
        reveal_strlit("/usr");
        assert("/usr"@ =~= system_root());
    }
    is_under(path, "/usr")
}

/// Whether `path` names a header file by its extension.
pub fn is_header(path: &str) -> (header: bool)
    ensures
        header == has_header_extension(path@),
{
    let chars = chars_of(path);
    let start: usize = match find_last(&chars, 0, SEPARATOR) {
        Some(at) => at + 1,
        None => 0,
    };
    assert(chars@.skip(0) =~= chars@);
    let ghost name = file_name(path@);
    assert(name == chars@.skip(start as int));
    match find_last(&chars, start, DOT) {
        None => false,
        Some(at) => {
            if at == start {
                false
            } else if chars.len() - start == 2 && chars[start] == DOT {
                assert(name[0] == chars[start as int] && name[1] == chars[start + 1]);
                assert(name =~= seq![DOT, DOT]);
                false
            } else {
                assert(name != seq![DOT, DOT]) by {
                    if name == seq![DOT, DOT] {
                        assert(name.len() == 2);
                        assert(name[0] == DOT);
                    }
                }
                assert(at + 1 < chars.len() ==> name.skip(at - start + 1)[0] == chars[at + 1]);
                at + 1 < chars.len() && chars[at + 1] == HEADER_MARK
            }
        },
    }
}

/// Reads a path of a listing in the working directory of its compilation. The
/// compiler names files relative to the directory it ran in, so that is where
/// the caller looks for them.
pub fn anchor(directory: &str, path: &str) -> (full: String)
    ensures
        full@ == anchored(directory@, path@),
{
    if !path.is_empty() && path.get_char(0) == SEPARATOR {
        String::from_str(path)
    } else {
        proof {
            reveal_strlit("/");
        }
        let mut full = String::from_str(directory);
        full.append("/");
        full.append(path);
        assert(full@ =~= anchored(directory@, path@));
        full
    }
}

} // verus!
