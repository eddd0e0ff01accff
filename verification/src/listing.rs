//! Reading the dependency listing that the compiler prints: a makefile rule whose
//! prerequisites stand on lines that end in a space and a backslash.

use vstd::prelude::*;
use vstd::slice::slice_subrange;
use vstd::utf8::{decode_utf8, valid_utf8};
use vstd::string::{StrSliceExecFns, StringExecFns, StringSliceAdditionalSpecFns};
use regex::Regex;
use crate::text::{chars_of, keep_present, optional_views, present, viewed};

verus! {

/// Why a listing could not be read. The listing itself is never the reason:
/// whatever bytes it holds, it is read.
#[derive(Debug, Clone, Copy, PartialEq, Eq)]
pub enum ListingError {
    /// The pattern for continuation lines does not compile.
    MalformedPattern,
}

#[verifier::external_type_specification]
#[verifier::external_body]
pub struct ExRegex(Regex);

#[verifier::external_type_specification]
#[verifier::external_body]
pub struct ExRegexError(regex::Error);

/// Whether `Regex::new` accepts a pattern.
pub uninterp spec fn pattern_compiles(pattern: Seq<char>) -> bool;

/// The pattern that `Regex::new` compiled an expression from, with the default
/// settings.
pub uninterp spec fn pattern_of(re: Regex) -> Seq<char>;

/// The text of a capture group in the leftmost match of a pattern in a line, as
/// `Regex::captures` and `Captures::get` find it: `None` where the pattern does
/// not match or the group takes no part in the match.
pub uninterp spec fn captured(pattern: Seq<char>, line: Seq<char>, group: nat) -> Option<
    Seq<char>,
>;

/// `Regex::new` compiles a pattern with the default settings. Whether it
/// succeeds depends on the pattern alone, and the expression it returns stands
/// for that pattern.
pub assume_specification[ Regex::new ](pattern: &str) -> (compiled: Result<Regex, regex::Error>)
    ensures
        compiled is Ok <==> pattern_compiles(pattern@),
        compiled matches Ok(re) ==> pattern_of(re) == pattern@,
;

/// Searches `line` with `Regex::captures` and copies out the text of one group
/// with `Captures::get`. What an expression made by `Regex::new` finds depends
/// on its pattern, the line and the group's index alone: the result is
/// `captured` of these.
#[verifier::external_body]
fn capture_group(re: &Regex, line: &str, group: usize) -> (text: Option<String>)
    ensures
        (match text {
            Some(found) => Some(found@),
            None => None,
        }) == captured(pattern_of(*re), line@, group as nat),
{
    re.captures(line).and_then(|groups| groups.get(group)).map(|found| found.as_str().to_string())
}

/// Reads bytes as text with `std::str::from_utf8`, which accepts exactly the
/// well-formed UTF-8 sequences and returns a string made of the same bytes.
#[verifier::external_body]
fn text_of(bytes: &[u8]) -> (text: Option<&str>)
    ensures
        text is Some <==> valid_utf8(bytes@),
        text matches Some(s) ==> s.spec_bytes() == bytes@,
{
    std::str::from_utf8(bytes).ok()
}

/// The byte that ends a line.
pub const NEWLINE: u8 = 10;

/// The byte that may stand before the one that ends a line.
pub const CARRIAGE_RETURN: u8 = 13;

/// The pattern of a continuation line: optional white space, a path, and a
/// space and a backslash behind it.
pub open spec fn continuation_pattern() -> Seq<char> {
    seq!['\\', 's', '*', '(', '.', '*', ')', ' ', '\\', '\\']
}

/// The byte of a space.
pub const SPACE: u8 = 32;

/// The byte of a backslash.
pub const BACKSLASH: u8 = 92;

/// The character that ends a target.
pub const COLON: char = ':';

/// Whether a line ends in the continuation marker: a space and a backslash are
/// its last two bytes.
pub open spec fn ends_in_marker(line: Seq<u8>) -> bool {
    &&& line.len() >= 2
    &&& line[line.len() - 2] == SPACE
    &&& line[line.len() - 1] == BACKSLASH
}

/// Whether a character is a blank: a space or a tab.
pub open spec fn is_blank(c: char) -> bool {
    c == ' ' || c == '\t'
}

/// The length of `text` without the blanks at its end.
pub open spec fn trimmed_len(text: Seq<char>) -> int
    decreases text.len(),
{
    if text.len() == 0 || !is_blank(text.last()) {
        text.len() as int
    } else {
        trimmed_len(text.drop_last())
    }
}

/// The first index at or after `from` that holds no blank, or the length of
/// `text` where only blanks follow.
pub open spec fn after_blanks(text: Seq<char>, from: int) -> int
    decreases text.len() - from,
{
    if from >= text.len() {
        text.len() as int
    } else if !is_blank(text[from]) {
        from
    } else {
        after_blanks(text, from + 1)
    }
}

/// The first index at or after `from` that holds a blank, or the length of
/// `text` where no blank follows.
pub open spec fn after_word(text: Seq<char>, from: int) -> int
    decreases text.len() - from,
{
    if from >= text.len() {
        text.len() as int
    } else if is_blank(text[from]) {
        from
    } else {
        after_word(text, from + 1)
    }
}

/// Where the path starts: behind the blanks at the start of the text and,
/// where the first word ends in a colon, behind that word and the blanks after
/// it. A target and its colon are so no part of the path.
pub open spec fn path_start(text: Seq<char>) -> int {
    let first = after_blanks(text, 0);
    let end = after_word(text, first);
    if first < end && text[end - 1] == COLON {
        after_blanks(text, end)
    } else {
        first
    }
}

/// The path in what a continuation line holds before its marker: the text from
/// where the path starts up to the blanks at its end, the blanks within it
/// kept. Text that holds nothing there holds no path.
pub open spec fn path_segment(text: Seq<char>) -> Option<Seq<char>> {
    if path_start(text) < trimmed_len(text) {
        Some(text.subrange(path_start(text), trimmed_len(text)))
    } else {
        None
    }
}

/// The path that a line contributes under a pattern: the path in the first
/// group, where the line matches the pattern.
pub open spec fn line_path(pattern: Seq<char>, line: Seq<char>) -> Option<Seq<char>> {
    match captured(pattern, line, 1) {
        Some(text) => path_segment(text),
        None => None,
    }
}

/// The path that a line contributes: the path that a continuation line holds
/// before its marker.
pub open spec fn continuation_path(line: Seq<char>) -> Option<Seq<char>> {
    line_path(continuation_pattern(), line)
}

/// Behind the trimmed length stand blanks only, and no blank stands just
/// before it.
pub proof fn lemma_trimmed_len(text: Seq<char>)
    ensures
        0 <= trimmed_len(text) <= text.len(),
        forall|i: int| trimmed_len(text) <= i < text.len() ==> is_blank(#[trigger] text[i]),
        trimmed_len(text) > 0 ==> !is_blank(text[trimmed_len(text) - 1]),
    decreases text.len(),
{
    if text.len() > 0 && is_blank(text.last()) {
        let before = text.drop_last();
        lemma_trimmed_len(before);
        assert forall|i: int| trimmed_len(text) <= i < text.len() implies is_blank(
            #[trigger] text[i],
        ) by {
            if i < before.len() {
                assert(is_blank(before[i]));
            }
        }
        assert(trimmed_len(text) > 0 ==> text[trimmed_len(text) - 1] == before[trimmed_len(text) - 1]);
    }
}

/// Blanks are passed over up to the first character that is none.
pub proof fn lemma_after_blanks(text: Seq<char>, from: int)
    requires
        0 <= from <= text.len(),
    ensures
        from <= after_blanks(text, from) <= text.len(),
        after_blanks(text, from) < text.len() ==> !is_blank(text[after_blanks(text, from)]),
        forall|i: int| from <= i < after_blanks(text, from) ==> is_blank(#[trigger] text[i]),
    decreases text.len() - from,
{
    if from < text.len() && is_blank(text[from]) {
        lemma_after_blanks(text, from + 1);
    }
}

/// A word is passed over up to the first blank.
pub proof fn lemma_after_word(text: Seq<char>, from: int)
    requires
        0 <= from <= text.len(),
    ensures
        from <= after_word(text, from) <= text.len(),
        after_word(text, from) < text.len() ==> is_blank(text[after_word(text, from)]),
        forall|i: int| from <= i < after_word(text, from) ==> !is_blank(#[trigger] text[i]),
    decreases text.len() - from,
{
    if from < text.len() && !is_blank(text[from]) {
        lemma_after_word(text, from + 1);
    }
}

/// A path neither starts nor ends in a blank, and is not empty.
pub proof fn lemma_path_segment(text: Seq<char>)
    ensures
        0 <= path_start(text) <= text.len(),
        path_segment(text) matches Some(path) ==> path.len() > 0 && !is_blank(path[0])
            && !is_blank(path.last()),
{
    lemma_trimmed_len(text);
    lemma_after_blanks(text, 0);
    let first = after_blanks(text, 0);
    lemma_after_word(text, first);
    lemma_after_blanks(text, after_word(text, first));
}

/// The index of the first newline at or after `start`, or the length of `bytes`
/// where none follows.
pub open spec fn line_end(bytes: Seq<u8>, start: int) -> int
    decreases bytes.len() - start,
{
    if start >= bytes.len() {
        bytes.len() as int
    } else if bytes[start] == NEWLINE {
        start
    } else {
        line_end(bytes, start + 1)
    }
}

/// A line without the carriage return at its end, if it has one.
pub open spec fn without_carriage_return(line: Seq<u8>) -> Seq<u8> {
    if line.len() > 0 && line.last() == CARRIAGE_RETURN {
        line.drop_last()
    } else {
        line
    }
}

/// The lines of `bytes` from `start` on. A line ends at a newline, which is no
/// part of it, nor is a carriage return just before that newline. Bytes after the
/// last newline form a last line, kept as it is; no line follows a final newline.
pub open spec fn lines_from(bytes: Seq<u8>, start: int) -> Seq<Seq<u8>>
    decreases bytes.len() - start,
    via lines_from_decreases
{
    if start < 0 || start >= bytes.len() {
        seq![]
    } else {
        let end = line_end(bytes, start);
        if end >= bytes.len() {
            seq![bytes.subrange(start, end)]
        } else {
            seq![without_carriage_return(bytes.subrange(start, end))] + lines_from(bytes, end + 1)
        }
    }
}

#[via_fn]
proof fn lines_from_decreases(bytes: Seq<u8>, start: int) {
    if 0 <= start < bytes.len() {
        lemma_line_end_bounds(bytes, start);
    }
}

/// A line ends at or after its start, and within the bytes.
pub proof fn lemma_line_end_bounds(bytes: Seq<u8>, start: int)
    requires
        0 <= start <= bytes.len(),
    ensures
        start <= line_end(bytes, start) <= bytes.len(),
        line_end(bytes, start) < bytes.len() ==> bytes[line_end(bytes, start)] == NEWLINE,
        forall|k: int| start <= k < line_end(bytes, start) ==> bytes[k] != NEWLINE,
    decreases bytes.len() - start,
{
    if start < bytes.len() && bytes[start] != NEWLINE {
        lemma_line_end_bounds(bytes, start + 1);
    }
}

/// The lines of a listing.
pub open spec fn lines_of(bytes: Seq<u8>) -> Seq<Seq<u8>> {
    lines_from(bytes, 0)
}

/// What a line contributes under a pattern: the path of its text, where the
/// line ends in the continuation marker and its text matches the pattern. A
/// line that ends otherwise contributes nothing, nor does one that is not
/// UTF-8 text.
pub open spec fn contribution(pattern: Seq<char>, line: Seq<u8>) -> Option<Seq<char>> {
    if ends_in_marker(line) && valid_utf8(line) {
        line_path(pattern, decode_utf8(line))
    } else {
        None
    }
}

/// What each line contributes under a pattern: a path, or nothing.
pub open spec fn contributions(pattern: Seq<char>, lines: Seq<Seq<u8>>) -> Seq<
    Option<Seq<char>>,
> {
    Seq::new(lines.len(), |i: int| contribution(pattern, lines[i]))
}

/// What a listing yields under a pattern: the paths of the lines that end in
/// the continuation marker and match the pattern, in line order. The one failure is a pattern that does not compile, which is
/// reported whatever the listing holds; under a pattern that compiles every
/// listing is read.
pub open spec fn paths_matching(pattern: Seq<char>, stdout: Seq<u8>) -> Result<
    Seq<Seq<char>>,
    ListingError,
> {
    if !pattern_compiles(pattern) {
        Err(ListingError::MalformedPattern)
    } else {
        Ok(present(contributions(pattern, lines_of(stdout))))
    }
}

/// What a listing yields: the paths of its continuation lines in line order, or
/// the reason it cannot be read.
pub open spec fn listed_paths(stdout: Seq<u8>) -> Result<Seq<Seq<char>>, ListingError> {
    paths_matching(continuation_pattern(), stdout)
}

/// Finds where the line that starts at `start` ends.
fn find_line_end(bytes: &[u8], start: usize) -> (end: usize)
    requires
        start <= bytes.len(),
    ensures
        end == line_end(bytes@, start as int),
        start <= end <= bytes.len(),
{
    let mut i: usize = start;
    while i < bytes.len() && bytes[i] != NEWLINE
        invariant
            start <= i <= bytes.len(),
            line_end(bytes@, i as int) == line_end(bytes@, start as int),
        decreases bytes.len() - i,
    {
        i += 1;
    }
    i
}

/// Whether a character is a blank.
fn blank(c: char) -> (b: bool)
    ensures
        b == is_blank(c),
{
    c == ' ' || c == '\t'
}

/// Passes over the blanks from `from` on.
fn skip_blanks(chars: &Vec<char>, from: usize) -> (at: usize)
    requires
        from <= chars.len(),
    ensures
        at == after_blanks(chars@, from as int),
        from <= at <= chars.len(),
{
    let mut i: usize = from;
    while i < chars.len() && blank(chars[i])
        invariant
            from <= i <= chars.len(),
            after_blanks(chars@, i as int) == after_blanks(chars@, from as int),
        decreases chars.len() - i,
    {
        i += 1;
    }
    i
}

/// Passes over the word from `from` on.
fn skip_word(chars: &Vec<char>, from: usize) -> (at: usize)
    requires
        from <= chars.len(),
    ensures
        at == after_word(chars@, from as int),
        from <= at <= chars.len(),
{
    let mut i: usize = from;
    while i < chars.len() && !blank(chars[i])
        invariant
            from <= i <= chars.len(),
            after_word(chars@, i as int) == after_word(chars@, from as int),
        decreases chars.len() - i,
    {
        i += 1;
    }
    i
}

/// Finds where the text ends when the blanks at its end are left out.
fn trimmed_end(chars: &Vec<char>) -> (end: usize)
    ensures
        end == trimmed_len(chars@),
        end <= chars.len(),
{
    let mut end: usize = chars.len();
    assert(chars@.take(end as int) =~= chars@);
    while end > 0 && blank(chars[end - 1])
        invariant
            end <= chars.len(),
            trimmed_len(chars@) == trimmed_len(chars@.take(end as int)),
        decreases end,
    {
        assert(chars@.take(end as int).drop_last() =~= chars@.take(end - 1));
        end -= 1;
    }
    assert(trimmed_len(chars@) == end) by {
        if end > 0 {
            assert(chars@.take(end as int).last() == chars[end - 1]);
        }
    }
    end
}

/// Picks the path out of what a continuation line holds before its marker: the
/// text without a target before it and without blanks around it. Blanks within
/// the path stay.
pub fn find_path(text: &str) -> (path: Option<String>)
    ensures
        match path {
            Some(found) => path_segment(text@) == Some(found@),
            None => path_segment(text@) is None,
        },
        path matches Some(found) ==> found@.len() > 0 && !is_blank(found@[0]) && !is_blank(
            found@.last(),
        ),
{
    proof {
        lemma_path_segment(text@);
    }
    let chars = chars_of(text);
    let first = skip_blanks(&chars, 0);
    let end = skip_word(&chars, first);
    let start = if first < end && chars[end - 1] == COLON {
        skip_blanks(&chars, end)
    } else {
        first
    };
    let stop = trimmed_end(&chars);
    if start < stop {
        Some(String::from_str(text.substring_char(start, stop)))
    } else {
        None
    }
}

/// Whether a line ends in the continuation marker.
fn has_marker(line: &[u8]) -> (marked: bool)
    ensures
        marked == ends_in_marker(line@),
{
    line.len() >= 2 && line[line.len() - 2] == SPACE && line[line.len() - 1] == BACKSLASH
}

/// The continuation pattern as text.
fn pattern_text() -> (text: &'static str)
    ensures
        text@ == continuation_pattern(),
{
    let text = "\\s*(.*) \\\\";
    proof {
        reveal_strlit("\\s*(.*) \\\\");
        assert(text@ =~= continuation_pattern());
    }
    text
}

/// Reads a listing line by line: each line that ends in the continuation
/// marker and matches the pattern gives the path in its first group, in line
/// order. It fails on a pattern that does not compile, and on nothing else.
pub fn parse_with(pattern: &str, stdout: &[u8]) -> (result: Result<Vec<String>, ListingError>)
    ensures
        viewed(result) == paths_matching(pattern@, stdout@),
        result is Ok <==> pattern_compiles(pattern@),
{
    let re = match Regex::new(pattern) {
        Ok(re) => re,
        Err(_) => {
            return Err(ListingError::MalformedPattern);
        },
    };
    let ghost lines = lines_of(stdout@);
    let ghost done: Seq<Seq<u8>> = seq![];
    let mut found: Vec<Option<String>> = Vec::new();
    let mut start: usize = 0;
    assert(optional_views(found@) =~= contributions(pattern@, done));
    while start < stdout.len()
        invariant
            start <= stdout.len(),
            lines == lines_of(stdout@),
            lines == done + lines_from(stdout@, start as int),
            optional_views(found@) == contributions(pattern@, done),
            pattern_of(re) == pattern@,
            pattern_compiles(pattern@),
        decreases stdout.len() - start,
    {
        let end = find_line_end(stdout, start);
        let terminated = end < stdout.len();
        let line = if terminated && end > start && stdout[end - 1] == CARRIAGE_RETURN {
            slice_subrange(stdout, start, end - 1)
        } else {
            slice_subrange(stdout, start, end)
        };
        let next: usize = if terminated {
            end + 1
        } else {
            end
        };
        proof {
            let whole = stdout@.subrange(start as int, end as int);
            if terminated {
                assert(line@ =~= without_carriage_return(whole));
            } else {
                assert(line@ =~= whole);
                assert(lines_from(stdout@, next as int) =~= seq![]);
            }
            assert(lines_from(stdout@, start as int) =~= seq![line@] + lines_from(
                stdout@,
                next as int,
            ));
            assert(lines =~= done.push(line@) + lines_from(stdout@, next as int));
        }
        let ghost before = optional_views(found@);
        let path = if !has_marker(line) {
            None
        } else {
            match text_of(line) {
                None => None,
                Some(text) => {
                    proof {
                        vstd::utf8::encode_utf8_decode_utf8(text@);
                    }
                    match capture_group(&re, text, 1) {
                        Some(held) => find_path(held.as_str()),
                        None => None,
                    }
                },
            }
        };
        found.push(path);
        proof {
            assert(optional_views(found@) =~= before.push(contribution(pattern@, line@)));
            assert(optional_views(found@) =~= contributions(pattern@, done.push(line@)));
            done = done.push(line@);
        }
        start = next;
    }
    assert(lines =~= done);
    Ok(keep_present(found))
}

/// Reads a dependency listing: each continuation line gives the path that
/// stands before its marker, in line order. A listing without such lines gives
/// no path, which is no error, and no listing is refused for what it holds: the
/// one failure is a continuation pattern that does not compile.
pub fn parse_dependency(stdout: &[u8]) -> (result: Result<Vec<String>, ListingError>)
    ensures
        viewed(result) == listed_paths(stdout@),
        result is Ok <==> pattern_compiles(continuation_pattern()),
{
    parse_with(pattern_text(), stdout)
}

/// Once the continuation pattern compiles, every listing is read: whatever
/// bytes it holds, the result is a list of paths and no error.
pub proof fn lemma_every_listing_is_read(stdout: Seq<u8>)
    requires
        pattern_compiles(continuation_pattern()),
    ensures
        listed_paths(stdout) is Ok,
{
}

/// A listing in which no line ends in the continuation marker names no path,
/// and that is no error.
pub proof fn lemma_no_continuation_lines(stdout: Seq<u8>)
    requires
        pattern_compiles(continuation_pattern()),
        forall|i: int|
            0 <= i < lines_of(stdout).len() ==> !ends_in_marker(#[trigger] lines_of(stdout)[i]),
    ensures
        listed_paths(stdout) == Ok::<Seq<Seq<char>>, ListingError>(seq![]),
{
    lemma_nothing_present(contributions(continuation_pattern(), lines_of(stdout)));
}

/// Where no item is there, none is kept.
pub proof fn lemma_nothing_present(items: Seq<Option<Seq<char>>>)
    requires
        forall|i: int| 0 <= i < items.len() ==> items[i] is None,
    ensures
        present(items) == Seq::<Seq<char>>::empty(),
    decreases items.len(),
{
    if items.len() > 0 {
        lemma_nothing_present(items.drop_last());
    }
}

} // verus!
