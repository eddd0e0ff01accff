use compile_deps::listing::{find_path, parse_dependency, parse_with, ListingError};
use compile_deps::text::keep_present;

fn strings(items: &[&str]) -> Vec<String> {
    items.iter().map(|s| s.to_string()).collect()
}

#[test]
fn listing_names_the_paths_of_its_continuation_lines() {
    let stdout = "a.o: src/a.c \\\n  inc/a.h \\\n  inc/b.h\n";
    assert_eq!(parse_dependency(stdout.as_bytes()), Ok(strings(&["src/a.c", "inc/a.h"])));
}

#[test]
fn existing_paths_are_resolved_in_line_order() {
    let stdout = "a.o: src/a.c \\\n  inc/a.h \\\n  inc/b.h\n";
    let candidates = parse_dependency(stdout.as_bytes()).unwrap();
    assert_eq!(candidates, strings(&["src/a.c", "inc/a.h"]));
    let probes = vec![Some("/work/src/a.c".to_string()), Some("/work/inc/a.h".to_string())];
    assert_eq!(keep_present(probes), strings(&["/work/src/a.c", "/work/inc/a.h"]));
}

#[test]
fn missing_paths_are_dropped() {
    let stdout = "a.o: src/a.c \\\n  inc/a.h \\\n  inc/b.h \\\n  inc/c.h\n";
    let candidates = parse_dependency(stdout.as_bytes()).unwrap();
    assert_eq!(candidates, strings(&["src/a.c", "inc/a.h", "inc/b.h"]));
    let probes = vec![Some("/work/src/a.c".to_string()), Some("/work/inc/a.h".to_string()), None];
    assert_eq!(keep_present(probes), strings(&["/work/src/a.c", "/work/inc/a.h"]));
}

#[test]
fn listing_without_continuation_lines_is_empty() {
    assert_eq!(parse_dependency(b"a.o: a.c\n"), Ok(Vec::new()));
    assert_eq!(parse_dependency(b"a.o: a.c"), Ok(Vec::new()));
    assert_eq!(parse_dependency(b"\n\n"), Ok(Vec::new()));
}

#[test]
fn empty_listing_is_empty() {
    assert_eq!(parse_dependency(b""), Ok(Vec::new()));
}

#[test]
fn backslash_without_space_is_no_marker() {
    assert_eq!(parse_dependency(b"inc/a.h\\\n"), Ok(Vec::new()));
}

#[test]
fn carriage_return_before_newline_is_no_part_of_the_line() {
    let stdout = "a.o: a.c \\\r\n inc/a.h \\\r\n inc/b.h\r\n";
    assert_eq!(parse_dependency(stdout.as_bytes()), Ok(strings(&["a.c", "inc/a.h"])));
}

#[test]
fn last_line_without_newline_counts() {
    assert_eq!(parse_dependency(b"a.o: a.c \\\n  inc/a.h \\"), Ok(strings(&["a.c", "inc/a.h"])));
}

#[test]
fn target_alone_on_its_line_gives_nothing() {
    assert_eq!(parse_dependency(b"a.o: \\\n  inc/a.h \\\n"), Ok(strings(&["inc/a.h"])));
    assert_eq!(parse_dependency(b"a.o: \\\n"), Ok(Vec::new()));
}

#[test]
fn line_with_several_words_is_one_candidate() {
    assert_eq!(
        parse_dependency(b"a.o: a.c inc/a.h \\\n  my dir/b.h \\\n"),
        Ok(strings(&["a.c inc/a.h", "my dir/b.h"]))
    );
}

#[test]
fn marker_must_stand_at_the_end_of_the_line() {
    assert_eq!(parse_dependency(b"inc/a.h \\ inc/b.h\n"), Ok(Vec::new()));
    assert_eq!(parse_dependency(b"inc/a.h \\ \n"), Ok(Vec::new()));
    assert_eq!(parse_dependency(b"inc/a.h \\\t\n"), Ok(Vec::new()));
    assert_eq!(parse_dependency(b"inc/a.h \\ inc/b.h \\\n"), Ok(strings(&["inc/a.h \\ inc/b.h"])));
    assert_eq!(parse_dependency(b"inc/a.h \\\r"), Ok(Vec::new()));
}

#[test]
fn line_with_marker_only_gives_nothing() {
    assert_eq!(parse_dependency(b" \\\n   \\\n"), Ok(Vec::new()));
}

#[test]
fn tabs_are_blanks() {
    assert_eq!(parse_dependency(b"\tinc/a.h \\\nx.o:\tb.c\t \\\n"), Ok(strings(&["inc/a.h", "b.c"])));
}

#[test]
fn line_that_is_not_text_gives_nothing() {
    assert_eq!(parse_dependency(&[0xff]), Ok(Vec::new()));
    assert_eq!(parse_dependency(&[b'a', 0xff, b' ', b'\\', b'\n']), Ok(Vec::new()));
    assert_eq!(parse_dependency(&[0xc3, b'\n', 0xa9, b' ', b'\\', b'\n']), Ok(Vec::new()));
}

#[test]
fn lines_around_one_that_is_not_text_are_still_read() {
    let mut stdout = b"a.o: a.c \\\n".to_vec();
    stdout.extend_from_slice(&[b' ', 0xff, 0xfe, b'.', b'h', b' ', b'\\', b'\n']);
    stdout.extend_from_slice(b"  inc/a.h \\\n  inc/b.h\n");
    assert_eq!(parse_dependency(&stdout), Ok(strings(&["a.c", "inc/a.h"])));
    assert_eq!(parse_dependency(&[b'a', b' ', b'\\', b'\n', 0xc3]), Ok(strings(&["a"])));
}

#[test]
fn every_listing_is_read() {
    let mut seed: u32 = 2463534242;
    for round in 0..200 {
        let mut stdout: Vec<u8> = Vec::new();
        for _ in 0..(round % 40) {
            seed ^= seed << 13;
            seed ^= seed >> 17;
            seed ^= seed << 5;
            stdout.push(match seed % 7 {
                0 => b'\n',
                1 => b' ',
                2 => b'\\',
                _ => (seed >> 8) as u8,
            });
        }
        assert!(parse_dependency(&stdout).is_ok());
    }
}

#[test]
fn listing_with_wide_characters() {
    let stdout = "a.o: s\u{e9}.c \\\n  \u{4e2d}/\u{6587}.h \\\n";
    assert_eq!(parse_dependency(stdout.as_bytes()), Ok(strings(&["s\u{e9}.c", "\u{4e2d}/\u{6587}.h"])));
}

#[test]
fn path_is_the_text_without_a_target() {
    assert_eq!(find_path("a.o: src/a.c"), Some("src/a.c".to_string()));
    assert_eq!(find_path("a.o:\t  src/a.c"), Some("src/a.c".to_string()));
    assert_eq!(find_path("inc/a.h"), Some("inc/a.h".to_string()));
    assert_eq!(find_path("dir/a.o: b.o: c.c"), Some("b.o: c.c".to_string()));
}

#[test]
fn path_keeps_the_blanks_within_it() {
    assert_eq!(find_path("a b"), Some("a b".to_string()));
    assert_eq!(find_path("a b c"), Some("a b c".to_string()));
    assert_eq!(find_path("a.o: a.c inc/a.h"), Some("a.c inc/a.h".to_string()));
    assert_eq!(find_path("my dir/a\tb.h"), Some("my dir/a\tb.h".to_string()));
}

#[test]
fn path_loses_the_blanks_around_it() {
    assert_eq!(find_path("inc/a.h  \t"), Some("inc/a.h".to_string()));
    assert_eq!(find_path(" \t inc/a.h"), Some("inc/a.h".to_string()));
    assert_eq!(find_path("  a.o:  a b  "), Some("a b".to_string()));
}

#[test]
fn colon_within_or_apart_from_the_first_word_is_no_target() {
    assert_eq!(find_path("a.o:src/a.c"), Some("a.o:src/a.c".to_string()));
    assert_eq!(find_path("a.o : src/a.c"), Some("a.o : src/a.c".to_string()));
    assert_eq!(find_path("src/a.c b:"), Some("src/a.c b:".to_string()));
}

#[test]
fn target_alone_holds_no_path() {
    assert_eq!(find_path("a.o:"), None);
    assert_eq!(find_path("a.o:  \t"), None);
    assert_eq!(find_path(":"), None);
}

#[test]
fn text_without_a_word_holds_no_path() {
    assert_eq!(find_path(""), None);
    assert_eq!(find_path("  \t "), None);
}

#[test]
fn keep_present_keeps_order() {
    let items = vec![None, Some("b".to_string()), None, Some("a".to_string()), Some("b".to_string())];
    assert_eq!(keep_present(items), strings(&["b", "a", "b"]));
    assert_eq!(keep_present(Vec::new()), Vec::<String>::new());
    assert_eq!(keep_present(vec![None, None]), Vec::<String>::new());
}

#[test]
fn pattern_that_does_not_compile_is_reported() {
    assert_eq!(parse_with("(", b"a.o: a.c \\\n"), Err(ListingError::MalformedPattern));
    assert_eq!(parse_with("[", b""), Err(ListingError::MalformedPattern));
    assert_eq!(parse_with("(", &[0xff]), Err(ListingError::MalformedPattern));
}

#[test]
fn other_pattern_other_paths() {
    let stdout = b"dep inc/a.h \\\nskip inc/b.h \\\ndep x inc/c.h   \\\ndep inc/d.h\n";
    assert_eq!(
        parse_with("^dep (.*) \\\\$", stdout),
        Ok(strings(&["inc/a.h", "x inc/c.h"]))
    );
}

#[test]
fn other_pattern_is_tried_on_continuation_lines_only() {
    assert_eq!(parse_with("(.*)", b"inc/a.h\ninc/b.h x\n"), Ok(Vec::new()));
    assert_eq!(parse_with("(.*) .$", b"inc/a.h\ninc/b.h \\\n"), Ok(strings(&["inc/b.h"])));
}

#[test]
fn pattern_without_group_gives_nothing() {
    assert_eq!(parse_with("a", b"a\nb\n"), Ok(Vec::new()));
}
