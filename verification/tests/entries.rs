use compile_deps::config::{check_database, ConfigError};
use compile_deps::entry::{deduplicate, CompileCommand};

fn entry(file: &str, command: &str) -> CompileCommand {
    CompileCommand {
        directory: "/work".to_string(),
        command: Some(command.to_string()),
        arguments: None,
        file: file.to_string(),
    }
}

fn commands(entries: &[&CompileCommand]) -> Vec<String> {
    entries.iter().map(|e| e.command.clone().unwrap()).collect()
}

#[test]
fn one_entry_is_kept_per_file() {
    let entries = vec![
        entry("a.c", "cc -g a.c"),
        entry("b.c", "cc -g b.c"),
        entry("a.c", "cc -O2 a.c"),
        entry("a.c", "cc -O3 a.c"),
        entry("c.c", "cc c.c"),
        entry("b.c", "cc -O2 b.c"),
    ];
    let split = deduplicate(&entries);
    assert_eq!(commands(&split.kept), vec!["cc -g a.c", "cc -g b.c", "cc c.c"]);
    assert_eq!(commands(&split.skipped), vec!["cc -O2 a.c", "cc -O3 a.c", "cc -O2 b.c"]);
}

#[test]
fn entries_that_all_share_a_file_leave_the_first() {
    let entries = vec![entry("a.c", "first"), entry("a.c", "second"), entry("a.c", "third")];
    let split = deduplicate(&entries);
    assert_eq!(commands(&split.kept), vec!["first"]);
    assert_eq!(commands(&split.skipped), vec!["second", "third"]);
}

#[test]
fn distinct_files_are_all_kept_in_order() {
    let entries = vec![entry("b.c", "1"), entry("a.c", "2"), entry("c.c", "3")];
    let split = deduplicate(&entries);
    assert_eq!(commands(&split.kept), vec!["1", "2", "3"]);
    assert!(split.skipped.is_empty());
}

#[test]
fn files_are_compared_as_text() {
    let entries = vec![entry("a.c", "1"), entry("./a.c", "2"), entry("A.c", "3")];
    let split = deduplicate(&entries);
    assert_eq!(split.kept.len(), 3);
}

#[test]
fn no_entries_no_split() {
    let entries: Vec<CompileCommand> = Vec::new();
    let split = deduplicate(&entries);
    assert!(split.kept.is_empty());
    assert!(split.skipped.is_empty());
}

#[test]
fn empty_database_is_refused() {
    assert_eq!(check_database(Vec::new()).unwrap_err(), ConfigError::Empty);
}

#[test]
fn database_with_entries_is_accepted() {
    let entries = check_database(vec![entry("a.c", "cc a.c"), entry("b.c", "cc b.c")]).unwrap();
    assert_eq!(entries.len(), 2);
    assert_eq!(entries[0].file, "a.c");
    assert_eq!(entries[1].file, "b.c");
}
