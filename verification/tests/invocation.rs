use compile_deps::entry::CompileCommand;
use compile_deps::invocation::{
    base_arguments, build_invocation, can_rewrite, rewrite_invocation, InvocationError,
};

fn strings(items: &[&str]) -> Vec<String> {
    items.iter().map(|s| s.to_string()).collect()
}

fn entry(command: Option<&str>, arguments: Option<&[&str]>) -> CompileCommand {
    CompileCommand {
        directory: "/work".to_string(),
        command: command.map(|c| c.to_string()),
        arguments: arguments.map(strings),
        file: "a.c".to_string(),
    }
}

#[test]
fn rewrite_drops_output_pair_and_adds_flag() {
    let args = strings(&["cc", "-c", "a.c", "-o", "a.o", "-Iinc"]);
    assert_eq!(rewrite_invocation(args), strings(&["cc", "-M", "-c", "a.c", "-Iinc"]));
}

#[test]
fn rewrite_without_output_flag_only_adds_flag() {
    let args = strings(&["cc", "-c", "a.c"]);
    assert_eq!(rewrite_invocation(args), strings(&["cc", "-M", "-c", "a.c"]));
}

#[test]
fn rewrite_of_bare_executable() {
    assert_eq!(rewrite_invocation(strings(&["cc"])), strings(&["cc", "-M"]));
}

#[test]
fn rewrite_removes_only_first_output_pair() {
    let args = strings(&["cc", "-o", "a.o", "a.c", "-o", "b.o"]);
    assert_eq!(rewrite_invocation(args), strings(&["cc", "-M", "a.c", "-o", "b.o"]));
}

#[test]
fn output_flag_in_last_place_cannot_be_rewritten() {
    assert!(!can_rewrite(&strings(&["cc", "a.c", "-o"])));
    assert!(!can_rewrite(&strings(&["cc", "-o"])));
    assert_eq!(build_invocation(&entry(None, Some(&["cc", "a.c", "-o"]))), None);
    assert_eq!(build_invocation(&entry(Some("cc -c a.c -o"), None)), None);
}

#[test]
fn only_the_first_output_flag_needs_a_path() {
    assert!(can_rewrite(&strings(&["cc", "-o", "a.o", "-o"])));
    assert_eq!(
        rewrite_invocation(strings(&["cc", "-o", "a.o", "-o"])),
        strings(&["cc", "-M", "-o"])
    );
}

#[test]
fn vectors_that_can_be_rewritten() {
    assert!(can_rewrite(&strings(&["cc"])));
    assert!(can_rewrite(&strings(&["cc", "-c", "a.c", "-o", "a.o"])));
    assert!(can_rewrite(&strings(&["-o"])));
    assert!(can_rewrite(&strings(&["-o", "x", "y"])));
    assert!(!can_rewrite(&Vec::new()));
}

#[test]
fn rewrite_keeps_executable_named_like_the_flag() {
    let args = strings(&["-o", "x", "y"]);
    assert_eq!(rewrite_invocation(args), strings(&["-o", "-M", "x", "y"]));
}

#[test]
fn rewrite_keeps_flags_that_only_start_like_output() {
    let args = strings(&["cc", "-ofoo", "a.c", "-O2"]);
    assert_eq!(rewrite_invocation(args), strings(&["cc", "-M", "-ofoo", "a.c", "-O2"]));
}

#[test]
fn entry_without_command_or_arguments_is_refused() {
    assert_eq!(build_invocation(&entry(None, None)), Some(Err(InvocationError::MissingCommand)));
    assert_eq!(base_arguments(&entry(None, None)), Err(InvocationError::MissingCommand));
}

#[test]
fn invocation_from_arguments() {
    let e = entry(None, Some(&["cc", "-c", "a.c", "-o", "a.o", "-Iinc"]));
    assert_eq!(build_invocation(&e), Some(Ok(strings(&["cc", "-M", "-c", "a.c", "-Iinc"]))));
}

#[test]
fn invocation_from_command_string() {
    let e = entry(Some("cc -c 'my file.c' -o out.o -DNAME=\"a b\""), None);
    assert_eq!(
        build_invocation(&e),
        Some(Ok(strings(&["cc", "-M", "-c", "my file.c", "-DNAME=a b"])))
    );
}

#[test]
fn command_string_is_split_into_words() {
    let e = entry(Some("gcc  -I inc\t-c a.c"), None);
    assert_eq!(base_arguments(&e), Ok(strings(&["gcc", "-I", "inc", "-c", "a.c"])));
}

#[test]
fn arguments_are_preferred_over_command() {
    let e = entry(Some("clang -c b.c"), Some(&["cc", "-c", "a.c"]));
    assert_eq!(base_arguments(&e), Ok(strings(&["cc", "-c", "a.c"])));
    assert_eq!(build_invocation(&e), Some(Ok(strings(&["cc", "-M", "-c", "a.c"]))));
}

#[test]
fn unbalanced_quote_is_a_shell_parse_failure() {
    let e = entry(Some("cc -c 'a.c"), None);
    assert_eq!(base_arguments(&e), Err(InvocationError::ShellParseFailure));
    assert_eq!(build_invocation(&e), Some(Err(InvocationError::ShellParseFailure)));
}

#[test]
fn unbalanced_double_quote_is_a_shell_parse_failure() {
    let e = entry(Some("cc \"-c a.c"), None);
    assert_eq!(build_invocation(&e), Some(Err(InvocationError::ShellParseFailure)));
}

#[test]
fn empty_argument_list_names_no_executable() {
    let e = entry(Some("cc -c a.c"), Some(&[]));
    assert_eq!(base_arguments(&e), Ok(Vec::new()));
    assert_eq!(build_invocation(&e), None);
}

#[test]
fn blank_command_names_no_executable() {
    assert_eq!(build_invocation(&entry(Some("   "), None)), None);
    assert_eq!(build_invocation(&entry(Some(""), None)), None);
}
