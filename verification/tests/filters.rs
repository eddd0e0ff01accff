use compile_deps::config::RunConfiguration;
use compile_deps::paths::{anchor, is_header, is_system_path, is_under};

fn config(exclude_system_headers: bool, headers_only: bool) -> RunConfiguration {
    RunConfiguration {
        database_path: "compile_commands.json".to_string(),
        exclude_system_headers,
        headers_only,
    }
}

#[test]
fn paths_below_the_system_root() {
    assert!(is_system_path("/usr/include/stdio.h"));
    assert!(is_system_path("/usr"));
    assert!(is_system_path("/usr/"));
    assert!(is_system_path("/usr/lib/gcc/x86_64/include/stddef.h"));
}

#[test]
fn paths_outside_the_system_root() {
    assert!(!is_system_path("/usrlocal/include/a.h"));
    assert!(!is_system_path("/home/usr/a.h"));
    assert!(!is_system_path("/us"));
    assert!(!is_system_path("/"));
    assert!(!is_system_path(""));
    assert!(!is_system_path("usr/include/a.h"));
    assert!(!is_system_path("/opt/usr/a.h"));
}

#[test]
fn under_compares_whole_components() {
    assert!(is_under("/a/b/c", "/a/b"));
    assert!(is_under("/a/b", "/a/b"));
    assert!(!is_under("/a/bc", "/a/b"));
    assert!(!is_under("/a", "/a/b"));
    assert!(is_under("/a", ""));
    assert!(!is_under("a", ""));
}

#[test]
fn header_extensions() {
    assert!(is_header("/work/inc/a.h"));
    assert!(is_header("/work/inc/a.hpp"));
    assert!(is_header("/work/inc/a.hh"));
    assert!(is_header("/work/inc/a.hxx"));
    assert!(is_header("a.h"));
    assert!(is_header("/work/a.tar.h"));
}

#[test]
fn other_extensions() {
    assert!(!is_header("/work/src/a.c"));
    assert!(!is_header("/work/src/a.cpp"));
    assert!(!is_header("/work/src/a.H"));
    assert!(!is_header("/work/src/a.h.c"));
    assert!(!is_header("/work/src/a."));
}

#[test]
fn paths_without_extension_are_no_headers() {
    assert!(!is_header("/usr/include/c++/11/vector"));
    assert!(!is_header("/work/.h"));
    assert!(!is_header("/work/.hidden"));
    assert!(!is_header("/work/dir.h/file"));
    assert!(!is_header("/work/dir.h/"));
    assert!(!is_header("/work/.."));
    assert!(!is_header(""));
    assert!(!is_header("/"));
}

#[test]
fn hidden_file_with_extension() {
    assert!(is_header("/work/.config.h"));
    assert!(is_header("/work/..h"));
}

#[test]
fn no_filter_keeps_everything() {
    let c = config(false, false);
    assert!(c.keeps("/usr/include/stdio.h"));
    assert!(c.keeps("/work/a.c"));
    assert!(c.keeps("/work/a.h"));
}

#[test]
fn system_filter_drops_system_paths_only() {
    let c = config(true, false);
    assert!(!c.keeps("/usr/include/stdio.h"));
    assert!(!c.keeps("/usr/src/a.c"));
    assert!(c.keeps("/work/a.c"));
    assert!(c.keeps("/work/a.h"));
    assert!(c.keeps("/usrlocal/a.h"));
}

#[test]
fn header_filter_keeps_headers_only() {
    let c = config(false, true);
    assert!(c.keeps("/usr/include/stdio.h"));
    assert!(c.keeps("/work/a.hpp"));
    assert!(!c.keeps("/work/a.c"));
    assert!(!c.keeps("/work/a.cpp"));
    assert!(!c.keeps("/work/Makefile"));
}

#[test]
fn both_filters_apply_together() {
    let c = config(true, true);
    assert!(!c.keeps("/usr/include/stdio.h"));
    assert!(!c.keeps("/usr/src/a.c"));
    assert!(!c.keeps("/work/a.c"));
    assert!(c.keeps("/work/a.h"));
}

#[test]
fn relative_path_is_read_in_the_directory() {
    assert_eq!(anchor("/work/build", "inc/a.h"), "/work/build/inc/a.h");
    assert_eq!(anchor("/work/build", "../inc/a.h"), "/work/build/../inc/a.h");
    assert_eq!(anchor("/work", ""), "/work/");
}

#[test]
fn absolute_path_stands_for_itself() {
    assert_eq!(anchor("/work/build", "/usr/include/stdio.h"), "/usr/include/stdio.h");
    assert_eq!(anchor("", "/a"), "/a");
}
