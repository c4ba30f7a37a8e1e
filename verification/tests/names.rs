use std::path::PathBuf;

use lib::config::{NAME_PREFIX, PIDFILE_SUFFIX, SOCKET_SUFFIX};
use lib::names::{
    cmdname, cmdname_of, default_pidfile_path, default_socket_path, discover_one_in,
    discover_pidfile, discover_socket,
};

fn names(items: &[&str]) -> Vec<Vec<u8>> {
    items.iter().map(|s| s.as_bytes().to_vec()).collect()
}

#[test]
fn cmdname_strips_directory() {
    assert_eq!(cmdname(b"/usr/bin/python3"), "python3");
    assert_eq!(cmdname(b"python3"), "python3");
    assert_eq!(cmdname(b"./foo/bar.py"), "bar.py");
}

#[test]
fn default_paths() {
    assert_eq!(
        PathBuf::from(default_socket_path("python3", 1234)),
        PathBuf::from("./.replstoke_pid1234_python3_socket")
    );
    assert_eq!(
        PathBuf::from(default_pidfile_path("python3", 1234)),
        PathBuf::from("./.replstoke_pid1234_python3_pidfile")
    );
}

#[test]
fn discover_single_socket() {
    let got = discover_one_in(
        &names(&[".replstoke_pid1_python3_socket"]),
        NAME_PREFIX,
        SOCKET_SUFFIX,
        "socket",
    )
    .unwrap();
    assert_eq!(got, b"./.replstoke_pid1_python3_socket");
}

#[test]
fn discover_zero_is_error() {
    let err = discover_one_in(&names(&[]), NAME_PREFIX, SOCKET_SUFFIX, "socket").unwrap_err();
    assert!(err.message.contains("no socket found"));
}

#[test]
fn discover_many_is_error() {
    let err = discover_one_in(
        &names(&[".replstoke_pid1_a_socket", ".replstoke_pid2_b_socket"]),
        NAME_PREFIX,
        SOCKET_SUFFIX,
        "socket",
    )
    .unwrap_err();
    assert!(err.message.contains("found 2 socket"));
}

#[test]
fn discover_distinguishes_socket_from_pidfile_by_suffix() {
    // Socket and pidfile share the prefix; the suffix keeps discovery unambiguous.
    let listing = names(&[".replstoke_pid1_python3_socket", ".replstoke_pid1_python3_pidfile"]);
    let sock = discover_one_in(&listing, NAME_PREFIX, SOCKET_SUFFIX, "socket").unwrap();
    assert_eq!(sock, b"./.replstoke_pid1_python3_socket");
    let pidfile = discover_one_in(&listing, NAME_PREFIX, PIDFILE_SUFFIX, "pidfile").unwrap();
    assert_eq!(pidfile, b"./.replstoke_pid1_python3_pidfile");
}

// ---- further cases -------------------------------------------------------------

#[test]
fn discovery_messages() {
    let e = discover_socket(&names(&["other", ".replstoke_pid9_x_pidfile"])).unwrap_err();
    assert_eq!(e.message, "no socket found matching ./.replstoke_pid*_socket");
    assert_eq!(e.code, lib::error::EXIT_FAILURE);
    let e = discover_pidfile(&names(&[
        ".replstoke_pid1_a_pidfile",
        ".replstoke_pid2_b_pidfile",
        ".replstoke_pid3_c_pidfile",
    ]))
    .unwrap_err();
    assert_eq!(
        e.message,
        "found 3 pidfile matching ./.replstoke_pid*_pidfile; specify one explicitly"
    );
    let p = discover_pidfile(&names(&["a", ".replstoke_pid5_py_pidfile", "b"])).unwrap();
    assert_eq!(p, b"./.replstoke_pid5_py_pidfile");
}

#[test]
fn cmdname_falls_back_to_repl() {
    assert_eq!(cmdname_of(None), "repl");
    assert_eq!(cmdname_of(Some(String::new())), "repl");
    assert_eq!(cmdname_of(Some("ghci".into())), "ghci");
    assert_eq!(cmdname(b"/"), "repl");
}

#[test]
fn cmdname_is_the_last_slash_separated_part() {
    assert_eq!(cmdname(b"a/b/c/ghci"), "ghci");
    assert_eq!(cmdname(b"lean"), "lean");
    assert_eq!(cmdname(b""), "repl");
}
