use lib::general::{not_terminated, read_pid};

#[test]
fn pidfile_contents() {
    assert_eq!(read_pid(b"/tmp/p", "1234\n").unwrap(), 1234);
    assert_eq!(read_pid(b"/tmp/p", "  77 \t\n").unwrap(), 77);
    let e = read_pid(b"/tmp/p", "abc").unwrap_err();
    assert_eq!(e.message, "pidfile '/tmp/p' does not contain a valid pid");
    assert_eq!(e.code, 1);
    assert!(read_pid(b"/tmp/p", "4294967296").is_err());
    assert!(read_pid(b"/tmp/p", "").is_err());
}

#[test]
fn kill_failure_message() {
    assert_eq!(not_terminated(42).message, "could not terminate server with pid 42");
}

#[test]
fn pidfile_trim_takes_off_unicode_whitespace_only_at_the_ends() {
    assert_eq!(read_pid(b"/tmp/p", "\u{3000}\u{a0}42\u{2029}\r\n").unwrap(), 42);
    assert_eq!(read_pid(b"/tmp/p", "\u{85}\u{1680}9\u{200a}").unwrap(), 9);
    assert!(read_pid(b"/tmp/p", "4\u{3000}2").is_err());
    assert!(read_pid(b"/tmp/p", " \u{2003}\t").is_err());
}
