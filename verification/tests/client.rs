use lib::client::{
    err_markers, finish, out_markers, protocol_failure, raw_markers, scanner_for, RawSession,
    Session,
};
use lib::config::{Bind, ClientConfig, CtlRoute};
use lib::marker::Outcome;
use lib::protocol::{ctl_status, Packet, PacketReader, ProtocolError};
use lib::server::{frame_chunk, Channel};

fn cfg(ctl: CtlRoute) -> ClientConfig {
    ClientConfig {
        bind: Bind::Unix { path: None },
        arginput: None,
        fileinput: None,
        suffix: Vec::new(),
        end_marker_stdout: b"\n\n".to_vec(),
        end_marker_stderr: Vec::new(),
        error_marker_stdout: Vec::new(),
        error_marker_stderr: b"error".to_vec(),
        strip_marker_stdout: true,
        strip_marker_stderr: false,
        ctl,
        raw: false,
        timeout: None,
    }
}

fn pkt(stream: &str, payload: &[u8]) -> Packet {
    Packet { stream: stream.to_string(), payload: payload.to_vec() }
}

#[test]
fn markers_per_stream() {
    let c = cfg(CtlRoute::Ignore);
    assert!(!out_markers(&c).is_empty());
    assert!(!err_markers(&c).is_empty());
    assert!(scanner_for(out_markers(&ClientConfig { end_marker_stdout: Vec::new(), ..cfg(CtlRoute::Ignore) }), false).is_none());
    assert!(!raw_markers(&c).is_empty());
}

#[test]
fn out_stream_ends_the_response() {
    let mut s = Session::new(&cfg(CtlRoute::Ignore));
    let r = s.on_packet(&pkt("out", b"18\n"));
    assert_eq!(r.stdout, b"18");
    assert!(r.done.is_none());
    let r = s.on_packet(&pkt("out", b"\nrest"));
    // the held-back newline is part of the stripped marker
    assert_eq!(r.stdout, b"");
    assert!(matches!(r.done, Some(Ok(()))));
}

#[test]
fn error_marker_on_stderr_fails() {
    let mut s = Session::new(&cfg(CtlRoute::Ignore));
    let r = s.on_packet(&pkt("err", b"Traceback: error here"));
    assert_eq!(r.stderr, b"Traceback: error");
    assert!(r.stdout.is_empty());
    let e = r.done.expect("finished").expect_err("an error marker fails");
    assert_eq!(e.message, "end-of-response error marker seen");
    assert_eq!(e.code, 1);
}

#[test]
fn ctl_messages_are_routed() {
    let mut s = Session::new(&cfg(CtlRoute::Stdout));
    let r = s.on_packet(&pkt("ctl", b"status server_pid=1"));
    assert_eq!(r.stdout, b"status server_pid=1\n");
    assert!(r.done.is_none());
    let mut s = Session::new(&cfg(CtlRoute::Stderr));
    let r = s.on_packet(&pkt("ctl", b"hello"));
    assert_eq!(r.stderr, b"hello\n");
    let mut s = Session::new(&cfg(CtlRoute::Ignore));
    let r = s.on_packet(&pkt("ctl", b"status x"));
    assert!(r.stdout.is_empty() && r.stderr.is_empty() && r.done.is_none());
}

#[test]
fn ctl_error_ends_with_server_message() {
    let mut s = Session::new(&cfg(CtlRoute::Ignore));
    let r = s.on_packet(&pkt("ctl", b"error the REPL process exited"));
    let e = r.done.expect("finished").expect_err("a ctl error fails");
    assert_eq!(e.message, "server: the REPL process exited");
}

#[test]
fn unknown_streams_are_ignored() {
    let mut s = Session::new(&cfg(CtlRoute::Stdout));
    let r = s.on_packet(&pkt("zzz", b"data"));
    assert!(r.stdout.is_empty() && r.stderr.is_empty() && r.done.is_none());
}

#[test]
fn closed_early_flushes_and_fails() {
    let mut s = Session::new(&cfg(CtlRoute::Ignore));
    let r = s.on_packet(&pkt("out", b"partial\n"));
    assert_eq!(r.stdout, b"partial");
    let r = s.on_end();
    assert_eq!(r.stdout, b"\n");
    let e = r.done.expect("finished").expect_err("closing early fails");
    assert_eq!(e.message, "connection closed by server before end-of-response marker");
}

#[test]
fn raw_session_watches_all_markers() {
    let mut c = cfg(CtlRoute::Ignore);
    c.raw = true;
    let mut s = RawSession::new(&c).expect("markers are set");
    let r = s.on_chunk(b"out\nerror");
    // the stdout strip flag governs the merged stream
    assert_eq!(r.stdout, b"out\n");
    assert!(matches!(r.done, Some(Err(_))));
    let none = ClientConfig {
        end_marker_stdout: Vec::new(),
        error_marker_stderr: Vec::new(),
        ..cfg(CtlRoute::Ignore)
    };
    assert!(RawSession::new(&none).is_none());
}

#[test]
fn raw_session_closed_early() {
    let s = RawSession::new(&cfg(CtlRoute::Ignore)).unwrap();
    let r = s.on_end();
    assert!(r.stdout.is_empty());
    assert!(matches!(r.done, Some(Err(_))));
}

#[test]
fn finishing() {
    assert!(finish(Outcome::End).is_ok());
    assert_eq!(finish(Outcome::Error).unwrap_err().message, "end-of-response error marker seen");
}

#[test]
fn protocol_failures() {
    let e = protocol_failure(&ProtocolError::UnsupportedVersion { major: 2, minor: 1 });
    assert_eq!(
        e.message,
        "server protocol version 2.1 is newer than this client supports; read the stream with text tools, or run both server and client with --raw"
    );
    let e = protocol_failure(&ProtocolError::BadFraming("bad length".into()));
    assert_eq!(e.message, "malformed protocol stream: bad length");
    assert_eq!(e.code, 1);
}

#[test]
fn server_frames_read_back_by_the_client() {
    let mut wire = Vec::new();
    wire.extend(frame_chunk(true, Channel::Control, &ctl_status("server_pid=1")));
    wire.extend(frame_chunk(true, Channel::Stderr, b"warning\n"));
    wire.extend(frame_chunk(true, Channel::Stdout, b"18\n"));
    wire.extend(frame_chunk(true, Channel::Stdout, b"\nleftover"));
    let mut c = cfg(CtlRoute::Stdout);
    c.strip_marker_stdout = false;
    let mut session = Session::new(&c);
    let mut reader = PacketReader::new();
    // the bytes arrive in awkward pieces
    for piece in wire.chunks(7) {
        reader.push(piece);
    }
    reader.close();
    let (mut out, mut err) = (Vec::new(), Vec::new());
    let result = loop {
        match reader.read_packet().expect("closed streams decide") {
            Ok(Some(p)) => {
                let r = session.on_packet(&p);
                out.extend(r.stdout);
                err.extend(r.stderr);
                if let Some(done) = r.done {
                    break done;
                }
            }
            Ok(None) => panic!("the marker was sent"),
            Err(e) => panic!("unexpected {e:?}"),
        }
    };
    assert!(result.is_ok());
    assert_eq!(out, b"status server_pid=1\n18\n\n");
    assert_eq!(err, b"warning\n");
}
