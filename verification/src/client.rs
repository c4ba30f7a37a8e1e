//! The client's response handling: which markers it watches, and what it does
//! with each packet (or, in raw mode, each chunk) the server sends.
//!
//! Connecting, sending the input and writing the output are the caller's
//! part. It hands each packet or chunk to a session and gets back the bytes to
//! write to stdout and stderr, and whether the response is complete.

use vstd::prelude::*;
use vstd::string::StrSliceExecFns;
use vstd::utf8::encode_utf8;

use crate::bytes::append_slice;
use crate::config::{ClientConfig, CtlRoute};
use crate::error::{AppError, EXIT_FAILURE};
use crate::marker::{
    drop_empty, feed_result, law_feed_lossless, released, Feed, MarkerList, MarkerScanner, Markers,
    Outcome,
};
use crate::protocol::{
    ctl_of_text, parse_ctl, Ctl, CtlText, Packet, ProtocolError, STREAM_CTL, STREAM_ERR,
    STREAM_OUT,
};
use crate::text::{cat, lossy_string, owned, utf8_lossy};

verus! {

// ---- markers ------------------------------------------------------------------------

/// Markers watched on the REPL's stdout: an end marker (success) and an error
/// marker, either of which may be disabled (empty).
pub fn out_markers(cfg: &ClientConfig) -> (m: Markers)
    ensures
        m@ == drop_empty(
            seq![(cfg.end_marker_stdout@, Outcome::End), (cfg.error_marker_stdout@, Outcome::Error)],
        ),
{
    let mut v: Vec<(Vec<u8>, Outcome)> = Vec::new();
    v.push((crate::cli::copy_bytes(&cfg.end_marker_stdout), Outcome::End));
    v.push((crate::cli::copy_bytes(&cfg.error_marker_stdout), Outcome::Error));
    assert(crate::marker::pairs_view(v@) =~= seq![
        (cfg.end_marker_stdout@, Outcome::End),
        (cfg.error_marker_stdout@, Outcome::Error),
    ]);
    Markers::new(v)
}

/// Markers watched on the REPL's stderr.
pub fn err_markers(cfg: &ClientConfig) -> (m: Markers)
    ensures
        m@ == drop_empty(
            seq![(cfg.end_marker_stderr@, Outcome::End), (cfg.error_marker_stderr@, Outcome::Error)],
        ),
{
    let mut v: Vec<(Vec<u8>, Outcome)> = Vec::new();
    v.push((crate::cli::copy_bytes(&cfg.end_marker_stderr), Outcome::End));
    v.push((crate::cli::copy_bytes(&cfg.error_marker_stderr), Outcome::Error));
    assert(crate::marker::pairs_view(v@) =~= seq![
        (cfg.end_marker_stderr@, Outcome::End),
        (cfg.error_marker_stderr@, Outcome::Error),
    ]);
    Markers::new(v)
}

/// Raw mode collapses the two streams into one, so every marker applies to
/// it.
pub fn raw_markers(cfg: &ClientConfig) -> (m: Markers)
    ensures
        m@ == drop_empty(
            seq![
                (cfg.end_marker_stdout@, Outcome::End),
                (cfg.end_marker_stderr@, Outcome::End),
                (cfg.error_marker_stdout@, Outcome::Error),
                (cfg.error_marker_stderr@, Outcome::Error),
            ],
        ),
{
    let mut v: Vec<(Vec<u8>, Outcome)> = Vec::new();
    v.push((crate::cli::copy_bytes(&cfg.end_marker_stdout), Outcome::End));
    v.push((crate::cli::copy_bytes(&cfg.end_marker_stderr), Outcome::End));
    v.push((crate::cli::copy_bytes(&cfg.error_marker_stdout), Outcome::Error));
    v.push((crate::cli::copy_bytes(&cfg.error_marker_stderr), Outcome::Error));
    assert(crate::marker::pairs_view(v@) =~= seq![
        (cfg.end_marker_stdout@, Outcome::End),
        (cfg.end_marker_stderr@, Outcome::End),
        (cfg.error_marker_stdout@, Outcome::Error),
        (cfg.error_marker_stderr@, Outcome::Error),
    ]);
    Markers::new(v)
}

/// A scanner that has seen nothing yet, watching `ms`.
pub open spec fn fresh(s: MarkerScanner, ms: MarkerList, strip: bool) -> bool {
    &&& s.wf()
    &&& s.marker_list() == ms
    &&& s.strips() == strip
    &&& s.seen() == Seq::<u8>::empty()
    &&& !s.is_done()
}

/// A scanner for the markers, or none when every marker is disabled.
pub fn scanner_for(markers: Markers, strip: bool) -> (r: Option<MarkerScanner>)
    ensures
        match r {
            None => markers@.len() == 0,
            Some(s) => markers@.len() > 0 && fresh(s, markers@, strip),
        },
{
    if markers.is_empty() {
        None
    } else {
        Some(MarkerScanner::new(markers, strip))
    }
}

// ---- outcomes ---------------------------------------------------------------------

pub open spec fn error_marker_msg() -> Seq<char> {
    "end-of-response error marker seen"@
}

pub open spec fn closed_early_msg() -> Seq<char> {
    "connection closed by server before end-of-response marker"@
}

/// How a response ends: `None` is success, `Some(m)` a failure with message
/// `m`.
pub open spec fn outcome_end(o: Outcome) -> Option<Seq<char>> {
    match o {
        Outcome::End => None,
        Outcome::Error => Some(error_marker_msg()),
    }
}

/// Whether a process result is success (`None`) or the failure `m`.
pub open spec fn result_is(r: Result<(), AppError>, end: Option<Seq<char>>) -> bool {
    match end {
        None => r is Ok,
        Some(m) => r matches Err(e) && e.message@ == m && e.code == EXIT_FAILURE,
    }
}

/// Turn a completed response into a process result: an error marker exits
/// non-zero, an end marker exits zero.
pub fn finish(outcome: Outcome) -> (r: Result<(), AppError>)
    ensures
        result_is(r, outcome_end(outcome)),
{
    match outcome {
        Outcome::End => Ok(()),
        Outcome::Error => Err(AppError::failure(owned("end-of-response error marker seen"))),
    }
}

// ---- feeding one stream -------------------------------------------------------------

/// A scanner that can still be fed: consistent and not yet at a marker.
pub open spec fn live(s: Option<MarkerScanner>) -> bool {
    match s {
        Some(sc) => sc.wf() && !sc.is_done(),
        None => true,
    }
}

/// What feeding `payload` to the (optional) scanner gives: the outcome when a
/// marker is found, and the bytes to write.
pub open spec fn scan_result(s: Option<MarkerScanner>, payload: Seq<u8>) -> (Option<Outcome>, Seq<u8>) {
    match s {
        None => (None, payload),
        Some(sc) => feed_result(sc.marker_list(), sc.strips(), sc.seen(), payload),
    }
}

/// The scanner after it was fed `payload` without reaching a marker.
pub open spec fn advanced(before: Option<MarkerScanner>, after: Option<MarkerScanner>, payload: Seq<u8>) -> bool {
    match before {
        None => after is None,
        Some(b) => after matches Some(a) && a.wf() && a.marker_list() == b.marker_list()
            && a.strips() == b.strips() && a.seen() == b.seen() + payload,
    }
}

/// Feed payload to the (optional) scanner. Returns the bytes to write and the
/// outcome when a marker is found.
pub fn feed(scanner: &mut Option<MarkerScanner>, payload: &[u8]) -> (r: (Vec<u8>, Option<Outcome>))
    requires
        live(*old(scanner)),
    ensures
        (r.1, r.0@) == scan_result(*old(scanner), payload@),
        *old(scanner) is None ==> r.0@ == payload@ && r.1 is None,
        advanced(*old(scanner), *final(scanner), payload@),
        r.1 is None ==> live(*final(scanner)),
{
    match scanner {
        None => (crate::bytes::slice_range(payload, 0, payload.len()), None),
        Some(s) => match s.feed(payload) {
            Feed::More(bytes) => (bytes, None),
            Feed::Done { outcome, bytes } => (bytes, Some(outcome)),
        },
    }
}

/// The bytes a live scanner still holds back.
pub open spec fn held(s: Option<MarkerScanner>) -> Seq<u8> {
    match s {
        Some(sc) => sc.seen().subrange(released(sc.marker_list(), sc.seen()), sc.seen().len() as int),
        None => Seq::empty(),
    }
}

/// Until a marker is found, a stream loses nothing: the bytes written for a
/// payload, followed by what the scanner then holds back, are what it held
/// back before followed by the payload. With no marker watched, nothing is
/// held, so the payload is written unchanged.
pub proof fn law_stream_lossless(before: Option<MarkerScanner>, after: Option<MarkerScanner>, payload: Seq<u8>)
    requires
        live(before),
        advanced(before, after, payload),
        scan_result(before, payload).0 is None,
    ensures
        scan_result(before, payload).1 + held(after) == held(before) + payload,
        before is None ==> scan_result(before, payload).1 == payload,
{
    match before {
        Some(b) => {
            b.lemma_live();
            law_feed_lossless(b.marker_list(), b.strips(), b.seen(), payload);
        },
        None => {
            assert(payload + Seq::<u8>::empty() =~= payload);
            assert(Seq::<u8>::empty() + payload =~= payload);
        },
    }
}

/// The bytes still held back when the stream ends without a marker match.
pub fn flush_scanner(scanner: Option<MarkerScanner>) -> (r: Vec<u8>)
    requires
        live(scanner),
    ensures
        r@ == held(scanner),
{
    match scanner {
        Some(s) => s.flush(),
        None => Vec::new(),
    }
}

// ---- the framed session -------------------------------------------------------------

/// What to do after a packet or chunk: write `stdout` and `stderr`, then, if
/// `done` is set, stop with that result.
pub struct Reaction {
    pub stdout: Vec<u8>,
    pub stderr: Vec<u8>,
    pub done: Option<Result<(), AppError>>,
}

/// Whether a reaction writes `out` and `err` and ends as `end` says (`None`:
/// read on; `Some(None)`: success; `Some(Some(m))`: failure `m`).
pub open spec fn reaction_is(r: Reaction, out: Seq<u8>, err: Seq<u8>, end: Option<Option<Seq<char>>>) -> bool {
    &&& r.stdout@ == out
    &&& r.stderr@ == err
    &&& match end {
        None => r.done is None,
        Some(e) => r.done matches Some(res) && result_is(res, e),
    }
}

/// A control message as the client prints it: its text and a newline.
pub open spec fn ctl_line(payload: Seq<u8>) -> Seq<u8> {
    encode_utf8(utf8_lossy(payload)).push(10u8)
}

/// What a `ctl` packet does: an error ends the response with the server's
/// message; anything else is printed where `--ctl` routes it.
pub open spec fn ctl_reaction(route: CtlRoute, payload: Seq<u8>) -> (Seq<u8>, Seq<u8>, Option<Option<Seq<char>>>) {
    match ctl_of_text(utf8_lossy(payload)) {
        CtlText::Error(m) => (Seq::empty(), Seq::empty(), Some(Some("server: "@ + m))),
        _ => match route {
            CtlRoute::Ignore => (Seq::empty(), Seq::empty(), None),
            CtlRoute::Stdout => (ctl_line(payload), Seq::empty(), None),
            CtlRoute::Stderr => (Seq::empty(), ctl_line(payload), None),
        },
    }
}

/// How a response in progress ends once a stream's scanner reports.
pub open spec fn end_of(o: Option<Outcome>) -> Option<Option<Seq<char>>> {
    match o {
        None => None,
        Some(x) => Some(outcome_end(x)),
    }
}

/// Reads a framed response: the scanners of the REPL's two streams and where
/// control messages go.
pub struct Session {
    out: Option<MarkerScanner>,
    err: Option<MarkerScanner>,
    ctl: CtlRoute,
}

impl Session {
    /// The scanner of the REPL's stdout (`None`: no marker watched).
    pub closed spec fn out_scanner(&self) -> Option<MarkerScanner> {
        self.out
    }

    /// The scanner of the REPL's stderr.
    pub closed spec fn err_scanner(&self) -> Option<MarkerScanner> {
        self.err
    }

    /// Where control messages go.
    pub closed spec fn route(&self) -> CtlRoute {
        self.ctl
    }

    /// Both scanners can still be fed.
    pub open spec fn live(&self) -> bool {
        live(self.out_scanner()) && live(self.err_scanner())
    }

    /// A session for the client configuration: stdout and stderr each watch
    /// their end and error markers.
    pub fn new(cfg: &ClientConfig) -> (s: Session)
        ensures
            s.live(),
            s.route() == cfg.ctl,
            match s.out_scanner() {
                None => out_markers_of(cfg).len() == 0,
                Some(sc) => out_markers_of(cfg).len() > 0 && fresh(
                    sc,
                    out_markers_of(cfg),
                    cfg.strip_marker_stdout,
                ),
            },
            match s.err_scanner() {
                None => err_markers_of(cfg).len() == 0,
                Some(sc) => err_markers_of(cfg).len() > 0 && fresh(
                    sc,
                    err_markers_of(cfg),
                    cfg.strip_marker_stderr,
                ),
            },
    {
        let out = scanner_for(out_markers(cfg), cfg.strip_marker_stdout);
        let err = scanner_for(err_markers(cfg), cfg.strip_marker_stderr);
        Session { out, err, ctl: cfg.ctl }
    }

    /// Handle one packet. Unknown streams are ignored, for forward
    /// compatibility.
    pub fn on_packet(&mut self, pkt: &Packet) -> (r: Reaction)
        requires
            old(self).live(),
        ensures
            final(self).route() == old(self).route(),
            ({
                let s = pkt.stream@;
                let p = pkt.payload@;
                if s == STREAM_OUT@ {
                    let (o, bytes) = scan_result(old(self).out_scanner(), p);
                    &&& reaction_is(r, bytes, Seq::empty(), end_of(o))
                    &&& advanced(old(self).out_scanner(), final(self).out_scanner(), p)
                    &&& final(self).err_scanner() == old(self).err_scanner()
                    &&& (o is None ==> final(self).live())
                } else if s == STREAM_ERR@ {
                    let (o, bytes) = scan_result(old(self).err_scanner(), p);
                    &&& reaction_is(r, Seq::empty(), bytes, end_of(o))
                    &&& advanced(old(self).err_scanner(), final(self).err_scanner(), p)
                    &&& final(self).out_scanner() == old(self).out_scanner()
                    &&& (o is None ==> final(self).live())
                } else {
                    &&& *final(self) == *old(self)
                    &&& if s == STREAM_CTL@ {
                        let (out, err, end) = ctl_reaction(old(self).route(), p);
                        reaction_is(r, out, err, end)
                    } else {
                        reaction_is(r, Seq::empty(), Seq::empty(), None)
                    }
                }
            }),
    {
        if crate::cli::is_name(&pkt.stream, STREAM_OUT) {
            let (bytes, o) = feed(&mut self.out, pkt.payload.as_slice());
            let done = match o {
                None => None,
                Some(x) => Some(finish(x)),
            };
            Reaction { stdout: bytes, stderr: Vec::new(), done }
        } else if crate::cli::is_name(&pkt.stream, STREAM_ERR) {
            let (bytes, o) = feed(&mut self.err, pkt.payload.as_slice());
            let done = match o {
                None => None,
                Some(x) => Some(finish(x)),
            };
            Reaction { stdout: Vec::new(), stderr: bytes, done }
        } else if crate::cli::is_name(&pkt.stream, STREAM_CTL) {
            let text = lossy_string(pkt.payload.as_slice());
            match parse_ctl(pkt.payload.as_slice()) {
                Ctl::Error(msg) => Reaction {
                    stdout: Vec::new(),
                    stderr: Vec::new(),
                    done: Some(Err(AppError::failure(cat("server: ", msg.as_str())))),
                },
                _ => {
                    let mut line = text.as_str().as_bytes_vec();
                    line.push(10u8);
                    match self.ctl {
                        CtlRoute::Ignore => Reaction {
                            stdout: Vec::new(),
                            stderr: Vec::new(),
                            done: None,
                        },
                        CtlRoute::Stdout => Reaction { stdout: line, stderr: Vec::new(), done: None },
                        CtlRoute::Stderr => Reaction { stdout: Vec::new(), stderr: line, done: None },
                    }
                },
            }
        } else {
            Reaction { stdout: Vec::new(), stderr: Vec::new(), done: None }
        }
    }

    /// The server closed the connection at a packet boundary before a marker:
    /// write what the scanners held back and fail.
    pub fn on_end(self) -> (r: Reaction)
        requires
            self.live(),
        ensures
            reaction_is(
                r,
                held(self.out_scanner()),
                held(self.err_scanner()),
                Some(Some(closed_early_msg())),
            ),
    {
        let out = flush_scanner(self.out);
        let err = flush_scanner(self.err);
        Reaction {
            stdout: out,
            stderr: err,
            done: Some(Err(AppError::failure(owned("connection closed by server before end-of-response marker")))),
        }
    }
}

/// The markers the session watches on stdout.
pub open spec fn out_markers_of(cfg: &ClientConfig) -> MarkerList {
    drop_empty(seq![(cfg.end_marker_stdout@, Outcome::End), (cfg.error_marker_stdout@, Outcome::Error)])
}

/// The markers the session watches on stderr.
pub open spec fn err_markers_of(cfg: &ClientConfig) -> MarkerList {
    drop_empty(seq![(cfg.end_marker_stderr@, Outcome::End), (cfg.error_marker_stderr@, Outcome::Error)])
}

/// The text of an I/O error, as `std::io::Error`'s `Display` shows it. It
/// comes from the operating system, so nothing is promised of it.
#[verifier::external_body]
fn io_error_text(e: &std::io::Error) -> (s: String) {
    e.to_string()
}

pub open spec fn unsupported_msg(major: u32, minor: u32) -> Seq<char> {
    "server protocol version "@ + crate::text::decimal(major as nat) + "."@ + crate::text::decimal(
        minor as nat,
    ) + " is newer than this client supports; read the stream with text tools, or run both server and client with --raw"@
}

/// The error a client reports when the packet stream cannot be read.
pub fn protocol_failure(e: &ProtocolError) -> (r: AppError)
    ensures
        r.code == EXIT_FAILURE,
        match e {
            ProtocolError::UnsupportedVersion { major, minor } => r.message@ == unsupported_msg(
                *major,
                *minor,
            ),
            ProtocolError::BadFraming(m) => r.message@ == "malformed protocol stream: "@ + m@,
            ProtocolError::Io(_) => true,
        },
{
    match e {
        ProtocolError::UnsupportedVersion { major, minor } => {
            let mut m = owned("server protocol version ");
            m.append(crate::text::decimal_string(*major as u64).as_str());
            m.append(".");
            m.append(crate::text::decimal_string(*minor as u64).as_str());
            m.append(
                " is newer than this client supports; read the stream with text tools, or run both server and client with --raw",
            );
            AppError::failure(m)
        },
        ProtocolError::BadFraming(m) => AppError::failure(cat("malformed protocol stream: ", m.as_str())),
        ProtocolError::Io(err) => AppError::failure(io_error_text(err)),
    }
}

// ---- the raw session ------------------------------------------------------------------

/// Reads an unframed response: one stream that carries both of the REPL's
/// streams, watched for all four markers; the stdout strip flag governs
/// stripping.
pub struct RawSession {
    scanner: MarkerScanner,
}

/// The markers watched in raw mode.
pub open spec fn raw_markers_of(cfg: &ClientConfig) -> MarkerList {
    drop_empty(
        seq![
            (cfg.end_marker_stdout@, Outcome::End),
            (cfg.end_marker_stderr@, Outcome::End),
            (cfg.error_marker_stdout@, Outcome::Error),
            (cfg.error_marker_stderr@, Outcome::Error),
        ],
    )
}

impl RawSession {
    /// The scanner of the merged stream.
    pub closed spec fn scanner(&self) -> MarkerScanner {
        self.scanner
    }

    pub open spec fn live(&self) -> bool {
        self.scanner().wf() && !self.scanner().is_done()
    }

    /// A raw session, or `None` when every marker is disabled (the response
    /// is then everything until the server closes the connection).
    pub fn new(cfg: &ClientConfig) -> (r: Option<RawSession>)
        ensures
            match r {
                None => raw_markers_of(cfg).len() == 0,
                Some(s) => raw_markers_of(cfg).len() > 0 && s.live() && fresh(
                    s.scanner(),
                    raw_markers_of(cfg),
                    cfg.strip_marker_stdout,
                ),
            },
    {
        match scanner_for(raw_markers(cfg), cfg.strip_marker_stdout) {
            None => None,
            Some(scanner) => Some(RawSession { scanner }),
        }
    }

    /// Handle one chunk read from the server.
    pub fn on_chunk(&mut self, chunk: &[u8]) -> (r: Reaction)
        requires
            old(self).live(),
        ensures
            ({
                let (o, bytes) = feed_result(
                    old(self).scanner().marker_list(),
                    old(self).scanner().strips(),
                    old(self).scanner().seen(),
                    chunk@,
                );
                &&& reaction_is(r, bytes, Seq::empty(), end_of(o))
                &&& final(self).scanner().marker_list() == old(self).scanner().marker_list()
                &&& final(self).scanner().strips() == old(self).scanner().strips()
                &&& final(self).scanner().seen() == old(self).scanner().seen() + chunk@
                &&& (o is None ==> final(self).live())
            }),
    {
        match self.scanner.feed(chunk) {
            Feed::More(bytes) => Reaction { stdout: bytes, stderr: Vec::new(), done: None },
            Feed::Done { outcome, bytes } => Reaction {
                stdout: bytes,
                stderr: Vec::new(),
                done: Some(finish(outcome)),
            },
        }
    }

    /// The server closed the connection before a marker: write what the
    /// scanner held back and fail.
    pub fn on_end(self) -> (r: Reaction)
        requires
            self.live(),
        ensures
            reaction_is(r, held(Some(self.scanner())), Seq::empty(), Some(Some(closed_early_msg()))),
    {
        let out = self.scanner.flush();
        Reaction {
            stdout: out,
            stderr: Vec::new(),
            done: Some(Err(AppError::failure(owned("connection closed by server before end-of-response marker")))),
        }
    }
}

} // verus!
